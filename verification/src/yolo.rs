//! The sidecar label-file format.
//!
//! One line per segment: `label_id cx cy w h`, space-separated, each
//! coordinate a fraction clamped into the unit range on the way out.
//! Empty lines carry no record. Writing a segment list and parsing the
//! text back gives the same list, proved in `lemma_sidecar_roundtrip`.

use vstd::prelude::*;

use crate::digits::DOT;
use crate::digits::MAX_WHOLE;
use crate::digits::NEWLINE;
use crate::digits::SPACE;
use crate::digits::all_digits;
use crate::digits::digits_val;
use crate::digits::fmt_coord;
use crate::digits::fmt_u32;
use crate::digits::is_digit;
use crate::digits::lemma_coord_roundtrip;
use crate::digits::lemma_digits_val_nonneg;
use crate::digits::lemma_fmt_u64_digits;
use crate::digits::lemma_first_dot;
use crate::digits::lemma_pad_val;
use crate::digits::lemma_strip0;
use crate::digits::pad;
use crate::digits::parse_coord;
use crate::digits::parse_u32;
use crate::digits::pow10;
use crate::digits::spec_fmt_coord;
use crate::digits::spec_fmt_u64;
use crate::digits::spec_parse_coord;
use crate::digits::strip0;
use crate::errors::LoadError;
use crate::fixed::SCALE;
use crate::fixed::clamp_unit;
use crate::fixed::spec_clamp_unit;
use crate::geom::Vec2;
use crate::project::Segment;

verus! {

/// A dataset descriptor reduced to plain values: the image directories
/// and the label-ID/name mapping.
pub struct YoloDataConfig {
    pub train: Vec<u8>,
    pub val: Vec<u8>,
    pub test: Option<Vec<u8>>,
    pub names: Vec<(u32, Vec<u8>)>,
}

pub open spec fn no_byte(s: Seq<u8>, c: u8) -> bool {
    forall|i: int| 0 <= i < s.len() ==> s[i] != c
}

/// Split on a separator byte; a string of `n` separators yields `n + 1`
/// tokens, so the empty string yields one empty token.
pub open spec fn split_on(s: Seq<u8>, sep: u8) -> Seq<Seq<u8>>
    decreases s.len(),
{
    if s.len() == 0 {
        seq![s]
    } else if s[0] == sep {
        seq![Seq::<u8>::empty()] + split_on(s.drop_first(), sep)
    } else {
        let rest = split_on(s.drop_first(), sep);
        seq![seq![s[0]] + rest[0]] + rest.skip(1)
    }
}

pub proof fn lemma_split_len(s: Seq<u8>, sep: u8)
    ensures
        split_on(s, sep).len() >= 1,
    decreases s.len(),
{
    if s.len() > 0 {
        lemma_split_len(s.drop_first(), sep);
    }
}

/// A separator-free string is a single token.
pub proof fn lemma_split_single(t: Seq<u8>, sep: u8)
    requires
        no_byte(t, sep),
    ensures
        split_on(t, sep) =~~= seq![t],
    decreases t.len(),
{
    if t.len() > 0 {
        let d = t.drop_first();
        assert(no_byte(d, sep)) by {
            assert(forall|i: int| 0 <= i < d.len() ==> d[i] == #[trigger] t[i + 1]);
        }
        lemma_split_single(d, sep);
        lemma_split_len(d, sep);
        assert(seq![t[0]] + d =~= t);
        assert(split_on(d, sep).skip(1) =~= Seq::<Seq<u8>>::empty());
    }
}

/// Splitting `token sep rest` yields the token and then the split of the
/// rest, when the token is separator-free.
pub proof fn lemma_split_append(t: Seq<u8>, rest: Seq<u8>, sep: u8)
    requires
        no_byte(t, sep),
    ensures
        split_on(t + seq![sep] + rest, sep) =~~= seq![t] + split_on(rest, sep),
    decreases t.len(),
{
    let s = t + seq![sep] + rest;
    if t.len() == 0 {
        assert(s[0] == sep);
        assert(s.drop_first() =~= rest);
    } else {
        assert(s[0] == t[0]);
        assert(s[0] != sep);
        let d = t.drop_first();
        assert(no_byte(d, sep)) by {
            assert(forall|i: int| 0 <= i < d.len() ==> d[i] == #[trigger] t[i + 1]);
        }
        lemma_split_append(d, rest, sep);
        assert(s.drop_first() =~= d + seq![sep] + rest);
        let inner = split_on(s.drop_first(), sep);
        assert(inner =~~= seq![d] + split_on(rest, sep));
        lemma_split_len(rest, sep);
        assert(inner[0] == d);
        assert(seq![s[0]] + inner[0] =~= t);
        assert(inner.skip(1) =~~= split_on(rest, sep));
    }
}

/// Split a byte string on a separator.
pub fn split_bytes(s: &[u8], sep: u8) -> (parts: Vec<Vec<u8>>)
    ensures
        parts@.map_values(|t: Vec<u8>| t@) == split_on(s@, sep),
{
    let mut parts: Vec<Vec<u8>> = Vec::new();
    let mut cur: Vec<u8> = Vec::new();
    let mut i: usize = 0;
    proof {
        assert(parts@.map_values(|t: Vec<u8>| t@) =~= Seq::<Seq<u8>>::empty());
        assert(cur@ + s@.skip(0) =~= s@);
    }
    while i < s.len()
        invariant
            0 <= i <= s@.len(),
            no_byte(cur@, sep),
            split_on(s@, sep) =~~= parts@.map_values(|t: Vec<u8>| t@) + split_on(
                cur@ + s@.skip(i as int),
                sep,
            ),
        decreases s@.len() - i,
    {
        let b: u8 = s[i];
        if b == sep {
            proof {
                assert(cur@ + s@.skip(i as int) =~= cur@ + seq![sep] + s@.skip(i + 1));
                lemma_split_append(cur@, s@.skip(i + 1), sep);
                assert((parts@.push(cur)).map_values(|t: Vec<u8>| t@) =~= parts@.map_values(
                    |t: Vec<u8>| t@,
                ).push(cur@));
            }
            parts.push(cur);
            cur = Vec::new();
        } else {
            proof {
                assert(cur@ + s@.skip(i as int) =~= cur@.push(b) + s@.skip(i + 1));
            }
            cur.push(b);
        }
        i = i + 1;
    }
    proof {
        assert(cur@ + s@.skip(i as int) =~= cur@);
        lemma_split_single(cur@, sep);
        assert((parts@.push(cur)).map_values(|t: Vec<u8>| t@) =~= parts@.map_values(
            |t: Vec<u8>| t@,
        ).push(cur@));
    }
    parts.push(cur);
    parts
}

/// Text of one segment: ID and the four clamped coordinates, space
/// separated.
pub open spec fn spec_fmt_segment(seg: Segment) -> Seq<u8> {
    spec_fmt_u64(seg.label_id as int) + seq![SPACE] + spec_fmt_coord(
        spec_clamp_unit(seg.center.x as int),
    ) + seq![SPACE] + spec_fmt_coord(spec_clamp_unit(seg.center.y as int)) + seq![SPACE]
        + spec_fmt_coord(spec_clamp_unit(seg.size.x as int)) + seq![SPACE] + spec_fmt_coord(
        spec_clamp_unit(seg.size.y as int),
    )
}

/// Write one segment as its sidecar line (without the newline).
pub fn fmt_segment(seg: &Segment) -> (r: Vec<u8>)
    ensures
        r@ == spec_fmt_segment(*seg),
{
    let mut out = fmt_u32(seg.label_id);
    out.push(SPACE);
    let mut t = fmt_coord(clamp_unit(seg.center.x));
    out.append(&mut t);
    out.push(SPACE);
    let mut t = fmt_coord(clamp_unit(seg.center.y));
    out.append(&mut t);
    out.push(SPACE);
    let mut t = fmt_coord(clamp_unit(seg.size.x));
    out.append(&mut t);
    out.push(SPACE);
    let mut t = fmt_coord(clamp_unit(seg.size.y));
    out.append(&mut t);
    proof {
        assert(out@ =~= spec_fmt_segment(*seg));
    }
    out
}

/// Value of one sidecar line: five space-separated fields, an ID and
/// four coordinates.
pub open spec fn spec_parse_line(s: Seq<u8>) -> Option<Segment> {
    let parts = split_on(s, SPACE);
    if parts.len() == 5 {
        let idt = parts[0];
        if idt.len() >= 1 && all_digits(idt) && digits_val(idt) <= u32::MAX
            && spec_parse_coord(parts[1]) is Some && spec_parse_coord(parts[2]) is Some
            && spec_parse_coord(parts[3]) is Some && spec_parse_coord(parts[4]) is Some {
            Some(
                Segment {
                    label_id: digits_val(idt) as u32,
                    center: Vec2 {
                        x: spec_parse_coord(parts[1])->0 as i64,
                        y: spec_parse_coord(parts[2])->0 as i64,
                    },
                    size: Vec2 {
                        x: spec_parse_coord(parts[3])->0 as i64,
                        y: spec_parse_coord(parts[4])->0 as i64,
                    },
                },
            )
        } else {
            None
        }
    } else {
        None
    }
}

/// Parse one sidecar line. Succeeds exactly on five space-separated
/// fields: a label ID and four in-range coordinate texts.
pub fn parse_line(s: &[u8]) -> (r: Option<Segment>)
    ensures
        r == spec_parse_line(s@),
        r is Some ==> crate::project::seg_in_range(r->0),
{
    let parts = split_bytes(s, SPACE);
    proof {
        assert(forall|k: int|
            0 <= k < parts@.len() ==> (#[trigger] parts@[k])@ == parts@.map_values(
                |t: Vec<u8>| t@,
            )[k]);
    }
    if parts.len() != 5 {
        return None;
    }
    let id: u32 = match parse_u32(parts[0].as_slice()) {
        Some(v) => v,
        None => {
            proof {
                let idt = parts@[0]@;
                if idt.len() >= 1 && all_digits(idt) {
                    lemma_digits_val_nonneg(idt);
                }
            }
            return None;
        },
    };
    let cx: i64 = match parse_coord(parts[1].as_slice()) {
        Some(v) => v,
        None => {
            return None;
        },
    };
    let cy: i64 = match parse_coord(parts[2].as_slice()) {
        Some(v) => v,
        None => {
            return None;
        },
    };
    let sx: i64 = match parse_coord(parts[3].as_slice()) {
        Some(v) => v,
        None => {
            return None;
        },
    };
    let sy: i64 = match parse_coord(parts[4].as_slice()) {
        Some(v) => v,
        None => {
            return None;
        },
    };
    Some(Segment { label_id: id, center: Vec2 { x: cx, y: cy }, size: Vec2 { x: sx, y: sy } })
}

/// Bytes of a coordinate text are digits or the dot — never a space or a
/// newline — and there is at least one.
pub proof fn lemma_fmt_coord_bytes(q: int)
    requires
        0 <= q <= SCALE,
    ensures
        spec_fmt_coord(q).len() >= 1,
        forall|i: int|
            0 <= i < spec_fmt_coord(q).len() ==> (is_digit(#[trigger] spec_fmt_coord(q)[i])
                || spec_fmt_coord(q)[i] == DOT),
{
    let ip = q / (SCALE as int);
    let fr = q % (SCALE as int);
    vstd::arithmetic::div_mod::lemma_fundamental_div_mod(q, SCALE as int);
    lemma_fmt_u64_digits(ip);
    let a = spec_fmt_u64(ip);
    if fr != 0 {
        assert(pow10(6) == 1_000_000) by {
            reveal_with_fuel(pow10, 7);
        }
        lemma_pad_val(6, fr);
        lemma_strip0(pad(6, fr));
        let f = strip0(pad(6, fr));
        let s = spec_fmt_coord(q);
        assert(s == a + seq![DOT] + f);
        assert(forall|i: int| 0 <= i < a.len() ==> s[i] == #[trigger] a[i]);
        assert(s[a.len() as int] == DOT);
        assert(forall|i: int|
            0 <= i < f.len() ==> s[a.len() + 1 + i] == #[trigger] f[i]);
        assert(forall|i: int|
            a.len() + 1 <= i < s.len() ==> s[i] == #[trigger] f[i - a.len() - 1]);
    }
}

/// One whole sidecar file: each segment's line, newline-terminated.
pub open spec fn spec_fmt_sidecar(segs: Seq<Segment>) -> Seq<u8>
    decreases segs.len(),
{
    if segs.len() == 0 {
        Seq::empty()
    } else {
        spec_fmt_segment(segs[0]) + seq![NEWLINE] + spec_fmt_sidecar(segs.drop_first())
    }
}

pub proof fn lemma_fmt_sidecar_push(segs: Seq<Segment>, seg: Segment)
    ensures
        spec_fmt_sidecar(segs.push(seg)) =~~= spec_fmt_sidecar(segs) + spec_fmt_segment(seg)
            + seq![NEWLINE],
    decreases segs.len(),
{
    if segs.len() == 0 {
        assert(segs.push(seg)[0] == seg);
        assert(segs.push(seg).drop_first() =~= Seq::<Segment>::empty());
        assert(spec_fmt_sidecar(segs.push(seg)) == spec_fmt_segment(seg) + seq![NEWLINE]
            + spec_fmt_sidecar(Seq::<Segment>::empty()));
        assert(spec_fmt_sidecar(segs) =~= Seq::<u8>::empty());
    } else {
        lemma_fmt_sidecar_push(segs.drop_first(), seg);
        assert(segs.push(seg).drop_first() =~= segs.drop_first().push(seg));
        assert(segs.push(seg)[0] == segs[0]);
        assert(spec_fmt_sidecar(segs.push(seg)) == spec_fmt_segment(segs[0]) + seq![NEWLINE]
            + spec_fmt_sidecar(segs.drop_first().push(seg)));
        assert(spec_fmt_sidecar(segs) == spec_fmt_segment(segs[0]) + seq![NEWLINE]
            + spec_fmt_sidecar(segs.drop_first()));
    }
}

/// Write a segment list as sidecar text.
pub fn fmt_sidecar(segs: &Vec<Segment>) -> (r: Vec<u8>)
    ensures
        r@ == spec_fmt_sidecar(segs@),
{
    let mut out: Vec<u8> = Vec::new();
    let mut i: usize = 0;
    while i < segs.len()
        invariant
            0 <= i <= segs@.len(),
            out@ == spec_fmt_sidecar(segs@.take(i as int)),
        decreases segs@.len() - i,
    {
        let mut line = fmt_segment(&segs[i]);
        out.append(&mut line);
        out.push(NEWLINE);
        proof {
            assert(segs@.take(i + 1) =~= segs@.take(i as int).push(segs@[i as int]));
            lemma_fmt_sidecar_push(segs@.take(i as int), segs@[i as int]);
        }
        i = i + 1;
    }
    proof {
        assert(segs@.take(i as int) =~= segs@);
    }
    out
}

/// Value of a sequence of sidecar lines: empty lines carry no record, a
/// malformed line fails the whole parse.
pub open spec fn spec_parse_lines(lines: Seq<Seq<u8>>) -> Option<Seq<Segment>>
    decreases lines.len(),
{
    if lines.len() == 0 {
        Some(Seq::empty())
    } else {
        let rest = spec_parse_lines(lines.drop_first());
        if lines[0].len() == 0 {
            rest
        } else {
            match spec_parse_line(lines[0]) {
                Some(seg) => match rest {
                    Some(r) => Some(seq![seg] + r),
                    None => None,
                },
                None => None,
            }
        }
    }
}

pub open spec fn spec_parse_sidecar(s: Seq<u8>) -> Option<Seq<Segment>> {
    spec_parse_lines(split_on(s, NEWLINE))
}

fn parse_lines_from(parts: &Vec<Vec<u8>>, i: usize) -> (r: Result<Vec<Segment>, LoadError>)
    requires
        0 <= i <= parts@.len(),
    ensures
        match r {
            Ok(segs) => spec_parse_lines(parts@.map_values(|t: Vec<u8>| t@).skip(i as int))
                == Some(segs@) && forall|k: int|
                0 <= k < segs@.len() ==> crate::project::seg_in_range(#[trigger] segs@[k]),
            Err(e) => spec_parse_lines(parts@.map_values(|t: Vec<u8>| t@).skip(i as int))
                is None && e is MalformedSidecarLine,
        },
    decreases parts@.len() - i,
{
    let ghost lines = parts@.map_values(|t: Vec<u8>| t@);
    if i == parts.len() {
        proof {
            assert(lines.skip(i as int) =~= Seq::<Seq<u8>>::empty());
        }
        Ok(Vec::new())
    } else {
        proof {
            assert(lines.skip(i as int).len() > 0);
            assert(lines.skip(i as int)[0] == parts@[i as int]@);
            assert(lines.skip(i as int).drop_first() =~= lines.skip(i + 1));
        }
        if parts[i].len() == 0 {
            parse_lines_from(parts, i + 1)
        } else {
            match parse_line(parts[i].as_slice()) {
                Some(seg) => {
                    match parse_lines_from(parts, i + 1) {
                        Ok(mut rest) => {
                            let ghost pre = rest@;
                            rest.insert(0, seg);
                            proof {
                                assert(rest@ =~= seq![seg] + pre);
                            }
                            Ok(rest)
                        },
                        Err(e) => Err(e),
                    }
                },
                None => Err(LoadError::MalformedSidecarLine),
            }
        }
    }
}

/// Parse a whole sidecar file. Succeeds exactly when every non-empty
/// line is a well-formed record; the records come back in line order.
pub fn parse_sidecar(s: &[u8]) -> (r: Result<Vec<Segment>, LoadError>)
    ensures
        match r {
            Ok(segs) => spec_parse_sidecar(s@) == Some(segs@) && forall|k: int|
                0 <= k < segs@.len() ==> crate::project::seg_in_range(#[trigger] segs@[k]),
            Err(e) => spec_parse_sidecar(s@) is None && e is MalformedSidecarLine,
        },
{
    let parts = split_bytes(s, NEWLINE);
    let r = parse_lines_from(&parts, 0);
    proof {
        assert(parts@.map_values(|t: Vec<u8>| t@).skip(0) =~= parts@.map_values(
            |t: Vec<u8>| t@,
        ));
    }
    r
}

/// Round-trip for one segment: writing a segment whose coordinates are
/// already in the unit range and parsing the line back gives the same
/// segment.
pub proof fn lemma_segment_roundtrip(seg: Segment)
    requires
        0 <= seg.center.x <= SCALE,
        0 <= seg.center.y <= SCALE,
        0 <= seg.size.x <= SCALE,
        0 <= seg.size.y <= SCALE,
    ensures
        spec_parse_line(spec_fmt_segment(seg)) == Some(seg),
{
    let idt = spec_fmt_u64(seg.label_id as int);
    let c1 = spec_fmt_coord(spec_clamp_unit(seg.center.x as int));
    let c2 = spec_fmt_coord(spec_clamp_unit(seg.center.y as int));
    let c3 = spec_fmt_coord(spec_clamp_unit(seg.size.x as int));
    let c4 = spec_fmt_coord(spec_clamp_unit(seg.size.y as int));
    lemma_fmt_u64_digits(seg.label_id as int);
    lemma_fmt_coord_bytes(seg.center.x as int);
    lemma_fmt_coord_bytes(seg.center.y as int);
    lemma_fmt_coord_bytes(seg.size.x as int);
    lemma_fmt_coord_bytes(seg.size.y as int);
    let s = spec_fmt_segment(seg);
    assert(s =~= idt + seq![SPACE] + (c1 + seq![SPACE] + (c2 + seq![SPACE] + (c3 + seq![SPACE]
        + c4))));
    lemma_split_append(idt, c1 + seq![SPACE] + (c2 + seq![SPACE] + (c3 + seq![SPACE] + c4)), SPACE);
    assert(c1 + seq![SPACE] + (c2 + seq![SPACE] + (c3 + seq![SPACE] + c4)) =~= c1 + seq![SPACE] + (
    c2 + seq![SPACE] + (c3 + seq![SPACE] + c4)));
    lemma_split_append(c1, c2 + seq![SPACE] + (c3 + seq![SPACE] + c4), SPACE);
    lemma_split_append(c2, c3 + seq![SPACE] + c4, SPACE);
    lemma_split_append(c3, c4, SPACE);
    lemma_split_single(c4, SPACE);
    let parts = split_on(s, SPACE);
    assert(parts =~~= seq![idt, c1, c2, c3, c4]);
    lemma_coord_roundtrip(seg.center.x as int);
    lemma_coord_roundtrip(seg.center.y as int);
    lemma_coord_roundtrip(seg.size.x as int);
    lemma_coord_roundtrip(seg.size.y as int);
}

/// Round-trip for a whole sidecar: writing a segment list whose
/// coordinates are in the unit range and parsing the text back gives the
/// same list.
pub proof fn lemma_sidecar_roundtrip(segs: Seq<Segment>)
    requires
        forall|k: int|
            0 <= k < segs.len() ==> {
                let seg = #[trigger] segs[k];
                &&& 0 <= seg.center.x <= SCALE
                &&& 0 <= seg.center.y <= SCALE
                &&& 0 <= seg.size.x <= SCALE
                &&& 0 <= seg.size.y <= SCALE
            },
    ensures
        spec_parse_sidecar(spec_fmt_sidecar(segs)) == Some(segs),
    decreases segs.len(),
{
    if segs.len() == 0 {
        assert(split_on(Seq::empty(), NEWLINE) =~~= seq![Seq::<u8>::empty()]);
        assert(spec_parse_lines(seq![Seq::<u8>::empty()]) == Some(Seq::<Segment>::empty())) by {
            reveal_with_fuel(spec_parse_lines, 3);
            assert(seq![Seq::<u8>::empty()].drop_first() =~= Seq::<Seq<u8>>::empty());
        }
    } else {
        let seg = segs[0];
        let line = spec_fmt_segment(seg);
        let rest = spec_fmt_sidecar(segs.drop_first());
        lemma_segment_roundtrip(seg);
        lemma_fmt_u64_digits(seg.label_id as int);
        lemma_fmt_coord_bytes(crate::fixed::spec_clamp_unit(seg.center.x as int));
        lemma_fmt_coord_bytes(crate::fixed::spec_clamp_unit(seg.center.y as int));
        lemma_fmt_coord_bytes(crate::fixed::spec_clamp_unit(seg.size.x as int));
        lemma_fmt_coord_bytes(crate::fixed::spec_clamp_unit(seg.size.y as int));
        assert(no_byte(line, NEWLINE));
        lemma_split_append(line, rest, NEWLINE);
        assert(spec_fmt_sidecar(segs) =~= line + seq![NEWLINE] + rest);
        lemma_sidecar_roundtrip(segs.drop_first());
        let parts = split_on(spec_fmt_sidecar(segs), NEWLINE);
        assert(parts =~~= seq![line] + split_on(rest, NEWLINE));
        assert(parts.drop_first() =~~= split_on(rest, NEWLINE));
        assert(line.len() >= 1);
        assert(seq![seg] + segs.drop_first() =~= segs);
    }
}

} // verus!
