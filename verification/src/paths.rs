//! Path text handling for the dataset layout.
//!
//! Images are discovered by their `.png`/`.jpg` extension; each image's
//! sidecar path is derived textually — the last directory segment named
//! `images` becomes `labels` and the extension becomes `.txt` — and the
//! image list is kept sorted by file name, bytewise ascending.

use vstd::prelude::*;

use crate::project::Image;
use crate::yolo::no_byte;
use crate::yolo::split_on;

verus! {

/// Path separator.
pub const SLASH: u8 = 47;

pub open spec fn png_suffix() -> Seq<u8> {
    seq![46u8, 112, 110, 103]
}

pub open spec fn jpg_suffix() -> Seq<u8> {
    seq![46u8, 106, 112, 103]
}

pub open spec fn txt_suffix() -> Seq<u8> {
    seq![46u8, 116, 120, 116]
}

pub open spec fn images_seg() -> Seq<u8> {
    seq![105u8, 109, 97, 103, 101, 115]
}

pub open spec fn labels_seg() -> Seq<u8> {
    seq![108u8, 97, 98, 101, 108, 115]
}

/// Bytewise equality of two byte strings.
pub fn bytes_eq(a: &[u8], b: &[u8]) -> (r: bool)
    ensures
        r <==> a@ == b@,
{
    if a.len() != b.len() {
        proof {
            assert(a@.len() != b@.len());
        }
        return false;
    }
    let mut i: usize = 0;
    while i < a.len()
        invariant
            0 <= i <= a@.len(),
            a@.len() == b@.len(),
            forall|j: int| 0 <= j < i ==> a@[j] == b@[j],
        decreases a@.len() - i,
    {
        if a[i] != b[i] {
            return false;
        }
        i = i + 1;
    }
    proof {
        assert(a@ =~= b@);
    }
    true
}

/// Whether a file name carries one of the image extensions the loader
/// discovers.
pub open spec fn spec_is_image(s: Seq<u8>) -> bool {
    s.len() >= 4 && (s.skip(s.len() - 4) == png_suffix() || s.skip(s.len() - 4) == jpg_suffix())
}

pub fn is_image_file(name: &[u8]) -> (r: bool)
    ensures
        r == spec_is_image(name@),
{
    if name.len() < 4 {
        return false;
    }
    let tail = vstd::slice::slice_subrange(name, name.len() - 4, name.len());
    proof {
        assert(tail@ =~= name@.skip(name@.len() - 4));
    }
    let png: [u8; 4] = [46, 112, 110, 103];
    let jpg: [u8; 4] = [46, 106, 112, 103];
    let is_png = bytes_eq(tail, png.as_slice());
    let is_jpg = bytes_eq(tail, jpg.as_slice());
    proof {
        assert(png@ =~= png_suffix());
        assert(jpg@ =~= jpg_suffix());
    }
    is_png || is_jpg
}

/// A file name with its extension forced to `.txt`: the image extension,
/// when present, is replaced, any other name is suffixed.
pub open spec fn spec_txt_name(s: Seq<u8>) -> Seq<u8> {
    if spec_is_image(s) {
        s.take(s.len() - 4) + txt_suffix()
    } else {
        s + txt_suffix()
    }
}

pub fn txt_name(name: &[u8]) -> (r: Vec<u8>)
    ensures
        r@ == spec_txt_name(name@),
{
    let keep: usize = if is_image_file(name) {
        name.len() - 4
    } else {
        name.len()
    };
    let mut out: Vec<u8> = Vec::new();
    let mut i: usize = 0;
    while i < keep
        invariant
            0 <= i <= keep <= name@.len(),
            out@ =~= name@.take(i as int),
        decreases keep - i,
    {
        let b: u8 = name[i];
        out.push(b);
        proof {
            assert(out@ =~= name@.take(i + 1));
        }
        i = i + 1;
    }
    out.push(46);
    out.push(116);
    out.push(120);
    out.push(116);
    proof {
        assert(out@ =~= spec_txt_name(name@));
    }
    out
}

/// Largest directory-segment index below `n` holding `images`.
pub open spec fn last_images_below(parts: Seq<Seq<u8>>, n: int) -> Option<int>
    decreases n,
{
    if n <= 0 {
        None
    } else if parts[n - 1] == images_seg() {
        Some(n - 1)
    } else {
        last_images_below(parts, n - 1)
    }
}

/// Join path segments with the separator.
pub open spec fn join_with(parts: Seq<Seq<u8>>, sep: u8) -> Seq<u8>
    decreases parts.len(),
{
    if parts.len() == 0 {
        Seq::empty()
    } else if parts.len() == 1 {
        parts[0]
    } else {
        parts[0] + seq![sep] + join_with(parts.drop_first(), sep)
    }
}

/// The sidecar path derived from an image path: segment-wise, the last
/// directory named `images` becomes `labels`, and the file name gets the
/// `.txt` extension.
pub open spec fn spec_labels_path(s: Seq<u8>) -> Seq<u8> {
    let parts = split_on(s, SLASH);
    let idx = last_images_below(parts, parts.len() - 1);
    let mapped = Seq::new(
        parts.len() as nat,
        |j: int|
            if idx is Some && j == idx->0 {
                labels_seg()
            } else if j == parts.len() - 1 {
                spec_txt_name(parts[j])
            } else {
                parts[j]
            },
    );
    join_with(mapped, SLASH)
}

fn join_from(parts: &Vec<Vec<u8>>, i: usize) -> (r: Vec<u8>)
    requires
        0 <= i <= parts@.len(),
    ensures
        r@ == join_with(parts@.map_values(|t: Vec<u8>| t@).skip(i as int), SLASH),
    decreases parts@.len() - i,
{
    let ghost all = parts@.map_values(|t: Vec<u8>| t@);
    if i == parts.len() {
        proof {
            assert(all.skip(i as int) =~= Seq::<Seq<u8>>::empty());
        }
        Vec::new()
    } else if i + 1 == parts.len() {
        let r = parts[i].clone();
        proof {
            assert(all.skip(i as int) =~= seq![all[i as int]]);
            assert(r@ == all[i as int]);
        }
        r
    } else {
        let mut r = parts[i].clone();
        r.push(SLASH);
        let mut rest = join_from(parts, i + 1);
        r.append(&mut rest);
        proof {
            assert(all.skip(i as int).len() >= 2);
            assert(all.skip(i as int)[0] == all[i as int]);
            assert(all.skip(i as int).drop_first() =~= all.skip(i + 1));
            assert(r@ =~= all[i as int] + seq![SLASH] + join_with(all.skip(i + 1), SLASH));
        }
        r
    }
}

/// Derive the sidecar label-file path from an image path.
pub fn labels_path(path: &[u8]) -> (r: Vec<u8>)
    ensures
        r@ == spec_labels_path(path@),
{
    let ghost orig_parts = split_on(path@, SLASH);
    let parts: Vec<Vec<u8>> = crate::yolo::split_bytes(path, SLASH);
    proof {
        assert(forall|k: int|
            0 <= k < parts@.len() ==> (#[trigger] parts@[k])@ == parts@.map_values(
                |t: Vec<u8>| t@,
            )[k]);
    }
    proof {
        assert(parts@.len() >= 1) by {
            crate::yolo::lemma_split_len(path@, SLASH);
        }
    }
    let n: usize = parts.len();
    let images: [u8; 6] = [105, 109, 97, 103, 101, 115];
    proof {
        assert(images@ =~= images_seg());
    }
    let mut idx: Option<usize> = None;
    let mut j: usize = n - 1;
    while j > 0
        invariant
            0 <= j <= parts@.len() - 1,
            images@ == images_seg(),
            parts@.map_values(|t: Vec<u8>| t@) == orig_parts,
            forall|k: int|
                0 <= k < parts@.len() ==> (#[trigger] parts@[k])@ == orig_parts[k],
            match idx {
                Some(v) => last_images_below(orig_parts, orig_parts.len() - 1) == Some(v as int),
                None => last_images_below(orig_parts, orig_parts.len() - 1)
                    == last_images_below(orig_parts, j as int),
            },
            idx is Some ==> j == 0,
        decreases j,
    {
        if bytes_eq(parts[j - 1].as_slice(), images.as_slice()) {
            idx = Some(j - 1);
            proof {
                assert(last_images_below(orig_parts, j as int) == Some(j - 1));
            }
            j = 0;
        } else {
            proof {
                assert(last_images_below(orig_parts, j as int) == last_images_below(
                    orig_parts,
                    j - 1,
                ));
            }
            j = j - 1;
        }
    }
    let mut out: Vec<Vec<u8>> = Vec::new();
    let mut k: usize = 0;
    let ghost idx0 = last_images_below(orig_parts, orig_parts.len() - 1);
    let ghost mapped = Seq::new(
        orig_parts.len() as nat,
        |j: int|
            if idx0 is Some && j == idx0->0 {
                labels_seg()
            } else if j == orig_parts.len() - 1 {
                spec_txt_name(orig_parts[j])
            } else {
                orig_parts[j]
            },
    );
    while k < n
        invariant
            0 <= k <= n == parts@.len(),
            forall|t: int|
                0 <= t < parts@.len() ==> (#[trigger] parts@[t])@ == orig_parts[t],
            orig_parts.len() == parts@.len(),
            mapped == Seq::new(
                orig_parts.len() as nat,
                |j: int|
                    if idx0 is Some && j == idx0->0 {
                        labels_seg()
                    } else if j == orig_parts.len() - 1 {
                        spec_txt_name(orig_parts[j])
                    } else {
                        orig_parts[j]
                    },
            ),
            match idx {
                Some(v) => idx0 == Some(v as int),
                None => idx0 is None,
            },
            out@.len() == k,
            forall|t: int| 0 <= t < k ==> (#[trigger] out@[t])@ == mapped[t],
        decreases n - k,
    {
        let is_images_slot: bool = match idx {
            Some(v) => v == k,
            None => false,
        };
        if is_images_slot {
            let mut seg: Vec<u8> = Vec::new();
            seg.push(108);
            seg.push(97);
            seg.push(98);
            seg.push(101);
            seg.push(108);
            seg.push(115);
            proof {
                assert(seg@ =~= labels_seg());
            }
            out.push(seg);
        } else if k + 1 == n {
            out.push(txt_name(parts[k].as_slice()));
        } else {
            out.push(parts[k].clone());
        }
        k = k + 1;
    }
    let r = join_from(&out, 0);
    proof {
        assert(out@.map_values(|t: Vec<u8>| t@) =~= mapped);
        assert(out@.map_values(|t: Vec<u8>| t@).skip(0) =~= mapped);
    }
    r
}

/// The final path segment: everything after the last separator.
pub open spec fn spec_file_name(s: Seq<u8>) -> Seq<u8>
    decreases s.len(),
{
    if s.len() == 0 || s.last() == SLASH {
        Seq::empty()
    } else {
        spec_file_name(s.drop_last()).push(s.last())
    }
}

pub proof fn lemma_file_name_suffix(s: Seq<u8>, j: int)
    requires
        -1 <= j < s.len(),
        j >= 0 ==> s[j] == SLASH,
        no_byte(s.skip(j + 1), SLASH),
    ensures
        spec_file_name(s) == s.skip(j + 1),
    decreases s.len(),
{
    if s.len() == 0 {
        assert(s.skip(j + 1) =~= Seq::<u8>::empty());
    } else if j == s.len() - 1 {
        assert(s.last() == SLASH);
        assert(s.skip(j + 1) =~= Seq::<u8>::empty());
    } else {
        assert(s.skip(j + 1).len() > 0);
        assert(s.last() == s.skip(j + 1).last());
        assert(s.last() != SLASH);
        let d = s.drop_last();
        assert forall|i: int| 0 <= i < d.skip(j + 1).len() implies #[trigger] d.skip(j + 1)[i] != SLASH by {
            assert(d.skip(j + 1)[i] == s.skip(j + 1)[i]);
        }
        lemma_file_name_suffix(d, j);
        assert(d.skip(j + 1).push(s.last()) =~= s.skip(j + 1));
    }
}

/// The file name of a path: the text after the last separator.
pub fn file_name_of(path: &[u8]) -> (r: Vec<u8>)
    ensures
        r@ == spec_file_name(path@),
{
    let mut cut: usize = path.len();
    while cut > 0 && path[cut - 1] != SLASH
        invariant
            0 <= cut <= path@.len(),
            no_byte(path@.skip(cut as int), SLASH),
        decreases cut,
    {
        proof {
            assert forall|i: int|
                0 <= i < path@.skip(cut - 1).len() implies #[trigger] path@.skip(cut - 1)[i]
                != SLASH by {
                if i == 0 {
                    assert(path@.skip(cut - 1)[0] == path@[cut - 1]);
                } else {
                    assert(path@.skip(cut - 1)[i] == path@.skip(cut as int)[i - 1]);
                }
            }
        }
        cut = cut - 1;
    }
    proof {
        lemma_file_name_suffix(path@, cut - 1);
    }
    let tail = vstd::slice::slice_subrange(path, cut, path.len());
    let mut out: Vec<u8> = Vec::new();
    let mut i: usize = 0;
    while i < tail.len()
        invariant
            0 <= i <= tail@.len(),
            out@ =~= tail@.take(i as int),
        decreases tail@.len() - i,
    {
        let b: u8 = tail[i];
        out.push(b);
        proof {
            assert(out@ =~= tail@.take(i + 1));
        }
        i = i + 1;
    }
    proof {
        assert(out@ =~= tail@);
    }
    out
}

/// The image-source URI for a file path: `file://` then the path.
pub open spec fn spec_uri_of(s: Seq<u8>) -> Seq<u8> {
    seq![102u8, 105, 108, 101, 58, 47, 47] + s
}

pub fn uri_of(path: &[u8]) -> (r: Vec<u8>)
    ensures
        r@ == spec_uri_of(path@),
{
    let mut out: Vec<u8> = Vec::new();
    out.push(102);
    out.push(105);
    out.push(108);
    out.push(101);
    out.push(58);
    out.push(47);
    out.push(47);
    let mut i: usize = 0;
    while i < path.len()
        invariant
            0 <= i <= path@.len(),
            out@ =~= seq![102u8, 105, 108, 101, 58, 47, 47] + path@.take(i as int),
        decreases path@.len() - i,
    {
        let b: u8 = path[i];
        out.push(b);
        proof {
            assert(out@ =~= seq![102u8, 105, 108, 101, 58, 47, 47] + path@.take(i + 1));
        }
        i = i + 1;
    }
    proof {
        assert(path@.take(i as int) =~= path@);
    }
    out
}

/// Bytewise-ascending (lexicographic) order on byte strings.
pub open spec fn lex_le(a: Seq<u8>, b: Seq<u8>) -> bool
    decreases a.len(),
{
    if a.len() == 0 {
        true
    } else if b.len() == 0 {
        false
    } else if a[0] < b[0] {
        true
    } else if a[0] > b[0] {
        false
    } else {
        lex_le(a.drop_first(), b.drop_first())
    }
}

/// The order is total.
pub proof fn lemma_lex_total(a: Seq<u8>, b: Seq<u8>)
    ensures
        lex_le(a, b) || lex_le(b, a),
    decreases a.len(),
{
    if a.len() > 0 && b.len() > 0 && a[0] == b[0] {
        lemma_lex_total(a.drop_first(), b.drop_first());
    }
}

/// The order is transitive.
pub proof fn lemma_lex_trans(a: Seq<u8>, b: Seq<u8>, c: Seq<u8>)
    requires
        lex_le(a, b),
        lex_le(b, c),
    ensures
        lex_le(a, c),
    decreases a.len(),
{
    if a.len() > 0 && b.len() > 0 && c.len() > 0 && a[0] == b[0] && b[0] == c[0] {
        lemma_lex_trans(a.drop_first(), b.drop_first(), c.drop_first());
    }
}

pub fn bytes_le(a: &[u8], b: &[u8]) -> (r: bool)
    ensures
        r == lex_le(a@, b@),
{
    let mut i: usize = 0;
    proof {
        assert(a@.skip(0) =~= a@);
        assert(b@.skip(0) =~= b@);
    }
    while i < a.len() && i < b.len()
        invariant
            0 <= i <= a@.len(),
            i <= b@.len(),
            forall|j: int| 0 <= j < i ==> a@[j] == b@[j],
            lex_le(a@, b@) == lex_le(a@.skip(i as int), b@.skip(i as int)),
        decreases a@.len() - i,
    {
        let x: u8 = a[i];
        let y: u8 = b[i];
        proof {
            assert(a@.skip(i as int)[0] == a@[i as int]);
            assert(b@.skip(i as int)[0] == b@[i as int]);
            assert(a@.skip(i as int).drop_first() =~= a@.skip(i + 1));
            assert(b@.skip(i as int).drop_first() =~= b@.skip(i + 1));
        }
        if x < y {
            return true;
        }
        if x > y {
            return false;
        }
        i = i + 1;
    }
    proof {
        if i == a.len() {
            assert(a@.skip(i as int) =~= Seq::<u8>::empty());
        } else {
            assert(b@.skip(i as int) =~= Seq::<u8>::empty());
            assert(a@.skip(i as int).len() > 0);
        }
    }
    i == a.len()
}

pub open spec fn images_sorted(s: Seq<Image>) -> bool {
    forall|i: int, j: int|
        0 <= i < j < s.len() ==> lex_le(
            (#[trigger] s[i]).file_name@,
            (#[trigger] s[j]).file_name@,
        )
}

/// Insert an image into a name-sorted list, keeping it sorted; an image
/// with an equal name goes after the ones already there, so repeated
/// insertion is a stable sort by file name.
pub fn insert_image_sorted(v: &mut Vec<Image>, img: Image)
    requires
        images_sorted(old(v)@),
    ensures
        images_sorted(final(v)@),
        exists|p: int|
            0 <= p <= old(v)@.len() && final(v)@ == #[trigger] old(v)@.insert(p, img),
        final(v)@.len() == old(v)@.len() + 1,
{
    let mut p: usize = 0;
    while p < v.len() && bytes_le(v[p].file_name.as_slice(), img.file_name.as_slice())
        invariant
            0 <= p <= v@.len(),
            v@ == old(v)@,
            forall|k: int| 0 <= k < p ==> lex_le((#[trigger] v@[k]).file_name@, img.file_name@),
        decreases v@.len() - p,
    {
        p = p + 1;
    }
    proof {
        if p < v@.len() {
            lemma_lex_total(v@[p as int].file_name@, img.file_name@);
        }
    }
    let ghost pos = p as int;
    v.insert(p, img);
    proof {
        let s = v@;
        let o = old(v)@;
        assert(s == o.insert(pos, img));
        assert forall|i: int, j: int| 0 <= i < j < s.len() implies lex_le(
            (#[trigger] s[i]).file_name@,
            (#[trigger] s[j]).file_name@,
        ) by {
            if i < pos && j < pos {
                assert(s[i] == o[i] && s[j] == o[j]);
            } else if i < pos && j == pos {
                assert(s[i] == o[i]);
            } else if i < pos && j > pos {
                assert(s[i] == o[i] && s[j] == o[j - 1]);
            } else if i == pos && j > pos {
                assert(s[j] == o[j - 1]);
                if pos == j - 1 {
                    assert(lex_le(img.file_name@, o[pos].file_name@));
                } else {
                    lemma_lex_trans(img.file_name@, o[pos].file_name@, o[j - 1].file_name@);
                }
            } else {
                assert(s[i] == o[i - 1] && s[j] == o[j - 1]);
            }
        }
    }
}

} // verus!
