//! ASCII decimal text for the sidecar label files.
//!
//! Label IDs are written as plain decimal integers; fractional coordinates
//! as `whole[.fraction]` with at most six fraction digits (the fixed-point
//! resolution) and trailing zeros dropped, the way `0.5` rather than
//! `0.500000` appears in a YOLO label file. Formatting and parsing are
//! exact inverses over the storable range, which is proved here.

use vstd::prelude::*;

use crate::fixed::SCALE;

verus! {

pub const DOT: u8 = 46;
pub const SPACE: u8 = 32;
pub const NEWLINE: u8 = 10;

/// Largest whole part a coordinate text may carry; keeps every parsed
/// value well inside the storable coordinate range.
pub const MAX_WHOLE: u64 = 999_999;

pub open spec fn is_digit(b: u8) -> bool {
    48 <= b <= 57
}

pub open spec fn all_digits(s: Seq<u8>) -> bool {
    forall|i: int| 0 <= i < s.len() ==> is_digit(#[trigger] s[i])
}

/// Value of a digit string, most significant digit first.
pub open spec fn digits_val(s: Seq<u8>) -> int
    decreases s.len(),
{
    if s.len() == 0 {
        0
    } else {
        digits_val(s.drop_last()) * 10 + (s.last() - 48)
    }
}

pub open spec fn pow10(k: nat) -> int
    decreases k,
{
    if k == 0 {
        1
    } else {
        10 * pow10((k - 1) as nat)
    }
}

pub proof fn lemma_digits_val_nonneg(s: Seq<u8>)
    requires
        all_digits(s),
    ensures
        digits_val(s) >= 0,
    decreases s.len(),
{
    if s.len() > 0 {
        assert(all_digits(s.drop_last())) by {
            assert(forall|i: int|
                0 <= i < s.drop_last().len() ==> s.drop_last()[i] == #[trigger] s[i]);
        }
        lemma_digits_val_nonneg(s.drop_last());
    }
}

/// A digit string is worth at least any of its prefixes.
pub proof fn lemma_digits_val_prefix(s: Seq<u8>, i: int)
    requires
        all_digits(s),
        0 <= i <= s.len(),
    ensures
        digits_val(s) >= digits_val(s.take(i)),
    decreases s.len() - i,
{
    if i < s.len() {
        let t = s.take(i + 1);
        assert(t.drop_last() =~= s.take(i));
        assert(t.last() == s[i]);
        assert(all_digits(s.take(i))) by {
            assert(forall|j: int| 0 <= j < i ==> s.take(i)[j] == #[trigger] s[j]);
        }
        lemma_digits_val_nonneg(s.take(i));
        assert(digits_val(t) == digits_val(s.take(i)) * 10 + (s[i] - 48));
        assert(digits_val(t) >= digits_val(s.take(i)));
        lemma_digits_val_prefix(s, i + 1);
        assert(s.take(s.len() as int) =~= s);
    } else {
        assert(s.take(i) =~= s);
    }
}

/// Decimal text of a non-negative integer, no sign, no leading zeros
/// except for zero itself.
pub open spec fn spec_fmt_u64(n: int) -> Seq<u8>
    recommends
        n >= 0,
    decreases n,
{
    if n < 10 {
        seq![(48 + n) as u8]
    } else {
        spec_fmt_u64(n / 10).push((48 + n % 10) as u8)
    }
}

pub proof fn lemma_fmt_u64_digits(n: int)
    requires
        0 <= n,
    ensures
        all_digits(spec_fmt_u64(n)),
        spec_fmt_u64(n).len() >= 1,
        digits_val(spec_fmt_u64(n)) == n,
    decreases n,
{
    if n < 10 {
        let s = spec_fmt_u64(n);
        assert(s.len() == 1);
        assert(s.last() == (48 + n) as u8);
        assert((48 + n) as u8 == 48 + n);
        assert(s.drop_last() =~= Seq::<u8>::empty());
        assert(digits_val(s.drop_last()) == 0);
        assert(digits_val(s) == n);
    } else {
        lemma_fmt_u64_digits(n / 10);
        let p = spec_fmt_u64(n / 10);
        let s = spec_fmt_u64(n);
        assert(s == p.push((48 + n % 10) as u8));
        assert(s.drop_last() =~= p);
        assert(s.last() == (48 + n % 10) as u8);
        assert(digits_val(s) == (n / 10) * 10 + n % 10);
        assert((n / 10) * 10 + n % 10 == n) by {
            vstd::arithmetic::div_mod::lemma_fundamental_div_mod(n, 10);
        }
        assert(forall|i: int| 0 <= i < p.len() ==> s[i] == #[trigger] p[i]);
    }
}

/// Format a non-negative integer in decimal.
pub fn fmt_u64(n: u64) -> (r: Vec<u8>)
    ensures
        r@ == spec_fmt_u64(n as int),
    decreases n,
{
    if n < 10 {
        let mut v: Vec<u8> = Vec::new();
        v.push(48 + n as u8);
        proof {
            assert(v@ =~= spec_fmt_u64(n as int));
        }
        v
    } else {
        let mut v: Vec<u8> = fmt_u64(n / 10);
        v.push(48 + (n % 10) as u8);
        proof {
            assert(v@ =~= spec_fmt_u64(n as int));
        }
        v
    }
}

/// Parse a decimal integer. Succeeds exactly on non-empty all-digit
/// strings whose value fits in a `u64`.
pub fn parse_u64(s: &[u8]) -> (r: Option<u64>)
    ensures
        match r {
            Some(v) => s@.len() >= 1 && all_digits(s@) && v == digits_val(s@),
            None => s@.len() == 0 || !all_digits(s@) || digits_val(s@) > u64::MAX,
        },
{
    if s.len() == 0 {
        return None;
    }
    let mut v: u64 = 0;
    let mut i: usize = 0;
    while i < s.len()
        invariant
            0 <= i <= s@.len(),
            all_digits(s@.take(i as int)),
            v == digits_val(s@.take(i as int)),
        decreases s@.len() - i,
    {
        let b: u8 = s[i];
        if b < 48 || b > 57 {
            return None;
        }
        let d: u64 = (b - 48) as u64;
        proof {
            assert(s@.take(i + 1).drop_last() =~= s@.take(i as int));
            assert(s@.take(i + 1).last() == s@[i as int]);
            assert(forall|j: int|
                0 <= j < i + 1 ==> is_digit(#[trigger] s@.take(i + 1)[j]));
        }
        let w: u64 = match v.checked_mul(10) {
            Some(x) => x,
            None => {
                proof {
                    if all_digits(s@) {
                        lemma_digits_val_prefix(s@, i + 1);
                    }
                }
                return None;
            },
        };
        let w2: u64 = match w.checked_add(d) {
            Some(x) => x,
            None => {
                proof {
                    if all_digits(s@) {
                        lemma_digits_val_prefix(s@, i + 1);
                    }
                }
                return None;
            },
        };
        v = w2;
        i = i + 1;
    }
    proof {
        assert(s@.take(i as int) =~= s@);
    }
    Some(v)
}

/// Format a label ID.
pub fn fmt_u32(n: u32) -> (r: Vec<u8>)
    ensures
        r@ == spec_fmt_u64(n as int),
{
    fmt_u64(n as u64)
}

/// Parse a label ID. Succeeds exactly on non-empty all-digit strings
/// whose value fits in a `u32`.
pub fn parse_u32(s: &[u8]) -> (r: Option<u32>)
    ensures
        match r {
            Some(v) => s@.len() >= 1 && all_digits(s@) && v == digits_val(s@),
            None => s@.len() == 0 || !all_digits(s@) || digits_val(s@) > u32::MAX,
        },
{
    match parse_u64(s) {
        Some(v) => {
            if v <= u32::MAX as u64 {
                Some(v as u32)
            } else {
                None
            }
        },
        None => {
            proof {
                if s@.len() >= 1 && all_digits(s@) {
                    lemma_digits_val_nonneg(s@);
                }
            }
            None
        },
    }
}

/// `v` written as exactly `k` decimal digits, zero-padded on the left.
pub open spec fn pad(k: nat, v: int) -> Seq<u8>
    decreases k,
{
    if k == 0 {
        Seq::empty()
    } else {
        pad((k - 1) as nat, v / 10).push((48 + v % 10) as u8)
    }
}

pub proof fn lemma_pow10_pos(k: nat)
    ensures
        pow10(k) >= 1,
    decreases k,
{
    if k > 0 {
        lemma_pow10_pos((k - 1) as nat);
    }
}

pub proof fn lemma_pad_val(k: nat, v: int)
    requires
        0 <= v < pow10(k),
    ensures
        all_digits(pad(k, v)),
        pad(k, v).len() == k,
        digits_val(pad(k, v)) == v,
    decreases k,
{
    if k == 0 {
        assert(pow10(0) == 1);
        assert(v == 0);
    } else {
        let p = pow10((k - 1) as nat);
        assert(pow10(k) == 10 * p);
        assert(v == 10 * (v / 10) + v % 10) by {
            vstd::arithmetic::div_mod::lemma_fundamental_div_mod(v, 10);
        }
        assert(v / 10 < p);
        lemma_pad_val((k - 1) as nat, v / 10);
        let q = pad((k - 1) as nat, v / 10);
        let s = pad(k, v);
        assert(s == q.push((48 + v % 10) as u8));
        assert(s.drop_last() =~= q);
        assert(s.last() == (48 + v % 10) as u8);
        assert((48 + v % 10) as u8 == 48 + v % 10);
        assert(digits_val(s) == v);
        assert(forall|i: int| 0 <= i < q.len() ==> s[i] == #[trigger] q[i]);
    }
}

/// An all-digit string is worth less than `10^len`.
pub proof fn lemma_digits_val_upper(s: Seq<u8>)
    requires
        all_digits(s),
    ensures
        digits_val(s) < pow10(s.len()),
    decreases s.len(),
{
    if s.len() == 0 {
    } else {
        let d = s.drop_last();
        assert(all_digits(d)) by {
            assert(forall|i: int| 0 <= i < d.len() ==> d[i] == #[trigger] s[i]);
        }
        lemma_digits_val_upper(d);
        lemma_digits_val_nonneg(d);
        assert(pow10(s.len()) == 10 * pow10(d.len()));
        assert(digits_val(d) * 10 <= (pow10(d.len()) - 1) * 10) by {
            vstd::arithmetic::mul::lemma_mul_inequality(
                digits_val(d),
                pow10(d.len()) - 1,
                10,
            );
        }
    }
}

pub proof fn lemma_pow10_mono(a: nat, b: nat)
    requires
        a <= b,
    ensures
        pow10(a) <= pow10(b),
    decreases b,
{
    if a < b {
        lemma_pow10_mono(a, (b - 1) as nat);
        lemma_pow10_pos((b - 1) as nat);
    }
}

pub proof fn lemma_pow10_adds(a: nat, b: nat)
    ensures
        pow10(a) * pow10(b) == pow10((a + b) as nat),
    decreases a,
{
    if a == 0 {
        assert(pow10(0) == 1);
    } else {
        lemma_pow10_adds((a - 1) as nat, b);
        assert(pow10(a) * pow10(b) == 10 * (pow10((a - 1) as nat) * pow10(b)))
            by (nonlinear_arith)
            requires
                pow10(a) == 10 * pow10((a - 1) as nat),
        ;
    }
}

/// Trailing `'0'` bytes removed.
pub open spec fn strip0(s: Seq<u8>) -> Seq<u8>
    decreases s.len(),
{
    if s.len() > 0 && s.last() == 48 {
        strip0(s.drop_last())
    } else {
        s
    }
}

pub proof fn lemma_strip0(s: Seq<u8>)
    requires
        all_digits(s),
    ensures
        all_digits(strip0(s)),
        strip0(s).len() <= s.len(),
        digits_val(s) == digits_val(strip0(s)) * pow10((s.len() - strip0(s).len()) as nat),
        digits_val(s) > 0 ==> strip0(s).len() >= 1,
        strip0(s).len() > 0 ==> strip0(s).last() != 48,
    decreases s.len(),
{
    if s.len() > 0 && s.last() == 48 {
        let d = s.drop_last();
        assert(all_digits(d)) by {
            assert(forall|i: int| 0 <= i < d.len() ==> d[i] == #[trigger] s[i]);
        }
        lemma_strip0(d);
        let t = strip0(s);
        assert(t == strip0(d));
        let k = (d.len() - t.len()) as nat;
        assert(digits_val(s) == digits_val(d) * 10);
        assert(digits_val(d) * 10 == (digits_val(t) * pow10(k)) * 10);
        assert((digits_val(t) * pow10(k)) * 10 == digits_val(t) * (10 * pow10(k)))
            by (nonlinear_arith);
        assert(pow10((k + 1) as nat) == 10 * pow10(k));
        assert((s.len() - t.len()) as nat == k + 1);
    } else {
        assert(strip0(s) == s);
        assert(pow10(0) == 1);
        if digits_val(s) > 0 {
            assert(s.len() >= 1);
        }
    }
}

/// `v` as exactly `k` digits, executable form.
pub fn pad_digits(k: u8, v: u64) -> (r: Vec<u8>)
    ensures
        r@ == pad(k as nat, v as int),
    decreases k,
{
    if k == 0 {
        let r: Vec<u8> = Vec::new();
        proof {
            assert(r@ =~= pad(0, v as int));
        }
        r
    } else {
        let mut r: Vec<u8> = pad_digits(k - 1, v / 10);
        r.push(48 + (v % 10) as u8);
        proof {
            assert(48 + (v % 10) as u8 == (48 + (v as int) % 10) as u8);
            assert(r@ =~= pad(k as nat, v as int));
        }
        r
    }
}

/// Remove trailing `'0'` bytes in place.
pub fn strip_zeros(v: &mut Vec<u8>)
    ensures
        final(v)@ == strip0(old(v)@),
{
    while v.len() > 0 && v[v.len() - 1] == 48
        invariant
            strip0(v@) == strip0(old(v)@),
        decreases v@.len(),
    {
        proof {
            assert(v@.subrange(0, v@.len() - 1) =~= v@.drop_last());
        }
        v.pop();
    }
}

/// Decimal text of a fixed-point fraction: the whole part, then, unless the
/// fractional part is zero, a dot and the fraction digits with trailing
/// zeros dropped.
pub open spec fn spec_fmt_coord(q: int) -> Seq<u8>
    recommends
        q >= 0,
{
    let ip = q / (SCALE as int);
    let fr = q % (SCALE as int);
    if fr == 0 {
        spec_fmt_u64(ip)
    } else {
        spec_fmt_u64(ip) + seq![DOT] + strip0(pad(6, fr))
    }
}

/// Format a clamped fixed-point coordinate.
pub fn fmt_coord(q: i64) -> (r: Vec<u8>)
    requires
        0 <= q <= SCALE,
    ensures
        r@ == spec_fmt_coord(q as int),
{
    let ip: u64 = (q as u64) / 1_000_000u64;
    let fr: u64 = (q as u64) % 1_000_000u64;
    if fr == 0 {
        let r = fmt_u64(ip);
        proof {
            assert(r@ =~= spec_fmt_coord(q as int));
        }
        r
    } else {
        let mut r = fmt_u64(ip);
        r.push(DOT);
        let mut f = pad_digits(6, fr);
        strip_zeros(&mut f);
        r.append(&mut f);
        proof {
            assert(r@ =~= spec_fmt_coord(q as int));
        }
        r
    }
}

/// Index of the first `'.'`, or the length when there is none.
pub open spec fn first_dot(s: Seq<u8>) -> int
    decreases s.len(),
{
    if s.len() == 0 {
        0
    } else if s[0] == DOT {
        0
    } else {
        1 + first_dot(s.drop_first())
    }
}

pub proof fn lemma_first_dot(s: Seq<u8>)
    ensures
        0 <= first_dot(s) <= s.len(),
        first_dot(s) < s.len() ==> s[first_dot(s)] == DOT,
        forall|j: int| 0 <= j < first_dot(s) ==> s[j] != DOT,
    decreases s.len(),
{
    if s.len() > 0 && s[0] != DOT {
        let d = s.drop_first();
        lemma_first_dot(d);
        assert(forall|j: int| 0 <= j < d.len() ==> d[j] == #[trigger] s[j + 1]);
        assert(forall|j: int| 1 <= j < first_dot(s) ==> s[j] == d[j - 1]);
    }
}

/// Value of a coordinate text `whole[.fraction]`: missing fraction digits
/// count as zeros out to the six-digit fixed-point resolution.
pub open spec fn spec_parse_coord(s: Seq<u8>) -> Option<int> {
    let i = first_dot(s);
    if i == s.len() {
        if s.len() >= 1 && all_digits(s) && digits_val(s) <= MAX_WHOLE {
            Some(digits_val(s) * (SCALE as int))
        } else {
            None
        }
    } else {
        let ip = s.take(i);
        let fp = s.skip(i + 1);
        if ip.len() >= 1 && all_digits(ip) && digits_val(ip) <= MAX_WHOLE && 1 <= fp.len() <= 6
            && all_digits(fp) {
            Some(digits_val(ip) * (SCALE as int) + digits_val(fp) * pow10((6 - fp.len()) as nat))
        } else {
            None
        }
    }
}

/// Every parsed coordinate is a non-negative in-range fixed-point value.
pub proof fn lemma_parse_coord_range(s: Seq<u8>)
    requires
        spec_parse_coord(s) is Some,
    ensures
        0 <= spec_parse_coord(s)->0 < crate::fixed::COORD_LIMIT,
{
    let i = first_dot(s);
    lemma_first_dot(s);
    if i == s.len() {
        lemma_digits_val_nonneg(s);
    } else {
        let ip = s.take(i);
        let fp = s.skip(i + 1);
        lemma_digits_val_nonneg(ip);
        lemma_digits_val_nonneg(fp);
        lemma_digits_val_upper(fp);
        lemma_pow10_pos((6 - fp.len()) as nat);
        assert(digits_val(fp) * pow10((6 - fp.len()) as nat) < pow10(fp.len()) * pow10(
            (6 - fp.len()) as nat,
        )) by {
            vstd::arithmetic::mul::lemma_mul_strict_inequality(
                digits_val(fp),
                pow10(fp.len()),
                pow10((6 - fp.len()) as nat),
            );
        }
        lemma_pow10_adds(fp.len(), (6 - fp.len()) as nat);
        assert(pow10(6) == 1_000_000) by {
            reveal_with_fuel(pow10, 7);
        }
        assert(digits_val(fp) * pow10((6 - fp.len()) as nat) >= 0) by {
            vstd::arithmetic::mul::lemma_mul_nonnegative(
                digits_val(fp),
                pow10((6 - fp.len()) as nat),
            );
        }
    }
}

/// Parse a coordinate text. Succeeds exactly when the whole part is a
/// non-empty digit string worth at most `MAX_WHOLE` and the fraction, if a
/// dot is present, is one to six digits.
pub fn parse_coord(s: &[u8]) -> (r: Option<i64>)
    ensures
        r is Some <==> spec_parse_coord(s@) is Some,
        r is Some ==> r->0 == spec_parse_coord(s@)->0 && 0 <= r->0
            < crate::fixed::COORD_LIMIT,
{
    proof {
        lemma_first_dot(s@);
    }
    let mut i: usize = 0;
    while i < s.len() && s[i] != DOT
        invariant
            0 <= i <= s@.len(),
            forall|j: int| 0 <= j < i ==> s@[j] != DOT,
        decreases s@.len() - i,
    {
        i = i + 1;
    }
    proof {
        if i < s@.len() {
            assert(first_dot(s@) == i);
        } else {
            assert(first_dot(s@) == s@.len());
        }
    }
    if i == s.len() {
        match parse_u64(s) {
            Some(v) => {
                if v <= MAX_WHOLE {
                    proof {
                        lemma_parse_coord_range(s@);
                    }
                    Some((v * 1_000_000u64) as i64)
                } else {
                    None
                }
            },
            None => {
                proof {
                    if s@.len() >= 1 && all_digits(s@) {
                        lemma_digits_val_nonneg(s@);
                    }
                }
                None
            },
        }
    } else {
        let ip = vstd::slice::slice_subrange(s, 0, i);
        let fp = vstd::slice::slice_subrange(s, i + 1, s.len());
        proof {
            assert(ip@ =~= s@.take(i as int));
            assert(fp@ =~= s@.skip(i + 1));
        }
        if fp.len() < 1 || fp.len() > 6 {
            return None;
        }
        let ipv: u64 = match parse_u64(ip) {
            Some(v) => v,
            None => {
                proof {
                    if ip@.len() >= 1 && all_digits(ip@) {
                        lemma_digits_val_nonneg(ip@);
                    }
                }
                return None;
            },
        };
        if ipv > MAX_WHOLE {
            return None;
        }
        let fpv: u64 = match parse_u64(fp) {
            Some(v) => v,
            None => {
                proof {
                    if fp@.len() >= 1 && all_digits(fp@) {
                        lemma_digits_val_upper(fp@);
                        lemma_pow10_mono(fp@.len(), 6);
                        assert(pow10(6) == 1_000_000) by {
                            reveal_with_fuel(pow10, 7);
                        }
                        lemma_digits_val_nonneg(fp@);
                    }
                }
                return None;
            },
        };
        let mult: u64 = match fp.len() {
            1 => 100_000,
            2 => 10_000,
            3 => 1_000,
            4 => 100,
            5 => 10,
            _ => 1,
        };
        proof {
            assert(pow10(5) == 100_000 && pow10(4) == 10_000 && pow10(3) == 1_000 && pow10(2)
                == 100 && pow10(1) == 10 && pow10(0) == 1) by {
                reveal_with_fuel(pow10, 7);
            }
            lemma_digits_val_upper(fp@);
            assert(pow10(6) == 1_000_000) by {
                reveal_with_fuel(pow10, 7);
            }
            assert(digits_val(fp@) * pow10((6 - fp@.len()) as nat) < 1_000_000) by {
                vstd::arithmetic::mul::lemma_mul_strict_inequality(
                    digits_val(fp@),
                    pow10(fp@.len()),
                    pow10((6 - fp@.len()) as nat),
                );
                lemma_pow10_adds(fp@.len(), (6 - fp@.len()) as nat);
            }
            lemma_parse_coord_range(s@);
        }
        Some((ipv * 1_000_000u64 + fpv * mult) as i64)
    }
}

/// Formatting then parsing a clamped coordinate gives the value back: the
/// sidecar text round-trips exactly at the fixed-point resolution.
pub proof fn lemma_coord_roundtrip(q: int)
    requires
        0 <= q <= SCALE,
    ensures
        spec_parse_coord(spec_fmt_coord(q)) == Some(q),
{
    let ip = q / (SCALE as int);
    let fr = q % (SCALE as int);
    vstd::arithmetic::div_mod::lemma_fundamental_div_mod(q, SCALE as int);
    lemma_fmt_u64_digits(ip);
    let a = spec_fmt_u64(ip);
    if fr == 0 {
        let s = spec_fmt_coord(q);
        assert(s == a);
        lemma_first_dot(s);
        if first_dot(s) < s.len() {
            assert(is_digit(s[first_dot(s)]));
            assert(false);
        }
        assert(spec_parse_coord(s) == Some(ip * (SCALE as int)));
    } else {
        assert(pow10(6) == 1_000_000) by {
            reveal_with_fuel(pow10, 7);
        }
        lemma_pad_val(6, fr);
        let p = pad(6, fr);
        lemma_strip0(p);
        let f = strip0(p);
        let s = spec_fmt_coord(q);
        assert(s == a + seq![DOT] + f);
        assert(s.len() == a.len() + 1 + f.len());
        lemma_first_dot(s);
        let fd = first_dot(s);
        assert(forall|j: int| 0 <= j < a.len() ==> s[j] == #[trigger] a[j]);
        assert(s[a.len() as int] == DOT);
        assert(fd <= a.len());
        if fd < a.len() {
            assert(is_digit(s[fd]));
            assert(false);
        }
        assert(fd == a.len());
        assert(s.take(fd) =~= a);
        assert(s.skip(fd + 1) =~= f);
        assert(digits_val(p) == digits_val(f) * pow10((p.len() - f.len()) as nat));
        assert(spec_parse_coord(s) == Some(
            digits_val(a) * (SCALE as int) + digits_val(f) * pow10((6 - f.len()) as nat),
        ));
    }
}

} // verus!
