//! Fixed-point fractional coordinates.
//!
//! Stored region coordinates are fractions of the owning image's pixel
//! dimensions. A fraction is held as an `i64` count of `1/SCALE` units, so
//! `SCALE` units stand for `1.0`. Values may leave `[0, SCALE]` while a
//! region is being edited; they are clamped back into the unit range when
//! the region list is written out.

use vstd::prelude::*;

verus! {

/// Number of fixed-point units in one whole (one image width or height).
pub const SCALE: i64 = 1_000_000;

/// Largest magnitude a stored coordinate may take; edits saturate here.
/// A million image-widths is far beyond anything reachable by hand, so
/// saturation only bounds the arithmetic, it never changes a real edit.
pub const COORD_LIMIT: i64 = 1_000_000_000_000;

/// Largest display-rectangle extent, in display units.
pub const DISPLAY_LIMIT: i64 = 1_000_000;

/// A coordinate the project ever stores: bounded so that products with a
/// display extent stay within `i64`.
pub open spec fn coord_in_range(v: int) -> bool {
    -COORD_LIMIT <= v <= COORD_LIMIT
}

/// Division truncating toward zero, the behaviour of `/` on machine integers.
pub open spec fn trunc_div(a: int, d: int) -> int
    recommends
        d > 0,
{
    if a >= 0 {
        a / d
    } else {
        -((-a) / d)
    }
}

/// `v` clamped into the unit interval `[0, SCALE]`.
pub open spec fn spec_clamp_unit(v: int) -> int {
    if v < 0 {
        0
    } else if v > SCALE {
        SCALE as int
    } else {
        v
    }
}

/// `v` clamped into `[-COORD_LIMIT, COORD_LIMIT]`.
pub open spec fn spec_clamp_coord(v: int) -> int {
    if v < -COORD_LIMIT {
        -COORD_LIMIT
    } else if v > COORD_LIMIT {
        COORD_LIMIT as int
    } else {
        v
    }
}

/// Clamp a fractional coordinate into the unit interval, as done on every
/// value written to a sidecar file.
pub fn clamp_unit(v: i64) -> (r: i64)
    ensures
        r == spec_clamp_unit(v as int),
{
    if v < 0 {
        0
    } else if v > SCALE {
        SCALE
    } else {
        v
    }
}

/// Clamping to the unit interval is idempotent, for each component
/// independently: a second clamp changes nothing.
pub proof fn lemma_clamp_unit_idempotent(v: int)
    ensures
        spec_clamp_unit(spec_clamp_unit(v)) == spec_clamp_unit(v),
{
}

/// Saturate a coordinate into the storable range.
pub fn clamp_coord(v: i64) -> (r: i64)
    ensures
        r == spec_clamp_coord(v as int),
        coord_in_range(r as int),
{
    if v < -COORD_LIMIT {
        -COORD_LIMIT
    } else if v > COORD_LIMIT {
        COORD_LIMIT
    } else {
        v
    }
}

/// Saturating coordinate addition: exact whenever the exact sum is in range.
pub fn add_coord(a: i64, b: i64) -> (r: i64)
    requires
        coord_in_range(a as int),
        -2 * COORD_LIMIT <= b <= 2 * COORD_LIMIT,
    ensures
        r == spec_clamp_coord(a + b),
        coord_in_range(a + b) ==> r == a + b,
{
    clamp_coord(a + b)
}

/// Half of `v`, truncated toward zero.
pub fn half(v: i64) -> (r: i64)
    ensures
        r == trunc_div(v as int, 2),
{
    v.checked_div(2).unwrap()
}

/// A quarter of `v`, truncated toward zero.
pub fn quarter(v: i64) -> (r: i64)
    ensures
        r == trunc_div(v as int, 4),
{
    v.checked_div(4).unwrap()
}

/// Largest first factor `mul_div` accepts; chosen so the product with a
/// display extent stays within `i64`.
pub const MUL_LIMIT: i64 = 7_000_000_000_000;

/// `a * b / d`, truncated toward zero, with bounds that keep the product
/// within `i64`.
pub fn mul_div(a: i64, b: i64, d: i64) -> (r: i64)
    requires
        -MUL_LIMIT <= a <= MUL_LIMIT,
        0 <= b <= DISPLAY_LIMIT,
        0 < d,
    ensures
        r == trunc_div(a * b, d as int),
{
    proof {
        assert((-MUL_LIMIT) * DISPLAY_LIMIT <= a * b <= MUL_LIMIT * DISPLAY_LIMIT)
            by (nonlinear_arith)
            requires
                -MUL_LIMIT <= a <= MUL_LIMIT,
                0 <= b <= DISPLAY_LIMIT,
        ;
    }
    let p: i64 = a * b;
    p.checked_div(d).unwrap()
}

/// Magnitude of a value.
pub open spec fn abs_i(v: int) -> int {
    if v >= 0 {
        v
    } else {
        -v
    }
}

/// Truncating division never grows the magnitude.
pub proof fn lemma_trunc_div_bound(a: int, d: int, bound: int)
    requires
        d >= 1,
        bound >= 0,
        -bound <= a <= bound,
    ensures
        -bound <= trunc_div(a, d) <= bound,
{
    if a >= 0 {
        vstd::arithmetic::div_mod::lemma_div_pos_is_pos(a, d);
        vstd::arithmetic::div_mod::lemma_div_nonincreasing(a, d);
    } else {
        vstd::arithmetic::div_mod::lemma_div_pos_is_pos(-a, d);
        vstd::arithmetic::div_mod::lemma_div_nonincreasing(-a, d);
    }
}

/// Dividing by at least two admits doubling: `|a| <= bound` gives
/// `|2 * (a / d)| <= bound`.
pub proof fn lemma_double_trunc_div_bound(a: int, d: int, bound: int)
    requires
        d >= 2,
        bound >= 0,
        -bound <= a <= bound,
    ensures
        -bound <= 2 * trunc_div(a, d) <= bound,
{
    if a >= 0 {
        vstd::arithmetic::div_mod::lemma_div_pos_is_pos(a, d);
        vstd::arithmetic::div_mod::lemma_div_is_ordered_by_denominator(a, 2, d);
        vstd::arithmetic::div_mod::lemma_fundamental_div_mod(a, 2);
        vstd::arithmetic::div_mod::lemma_mod_division_less_than_divisor(a, 2);
    } else {
        vstd::arithmetic::div_mod::lemma_div_pos_is_pos(-a, d);
        vstd::arithmetic::div_mod::lemma_div_is_ordered_by_denominator(-a, 2, d);
        vstd::arithmetic::div_mod::lemma_fundamental_div_mod(-a, 2);
        vstd::arithmetic::div_mod::lemma_mod_division_less_than_divisor(-a, 2);
    }
}

/// Flooring division is superadditive over the numerator:
/// `x / d + y / d <= (x + y) / d` for non-negative numerators.
pub proof fn lemma_div_superadd(x: int, y: int, d: int)
    requires
        x >= 0,
        y >= 0,
        d > 0,
    ensures
        x / d + y / d <= (x + y) / d,
{
    let q1 = x / d;
    let q2 = y / d;
    vstd::arithmetic::div_mod::lemma_div_pos_is_pos(x, d);
    vstd::arithmetic::div_mod::lemma_div_pos_is_pos(y, d);
    vstd::arithmetic::div_mod::lemma_fundamental_div_mod(x, d);
    vstd::arithmetic::div_mod::lemma_fundamental_div_mod(y, d);
    vstd::arithmetic::div_mod::lemma_mod_division_less_than_divisor(x, d);
    vstd::arithmetic::div_mod::lemma_mod_division_less_than_divisor(y, d);
    vstd::arithmetic::mul::lemma_mul_nonnegative(d, q1 + q2);
    assert(d * (q1 + q2) <= x + y) by (nonlinear_arith)
        requires
            x == d * q1 + x % d,
            y == d * q2 + y % d,
            x % d >= 0,
            y % d >= 0,
    ;
    vstd::arithmetic::div_mod::lemma_div_is_ordered(d * (q1 + q2), x + y, d);
    vstd::arithmetic::div_mod::lemma_div_multiples_vanish(q1 + q2, d);
}

/// For values between `0` and the denominator's multiple, the scaled
/// quotient stays within the scale: `0 <= x <= w` gives
/// `0 <= x * s / w <= s`.
pub proof fn lemma_scale_in_unit(x: int, s: int, w: int)
    requires
        0 <= x <= w,
        1 <= w,
        0 <= s,
    ensures
        0 <= trunc_div(x * s, w) <= s,
{
    vstd::arithmetic::mul::lemma_mul_nonnegative(x, s);
    vstd::arithmetic::div_mod::lemma_div_pos_is_pos(x * s, w);
    assert(x * s <= w * s) by (nonlinear_arith)
        requires
            0 <= x <= w,
            0 <= s,
    ;
    vstd::arithmetic::div_mod::lemma_div_is_ordered(x * s, w * s, w);
    vstd::arithmetic::div_mod::lemma_div_multiples_vanish(s, w);
}

} // verus!
