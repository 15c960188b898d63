use vstd::prelude::*;
use vstd::arithmetic::div_mod::lemma_div_is_ordered;

verus! {

/// The size knob of a generator, conventionally in `0..=99`.
#[derive(Clone, Copy, Debug, PartialEq, Eq, Structural)]
pub struct Size(pub isize);

/// How the bounds of a range grow with the size.
#[derive(Clone, Copy, Debug, PartialEq, Eq, Structural)]
pub enum Scaling {
    /// The bounds do not depend on the size.
    Constant,
    /// The bounds move linearly from the origin (size 0) to the ends (size 99).
    Linear,
}

/// A size-dependent closed interval between `x` and `y` (in either order), with
/// a distinguished `origin` that shrinking aims for.
#[derive(Clone, Copy, Debug, PartialEq, Eq, Structural)]
pub struct Range {
    pub origin: i64,
    pub x: i64,
    pub y: i64,
    pub scaling: Scaling,
}

/// `size` clamped to `0..=99`.
pub open spec fn clamp_size(size: int) -> int {
    if size < 0 {
        0
    } else if size > 99 {
        99
    } else {
        size
    }
}

/// Integer division rounding toward zero, by a positive divisor.
pub open spec fn div_trunc(a: int, b: int) -> int {
    if a >= 0 {
        a / b
    } else {
        -((-a) / b)
    }
}

/// `origin + (bound - origin) * size / 99`, with the size clamped to `0..=99`
/// and the quotient rounded toward zero.
pub open spec fn spec_scale_linear(size: int, origin: int, bound: int) -> int {
    origin + div_trunc((bound - origin) * clamp_size(size), 99)
}

/// `n` clamped into the closed interval between `x` and `y`.
pub open spec fn spec_clamp(x: int, y: int, n: int) -> int {
    let lo = if x <= y { x } else { y };
    let hi = if x <= y { y } else { x };
    if n < lo {
        lo
    } else if n > hi {
        hi
    } else {
        n
    }
}

/// The pair of bounds that `r` has at `size`.
pub open spec fn spec_bounds(size: int, r: Range) -> (int, int) {
    match r.scaling {
        Scaling::Constant => (r.x as int, r.y as int),
        Scaling::Linear => (
            spec_clamp(r.x as int, r.y as int, spec_scale_linear(size, r.origin as int, r.x as int)),
            spec_clamp(r.x as int, r.y as int, spec_scale_linear(size, r.origin as int, r.y as int)),
        ),
    }
}

pub open spec fn spec_lower_bound(size: int, r: Range) -> int {
    let (a, b) = spec_bounds(size, r);
    if a <= b { a } else { b }
}

pub open spec fn spec_upper_bound(size: int, r: Range) -> int {
    let (a, b) = spec_bounds(size, r);
    if a <= b { b } else { a }
}

/// The value that shrinking aims for.
pub fn origin(r: Range) -> (z: i64)
    ensures
        z == r.origin,
{
    r.origin
}

/// `n` clamped into the closed interval between `x` and `y` (in either order).
pub fn clamp(x: i64, y: i64, n: i64) -> (r: i64)
    ensures
        r == spec_clamp(x as int, y as int, n as int),
{
    if x > y {
        if n < y {
            y
        } else if n > x {
            x
        } else {
            n
        }
    } else {
        if n < x {
            x
        } else if n > y {
            y
        } else {
            n
        }
    }
}

/// Scales `bound` toward `origin` in proportion to the size.
pub fn scale_linear(size: Size, origin: i64, bound: i64) -> (r: i64)
    ensures
        r == spec_scale_linear(size.0 as int, origin as int, bound as int),
{
    let sz: i128 = if size.0 < 0 {
        0
    } else if size.0 > 99 {
        99
    } else {
        size.0 as i128
    };
    let d: i128 = bound as i128 - origin as i128;
    let q: i128 = if d >= 0 {
        proof {
            assert(0 <= d * sz <= d * 99) by (nonlinear_arith)
                requires 0 <= d, 0 <= sz <= 99;
            assert(d * sz / 99 <= d) by (nonlinear_arith)
                requires 0 <= d * sz <= d * 99;
        }
        (d * sz) / 99
    } else {
        let e: i128 = -d;
        proof {
            assert(0 <= e * sz <= e * 99) by (nonlinear_arith)
                requires 0 <= e, 0 <= sz <= 99;
            assert(e * sz / 99 <= e) by (nonlinear_arith)
                requires 0 <= e * sz <= e * 99;
            assert(-d * sz == -(d * sz)) by (nonlinear_arith);
        }
        -((e * sz) / 99)
    };
    (origin as i128 + q) as i64
}

/// The pair of bounds at `size`.
pub fn bounds(size: Size, r: Range) -> (b: (i64, i64))
    ensures
        (b.0 as int, b.1 as int) == spec_bounds(size.0 as int, r),
{
    match r.scaling {
        Scaling::Constant => (r.x, r.y),
        Scaling::Linear => {
            let a = clamp(r.x, r.y, scale_linear(size, r.origin, r.x));
            let b = clamp(r.x, r.y, scale_linear(size, r.origin, r.y));
            (a, b)
        },
    }
}

/// The smaller of the two bounds at `size`.
pub fn lower_bound(size: Size, r: Range) -> (v: i64)
    ensures
        v == spec_lower_bound(size.0 as int, r),
{
    let (a, b) = bounds(size, r);
    if a <= b { a } else { b }
}

/// The larger of the two bounds at `size`.
pub fn upper_bound(size: Size, r: Range) -> (v: i64)
    ensures
        v == spec_upper_bound(size.0 as int, r),
{
    let (a, b) = bounds(size, r);
    if a <= b { b } else { a }
}

/// The range that holds `x` alone.
pub fn singleton(x: i64) -> (r: Range)
    ensures
        r == (Range { origin: x, x, y: x, scaling: Scaling::Constant }),
{
    constant_from(x, x, x)
}

/// The size-independent range between `x` and `y`, with origin `x`.
pub fn constant(x: i64, y: i64) -> (r: Range)
    ensures
        r == (Range { origin: x, x, y, scaling: Scaling::Constant }),
{
    constant_from(x, x, y)
}

/// The size-independent range between `x` and `y`, with origin `z`.
pub fn constant_from(z: i64, x: i64, y: i64) -> (r: Range)
    ensures
        r == (Range { origin: z, x, y, scaling: Scaling::Constant }),
{
    Range { origin: z, x, y, scaling: Scaling::Constant }
}

/// The whole of `i64`, with origin zero.
pub fn constant_bounded() -> (r: Range)
    ensures
        r == (Range { origin: 0, x: i64::MIN, y: i64::MAX, scaling: Scaling::Constant }),
{
    constant_from(0, i64::MIN, i64::MAX)
}

/// The range between `x` and `y` that grows linearly with the size, from `x`.
pub fn linear(x: i64, y: i64) -> (r: Range)
    ensures
        r == (Range { origin: x, x, y, scaling: Scaling::Linear }),
{
    linear_from(x, x, y)
}

/// The range between `x` and `y` that grows linearly with the size, from `z`.
pub fn linear_from(z: i64, x: i64, y: i64) -> (r: Range)
    ensures
        r == (Range { origin: z, x, y, scaling: Scaling::Linear }),
{
    Range { origin: z, x, y, scaling: Scaling::Linear }
}

/// The whole of `i64`, growing linearly from zero.
pub fn linear_bounded() -> (r: Range)
    ensures
        r == (Range { origin: 0, x: i64::MIN, y: i64::MAX, scaling: Scaling::Linear }),
{
    linear_from(0, i64::MIN, i64::MAX)
}

/// The scaled offset moves monotonically from zero (size 0) toward `d` (size 99).
proof fn lemma_scaled_offset_monotone(d: int, s1: int, s2: int)
    requires
        0 <= s1 <= s2 <= 99,
    ensures
        d >= 0 ==> 0 <= div_trunc(d * s1, 99) <= div_trunc(d * s2, 99) <= d,
        d < 0 ==> d <= div_trunc(d * s2, 99) <= div_trunc(d * s1, 99) <= 0,
{
    if d >= 0 {
        assert(0 <= d * s1 <= d * s2 <= d * 99) by (nonlinear_arith)
            requires d >= 0, 0 <= s1 <= s2 <= 99;
        lemma_div_is_ordered(d * s1, d * s2, 99);
        lemma_div_is_ordered(d * s2, d * 99, 99);
        lemma_div_is_ordered(0, d * s1, 99);
        assert((d * 99) / 99 == d) by (nonlinear_arith);
    } else {
        let e = -d;
        assert(0 <= e * s1 <= e * s2 <= e * 99) by (nonlinear_arith)
            requires e > 0, 0 <= s1 <= s2 <= 99;
        assert(d * s1 == -(e * s1) && d * s2 == -(e * s2)) by (nonlinear_arith)
            requires e == -d;
        lemma_div_is_ordered(e * s1, e * s2, 99);
        lemma_div_is_ordered(e * s2, e * 99, 99);
        lemma_div_is_ordered(0, e * s1, 99);
        assert((e * 99) / 99 == e) by (nonlinear_arith);
    }
}

/// A linear range grows with the size: for sizes `s1 < s2` in `0..=99`, the
/// interval between the bounds at `s2` contains the interval at `s1`.
pub proof fn law_linear_monotone(z: i64, x: i64, y: i64, s1: int, s2: int)
    requires
        0 <= s1 < s2 <= 99,
    ensures
        ({
            let r = Range { origin: z, x, y, scaling: Scaling::Linear };
            &&& spec_lower_bound(s2, r) <= spec_lower_bound(s1, r)
            &&& spec_upper_bound(s1, r) <= spec_upper_bound(s2, r)
        }),
{
    lemma_scaled_offset_monotone(x - z, s1, s2);
    lemma_scaled_offset_monotone(y - z, s1, s2);
    assert(clamp_size(s1) == s1 && clamp_size(s2) == s2);
}

} // verus!
