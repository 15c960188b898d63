use vstd::prelude::*;
use crate::range::{bounds, spec_bounds, Range, Size};
use crate::seed::{next_integer, spec_next_integer, Seed};

verus! {

/// `size`, raised to at least one.
pub open spec fn at_least_one(size: Size) -> Size {
    if size.0 < 1 { Size(1) } else { size }
}

/// The integer drawn from `range` at `size` with `seed`: uniform between the
/// two bounds, in whichever order they come.
pub open spec fn spec_integral(range: Range, seed: Seed, size: Size) -> i64 {
    let (a, b) = spec_bounds(size.0 as int, range);
    spec_next_integer(a as i64, b as i64, seed)
}

/// Draws an integer between the bounds of `range` at `size`.
pub fn integral(range: Range, seed: Seed, size: Size) -> (r: i64)
    ensures
        r == spec_integral(range, seed, size),
        spec_bounds(size.0 as int, range).0 <= r <= spec_bounds(size.0 as int, range).1
            || spec_bounds(size.0 as int, range).1 <= r <= spec_bounds(size.0 as int, range).0,
{
    let (lo, hi) = bounds(size, range);
    let (x, _) = next_integer(lo, hi, seed);
    x
}

/// Raises `size` to at least one.
pub fn run_size(size: Size) -> (r: Size)
    ensures
        r == at_least_one(size),
{
    if size.0 < 1 { Size(1) } else { size }
}

} // verus!
