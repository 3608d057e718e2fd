use vstd::prelude::*;

verus! {

/// Number of fixed-point units in one whole unit: every measured quantity
/// of the library (coordinates, sides, areas, ratios, scores) is held as an
/// integer count of millionths of its unit.
pub const SCALE: u64 = 1_000_000;

/// Quotient of two non-negative integers, rounded up. Every division of a
/// measured quantity rounds this way, so a positive quotient never reads as
/// zero.
pub open spec fn div_up(a: int, b: int) -> int
    recommends
        b > 0,
{
    (a + b - 1) / b
}

/// A rounded-up quotient of non-negative integers is non-negative and no
/// larger than its numerator.
pub proof fn lemma_div_up_bounds(a: int, b: int)
    requires
        a >= 0,
        b >= 1,
    ensures
        0 <= div_up(a, b) <= a,
{
    assert(0 <= (a + b - 1) / b <= a) by (nonlinear_arith)
        requires
            a >= 0,
            b >= 1,
    ;
}

/// A non-negative ratio in fixed-point units, or positive infinity when its
/// denominator is zero.
#[derive(Clone, Copy, Debug, PartialEq, Eq, Structural)]
pub enum Ratio {
    Finite(u64),
    Infinite,
}

} // verus!
