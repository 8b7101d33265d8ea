//! The price of a pixel: it rises with the distance from the canvas center
//! and with the number of earlier owners.
use vstd::prelude::*;
use crate::transaction::{Credits, Point};

verus! {

/// The price scale: a pixel at distance `d` from the center has base price
/// `1 + floor(d * (MAX_CREDITS_SCALE - 1) / 100)`.
pub const MAX_CREDITS_SCALE: u128 = 100;

/// Whether `r` is the integer square root of `n`.
pub open spec fn is_isqrt(n: int, r: int) -> bool {
    0 <= r && r * r <= n < (r + 1) * (r + 1)
}

pub open spec fn distance_squared(position: Point) -> int {
    position.0 * position.0 + position.1 * position.1
}

/// `floor(d * (MAX_CREDITS_SCALE - 1))` is the integer square root of this.
pub open spec fn scaled_distance_squared(position: Point) -> int {
    distance_squared(position) * ((MAX_CREDITS_SCALE - 1) * (MAX_CREDITS_SCALE - 1))
}

/// The price for a scaled distance root and a number of earlier owners.
pub open spec fn cost_of(root: int, prior_owners: int) -> int {
    (1 + root / 100) * (1 + prior_owners)
}

/// The integer square root of `n`, by bisection.
pub fn isqrt(n: u128) -> (r: u128)
    requires
        n < 0x1_0000_0000_0000_0000_0000,
    ensures
        is_isqrt(n as int, r as int),
{
    let mut lo: u128 = 0;
    let mut hi: u128 = 0x100_0000_0000;
    assert(hi * hi == 0x1_0000_0000_0000_0000_0000) by (nonlinear_arith)
        requires hi == 0x100_0000_0000;
    while hi - lo > 1
        invariant
            lo < hi <= 0x100_0000_0000,
            lo * lo <= n,
            n < hi * hi,
        decreases hi - lo,
    {
        let mid = lo + (hi - lo) / 2;
        assert(mid * mid <= 0x1_0000_0000_0000_0000_0000) by (nonlinear_arith)
            requires mid <= 0x100_0000_0000;
        if mid * mid <= n {
            lo = mid;
        } else {
            hi = mid;
        }
    }
    assert(hi == lo + 1);
    lo
}

/// The price of the pixel at `position` after `prior_owners` distinct earlier
/// owners (the buyer excluded); `None` when it exceeds the credit range.
pub fn pixel_cost(position: Point, prior_owners: u64) -> (r: Option<Credits>)
    ensures
        exists|root: int|
            is_isqrt(scaled_distance_squared(position), root) && (if cost_of(root, prior_owners as int)
                <= i64::MAX {
                r == Some(cost_of(root, prior_owners as int) as Credits)
            } else {
                r is None
            }),
{
    let x = position.0 as i128;
    let y = position.1 as i128;
    assert(0 <= x * x <= 0x4000_0000_0000_0000 && 0 <= y * y <= 0x4000_0000_0000_0000) by (nonlinear_arith)
        requires -0x8000_0000 <= x <= 0x7fff_ffff, -0x8000_0000 <= y <= 0x7fff_ffff;
    let squared = (x * x + y * y) as u128;
    let factor: u128 = (MAX_CREDITS_SCALE - 1) * (MAX_CREDITS_SCALE - 1);
    assert(squared * factor < 0x1_0000_0000_0000_0000_0000) by (nonlinear_arith)
        requires squared <= 0x8000_0000_0000_0000, factor == 9801;
    let root = isqrt(squared * factor);
    assert(root < 0x100_0000_0000) by (nonlinear_arith)
        requires root * root < 0x1_0000_0000_0000_0000_0000, root >= 0;
    assert(squared * factor == scaled_distance_squared(position));
    assert(is_isqrt(scaled_distance_squared(position), root as int));
    let base = 1 + root / 100;
    let owners = 1 + prior_owners as u128;
    assert(base * owners <= 0x100_0000_0000 * 0x1_0000_0000_0000_0000) by (nonlinear_arith)
        requires base <= 0x100_0000_0000, owners <= 0x1_0000_0000_0000_0000;
    let cost = base * owners;
    assert(cost == cost_of(root as int, prior_owners as int));
    if cost > 0x7fff_ffff_ffff_ffff {
        None
    } else {
        Some(cost as Credits)
    }
}

/// Integer square roots grow with their argument.
pub proof fn lemma_isqrt_monotone(n1: int, n2: int, r1: int, r2: int)
    requires
        n1 <= n2,
        is_isqrt(n1, r1),
        is_isqrt(n2, r2),
    ensures
        r1 <= r2,
{
    if r1 > r2 {
        assert((r2 + 1) * (r2 + 1) <= r1 * r1) by (nonlinear_arith)
            requires r1 >= r2 + 1, r2 >= 0;
    }
}

/// A pixel strictly farther from the center costs at least as much as a
/// closer one with the same number of earlier owners, and each further
/// distinct owner strictly raises the price.
pub proof fn lemma_pixel_cost_monotone(near: Point, far: Point, near_root: int, far_root: int, prior_owners: int)
    requires
        distance_squared(near) < distance_squared(far),
        is_isqrt(scaled_distance_squared(near), near_root),
        is_isqrt(scaled_distance_squared(far), far_root),
        prior_owners >= 0,
    ensures
        cost_of(near_root, prior_owners) <= cost_of(far_root, prior_owners),
        cost_of(far_root, prior_owners) < cost_of(far_root, prior_owners + 1),
{
    let f = (MAX_CREDITS_SCALE - 1) * (MAX_CREDITS_SCALE - 1);
    assert(distance_squared(near) * f <= distance_squared(far) * f) by (nonlinear_arith)
        requires distance_squared(near) < distance_squared(far), f >= 0;
    lemma_isqrt_monotone(scaled_distance_squared(near), scaled_distance_squared(far), near_root, far_root);
    let a = 1 + near_root / 100;
    let b = 1 + far_root / 100;
    assert(a <= b) by {
        assert(near_root / 100 <= far_root / 100) by (nonlinear_arith)
            requires near_root <= far_root, near_root >= 0;
    }
    assert(a * (1 + prior_owners) <= b * (1 + prior_owners)) by (nonlinear_arith)
        requires a <= b, prior_owners >= 0;
    assert(b * (1 + prior_owners) < b * (1 + prior_owners + 1)) by (nonlinear_arith)
        requires b >= 1;
}

} // verus!
