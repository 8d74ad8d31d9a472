//! How a requested change of size becomes a size in whole pixels.

use crate::float::{lemma_whole, Float, UNIT_EXPONENT};
use crate::rounding::{lemma_nearest_exists, magnitude, IMPLICIT};
use vstd::arithmetic::power2::{lemma_pow2_pos, pow2};
use vstd::prelude::*;

verus! {

/// Change in window size.
#[derive(Clone, Copy, Debug)]
pub enum SizeChange {
    /// Set the size in logical pixels.
    SetFixed(i32),
    /// Set the size as a percentage of the working area.
    SetProportion(Float),
    /// Add to the current size in logical pixels.
    AdjustFixed(i32),
    /// Add to the current size as a percentage of the working area.
    AdjustProportion(Float),
}

/// The largest size that is ever asked for, in pixels.
pub const MAX_PX: i32 = 100000;

/// The largest share of the working area that is ever asked for.
pub const MAX_F: i32 = 10000;

/// The integer nearest to `v` that an `i32` holds.
pub open spec fn saturated(v: int) -> int {
    if v > i32::MAX {
        i32::MAX as int
    } else if v < i32::MIN {
        i32::MIN as int
    } else {
        v
    }
}

/// A share of the working area, held from nothing to [`MAX_F`] times it.
pub open spec fn bounded_share(share: Float) -> Float {
    share.spec_clamp(Float::whole(0), Float::whole(MAX_F as int))
}

/// What one side of a window becomes before bounds: of a side that is `window` pixels now, in a
/// tile of side `tile` whose decorations take `frame`, where `available` pixels are to be had.
pub open spec fn changed_side(
    change: SizeChange,
    window: i32,
    tile: Float,
    frame: Float,
    available: Float,
) -> Float {
    let percent = Float::whole(100);
    match change {
        SizeChange::SetFixed(px) => Float::whole(px as int),
        SizeChange::SetProportion(prop) => available.spec_mul(
            bounded_share(prop.spec_div(percent)),
        ).spec_sub(frame),
        SizeChange::AdjustFixed(delta) => Float::whole(saturated(window + delta)),
        SizeChange::AdjustProportion(delta) => available.spec_mul(
            bounded_share(tile.spec_div(available).spec_add(delta.spec_div(percent))),
        ).spec_sub(frame),
    }
}

/// The whole number of pixels that is asked for `side`.
pub open spec fn whole_pixels(side: Float) -> int {
    side.spec_round().spec_clamp(Float::whole(1), Float::whole(MAX_PX as int)).spec_to_i32()
}

/// `x` within the bounds that are set; the lower one wins where they cross.
pub open spec fn within_min_max(x: int, min_size: int, max_size: int) -> int {
    let lowered = if max_size > 0 && x > max_size {
        max_size
    } else {
        x
    };
    if min_size > 0 && lowered < min_size {
        min_size
    } else {
        lowered
    }
}

/// `x` within the bounds of a window; a bound of 0 is none.
pub fn ensure_min_max_size(x: i32, min_size: i32, max_size: i32) -> (r: i32)
    ensures
        r == within_min_max(x as int, min_size as int, max_size as int),
{
    let lowered = if max_size > 0 && x > max_size {
        max_size
    } else {
        x
    };
    if min_size > 0 && lowered < min_size {
        min_size
    } else {
        lowered
    }
}

/// The order of whole numbers is that of the numbers that hold them.
pub proof fn lemma_whole_order(low: int, high: int)
    requires
        -2 * IMPLICIT < low <= high < 2 * IMPLICIT,
    ensures
        !Float::whole(low).spec_is_nan(),
        !Float::whole(high).spec_is_nan(),
        !Float::whole(high).spec_lt(Float::whole(low)),
{
    let one = pow2(UNIT_EXPONENT as nat);
    lemma_whole(low);
    lemma_whole(high);
    lemma_pow2_pos(UNIT_EXPONENT as nat);
    assert(low * one <= high * one) by (nonlinear_arith)
        requires
            low <= high,
            one > 0,
    ;
}

/// The sum, or the bound of `i32` that it is past.
fn add_saturating(a: i32, b: i32) -> (r: i32)
    ensures
        r == saturated(a + b),
{
    let sum: i64 = a as i64 + b as i64;
    if sum > i32::MAX as i64 {
        i32::MAX
    } else if sum < i32::MIN as i64 {
        i32::MIN
    } else {
        sum as i32
    }
}

fn bound_share(share: Float) -> (r: Float)
    ensures
        r == bounded_share(share),
{
    proof {
        lemma_whole_order(0, MAX_F as int);
    }
    share.clamp(Float::from_i32(0), Float::from_i32(MAX_F))
}

/// One side of a window after a change, before bounds.
pub fn change_side(
    change: SizeChange,
    window: i32,
    tile: Float,
    frame: Float,
    available: Float,
) -> (r: Float)
    ensures
        r == changed_side(change, window, tile, frame, available),
{
    let percent = Float::from_i32(100);
    match change {
        SizeChange::SetFixed(px) => Float::from_i32(px),
        SizeChange::SetProportion(prop) => {
            let share = bound_share(prop.div(percent));
            available.mul(share).sub(frame)
        },
        SizeChange::AdjustFixed(delta) => Float::from_i32(add_saturating(window, delta)),
        SizeChange::AdjustProportion(delta) => {
            let share = bound_share(tile.div(available).add(delta.div(percent)));
            available.mul(share).sub(frame)
        },
    }
}

/// The whole number of pixels that is asked for `side`.
pub fn to_whole_pixels(side: Float) -> (r: i32)
    ensures
        r == whole_pixels(side),
{
    proof {
        lemma_whole_order(1, MAX_PX as int);
    }
    side.round().clamp(Float::from_i32(1), Float::from_i32(MAX_PX)).to_i32()
}

/// What is asked for is between one pixel and [`MAX_PX`], and nothing for what is not a number.
pub proof fn law_whole_pixels_are_bounded(side: Float)
    ensures
        side.spec_is_nan() ==> whole_pixels(side) == 0,
        !side.spec_is_nan() ==> 1 <= whole_pixels(side) <= MAX_PX,
{
    let one = pow2(UNIT_EXPONENT as nat);
    let low = Float::whole(1);
    let high = Float::whole(MAX_PX as int);
    let rounded = side.spec_round();
    let held = rounded.spec_clamp(low, high);
    lemma_pow2_pos(UNIT_EXPONENT as nat);
    lemma_whole(1);
    lemma_whole(MAX_PX as int);
    if !side.spec_is_nan() {
        let whole = (2 * magnitude(side.pattern()) + one) / (2 * one);
        lemma_nearest_exists(whole * one, 1);
        assert(!rounded.spec_is_nan());
        lemma_whole_order(1, MAX_PX as int);
        assert(1 * one == one) by (nonlinear_arith);
        assert(one <= held.units() <= MAX_PX * one);
        let m = magnitude(held.pattern());
        assert(!held.is_negative());
        vstd::arithmetic::div_mod::lemma_fundamental_div_mod(m as int, one as int);
        let k = m / one;
        assert(1 <= k <= MAX_PX) by (nonlinear_arith)
            requires
                one > 0,
                m == one * k + m % one,
                0 <= m % one < one,
                one <= m <= MAX_PX * one,
        ;
    }
}

/// A size that was asked for respects the bounds of the window, the lower one where they cross.
pub proof fn law_bounds_are_respected(x: int, min_size: int, max_size: int)
    ensures
        min_size > 0 ==> within_min_max(x, min_size, max_size) >= min_size,
        max_size > 0 && min_size <= max_size ==> within_min_max(x, min_size, max_size) <= max_size,
        within_min_max(within_min_max(x, min_size, max_size), min_size, max_size)
            == within_min_max(x, min_size, max_size),
{
}

} // verus!
