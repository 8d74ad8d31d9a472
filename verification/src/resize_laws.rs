//! What a change of size asks of a window, in exact numbers.

use crate::float::{
    distance, lemma_neg, lemma_round_near, lemma_whole, lemma_whole_is_whole, signed, Float,
    UNIT_EXPONENT,
};
use crate::geometry::{Point, WindowSize};
use crate::laws::{law_fixed_size_is_exact, lemma_first};
use crate::rounding::{
    lemma_nearest_is_monotone, lemma_pattern_order, lemma_representable, magnitude, nearest,
    IMPLICIT,
};
use crate::sizing::{
    changed_side, law_whole_pixels_are_bounded, lemma_whole_order, whole_pixels, within_min_max,
    SizeChange,
};
use crate::state::{dragged_side, first, CanvasView, InteractiveResize};
use crate::tile::{LayoutElement, Tile, WindowRecord, WindowState};
use vstd::arithmetic::power2::{lemma_pow2_pos, pow2};
use vstd::prelude::*;

verus! {

// --- one side ---

/// What is asked for is the nearest whole number of pixels, a half going up, from one pixel to a
/// hundred thousand; nothing for what is not a number.
pub proof fn law_the_nearest_pixels_are_asked_for(side: Float)
    ensures
        side.spec_is_nan() ==> whole_pixels(side) == 0,
        !side.spec_is_nan() ==> {
            let one = pow2(UNIT_EXPONENT as nat);
            let u = side.units();
            let k = whole_pixels(side);
            &&& 1 <= k <= 100_000
            &&& 2 * u < 3 * one ==> k == 1
            &&& 2 * u >= 199_999 * one ==> k == 100_000
            &&& one <= u <= 100_000 * one ==> 2 * (k * one) - one <= 2 * u < 2 * (k * one) + one
        },
{
    let one = pow2(UNIT_EXPONENT as nat);
    let low = Float::whole(1);
    let high = Float::whole(100_000);
    let rounded = side.spec_round();
    law_whole_pixels_are_bounded(side);
    lemma_pow2_pos(UNIT_EXPONENT as nat);
    lemma_whole(1);
    lemma_whole(100_000);
    assert(1 * one == one) by (nonlinear_arith);
    if !side.spec_is_nan() {
        let u = side.units();
        if distance(u) <= IMPLICIT * one {
            lemma_finite_below(side);
            let k = lemma_round_near(side);
            assert(k < 1 ==> k * one <= 0) by (nonlinear_arith)
                requires
                    one > 0,
            ;
            assert(k > 100_000 ==> k * one > 100_000 * one) by (nonlinear_arith)
                requires
                    one > 0,
            ;
            assert(k >= 1 ==> k * one >= one) by (nonlinear_arith)
                requires
                    one > 0,
            ;
            assert(k <= 100_000 ==> k * one <= 100_000 * one) by (nonlinear_arith)
                requires
                    one > 0,
            ;
            assert(k >= 2 ==> k * one >= 2 * one) by (nonlinear_arith)
                requires
                    one > 0,
            ;
            assert(k <= 99_999 ==> k * one <= 99_999 * one) by (nonlinear_arith)
                requires
                    one > 0,
            ;
            lemma_whole_is_whole(1);
            lemma_whole_is_whole(100_000);
            assert(rounded.spec_clamp(low, high) == if k < 1 {
                low
            } else if k > 100_000 {
                high
            } else {
                rounded
            });
        } else {
            lemma_round_far(side);
            lemma_whole_is_whole(1);
            lemma_whole_is_whole(100_000);
            assert(rounded.spec_clamp(low, high) == if u < 0 {
                low
            } else {
                high
            });
        }
    }
}

/// A number of no more than `2^52` is finite.
proof fn lemma_finite_below(a: Float)
    requires
        !a.spec_is_nan(),
        distance(a.units()) <= IMPLICIT * pow2(UNIT_EXPONENT as nat),
    ensures
        a.spec_is_finite(),
{
    let top = lemma_representable(IMPLICIT as nat, UNIT_EXPONENT as nat);
    lemma_pattern_order(top, a.pattern());
    lemma_pattern_order(a.pattern(), top);
}

/// What is past `2^52` is rounded to what is still there.
proof fn lemma_round_far(a: Float)
    requires
        !a.spec_is_nan(),
        distance(a.units()) > IMPLICIT * pow2(UNIT_EXPONENT as nat),
    ensures
        !a.spec_round().spec_is_nan(),
        a.units() < 0 ==> a.spec_round().units() < 0,
        a.units() > 0 ==> a.spec_round().units() > 100_000 * pow2(UNIT_EXPONENT as nat),
{
    let one = pow2(UNIT_EXPONENT as nat);
    lemma_pow2_pos(UNIT_EXPONENT as nat);
    let m = magnitude(a.pattern());
    assert(IMPLICIT * one > 100_000 * one) by (nonlinear_arith)
        requires
            one > 0,
    ;
    if a.spec_is_finite() {
        let k = (2 * m + one) / (2 * one);
        vstd::arithmetic::div_mod::lemma_fundamental_div_mod(
            (2 * m + one) as int,
            (2 * one) as int,
        );
        assert(k >= IMPLICIT) by (nonlinear_arith)
            requires
                2 * m + one == (2 * one) * k + (2 * m + one) % (2 * one),
                (2 * m + one) % (2 * one) < 2 * one,
                m >= IMPLICIT * one,
                one > 0,
        ;
        assert(IMPLICIT * one <= k * one) by (nonlinear_arith)
            requires
                IMPLICIT <= k,
                one > 0,
        ;
        let top = lemma_representable(IMPLICIT as nat, UNIT_EXPONENT as nat);
        lemma_nearest_is_monotone(IMPLICIT as nat * one, 1, k * one, 1);
        let p = nearest(k * one, 1);
        lemma_pattern_order(p, top);
        lemma_pattern_order(top, p);
        assert(a.spec_round() == signed(a.is_negative(), p));
    }
}

/// Whether `asked` is what the bounds of a window make of `wanted`: as it is if it is within them,
/// else the bound that it is past. A bound that is not above 0 is none, and where the two cross the
/// lower one holds.
pub open spec fn is_bounded(asked: int, wanted: int, min_size: int, max_size: int) -> bool {
    let too_small = min_size > 0 && wanted < min_size;
    let too_large = max_size > 0 && wanted > max_size;
    &&& !too_small && !too_large ==> asked == wanted
    &&& too_small ==> asked == min_size
    &&& too_large && !too_small && min_size <= max_size ==> asked == max_size
    &&& too_large && min_size > max_size ==> asked == min_size
}

/// What bounds make of a size: a size within them is left alone.
pub proof fn law_bounds_only_stop_what_is_past_them(x: int, min_size: int, max_size: int)
    ensures
        is_bounded(within_min_max(x, min_size, max_size), x, min_size, max_size),
{
}

/// Adding to a fixed size adds whole pixels, and no sum of such is too large.
pub proof fn law_fixed_adjustment_adds(
    delta: i32,
    window: i32,
    tile: Float,
    frame: Float,
    available: Float,
)
    ensures
        whole_pixels(changed_side(SizeChange::AdjustFixed(delta), window, tile, frame, available))
            == if window + delta < 1 {
            1
        } else if window + delta > 100_000 {
            100_000
        } else {
            window + delta
        },
{
    let sum = window + delta;
    let held = if sum > i32::MAX {
        i32::MAX as int
    } else if sum < i32::MIN {
        i32::MIN as int
    } else {
        sum
    };
    let one = pow2(UNIT_EXPONENT as nat);
    let side = changed_side(SizeChange::AdjustFixed(delta), window, tile, frame, available);
    lemma_whole(held);
    lemma_pow2_pos(UNIT_EXPONENT as nat);
    assert(side.units() == held * one);
    law_the_nearest_pixels_are_asked_for(side);
    let k = whole_pixels(side);
    assert(held < 1 ==> held * one <= 0) by (nonlinear_arith)
        requires
            one > 0,
    ;
    assert(held >= 100_000 ==> held * one >= 100_000 * one) by (nonlinear_arith)
        requires
            one > 0,
    ;
    assert(1 <= held <= 100_000 ==> one <= held * one && held * one <= 100_000 * one)
        by (nonlinear_arith)
        requires
            one > 0,
    ;
    if 1 <= held <= 100_000 {
        assert(k == held) by (nonlinear_arith)
            requires
                2 * (k * one) - one <= 2 * (held * one),
                2 * (held * one) < 2 * (k * one) + one,
                one > 0,
        ;
    }
}

/// Whether the share `share` of `available`, less `frame`, is computed without rounding.
pub open spec fn shares_exactly(available: Float, share: Float, frame: Float) -> bool {
    &&& available.multiplies_exactly(share)
    &&& available.spec_mul(share).subtracts_exactly(frame)
}

/// A proportion is a percentage of what is available: of a hundred times the side with its frame,
/// what is available has `prop` parts. A negative one is none at all, and one past ten thousand
/// times what is available is held there.
pub proof fn law_proportion_is_a_percentage(
    prop: Float,
    window: i32,
    tile: Float,
    frame: Float,
    available: Float,
)
    ensures
        ({
            let one = pow2(UNIT_EXPONENT as nat);
            let side = changed_side(
                SizeChange::SetProportion(prop),
                window,
                tile,
                frame,
                available,
            );
            let share = prop.spec_div(Float::whole(100));
            let most = Float::whole(10_000);
            &&& !share.spec_lt(Float::whole(0)) && !most.spec_lt(share) ==> side
                == available.spec_mul(share).spec_sub(frame)
            &&& share.spec_lt(Float::whole(0)) ==> side == available.spec_mul(
                Float::whole(0),
            ).spec_sub(frame)
            &&& most.spec_lt(share) ==> side == available.spec_mul(most).spec_sub(frame)
            &&& prop.divides_exactly(Float::whole(100)) && shares_exactly(available, share, frame)
                && !share.spec_lt(Float::whole(0)) && !most.spec_lt(share) ==> 100 * ((
            side.units() + frame.units()) * one) == available.units() * prop.units()
        }),
{
    let one = pow2(UNIT_EXPONENT as nat) as int;
    let share = prop.spec_div(Float::whole(100));
    lemma_whole(100);
    lemma_whole(0);
    lemma_whole(10_000);
    lemma_pow2_pos(UNIT_EXPONENT as nat);
    lemma_neg(frame);
    lemma_whole_order(0, 10_000);
    if prop.divides_exactly(Float::whole(100)) && shares_exactly(available, share, frame) {
        let product = available.spec_mul(share);
        lemma_percentage(share.units(), prop.units(), one);
        assert(100 * (product.units() * one) == available.units() * prop.units())
            by (nonlinear_arith)
            requires
                product.units() * one == available.units() * share.units(),
                100 * share.units() == prop.units(),
        ;
    }
}

/// A hundredth is a hundredth of the units.
proof fn lemma_percentage(share: int, prop: int, one: int)
    requires
        share * (100 * one) == prop * one,
        one > 0,
    ensures
        100 * share == prop,
{
    assert(100 * share == prop) by (nonlinear_arith)
        requires
            share * (100 * one) == prop * one,
            one > 0,
    ;
}

/// Whether adjusting a tile by a percentage is computed without rounding, to a share from nothing
/// to ten thousand times what is available.
pub open spec fn adjusts_exactly(
    delta: Float,
    tile: Float,
    frame: Float,
    available: Float,
) -> bool {
    let share = tile.spec_div(available);
    let percent = delta.spec_div(Float::whole(100));
    let sum = share.spec_add(percent);
    &&& tile.divides_exactly(available)
    &&& delta.divides_exactly(Float::whole(100))
    &&& share.adds_exactly(percent)
    &&& !sum.spec_lt(Float::whole(0))
    &&& !Float::whole(10_000).spec_lt(sum)
    &&& shares_exactly(available, sum, frame)
}

/// Adjusting by a percentage, up or down alike, starts from the tile as it is: it adds `delta`
/// hundredths of what is available to the tile, of which the frame is not the window's. A share
/// that falls below nothing is none at all, and one past ten thousand times what is available is
/// held there.
pub proof fn law_proportional_adjustment_adds(
    delta: Float,
    window: i32,
    tile: Float,
    frame: Float,
    available: Float,
)
    ensures
        ({
            let one = pow2(UNIT_EXPONENT as nat);
            let side = changed_side(
                SizeChange::AdjustProportion(delta),
                window,
                tile,
                frame,
                available,
            );
            let share = tile.spec_div(available).spec_add(delta.spec_div(Float::whole(100)));
            let most = Float::whole(10_000);
            &&& !share.spec_lt(Float::whole(0)) && !most.spec_lt(share) ==> side
                == available.spec_mul(share).spec_sub(frame)
            &&& share.spec_lt(Float::whole(0)) ==> side == available.spec_mul(
                Float::whole(0),
            ).spec_sub(frame)
            &&& most.spec_lt(share) ==> side == available.spec_mul(most).spec_sub(frame)
            &&& adjusts_exactly(delta, tile, frame, available) ==> 100 * ((side.units()
                + frame.units() - tile.units()) * one) == available.units() * delta.units()
        }),
{
    let one = pow2(UNIT_EXPONENT as nat) as int;
    let part = tile.spec_div(available);
    let percent = delta.spec_div(Float::whole(100));
    let share = part.spec_add(percent);
    lemma_whole(100);
    lemma_whole(0);
    lemma_whole(10_000);
    lemma_pow2_pos(UNIT_EXPONENT as nat);
    lemma_neg(frame);
    lemma_whole_order(0, 10_000);
    if adjusts_exactly(delta, tile, frame, available) {
        let product = available.spec_mul(share);
        lemma_percentage(percent.units(), delta.units(), one);
        lemma_adjusted(
            product.units(),
            available.units(),
            part.units(),
            percent.units(),
            tile.units(),
            delta.units(),
            one,
        );
        assert(product.spec_sub(frame).units() == product.units() - frame.units());
    }
}

/// What a tile gains by a percentage of what is available.
proof fn lemma_adjusted(
    product: int,
    available: int,
    part: int,
    percent: int,
    tile: int,
    delta: int,
    one: int,
)
    by (nonlinear_arith)
    requires
        product * one == available * (part + percent),
        part * available == tile * one,
        100 * percent == delta,
    ensures
        100 * ((product - tile) * one) == available * delta,
{
}

/// Of two tiles that are adjusted by the same percentage the larger one stays larger, by as much as
/// it was.
pub proof fn law_adjustment_keeps_differences(
    delta: Float,
    window: i32,
    smaller: Float,
    larger: Float,
    frame: Float,
    available: Float,
)
    requires
        adjusts_exactly(delta, smaller, frame, available),
        adjusts_exactly(delta, larger, frame, available),
    ensures
        ({
            let change = SizeChange::AdjustProportion(delta);
            changed_side(change, window, larger, frame, available).units() - changed_side(
                change,
                window,
                smaller,
                frame,
                available,
            ).units() == larger.units() - smaller.units()
        }),
{
    let change = SizeChange::AdjustProportion(delta);
    let one = pow2(UNIT_EXPONENT as nat) as int;
    lemma_pow2_pos(UNIT_EXPONENT as nat);
    law_proportional_adjustment_adds(delta, window, smaller, frame, available);
    law_proportional_adjustment_adds(delta, window, larger, frame, available);
    lemma_cancel_hundred(
        changed_side(change, window, larger, frame, available).units() + frame.units()
            - larger.units(),
        changed_side(change, window, smaller, frame, available).units() + frame.units()
            - smaller.units(),
        one,
    );
}

/// Adjusting by a percentage is setting the percentage that comes out: whatever the tile has and
/// the delta is, up or down, it sets the share that the tile has of what is available plus the
/// delta.
pub proof fn law_adjusting_is_setting(
    delta: Float,
    prop: Float,
    window: i32,
    tile: Float,
    frame: Float,
    available: Float,
)
    requires
        prop.spec_div(Float::whole(100)) == tile.spec_div(available).spec_add(
            delta.spec_div(Float::whole(100)),
        ),
    ensures
        changed_side(SizeChange::AdjustProportion(delta), window, tile, frame, available)
            == changed_side(SizeChange::SetProportion(prop), window, tile, frame, available),
{
}

/// Equal multiples are of equal numbers.
proof fn lemma_cancel_hundred(a: int, b: int, one: int)
    requires
        100 * (a * one) == 100 * (b * one),
        one > 0,
    ensures
        a == b,
{
    assert(a == b) by (nonlinear_arith)
        requires
            100 * (a * one) == 100 * (b * one),
            one > 0,
    ;
}

/// Adjusting by a percentage and then by its opposite brings the side back that the tile had.
pub proof fn law_adjustments_cancel(
    delta: Float,
    window: i32,
    tile: Float,
    after: Float,
    frame: Float,
    available: Float,
)
    requires
        adjusts_exactly(delta, tile, frame, available),
        adjusts_exactly(delta.spec_neg(), after, frame, available),
        after.units() == changed_side(
            SizeChange::AdjustProportion(delta),
            window,
            tile,
            frame,
            available,
        ).units() + frame.units(),
    ensures
        changed_side(
            SizeChange::AdjustProportion(delta.spec_neg()),
            window,
            after,
            frame,
            available,
        ).units() + frame.units() == tile.units(),
{
    let one = pow2(UNIT_EXPONENT as nat) as int;
    let back = changed_side(
        SizeChange::AdjustProportion(delta.spec_neg()),
        window,
        after,
        frame,
        available,
    );
    lemma_pow2_pos(UNIT_EXPONENT as nat);
    lemma_neg(delta);
    law_proportional_adjustment_adds(delta, window, tile, frame, available);
    law_proportional_adjustment_adds(delta.spec_neg(), window, after, frame, available);
    let there = after.units() - tile.units();
    let again = back.units() + frame.units() - after.units();
    assert(available.units() * delta.spec_neg().units() == -(available.units() * delta.units()))
        by (nonlinear_arith)
        requires
            delta.spec_neg().units() == -delta.units(),
    ;
    assert(100 * (again * one) == 100 * ((-there) * one)) by (nonlinear_arith)
        requires
            100 * (again * one) == -(100 * (there * one)),
    ;
    lemma_cancel_hundred(again, -there, one);
}

// --- requests ---

/// Whether `asked` is a request for a width of `wanted` pixels: it is held within the bounds of the
/// window, and so is the height that it is expected to have, or none.
pub open spec fn asks_for_width(asked: WindowSize, wanted: int, state: WindowState) -> bool {
    let height = match state.expected_size {
        Some(size) => size.h as int,
        None => 0,
    };
    &&& is_bounded(asked.w as int, wanted, state.min_size.w as int, state.max_size.w as int)
    &&& is_bounded(asked.h as int, height, state.min_size.h as int, state.max_size.h as int)
}

/// Whether `asked` is a request for a height of `wanted` pixels: it is held within the bounds of
/// the window, and so is the width that it is expected to have, or none.
pub open spec fn asks_for_height(asked: WindowSize, wanted: int, state: WindowState) -> bool {
    let width = match state.expected_size {
        Some(size) => size.w as int,
        None => 0,
    };
    &&& is_bounded(asked.h as int, wanted, state.min_size.h as int, state.max_size.h as int)
    &&& is_bounded(asked.w as int, width, state.min_size.w as int, state.max_size.w as int)
}

/// Whether `i` is the first tile with the window `id`.
pub open spec fn is_at<W: LayoutElement>(v: CanvasView<W>, id: u64, i: int) -> bool {
    &&& 0 <= i < v.tiles.len()
    &&& v.tiles[i].window.state().id == id
    &&& forall|k: int| 0 <= k < i ==> (#[trigger] v.tiles[k]).window.state().id != id
}

/// Whether `after` is `v` but for the window in the tile at `i`, which has kept its id.
pub open spec fn differs_in_window<W: LayoutElement>(
    v: CanvasView<W>,
    after: CanvasView<W>,
    i: int,
) -> bool {
    &&& after == (CanvasView { tiles: after.tiles, ..v })
    &&& after.tiles.len() == v.tiles.len()
    &&& after.tiles[i] == (Tile { window: after.tiles[i].window, ..v.tiles[i] })
    &&& after.tiles[i].window.state().id == v.tiles[i].window.state().id
    &&& forall|k: int| 0 <= k < v.tiles.len() && k != i ==> #[trigger] after.tiles[k] == v.tiles[k]
}

/// A tile is where `is_at` says.
proof fn lemma_is_at<W: LayoutElement>(v: CanvasView<W>, id: u64, i: int)
    requires
        is_at(v, id, i),
    ensures
        v.holds(id),
        first(v.tiles, id) == i,
{
    assert(v.tiles[i].id() == id);
    lemma_first(v.tiles, id);
    let k = first(v.tiles, id);
    assert(v.tiles[k].id() == id);
}

/// A change of width is made to the width: of the size that the window is expected to have, else of
/// the one that it has; of the tile's expected width, its frame and the width of the working area.
/// The named window is asked for the nearest whole pixels, and it alone; without a name, the active
/// one.
pub proof fn law_width_reaches_the_window<W: LayoutElement>(
    v: CanvasView<W>,
    id: Option<u64>,
    change: SizeChange,
    animate: bool,
    after: CanvasView<W>,
    named: u64,
    i: int,
)
    requires
        v.width_set(id, change, animate, after),
        Some(named) == if id is Some {
            id
        } else {
            v.active_id
        },
        is_at(v, named, i),
    ensures
        ({
            let tile = v.tiles[i];
            let state = tile.window.state();
            let current = match state.expected_size {
                Some(size) => size.w,
                None => state.size.w,
            };
            let side = changed_side(
                change,
                current,
                tile.expected_or_current_size.w,
                tile.frame.w,
                v.working_area.size.w,
            );
            &&& differs_in_window(v, after, i)
            &&& exists|asked: WindowSize|
                asks_for_width(asked, whole_pixels(side), state) && #[trigger] W::size_requested(
                    tile.window,
                    asked,
                    animate,
                    after.tiles[i].window,
                )
        }),
{
    lemma_is_at(v, named, i);
    let asked = v.width_request(i, change);
    let state = v.tiles[i].window.state();
    law_whole_pixels_are_bounded(v.changed_width(i, change));
    assert(W::size_requested(v.tiles[i].window, asked, animate, after.tiles[i].window));
    assert(asks_for_width(asked, whole_pixels(v.changed_width(i, change)), state));
}

/// A change of height is made to the height, as one of width is to the width.
pub proof fn law_height_reaches_the_window<W: LayoutElement>(
    v: CanvasView<W>,
    id: Option<u64>,
    change: SizeChange,
    animate: bool,
    after: CanvasView<W>,
    named: u64,
    i: int,
)
    requires
        v.height_set(id, change, animate, after),
        Some(named) == if id is Some {
            id
        } else {
            v.active_id
        },
        is_at(v, named, i),
    ensures
        ({
            let tile = v.tiles[i];
            let state = tile.window.state();
            let current = match state.expected_size {
                Some(size) => size.h,
                None => state.size.h,
            };
            let side = changed_side(
                change,
                current,
                tile.expected_or_current_size.h,
                tile.frame.h,
                v.working_area.size.h,
            );
            &&& differs_in_window(v, after, i)
            &&& exists|asked: WindowSize|
                asks_for_height(asked, whole_pixels(side), state) && #[trigger] W::size_requested(
                    tile.window,
                    asked,
                    animate,
                    after.tiles[i].window,
                )
        }),
{
    lemma_is_at(v, named, i);
    let asked = v.height_request(i, change);
    let state = v.tiles[i].window.state();
    law_whole_pixels_are_bounded(v.changed_height(i, change));
    assert(W::size_requested(v.tiles[i].window, asked, animate, after.tiles[i].window));
    assert(asks_for_height(asked, whole_pixels(v.changed_height(i, change)), state));
}

/// A change of size that is about no window on the canvas changes nothing.
pub proof fn law_requests_need_a_window<W: LayoutElement>(
    v: CanvasView<W>,
    id: Option<u64>,
    change: SizeChange,
    animate: bool,
    after: CanvasView<W>,
)
    requires
        v.width_set(id, change, animate, after) || v.height_set(id, change, animate, after),
        forall|k: int|
            0 <= k < v.tiles.len() ==> Some((#[trigger] v.tiles[k]).window.state().id) != if id
                is Some {
                id
            } else {
                v.active_id
            },
    ensures
        after == v,
{
    let named = if id is Some {
        id
    } else {
        v.active_id
    };
    if named is Some && v.holds(named->0) {
        let k = choose|k: int| 0 <= k < v.tiles.len() && (#[trigger] v.tiles[k]).id() == named->0;
        assert(v.tiles[k].window.state().id == named->0);
    }
}

// --- gestures ---

/// `px`, from one pixel to a hundred thousand.
pub open spec fn held(px: int) -> int {
    if px < 1 {
        1
    } else if px > 100_000 {
        100_000
    } else {
        px
    }
}

/// The width that a gesture wants: dragging the left edge by `dx` takes it from the width that the
/// gesture began with, dragging the right edge adds it. The other edges do not matter.
pub open spec fn wanted_width(resize: InteractiveResize, dx: Float) -> int {
    let began = resize.original_window_size.w;
    held(
        if resize.edges.left {
            began.spec_sub(dx).spec_round().spec_to_i32()
        } else {
            began.spec_add(dx).spec_round().spec_to_i32()
        },
    )
}

/// The height that a gesture wants: dragging the top edge by `dy` takes it from the height that the
/// gesture began with, dragging the bottom edge adds it. The other edges do not matter.
pub open spec fn wanted_height(resize: InteractiveResize, dy: Float) -> int {
    let began = resize.original_window_size.h;
    held(
        if resize.edges.top {
            began.spec_sub(dy).spec_round().spec_to_i32()
        } else {
            began.spec_add(dy).spec_round().spec_to_i32()
        },
    )
}

/// A gesture asks its window, and it alone, for what its edges say: one on the left or right edge
/// for a width, one on the top or bottom edge for a height, one on a corner for the width and then
/// for the height, and one without edges for nothing. A request is not animated.
pub proof fn law_gesture_reaches_the_window<W: LayoutElement>(
    v: CanvasView<W>,
    resize: InteractiveResize,
    delta: Point,
    after: CanvasView<W>,
    i: int,
)
    requires
        v.interactive_resize == Some(resize),
        v.resize_followed(resize.window, delta, after),
        is_at(v, resize.window, i),
    ensures
        ({
            let across = resize.edges.left || resize.edges.right;
            let down = resize.edges.top || resize.edges.bottom;
            let before = v.tiles[i].window;
            let now = after.tiles[i].window;
            &&& !across && !down ==> after == v
            &&& across || down ==> differs_in_window(v, after, i)
            &&& across && !down ==> exists|asked: WindowSize|
                asks_for_width(asked, wanted_width(resize, delta.x), before.state())
                    && #[trigger] W::size_requested(before, asked, false, now)
            &&& !across && down ==> exists|asked: WindowSize|
                asks_for_height(asked, wanted_height(resize, delta.y), before.state())
                    && #[trigger] W::size_requested(before, asked, false, now)
            &&& across && down ==> exists|wide: WindowSize, between: W, high: WindowSize|
                {
                    &&& asks_for_width(wide, wanted_width(resize, delta.x), before.state())
                    &&& #[trigger] W::size_requested(before, wide, false, between)
                    &&& between.state().id == before.state().id
                    &&& asks_for_height(high, wanted_height(resize, delta.y), between.state())
                    &&& #[trigger] W::size_requested(between, high, false, now)
                }
        }),
{
    let across = resize.edges.left || resize.edges.right;
    let down = resize.edges.top || resize.edges.bottom;
    let window = resize.window;
    let began = resize.original_window_size;
    let mid = choose|mid: CanvasView<W>|
        #![trigger v.width_followed(resize, delta.x, mid)]
        v.width_followed(resize, delta.x, mid) && mid.height_followed(resize, delta.y, after);
    if across {
        let px = dragged_side(began.w, delta.x, resize.edges.left);
        let change = SizeChange::SetFixed(px);
        law_width_reaches_the_window(v, Some(window), change, false, mid, window, i);
        lemma_dragged(began.w, delta.x, resize.edges.left);
        lemma_fixed(px);
        lemma_still_at(v, mid, window, i);
    }
    if down {
        let px = dragged_side(began.h, delta.y, resize.edges.top);
        let change = SizeChange::SetFixed(px);
        law_height_reaches_the_window(mid, Some(window), change, false, after, window, i);
        lemma_dragged(began.h, delta.y, resize.edges.top);
        lemma_fixed(px);
    }
    if across && down {
        let before = v.tiles[i].window;
        let between = mid.tiles[i].window;
        let now = after.tiles[i].window;
        let wide = choose|asked: WindowSize|
            asks_for_width(asked, wanted_width(resize, delta.x), before.state())
                && #[trigger] W::size_requested(before, asked, false, between);
        let high = choose|asked: WindowSize|
            asks_for_height(asked, wanted_height(resize, delta.y), between.state())
                && #[trigger] W::size_requested(between, asked, false, now);
        assert(W::size_requested(before, wide, false, between));
        assert(W::size_requested(between, high, false, now));
        assert(differs_in_window(v, after, i)) by {
            assert forall|k: int| 0 <= k < v.tiles.len() && k != i implies #[trigger] after.tiles[k]
                == v.tiles[k] by {
                assert(mid.tiles[k] == v.tiles[k]);
            }
        }
    }
}

/// A window that keeps its id stays where it is.
proof fn lemma_still_at<W: LayoutElement>(
    v: CanvasView<W>,
    after: CanvasView<W>,
    id: u64,
    i: int,
)
    requires
        is_at(v, id, i),
        differs_in_window(v, after, i),
    ensures
        is_at(after, id, i),
{
    assert forall|k: int| 0 <= k < i implies (#[trigger] after.tiles[k]).window.state().id
        != id by {
        assert(v.tiles[k].window.state().id != id);
    }
}

/// What a dragged side is, is a number of pixels.
proof fn lemma_dragged(began: Float, d: Float, near: bool)
    ensures
        dragged_side(began, d, near) == if near {
            began.spec_sub(d).spec_round().spec_to_i32()
        } else {
            began.spec_add(d).spec_round().spec_to_i32()
        },
{
    let sum = if near {
        began.spec_sub(d)
    } else {
        began.spec_add(d)
    };
    lemma_pow2_pos(UNIT_EXPONENT as nat);
    vstd::arithmetic::div_mod::lemma_div_pos_is_pos(
        magnitude(sum.spec_round().pattern()) as int,
        pow2(UNIT_EXPONENT as nat) as int,
    );
}

/// A fixed size is asked for in whole pixels.
proof fn lemma_fixed(px: i32)
    ensures
        forall|window: i32, tile: Float, frame: Float, available: Float|
            whole_pixels(
                #[trigger] changed_side(
                    SizeChange::SetFixed(px),
                    window,
                    tile,
                    frame,
                    available,
                ),
            ) == held(px as int),
{
    assert forall|window: i32, tile: Float, frame: Float, available: Float|
        whole_pixels(
            #[trigger] changed_side(SizeChange::SetFixed(px), window, tile, frame, available),
        ) == held(px as int) by {
        law_fixed_size_is_exact(px, window, tile, frame, available);
    }
}

/// Where the size that a gesture began with and the delta have an exact sum, the side that it drags
/// to is the nearest whole number of pixels.
pub proof fn law_dragging_is_to_the_nearest_pixel(began: Float, d: Float, near: bool)
    requires
        if near {
            began.subtracts_exactly(d)
        } else {
            began.adds_exactly(d)
        },
        ({
            let sum = if near {
                began.units() - d.units()
            } else {
                began.units() + d.units()
            };
            distance(sum) <= 1_000_000_000 * pow2(UNIT_EXPONENT as nat)
        }),
    ensures
        ({
            let one = pow2(UNIT_EXPONENT as nat);
            let sum = if near {
                began.units() - d.units()
            } else {
                began.units() + d.units()
            };
            distance(2 * (dragged_side(began, d, near) * one - sum)) <= one
        }),
{
    let one = pow2(UNIT_EXPONENT as nat);
    lemma_pow2_pos(UNIT_EXPONENT as nat);
    lemma_neg(d);
    let sum = if near {
        began.spec_sub(d)
    } else {
        began.spec_add(d)
    };
    assert(1_000_000_000 * one <= IMPLICIT * one) by (nonlinear_arith)
        requires
            one > 0,
    ;
    let k = lemma_round_near(sum);
    assert(-0x7fff_ffff <= k <= 0x7fff_ffff) by (nonlinear_arith)
        requires
            2 * (k * one) - one <= 2_000_000_000 * one,
            2 * (k * one) + one >= -2_000_000_000 * one,
            one > 0,
    ;
    lemma_dragged(began, d, near);
}

/// The requests that a gesture leaves with a window kept as a record.
pub proof fn law_gesture_is_noted(
    v: CanvasView<WindowRecord>,
    resize: InteractiveResize,
    delta: Point,
    after: CanvasView<WindowRecord>,
    i: int,
)
    requires
        v.interactive_resize == Some(resize),
        v.resize_followed(resize.window, delta, after),
        is_at(v, resize.window, i),
        v.tiles[i].window.min_size == (WindowSize { w: 0, h: 0 }),
        v.tiles[i].window.max_size == (WindowSize { w: 0, h: 0 }),
        v.tiles[i].window.expected_size is None,
    ensures
        ({
            let across = resize.edges.left || resize.edges.right;
            let down = resize.edges.top || resize.edges.bottom;
            let noted = v.tiles[i].window.requests@;
            let now = after.tiles[i].window.requests@;
            &&& !across && !down ==> now == noted
            &&& across && !down ==> now.len() == noted.len() + 1 && now.last().size.w
                == wanted_width(resize, delta.x)
            &&& !across && down ==> now.len() == noted.len() + 1 && now.last().size.h
                == wanted_height(resize, delta.y)
            &&& across && down ==> now.len() == noted.len() + 2 && now.last().size.w
                == wanted_width(resize, delta.x) && now.last().size.h == wanted_height(
                resize,
                delta.y,
            )
        }),
{
    law_gesture_reaches_the_window(v, resize, delta, after, i);
}

} // verus!
