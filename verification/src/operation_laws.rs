//! What a caller can rely on of each operation of a canvas, stated of what goes into a call and
//! what comes out of it.

use crate::camera::{Animation, AnimationSample, AxisCamera};
use crate::canvas_laws::{
    comes_into_view, differs_in_position, goes_to, heads_for, is_absent, is_measured,
    law_active_tile_comes_into_view, law_added_tiles_come_last, law_configuration_is_taken_over,
    law_focus_moves_beyond, law_focus_starts_from_the_active_window, law_gestures_begin,
    law_gestures_end, law_heading_is_per_axis, law_invariants_say, law_moved_tiles_arrive,
    law_moves_take_the_active_tile, law_nothing_active_nothing_moves, law_ongoing_says,
    law_pans_and_jumps_move_the_camera, law_removed_tiles_leave_the_others,
    law_the_clock_moves_everything_on, law_windows_are_found, lemma_found, moves_on, sets_out,
};
use crate::canvas_space::CanvasSpace;
use crate::drawing_laws::{
    law_only_windows_on_the_canvas_close, law_windows_close_where_they_are, stands_at,
};
use crate::float::{lemma_neg, lemma_whole, Float, UNIT_EXPONENT};
use crate::focus::{
    is_focus_target, is_last, is_nearest_beyond, law_focus_goes_beyond, lies_beyond, middle,
    SpatialDirection,
};
use crate::geometry::{Point, Rectangle, Size, WindowSize};
use crate::overview::{bounds, fit, lemma_thousandth};
use crate::overview_laws::{
    law_bounds_reach_the_outermost_edges, law_overview_is_as_large_as_fits,
    law_overview_is_for_what_does_not_fit, law_overview_looks_at_the_middle,
    law_padding_adds_a_margin, reaches_outermost,
};
use crate::resize_laws::{
    asks_for_height, asks_for_width, differs_in_window, is_at, law_gesture_reaches_the_window,
    law_height_reaches_the_window, law_requests_need_a_window, law_width_reaches_the_window,
    wanted_height, wanted_width,
};
use crate::sizing::{changed_side, whole_pixels, SizeChange};
use crate::state::{
    still_running, CanvasView, ClosingWindow, CloseAnimation, InteractiveResize, OverviewFit,
    RenderCommand, ResizeEdge, TileUpdate, TransactionBlocker,
};
use crate::tile::{LayoutElement, Options, Tile, TileMeasures, TileRenderSnapshot};
use vstd::arithmetic::power2::pow2;
use vstd::prelude::*;

verus! {

// --- questions ---

/// A new canvas has nothing on it and its camera at rest at the origin, and is configured as told.
pub proof fn law_new<W: LayoutElement>(
    view_size: Size,
    working_area: Rectangle,
    scale: Float,
    options: Options,
    r: CanvasSpace<W>,
)
    requires
        call_ensures(CanvasSpace::<W>::new, (view_size, working_area, scale, options), r),
    ensures
        r@.tiles.len() == 0,
        r@.active_id is None,
        r@.view_offset_x == AxisCamera::Static(Float::whole(0)),
        r@.view_offset_y == AxisCamera::Static(Float::whole(0)),
        r@.view_size == view_size,
        r@.working_area == working_area,
        r@.scale == scale,
        r@.options == options,
        r@.closing_windows.len() == 0,
        r@.interactive_resize is None,
{
}

/// A canvas hands out what it holds.
pub proof fn law_contents_are_handed_out<W: LayoutElement>(space: &CanvasSpace<W>)
    ensures
        forall|r: bool| #[trigger]
            call_ensures(CanvasSpace::<W>::is_empty, (space,), r) ==> (r <==> space@.tiles.len()
                == 0),
        forall|r: usize| #[trigger]
            call_ensures(CanvasSpace::<W>::len, (space,), r) ==> r == space@.tiles.len(),
        forall|r: &[Tile<W>]| #[trigger]
            call_ensures(CanvasSpace::<W>::tiles, (space,), r) ==> r@ == space@.tiles,
        forall|r: Option<u64>| #[trigger]
            call_ensures(CanvasSpace::<W>::active_window_id, (space,), r) ==> r
                == space@.active_id,
        forall|r: &[ClosingWindow]| #[trigger]
            call_ensures(CanvasSpace::<W>::closing_windows, (space,), r) ==> r@
                == space@.closing_windows,
{
}

/// A canvas hands out its configuration.
pub proof fn law_configuration_is_handed_out<W: LayoutElement>(space: &CanvasSpace<W>)
    ensures
        forall|r: Size| #[trigger]
            call_ensures(CanvasSpace::<W>::view_size, (space,), r) ==> r == space@.view_size,
        forall|r: Rectangle| #[trigger]
            call_ensures(CanvasSpace::<W>::working_area, (space,), r) ==> r
                == space@.working_area,
        forall|r: Float| #[trigger]
            call_ensures(CanvasSpace::<W>::scale, (space,), r) ==> r == space@.scale,
        forall|r: &Options| #[trigger]
            call_ensures(CanvasSpace::<W>::options, (space,), r) ==> *r == space@.options,
{
}

/// The view is where the camera stands and the target view where it heads, on each axis by itself.
pub proof fn law_camera_is_handed_out<W: LayoutElement>(space: &CanvasSpace<W>)
    ensures
        forall|r: AxisCamera| #[trigger]
            call_ensures(CanvasSpace::<W>::camera_x, (space,), r) ==> r == space@.view_offset_x,
        forall|r: AxisCamera| #[trigger]
            call_ensures(CanvasSpace::<W>::camera_y, (space,), r) ==> r == space@.view_offset_y,
        forall|r: Point| #[trigger]
            call_ensures(CanvasSpace::<W>::view_pos, (space,), r) ==> r.x == stands_at(
                space@.view_offset_x,
            ) && r.y == stands_at(space@.view_offset_y),
        forall|r: Float| #[trigger]
            call_ensures(CanvasSpace::<W>::view_pos_x, (space,), r) ==> r == stands_at(
                space@.view_offset_x,
            ),
        forall|r: Float| #[trigger]
            call_ensures(CanvasSpace::<W>::view_pos_y, (space,), r) ==> r == stands_at(
                space@.view_offset_y,
            ),
        forall|r: Point| #[trigger]
            call_ensures(CanvasSpace::<W>::target_view_pos, (space,), r) ==> r.x == heads_for(
                space@.view_offset_x,
            ) && r.y == heads_for(space@.view_offset_y),
        forall|r: Float| #[trigger]
            call_ensures(CanvasSpace::<W>::target_view_pos_x, (space,), r) ==> r == heads_for(
                space@.view_offset_x,
            ),
        forall|r: Float| #[trigger]
            call_ensures(CanvasSpace::<W>::target_view_pos_y, (space,), r) ==> r == heads_for(
                space@.view_offset_y,
            ),
{
}

/// A window is on the canvas if some tile holds it.
pub proof fn law_has_window<W: LayoutElement>(space: &CanvasSpace<W>, id: u64, r: bool)
    requires
        call_ensures(CanvasSpace::<W>::has_window, (space, id), r) || call_ensures(
            CanvasSpace::<W>::contains,
            (space, id),
            r,
        ),
    ensures
        r <==> !is_absent(space@, id),
{
    law_windows_are_found(space@, id);
}

/// The active window is that of the first tile with the active id, if there is one.
pub proof fn law_active_window<W: LayoutElement>(space: &CanvasSpace<W>, r: Option<&W>, id: u64)
    requires
        call_ensures(CanvasSpace::<W>::active_window, (space,), r),
    ensures
        space@.active_id is None ==> r is None,
        space@.active_id == Some(id) ==> (r is None <==> is_absent(space@, id)),
        space@.active_id == Some(id) && r is Some ==> exists|i: int| #[trigger]
            is_at(space@, id, i) && *r->0 == space@.tiles[i].window,
{
    law_windows_are_found(space@, id);
}

/// What is ongoing, and whether the invariants hold, is read off the canvas.
pub proof fn law_state_is_told<W: LayoutElement>(space: &CanvasSpace<W>)
    ensures
        ({
            let v = space@;
            let busy = !(v.view_offset_x is Static && v.view_offset_y is Static)
                || v.closing_windows.len() > 0;
            &&& forall|r: bool| #[trigger]
                call_ensures(CanvasSpace::<W>::are_animations_ongoing, (space,), r) ==> (r
                    <==> busy || exists|k: int|
                    0 <= k < v.tiles.len() && (#[trigger] v.tiles[k]).animations_ongoing)
            &&& forall|r: bool| #[trigger]
                call_ensures(CanvasSpace::<W>::are_transitions_ongoing, (space,), r) ==> (r
                    <==> busy || exists|k: int|
                    0 <= k < v.tiles.len() && (#[trigger] v.tiles[k]).transitions_ongoing)
        }),
{
    law_ongoing_says(space@);
}

/// The check passes exactly if the scale is positive and finite, every tile has the options, the
/// view size and the scale of the canvas and is valid itself, the active id is that of a tile, and
/// no id occurs twice.
pub proof fn law_verify_invariants<W: LayoutElement>(space: &CanvasSpace<W>, r: bool)
    requires
        call_ensures(CanvasSpace::<W>::verify_invariants, (space,), r),
    ensures
        ({
            let v = space@;
            r <==> {
                &&& v.scale.spec_is_finite() && v.scale.units() > 0
                &&& forall|k: int|
                    0 <= k < v.tiles.len() ==> {
                        let tile = #[trigger] v.tiles[k];
                        &&& tile.options == v.options
                        &&& tile.view_size.w.spec_same(v.view_size.w)
                        &&& tile.view_size.h.spec_same(v.view_size.h)
                        &&& tile.scale.spec_same(v.scale)
                        &&& tile.is_valid
                    }
                &&& v.active_id matches Some(id) ==> !is_absent(v, id)
                &&& forall|j: int, k: int|
                    0 <= j < v.tiles.len() && 0 <= k < v.tiles.len() && j != k ==> (
                    #[trigger] v.tiles[j]).window.state().id != (
                    #[trigger] v.tiles[k]).window.state().id
            }
        }),
{
    law_invariants_say(space@);
}

// --- tiles ---

/// A tile that is added comes last, at the position given and else as it was, and is active. The
/// others stay as they are, and so does everything else.
pub proof fn law_add_tile<W: LayoutElement>(
    space: &mut CanvasSpace<W>,
    tile: Tile<W>,
    canvas_pos: Point,
)
    requires
        call_ensures(CanvasSpace::<W>::add_tile, (space, tile, canvas_pos), ()),
    ensures
        ({
            let v = old(space)@;
            let after = final(space)@;
            let n = v.tiles.len() as int;
            &&& after == (CanvasView { tiles: after.tiles, active_id: after.active_id, ..v })
            &&& after.tiles.len() == n + 1
            &&& after.tiles[n] == (Tile { canvas_pos, ..tile })
            &&& after.active_id == Some(tile.window.state().id)
            &&& forall|k: int| 0 <= k < n ==> #[trigger] after.tiles[k] == v.tiles[k]
        }),
{
    law_added_tiles_come_last(old(space)@, tile, canvas_pos);
}

/// A tile that is removed is handed out and leaves the others in order. If it was the active one
/// the first tile left is, if any; else the active one stays. A window that is not there leaves
/// everything as it is.
pub proof fn law_remove_tile<W: LayoutElement>(
    space: &mut CanvasSpace<W>,
    id: u64,
    r: Option<Tile<W>>,
    i: int,
)
    requires
        call_ensures(CanvasSpace::<W>::remove_tile, (space, id), r),
    ensures
        is_absent(old(space)@, id) ==> r is None && final(space)@ == old(space)@,
        is_at(old(space)@, id, i) ==> {
            let v = old(space)@;
            let after = final(space)@;
            let n = v.tiles.len();
            &&& r == Some(v.tiles[i])
            &&& after == (CanvasView { tiles: after.tiles, active_id: after.active_id, ..v })
            &&& after.tiles.len() == n - 1
            &&& forall|k: int| 0 <= k < i ==> #[trigger] after.tiles[k] == v.tiles[k]
            &&& forall|k: int| i <= k < n - 1 ==> #[trigger] after.tiles[k] == v.tiles[k + 1]
            &&& v.active_id != Some(id) ==> after.active_id == v.active_id
            &&& v.active_id == Some(id) && n > 1 ==> after.active_id == Some(
                after.tiles[0].window.state().id,
            )
            &&& v.active_id == Some(id) && n == 1 ==> after.active_id is None
        },
{
    let v = old(space)@;
    law_windows_are_found(v, id);
    if is_at(v, id, i) {
        assert(v.tiles[i].window.state().id == id);
        law_removed_tiles_leave_the_others(v, id, i);
        lemma_found(v, id, i);
    }
}

/// A window that is activated, with or without raising it, is the active one if it is there.
/// Nothing else changes, and nothing at all if it is not.
pub proof fn law_activate_window<W: LayoutElement>(space: &mut CanvasSpace<W>, id: u64, r: bool)
    requires
        call_ensures(CanvasSpace::<W>::activate_window, (space, id), r) || call_ensures(
            CanvasSpace::<W>::activate_window_without_raising,
            (space, id),
            r,
        ),
    ensures
        r <==> !is_absent(old(space)@, id),
        r ==> final(space)@ == (CanvasView { active_id: Some(id), ..old(space)@ }),
        !r ==> final(space)@ == old(space)@,
{
    law_windows_are_found(old(space)@, id);
}

/// A tile that is moved is where it was sent, if it is there. Nothing else changes.
pub proof fn law_move_tile_to<W: LayoutElement>(
    space: &mut CanvasSpace<W>,
    id: u64,
    canvas_pos: Point,
    r: bool,
    i: int,
)
    requires
        call_ensures(CanvasSpace::<W>::move_tile_to, (space, id, canvas_pos), r),
    ensures
        r <==> !is_absent(old(space)@, id),
        !r ==> final(space)@ == old(space)@,
        is_at(old(space)@, id, i) ==> {
            &&& differs_in_position(old(space)@, final(space)@, i, canvas_pos)
            &&& final(space)@ == (CanvasView { tiles: final(space)@.tiles, ..old(space)@ })
        },
{
    law_windows_are_found(old(space)@, id);
    if is_at(old(space)@, id, i) {
        law_moved_tiles_arrive(old(space)@, id, canvas_pos, i);
    }
}

/// A configuration is the canvas's and, but for the working area, every tile's; it changes nothing
/// else.
pub proof fn law_update_config<W: LayoutElement>(
    space: &mut CanvasSpace<W>,
    view_size: Size,
    working_area: Rectangle,
    scale: Float,
    options: Options,
)
    requires
        call_ensures(
            CanvasSpace::<W>::update_config,
            (space, view_size, working_area, scale, options),
            (),
        ),
    ensures
        ({
            let v = old(space)@;
            let after = final(space)@;
            &&& after == (CanvasView {
                tiles: after.tiles,
                view_size,
                working_area,
                scale,
                options,
                ..v
            })
            &&& after.tiles.len() == v.tiles.len()
            &&& forall|k: int|
                0 <= k < v.tiles.len() ==> #[trigger] after.tiles[k] == (Tile {
                    view_size,
                    scale,
                    options,
                    ..v.tiles[k]
                })
        }),
{
    law_configuration_is_taken_over(old(space)@, view_size, working_area, scale, options);
}

/// A window that is updated is what its commit made of it, or as it was without one, in a tile that
/// is measured anew with it; no other tile changes, and nothing else. A window that is not there
/// changes nothing.
pub proof fn law_update_window<W: LayoutElement, F: FnOnce(&W) -> TileMeasures>(
    space: &mut CanvasSpace<W>,
    id: u64,
    serial: Option<u32>,
    measure: F,
    r: bool,
    i: int,
)
    requires
        call_ensures(CanvasSpace::<W>::update_window::<F>, (space, id, serial, measure), r),
    ensures
        r <==> !is_absent(old(space)@, id),
        !r ==> final(space)@ == old(space)@,
        is_at(old(space)@, id, i) ==> {
            let v = old(space)@;
            let after = final(space)@;
            let window = after.tiles[i].window;
            &&& after == (CanvasView { tiles: after.tiles, ..v })
            &&& after.tiles.len() == v.tiles.len()
            &&& match serial {
                Some(serial) => W::commit_noted(v.tiles[i].window, serial, window)
                    && window.state().id == id,
                None => window == v.tiles[i].window,
            }
            &&& exists|measures: TileMeasures| #[trigger]
                call_ensures(measure, (&window,), measures) && is_measured(
                    Tile { window, ..v.tiles[i] },
                    after.tiles[i],
                    measures,
                )
            &&& forall|k: int|
                0 <= k < v.tiles.len() && k != i ==> #[trigger] after.tiles[k] == v.tiles[k]
        },
{
    let v = old(space)@;
    let after = final(space)@;
    law_windows_are_found(v, id);
    if is_at(v, id, i) {
        lemma_found(v, id, i);
        assert(v.tiles[i].window.state().id == id);
        let window = after.tiles[i].window;
        let measures = choose|measures: TileMeasures|
            call_ensures(measure, (&window,), measures) && after == #[trigger] v.updated(
                i,
                window,
                measures,
            );
        assert(call_ensures(measure, (&window,), measures));
    }
}

// --- the camera ---

/// A jump puts the camera at rest where it was sent, and nothing else changes.
pub proof fn law_set_view_pos<W: LayoutElement>(space: &mut CanvasSpace<W>, pos: Point)
    requires
        call_ensures(CanvasSpace::<W>::set_view_pos, (space, pos), ()),
    ensures
        final(space)@ == (CanvasView {
            view_offset_x: AxisCamera::Static(pos.x),
            view_offset_y: AxisCamera::Static(pos.y),
            ..old(space)@
        }),
{
}

/// Heading across moves the camera across, and nothing else changes.
pub proof fn law_animate_view_pos_x<W: LayoutElement>(space: &mut CanvasSpace<W>, to: Float)
    requires
        call_ensures(CanvasSpace::<W>::animate_view_pos_x, (space, to), ()),
    ensures
        ({
            let v = old(space)@;
            let after = final(space)@;
            &&& sets_out(v.view_offset_x, after.view_offset_x, to, v.options)
            &&& after == (CanvasView { view_offset_x: after.view_offset_x, ..v })
        }),
{
    law_heading_is_per_axis(old(space)@, to);
}

/// Heading down moves the camera down, and nothing else changes.
pub proof fn law_animate_view_pos_y<W: LayoutElement>(space: &mut CanvasSpace<W>, to: Float)
    requires
        call_ensures(CanvasSpace::<W>::animate_view_pos_y, (space, to), ()),
    ensures
        ({
            let v = old(space)@;
            let after = final(space)@;
            &&& sets_out(v.view_offset_y, after.view_offset_y, to, v.options)
            &&& after == (CanvasView { view_offset_y: after.view_offset_y, ..v })
        }),
{
    law_heading_is_per_axis(old(space)@, to);
}

/// A pan heads each axis for where it heads plus its delta, where there is one, and nothing else
/// changes.
pub proof fn law_pan_camera<W: LayoutElement>(space: &mut CanvasSpace<W>, dx: Float, dy: Float)
    requires
        call_ensures(CanvasSpace::<W>::pan_camera, (space, dx, dy), ()),
    ensures
        ({
            let v = old(space)@;
            let after = final(space)@;
            let x = v.view_offset_x;
            let y = v.view_offset_y;
            let zero = Float::whole(0);
            &&& after == (CanvasView {
                view_offset_x: after.view_offset_x,
                view_offset_y: after.view_offset_y,
                ..v
            })
            &&& dx.spec_same(zero) ==> after.view_offset_x == x
            &&& dy.spec_same(zero) ==> after.view_offset_y == y
            &&& !dx.spec_same(zero) ==> sets_out(
                x,
                after.view_offset_x,
                heads_for(x).spec_add(dx),
                v.options,
            )
            &&& !dy.spec_same(zero) ==> sets_out(
                y,
                after.view_offset_y,
                heads_for(y).spec_add(dy),
                v.options,
            )
        }),
{
    law_pans_and_jumps_move_the_camera(old(space)@, dx, dy, Point { x: dx, y: dy });
}

/// The active tile is brought into view by its edges, and nothing else changes.
pub proof fn law_bring_active_tile_into_view<W: LayoutElement>(
    space: &mut CanvasSpace<W>,
    id: u64,
    i: int,
)
    requires
        call_ensures(CanvasSpace::<W>::bring_active_tile_into_view, (space,), ()),
    ensures
        old(space)@.active_id is None ==> final(space)@ == old(space)@,
        old(space)@.active_id == Some(id) && is_absent(old(space)@, id) ==> final(space)@ == old(
            space,
        )@,
        old(space)@.active_id == Some(id) && is_at(old(space)@, id, i) ==> goes_to(
            old(space)@,
            final(space)@,
            i,
        ),
{
    let v = old(space)@;
    if v.active_id == Some(id) && is_at(v, id, i) {
        law_active_tile_comes_into_view(v, id, i);
        assert(v.active_id == Some(v.tiles[i].window.state().id));
    } else if v.active_id is None || v.active_id == Some(id) && is_absent(v, id) {
        law_nothing_active_nothing_moves(v, Point { x: Float::whole(0), y: Float::whole(0) });
    }
}

/// Sampling the camera moves its springs to where they stand and leaves all else, their ends too.
pub proof fn law_sample_camera<W: LayoutElement>(space: &mut CanvasSpace<W>, x: Float, y: Float)
    requires
        call_ensures(CanvasSpace::<W>::sample_camera, (space, x, y), ()),
    ensures
        ({
            let v = old(space)@;
            let after = final(space)@;
            &&& after == (CanvasView {
                view_offset_x: after.view_offset_x,
                view_offset_y: after.view_offset_y,
                ..v
            })
            &&& moves_on(
                v.view_offset_x,
                after.view_offset_x,
                AnimationSample { value: x, is_done: false },
            )
            &&& moves_on(
                v.view_offset_y,
                after.view_offset_y,
                AnimationSample { value: y, is_done: false },
            )
        }),
{
}

/// The clock moves each axis of the camera on by its own sample, every tile by its own measures,
/// and keeps the closing windows that still run. Nothing else changes.
pub proof fn law_advance_animations<W: LayoutElement>(
    space: &mut CanvasSpace<W>,
    x: AnimationSample,
    y: AnimationSample,
    tiles: &[TileMeasures],
    ongoing: &[bool],
)
    requires
        call_ensures(CanvasSpace::<W>::advance_animations, (space, x, y, tiles, ongoing), ()),
        tiles@.len() == old(space)@.tiles.len(),
    ensures
        ({
            let v = old(space)@;
            let after = final(space)@;
            &&& after == (CanvasView {
                tiles: after.tiles,
                view_offset_x: after.view_offset_x,
                view_offset_y: after.view_offset_y,
                closing_windows: after.closing_windows,
                ..v
            })
            &&& moves_on(v.view_offset_x, after.view_offset_x, x)
            &&& moves_on(v.view_offset_y, after.view_offset_y, y)
            &&& after.tiles.len() == v.tiles.len()
            &&& forall|k: int|
                0 <= k < v.tiles.len() ==> is_measured(
                    v.tiles[k],
                    #[trigger] after.tiles[k],
                    tiles@[k],
                )
            &&& after.closing_windows == still_running(v.closing_windows, ongoing@)
        }),
{
    law_the_clock_moves_everything_on(old(space)@, x, y, tiles@, ongoing@);
}

// --- moves and focus ---

/// Whether `after` is `v` with the tile at `i` at `to` and brought into view, and no gesture left.
pub open spec fn takes_to<W: LayoutElement>(
    v: CanvasView<W>,
    after: CanvasView<W>,
    i: int,
    to: Point,
) -> bool {
    let tile = v.tiles[i];
    &&& differs_in_position(v, after, i, to)
    &&& after == (CanvasView {
        tiles: after.tiles,
        interactive_resize: None::<InteractiveResize>,
        view_offset_x: after.view_offset_x,
        view_offset_y: after.view_offset_y,
        ..v
    })
    &&& comes_into_view(
        v.view_offset_x,
        after.view_offset_x,
        to.x,
        tile.tile_size.w,
        v.view_size.w,
        v.options,
    )
    &&& comes_into_view(
        v.view_offset_y,
        after.view_offset_y,
        to.y,
        tile.tile_size.h,
        v.view_size.h,
        v.options,
    )
}

/// A move takes the active tile by the amount. Without an active tile it does nothing, and says so.
pub proof fn law_move_active_by<W: LayoutElement>(
    space: &mut CanvasSpace<W>,
    amount: Point,
    r: bool,
    id: u64,
    i: int,
)
    requires
        call_ensures(CanvasSpace::<W>::move_active_by, (space, amount), r),
    ensures
        r <==> exists|id: u64| old(space)@.active_id == Some(id) && !#[trigger] is_absent(
            old(space)@,
            id,
        ),
        !r ==> final(space)@ == old(space)@,
        old(space)@.active_id == Some(id) && is_at(old(space)@, id, i) ==> {
            let at = old(space)@.tiles[i].canvas_pos;
            takes_to(
                old(space)@,
                final(space)@,
                i,
                Point { x: at.x.spec_add(amount.x), y: at.y.spec_add(amount.y) },
            )
        },
{
    lemma_active(old(space)@);
    if old(space)@.active_id == Some(id) && is_at(old(space)@, id, i) {
        law_moves_take_the_active_tile(old(space)@, amount, id, i);
    }
}

/// There is an active tile if some tile holds the active window.
proof fn lemma_active<W: LayoutElement>(v: CanvasView<W>)
    ensures
        v.active() is Some <==> exists|id: u64| v.active_id == Some(id) && !#[trigger] is_absent(
            v,
            id,
        ),
{
    if v.active_id is Some {
        let id = v.active_id->0;
        law_windows_are_found(v, id);
        assert(is_absent(v, id) || !is_absent(v, id));
    }
}

/// The amount that a move in a direction takes a tile by: fifty pixels along it, none across it.
pub open spec fn is_step(direction: SpatialDirection, amount: Point) -> bool {
    let step: int = 50 * pow2(UNIT_EXPONENT as nat) as int;
    &&& amount.x.spec_is_finite() && amount.y.spec_is_finite()
    &&& amount.x.units() == match direction {
        SpatialDirection::Left => -step,
        SpatialDirection::Right => step,
        _ => 0,
    }
    &&& amount.y.units() == match direction {
        SpatialDirection::Up => -step,
        SpatialDirection::Down => step,
        _ => 0,
    }
}

/// Whether the call that moves the active tile in the direction can turn out so.
pub open spec fn moves_active<W: LayoutElement>(
    direction: SpatialDirection,
    space: &mut CanvasSpace<W>,
    r: bool,
) -> bool {
    match direction {
        SpatialDirection::Left => call_ensures(CanvasSpace::<W>::move_active_left, (space,), r),
        SpatialDirection::Right => call_ensures(CanvasSpace::<W>::move_active_right, (space,), r),
        SpatialDirection::Up => call_ensures(CanvasSpace::<W>::move_active_up, (space,), r),
        SpatialDirection::Down => call_ensures(CanvasSpace::<W>::move_active_down, (space,), r),
    }
}

/// A move in a direction takes the active tile fifty pixels along it and none across it. Without an
/// active tile it does nothing, and says so.
pub proof fn law_move_active<W: LayoutElement>(
    direction: SpatialDirection,
    space: &mut CanvasSpace<W>,
    r: bool,
    id: u64,
    i: int,
)
    requires
        moves_active(direction, space, r),
    ensures
        r <==> exists|id: u64| old(space)@.active_id == Some(id) && !#[trigger] is_absent(
            old(space)@,
            id,
        ),
        !r ==> final(space)@ == old(space)@,
        old(space)@.active_id == Some(id) && is_at(old(space)@, id, i) ==> exists|amount: Point|
            {
                let at = old(space)@.tiles[i].canvas_pos;
                &&& #[trigger] is_step(direction, amount)
                &&& takes_to(
                    old(space)@,
                    final(space)@,
                    i,
                    Point { x: at.x.spec_add(amount.x), y: at.y.spec_add(amount.y) },
                )
            },
{
    lemma_active(old(space)@);
    if old(space)@.active_id == Some(id) && is_at(old(space)@, id, i) {
        let fifty = Float::whole(50);
        let zero = Float::whole(0);
        let amount = match direction {
            SpatialDirection::Left => Point { x: fifty.spec_neg(), y: zero },
            SpatialDirection::Right => Point { x: fifty, y: zero },
            SpatialDirection::Up => Point { x: zero, y: fifty.spec_neg() },
            SpatialDirection::Down => Point { x: zero, y: fifty },
        };
        lemma_whole(0);
        lemma_whole(50);
        lemma_neg(fifty);
        assert(0 * pow2(UNIT_EXPONENT as nat) == 0) by (nonlinear_arith);
        assert(is_step(direction, amount));
        law_moves_take_the_active_tile(old(space)@, amount, id, i);
    }
}

/// The focus goes to a nearest window whose middle lies strictly beyond that of the active one,
/// exactly if there is one, and brings it into view; else nothing changes.
pub proof fn law_focus_spatial<W: LayoutElement>(
    space: &mut CanvasSpace<W>,
    direction: SpatialDirection,
    r: bool,
    id: u64,
    a: int,
)
    requires
        call_ensures(CanvasSpace::<W>::focus_spatial, (space, direction), r),
        old(space)@.active_id == Some(id),
        0 <= a < old(space)@.tiles.len(),
        old(space)@.tiles[a].window.state().id == id,
        forall|j: int, k: int|
            0 <= j < old(space)@.tiles.len() && 0 <= k < old(space)@.tiles.len() && j != k ==> (
            #[trigger] old(space)@.tiles[j]).window.state().id != (
            #[trigger] old(space)@.tiles[k]).window.state().id,
        forall|k: int|
            0 <= k < old(space)@.tiles.len() ==> middle(
                #[trigger] old(space)@.tiles[k],
            ).x.spec_is_finite() && middle(old(space)@.tiles[k]).y.spec_is_finite(),
    ensures
        ({
            let v = old(space)@;
            &&& r <==> exists|j: int|
                0 <= j < v.tiles.len() && lies_beyond(
                    direction,
                    middle(v.tiles[a]),
                    middle(#[trigger] v.tiles[j]),
                )
            &&& !r ==> final(space)@ == v
            &&& r ==> exists|i: int| #[trigger]
                is_nearest_beyond(v.tiles, direction, a, i) && goes_to(v, final(space)@, i)
        }),
{
    let v = old(space)@;
    law_focus_moves_beyond(v, direction, final(space)@, id, a);
    assert forall|k: int| 0 <= k < v.tiles.len() && k != a implies (
    #[trigger] v.tiles[k]).window.state().id != id by {
        assert(v.tiles[a].window.state().id != v.tiles[k].window.state().id);
    }
    let found = exists|i: int| #[trigger] is_focus_target(v.tiles, id, direction, i);
    let some = exists|j: int|
        0 <= j < v.tiles.len() && lies_beyond(
            direction,
            middle(v.tiles[a]),
            middle(#[trigger] v.tiles[j]),
        );
    assert(found == some) by {
        law_focus_goes_beyond(v.tiles, id, direction, a);
    }
}

// --- sizes ---

/// A gesture begins for a window that is there, while none is in flight: with the size that the
/// window is drawn at and the edges given. It stops the camera where it stands. Nothing else
/// changes.
pub proof fn law_interactive_resize_begin<W: LayoutElement>(
    space: &mut CanvasSpace<W>,
    window: u64,
    edges: ResizeEdge,
    r: bool,
    i: int,
)
    requires
        call_ensures(CanvasSpace::<W>::interactive_resize_begin, (space, window, edges), r),
    ensures
        r <==> old(space)@.interactive_resize is None && !is_absent(old(space)@, window),
        !r ==> final(space)@ == old(space)@,
        r && is_at(old(space)@, window, i) ==> final(space)@ == (CanvasView {
            interactive_resize: Some(
                InteractiveResize {
                    window,
                    original_window_size: old(space)@.tiles[i].window_size,
                    edges,
                },
            ),
            view_offset_x: AxisCamera::Static(stands_at(old(space)@.view_offset_x)),
            view_offset_y: AxisCamera::Static(stands_at(old(space)@.view_offset_y)),
            ..old(space)@
        }),
{
    law_windows_are_found(old(space)@, window);
    if is_at(old(space)@, window, i) {
        law_gestures_begin(old(space)@, window, edges, i);
    }
}

/// A gesture is followed by its own window, and by it alone: one on the left or right edge asks for
/// a width, one on the top or bottom edge for a height, one on a corner for the width and then for
/// the height, and one without edges for nothing. A request is not animated.
pub proof fn law_interactive_resize_update<W: LayoutElement>(
    space: &mut CanvasSpace<W>,
    window: u64,
    delta: Point,
    r: bool,
    resize: InteractiveResize,
    i: int,
)
    requires
        call_ensures(CanvasSpace::<W>::interactive_resize_update, (space, window, delta), r),
    ensures
        old(space)@.interactive_resize is None ==> !r,
        old(space)@.interactive_resize == Some(resize) ==> (r <==> resize.window == window),
        !r ==> final(space)@ == old(space)@,
        r && old(space)@.interactive_resize == Some(resize) && is_at(old(space)@, window, i) ==> {
            let across = resize.edges.left || resize.edges.right;
            let down = resize.edges.top || resize.edges.bottom;
            let before = old(space)@.tiles[i].window;
            let now = final(space)@.tiles[i].window;
            &&& !across && !down ==> final(space)@ == old(space)@
            &&& across || down ==> differs_in_window(old(space)@, final(space)@, i)
            &&& across && !down ==> exists|asked: WindowSize|
                asks_for_width(asked, wanted_width(resize, delta.x), before.state())
                    && #[trigger] W::size_requested(before, asked, false, now)
            &&& !across && down ==> exists|asked: WindowSize|
                asks_for_height(asked, wanted_height(resize, delta.y), before.state())
                    && #[trigger] W::size_requested(before, asked, false, now)
            &&& across && down ==> exists|wide: WindowSize, between: W, high: WindowSize|
                {
                    &&& asks_for_width(wide, wanted_width(resize, delta.x), before.state())
                    &&& #[trigger] W::size_requested(before, wide, false, between)
                    &&& between.state().id == before.state().id
                    &&& asks_for_height(high, wanted_height(resize, delta.y), between.state())
                    &&& #[trigger] W::size_requested(between, high, false, now)
                }
        },
{
    law_gestures_end(old(space)@, window, delta, final(space)@);
    if r && old(space)@.interactive_resize == Some(resize) && is_at(old(space)@, window, i) {
        law_gesture_reaches_the_window(old(space)@, resize, delta, final(space)@, i);
    }
}

/// A gesture ends for its own window or for none in particular, and nothing else changes.
pub proof fn law_interactive_resize_end<W: LayoutElement>(
    space: &mut CanvasSpace<W>,
    window: Option<u64>,
)
    requires
        call_ensures(CanvasSpace::<W>::interactive_resize_end, (space, window), ()),
    ensures
        ({
            let v = old(space)@;
            let own = v.interactive_resize is Some && (window is None || window == Some(
                v.interactive_resize->0.window,
            ));
            &&& own ==> final(space)@ == (CanvasView {
                interactive_resize: None::<InteractiveResize>,
                ..v
            })
            &&& !own ==> final(space)@ == v
        }),
{
}

/// A change of width is asked of the named window, else of the active one, for the nearest whole
/// pixels of what the change makes of its width, and of no other. Without such a window nothing
/// changes.
pub proof fn law_set_window_width<W: LayoutElement>(
    space: &mut CanvasSpace<W>,
    id: Option<u64>,
    change: SizeChange,
    animate: bool,
    named: u64,
    i: int,
)
    requires
        call_ensures(CanvasSpace::<W>::set_window_width, (space, id, change, animate), ()),
    ensures
        ({
            let v = old(space)@;
            let after = final(space)@;
            let target = if id is Some {
                id
            } else {
                v.active_id
            };
            let tile = v.tiles[i];
            let state = tile.window.state();
            let current = match state.expected_size {
                Some(size) => size.w,
                None => state.size.w,
            };
            let side = changed_side(
                change,
                current,
                tile.expected_or_current_size.w,
                tile.frame.w,
                v.working_area.size.w,
            );
            &&& target is None ==> after == v
            &&& target == Some(named) && is_absent(v, named) ==> after == v
            &&& target == Some(named) && is_at(v, named, i) ==> differs_in_window(v, after, i)
                && exists|asked: WindowSize|
                asks_for_width(asked, whole_pixels(side), state) && #[trigger] W::size_requested(
                    tile.window,
                    asked,
                    animate,
                    after.tiles[i].window,
                )
        }),
{
    let v = old(space)@;
    let target = if id is Some {
        id
    } else {
        v.active_id
    };
    if target == Some(named) && is_at(v, named, i) {
        law_width_reaches_the_window(v, id, change, animate, final(space)@, named, i);
    } else if target is None || target == Some(named) && is_absent(v, named) {
        law_requests_need_a_window(v, id, change, animate, final(space)@);
    }
}

/// A change of height is asked of the named window, else of the active one, for the nearest whole
/// pixels of what the change makes of its height, and of no other. Without such a window nothing
/// changes.
pub proof fn law_set_window_height<W: LayoutElement>(
    space: &mut CanvasSpace<W>,
    id: Option<u64>,
    change: SizeChange,
    animate: bool,
    named: u64,
    i: int,
)
    requires
        call_ensures(CanvasSpace::<W>::set_window_height, (space, id, change, animate), ()),
    ensures
        ({
            let v = old(space)@;
            let after = final(space)@;
            let target = if id is Some {
                id
            } else {
                v.active_id
            };
            let tile = v.tiles[i];
            let state = tile.window.state();
            let current = match state.expected_size {
                Some(size) => size.h,
                None => state.size.h,
            };
            let side = changed_side(
                change,
                current,
                tile.expected_or_current_size.h,
                tile.frame.h,
                v.working_area.size.h,
            );
            &&& target is None ==> after == v
            &&& target == Some(named) && is_absent(v, named) ==> after == v
            &&& target == Some(named) && is_at(v, named, i) ==> differs_in_window(v, after, i)
                && exists|asked: WindowSize|
                asks_for_height(asked, whole_pixels(side), state) && #[trigger] W::size_requested(
                    tile.window,
                    asked,
                    animate,
                    after.tiles[i].window,
                )
        }),
{
    let v = old(space)@;
    let target = if id is Some {
        id
    } else {
        v.active_id
    };
    if target == Some(named) && is_at(v, named, i) {
        law_height_reaches_the_window(v, id, change, animate, final(space)@, named, i);
    } else if target is None || target == Some(named) && is_absent(v, named) {
        law_requests_need_a_window(v, id, change, animate, final(space)@);
    }
}

// --- drawing ---

/// Where the tile at `i` is on the screen: where it is on the canvas, less where the camera stands,
/// plus where its animations have it.
pub open spec fn on_screen<W>(v: CanvasView<W>, i: int) -> Point {
    let tile = v.tiles[i];
    Point {
        x: tile.canvas_pos.x.spec_sub(stands_at(v.view_offset_x)).spec_add(tile.render_offset.x),
        y: tile.canvas_pos.y.spec_sub(stands_at(v.view_offset_y)).spec_add(tile.render_offset.y),
    }
}

/// Where the tile at `i` is in the overview: where it is on the canvas, less where the synthetic
/// view starts, plus where its animations have it, times the factor.
pub open spec fn in_overview<W>(v: CanvasView<W>, overview: OverviewFit, i: int) -> Point {
    let tile = v.tiles[i];
    let eye = overview.view_pos;
    Point {
        x: tile.canvas_pos.x.spec_sub(eye.x).spec_add(tile.render_offset.x).spec_mul(
            overview.scale,
        ),
        y: tile.canvas_pos.y.spec_sub(eye.y).spec_add(tile.render_offset.y).spec_mul(
            overview.scale,
        ),
    }
}

/// Whether `at` is `place` on the nearest pixel.
pub open spec fn is_on_pixel(at: Point, place: Point, scale: Float) -> bool {
    &&& at.x == place.x.spec_mul(scale).spec_round().spec_div(scale)
    &&& at.y == place.y.spec_mul(scale).spec_round().spec_div(scale)
}

/// A point of the canvas is seen from where the view starts.
pub proof fn law_canvas_to_screen_base<W: LayoutElement>(canvas: Point, view_pos: Point, r: Point)
    requires
        call_ensures(CanvasSpace::<W>::canvas_to_screen_base, (canvas, view_pos), r),
    ensures
        r.x == canvas.x.spec_sub(view_pos.x),
        r.y == canvas.y.spec_sub(view_pos.y),
{
}

/// Tiles are handed out in order, each with where it is on the canvas or on the screen.
pub proof fn law_tiles_with_positions<W: LayoutElement>(space: &CanvasSpace<W>)
    ensures
        forall|r: Vec<(&Tile<W>, Point)>| #[trigger]
            call_ensures(CanvasSpace::<W>::tiles_with_canvas_positions, (space,), r) ==> {
                &&& r@.len() == space@.tiles.len()
                &&& forall|i: int|
                    0 <= i < r@.len() ==> *(#[trigger] r@[i]).0 == space@.tiles[i] && r@[i].1
                        == space@.tiles[i].canvas_pos
            },
        forall|r: Vec<(&Tile<W>, Point)>| #[trigger]
            call_ensures(CanvasSpace::<W>::tiles_with_render_positions, (space,), r) ==> {
                &&& r@.len() == space@.tiles.len()
                &&& forall|i: int|
                    0 <= i < r@.len() ==> *(#[trigger] r@[i]).0 == space@.tiles[i] && is_on_pixel(
                        r@[i].1,
                        on_screen(space@, i),
                        space@.scale,
                    )
            },
{
}

/// Tiles are lent out in order to be changed, each with where it is on the screen, on the nearest
/// pixel if so asked. Nothing but the tiles changes.
pub proof fn law_tiles_with_render_positions_mut<W: LayoutElement>(
    space: &mut CanvasSpace<W>,
    round: bool,
    lent: &mut [Tile<W>],
    places: Vec<Point>,
    i: int,
)
    requires
        call_ensures(
            CanvasSpace::<W>::tiles_with_render_positions_mut,
            (space, round),
            (lent, places),
        ),
    ensures
        old(lent)@ == old(space)@.tiles,
        final(space)@ == (CanvasView { tiles: final(lent)@, ..old(space)@ }),
        places@.len() == old(space)@.tiles.len(),
        0 <= i < places@.len() && round ==> is_on_pixel(
            places@[i],
            on_screen(old(space)@, i),
            old(space)@.scale,
        ),
        0 <= i < places@.len() && !round ==> places@[i] == on_screen(old(space)@, i),
{
}

/// Tiles are lent out in order to be changed. Nothing but the tiles changes.
pub proof fn law_tiles_mut<W: LayoutElement>(space: &mut CanvasSpace<W>, lent: &mut [Tile<W>])
    requires
        call_ensures(CanvasSpace::<W>::tiles_mut, (space,), lent),
    ensures
        old(lent)@ == old(space)@.tiles,
        final(space)@ == (CanvasView { tiles: final(lent)@, ..old(space)@ }),
{
}

/// Closing windows are drawn first, the last one first, in the whole view, but none in the
/// overview; then the tiles in order, each where it is, the ring on the active one if so asked. The
/// overview draws to scale, around the pixel that the tile starts at.
pub proof fn law_render<W: LayoutElement>(
    space: &CanvasSpace<W>,
    focus_ring: bool,
    overview: Option<OverviewFit>,
    r: Vec<RenderCommand>,
    k: int,
    i: int,
)
    requires
        call_ensures(CanvasSpace::<W>::render, (space, focus_ring, overview), r),
        space@.closing_windows.len() <= usize::MAX,
        space@.tiles.len() <= usize::MAX,
    ensures
        ({
            let v = space@;
            let closing = if overview is None {
                v.closing_windows.len()
            } else {
                0
            };
            let ring = focus_ring && v.active_id == Some(v.tiles[i].window.state().id);
            &&& r@.len() == closing + v.tiles.len()
            &&& 0 <= k < closing ==> (r@[k] matches RenderCommand::ClosingWindow {
                index,
                view_rect,
            } && {
                &&& index == closing - 1 - k
                &&& view_rect.loc == (Point { x: Float::whole(0), y: Float::whole(0) })
                &&& view_rect.size == v.view_size
            })
            &&& 0 <= i < v.tiles.len() && overview is None ==> (
            r@[closing + i] matches RenderCommand::Tile { index, pos, focus_ring: marked } && {
                &&& index == i
                &&& is_on_pixel(pos, on_screen(v, i), v.scale)
                &&& marked == ring
            })
            &&& 0 <= i < v.tiles.len() && overview is Some ==> (
            r@[closing + i] matches RenderCommand::TileScaled {
                index,
                pos,
                focus_ring: marked,
                anchor,
                scale,
            } && {
                &&& index == i
                &&& is_on_pixel(pos, in_overview(v, overview->0, i), v.scale)
                &&& marked == ring
                &&& anchor.x == pos.x.spec_mul(v.scale).spec_round().spec_to_i32() as i32
                &&& anchor.y == pos.y.spec_mul(v.scale).spec_round().spec_to_i32() as i32
                &&& scale == overview->0.scale
            })
        }),
{
}

/// Every tile is told whether it is the active one of an active canvas, and where the view is
/// relative to it.
pub proof fn law_update_render_elements<W: LayoutElement>(
    space: &CanvasSpace<W>,
    is_active: bool,
    r: Vec<TileUpdate>,
    i: int,
)
    requires
        call_ensures(CanvasSpace::<W>::update_render_elements, (space, is_active), r),
    ensures
        r@.len() == space@.tiles.len(),
        0 <= i < r@.len() ==> {
            let v = space@;
            let tile = v.tiles[i];
            let rect = r@[i].view_rect;
            &&& r@[i].is_active <==> is_active && v.active_id == Some(tile.window.state().id)
            &&& rect.size == v.view_size
            &&& rect.loc.x == stands_at(v.view_offset_x).spec_sub(tile.canvas_pos.x)
            &&& rect.loc.y == stands_at(v.view_offset_y).spec_sub(tile.canvas_pos.y)
        },
{
}

/// Whether `hit_tile` can say `outcome` of the tile at `i`, asked about where it is drawn; in the
/// overview where it is drawn and the point are both scaled back.
pub open spec fn is_told<W: LayoutElement, H, F: Fn(&Tile<W>, Point, Point) -> Option<H>>(
    v: CanvasView<W>,
    hit_tile: F,
    overview: Option<OverviewFit>,
    point: Point,
    i: int,
    outcome: Option<H>,
) -> bool {
    match overview {
        None => exists|at: Point|
            is_on_pixel(at, on_screen(v, i), v.scale) && #[trigger] call_ensures(
                hit_tile,
                (&v.tiles[i], at, point),
                outcome,
            ),
        Some(fit) => exists|at: Point, back: Point, point_back: Point|
            {
                &&& #[trigger] is_on_pixel(at, in_overview(v, fit, i), v.scale)
                &&& back == (Point { x: at.x.spec_div(fit.scale), y: at.y.spec_div(fit.scale) })
                &&& point_back == (Point {
                    x: point.x.spec_div(fit.scale),
                    y: point.y.spec_div(fit.scale),
                })
                &&& #[trigger] call_ensures(
                    hit_tile,
                    (&v.tiles[i], back, point_back),
                    outcome,
                )
            },
    }
}

/// The tile at `i` is asked about where it is drawn.
proof fn lemma_told<W: LayoutElement, H, F: Fn(&Tile<W>, Point, Point) -> Option<H>>(
    v: CanvasView<W>,
    hit_tile: F,
    overview: Option<OverviewFit>,
    point: Point,
    i: int,
    outcome: Option<H>,
)
    requires
        v.is_under(hit_tile, overview, point, i, outcome),
    ensures
        is_told(v, hit_tile, overview, point, i, outcome),
{
    let tested = v.hit_position(overview, i);
    match overview {
        None => {
            assert(is_on_pixel(tested, on_screen(v, i), v.scale));
            assert(call_ensures(hit_tile, (&v.tiles[i], tested, point), outcome));
        },
        Some(fit) => {
            let at = v.scaled_position(fit, i);
            let point_back = Point {
                x: point.x.spec_div(fit.scale),
                y: point.y.spec_div(fit.scale),
            };
            assert(is_on_pixel(at, in_overview(v, fit, i), v.scale));
            assert(call_ensures(hit_tile, (&v.tiles[i], tested, point_back), outcome));
        },
    }
}

/// What is found under a point is the window of the last tile that is there: it is told of it, and
/// of every later tile that it is not. Where nothing is found, that is told of every tile.
pub proof fn law_window_under<W: LayoutElement, H, F: Fn(&Tile<W>, Point, Point) -> Option<H>>(
    space: &CanvasSpace<W>,
    point: Point,
    overview: Option<OverviewFit>,
    hit_tile: F,
    r: Option<(&W, H)>,
)
    requires
        call_ensures(CanvasSpace::<W>::window_under::<H, F>, (space, point, overview, hit_tile), r),
    ensures
        r matches Some((window, hit)) ==> exists|i: int|
            {
                &&& 0 <= i < space@.tiles.len()
                &&& *window == (#[trigger] space@.tiles[i]).window
                &&& is_told(space@, hit_tile, overview, point, i, Some(hit))
                &&& forall|j: int|
                    i < j < space@.tiles.len() ==> #[trigger] is_told(
                        space@,
                        hit_tile,
                        overview,
                        point,
                        j,
                        None::<H>,
                    )
            },
        r is None ==> forall|j: int|
            0 <= j < space@.tiles.len() ==> #[trigger] is_told(
                space@,
                hit_tile,
                overview,
                point,
                j,
                None::<H>,
            ),
{
    let v = space@;
    if r is Some {
        let (window, hit) = r->0;
        let i = choose|i: int|
            0 <= i < v.tiles.len() && *window == (#[trigger] v.tiles[i]).window && v.hits(
                hit_tile,
                overview,
                point,
                i,
                hit,
            );
        lemma_told(v, hit_tile, overview, point, i, Some(hit));
        assert forall|j: int| i < j < v.tiles.len() implies #[trigger] is_told(
            v,
            hit_tile,
            overview,
            point,
            j,
            None::<H>,
        ) by {
            let tile = v.tiles[j];
            lemma_told(v, hit_tile, overview, point, j, None::<H>);
        }
    } else {
        assert forall|j: int| 0 <= j < v.tiles.len() implies #[trigger] is_told(
            v,
            hit_tile,
            overview,
            point,
            j,
            None::<H>,
        ) by {
            let tile = v.tiles[j];
            lemma_told(v, hit_tile, overview, point, j, None::<H>);
        }
    }
}

/// The box of the content reaches from the least to the greatest edges; there is none without
/// tiles.
pub proof fn law_content_bounds<W: LayoutElement>(space: &CanvasSpace<W>, r: Option<Rectangle>)
    requires
        call_ensures(CanvasSpace::<W>::content_bounds, (space,), r),
    ensures
        r is None <==> space@.tiles.len() == 0,
        r matches Some(bbox) ==> reaches_outermost(space@.tiles, bbox),
{
    if space@.tiles.len() > 0 {
        law_bounds_reach_the_outermost_edges(space@.tiles);
    }
}

/// The overview is of the box of the content, for the view as it is: none without tiles, without an
/// area, or where the box with its margin of sixty-four pixels fits; else at the scale at which it
/// just does along one axis, and no more than that along the other, its middle in the middle.
pub proof fn law_overview_fit<W: LayoutElement>(
    space: &CanvasSpace<W>,
    bbox: Option<Rectangle>,
    r: Option<OverviewFit>,
)
    requires
        call_ensures(CanvasSpace::<W>::content_bounds, (space,), bbox),
        call_ensures(CanvasSpace::<W>::overview_fit, (space,), r),
        bbox matches Some(bbox) ==> {
            let margin = Float::whole(64);
            let wide = bbox.size.w.spec_add(margin);
            let high = bbox.size.h.spec_add(margin);
            &&& !wide.spec_is_nan() && wide.units() >= pow2(UNIT_EXPONENT as nat)
            &&& !high.spec_is_nan() && high.units() >= pow2(UNIT_EXPONENT as nat)
            &&& !space@.view_size.w.spec_div(wide).spec_is_nan()
            &&& !space@.view_size.h.spec_div(high).spec_is_nan()
        },
    ensures
        bbox is None ==> r is None,
        bbox matches Some(bbox) ==> {
            let view = space@.view_size;
            let one = Float::whole(1);
            let two = Float::whole(2);
            let margin = Float::whole(64);
            let across = view.w.spec_div(bbox.size.w.spec_add(margin));
            let down = view.h.spec_div(bbox.size.h.spec_add(margin));
            &&& r is Some <==> {
                &&& !view.w.spec_is_nan() && view.w.units() > 0
                &&& !view.h.spec_is_nan() && view.h.units() > 0
                &&& across.spec_lt(one) || down.spec_lt(one)
            }
            &&& r matches Some(fit) ==> {
                let least = one.spec_div(Float::whole(1000));
                let left = bbox.loc.x.spec_add(bbox.size.w.spec_div(two));
                let top = bbox.loc.y.spec_add(bbox.size.h.spec_div(two));
                &&& !across.spec_lt(least) && !down.spec_lt(least) ==> {
                    &&& fit.scale == across || fit.scale == down
                    &&& !across.spec_lt(fit.scale)
                    &&& !down.spec_lt(fit.scale)
                }
                &&& across.spec_lt(least) || down.spec_lt(least) ==> fit.scale == least
                &&& fit.view_pos.x == left.spec_sub(view.w.spec_div(two.spec_mul(fit.scale)))
                &&& fit.view_pos.y == top.spec_sub(view.h.spec_div(two.spec_mul(fit.scale)))
            }
        },
{
    let tiles = space@.tiles;
    let view = space@.view_size;
    if tiles.len() > 0 {
        let content = bounds(tiles)->0.size;
        law_padding_adds_a_margin(content.w);
        law_padding_adds_a_margin(content.h);
        lemma_thousandth();
        lemma_whole(1);
        assert(1 * pow2(UNIT_EXPONENT as nat) == pow2(UNIT_EXPONENT as nat)) by (nonlinear_arith);
        law_overview_is_for_what_does_not_fit(tiles, view);
        if fit(tiles, view) is Some {
            law_overview_is_as_large_as_fits(tiles, view);
            law_overview_looks_at_the_middle(tiles, view);
        }
    }
}

// --- closing windows ---

/// A window closes with the picture captured of its tile, of the tile's size and where the tile is
/// on the screen, not put on a pixel. The picture is taken out of the tile, and nothing else
/// changes. Without the window or a picture there is nothing to close.
pub proof fn law_start_close_animation_for_window<W: LayoutElement>(
    space: &mut CanvasSpace<W>,
    id: u64,
    blocker: TransactionBlocker,
    r: Option<CloseAnimation>,
    i: int,
)
    requires
        call_ensures(CanvasSpace::<W>::start_close_animation_for_window, (space, id, blocker), r),
    ensures
        is_absent(old(space)@, id) ==> r is None && final(space)@ == old(space)@,
        is_at(old(space)@, id, i) ==> {
            let v = old(space)@;
            let after = final(space)@;
            let tile = v.tiles[i];
            &&& r is Some <==> tile.unmap_snapshot is Some
            &&& r matches Some(closing) ==> {
                &&& Some(closing.snapshot) == tile.unmap_snapshot
                &&& closing.tile_size == tile.tile_size
                &&& closing.tile_pos == on_screen(v, i)
                &&& closes(v, blocker, closing)
            }
            &&& after == (CanvasView { tiles: after.tiles, ..v })
            &&& after.tiles.len() == v.tiles.len()
            &&& after.tiles[i] == (Tile { unmap_snapshot: None::<TileRenderSnapshot>, ..tile })
            &&& forall|k: int|
                0 <= k < v.tiles.len() && k != i ==> #[trigger] after.tiles[k] == v.tiles[k]
        },
{
    let v = old(space)@;
    if is_absent(v, id) {
        law_only_windows_on_the_canvas_close(v, id, blocker);
    }
    if is_at(v, id, i) {
        law_windows_close_where_they_are(v, id, blocker, i);
    }
}

/// Whether the picture closes on a spring from nothing to one, at the scale of the canvas, and
/// waits for `blocker` unless transactions are off.
pub open spec fn closes<W>(
    v: CanvasView<W>,
    blocker: TransactionBlocker,
    closing: CloseAnimation,
) -> bool {
    &&& closing.scale == v.scale
    &&& v.options.disable_transactions ==> closing.blocker == TransactionBlocker::Completed
    &&& !v.options.disable_transactions ==> closing.blocker == blocker
    &&& closing.anim == (Animation {
        from: Float::whole(0),
        to: Float::whole(1),
        initial_velocity: Float::whole(0),
        config: v.options.window_close,
        value: Float::whole(0),
    })
}

/// A picture closes as given, on a spring from nothing to one.
pub proof fn law_start_close_animation_for_tile<W: LayoutElement>(
    space: &CanvasSpace<W>,
    snapshot: TileRenderSnapshot,
    tile_size: Size,
    tile_pos: Point,
    blocker: TransactionBlocker,
    r: CloseAnimation,
)
    requires
        call_ensures(
            CanvasSpace::<W>::start_close_animation_for_tile,
            (space, snapshot, tile_size, tile_pos, blocker),
            r,
        ),
    ensures
        r.snapshot == snapshot,
        r.tile_size == tile_size,
        r.tile_pos == tile_pos,
        closes(space@, blocker, r),
{
}

/// A closing window, if one was made, is taken on last, and nothing else changes.
pub proof fn law_add_closing_window<W: LayoutElement>(
    space: &mut CanvasSpace<W>,
    made: Option<ClosingWindow>,
)
    requires
        call_ensures(CanvasSpace::<W>::add_closing_window, (space, made), ()),
    ensures
        ({
            let v = old(space)@;
            let after = final(space)@;
            let n = v.closing_windows.len() as int;
            &&& made is None ==> after == v
            &&& made matches Some(closing) ==> {
                &&& after == (CanvasView { closing_windows: after.closing_windows, ..v })
                &&& after.closing_windows.len() == n + 1
                &&& after.closing_windows[n] == closing
                &&& forall|k: int|
                    0 <= k < n ==> #[trigger] after.closing_windows[k] == v.closing_windows[k]
            }
        }),
{
}

// --- what is left ---

/// The active window is lent out to be changed, if there is one. Nothing else changes.
pub proof fn law_active_window_mut<W: LayoutElement>(
    space: &mut CanvasSpace<W>,
    lent: &mut W,
    r: Option<&mut W>,
    id: u64,
    i: int,
)
    requires
        call_ensures(CanvasSpace::<W>::active_window_mut, (space,), r),
        old(space)@.active_id == Some(id),
    ensures
        is_absent(old(space)@, id) ==> r is None && final(space)@ == old(space)@,
        is_at(old(space)@, id, i) ==> r is Some,
        is_at(old(space)@, id, i) && r == Some(lent) ==> {
            let v = old(space)@;
            let after = final(space)@;
            &&& *old(lent) == v.tiles[i].window
            &&& after == (CanvasView { tiles: after.tiles, ..v })
            &&& after.tiles.len() == v.tiles.len()
            &&& after.tiles[i] == (Tile { window: *final(lent), ..v.tiles[i] })
            &&& forall|k: int|
                0 <= k < v.tiles.len() && k != i ==> #[trigger] after.tiles[k] == v.tiles[k]
        },
{
    let v = old(space)@;
    law_windows_are_found(v, id);
    if is_at(v, id, i) {
        lemma_found(v, id, i);
        assert(v.tiles[i].window.state().id == id);
    }
}

/// Without an active window on the canvas the focus goes nowhere.
pub proof fn law_focus_needs_an_active_window<W: LayoutElement>(
    space: &mut CanvasSpace<W>,
    direction: SpatialDirection,
    r: bool,
)
    requires
        call_ensures(CanvasSpace::<W>::focus_spatial, (space, direction), r),
        old(space)@.active_id matches Some(id) ==> is_absent(old(space)@, id),
    ensures
        !r,
        final(space)@ == old(space)@,
{
    let v = old(space)@;
    law_focus_starts_from_the_active_window(v, direction, final(space)@);
    if r {
        let id = v.active_id->0;
        let i = choose|i: int| #[trigger] is_focus_target(v.tiles, id, direction, i);
        let a = choose|a: int| #[trigger] is_last(v.tiles, id, a);
        assert(v.tiles[a].window.state().id == id);
    }
}

/// Positions need no updating.
pub proof fn law_update_canvas_positions<W: LayoutElement>(space: &mut CanvasSpace<W>)
    requires
        call_ensures(CanvasSpace::<W>::update_canvas_positions, (space,), ()),
    ensures
        final(space)@ == old(space)@,
{
}

} // verus!
