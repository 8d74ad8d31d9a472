//! What each operation makes of a canvas, part by part.

use crate::camera::{Animation, AnimationSample, AxisCamera};
use crate::drawing_laws::stands_at;
use crate::float::{distance, lemma_neg, lemma_whole, Float, UNIT_EXPONENT};
use crate::focus::{
    is_focus_target, is_last, is_nearest_beyond, law_focus_goes_beyond,
    lemma_target_is_nearest_beyond, lies_beyond, middle, SpatialDirection,
};
use crate::geometry::{Point, Rectangle, Size};
use crate::laws::lemma_first;
use crate::resize_laws::is_at;
use crate::state::{
    downward, first, holds, leftward, rightward, still_running, upward, CanvasView, ClosingWindow,
    InteractiveResize, ResizeEdge,
};
use crate::tile::{LayoutElement, Options, Tile, TileMeasures};
use vstd::arithmetic::power2::pow2;
use vstd::prelude::*;

verus! {

// --- tiles ---

/// Whether no tile holds the window `id`.
pub open spec fn is_absent<W: LayoutElement>(v: CanvasView<W>, id: u64) -> bool {
    forall|k: int| 0 <= k < v.tiles.len() ==> (#[trigger] v.tiles[k]).window.state().id != id
}

/// A window is on the canvas if a tile holds it, and found in the first one that does; the active
/// window is the one with the active id.
pub proof fn law_windows_are_found<W: LayoutElement>(v: CanvasView<W>, id: u64)
    ensures
        is_absent(v, id) <==> !v.holds(id),
        v.holds(id) ==> is_at(v, id, first(v.tiles, id)),
        v.active_id == Some(id) && is_absent(v, id) ==> v.active() is None,
        v.active_id == Some(id) && !is_absent(v, id) ==> v.active() is Some && is_at(
            v,
            id,
            v.active()->0,
        ),
        v.active_id is None ==> v.active() is None,
        v.subject(None) == v.active(),
        is_absent(v, id) ==> v.subject(Some(id)) is None,
        !is_absent(v, id) ==> v.subject(Some(id)) is Some && is_at(v, id, v.subject(Some(id))->0),
{
    if v.holds(id) {
        lemma_first(v.tiles, id);
        assert(v.tiles[first(v.tiles, id)].window.state().id == id);
        assert forall|k: int| 0 <= k < first(v.tiles, id) implies (
        #[trigger] v.tiles[k]).window.state().id != id by {
            assert(v.tiles[k].id() != id);
        }
    } else {
        assert forall|k: int| 0 <= k < v.tiles.len() implies (
        #[trigger] v.tiles[k]).window.state().id != id by {
            assert(v.tiles[k].id() != id);
        }
    }
}

/// `is_at` tells where a window is found.
pub proof fn lemma_found<W: LayoutElement>(v: CanvasView<W>, id: u64, i: int)
    requires
        is_at(v, id, i),
    ensures
        v.holds(id),
        first(v.tiles, id) == i,
{
    assert(v.tiles[i].id() == id);
    lemma_first(v.tiles, id);
    let k = first(v.tiles, id);
    assert(v.tiles[k].id() == id);
}

/// A new canvas has nothing on it and its camera at rest at the origin, and is configured as told.
pub proof fn law_a_new_canvas_is_empty<W: LayoutElement>(
    view_size: Size,
    working_area: Rectangle,
    scale: Float,
    options: Options,
)
    ensures
        ({
            let v = CanvasView::<W>::empty(view_size, working_area, scale, options);
            &&& v.tiles.len() == 0
            &&& v.active_id is None
            &&& v.view_offset_x == AxisCamera::Static(Float::whole(0))
            &&& v.view_offset_y == AxisCamera::Static(Float::whole(0))
            &&& v.view_size == view_size && v.working_area == working_area
            &&& v.scale == scale && v.options == options
            &&& v.closing_windows.len() == 0
            &&& v.interactive_resize is None
        }),
{
}

/// A tile that is added comes last, at the position given and else as it was, and is active. The
/// others stay as they are, and so does everything else.
pub proof fn law_added_tiles_come_last<W: LayoutElement>(
    v: CanvasView<W>,
    tile: Tile<W>,
    canvas_pos: Point,
)
    ensures
        ({
            let after = v.added(tile, canvas_pos);
            let n = v.tiles.len() as int;
            &&& after == (CanvasView { tiles: after.tiles, active_id: after.active_id, ..v })
            &&& after.tiles.len() == n + 1
            &&& after.tiles[n] == (Tile { canvas_pos, ..tile })
            &&& after.active_id == Some(tile.window.state().id)
            &&& forall|k: int| 0 <= k < n ==> #[trigger] after.tiles[k] == v.tiles[k]
        }),
{
}

/// A tile that is removed leaves the others in order. If it was the active one the first tile left
/// is, if any; else the active one stays. Everything else stays.
pub proof fn law_removed_tiles_leave_the_others<W: LayoutElement>(
    v: CanvasView<W>,
    id: u64,
    i: int,
)
    requires
        is_at(v, id, i),
    ensures
        ({
            let after = v.removed(id);
            let n = v.tiles.len();
            &&& after == (CanvasView { tiles: after.tiles, active_id: after.active_id, ..v })
            &&& after.tiles.len() == n - 1
            &&& forall|k: int| 0 <= k < i ==> #[trigger] after.tiles[k] == v.tiles[k]
            &&& forall|k: int| i <= k < n - 1 ==> #[trigger] after.tiles[k] == v.tiles[k + 1]
            &&& v.active_id != Some(id) ==> after.active_id == v.active_id
            &&& v.active_id == Some(id) && n > 1 ==> after.active_id == Some(
                after.tiles[0].window.state().id,
            )
            &&& v.active_id == Some(id) && n == 1 ==> after.active_id is None
        }),
{
    lemma_found(v, id, i);
}

/// What is about a window that is not on the canvas changes nothing.
pub proof fn law_absent_windows_change_nothing<W: LayoutElement>(
    v: CanvasView<W>,
    id: u64,
    canvas_pos: Point,
    edges: ResizeEdge,
)
    requires
        is_absent(v, id),
    ensures
        v.removed(id) == v,
        v.activated(id) == v,
        v.moved(id, canvas_pos) == v,
        !v.can_resize(id),
        v.resize_begun(id, edges) == v,
{
    law_windows_are_found(v, id);
}

/// A window that is activated is the active one, and nothing else changes.
pub proof fn law_activated_windows_are_active<W: LayoutElement>(v: CanvasView<W>, id: u64, i: int)
    requires
        is_at(v, id, i),
    ensures
        v.activated(id) == (CanvasView { active_id: Some(id), ..v }),
{
    lemma_found(v, id, i);
}

/// Whether `after` is `v` but for the position of the tile at `i`.
pub open spec fn differs_in_position<W: LayoutElement>(
    v: CanvasView<W>,
    after: CanvasView<W>,
    i: int,
    canvas_pos: Point,
) -> bool {
    &&& after.tiles.len() == v.tiles.len()
    &&& after.tiles[i] == (Tile { canvas_pos, ..v.tiles[i] })
    &&& forall|k: int| 0 <= k < v.tiles.len() && k != i ==> #[trigger] after.tiles[k] == v.tiles[k]
}

/// A tile that is moved is where it was sent, and nothing else changes.
pub proof fn law_moved_tiles_arrive<W: LayoutElement>(
    v: CanvasView<W>,
    id: u64,
    canvas_pos: Point,
    i: int,
)
    requires
        is_at(v, id, i),
    ensures
        differs_in_position(v, v.moved(id, canvas_pos), i, canvas_pos),
        v.moved(id, canvas_pos) == (CanvasView { tiles: v.moved(id, canvas_pos).tiles, ..v }),
{
    lemma_found(v, id, i);
}

/// A configuration is the canvas's and, but for the working area, every tile's; it changes nothing
/// else.
pub proof fn law_configuration_is_taken_over<W: LayoutElement>(
    v: CanvasView<W>,
    view_size: Size,
    working_area: Rectangle,
    scale: Float,
    options: Options,
)
    ensures
        ({
            let after = v.configured(view_size, working_area, scale, options);
            &&& after == (CanvasView {
                tiles: after.tiles,
                view_size,
                working_area,
                scale,
                options,
                ..v
            })
            &&& after.tiles.len() == v.tiles.len()
            &&& forall|k: int|
                0 <= k < v.tiles.len() ==> #[trigger] after.tiles[k] == (Tile {
                    view_size,
                    scale,
                    options,
                    ..v.tiles[k]
                })
        }),
{
}

/// The invariants hold exactly if the scale is positive and finite, every tile has the options, the
/// view size and the scale of the canvas and is valid itself, the active id is that of a tile, and
/// no id occurs twice.
pub proof fn law_invariants_say<W: LayoutElement>(v: CanvasView<W>)
    ensures
        v.invariants_hold() <==> {
            &&& v.scale.spec_is_finite() && v.scale.units() > 0
            &&& forall|k: int|
                0 <= k < v.tiles.len() ==> {
                    let tile = #[trigger] v.tiles[k];
                    &&& tile.options == v.options
                    &&& tile.view_size.w.spec_same(v.view_size.w)
                    &&& tile.view_size.h.spec_same(v.view_size.h)
                    &&& tile.scale.spec_same(v.scale)
                    &&& tile.is_valid
                }
            &&& v.active_id matches Some(id) ==> !is_absent(v, id)
            &&& forall|j: int, k: int|
                0 <= j < v.tiles.len() && 0 <= k < v.tiles.len() && j != k ==> (
                #[trigger] v.tiles[j]).window.state().id != (
                #[trigger] v.tiles[k]).window.state().id
        },
{
    lemma_whole(0);
    assert(0 * pow2(UNIT_EXPONENT as nat) == 0) by (nonlinear_arith);
    if v.active_id is Some {
        law_windows_are_found(v, v.active_id->0);
    }
    let sound = forall|k: int|
        0 <= k < v.tiles.len() ==> {
            let tile = #[trigger] v.tiles[k];
            &&& tile.options == v.options
            &&& tile.view_size.w.spec_same(v.view_size.w)
            &&& tile.view_size.h.spec_same(v.view_size.h)
            &&& tile.scale.spec_same(v.scale)
            &&& tile.is_valid
        };
    let distinct = forall|j: int, k: int|
        0 <= j < v.tiles.len() && 0 <= k < v.tiles.len() && j != k ==> (
        #[trigger] v.tiles[j]).window.state().id != (#[trigger] v.tiles[k]).window.state().id;
    if v.invariants_hold() {
        assert forall|k: int| 0 <= k < v.tiles.len() implies {
            let tile = #[trigger] v.tiles[k];
            &&& tile.options == v.options
            &&& tile.view_size.w.spec_same(v.view_size.w)
            &&& tile.view_size.h.spec_same(v.view_size.h)
            &&& tile.scale.spec_same(v.scale)
            &&& tile.is_valid
        } by {
            assert(v.is_sound(v.tiles[k]));
        }
        assert forall|j: int, k: int|
            0 <= j < v.tiles.len() && 0 <= k < v.tiles.len() && j != k implies (
        #[trigger] v.tiles[j]).window.state().id != (
        #[trigger] v.tiles[k]).window.state().id by {
            if j < k {
                assert(v.tiles[j].id() != v.tiles[k].id());
            } else {
                assert(v.tiles[k].id() != v.tiles[j].id());
            }
        }
    }
    if sound && distinct {
        assert forall|k: int| 0 <= k < v.tiles.len() implies v.is_sound(#[trigger] v.tiles[k]) by {
            assert(v.tiles[k].is_valid);
        }
        assert(v.ids_are_unique()) by {
            assert forall|j: int, k: int| 0 <= j < k < v.tiles.len() implies (
            #[trigger] v.tiles[j]).id() != (#[trigger] v.tiles[k]).id() by {
                assert(v.tiles[j].window.state().id != v.tiles[k].window.state().id);
            }
        }
    }
}

// --- the camera ---

/// Where one axis of the camera heads: where it is at rest, or the end of its spring.
pub open spec fn heads_for(camera: AxisCamera) -> Float {
    match camera {
        AxisCamera::Static(at) => at,
        AxisCamera::Animation(spring) => spring.to,
    }
}

/// Whether `after` is `before` headed for `to`: as it was if it heads there already, else on a
/// spring that sets out for there, at rest, from where the camera stands.
pub open spec fn sets_out(
    before: AxisCamera,
    after: AxisCamera,
    to: Float,
    options: Options,
) -> bool {
    if heads_for(before).spec_same(to) {
        after == before
    } else {
        after == AxisCamera::Animation(
            Animation {
                from: stands_at(before),
                to,
                initial_velocity: Float::whole(0),
                config: options.horizontal_view_movement,
                value: stands_at(before),
            },
        )
    }
}

/// Heading moves one axis, and nothing else changes.
pub proof fn law_heading_is_per_axis<W: LayoutElement>(v: CanvasView<W>, to: Float)
    ensures
        sets_out(v.view_offset_x, v.headed_x(to).view_offset_x, to, v.options),
        v.headed_x(to) == (CanvasView { view_offset_x: v.headed_x(to).view_offset_x, ..v }),
        sets_out(v.view_offset_y, v.headed_y(to).view_offset_y, to, v.options),
        v.headed_y(to) == (CanvasView { view_offset_y: v.headed_y(to).view_offset_y, ..v }),
{
}

/// A pan heads each axis for where it heads plus its delta, where there is one, and a jump puts
/// both at rest where they were sent. Nothing else changes.
pub proof fn law_pans_and_jumps_move_the_camera<W: LayoutElement>(
    v: CanvasView<W>,
    dx: Float,
    dy: Float,
    pos: Point,
)
    ensures
        ({
            let panned = v.panned(dx, dy);
            let x = v.view_offset_x;
            let y = v.view_offset_y;
            &&& panned == (CanvasView {
                view_offset_x: panned.view_offset_x,
                view_offset_y: panned.view_offset_y,
                ..v
            })
            &&& dx.spec_same(Float::whole(0)) ==> panned.view_offset_x == x
            &&& dy.spec_same(Float::whole(0)) ==> panned.view_offset_y == y
            &&& !dx.spec_same(Float::whole(0)) ==> sets_out(
                x,
                panned.view_offset_x,
                heads_for(x).spec_add(dx),
                v.options,
            )
            &&& !dy.spec_same(Float::whole(0)) ==> sets_out(
                y,
                panned.view_offset_y,
                heads_for(y).spec_add(dy),
                v.options,
            )
            &&& heads_for(x).adds_exactly(dx) ==> heads_for(panned.view_offset_x).units()
                == heads_for(x).units() + dx.units()
            &&& heads_for(y).adds_exactly(dy) ==> heads_for(panned.view_offset_y).units()
                == heads_for(y).units() + dy.units()
            &&& v.viewed_at(pos) == (CanvasView {
                view_offset_x: AxisCamera::Static(pos.x),
                view_offset_y: AxisCamera::Static(pos.y),
                ..v
            })
        }),
{
    lemma_whole(0);
    assert(0 * pow2(UNIT_EXPONENT as nat) == 0) by (nonlinear_arith);
}

/// Whether `after` is `before` headed so that a view of length `view` shows what lies from `pos`
/// for the length `size`: to its near edge if that is before the view, else so that its far edge is
/// that of the view if that is past it, else as it was.
pub open spec fn comes_into_view(
    before: AxisCamera,
    after: AxisCamera,
    pos: Float,
    size: Float,
    view: Float,
    options: Options,
) -> bool {
    let start = heads_for(before);
    let too_early = pos.spec_lt(start);
    let too_late = start.spec_add(view).spec_lt(pos.spec_add(size));
    &&& too_early ==> sets_out(before, after, pos, options)
    &&& !too_early && too_late ==> sets_out(
        before,
        after,
        pos.spec_add(size).spec_sub(view),
        options,
    )
    &&& !too_early && !too_late ==> after == before
}

/// Bringing the active tile into view pans across by its left edge, its drawn width and the width
/// of the view, and down by its top edge, its drawn height and the height of the view. Nothing else
/// changes, and nothing at all without an active tile.
pub proof fn law_active_tile_comes_into_view<W: LayoutElement>(v: CanvasView<W>, id: u64, i: int)
    requires
        v.active_id == Some(id),
        is_at(v, id, i),
    ensures
        ({
            let tile = v.tiles[i];
            let after = v.active_shown();
            &&& after == (CanvasView {
                view_offset_x: after.view_offset_x,
                view_offset_y: after.view_offset_y,
                ..v
            })
            &&& comes_into_view(
                v.view_offset_x,
                after.view_offset_x,
                tile.canvas_pos.x,
                tile.tile_size.w,
                v.view_size.w,
                v.options,
            )
            &&& comes_into_view(
                v.view_offset_y,
                after.view_offset_y,
                tile.canvas_pos.y,
                tile.tile_size.h,
                v.view_size.h,
                v.options,
            )
        }),
{
    lemma_found(v, id, i);
}

/// Without an active tile there is nothing to show or to move.
pub proof fn law_nothing_active_nothing_moves<W: LayoutElement>(v: CanvasView<W>, amount: Point)
    requires
        v.active_id matches Some(id) ==> is_absent(v, id),
    ensures
        v.active_shown() == v,
        v.active_moved(amount) == v,
{
    if v.active_id is Some {
        law_windows_are_found(v, v.active_id->0);
    }
}

/// The camera pans no further than it must: at any other place that shows the tile, where nothing
/// is rounded, it would have gone at least as far.
pub proof fn law_the_camera_goes_the_least_way(
    before: AxisCamera,
    after: AxisCamera,
    pos: Float,
    size: Float,
    view: Float,
    options: Options,
    place: int,
)
    requires
        comes_into_view(before, after, pos, size, view, options),
        heads_for(before).adds_exactly(view),
        pos.adds_exactly(size),
        pos.spec_add(size).subtracts_exactly(view),
        place <= pos.units(),
        pos.units() + size.units() <= place + view.units(),
    ensures
        distance(heads_for(after).units() - heads_for(before).units()) <= distance(
            place - heads_for(before).units(),
        ),
{
    lemma_neg(view);
}

/// A move takes the active tile by the amount, ends any resize and brings the tile into view where
/// it then is. Nothing else changes.
pub proof fn law_moves_take_the_active_tile<W: LayoutElement>(
    v: CanvasView<W>,
    amount: Point,
    id: u64,
    i: int,
)
    requires
        v.active_id == Some(id),
        is_at(v, id, i),
    ensures
        ({
            let after = v.active_moved(amount);
            let to = Point {
                x: v.tiles[i].canvas_pos.x.spec_add(amount.x),
                y: v.tiles[i].canvas_pos.y.spec_add(amount.y),
            };
            &&& differs_in_position(v, after, i, to)
            &&& after == (CanvasView {
                tiles: after.tiles,
                interactive_resize: None::<InteractiveResize>,
                view_offset_x: after.view_offset_x,
                view_offset_y: after.view_offset_y,
                ..v
            })
            &&& comes_into_view(
                v.view_offset_x,
                after.view_offset_x,
                to.x,
                v.tiles[i].tile_size.w,
                v.view_size.w,
                v.options,
            )
            &&& comes_into_view(
                v.view_offset_y,
                after.view_offset_y,
                to.y,
                v.tiles[i].tile_size.h,
                v.view_size.h,
                v.options,
            )
        }),
{
    lemma_found(v, id, i);
    let to = v.tiles[i].canvas_pos.spec_add(amount);
    let there = CanvasView {
        interactive_resize: None::<InteractiveResize>,
        ..v.with_position(i, to)
    };
    assert(is_at(there, id, i)) by {
        assert forall|k: int| 0 <= k < i implies (#[trigger] there.tiles[k]).window.state().id
            != id by {
            assert(v.tiles[k].window.state().id != id);
        }
    }
    law_active_tile_comes_into_view(there, id, i);
}

/// A directional move is fifty pixels along its direction and none across it.
pub proof fn law_directions_are_fifty_pixels()
    ensures
        ({
            let step = 50 * pow2(UNIT_EXPONENT as nat);
            &&& leftward().x.units() == -step && leftward().y.units() == 0
            &&& rightward().x.units() == step && rightward().y.units() == 0
            &&& upward().x.units() == 0 && upward().y.units() == -step
            &&& downward().x.units() == 0 && downward().y.units() == step
        }),
{
    lemma_whole(0);
    lemma_whole(50);
    lemma_neg(Float::whole(50));
    assert(0 * pow2(UNIT_EXPONENT as nat) == 0) by (nonlinear_arith);
}

/// The focus goes, if at all, to a window whose middle lies strictly beyond that of the active one,
/// and goes if there is one, to one whose distances score least; that tile is then brought into
/// view. Nothing else changes.
pub proof fn law_focus_moves_beyond<W: LayoutElement>(
    v: CanvasView<W>,
    direction: SpatialDirection,
    after: CanvasView<W>,
    id: u64,
    a: int,
)
    requires
        v.focused(direction, after),
        v.active_id == Some(id),
        0 <= a < v.tiles.len(),
        v.tiles[a].window.state().id == id,
        forall|j: int, k: int|
            0 <= j < v.tiles.len() && 0 <= k < v.tiles.len() && j != k ==> (
            #[trigger] v.tiles[j]).window.state().id != (#[trigger] v.tiles[k]).window.state().id,
        forall|k: int|
            0 <= k < v.tiles.len() ==> middle(#[trigger] v.tiles[k]).x.spec_is_finite() && middle(
                v.tiles[k],
            ).y.spec_is_finite(),
    ensures
        ({
            let from = middle(v.tiles[a]);
            let some = exists|j: int|
                0 <= j < v.tiles.len() && lies_beyond(
                    direction,
                    from,
                    middle(#[trigger] v.tiles[j]),
                );
            &&& !some ==> after == v
            &&& some ==> exists|i: int|
                #[trigger] is_nearest_beyond(v.tiles, direction, a, i) && goes_to(v, after, i)
        }),
{
    assert forall|k: int| 0 <= k < v.tiles.len() && k != a implies (
    #[trigger] v.tiles[k]).window.state().id != id by {
        assert(v.tiles[a].window.state().id != v.tiles[k].window.state().id);
    }
    let found = exists|i: int| #[trigger] is_focus_target(v.tiles, id, direction, i);
    let some = exists|j: int|
        0 <= j < v.tiles.len() && lies_beyond(
            direction,
            middle(v.tiles[a]),
            middle(#[trigger] v.tiles[j]),
        );
    assert(found == some) by {
        law_focus_goes_beyond(v.tiles, id, direction, a);
    }
    if found {
        let i = lemma_focus_has_a_target(v, direction, after, id);
        lemma_target_is_nearest_beyond(v.tiles, id, direction, a, i);
        lemma_goes_to(v, after, i);
    }
}

/// A focus that moves goes to some tile.
proof fn lemma_focus_has_a_target<W: LayoutElement>(
    v: CanvasView<W>,
    direction: SpatialDirection,
    after: CanvasView<W>,
    id: u64,
) -> (i: int)
    requires
        v.focused(direction, after),
        v.active_id == Some(id),
        exists|i: int| #[trigger] is_focus_target(v.tiles, id, direction, i),
    ensures
        is_focus_target(v.tiles, id, direction, i),
        after == (CanvasView { active_id: Some(v.tiles[i].id()), ..v }).active_shown(),
{
    choose|i: int| #[trigger]
        is_focus_target(v.tiles, id, direction, i) && after == (CanvasView {
            active_id: Some(v.tiles[i].id()),
            ..v
        }).active_shown()
}

/// Whether `after` is `v` with the window in the tile at `i` active and brought into view.
pub open spec fn goes_to<W: LayoutElement>(v: CanvasView<W>, after: CanvasView<W>, i: int) -> bool {
    let tile = v.tiles[i];
    &&& after == (CanvasView {
        active_id: Some(tile.window.state().id),
        view_offset_x: after.view_offset_x,
        view_offset_y: after.view_offset_y,
        ..v
    })
    &&& comes_into_view(
        v.view_offset_x,
        after.view_offset_x,
        tile.canvas_pos.x,
        tile.tile_size.w,
        v.view_size.w,
        v.options,
    )
    &&& comes_into_view(
        v.view_offset_y,
        after.view_offset_y,
        tile.canvas_pos.y,
        tile.tile_size.h,
        v.view_size.h,
        v.options,
    )
}

/// Activating a tile and bringing it into view.
proof fn lemma_goes_to<W: LayoutElement>(v: CanvasView<W>, after: CanvasView<W>, i: int)
    requires
        0 <= i < v.tiles.len(),
        forall|j: int, k: int|
            0 <= j < v.tiles.len() && 0 <= k < v.tiles.len() && j != k ==> (
            #[trigger] v.tiles[j]).window.state().id != (#[trigger] v.tiles[k]).window.state().id,
        after == (CanvasView { active_id: Some(v.tiles[i].id()), ..v }).active_shown(),
    ensures
        goes_to(v, after, i),
{
    let there = CanvasView { active_id: Some(v.tiles[i].id()), ..v };
    assert(is_at(there, v.tiles[i].id(), i)) by {
        assert forall|k: int| 0 <= k < i implies (#[trigger] there.tiles[k]).window.state().id
            != v.tiles[i].id() by {
            assert(v.tiles[k].window.state().id != v.tiles[i].window.state().id);
        }
    }
    law_active_tile_comes_into_view(there, v.tiles[i].id(), i);
}

/// Without an active window the focus goes nowhere.
pub proof fn law_focus_starts_from_the_active_window<W: LayoutElement>(
    v: CanvasView<W>,
    direction: SpatialDirection,
    after: CanvasView<W>,
)
    requires
        v.focused(direction, after),
        v.active_id matches Some(id) ==> is_absent(v, id),
    ensures
        after == v,
{
    if v.active_id is Some {
        let id = v.active_id->0;
        if exists|i: int| #[trigger] is_focus_target(v.tiles, id, direction, i) {
            let i = choose|i: int| #[trigger] is_focus_target(v.tiles, id, direction, i);
            let a = choose|a: int| #[trigger] is_last(v.tiles, id, a);
            assert(v.tiles[a].window.state().id == id);
        }
    }
}

// --- gestures ---

/// A gesture begins with the size that its window is drawn at and the edges given, and stops the
/// camera where it stands. Nothing else changes. None begins while one is in flight.
pub proof fn law_gestures_begin<W: LayoutElement>(
    v: CanvasView<W>,
    window: u64,
    edges: ResizeEdge,
    i: int,
)
    requires
        is_at(v, window, i),
    ensures
        v.can_resize(window) <==> v.interactive_resize is None,
        v.interactive_resize is Some ==> v.resize_begun(window, edges) == v,
        v.interactive_resize is None ==> v.resize_begun(window, edges) == (CanvasView {
            interactive_resize: Some(
                InteractiveResize {
                    window,
                    original_window_size: v.tiles[i].window_size,
                    edges,
                },
            ),
            view_offset_x: AxisCamera::Static(stands_at(v.view_offset_x)),
            view_offset_y: AxisCamera::Static(stands_at(v.view_offset_y)),
            ..v
        }),
{
    lemma_found(v, window, i);
}

/// A gesture ends for its own window or for none in particular, and nothing else changes. A gesture
/// is followed only for its own window.
pub proof fn law_gestures_end<W: LayoutElement>(
    v: CanvasView<W>,
    window: u64,
    delta: Point,
    after: CanvasView<W>,
)
    ensures
        ({
            let own = v.interactive_resize is Some && v.interactive_resize->0.window == window;
            let ended = CanvasView { interactive_resize: None::<InteractiveResize>, ..v };
            &&& v.resizes(window) <==> own
            &&& v.resize_ended(None) == ended
            &&& own ==> v.resize_ended(Some(window)) == ended
            &&& !own ==> v.resize_ended(Some(window)) == v
            &&& !own ==> (v.resize_followed(window, delta, after) <==> after == v)
        }),
{
}

// --- the clock ---

/// Whether `after` is `before` at the moment of `sample`: a spring that is done is at rest at its
/// end, one that is not stands where it was sampled and goes on, and what is at rest stays.
pub open spec fn moves_on(
    before: AxisCamera,
    after: AxisCamera,
    sample: AnimationSample,
) -> bool {
    match before {
        AxisCamera::Static(_) => after == before,
        AxisCamera::Animation(spring) => if sample.is_done {
            after == AxisCamera::Static(spring.to)
        } else {
            after == AxisCamera::Animation(Animation { value: sample.value, ..spring })
        },
    }
}

/// Whether `after` is `before` with what was measured, its window, its place, its picture and its
/// configuration being what they were.
pub open spec fn is_measured<W>(before: Tile<W>, after: Tile<W>, measures: TileMeasures) -> bool {
    after == (Tile {
        tile_size: measures.tile_size,
        expected_or_current_size: measures.expected_or_current_size,
        window_size: measures.window_size,
        frame: measures.frame,
        render_offset: measures.render_offset,
        animations_ongoing: measures.animations_ongoing,
        transitions_ongoing: measures.transitions_ongoing,
        is_valid: measures.is_valid,
        ..before
    })
}

/// The clock moves each axis of the camera on by its own sample, every tile by its own measures,
/// and keeps the closing windows that still run. Nothing else changes.
pub proof fn law_the_clock_moves_everything_on<W: LayoutElement>(
    v: CanvasView<W>,
    x: AnimationSample,
    y: AnimationSample,
    advanced: Seq<TileMeasures>,
    ongoing: Seq<bool>,
)
    requires
        advanced.len() == v.tiles.len(),
    ensures
        ({
            let after = v.sampled(x, y, advanced, ongoing);
            &&& after == (CanvasView {
                tiles: after.tiles,
                view_offset_x: after.view_offset_x,
                view_offset_y: after.view_offset_y,
                closing_windows: after.closing_windows,
                ..v
            })
            &&& moves_on(v.view_offset_x, after.view_offset_x, x)
            &&& moves_on(v.view_offset_y, after.view_offset_y, y)
            &&& after.tiles.len() == v.tiles.len()
            &&& forall|k: int|
                0 <= k < v.tiles.len() ==> is_measured(
                    v.tiles[k],
                    #[trigger] after.tiles[k],
                    advanced[k],
                )
            &&& after.closing_windows == still_running(v.closing_windows, ongoing)
        }),
{
}

/// One more closing window is kept, after the others, exactly if it still runs, and has no say in
/// whether the others are.
pub proof fn law_closing_windows_are_kept_one_by_one(
    closing: Seq<ClosingWindow>,
    ongoing: Seq<bool>,
    window: ClosingWindow,
    runs: bool,
)
    requires
        closing.len() == ongoing.len(),
    ensures
        closing.len() == 0 ==> still_running(closing, ongoing).len() == 0,
        still_running(closing.push(window), ongoing.push(runs)) == if runs {
            still_running(closing, ongoing).push(window)
        } else {
            still_running(closing, ongoing)
        },
{
    assert(closing.push(window).drop_last() =~= closing);
    assert(ongoing.push(runs).drop_last() =~= ongoing);
}

/// Sampling the camera moves its springs to where they stand and leaves all else, their ends too.
/// A closing window is taken on last.
pub proof fn law_samples_and_closing_windows_are_taken_on<W: LayoutElement>(
    v: CanvasView<W>,
    x: Float,
    y: Float,
    closing: ClosingWindow,
)
    ensures
        ({
            let after = v.standing_at(x, y);
            &&& after == (CanvasView {
                view_offset_x: after.view_offset_x,
                view_offset_y: after.view_offset_y,
                ..v
            })
            &&& moves_on(
                v.view_offset_x,
                after.view_offset_x,
                AnimationSample { value: x, is_done: false },
            )
            &&& moves_on(
                v.view_offset_y,
                after.view_offset_y,
                AnimationSample { value: y, is_done: false },
            )
            &&& v.with_closing(None) == v
            &&& v.with_closing(Some(closing)) == (CanvasView {
                closing_windows: v.closing_windows.push(closing),
                ..v
            })
        }),
{
}

/// Something is ongoing while the camera is on a spring, a tile says so, or a window is closing.
pub proof fn law_ongoing_says<W: LayoutElement>(v: CanvasView<W>)
    ensures
        ({
            let camera = !(v.view_offset_x is Static && v.view_offset_y is Static);
            let closing = v.closing_windows.len() > 0;
            &&& v.animations_ongoing() <==> camera || closing || exists|k: int|
                0 <= k < v.tiles.len() && (#[trigger] v.tiles[k]).animations_ongoing
            &&& v.transitions_ongoing() <==> camera || closing || exists|k: int|
                0 <= k < v.tiles.len() && (#[trigger] v.tiles[k]).transitions_ongoing
        }),
{
}

/// A window that is updated is what its commit made of it, or as it was without one, in a tile that
/// is measured anew; no other tile changes, and nothing else.
pub proof fn law_updates_stay_in_their_tile<W: LayoutElement>(
    v: CanvasView<W>,
    i: int,
    serial: Option<u32>,
    window: W,
    measures: TileMeasures,
)
    requires
        0 <= i < v.tiles.len(),
    ensures
        ({
            let after = v.updated(i, window, measures);
            &&& v.committed(i, serial, window) <==> match serial {
                Some(serial) => W::commit_noted(v.tiles[i].window, serial, window)
                    && window.state().id == v.tiles[i].window.state().id,
                None => window == v.tiles[i].window,
            }
            &&& after == (CanvasView { tiles: after.tiles, ..v })
            &&& after.tiles.len() == v.tiles.len()
            &&& after.tiles[i].window == window
            &&& is_measured(Tile { window, ..v.tiles[i] }, after.tiles[i], measures)
            &&& forall|k: int|
                0 <= k < v.tiles.len() && k != i ==> #[trigger] after.tiles[k] == v.tiles[k]
        }),
{
}

} // verus!
