//! What holds of a canvas across operations.

use crate::camera::{AnimationSample, AxisCamera};
use crate::float::{
    lemma_add_exact, lemma_add_monotone, lemma_div_monotone, lemma_neg, lemma_quotient_is_sum,
    lemma_times_one, lemma_whole, lemma_whole_is_whole, Float, UNIT_EXPONENT,
};
use crate::focus::{is_focus_target, SpatialDirection};
use crate::geometry::{Point, Rectangle, Size};
use crate::rounding::{
    lemma_nearest_exact, lemma_nearest_exists, lemma_nearest_is_monotone, lemma_pattern_order,
    magnitude, nearest,
};
use crate::sizing::{
    changed_side, law_whole_pixels_are_bounded, lemma_whole_order, whole_pixels, SizeChange, MAX_F,
    MAX_PX,
};
use crate::state::{
    downward, dragged_side, first, hit_point, holds, is_first, leftward, rightward, screen_base,
    shown, still_running, upward, CanvasView, ClosingWindow, OverviewFit, RenderCommand, ResizeEdge,
    TransactionBlocker, DIRECTIONAL_MOVE_PX,
};
use crate::tile::{LayoutElement, Options, Tile, TileMeasures};
use vstd::arithmetic::power2::{lemma_pow2_pos, pow2};
use vstd::prelude::*;

verus! {

// --- tiles and focus ---

/// What a tile list holds is found where it first stands.
pub(crate) proof fn lemma_first<W: LayoutElement>(tiles: Seq<Tile<W>>, id: u64)
    requires
        holds(tiles, id),
    ensures
        is_first(tiles, id, first(tiles, id)),
{
    let i = choose|i: int| 0 <= i < tiles.len() && (#[trigger] tiles[i]).id() == id;
    lemma_first_upto(tiles, id, i);
}

/// If the window stands at `i`, there is a first place where it does.
proof fn lemma_first_upto<W: LayoutElement>(tiles: Seq<Tile<W>>, id: u64, i: int)
    requires
        0 <= i < tiles.len(),
        tiles[i].id() == id,
    ensures
        exists|k: int| is_first(tiles, id, k),
    decreases i,
{
    if is_first(tiles, id, i) {
    } else {
        let j = choose|j: int| 0 <= j < i && (#[trigger] tiles[j]).id() == id;
        lemma_first_upto(tiles, id, j);
    }
}

/// Lists with the same ids in the same places hold the same windows.
pub(crate) proof fn lemma_same_ids<W: LayoutElement>(a: Seq<Tile<W>>, b: Seq<Tile<W>>)
    requires
        a.len() == b.len(),
        forall|i: int| 0 <= i < a.len() ==> (#[trigger] a[i]).id() == b[i].id(),
    ensures
        forall|id: u64| holds(a, id) <==> holds(b, id),
{
    assert forall|id: u64| holds(a, id) <==> holds(b, id) by {
        if holds(a, id) {
            let i = choose|i: int| 0 <= i < a.len() && (#[trigger] a[i]).id() == id;
            assert(b[i].id() == id);
        }
        if holds(b, id) {
            let i = choose|i: int| 0 <= i < b.len() && (#[trigger] b[i]).id() == id;
            assert(a[i].id() == id);
        }
    }
}

/// There is always an active tile while there are tiles, and none when there are not: adding,
/// removing, activating and moving tiles keep it so.
pub proof fn law_tile_operations_keep_the_focus<W: LayoutElement>(
    v: CanvasView<W>,
    tile: Tile<W>,
    id: u64,
    pos: Point,
)
    requires
        v.has_focus(),
    ensures
        v.added(tile, pos).has_focus(),
        v.removed(id).has_focus(),
        v.activated(id).has_focus(),
        v.moved(id, pos).has_focus(),
        v.active_moved(pos).has_focus(),
{
    let added = v.added(tile, pos).tiles;
    assert(added[added.len() - 1].id() == tile.id());
    if v.holds(id) {
        lemma_first(v.tiles, id);
        let k = first(v.tiles, id);
        let rest = v.tiles.remove(k);
        if v.active_id == Some(id) {
            if rest.len() > 0 {
                assert(holds(rest, rest[0].id()));
            }
        } else {
            let active = v.active_id->0;
            let i = choose|i: int| 0 <= i < v.tiles.len() && (#[trigger] v.tiles[i]).id() == active;
            if i < k {
                assert(rest[i].id() == active);
            } else {
                assert(rest[i - 1].id() == active);
            }
        }
        lemma_same_ids(v.tiles, v.moved(id, pos).tiles);
    }
    if v.active() is Some {
        lemma_first(v.tiles, v.active_id->0);
        lemma_same_ids(v.tiles, v.active_moved(pos).tiles);
    }
}

/// What the camera, the configuration, resize gestures and the clock do leaves every tile's window
/// and position, and which one is active, as they were.
pub proof fn law_other_operations_leave_tiles_in_place<W: LayoutElement>(
    v: CanvasView<W>,
    pos: Point,
    window: u64,
    edges: ResizeEdge,
    ended: Option<u64>,
    x: AnimationSample,
    y: AnimationSample,
    advanced: Seq<TileMeasures>,
    ongoing: Seq<bool>,
    view_size: Size,
    working_area: Rectangle,
    scale: Float,
    options: Options,
)
    ensures
        v.viewed_at(pos).tiles == v.tiles && v.viewed_at(pos).active_id == v.active_id,
        v.headed_x(pos.x).tiles == v.tiles && v.headed_x(pos.x).active_id == v.active_id,
        v.headed_y(pos.y).tiles == v.tiles && v.headed_y(pos.y).active_id == v.active_id,
        v.panned(pos.x, pos.y).tiles == v.tiles && v.panned(pos.x, pos.y).active_id == v.active_id,
        v.active_shown().tiles == v.tiles && v.active_shown().active_id == v.active_id,
        v.standing_at(pos.x, pos.y).tiles == v.tiles && v.standing_at(pos.x, pos.y).active_id
            == v.active_id,
        v.resize_begun(window, edges).tiles == v.tiles && v.resize_begun(window, edges).active_id
            == v.active_id,
        v.resize_ended(ended).tiles == v.tiles && v.resize_ended(ended).active_id == v.active_id,
        ({
            let after = v.sampled(x, y, advanced, ongoing);
            &&& after.active_id == v.active_id
            &&& after.tiles.len() == v.tiles.len()
            &&& forall|i: int|
                0 <= i < v.tiles.len() ==> (#[trigger] after.tiles[i]).window == v.tiles[i].window
                    && after.tiles[i].canvas_pos == v.tiles[i].canvas_pos
        }),
        ({
            let configured = v.configured(view_size, working_area, scale, options);
            &&& configured.active_id == v.active_id
            &&& configured.tiles.len() == v.tiles.len()
            &&& forall|i: int|
                0 <= i < v.tiles.len() ==> (#[trigger] configured.tiles[i]).window
                    == v.tiles[i].window && configured.tiles[i].canvas_pos == v.tiles[i].canvas_pos
        }),
{
}

/// A tile whose window changes but keeps its id stays what it is to the canvas.
pub proof fn law_window_changes_keep_the_invariants<W: LayoutElement>(
    v: CanvasView<W>,
    k: int,
    window: W,
)
    requires
        0 <= k < v.tiles.len(),
        window.state().id == v.tiles[k].id(),
    ensures
        forall|i: int|
            0 <= i < v.tiles.len() ==> (#[trigger] v.with_window(k, window).tiles[i]).id()
                == v.tiles[i].id() && v.with_window(k, window).tiles[i].canvas_pos
                == v.tiles[i].canvas_pos,
        v.has_focus() ==> v.with_window(k, window).has_focus(),
        v.invariants_hold() ==> v.with_window(k, window).invariants_hold(),
{
    let after = v.with_window(k, window);
    lemma_same_ids(v.tiles, after.tiles);
    if v.invariants_hold() {
        assert forall|i: int| 0 <= i < after.tiles.len() implies after.is_sound(
            #[trigger] after.tiles[i],
        ) by {
            assert(v.is_sound(v.tiles[i]));
        }
    }
}

/// Asking windows for a size keeps ids, positions, the focus and the invariants.
pub proof fn law_requests_keep_the_invariants<W: LayoutElement>(
    v: CanvasView<W>,
    id: Option<u64>,
    change: SizeChange,
    animate: bool,
    after: CanvasView<W>,
)
    requires
        v.width_set(id, change, animate, after) || v.height_set(id, change, animate, after),
    ensures
        after.active_id == v.active_id,
        after.tiles.len() == v.tiles.len(),
        forall|i: int|
            0 <= i < v.tiles.len() ==> (#[trigger] after.tiles[i]).id() == v.tiles[i].id()
                && after.tiles[i].canvas_pos == v.tiles[i].canvas_pos,
        v.has_focus() ==> after.has_focus(),
        v.invariants_hold() ==> after.invariants_hold(),
{
    match v.subject(id) {
        Some(i) => {
            match id {
                Some(id) => lemma_first(v.tiles, id),
                None => lemma_first(v.tiles, v.active_id->0),
            }
            law_window_changes_keep_the_invariants(v, i, after.tiles[i].window);
        },
        None => {},
    }
}

/// Following the pointer of a resize gesture keeps ids, positions, the focus and the invariants.
pub proof fn law_resizing_keeps_the_invariants<W: LayoutElement>(
    v: CanvasView<W>,
    window: u64,
    delta: Point,
    after: CanvasView<W>,
)
    requires
        v.resize_followed(window, delta, after),
    ensures
        after.active_id == v.active_id,
        after.tiles.len() == v.tiles.len(),
        forall|i: int|
            0 <= i < v.tiles.len() ==> (#[trigger] after.tiles[i]).id() == v.tiles[i].id()
                && after.tiles[i].canvas_pos == v.tiles[i].canvas_pos,
        v.has_focus() ==> after.has_focus(),
        v.invariants_hold() ==> after.invariants_hold(),
{
    if v.resizes(window) {
        let resize = v.interactive_resize->0;
        let size = resize.original_window_size;
        let edges = resize.edges;
        let mid = choose|mid: CanvasView<W>|
            #![trigger v.width_followed(resize, delta.x, mid)]
            v.width_followed(resize, delta.x, mid) && mid.height_followed(resize, delta.y, after);
        if edges.left || edges.right {
            let change = SizeChange::SetFixed(dragged_side(size.w, delta.x, edges.left));
            law_requests_keep_the_invariants(v, Some(window), change, false, mid);
        }
        if edges.top || edges.bottom {
            let change = SizeChange::SetFixed(dragged_side(size.h, delta.y, edges.top));
            law_requests_keep_the_invariants(mid, Some(window), change, false, after);
        }
        assert forall|i: int| 0 <= i < v.tiles.len() implies (#[trigger] after.tiles[i]).id()
            == v.tiles[i].id() && after.tiles[i].canvas_pos == v.tiles[i].canvas_pos by {
            assert(mid.tiles[i].id() == v.tiles[i].id());
        }
    }
}

/// Moving the focus goes to another tile that is there, and keeps the invariants.
pub proof fn law_focusing_keeps_the_invariants<W: LayoutElement>(
    v: CanvasView<W>,
    direction: SpatialDirection,
    i: int,
)
    requires
        v.active_id is Some,
        is_focus_target(v.tiles, v.active_id->0, direction, i),
    ensures
        v.tiles[i].id() != v.active_id->0,
        (CanvasView { active_id: Some(v.tiles[i].id()), ..v }).active_shown().has_focus(),
        v.invariants_hold() ==> (CanvasView {
            active_id: Some(v.tiles[i].id()),
            ..v
        }).active_shown().invariants_hold(),
{
    let there = CanvasView { active_id: Some(v.tiles[i].id()), ..v };
    assert(holds(v.tiles, v.tiles[i].id()));
    if v.invariants_hold() {
        assert forall|k: int| 0 <= k < there.tiles.len() implies there.is_sound(
            #[trigger] there.tiles[k],
        ) by {
            assert(v.is_sound(v.tiles[k]));
        }
        lemma_camera_keeps_invariants(there, there.active_shown());
    }
}

/// A new canvas has no tile and none active, and with a positive scale it meets every invariant.
pub proof fn law_new_canvas_meets_the_invariants<W: LayoutElement>(
    view_size: Size,
    working_area: Rectangle,
    scale: Float,
    options: Options,
)
    ensures
        CanvasView::<W>::empty(view_size, working_area, scale, options).has_focus(),
        Float::whole(0).spec_lt(scale) && scale.spec_is_finite() ==> CanvasView::<W>::empty(
            view_size,
            working_area,
            scale,
            options,
        ).invariants_hold(),
{
}

/// What the camera, resize gestures and closing windows do keeps the invariants and the focus.
pub proof fn law_gestures_keep_the_invariants<W: LayoutElement>(
    v: CanvasView<W>,
    pos: Point,
    window: u64,
    edges: ResizeEdge,
    ended: Option<u64>,
    made: Option<ClosingWindow>,
)
    requires
        v.invariants_hold(),
        v.has_focus(),
    ensures
        v.viewed_at(pos).invariants_hold() && v.viewed_at(pos).has_focus(),
        v.headed_x(pos.x).invariants_hold() && v.headed_x(pos.x).has_focus(),
        v.headed_y(pos.y).invariants_hold() && v.headed_y(pos.y).has_focus(),
        v.panned(pos.x, pos.y).invariants_hold() && v.panned(pos.x, pos.y).has_focus(),
        v.active_shown().invariants_hold() && v.active_shown().has_focus(),
        v.resize_begun(window, edges).invariants_hold() && v.resize_begun(
            window,
            edges,
        ).has_focus(),
        v.resize_ended(ended).invariants_hold() && v.resize_ended(ended).has_focus(),
        v.standing_at(pos.x, pos.y).invariants_hold() && v.standing_at(pos.x, pos.y).has_focus(),
        v.with_closing(made).invariants_hold() && v.with_closing(made).has_focus(),
        v.picture_taken(window).invariants_hold() && v.picture_taken(window).has_focus(),
{
    lemma_camera_keeps_invariants(v, v.viewed_at(pos));
    lemma_camera_keeps_invariants(v, v.headed_x(pos.x));
    lemma_camera_keeps_invariants(v, v.headed_y(pos.y));
    lemma_camera_keeps_invariants(v, v.panned(pos.x, pos.y));
    lemma_camera_keeps_invariants(v, v.active_shown());
    lemma_camera_keeps_invariants(v, v.resize_begun(window, edges));
    lemma_camera_keeps_invariants(v, v.resize_ended(ended));
    lemma_camera_keeps_invariants(v, v.standing_at(pos.x, pos.y));
    lemma_camera_keeps_invariants(v, v.with_closing(made));
    if v.holds(window) {
        lemma_first(v.tiles, window);
        let after = v.picture_taken(window);
        lemma_same_ids(v.tiles, after.tiles);
        assert forall|i: int| 0 <= i < after.tiles.len() implies after.is_sound(
            #[trigger] after.tiles[i],
        ) by {
            assert(v.is_sound(v.tiles[i]));
        }
    }
}

/// The clock and new measures keep the focus, and the invariants if the measured tiles keep theirs.
pub proof fn law_measuring_keeps_the_invariants<W: LayoutElement>(
    v: CanvasView<W>,
    x: AnimationSample,
    y: AnimationSample,
    advanced: Seq<TileMeasures>,
    ongoing: Seq<bool>,
    k: int,
    window: W,
    measures: TileMeasures,
)
    requires
        advanced.len() == v.tiles.len(),
        0 <= k < v.tiles.len() ==> window.state().id == v.tiles[k].id(),
    ensures
        v.has_focus() ==> v.sampled(x, y, advanced, ongoing).has_focus(),
        v.has_focus() && 0 <= k < v.tiles.len() ==> v.updated(k, window, measures).has_focus(),
        v.invariants_hold() && (forall|i: int|
            0 <= i < advanced.len() ==> (#[trigger] advanced[i]).is_valid) ==> v.sampled(
            x,
            y,
            advanced,
            ongoing,
        ).invariants_hold(),
        v.invariants_hold() && 0 <= k < v.tiles.len() && measures.is_valid ==> v.updated(
            k,
            window,
            measures,
        ).invariants_hold(),
{
    let after = v.sampled(x, y, advanced, ongoing);
    lemma_same_ids(v.tiles, after.tiles);
    if v.invariants_hold() && (forall|i: int|
        0 <= i < advanced.len() ==> (#[trigger] advanced[i]).is_valid) {
        assert forall|i: int| 0 <= i < after.tiles.len() implies after.is_sound(
            #[trigger] after.tiles[i],
        ) by {
            assert(v.is_sound(v.tiles[i]) && advanced[i].is_valid);
        }
        lemma_unique_ids(v, after);
    }
    if 0 <= k < v.tiles.len() {
        let after = v.updated(k, window, measures);
        lemma_same_ids(v.tiles, after.tiles);
        if v.invariants_hold() && measures.is_valid {
            assert forall|i: int| 0 <= i < after.tiles.len() implies after.is_sound(
                #[trigger] after.tiles[i],
            ) by {
                assert(v.is_sound(v.tiles[i]));
            }
            lemma_unique_ids(v, after);
        }
    }
}

/// Ids that stay in their places stay unique.
pub(crate) proof fn lemma_unique_ids<W: LayoutElement>(v: CanvasView<W>, after: CanvasView<W>)
    requires
        v.ids_are_unique(),
        after.tiles.len() == v.tiles.len(),
        forall|i: int|
            0 <= i < v.tiles.len() ==> (#[trigger] after.tiles[i]).id() == v.tiles[i].id(),
    ensures
        after.ids_are_unique(),
{
    assert forall|i: int, j: int| 0 <= i < j < after.tiles.len() implies (
    #[trigger] after.tiles[i]).id() != (#[trigger] after.tiles[j]).id() by {
        assert(v.tiles[i].id() != v.tiles[j].id());
    }
}

/// Adding a tile that is new and has the configuration of the canvas, and removing, activating and
/// moving tiles, keep the invariants.
pub proof fn law_invariants_are_kept<W: LayoutElement>(
    v: CanvasView<W>,
    tile: Tile<W>,
    id: u64,
    pos: Point,
)
    requires
        v.invariants_hold(),
    ensures
        !v.holds(tile.id()) && v.is_sound(tile) ==> v.added(tile, pos).invariants_hold(),
        v.removed(id).invariants_hold(),
        v.activated(id).invariants_hold(),
        v.moved(id, pos).invariants_hold(),
        v.active_moved(pos).invariants_hold(),
{
    let added = v.added(tile, pos);
    if !v.holds(tile.id()) && v.is_sound(tile) {
        assert(added.tiles[added.tiles.len() - 1].id() == tile.id());
        assert forall|i: int| 0 <= i < added.tiles.len() implies added.is_sound(
            #[trigger] added.tiles[i],
        ) by {
            if i < v.tiles.len() {
                assert(v.is_sound(v.tiles[i]));
            }
        }
        assert(added.ids_are_unique());
    }
    lemma_removal_keeps_invariants(v, id);
    if v.holds(id) {
        lemma_first(v.tiles, id);
        lemma_move_keeps_invariants(v, first(v.tiles, id), pos);
    }
    if v.active() is Some {
        lemma_first(v.tiles, v.active_id->0);
        let i = first(v.tiles, v.active_id->0);
        lemma_move_keeps_invariants(v, i, v.tiles[i].canvas_pos.spec_add(pos));
        lemma_camera_keeps_invariants(
            v.with_position(i, v.tiles[i].canvas_pos.spec_add(pos)),
            v.active_moved(pos),
        );
    }
}

/// The invariants speak of tiles, the focus and the configuration alone.
proof fn lemma_camera_keeps_invariants<W: LayoutElement>(v: CanvasView<W>, after: CanvasView<W>)
    requires
        v.invariants_hold(),
        after.tiles == v.tiles,
        after.active_id == v.active_id,
        after.scale == v.scale,
        after.view_size == v.view_size,
        after.options == v.options,
    ensures
        after.invariants_hold(),
{
    assert forall|i: int| 0 <= i < after.tiles.len() implies after.is_sound(
        #[trigger] after.tiles[i],
    ) by {
        assert(v.is_sound(v.tiles[i]));
    }
}

proof fn lemma_move_keeps_invariants<W: LayoutElement>(v: CanvasView<W>, k: int, pos: Point)
    requires
        v.invariants_hold(),
        0 <= k < v.tiles.len(),
    ensures
        v.with_position(k, pos).invariants_hold(),
{
    let after = v.with_position(k, pos);
    lemma_same_ids(v.tiles, after.tiles);
    assert forall|i: int| 0 <= i < after.tiles.len() implies after.is_sound(
        #[trigger] after.tiles[i],
    ) by {
        assert(v.is_sound(v.tiles[i]));
    }
}

proof fn lemma_removal_keeps_invariants<W: LayoutElement>(v: CanvasView<W>, id: u64)
    requires
        v.invariants_hold(),
    ensures
        v.removed(id).invariants_hold(),
{
    if v.holds(id) {
        lemma_first(v.tiles, id);
        let k = first(v.tiles, id);
        let after = v.removed(id);
        let rest = after.tiles;
        assert forall|i: int| 0 <= i < rest.len() implies after.is_sound(#[trigger] rest[i]) by {
            let from = if i < k {
                i
            } else {
                i + 1
            };
            assert(v.is_sound(v.tiles[from]));
        }
        assert(after.ids_are_unique()) by {
            assert forall|i: int, j: int| 0 <= i < j < rest.len() implies (
            #[trigger] rest[i]).id() != (#[trigger] rest[j]).id() by {
                let a = if i < k {
                    i
                } else {
                    i + 1
                };
                let b = if j < k {
                    j
                } else {
                    j + 1
                };
                assert(v.tiles[a].id() != v.tiles[b].id());
            }
        }
        if v.active_id == Some(id) {
            if rest.len() > 0 {
                assert(holds(rest, rest[0].id()));
            }
        } else if v.active_id is Some {
            let active = v.active_id->0;
            let i = choose|i: int| 0 <= i < v.tiles.len() && (#[trigger] v.tiles[i]).id() == active;
            if i < k {
                assert(rest[i].id() == active);
            } else {
                assert(rest[i - 1].id() == active);
            }
        }
    }
}

/// After a new configuration with a positive scale, all tiles agree with the canvas: if they keep
/// what they must themselves, the invariants hold.
pub proof fn law_configuration_reaches_every_tile<W: LayoutElement>(
    v: CanvasView<W>,
    view_size: Size,
    working_area: Rectangle,
    scale: Float,
    options: Options,
)
    requires
        v.ids_are_unique(),
        v.active_id matches Some(id) ==> v.holds(id),
        forall|i: int| 0 <= i < v.tiles.len() ==> (#[trigger] v.tiles[i]).is_valid,
        Float::whole(0).spec_lt(scale),
        scale.spec_is_finite(),
        !view_size.w.spec_is_nan(),
        !view_size.h.spec_is_nan(),
    ensures
        v.configured(view_size, working_area, scale, options).invariants_hold(),
{
    let after = v.configured(view_size, working_area, scale, options);
    lemma_same_ids(v.tiles, after.tiles);
    assert(after.ids_are_unique()) by {
        assert forall|i: int, j: int| 0 <= i < j < after.tiles.len() implies (
        #[trigger] after.tiles[i]).id() != (#[trigger] after.tiles[j]).id() by {
            assert(v.tiles[i].id() != v.tiles[j].id());
        }
    }
}

/// Removing a tile that was just added gives the other tiles back as they were, with the first of
/// them active.
pub proof fn law_removal_undoes_addition<W: LayoutElement>(
    v: CanvasView<W>,
    tile: Tile<W>,
    pos: Point,
)
    requires
        !v.holds(tile.id()),
    ensures
        first(v.added(tile, pos).tiles, tile.id()) == v.tiles.len(),
        v.added(tile, pos).removed(tile.id()) == (CanvasView {
            active_id: if v.tiles.len() > 0 {
                Some(v.tiles[0].id())
            } else {
                None
            },
            ..v
        }),
{
    let added = v.added(tile, pos).tiles;
    let n = v.tiles.len() as int;
    assert(added[n].id() == tile.id());
    assert(holds(added, tile.id()));
    lemma_first(added, tile.id());
    let k = first(added, tile.id());
    if k < n {
        assert(v.tiles[k].id() == tile.id());
    }
    assert(added.remove(n) =~= v.tiles);
}

/// Activating a window makes it the active one, and doing so again changes nothing.
pub proof fn law_activation_takes_effect<W: LayoutElement>(v: CanvasView<W>, id: u64)
    requires
        v.holds(id),
    ensures
        v.activated(id).active() == Some(first(v.tiles, id)),
        v.tiles[first(v.tiles, id)].id() == id,
        v.activated(id).activated(id) == v.activated(id),
{
    lemma_first(v.tiles, id);
}

// --- camera ---

/// A jump puts the camera at rest where it was sent.
pub proof fn law_jump_arrives<W: LayoutElement>(v: CanvasView<W>, pos: Point)
    ensures
        v.viewed_at(pos).view_pos() == pos,
        v.viewed_at(pos).target_view_pos() == pos,
        v.viewed_at(pos).view_offset_x is Static,
        v.viewed_at(pos).view_offset_y is Static,
{
}

/// A camera that heads for a number has it as its target, starts from where it stands, is not
/// headed anew for the same number, and comes to rest there once its spring is done.
pub proof fn law_heading_arrives(
    camera: AxisCamera,
    to: Float,
    options: Options,
    sample: AnimationSample,
)
    requires
        !to.spec_is_nan(),
    ensures
        ({
            let headed = camera.headed(to, options.horizontal_view_movement);
            &&& headed.spec_target().spec_same(to)
            &&& headed.spec_current() == camera.spec_current()
            &&& headed.headed(to, options.horizontal_view_movement) == headed
            &&& sample.is_done ==> headed.sampled(sample) is Static
            &&& sample.is_done ==> headed.sampled(sample).spec_current().spec_same(to)
        }),
{
}

/// Panning by nothing does nothing, and each axis is panned by itself.
pub proof fn law_pan_is_per_axis<W: LayoutElement>(v: CanvasView<W>, dx: Float, dy: Float)
    ensures
        v.panned(Float::whole(0), Float::whole(0)) == v,
        v.panned(dx, Float::whole(0)).view_offset_y == v.view_offset_y,
        v.panned(Float::whole(0), dy).view_offset_x == v.view_offset_x,
        v.panned(dx, dy).view_offset_x == v.panned(dx, Float::whole(0)).view_offset_x,
        v.panned(dx, dy).view_offset_y == v.panned(Float::whole(0), dy).view_offset_y,
{
    lemma_whole(0);
}

/// The camera only pans where needed: an axis on which the target view already shows the tile is
/// left as it is.
pub proof fn law_pans_only_where_needed(
    camera: AxisCamera,
    pos: Float,
    size: Float,
    view: Float,
    options: Options,
)
    requires
        !pos.spec_lt(camera.spec_target()),
        !camera.spec_target().spec_add(view).spec_lt(pos.spec_add(size)),
    ensures
        shown(camera, pos, size, view, options) == camera,
{
}

/// A tile that fits the view is inside of it once the camera is headed to show it, and showing it
/// again changes nothing. Where the camera heads for the far edge, that edge and where the view
/// then starts have to be numbers that the format holds: a rounded one can lie beside them.
pub proof fn law_tile_is_shown(
    camera: AxisCamera,
    pos: Float,
    size: Float,
    view: Float,
    options: Options,
)
    requires
        camera.spec_target().spec_is_finite(),
        pos.spec_is_finite(),
        size.spec_is_finite(),
        view.spec_is_finite(),
        size.units() <= view.units(),
        !pos.spec_lt(camera.spec_target()) && camera.spec_target().spec_add(view).spec_lt(
            pos.spec_add(size),
        ) ==> pos.adds_exactly(size) && pos.spec_add(size).subtracts_exactly(view),
    ensures
        ({
            let after = shown(camera, pos, size, view, options);
            let start = after.spec_target();
            &&& !pos.spec_lt(start)
            &&& !start.spec_add(view).spec_lt(pos.spec_add(size))
            &&& shown(after, pos, size, view, options) == after
        }),
{
    let after = shown(camera, pos, size, view, options);
    let end = pos.spec_add(size);
    let start = after.spec_target();
    if pos.spec_lt(camera.spec_target()) {
        assert(start == pos);
        lemma_add_monotone(pos, size, pos, view);
    } else if camera.spec_target().spec_add(view).spec_lt(end) {
        lemma_neg(view);
        let wanted = end.spec_sub(view);
        lemma_add_exact(wanted, view, end);
        if camera.spec_target().spec_same(wanted) {
            assert(camera.spec_target().units() + view.units() == end.units());
            lemma_add_exact(camera.spec_target(), view, end);
        }
    }
}

/// Bringing the active tile into view shows it on each axis by itself and keeps everything else.
pub proof fn law_active_tile_is_shown<W: LayoutElement>(v: CanvasView<W>)
    requires
        v.active() is Some,
    ensures
        ({
            let tile = v.tiles[v.active()->0];
            let after = v.active_shown();
            &&& after.view_offset_x == shown(
                v.view_offset_x,
                tile.canvas_pos.x,
                tile.tile_size.w,
                v.view_size.w,
                v.options,
            )
            &&& after.view_offset_y == shown(
                v.view_offset_y,
                tile.canvas_pos.y,
                tile.tile_size.h,
                v.view_size.h,
                v.options,
            )
            &&& after == (CanvasView {
                view_offset_x: after.view_offset_x,
                view_offset_y: after.view_offset_y,
                ..v
            })
            &&& after.view_pos() == v.view_pos()
        }),
{
}

/// On the screen tiles keep the order in which they stand on the canvas, and what the camera stands
/// on is at the origin.
pub proof fn law_screen_keeps_order(a: Point, b: Point, view_pos: Point)
    requires
        a.x.spec_is_finite() && a.y.spec_is_finite(),
        b.x.spec_is_finite() && b.y.spec_is_finite(),
        view_pos.x.spec_is_finite() && view_pos.y.spec_is_finite(),
    ensures
        !b.x.spec_lt(a.x) ==> !screen_base(b, view_pos).x.spec_lt(screen_base(a, view_pos).x),
        !b.y.spec_lt(a.y) ==> !screen_base(b, view_pos).y.spec_lt(screen_base(a, view_pos).y),
        screen_base(view_pos, view_pos).x.spec_same(Float::whole(0)),
        screen_base(view_pos, view_pos).y.spec_same(Float::whole(0)),
{
    lemma_neg(view_pos.x);
    lemma_neg(view_pos.y);
    lemma_whole(0);
    if a.x.units() <= b.x.units() {
        lemma_add_monotone(a.x, view_pos.x.spec_neg(), b.x, view_pos.x.spec_neg());
    }
    if a.y.units() <= b.y.units() {
        lemma_add_monotone(a.y, view_pos.y.spec_neg(), b.y, view_pos.y.spec_neg());
    }
    lemma_add_exact(view_pos.x, view_pos.x.spec_neg(), Float::whole(0));
    lemma_add_exact(view_pos.y, view_pos.y.spec_neg(), Float::whole(0));
}

/// The opposite step of `step`.
pub open spec fn opposite(step: Point) -> Point {
    Point { x: step.x.spec_neg(), y: step.y.spec_neg() }
}

/// Moving the active tile moves it by the amount and no other tile, and the opposite move brings it
/// back, where the first one is not rounded.
pub proof fn law_moves_cancel<W: LayoutElement>(v: CanvasView<W>, amount: Point)
    requires
        v.active() is Some,
    ensures
        ({
            let i = v.active()->0;
            let there = v.active_moved(amount);
            let back = there.active_moved(opposite(amount));
            let pos = v.tiles[i].canvas_pos;
            &&& there.active() == Some(i)
            &&& there.tiles[i].canvas_pos == pos.spec_add(amount)
            &&& forall|k: int|
                0 <= k < v.tiles.len() && k != i ==> #[trigger] there.tiles[k] == v.tiles[k]
                    && back.tiles[k] == v.tiles[k]
            &&& pos.x.adds_exactly(amount.x) ==> back.tiles[i].canvas_pos.x.spec_same(pos.x)
            &&& pos.y.adds_exactly(amount.y) ==> back.tiles[i].canvas_pos.y.spec_same(pos.y)
        }),
{
    let pos = v.tiles[v.active()->0].canvas_pos;
    lemma_two_moves(v, amount, opposite(amount));
    if pos.x.adds_exactly(amount.x) {
        lemma_steps_cancel(pos.x, amount.x);
    }
    if pos.y.adds_exactly(amount.y) {
        lemma_steps_cancel(pos.y, amount.y);
    }
}

/// Whether two moves, one after the other, leave the active tile where it was, and all others too.
pub open spec fn comes_back<W: LayoutElement>(
    v: CanvasView<W>,
    there: Point,
    back: Point,
) -> bool {
    let i = v.active()->0;
    let back = v.active_moved(there).active_moved(back);
    &&& back.active() == v.active()
    &&& back.tiles.len() == v.tiles.len()
    &&& back.tiles[i].canvas_pos.x.spec_same(v.tiles[i].canvas_pos.x)
    &&& back.tiles[i].canvas_pos.y.spec_same(v.tiles[i].canvas_pos.y)
    &&& forall|k: int|
        0 <= k < v.tiles.len() && k != i ==> #[trigger] back.tiles[k] == v.tiles[k]
}

/// A directional move and the one in the other direction bring the active tile back, where the
/// first one is not rounded.
pub proof fn law_directional_moves_cancel<W: LayoutElement>(v: CanvasView<W>)
    requires
        v.active() is Some,
        v.tiles[v.active()->0].canvas_pos.x.spec_is_finite(),
        v.tiles[v.active()->0].canvas_pos.y.spec_is_finite(),
    ensures
        ({
            let pos = v.tiles[v.active()->0].canvas_pos;
            &&& pos.x.adds_exactly(leftward().x) ==> comes_back(v, leftward(), rightward())
            &&& pos.x.adds_exactly(rightward().x) ==> comes_back(v, rightward(), leftward())
            &&& pos.y.adds_exactly(upward().y) ==> comes_back(v, upward(), downward())
            &&& pos.y.adds_exactly(downward().y) ==> comes_back(v, downward(), upward())
        }),
{
    let pos = v.tiles[v.active()->0].canvas_pos;
    let step = Float::whole(DIRECTIONAL_MOVE_PX as int);
    let zero = Float::whole(0);
    lemma_whole(0);
    lemma_neg(step);
    lemma_two_moves(v, leftward(), rightward());
    lemma_two_moves(v, rightward(), leftward());
    lemma_two_moves(v, upward(), downward());
    lemma_two_moves(v, downward(), upward());
    assert(0 * pow2(UNIT_EXPONENT as nat) == 0) by (nonlinear_arith);
    lemma_add_exact(pos.x, zero, pos.x);
    lemma_add_exact(pos.x.spec_add(zero), zero, pos.x);
    lemma_add_exact(pos.y, zero, pos.y);
    lemma_add_exact(pos.y.spec_add(zero), zero, pos.y);
    if pos.x.adds_exactly(leftward().x) {
        lemma_steps_cancel(pos.x, leftward().x);
    }
    if pos.x.adds_exactly(rightward().x) {
        lemma_steps_cancel(pos.x, rightward().x);
    }
    if pos.y.adds_exactly(upward().y) {
        lemma_steps_cancel(pos.y, upward().y);
    }
    if pos.y.adds_exactly(downward().y) {
        lemma_steps_cancel(pos.y, downward().y);
    }
}

/// Two moves of the active tile move it by both amounts, and no other tile.
proof fn lemma_two_moves<W: LayoutElement>(v: CanvasView<W>, amount: Point, then_by: Point)
    requires
        v.active() is Some,
    ensures
        ({
            let i = v.active()->0;
            let there = v.active_moved(amount);
            let back = there.active_moved(then_by);
            let pos = v.tiles[i].canvas_pos;
            &&& there.active() == Some(i)
            &&& back.active() == Some(i)
            &&& back.tiles.len() == v.tiles.len()
            &&& there.tiles[i].canvas_pos == pos.spec_add(amount)
            &&& back.tiles[i].canvas_pos == pos.spec_add(amount).spec_add(then_by)
            &&& forall|k: int|
                0 <= k < v.tiles.len() && k != i ==> #[trigger] there.tiles[k] == v.tiles[k]
            &&& forall|k: int|
                0 <= k < v.tiles.len() && k != i ==> #[trigger] back.tiles[k] == v.tiles[k]
        }),
{
    lemma_one_move(v, amount);
    lemma_one_move(v.active_moved(amount), then_by);
}

/// A move of the active tile leaves it the active one.
proof fn lemma_one_move<W: LayoutElement>(v: CanvasView<W>, amount: Point)
    requires
        v.active() is Some,
    ensures
        ({
            let i = v.active()->0;
            let there = v.active_moved(amount);
            &&& 0 <= i < v.tiles.len()
            &&& there.active() == Some(i)
            &&& there.tiles.len() == v.tiles.len()
            &&& there.tiles[i].canvas_pos == v.tiles[i].canvas_pos.spec_add(amount)
            &&& forall|k: int|
                0 <= k < v.tiles.len() && k != i ==> #[trigger] there.tiles[k] == v.tiles[k]
        }),
{
    let id = v.active_id->0;
    let i = v.active()->0;
    let there = v.active_moved(amount);
    lemma_first(v.tiles, id);
    lemma_same_ids(v.tiles, there.tiles);
    lemma_first(there.tiles, id);
    let k = first(there.tiles, id);
    assert(there.tiles[i].id() == id);
    assert(v.tiles[k].id() == there.tiles[k].id());
    assert(k == i) by {
        if k < i {
            assert(v.tiles[k].id() != id);
        } else if i < k {
            assert(there.tiles[i].id() != id);
        }
    }
}

/// A step that is not rounded can be taken back.
proof fn lemma_steps_cancel(x: Float, step: Float)
    requires
        x.adds_exactly(step),
    ensures
        x.spec_add(step).spec_add(step.spec_neg()).spec_same(x),
{
    lemma_neg(step);
    lemma_add_exact(x.spec_add(step), step.spec_neg(), x);
}

/// A pan and the opposite pan leave the camera headed where it was, where the first one is not
/// rounded.
pub proof fn law_pans_cancel<W: LayoutElement>(v: CanvasView<W>, dx: Float, dy: Float)
    requires
        v.target_view_pos().x.adds_exactly(dx),
        v.target_view_pos().y.adds_exactly(dy),
    ensures
        ({
            let back = v.panned(dx, dy).panned(dx.spec_neg(), dy.spec_neg());
            &&& back.target_view_pos().x.spec_same(v.target_view_pos().x)
            &&& back.target_view_pos().y.spec_same(v.target_view_pos().y)
            &&& back.view_pos() == v.view_pos()
        }),
{
    let from = v.target_view_pos();
    let there = v.panned(dx, dy);
    lemma_whole(0);
    lemma_neg(dx);
    lemma_neg(dy);
    lemma_steps_cancel(from.x, dx);
    lemma_steps_cancel(from.y, dy);
    lemma_pan_axis(v.view_offset_x, dx, v.options);
    lemma_pan_axis(v.view_offset_y, dy, v.options);
    assert(there.options == v.options);
}

/// One axis of a camera panned by `d`.
spec fn pan_axis(camera: AxisCamera, d: Float, options: Options) -> AxisCamera {
    if d.spec_same(Float::whole(0)) {
        camera
    } else {
        camera.headed(camera.spec_target().spec_add(d), options.horizontal_view_movement)
    }
}

proof fn lemma_pan_axis(camera: AxisCamera, d: Float, options: Options)
    requires
        camera.spec_target().adds_exactly(d),
    ensures
        ({
            let there = pan_axis(camera, d, options);
            let back = pan_axis(there, d.spec_neg(), options);
            &&& back.spec_target().spec_same(camera.spec_target())
            &&& back.spec_current() == camera.spec_current()
        }),
{
    let from = camera.spec_target();
    let to = from.spec_add(d);
    let there = pan_axis(camera, d, options);
    lemma_whole(0);
    lemma_neg(d);
    lemma_steps_cancel(from, d);
    if !d.spec_same(Float::whole(0)) && !from.spec_same(to) {
        assert(there.spec_target() == to);
    }
}

// --- drawing ---

/// Everything on the canvas is drawn once: every tile, in order, behind the closing windows, the
/// last of which comes first; the overview leaves those out.
pub proof fn law_everything_is_drawn<W: LayoutElement>(
    v: CanvasView<W>,
    focus_ring: bool,
    overview: Option<OverviewFit>,
)
    ensures
        ({
            let plan = v.render_plan(focus_ring, overview);
            let closing = if overview is None {
                v.closing_windows.len() as int
            } else {
                0
            };
            &&& plan.len() == closing + v.tiles.len()
            &&& forall|k: int|
                0 <= k < closing ==> #[trigger] plan[k] == (RenderCommand::ClosingWindow {
                    index: (closing - 1 - k) as usize,
                    view_rect: v.view_rect(),
                })
            &&& forall|k: int|
                closing <= k < plan.len() ==> #[trigger] plan[k] == v.tile_command(
                    focus_ring,
                    overview,
                    k - closing,
                )
        }),
{
}

/// Whether scaling rounds neither where a side that is drawn at `drawn` starts, scaled back, nor
/// where it ends.
pub open spec fn scales_exactly(drawn: Float, side: Float, scale: Float) -> bool {
    &&& drawn.divides_exactly(scale)
    &&& side.multiplies_exactly(scale)
    &&& drawn.adds_exactly(side.spec_mul(scale))
}

/// Along one axis, whether what is hit from `corner` for the length `side`, at a place scaled back
/// to `at`, is what is drawn from `drawn` for the scaled length, at the place `point`.
///
/// A place that is not before an edge as it is drawn is not before that edge as it is hit, and the
/// same for past it. Where nothing is rounded, it is before the one exactly if it is before the
/// other.
pub open spec fn hit_as_drawn(
    drawn: Float,
    corner: Float,
    side: Float,
    scale: Float,
    point: Float,
    at: Float,
) -> bool {
    let drawn_end = drawn.spec_add(side.spec_mul(scale));
    let end = corner.spec_add(side);
    &&& !point.spec_lt(drawn) ==> !at.spec_lt(corner)
    &&& !drawn.spec_lt(point) ==> !corner.spec_lt(at)
    &&& drawn.divides_exactly(scale) && point.divides_exactly(scale) ==> (point.spec_lt(drawn)
        <==> at.spec_lt(corner))
    &&& scales_exactly(drawn, side, scale) ==> {
        &&& !point.spec_lt(drawn_end) ==> !at.spec_lt(end)
        &&& !drawn_end.spec_lt(point) ==> !end.spec_lt(at)
        &&& point.divides_exactly(scale) && corner.adds_exactly(side) ==> (point.spec_lt(drawn_end)
            <==> at.spec_lt(end))
    }
}

/// A tile is hit-tested where it is drawn. In the overview both the drawn position and the point
/// are scaled back: the corner of the drawn tile is the corner of the hit box, and on each axis the
/// near and the far edge of the hit box are those of the drawn tile.
pub proof fn law_tiles_are_hit_where_they_are_drawn<W: LayoutElement>(
    v: CanvasView<W>,
    focus_ring: bool,
    fit: OverviewFit,
    i: int,
    point: Point,
)
    ensures
        v.tile_command(focus_ring, None, i)->Tile_pos == v.hit_position(None, i),
        hit_point(None, point) == point,
        ({
            let drawn = v.tile_command(focus_ring, Some(fit), i)->TileScaled_pos;
            let corner = v.hit_position(Some(fit), i);
            let at = hit_point(Some(fit), point);
            let size = v.tiles[i].tile_size;
            &&& corner == hit_point(Some(fit), drawn)
            &&& v.tile_command(focus_ring, Some(fit), i)->anchor == drawn.spec_to_physical(v.scale)
            &&& fit.scale.spec_is_finite() && 0 < fit.scale.units() ==> {
                &&& drawn.x.spec_is_finite() && point.x.spec_is_finite() ==> hit_as_drawn(
                    drawn.x,
                    corner.x,
                    size.w,
                    fit.scale,
                    point.x,
                    at.x,
                )
                &&& drawn.y.spec_is_finite() && point.y.spec_is_finite() ==> hit_as_drawn(
                    drawn.y,
                    corner.y,
                    size.h,
                    fit.scale,
                    point.y,
                    at.y,
                )
            }
        }),
{
    let drawn = v.scaled_position(fit, i);
    let size = v.tiles[i].tile_size;
    if fit.scale.spec_is_finite() && 0 < fit.scale.units() {
        if drawn.x.spec_is_finite() && point.x.spec_is_finite() {
            lemma_hit_as_drawn(drawn.x, size.w, fit.scale, point.x);
        }
        if drawn.y.spec_is_finite() && point.y.spec_is_finite() {
            lemma_hit_as_drawn(drawn.y, size.h, fit.scale, point.y);
        }
    }
}

/// One axis of a drawn tile, scaled back.
proof fn lemma_hit_as_drawn(drawn: Float, side: Float, scale: Float, point: Float)
    requires
        drawn.spec_is_finite(),
        point.spec_is_finite(),
        scale.spec_is_finite(),
        0 < scale.units(),
    ensures
        hit_as_drawn(
            drawn,
            drawn.spec_div(scale),
            side,
            scale,
            point,
            point.spec_div(scale),
        ),
{
    let one = pow2(UNIT_EXPONENT as nat) as int;
    let s = scale.units();
    let corner = drawn.spec_div(scale);
    let at = point.spec_div(scale);
    lemma_pow2_pos(UNIT_EXPONENT as nat);
    lemma_div_monotone(drawn, point, scale);
    lemma_div_monotone(point, drawn, scale);
    if drawn.divides_exactly(scale) && point.divides_exactly(scale) {
        lemma_exact_order(point.units(), at.units(), drawn.units(), corner.units(), s, one);
    }
    if scales_exactly(drawn, side, scale) {
        let product = side.spec_mul(scale);
        let drawn_end = drawn.spec_add(product);
        let end = corner.spec_add(side);
        lemma_exact_sum(
            corner.units(),
            side.units(),
            s,
            drawn.units(),
            product.units(),
            one,
        );
        lemma_quotient_is_sum(drawn_end, scale, corner, side);
        lemma_div_monotone(drawn_end, point, scale);
        lemma_div_monotone(point, drawn_end, scale);
        if point.divides_exactly(scale) && corner.adds_exactly(side) {
            lemma_exact_order(point.units(), at.units(), drawn_end.units(), end.units(), s, one);
        }
    }
}

/// The sum of two scaled numbers is their sum, scaled.
proof fn lemma_exact_sum(a: int, b: int, s: int, p: int, q: int, one: int)
    by (nonlinear_arith)
    requires
        a * s == p * one,
        q * one == b * s,
    ensures
        (a + b) * s == (p + q) * one,
{
}

/// Exact quotients by a positive number are ordered as what is divided.
proof fn lemma_exact_order(a: int, p: int, b: int, q: int, s: int, one: int)
    requires
        p * s == a * one,
        q * s == b * one,
        s > 0,
        one > 0,
    ensures
        a < b <==> p < q,
{
    assert(a < b ==> p < q) by (nonlinear_arith)
        requires
            p * s == a * one,
            q * s == b * one,
            s > 0,
            one > 0,
    ;
    assert(p < q ==> a < b) by (nonlinear_arith)
        requires
            p * s == a * one,
            q * s == b * one,
            s > 0,
            one > 0,
    ;
}

/// The focus ring is only ever drawn around the active window, and only if it is wanted.
pub proof fn law_focus_ring_marks_the_active_window<W: LayoutElement>(
    v: CanvasView<W>,
    focus_ring: bool,
    fit: OverviewFit,
    i: int,
)
    ensures
        v.tile_command(focus_ring, None, i)->Tile_focus_ring <==> focus_ring && v.active_id == Some(
            v.tiles[i].id(),
        ),
        v.tile_command(focus_ring, Some(fit), i)->TileScaled_focus_ring <==> focus_ring
            && v.active_id == Some(v.tiles[i].id()),
{
}

/// A picture closes once: taking it leaves nothing for a second time, and touches no other tile.
pub proof fn law_a_picture_closes_once<W: LayoutElement>(
    v: CanvasView<W>,
    id: u64,
    blocker: TransactionBlocker,
)
    ensures
        ({
            let taken = v.picture_taken(id);
            &&& taken.closing_of(id, blocker) is None
            &&& taken.picture_taken(id) == taken
            &&& taken.tiles.len() == v.tiles.len()
            &&& forall|k: int|
                0 <= k < v.tiles.len() && !is_first(v.tiles, id, k) ==> #[trigger] taken.tiles[k]
                    == v.tiles[k]
        }),
{
    let taken = v.picture_taken(id);
    if v.holds(id) {
        lemma_first(v.tiles, id);
        let i = first(v.tiles, id);
        lemma_same_ids(v.tiles, taken.tiles);
        lemma_first(taken.tiles, id);
        let k = first(taken.tiles, id);
        assert(taken.tiles[i].id() == id);
        assert(v.tiles[k].id() == taken.tiles[k].id());
        assert(k == i) by {
            if k < i {
                assert(v.tiles[k].id() != id);
            } else if i < k {
                assert(taken.tiles[i].id() != id);
            }
        }
        assert(taken.picture_taken(id).tiles =~= taken.tiles);
    }
}

/// Nothing moves once the camera's springs and the closing windows are done, if no tile does.
pub proof fn law_animations_come_to_rest<W: LayoutElement>(
    v: CanvasView<W>,
    x: AnimationSample,
    y: AnimationSample,
    advanced: Seq<TileMeasures>,
    ongoing: Seq<bool>,
)
    requires
        x.is_done,
        y.is_done,
        advanced.len() == v.tiles.len(),
        ongoing.len() == v.closing_windows.len(),
        forall|i: int| 0 <= i < ongoing.len() ==> !#[trigger] ongoing[i],
    ensures
        ({
            let after = v.sampled(x, y, advanced, ongoing);
            &&& after.view_pos() == v.target_view_pos()
            &&& after.target_view_pos() == v.target_view_pos()
            &&& (forall|i: int|
                0 <= i < advanced.len() ==> !(#[trigger] advanced[i]).animations_ongoing)
                ==> !after.animations_ongoing()
            &&& (forall|i: int|
                0 <= i < advanced.len() ==> !(#[trigger] advanced[i]).transitions_ongoing)
                ==> !after.transitions_ongoing()
        }),
{
    let after = v.sampled(x, y, advanced, ongoing);
    law_closing_windows_stay_while_they_run(v.closing_windows, ongoing);
    assert forall|i: int| 0 <= i < after.tiles.len() implies (
    #[trigger] after.tiles[i]).animations_ongoing == advanced[i].animations_ongoing
        && after.tiles[i].transitions_ongoing == advanced[i].transitions_ongoing by {}
}

/// A closing window stays exactly as long as it runs, and the others keep their order.
pub proof fn law_closing_windows_stay_while_they_run(
    closing: Seq<ClosingWindow>,
    ongoing: Seq<bool>,
)
    requires
        closing.len() == ongoing.len(),
    ensures
        still_running(closing, ongoing).len() <= closing.len(),
        (forall|i: int| 0 <= i < ongoing.len() ==> #[trigger] ongoing[i]) ==> still_running(
            closing,
            ongoing,
        ) == closing,
        (forall|i: int| 0 <= i < ongoing.len() ==> !#[trigger] ongoing[i]) ==> still_running(
            closing,
            ongoing,
        ).len() == 0,
        forall|i: int|
            0 <= i < closing.len() && ongoing[i] ==> still_running(closing, ongoing).contains(
                #[trigger] closing[i],
            ),
        forall|c: ClosingWindow| #[trigger]
            still_running(closing, ongoing).contains(c) ==> exists|i: int|
                0 <= i < closing.len() && ongoing[i] && #[trigger] closing[i] == c,
    decreases closing.len(),
{
    if closing.len() > 0 {
        let rest = closing.drop_last();
        let flags = ongoing.drop_last();
        let n = closing.len() - 1;
        law_closing_windows_stay_while_they_run(rest, flags);
        let before = still_running(rest, flags);
        let after = still_running(closing, ongoing);
        assert(forall|i: int| 0 <= i < n ==> #[trigger] flags[i] == ongoing[i]);
        assert(forall|i: int| 0 <= i < n ==> #[trigger] rest[i] == closing[i]);
        if ongoing.last() {
            assert(after == before.push(closing.last()));
            assert(after.last() == closing.last());
            assert(rest.push(closing.last()) =~= closing);
        }
        if forall|i: int| 0 <= i < ongoing.len() ==> #[trigger] ongoing[i] {
            assert forall|i: int| 0 <= i < flags.len() implies #[trigger] flags[i] by {
                assert(ongoing[i]);
            }
        }
        if forall|i: int| 0 <= i < ongoing.len() ==> !#[trigger] ongoing[i] {
            assert forall|i: int| 0 <= i < flags.len() implies !#[trigger] flags[i] by {
                assert(!ongoing[i]);
            }
            assert(!ongoing[n]);
        }
        assert forall|i: int| 0 <= i < closing.len() && ongoing[i] implies after.contains(
            #[trigger] closing[i],
        ) by {
            if i < n {
                assert(before.contains(rest[i]));
                let k = choose|k: int| 0 <= k < before.len() && before[k] == rest[i];
                assert(after[k] == closing[i]);
            } else {
                assert(after[after.len() - 1] == closing[i]);
            }
        }
        assert forall|c: ClosingWindow| #[trigger] after.contains(c) implies exists|i: int|
            0 <= i < closing.len() && ongoing[i] && #[trigger] closing[i] == c by {
            let k = choose|k: int| 0 <= k < after.len() && after[k] == c;
            if k < before.len() {
                assert(before[k] == c);
                assert(before.contains(c));
                let i = choose|i: int| 0 <= i < rest.len() && flags[i] && #[trigger] rest[i] == c;
                assert(ongoing[i] && closing[i] == c);
            } else {
                assert(ongoing[n] && closing[n] == c);
            }
        }
    }
}

// --- resizing ---

/// One gesture at a time: once it has begun it is on that window, no other one begins, a different
/// window does not end it, and its own window, no window in particular, or a move of the active
/// tile does.
pub proof fn law_one_resize_at_a_time<W: LayoutElement>(
    v: CanvasView<W>,
    window: u64,
    other: u64,
    edges: ResizeEdge,
    amount: Point,
)
    requires
        v.can_resize(window),
    ensures
        ({
            let begun = v.resize_begun(window, edges);
            &&& begun.resizes(window)
            &&& !begun.can_resize(other)
            &&& begun.resize_begun(other, edges) == begun
            &&& other != window ==> begun.resize_ended(Some(other)) == begun
            &&& begun.resize_ended(Some(window)).interactive_resize is None
            &&& begun.resize_ended(None).interactive_resize is None
            &&& v.active() is Some ==> begun.active_moved(amount).interactive_resize is None
            &&& begun.view_pos() == v.view_pos()
            &&& begun.target_view_pos() == v.view_pos()
        }),
{
}

/// Dragging the near edge is dragging the far edge the other way, and a pointer that has not moved
/// asks for the size that the gesture began with.
pub proof fn law_edges_mirror(original: Float, delta: Float)
    requires
        original.spec_is_finite(),
    ensures
        dragged_side(original, delta, true) == dragged_side(original, delta.spec_neg(), false),
        dragged_side(original, Float::whole(0), false)
            == original.spec_round().spec_to_i32() as i32,
{
    lemma_plus_zero(original);
}

/// Adding nothing does not change the whole pixels.
proof fn lemma_plus_zero(a: Float)
    requires
        a.spec_is_finite(),
    ensures
        a.spec_add(Float::whole(0)).spec_round().spec_to_i32() == a.spec_round().spec_to_i32(),
{
    let sum = a.spec_add(Float::whole(0));
    lemma_whole(0);
    lemma_nearest_exact(a.pattern());
    lemma_pattern_order(0, a.pattern());
    if a.is_zero() {
        let one = pow2(UNIT_EXPONENT as nat);
        let whole = (2 * magnitude(0) + one) / (2 * one);
        lemma_whole_is_whole(0);
        lemma_nearest_exists(whole * one, 1);
        assert(nearest(whole * one, 1) == 0);
    } else {
        assert(sum == a);
    }
}

/// A fixed size from one to the largest number of pixels is asked for as it is.
pub proof fn law_fixed_size_is_exact(
    px: i32,
    window: i32,
    tile: Float,
    frame: Float,
    available: Float,
)
    ensures
        whole_pixels(changed_side(SizeChange::SetFixed(px), window, tile, frame, available))
            == if px < 1 {
            1
        } else if px > MAX_PX {
            MAX_PX as int
        } else {
            px as int
        },
{
    lemma_whole_is_whole(px as int);
    lemma_whole_is_whole(1);
    lemma_whole_is_whole(MAX_PX as int);
    lemma_whole(px as int);
    lemma_whole(1);
    lemma_whole(MAX_PX as int);
    if px < 1 {
        lemma_whole_before(px as int, 1);
        lemma_whole_order(1, MAX_PX as int);
    } else if px > MAX_PX {
        lemma_whole_order(1, px as int);
        lemma_whole_before(MAX_PX as int, px as int);
    } else {
        lemma_whole_order(1, px as int);
        lemma_whole_order(px as int, MAX_PX as int);
    }
}

/// A proportion of a hundred percent is all that is available, less the decorations.
pub proof fn law_full_proportion_fills(window: i32, tile: Float, frame: Float, available: Float)
    requires
        !available.spec_is_nan(),
    ensures
        changed_side(
            SizeChange::SetProportion(Float::whole(100)),
            window,
            tile,
            frame,
            available,
        ) == available.spec_sub(frame),
{
    lemma_self_quotient(100);
    lemma_whole_order(0, 1);
    lemma_whole_order(1, MAX_F as int);
    lemma_times_one(available);
}

/// A whole number divided by itself is one.
proof fn lemma_self_quotient(i: int)
    requires
        0 < i < 0x1_0000_0000,
    ensures
        Float::whole(i).spec_div(Float::whole(i)) == Float::whole(1),
{
    let one = pow2(UNIT_EXPONENT as nat);
    let a = Float::whole(i);
    lemma_pow2_pos(UNIT_EXPONENT as nat);
    lemma_whole(i);
    lemma_whole(1);
    let m = magnitude(a.pattern());
    assert(m > 0 && 1 * one == one) by (nonlinear_arith)
        requires
            m == i * one,
            i > 0,
            one > 0,
    ;
    assert(magnitude(0) == 0);
    assert((m * one) * 1 == one * m) by (nonlinear_arith);
    lemma_nearest_is_monotone(m * one, m, one, 1);
    lemma_nearest_is_monotone(one, 1, m * one, m);
}

/// Whole numbers keep their order.
proof fn lemma_whole_before(a: int, b: int)
    requires
        -0x1_0000_0000 < a < b < 0x1_0000_0000,
    ensures
        Float::whole(a).spec_lt(Float::whole(b)),
{
    let one = pow2(UNIT_EXPONENT as nat);
    lemma_pow2_pos(UNIT_EXPONENT as nat);
    lemma_whole(a);
    lemma_whole(b);
    assert(a * one < b * one) by (nonlinear_arith)
        requires
            a < b,
            one > 0,
    ;
}

/// Every size that is asked for respects the bounds of the window, the lower one where they cross.
/// Without bounds the side that changes is at least a pixel and at most [`MAX_PX`], or nothing
/// where the change is not a number.
pub proof fn law_requests_respect_bounds<W: LayoutElement>(
    v: CanvasView<W>,
    i: int,
    change: SizeChange,
)
    ensures
        ({
            let state = v.tiles[i].window.state();
            let asked = v.width_request(i, change);
            &&& state.min_size.w > 0 ==> asked.w >= state.min_size.w
            &&& state.min_size.h > 0 ==> asked.h >= state.min_size.h
            &&& state.max_size.w > 0 && state.min_size.w <= state.max_size.w ==> asked.w
                <= state.max_size.w
            &&& state.max_size.h > 0 && state.min_size.h <= state.max_size.h ==> asked.h
                <= state.max_size.h
            &&& state.min_size.w <= 0 && state.max_size.w <= 0 ==> if v.changed_width(
                i,
                change,
            ).spec_is_nan() {
                asked.w == 0
            } else {
                1 <= asked.w <= MAX_PX
            }
        }),
        ({
            let state = v.tiles[i].window.state();
            let asked = v.height_request(i, change);
            &&& state.min_size.w > 0 ==> asked.w >= state.min_size.w
            &&& state.min_size.h > 0 ==> asked.h >= state.min_size.h
            &&& state.max_size.w > 0 && state.min_size.w <= state.max_size.w ==> asked.w
                <= state.max_size.w
            &&& state.max_size.h > 0 && state.min_size.h <= state.max_size.h ==> asked.h
                <= state.max_size.h
            &&& state.min_size.h <= 0 && state.max_size.h <= 0 ==> if v.changed_height(
                i,
                change,
            ).spec_is_nan() {
                asked.h == 0
            } else {
                1 <= asked.h <= MAX_PX
            }
        }),
{
    law_whole_pixels_are_bounded(v.changed_width(i, change));
    law_whole_pixels_are_bounded(v.changed_height(i, change));
}

} // verus!
