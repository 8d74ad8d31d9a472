//! Where things are drawn, hit and closed, in exact numbers.

use crate::camera::{Animation, AxisCamera};
use crate::float::{
    distance, lemma_neg, lemma_over_one, lemma_round_near, lemma_times_one, Float, UNIT_EXPONENT,
};
use crate::geometry::{snapped, PhysicalPoint, Point, Size};
use crate::laws::lemma_first;
use crate::overview::{bounds, fit};
use crate::resize_laws::is_at;
use crate::rounding::IMPLICIT;
use crate::state::{
    first, hit_point, screen_base, CanvasView, CloseAnimation, OverviewFit, RenderCommand,
    TransactionBlocker,
};
use crate::tile::{LayoutElement, Tile, TileRenderSnapshot};
use vstd::arithmetic::power2::{lemma_pow2_pos, pow2};
use vstd::prelude::*;

verus! {

// --- the camera ---

/// Where one axis of the camera stands: at rest, or where its spring is.
pub open spec fn stands_at(camera: AxisCamera) -> Float {
    match camera {
        AxisCamera::Static(at) => at,
        AxisCamera::Animation(spring) => spring.value,
    }
}

/// The view is where the camera stands, on each axis by itself, and the target view where it heads.
pub proof fn law_view_is_where_the_camera_stands<W: LayoutElement>(v: CanvasView<W>)
    ensures
        v.view_pos().x == stands_at(v.view_offset_x),
        v.view_pos().y == stands_at(v.view_offset_y),
        v.target_view_pos().x == match v.view_offset_x {
            AxisCamera::Static(at) => at,
            AxisCamera::Animation(spring) => spring.to,
        },
        v.target_view_pos().y == match v.view_offset_y {
            AxisCamera::Static(at) => at,
            AxisCamera::Animation(spring) => spring.to,
        },
{
}

/// What is drawn, hit, told to tiles and closed depends on where the camera stands and not on where
/// it is headed: canvases that differ only in their springs, but stand at the same place, look the
/// same.
pub proof fn law_drawing_does_not_look_ahead<W: LayoutElement>(
    v: CanvasView<W>,
    x: AxisCamera,
    y: AxisCamera,
    flag: bool,
    i: int,
    id: u64,
    blocker: TransactionBlocker,
)
    requires
        stands_at(x) == stands_at(v.view_offset_x),
        stands_at(y) == stands_at(v.view_offset_y),
    ensures
        ({
            let other = CanvasView { view_offset_x: x, view_offset_y: y, ..v };
            &&& other.render_plan(flag, None) == v.render_plan(flag, None)
            &&& other.render_position(i) == v.render_position(i)
            &&& other.hit_position(None, i) == v.hit_position(None, i)
            &&& other.tile_update(flag, i) == v.tile_update(flag, i)
            &&& other.closing_of(id, blocker) == v.closing_of(id, blocker)
        }),
{
    let other = CanvasView { view_offset_x: x, view_offset_y: y, ..v };
    assert forall|k: int| other.tile_command(flag, None, k) == #[trigger] v.tile_command(
        flag,
        None,
        k,
    ) by {}
    assert(other.render_plan(flag, None) =~= v.render_plan(flag, None));
}

/// The overview does not depend on the camera at all.
pub proof fn law_overview_ignores_the_camera<W: LayoutElement>(
    v: CanvasView<W>,
    x: AxisCamera,
    y: AxisCamera,
    flag: bool,
    overview: OverviewFit,
    i: int,
)
    ensures
        ({
            let other = CanvasView { view_offset_x: x, view_offset_y: y, ..v };
            &&& other.render_plan(flag, Some(overview)) == v.render_plan(flag, Some(overview))
            &&& other.hit_position(Some(overview), i) == v.hit_position(Some(overview), i)
            &&& bounds(other.tiles) == bounds(v.tiles)
            &&& fit(other.tiles, other.view_size) == fit(v.tiles, v.view_size)
        }),
{
    let other = CanvasView { view_offset_x: x, view_offset_y: y, ..v };
    assert forall|k: int|
        other.tile_command(flag, Some(overview), k) == #[trigger] v.tile_command(
            flag,
            Some(overview),
            k,
        ) by {}
    assert(other.render_plan(flag, Some(overview)) =~= v.render_plan(flag, Some(overview)));
}

// --- positions ---

/// A coordinate is put on the pixel that it is nearest to: scaled to pixels, rounded, and scaled
/// back. At scale one it is the nearest whole number.
pub proof fn law_snapping_takes_the_nearest_pixel(v: Float, scale: Float)
    ensures
        snapped(v, scale) == v.spec_mul(scale).spec_round().spec_div(scale),
        scale == Float::whole(1) && v.spec_is_finite() && distance(v.units()) <= IMPLICIT * pow2(
            UNIT_EXPONENT as nat,
        ) ==> {
            let one = pow2(UNIT_EXPONENT as nat);
            &&& snapped(v, scale).spec_is_finite()
            &&& distance(2 * (snapped(v, scale).units() - v.units())) <= one
            &&& exists|k: int| snapped(v, scale).units() == #[trigger] (k * one)
        },
{
    let one = pow2(UNIT_EXPONENT as nat);
    if scale == Float::whole(1) && v.spec_is_finite() && distance(v.units()) <= IMPLICIT * one {
        lemma_times_one(v);
        let k = lemma_round_near(v);
        lemma_over_one(v.spec_round());
        assert(snapped(v, scale).units() == k * one);
    }
}

/// Points are added, scaled and put on pixels by coordinate.
pub proof fn law_points_go_by_coordinate(p: Point, q: Point, scale: Float)
    ensures
        p.spec_add(q) == (Point { x: p.x.spec_add(q.x), y: p.y.spec_add(q.y) }),
        p.spec_sub(q) == (Point { x: p.x.spec_sub(q.x), y: p.y.spec_sub(q.y) }),
        p.spec_upscale(scale) == (Point { x: p.x.spec_mul(scale), y: p.y.spec_mul(scale) }),
        p.spec_downscale(scale) == (Point { x: p.x.spec_div(scale), y: p.y.spec_div(scale) }),
        p.spec_snap(scale) == (Point { x: snapped(p.x, scale), y: snapped(p.y, scale) }),
        p.spec_to_physical(scale) == (PhysicalPoint {
            x: p.x.spec_mul(scale).spec_round().spec_to_i32() as i32,
            y: p.y.spec_mul(scale).spec_round().spec_to_i32() as i32,
        }),
        screen_base(p, q) == (Point { x: p.x.spec_sub(q.x), y: p.y.spec_sub(q.y) }),
{
}

/// Whether a coordinate seen from `eye` and moved by `offset` is not rounded.
pub open spec fn shows_exactly(at: Float, eye: Float, offset: Float) -> bool {
    at.subtracts_exactly(eye) && at.spec_sub(eye).adds_exactly(offset)
}

/// A tile is drawn where it is on the canvas, less where the camera stands, plus where its
/// animations have it, on the nearest pixel. At scale one, where nothing before that is rounded, it
/// is half a pixel away from there at most, and exactly there if that is a pixel.
pub proof fn law_tiles_are_drawn_where_they_are<W: LayoutElement>(
    v: CanvasView<W>,
    focus_ring: bool,
    i: int,
)
    requires
        0 <= i < v.tiles.len() <= usize::MAX,
    ensures
        ({
            let tile = v.tiles[i];
            let eye_x = stands_at(v.view_offset_x);
            let eye_y = stands_at(v.view_offset_y);
            let command = v.render_plan(focus_ring, None)[v.closing_windows.len() + i];
            let pos = v.render_position(i);
            let one = pow2(UNIT_EXPONENT as nat);
            let x = tile.canvas_pos.x.units() - eye_x.units() + tile.render_offset.x.units();
            let y = tile.canvas_pos.y.units() - eye_y.units() + tile.render_offset.y.units();
            &&& command == (RenderCommand::Tile {
                index: i as usize,
                pos,
                focus_ring: focus_ring && v.active_id == Some(tile.window.state().id),
            })
            &&& v.hit_position(None, i) == pos
            &&& pos.x == snapped(
                tile.canvas_pos.x.spec_sub(eye_x).spec_add(tile.render_offset.x),
                v.scale,
            )
            &&& pos.y == snapped(
                tile.canvas_pos.y.spec_sub(eye_y).spec_add(tile.render_offset.y),
                v.scale,
            )
            &&& v.scale == Float::whole(1) && shows_exactly(
                tile.canvas_pos.x,
                eye_x,
                tile.render_offset.x,
            ) && distance(x) <= IMPLICIT * one ==> {
                &&& distance(2 * (pos.x.units() - x)) <= one
                &&& forall|k: int| x == #[trigger] (k * one) ==> pos.x.units() == x
            }
            &&& v.scale == Float::whole(1) && shows_exactly(
                tile.canvas_pos.y,
                eye_y,
                tile.render_offset.y,
            ) && distance(y) <= IMPLICIT * one ==> {
                &&& distance(2 * (pos.y.units() - y)) <= one
                &&& forall|k: int| y == #[trigger] (k * one) ==> pos.y.units() == y
            }
        }),
{
    let tile = v.tiles[i];
    let eye_x = stands_at(v.view_offset_x);
    let eye_y = stands_at(v.view_offset_y);
    if v.scale == Float::whole(1) {
        lemma_drawn_axis(tile.canvas_pos.x, eye_x, tile.render_offset.x);
        lemma_drawn_axis(tile.canvas_pos.y, eye_y, tile.render_offset.y);
    }
}

/// One axis of a drawn position at scale one.
proof fn lemma_drawn_axis(at: Float, eye: Float, offset: Float)
    ensures
        ({
            let one = pow2(UNIT_EXPONENT as nat);
            let x = at.units() - eye.units() + offset.units();
            let pos = snapped(at.spec_sub(eye).spec_add(offset), Float::whole(1)).units();
            shows_exactly(at, eye, offset) && distance(x) <= IMPLICIT * one ==> {
                &&& distance(2 * (pos - x)) <= one
                &&& forall|k: int| x == #[trigger] (k * one) ==> pos == x
            }
        }),
{
    let one = pow2(UNIT_EXPONENT as nat);
    let raw = at.spec_sub(eye).spec_add(offset);
    let pos = snapped(raw, Float::whole(1)).units();
    let x = at.units() - eye.units() + offset.units();
    lemma_pow2_pos(UNIT_EXPONENT as nat);
    lemma_neg(eye);
    law_snapping_takes_the_nearest_pixel(raw, Float::whole(1));
    if shows_exactly(at, eye, offset) && distance(x) <= IMPLICIT * one {
        assert(raw.units() == x);
        let j = choose|j: int| pos == #[trigger] (j * one);
        assert forall|k: int| x == #[trigger] (k * one) implies pos == x by {
            assert(j == k) by (nonlinear_arith)
                requires
                    2 * (j * one - k * one) <= one,
                    2 * (k * one - j * one) <= one,
                    one > 0,
            ;
        }
    }
}

/// Positions before they are put on a pixel are the same without the rounding.
pub proof fn law_raw_positions_are_unrounded<W: LayoutElement>(v: CanvasView<W>, i: int)
    ensures
        ({
            let tile = v.tiles[i];
            let raw = v.raw_position(i);
            &&& raw.x == tile.canvas_pos.x.spec_sub(stands_at(v.view_offset_x)).spec_add(
                tile.render_offset.x,
            )
            &&& raw.y == tile.canvas_pos.y.spec_sub(stands_at(v.view_offset_y)).spec_add(
                tile.render_offset.y,
            )
            &&& v.render_position(i).x == snapped(raw.x, v.scale)
            &&& v.render_position(i).y == snapped(raw.y, v.scale)
        }),
{
}

/// In the overview a tile is drawn where it is on the canvas, less where the synthetic view starts,
/// plus where its animations have it, scaled and on the nearest pixel; its visuals are scaled
/// around that pixel by the same factor. It is hit there too, all scaled back.
pub proof fn law_overview_draws_to_scale<W: LayoutElement>(
    v: CanvasView<W>,
    focus_ring: bool,
    overview: OverviewFit,
    i: int,
    point: Point,
)
    requires
        0 <= i < v.tiles.len() <= usize::MAX,
    ensures
        ({
            let tile = v.tiles[i];
            let eye = overview.view_pos;
            let factor = overview.scale;
            let command = v.render_plan(focus_ring, Some(overview))[i];
            let x = snapped(
                tile.canvas_pos.x.spec_sub(eye.x).spec_add(tile.render_offset.x).spec_mul(factor),
                v.scale,
            );
            let y = snapped(
                tile.canvas_pos.y.spec_sub(eye.y).spec_add(tile.render_offset.y).spec_mul(factor),
                v.scale,
            );
            &&& v.render_plan(focus_ring, Some(overview)).len() == v.tiles.len()
            &&& command == (RenderCommand::TileScaled {
                index: i as usize,
                pos: Point { x, y },
                focus_ring: focus_ring && v.active_id == Some(tile.window.state().id),
                anchor: PhysicalPoint {
                    x: x.spec_mul(v.scale).spec_round().spec_to_i32() as i32,
                    y: y.spec_mul(v.scale).spec_round().spec_to_i32() as i32,
                },
                scale: factor,
            })
            &&& v.hit_position(Some(overview), i) == (Point {
                x: x.spec_div(factor),
                y: y.spec_div(factor),
            })
            &&& hit_point(Some(overview), point) == (Point {
                x: point.x.spec_div(factor),
                y: point.y.spec_div(factor),
            })
        }),
{
}

/// At scale one, where nothing before the last rounding is rounded, the overview draws a coordinate
/// half a pixel at most from where it is in the synthetic view, times the factor. So distances
/// between tiles are drawn by that factor.
pub proof fn law_overview_scales_distances<W: LayoutElement>(
    v: CanvasView<W>,
    overview: OverviewFit,
    i: int,
)
    requires
        v.scale == Float::whole(1),
    ensures
        ({
            let one = pow2(UNIT_EXPONENT as nat);
            let tile = v.tiles[i];
            let eye = overview.view_pos;
            let factor = overview.scale;
            let pos = v.tile_command(false, Some(overview), i)->TileScaled_pos;
            let x = tile.canvas_pos.x.units() - eye.x.units() + tile.render_offset.x.units();
            let y = tile.canvas_pos.y.units() - eye.y.units() + tile.render_offset.y.units();
            &&& draws_exactly(tile.canvas_pos.x, eye.x, tile.render_offset.x, factor) ==> distance(
                2 * (pos.x.units() * one - x * factor.units()),
            ) <= one * one
            &&& draws_exactly(tile.canvas_pos.y, eye.y, tile.render_offset.y, factor) ==> distance(
                2 * (pos.y.units() * one - y * factor.units()),
            ) <= one * one
        }),
{
    let tile = v.tiles[i];
    let eye = overview.view_pos;
    lemma_scaled_axis(tile.canvas_pos.x, eye.x, tile.render_offset.x, overview.scale);
    lemma_scaled_axis(tile.canvas_pos.y, eye.y, tile.render_offset.y, overview.scale);
}

/// Whether a coordinate seen from `eye`, moved by `offset` and scaled is not rounded, and not past
/// `2^52`.
pub open spec fn draws_exactly(at: Float, eye: Float, offset: Float, factor: Float) -> bool {
    let raw = at.spec_sub(eye).spec_add(offset);
    &&& shows_exactly(at, eye, offset)
    &&& raw.multiplies_exactly(factor)
    &&& distance(raw.spec_mul(factor).units()) <= IMPLICIT * pow2(UNIT_EXPONENT as nat)
}

/// One axis of a position in the overview at scale one.
proof fn lemma_scaled_axis(at: Float, eye: Float, offset: Float, factor: Float)
    ensures
        ({
            let one = pow2(UNIT_EXPONENT as nat);
            let x = at.units() - eye.units() + offset.units();
            let product = at.spec_sub(eye).spec_add(offset).spec_mul(factor);
            draws_exactly(at, eye, offset, factor) ==> distance(
                2 * (snapped(product, Float::whole(1)).units() * one - x * factor.units()),
            ) <= one * one
        }),
{
    let one = pow2(UNIT_EXPONENT as nat);
    let x = at.units() - eye.units() + offset.units();
    let product = at.spec_sub(eye).spec_add(offset).spec_mul(factor);
    let pos = snapped(product, Float::whole(1)).units();
    lemma_pow2_pos(UNIT_EXPONENT as nat);
    lemma_neg(eye);
    law_snapping_takes_the_nearest_pixel(product, Float::whole(1));
    if draws_exactly(at, eye, offset, factor) {
        let target = x * factor.units();
        assert(2 * (pos * one - target) <= one * one && 2 * (target - pos * one) <= one * one)
            by (nonlinear_arith)
            requires
                product.units() * one == target,
                2 * (pos - product.units()) <= one,
                2 * (product.units() - pos) <= one,
                one > 0,
        ;
    }
}

/// Closing windows are drawn before all tiles, the last one first, each once, in the whole view.
pub proof fn law_closing_windows_are_drawn_on_top<W: LayoutElement>(
    v: CanvasView<W>,
    focus_ring: bool,
    k: int,
)
    requires
        0 <= k < v.closing_windows.len() <= usize::MAX,
    ensures
        ({
            let plan = v.render_plan(focus_ring, None);
            let last = v.closing_windows.len() - 1;
            &&& plan.len() == v.closing_windows.len() + v.tiles.len()
            &&& plan[last - k] matches RenderCommand::ClosingWindow { index, view_rect } && {
                &&& index == k
                &&& view_rect.loc.x == Float::whole(0) && view_rect.loc.y == Float::whole(0)
                &&& view_rect.size == v.view_size
            }
        }),
{
}

/// What is found under a point is the last tile that is there, in the overview or not: `hit_tile`
/// said so of it where it is drawn, and of every later tile that it is not. Where nothing is found
/// it said so of every tile.
pub proof fn law_later_tiles_are_found_first<
    W: LayoutElement,
    H,
    F: Fn(&Tile<W>, Point, Point) -> Option<H>,
>(
    v: CanvasView<W>,
    hit_tile: F,
    overview: Option<OverviewFit>,
    point: Point,
    i: int,
    hit: H,
    j: int,
)
    requires
        0 <= j < v.tiles.len(),
    ensures
        v.hits(hit_tile, overview, point, i, hit) ==> call_ensures(
            hit_tile,
            (&v.tiles[i], v.hit_position(overview, i), hit_point(overview, point)),
            Some(hit),
        ),
        v.hits(hit_tile, overview, point, i, hit) && i < j ==> call_ensures(
            hit_tile,
            (&v.tiles[j], v.hit_position(overview, j), hit_point(overview, point)),
            None::<H>,
        ),
        v.misses(hit_tile, overview, point, 0) ==> call_ensures(
            hit_tile,
            (&v.tiles[j], v.hit_position(overview, j), hit_point(overview, point)),
            None::<H>,
        ),
{
    // Brings what is said of every tile to bear on this one.
    let tile = v.tiles[j];
}

/// Before it is drawn a tile is told where the view is relative to it, which is the opposite of
/// where it is relative to the view, how large it is, and whether the tile is the active one of an
/// active canvas.
pub proof fn law_tiles_are_told_where_the_view_is<W: LayoutElement>(
    v: CanvasView<W>,
    is_active: bool,
    i: int,
)
    ensures
        ({
            let tile = v.tiles[i];
            let update = v.tile_update(is_active, i);
            let eye_x = stands_at(v.view_offset_x);
            let eye_y = stands_at(v.view_offset_y);
            &&& update.is_active <==> is_active && v.active_id == Some(tile.window.state().id)
            &&& update.view_rect.size == v.view_size
            &&& update.view_rect.loc.x == eye_x.spec_sub(tile.canvas_pos.x)
            &&& update.view_rect.loc.y == eye_y.spec_sub(tile.canvas_pos.y)
            &&& eye_x.subtracts_exactly(tile.canvas_pos.x) && tile.canvas_pos.x.subtracts_exactly(
                eye_x,
            ) ==> update.view_rect.loc.x.units() == -tile.canvas_pos.x.spec_sub(eye_x).units()
            &&& eye_y.subtracts_exactly(tile.canvas_pos.y) && tile.canvas_pos.y.subtracts_exactly(
                eye_y,
            ) ==> update.view_rect.loc.y.units() == -tile.canvas_pos.y.spec_sub(eye_y).units()
        }),
{
    lemma_neg(stands_at(v.view_offset_x));
    lemma_neg(stands_at(v.view_offset_y));
    lemma_neg(v.tiles[i].canvas_pos.x);
    lemma_neg(v.tiles[i].canvas_pos.y);
}

// --- closing windows ---

/// A picture closes on a spring from nothing to one, at the scale of the canvas, and waits for what
/// it is given to wait for unless transactions are off.
pub proof fn law_pictures_close_from_nothing_to_one<W: LayoutElement>(
    v: CanvasView<W>,
    snapshot: TileRenderSnapshot,
    tile_size: Size,
    tile_pos: Point,
    blocker: TransactionBlocker,
)
    ensures
        v.close_animation(snapshot, tile_size, tile_pos, blocker) == (CloseAnimation {
            snapshot,
            scale: v.scale,
            tile_size,
            tile_pos,
            blocker: if v.options.disable_transactions {
                TransactionBlocker::Completed
            } else {
                blocker
            },
            anim: Animation {
                from: Float::whole(0),
                to: Float::whole(1),
                initial_velocity: Float::whole(0),
                config: v.options.window_close,
                value: Float::whole(0),
            },
        }),
{
}

/// A window closes with the picture captured of its tile, of the tile's size and where the tile is
/// drawn, before that is put on a pixel; it takes the picture out of the tile and changes nothing
/// else. Without a picture there is nothing to close.
pub proof fn law_windows_close_where_they_are<W: LayoutElement>(
    v: CanvasView<W>,
    id: u64,
    blocker: TransactionBlocker,
    i: int,
)
    requires
        is_at(v, id, i),
    ensures
        ({
            let tile = v.tiles[i];
            let x = tile.canvas_pos.x.spec_sub(stands_at(v.view_offset_x)).spec_add(
                tile.render_offset.x,
            );
            let y = tile.canvas_pos.y.spec_sub(stands_at(v.view_offset_y)).spec_add(
                tile.render_offset.y,
            );
            let taken = v.picture_taken(id);
            &&& tile.unmap_snapshot is None ==> v.closing_of(id, blocker) is None
            &&& tile.unmap_snapshot matches Some(snapshot) ==> v.closing_of(id, blocker) == Some(
                v.close_animation(snapshot, tile.tile_size, Point { x, y }, blocker),
            )
            &&& taken == (CanvasView { tiles: taken.tiles, ..v })
            &&& taken.tiles.len() == v.tiles.len()
            &&& taken.tiles[i] == (Tile { unmap_snapshot: None::<TileRenderSnapshot>, ..tile })
            &&& forall|k: int|
                0 <= k < v.tiles.len() && k != i ==> #[trigger] taken.tiles[k] == v.tiles[k]
        }),
{
    assert(v.tiles[i].id() == id);
    lemma_first(v.tiles, id);
    let k = first(v.tiles, id);
    assert(v.tiles[k].id() == id);
    assert(k == i);
}

/// A window that is not on the canvas does not close.
pub proof fn law_only_windows_on_the_canvas_close<W: LayoutElement>(
    v: CanvasView<W>,
    id: u64,
    blocker: TransactionBlocker,
)
    requires
        forall|k: int| 0 <= k < v.tiles.len() ==> (#[trigger] v.tiles[k]).window.state().id != id,
    ensures
        v.closing_of(id, blocker) is None,
        v.picture_taken(id) == v,
{
    if v.holds(id) {
        let k = choose|k: int| 0 <= k < v.tiles.len() && (#[trigger] v.tiles[k]).id() == id;
        assert(v.tiles[k].window.state().id != id);
    }
}

} // verus!
