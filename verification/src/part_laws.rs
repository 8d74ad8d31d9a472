//! What the operations on the parts of a canvas give: on points, cameras, tiles and sides.

use crate::camera::{Animation, AnimationConfig, AnimationSample, AxisCamera};
use crate::canvas_laws::{heads_for, is_measured, moves_on};
use crate::drawing_laws::stands_at;
use crate::float::{lemma_neg, lemma_whole, Float, UNIT_EXPONENT};
use crate::focus::{
    focus_target, is_focus_target, is_nearest_beyond, law_focus_goes_beyond,
    lemma_target_is_nearest_beyond, lies_beyond, middle, score_for, SpatialDirection,
};
use crate::geometry::{PhysicalPoint, Point, Size, WindowSize};
use crate::pan_camera_grab::{law_motion_pans_by_the_way_it_went, ButtonState, PanCameraGrab};
use crate::resize_laws::is_bounded;
use crate::sizing::{
    change_side, changed_side, ensure_min_max_size, to_whole_pixels, whole_pixels, SizeChange,
};
use crate::tile::{
    LayoutElement, Options, Tile, TileMeasures, TileRenderSnapshot, WindowRecord,
};
use vstd::arithmetic::power2::pow2;
use vstd::prelude::*;

verus! {

// --- points ---

/// Points are added, taken apart and scaled by coordinate.
pub proof fn law_points(p: Point, q: Point, scale: Float, r: Point)
    ensures
        call_ensures(Point::add, (p, q), r) ==> r.x == p.x.spec_add(q.x) && r.y
            == p.y.spec_add(q.y),
        call_ensures(Point::sub, (p, q), r) ==> r.x == p.x.spec_sub(q.x) && r.y
            == p.y.spec_sub(q.y),
        call_ensures(Point::upscale, (p, scale), r) ==> r.x == p.x.spec_mul(scale) && r.y
            == p.y.spec_mul(scale),
        call_ensures(Point::downscale, (p, scale), r) ==> r.x == p.x.spec_div(scale) && r.y
            == p.y.spec_div(scale),
{
}

/// Points are put on the nearest pixel by coordinate, and told as that pixel.
pub proof fn law_pixels(p: Point, scale: Float, r: Point, pixel: PhysicalPoint)
    ensures
        call_ensures(Point::snap, (p, scale), r) ==> {
            &&& r.x == p.x.spec_mul(scale).spec_round().spec_div(scale)
            &&& r.y == p.y.spec_mul(scale).spec_round().spec_div(scale)
        },
        call_ensures(Point::to_physical, (p, scale), pixel) ==> {
            &&& pixel.x == p.x.spec_mul(scale).spec_round().spec_to_i32() as i32
            &&& pixel.y == p.y.spec_mul(scale).spec_round().spec_to_i32() as i32
        },
{
}

// --- cameras ---

/// A camera says where it stands, where it heads and whether it is at rest.
pub proof fn law_cameras_say(camera: &AxisCamera)
    ensures
        forall|r: Float| #[trigger]
            call_ensures(AxisCamera::current, (camera,), r) ==> r == stands_at(*camera),
        forall|r: Float| #[trigger]
            call_ensures(AxisCamera::target, (camera,), r) ==> r == heads_for(*camera),
        forall|r: bool| #[trigger]
            call_ensures(AxisCamera::is_static, (camera,), r) ==> (r <==> camera is Static),
        forall|r: bool| #[trigger]
            call_ensures(AxisCamera::is_animation_ongoing, (camera,), r) ==> (r
                <==> !(camera is Static)),
{
}

/// A spring starts where it is told to.
pub proof fn law_springs_start(
    from: Float,
    to: Float,
    initial_velocity: Float,
    config: AnimationConfig,
    r: Animation,
)
    requires
        call_ensures(Animation::new, (from, to, initial_velocity, config), r),
    ensures
        r.from == from && r.to == to && r.value == from,
        r.initial_velocity == initial_velocity,
        r.config == config,
{
}

/// A camera that heads elsewhere sets out, at rest, from where it stands; one that heads there
/// already goes on as it was.
pub proof fn law_animate_to(camera: &mut AxisCamera, to: Float, config: AnimationConfig)
    requires
        call_ensures(AxisCamera::animate_to, (camera, to, config), ()),
    ensures
        heads_for(*old(camera)).spec_same(to) ==> *final(camera) == *old(camera),
        !heads_for(*old(camera)).spec_same(to) ==> *final(camera) == AxisCamera::Animation(
            Animation {
                from: stands_at(*old(camera)),
                to,
                initial_velocity: Float::whole(0),
                config,
                value: stands_at(*old(camera)),
            },
        ),
{
}

/// A camera that is stopped is at rest where it stands.
pub proof fn law_stop(camera: &mut AxisCamera)
    requires
        call_ensures(AxisCamera::stop, (camera,), ()),
    ensures
        *final(camera) == AxisCamera::Static(stands_at(*old(camera))),
{
}

/// A camera goes on with its samples, and comes to rest at its end with the last one.
pub proof fn law_advance(camera: &mut AxisCamera, sample: AnimationSample)
    ensures
        call_ensures(AxisCamera::advance, (camera, sample), ()) ==> moves_on(
            *old(camera),
            *final(camera),
            sample,
        ),
        call_ensures(AxisCamera::stand_at, (camera, sample.value), ()) ==> moves_on(
            *old(camera),
            *final(camera),
            AnimationSample { is_done: false, ..sample },
        ),
{
}

// --- tiles ---

/// A tile takes over its measures and its configuration, and gives its picture away once.
pub proof fn law_tiles<W: LayoutElement>(
    tile: &mut Tile<W>,
    measures: TileMeasures,
    view_size: Size,
    scale: Float,
    options: Options,
    r: Option<TileRenderSnapshot>,
)
    ensures
        call_ensures(Tile::<W>::measure, (tile, measures), ()) ==> is_measured(
            *old(tile),
            *final(tile),
            measures,
        ),
        call_ensures(Tile::<W>::update_config, (tile, view_size, scale, options), ())
            ==> *final(tile) == (Tile { view_size, scale, options, ..*old(tile) }),
        call_ensures(Tile::<W>::take_unmap_snapshot, (tile,), r) ==> {
            &&& r == old(tile).unmap_snapshot
            &&& *final(tile) == (Tile { unmap_snapshot: None::<TileRenderSnapshot>, ..*old(tile) })
        },
{
}

// --- windows kept as records ---

/// A record says what it holds.
pub proof fn law_records_say(window: &WindowRecord)
    ensures
        window.state().id == window.id,
        window.state().size == window.size,
        window.state().expected_size == window.expected_size,
        window.state().min_size == window.min_size,
        window.state().max_size == window.max_size,
{
}

/// A record that is asked for a size notes the request last and expects that size. Nothing else of
/// it changes.
pub proof fn law_requests_are_noted(
    before: WindowRecord,
    size: WindowSize,
    animate: bool,
    after: WindowRecord,
)
    requires
        WindowRecord::size_requested(before, size, animate, after),
    ensures
        ({
            let n = before.requests@.len() as int;
            &&& after.requests@.len() == n + 1
            &&& after.requests@[n].size == size
            &&& after.requests@[n].animate == animate
            &&& forall|k: int| 0 <= k < n ==> #[trigger] after.requests@[k] == before.requests@[k]
        }),
        after.expected_size == Some(size),
        after.id == before.id,
        after.size == before.size,
        after.min_size == before.min_size,
        after.max_size == before.max_size,
        after.last_commit == before.last_commit,
{
    law_records_say(&before);
    law_records_say(&after);
}

/// A record notes the last commit. Nothing else of it changes, its requests neither.
pub proof fn law_commits_are_noted(before: WindowRecord, serial: u32, after: WindowRecord)
    requires
        WindowRecord::commit_noted(before, serial, after),
    ensures
        after.last_commit == Some(serial),
        after.requests@ == before.requests@,
        after.id == before.id,
        after.size == before.size,
        after.expected_size == before.expected_size,
        after.min_size == before.min_size,
        after.max_size == before.max_size,
{
    law_records_say(&before);
    law_records_say(&after);
}

// --- sides ---

/// A side that is changed is what the laws on sizes say.
pub proof fn law_change_side(
    change: SizeChange,
    window: i32,
    tile: Float,
    frame: Float,
    available: Float,
    r: Float,
)
    requires
        call_ensures(change_side, (change, window, tile, frame, available), r),
    ensures
        r == changed_side(change, window, tile, frame, available),
        change matches SizeChange::SetFixed(px) ==> r == Float::whole(px as int),
{
}

/// The pixels asked for are the nearest ones, and a window's bounds stop only what is past them.
pub proof fn law_pixels_within_bounds(side: Float, x: i32, min_size: i32, max_size: i32, r: i32)
    ensures
        call_ensures(to_whole_pixels, (side,), r) ==> r == whole_pixels(side),
        call_ensures(ensure_min_max_size, (x, min_size, max_size), r) ==> is_bounded(
            r as int,
            x as int,
            min_size as int,
            max_size as int,
        ),
{
}

// --- focus ---

/// A score is given to what lies strictly in the direction, and adds the distance along it to twice
/// the distance across it.
pub proof fn law_score_for(direction: SpatialDirection, dx: Float, dy: Float, r: Option<Float>)
    requires
        call_ensures(score_for, (direction, dx, dy), r),
        dx.spec_is_finite(),
        dy.spec_is_finite(),
    ensures
        ({
            let two = Float::whole(2);
            let along = match direction {
                SpatialDirection::Right => dx,
                SpatialDirection::Left => dx.spec_neg(),
                SpatialDirection::Down => dy,
                SpatialDirection::Up => dy.spec_neg(),
            };
            let across = match direction {
                SpatialDirection::Right | SpatialDirection::Left => dy,
                SpatialDirection::Down | SpatialDirection::Up => dx,
            };
            &&& r is Some <==> along.units() > 0
            &&& r matches Some(s) ==> s == along.spec_add(two.spec_mul(across.spec_abs()))
        }),
{
    lemma_whole(0);
    assert(0 * pow2(UNIT_EXPONENT as nat) == 0) by (nonlinear_arith);
    lemma_neg(dx);
    lemma_neg(dy);
}

/// The tile that the focus goes to is a nearest one whose middle lies strictly beyond, exactly if
/// there is one.
pub proof fn law_focus_target<W: LayoutElement>(
    tiles: &Vec<Tile<W>>,
    id: u64,
    direction: SpatialDirection,
    r: Option<usize>,
    a: int,
)
    requires
        call_ensures(focus_target::<W>, (tiles, id, direction), r),
        0 <= a < tiles@.len(),
        tiles@[a].window.state().id == id,
        forall|k: int|
            0 <= k < tiles@.len() && k != a ==> (#[trigger] tiles@[k]).window.state().id != id,
        forall|k: int|
            0 <= k < tiles@.len() ==> middle(#[trigger] tiles@[k]).x.spec_is_finite() && middle(
                tiles@[k],
            ).y.spec_is_finite(),
    ensures
        r is Some <==> exists|j: int|
            0 <= j < tiles@.len() && lies_beyond(
                direction,
                middle(tiles@[a]),
                middle(#[trigger] tiles@[j]),
            ),
        r matches Some(i) ==> is_nearest_beyond(tiles@, direction, a, i as int),
{
    let found = exists|i: int| #[trigger] is_focus_target(tiles@, id, direction, i);
    let some = exists|j: int|
        0 <= j < tiles@.len() && lies_beyond(
            direction,
            middle(tiles@[a]),
            middle(#[trigger] tiles@[j]),
        );
    assert(found == some) by {
        law_focus_goes_beyond(tiles@, id, direction, a);
    }
    if r is Some {
        lemma_target_is_nearest_beyond(tiles@, id, direction, a, r->0 as int);
    }
}

// --- the grab ---

/// A grab begins where the pointer is, for the button that opened it.
pub proof fn law_grabs_begin(location: Point, button: u32, r: PanCameraGrab)
    requires
        call_ensures(PanCameraGrab::new, (location, button), r),
    ensures
        r.spec_start_location() == location,
        r.last_location() == location,
        r.opened_by() == button,
        forall|s: Point| #[trigger]
            call_ensures(PanCameraGrab::start_location, (&r,), s) ==> s == location,
{
}

/// A grab ends when the button that opened it is released, and with no other event.
pub proof fn law_grabs_end(grab: &PanCameraGrab, button: u32, state: ButtonState, r: bool)
    requires
        call_ensures(PanCameraGrab::button, (grab, button, state), r),
    ensures
        r <==> button == grab.opened_by() && state == ButtonState::Released,
{
}

/// A motion pans by how far the pointer went since the last one, if it went anywhere, and the next
/// one starts from there. Where the grab began, and with which button, stays.
pub proof fn law_grabs_follow(grab: &mut PanCameraGrab, location: Point, r: Option<Point>)
    requires
        call_ensures(PanCameraGrab::motion, (grab, location), r),
        old(grab).last_location().x.spec_is_finite() && old(
            grab,
        ).last_location().y.spec_is_finite(),
        location.x.spec_is_finite() && location.y.spec_is_finite(),
    ensures
        final(grab).last_location() == location,
        final(grab).spec_start_location() == old(grab).spec_start_location(),
        final(grab).opened_by() == old(grab).opened_by(),
        ({
            let from = old(grab).last_location();
            &&& r is None <==> location.x.units() == from.x.units() && location.y.units()
                == from.y.units()
            &&& r matches Some(delta) ==> {
                &&& delta.x == location.x.spec_sub(from.x)
                &&& delta.y == location.y.spec_sub(from.y)
            }
        }),
{
    law_motion_pans_by_the_way_it_went(old(grab).last_location(), location);
}

} // verus!
