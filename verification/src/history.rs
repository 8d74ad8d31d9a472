//! What holds of a canvas throughout its life, whatever is done with it.

use crate::camera::AnimationSample;
use crate::float::Float;
use crate::focus::{is_focus_target, SpatialDirection};
use crate::geometry::{Point, Rectangle, Size};
use crate::laws::{
    law_configuration_reaches_every_tile, law_focusing_keeps_the_invariants,
    law_gestures_keep_the_invariants, law_invariants_are_kept, law_measuring_keeps_the_invariants,
    law_requests_keep_the_invariants, law_resizing_keeps_the_invariants,
    law_tile_operations_keep_the_focus, law_window_changes_keep_the_invariants, lemma_first,
    lemma_same_ids, lemma_unique_ids,
};
use crate::sizing::SizeChange;
use crate::state::{first, CanvasView, ClosingWindow, ResizeEdge};
use crate::tile::{LayoutElement, Options, Tile, TileMeasures};
use vstd::prelude::*;

verus! {

/// One call that can change a canvas, with what it was given.
pub enum Operation<W> {
    /// `update_config`.
    Configure { view_size: Size, working_area: Rectangle, scale: Float, options: Options },
    /// `add_tile`.
    Add { tile: Tile<W>, canvas_pos: Point },
    /// `remove_tile`.
    Remove { id: u64 },
    /// `activate_window` and `activate_window_without_raising`.
    Activate { id: u64 },
    /// `move_tile_to`.
    Move { id: u64, canvas_pos: Point },
    /// `tiles_mut` and `tiles_with_render_positions_mut`, through which ids are not altered.
    ChangeTiles { tiles: Seq<Tile<W>> },
    /// `active_window_mut`, through which the id is not altered.
    ChangeActiveWindow { window: W },
    /// `update_window`.
    UpdateWindow { id: u64, serial: Option<u32>, window: W, measures: TileMeasures },
    /// `set_view_pos`.
    Jump { pos: Point },
    /// `animate_view_pos_x`.
    HeadX { x: Float },
    /// `animate_view_pos_y`.
    HeadY { y: Float },
    /// `pan_camera`.
    Pan { dx: Float, dy: Float },
    /// `bring_active_tile_into_view`.
    ShowActive,
    /// `move_active_by` and the moves in a direction.
    MoveActive { amount: Point },
    /// `focus_spatial`.
    Focus { direction: SpatialDirection },
    /// `interactive_resize_begin`.
    BeginResize { id: u64, edges: ResizeEdge },
    /// `interactive_resize_update`.
    FollowResize { id: u64, delta: Point },
    /// `interactive_resize_end`.
    EndResize { target: Option<u64> },
    /// `set_window_width`.
    SetWidth { target: Option<u64>, change: SizeChange, animate: bool },
    /// `set_window_height`.
    SetHeight { target: Option<u64>, change: SizeChange, animate: bool },
    /// `start_close_animation_for_window`.
    TakePicture { id: u64 },
    /// `add_closing_window`.
    AddClosing { made: Option<ClosingWindow> },
    /// `sample_camera`.
    SampleCamera { x: Float, y: Float },
    /// `advance_animations`.
    Advance {
        camera_x: AnimationSample,
        camera_y: AnimationSample,
        advanced: Seq<TileMeasures>,
        ongoing: Seq<bool>,
    },
    /// `update_canvas_positions`, and every call that only reads.
    Nothing,
}

impl<W: LayoutElement> Operation<W> {
    /// Whether the call can turn the canvas `v` into `after`.
    pub open spec fn leads(self, v: CanvasView<W>, after: CanvasView<W>) -> bool {
        match self {
            Operation::Configure { view_size, working_area, scale, options } => after
                == v.configured(view_size, working_area, scale, options),
            Operation::Add { tile, canvas_pos } => after == v.added(tile, canvas_pos),
            Operation::Remove { id } => after == v.removed(id),
            Operation::Activate { id } => after == v.activated(id),
            Operation::Move { id, canvas_pos } => after == v.moved(id, canvas_pos),
            Operation::ChangeTiles { tiles } => {
                &&& tiles.len() == v.tiles.len()
                &&& forall|i: int|
                    0 <= i < tiles.len() ==> (#[trigger] tiles[i]).id() == v.tiles[i].id()
                &&& after == (CanvasView { tiles, ..v })
            },
            Operation::ChangeActiveWindow { window } => match v.active() {
                Some(i) => window.state().id == v.tiles[i].id() && after == v.with_window(
                    i,
                    window,
                ),
                None => after == v,
            },
            Operation::UpdateWindow { id, serial, window, measures } => if v.holds(id) {
                let i = first(v.tiles, id);
                v.committed(i, serial, window) && after == v.updated(i, window, measures)
            } else {
                after == v
            },
            Operation::Jump { pos } => after == v.viewed_at(pos),
            Operation::HeadX { x } => after == v.headed_x(x),
            Operation::HeadY { y } => after == v.headed_y(y),
            Operation::Pan { dx, dy } => after == v.panned(dx, dy),
            Operation::ShowActive => after == v.active_shown(),
            Operation::MoveActive { amount } => after == v.active_moved(amount),
            Operation::Focus { direction } => v.focused(direction, after),
            Operation::BeginResize { id, edges } => after == v.resize_begun(id, edges),
            Operation::FollowResize { id, delta } => v.resize_followed(id, delta, after),
            Operation::EndResize { target } => after == v.resize_ended(target),
            Operation::SetWidth { target, change, animate } => v.width_set(
                target,
                change,
                animate,
                after,
            ),
            Operation::SetHeight { target, change, animate } => v.height_set(
                target,
                change,
                animate,
                after,
            ),
            Operation::TakePicture { id } => after == v.picture_taken(id),
            Operation::AddClosing { made } => after == v.with_closing(made),
            Operation::SampleCamera { x, y } => after == v.standing_at(x, y),
            Operation::Advance { camera_x, camera_y, advanced, ongoing } => {
                &&& advanced.len() == v.tiles.len()
                &&& ongoing.len() == v.closing_windows.len()
                &&& after == v.sampled(camera_x, camera_y, advanced, ongoing)
            },
            Operation::Nothing => after == v,
        }
    }

    /// Whether the call hands the canvas `v` only what the invariants ask for: tiles that are new,
    /// have its configuration and keep what they must themselves, and a scale and a view that are
    /// numbers.
    pub open spec fn is_proper(self, v: CanvasView<W>) -> bool {
        match self {
            Operation::Configure { view_size, scale, .. } => {
                &&& Float::whole(0).spec_lt(scale)
                &&& scale.spec_is_finite()
                &&& !view_size.w.spec_is_nan()
                &&& !view_size.h.spec_is_nan()
            },
            Operation::Add { tile, .. } => !v.holds(tile.id()) && v.is_sound(tile),
            Operation::ChangeTiles { tiles } => forall|i: int|
                0 <= i < tiles.len() ==> v.is_sound(#[trigger] tiles[i]),
            Operation::UpdateWindow { measures, .. } => measures.is_valid,
            Operation::Advance { advanced, .. } => forall|i: int|
                0 <= i < advanced.len() ==> (#[trigger] advanced[i]).is_valid,
            _ => true,
        }
    }
}

/// Whether `states` are what a canvas went through, from a new one on, by the calls in `calls`.
pub open spec fn is_history<W: LayoutElement>(
    states: Seq<CanvasView<W>>,
    calls: Seq<Operation<W>>,
    view_size: Size,
    working_area: Rectangle,
    scale: Float,
    options: Options,
) -> bool {
    &&& states.len() == calls.len() + 1
    &&& states[0] == CanvasView::<W>::empty(view_size, working_area, scale, options)
    &&& forall|k: int|
        0 <= k < calls.len() ==> (#[trigger] calls[k]).leads(states[k], states[k + 1])
}

/// One call keeps the focus.
proof fn lemma_focus_is_kept<W: LayoutElement>(
    call: Operation<W>,
    v: CanvasView<W>,
    after: CanvasView<W>,
)
    requires
        v.has_focus(),
        call.leads(v, after),
    ensures
        after.has_focus(),
{
    match call {
        Operation::Configure { .. } => lemma_same_ids(v.tiles, after.tiles),
        Operation::Add { tile, canvas_pos } => law_tile_operations_keep_the_focus(
            v,
            tile,
            0,
            canvas_pos,
        ),
        Operation::Remove { id } => law_tile_operations_keep_the_focus(
            v,
            arbitrary(),
            id,
            arbitrary(),
        ),
        Operation::Activate { id } => law_tile_operations_keep_the_focus(
            v,
            arbitrary(),
            id,
            arbitrary(),
        ),
        Operation::Move { id, canvas_pos } => law_tile_operations_keep_the_focus(
            v,
            arbitrary(),
            id,
            canvas_pos,
        ),
        Operation::ChangeTiles { tiles } => lemma_same_ids(tiles, v.tiles),
        Operation::ChangeActiveWindow { window } => {
            if v.active() is Some {
                lemma_first(v.tiles, v.active_id->0);
                law_window_changes_keep_the_invariants(v, v.active()->0, window);
            }
        },
        Operation::UpdateWindow { id, window, .. } => {
            if v.holds(id) {
                lemma_first(v.tiles, id);
                lemma_same_ids(v.tiles, after.tiles);
            }
        },
        Operation::MoveActive { amount } => law_tile_operations_keep_the_focus(
            v,
            arbitrary(),
            0,
            amount,
        ),
        Operation::Focus { direction } => {
            if after != v {
                let i = choose|i: int| #[trigger]
                    is_focus_target(v.tiles, v.active_id->0, direction, i) && after == (
                    CanvasView { active_id: Some(v.tiles[i].id()), ..v }).active_shown();
                law_focusing_keeps_the_invariants(v, direction, i);
            }
        },
        Operation::FollowResize { id, delta } => law_resizing_keeps_the_invariants(
            v,
            id,
            delta,
            after,
        ),
        Operation::SetWidth { target, change, animate } => law_requests_keep_the_invariants(
            v,
            target,
            change,
            animate,
            after,
        ),
        Operation::SetHeight { target, change, animate } => law_requests_keep_the_invariants(
            v,
            target,
            change,
            animate,
            after,
        ),
        Operation::TakePicture { id } => {
            if v.holds(id) {
                lemma_first(v.tiles, id);
                lemma_same_ids(v.tiles, after.tiles);
            }
        },
        Operation::Advance { .. } => lemma_same_ids(v.tiles, after.tiles),
        _ => {},
    }
}

/// One proper call keeps the invariants.
proof fn lemma_invariants_are_kept<W: LayoutElement>(
    call: Operation<W>,
    v: CanvasView<W>,
    after: CanvasView<W>,
)
    requires
        v.has_focus(),
        v.invariants_hold(),
        call.leads(v, after),
        call.is_proper(v),
    ensures
        after.invariants_hold(),
{
    match call {
        Operation::Configure { view_size, working_area, scale, options } => {
            assert forall|i: int| 0 <= i < v.tiles.len() implies (
            #[trigger] v.tiles[i]).is_valid by {
                assert(v.is_sound(v.tiles[i]));
            }
            law_configuration_reaches_every_tile(v, view_size, working_area, scale, options);
        },
        Operation::Add { tile, canvas_pos } => law_invariants_are_kept(v, tile, 0, canvas_pos),
        Operation::Remove { id } => law_invariants_are_kept(v, arbitrary(), id, arbitrary()),
        Operation::Activate { id } => law_invariants_are_kept(v, arbitrary(), id, arbitrary()),
        Operation::Move { id, canvas_pos } => law_invariants_are_kept(
            v,
            arbitrary(),
            id,
            canvas_pos,
        ),
        Operation::ChangeTiles { tiles } => {
            lemma_same_ids(tiles, v.tiles);
            lemma_unique_ids(v, after);
            assert forall|i: int| 0 <= i < after.tiles.len() implies after.is_sound(
                #[trigger] after.tiles[i],
            ) by {
                assert(v.is_sound(tiles[i]));
            }
        },
        Operation::ChangeActiveWindow { window } => {
            if v.active() is Some {
                lemma_first(v.tiles, v.active_id->0);
                law_window_changes_keep_the_invariants(v, v.active()->0, window);
            }
        },
        Operation::UpdateWindow { id, window, measures, .. } => {
            if v.holds(id) {
                lemma_first(v.tiles, id);
                law_measuring_keeps_the_invariants(
                    v,
                    arbitrary(),
                    arbitrary(),
                    Seq::new(v.tiles.len(), |i: int| measures),
                    Seq::empty(),
                    first(v.tiles, id),
                    window,
                    measures,
                );
            }
        },
        Operation::Jump { pos } => law_gestures_keep_the_invariants(
            v,
            pos,
            0,
            arbitrary(),
            None,
            None,
        ),
        Operation::HeadX { x } => law_gestures_keep_the_invariants(
            v,
            Point { x, y: x },
            0,
            arbitrary(),
            None,
            None,
        ),
        Operation::HeadY { y } => law_gestures_keep_the_invariants(
            v,
            Point { x: y, y },
            0,
            arbitrary(),
            None,
            None,
        ),
        Operation::Pan { dx, dy } => law_gestures_keep_the_invariants(
            v,
            Point { x: dx, y: dy },
            0,
            arbitrary(),
            None,
            None,
        ),
        Operation::ShowActive => law_gestures_keep_the_invariants(
            v,
            arbitrary(),
            0,
            arbitrary(),
            None,
            None,
        ),
        Operation::MoveActive { amount } => law_invariants_are_kept(v, arbitrary(), 0, amount),
        Operation::Focus { direction } => {
            if after != v {
                let i = choose|i: int| #[trigger]
                    is_focus_target(v.tiles, v.active_id->0, direction, i) && after == (
                    CanvasView { active_id: Some(v.tiles[i].id()), ..v }).active_shown();
                law_focusing_keeps_the_invariants(v, direction, i);
            }
        },
        Operation::BeginResize { id, edges } => law_gestures_keep_the_invariants(
            v,
            arbitrary(),
            id,
            edges,
            None,
            None,
        ),
        Operation::FollowResize { id, delta } => law_resizing_keeps_the_invariants(
            v,
            id,
            delta,
            after,
        ),
        Operation::EndResize { target } => law_gestures_keep_the_invariants(
            v,
            arbitrary(),
            0,
            arbitrary(),
            target,
            None,
        ),
        Operation::SetWidth { target, change, animate } => law_requests_keep_the_invariants(
            v,
            target,
            change,
            animate,
            after,
        ),
        Operation::SetHeight { target, change, animate } => law_requests_keep_the_invariants(
            v,
            target,
            change,
            animate,
            after,
        ),
        Operation::TakePicture { id } => law_gestures_keep_the_invariants(
            v,
            arbitrary(),
            id,
            arbitrary(),
            None,
            None,
        ),
        Operation::AddClosing { made } => law_gestures_keep_the_invariants(
            v,
            arbitrary(),
            0,
            arbitrary(),
            None,
            made,
        ),
        Operation::SampleCamera { x, y } => law_gestures_keep_the_invariants(
            v,
            Point { x, y },
            0,
            arbitrary(),
            None,
            None,
        ),
        Operation::Advance { camera_x, camera_y, advanced, ongoing } => {
            law_measuring_keeps_the_invariants(
                v,
                camera_x,
                camera_y,
                advanced,
                ongoing,
                -1,
                arbitrary(),
                arbitrary(),
            )
        },
        Operation::Nothing => {},
    }
}

/// Throughout the life of a canvas there is an active window, and an active id, exactly while the
/// canvas is not empty, and the window with that id is on the canvas.
pub proof fn law_something_is_always_active<W: LayoutElement>(
    states: Seq<CanvasView<W>>,
    calls: Seq<Operation<W>>,
    view_size: Size,
    working_area: Rectangle,
    scale: Float,
    options: Options,
    k: int,
)
    requires
        is_history(states, calls, view_size, working_area, scale, options),
        0 <= k < states.len(),
    ensures
        ({
            let v = states[k];
            &&& v.has_focus()
            &&& v.active() is Some <==> v.tiles.len() > 0
            &&& v.active_id is Some <==> v.tiles.len() > 0
            &&& v.active() matches Some(i) ==> {
                &&& 0 <= i < v.tiles.len()
                &&& v.active_id == Some(v.tiles[i].id())
            }
        }),
    decreases k,
{
    if k > 0 {
        law_something_is_always_active(
            states,
            calls,
            view_size,
            working_area,
            scale,
            options,
            k - 1,
        );
        assert(calls[k - 1].leads(states[k - 1], states[k - 1 + 1]));
        lemma_focus_is_kept(calls[k - 1], states[k - 1], states[k]);
    }
    let v = states[k];
    if v.active() is Some {
        lemma_first(v.tiles, v.active_id->0);
    }
}

/// The invariants hold at all times: throughout the life of a canvas with a positive scale, as long
/// as its callers hand it only what the invariants ask for.
pub proof fn law_invariants_hold_at_all_times<W: LayoutElement>(
    states: Seq<CanvasView<W>>,
    calls: Seq<Operation<W>>,
    view_size: Size,
    working_area: Rectangle,
    scale: Float,
    options: Options,
    k: int,
)
    requires
        is_history(states, calls, view_size, working_area, scale, options),
        Float::whole(0).spec_lt(scale),
        scale.spec_is_finite(),
        forall|j: int| 0 <= j < calls.len() ==> (#[trigger] calls[j]).is_proper(states[j]),
        0 <= k < states.len(),
    ensures
        states[k].invariants_hold(),
    decreases k,
{
    if k > 0 {
        law_invariants_hold_at_all_times(
            states,
            calls,
            view_size,
            working_area,
            scale,
            options,
            k - 1,
        );
        law_something_is_always_active(
            states,
            calls,
            view_size,
            working_area,
            scale,
            options,
            k - 1,
        );
        assert(calls[k - 1].leads(states[k - 1], states[k - 1 + 1]));
        lemma_invariants_are_kept(calls[k - 1], states[k - 1], states[k]);
    }
}

} // verus!
