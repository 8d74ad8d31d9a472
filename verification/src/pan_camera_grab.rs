//! Pointer grab that pans the camera as the user drags the cursor.
//!
//! A small grab that turns pointer motion into camera deltas and ends when the originating button
//! is released. The host suppresses pointer focus meanwhile, forwards motion so that the cursor
//! still moves, and pans the active canvas by the deltas, so that the canvas point under the cursor
//! stays in place.

use crate::float::{lemma_add_exact, lemma_difference_sign, lemma_neg, lemma_whole, Float};
use crate::geometry::Point;
use crate::state::screen_base;
use vstd::prelude::*;

verus! {

/// Whether a button went down or up.
#[derive(Clone, Copy, Debug, PartialEq, Eq, Structural)]
pub enum ButtonState {
    Released,
    Pressed,
}

/// What a pointer that went from `from` to `to` pans by, if it moved.
pub open spec fn delta_between(from: Point, to: Point) -> Option<Point> {
    let delta = to.spec_sub(from);
    let zero = Float::whole(0);
    if delta.x.spec_same(zero) && delta.y.spec_same(zero) {
        None
    } else {
        Some(delta)
    }
}

/// A drag of the camera in flight.
#[derive(Debug)]
pub struct PanCameraGrab {
    /// Where the pointer was when the grab began.
    start_location: Point,
    /// Last cursor position observed; deltas are computed against this and then it advances.
    last_location: Point,
    /// Mouse button code that opened the grab. Releasing this button ends the grab.
    button: u32,
}

impl PanCameraGrab {
    pub closed spec fn spec_start_location(self) -> Point {
        self.start_location
    }

    pub closed spec fn last_location(self) -> Point {
        self.last_location
    }

    pub closed spec fn opened_by(self) -> u32 {
        self.button
    }

    pub fn new(start_location: Point, button: u32) -> (r: Self)
        ensures
            r.spec_start_location() == start_location,
            r.last_location() == start_location,
            r.opened_by() == button,
    {
        PanCameraGrab { start_location, last_location: start_location, button }
    }

    /// The pointer is now at `location`: what to pan the active canvas by, if it moved. If the
    /// canvas took it, everything is to be drawn anew. The motion is forwarded either way.
    pub fn motion(&mut self, location: Point) -> (r: Option<Point>)
        ensures
            final(self).spec_start_location() == old(self).spec_start_location(),
            final(self).last_location() == location,
            final(self).opened_by() == old(self).opened_by(),
            r == delta_between(old(self).last_location(), location),
    {
        let delta = location.sub(self.last_location);
        self.last_location = location;
        let zero = Float::from_i32(0);
        if !delta.x.same(zero) || !delta.y.same(zero) {
            Some(delta)
        } else {
            None
        }
    }

    /// Whether a button event ends the grab. All others are suppressed, so accidental clicks during
    /// a pan don't activate windows underneath.
    pub fn button(&self, button: u32, state: ButtonState) -> (r: bool)
        ensures
            r == (button == self.opened_by() && state == ButtonState::Released),
    {
        button == self.button && state == ButtonState::Released
    }

    /// Where the pointer was when the grab began.
    pub fn start_location(&self) -> (r: Point)
        ensures
            r == self.spec_start_location(),
    {
        self.start_location
    }
}

/// The canvas point under the pointer stays in place if the camera goes against the delta: what was
/// on the screen at some place is on it at that place plus the delta, where nothing is rounded.
pub proof fn law_point_under_the_pointer_stays(canvas: Point, view_pos: Point, delta: Point)
    requires
        canvas.subtracts_exactly(view_pos),
        view_pos.subtracts_exactly(delta),
        canvas.subtracts_exactly(view_pos.spec_sub(delta)),
    ensures
        ({
            let before = screen_base(canvas, view_pos);
            let after = screen_base(canvas, view_pos.spec_sub(delta));
            &&& after.x.units() == before.x.units() + delta.x.units()
            &&& after.y.units() == before.y.units() + delta.y.units()
        }),
{
    lemma_neg(view_pos.x);
    lemma_neg(view_pos.y);
    lemma_neg(delta.x);
    lemma_neg(delta.y);
    lemma_neg(view_pos.spec_sub(delta).x);
    lemma_neg(view_pos.spec_sub(delta).y);
}

/// A pointer pans by how far it went, on each axis, unless it is where it was; however little it
/// went, it pans.
pub proof fn law_motion_pans_by_the_way_it_went(from: Point, to: Point)
    requires
        from.x.spec_is_finite() && from.y.spec_is_finite(),
        to.x.spec_is_finite() && to.y.spec_is_finite(),
    ensures
        ({
            let delta = delta_between(from, to);
            &&& delta is None <==> to.x.units() == from.x.units() && to.y.units() == from.y.units()
            &&& delta matches Some(d) ==> {
                &&& to.x.subtracts_exactly(from.x) ==> d.x.units() == to.x.units() - from.x.units()
                &&& to.y.subtracts_exactly(from.y) ==> d.y.units() == to.y.units() - from.y.units()
                &&& d.x == to.x.spec_sub(from.x) && d.y == to.y.spec_sub(from.y)
                &&& d.x.units() > 0 <==> to.x.units() > from.x.units()
                &&& d.y.units() > 0 <==> to.y.units() > from.y.units()
                &&& d.x.units() < 0 <==> to.x.units() < from.x.units()
                &&& d.y.units() < 0 <==> to.y.units() < from.y.units()
            }
        }),
{
    lemma_whole(0);
    lemma_neg(from.x);
    lemma_neg(from.y);
    lemma_difference_sign(to.x, from.x);
    lemma_difference_sign(to.y, from.y);
}

/// A pointer that did not move pans nothing, and where nothing is rounded the deltas of two motions
/// make up the delta from the first place to the last.
pub proof fn law_deltas_add_up(from: Point, between: Point, to: Point)
    requires
        between.subtracts_exactly(from),
        to.subtracts_exactly(between),
        to.subtracts_exactly(from),
    ensures
        to.spec_sub(from).x.units() == between.spec_sub(from).x.units() + to.spec_sub(
            between,
        ).x.units(),
        to.spec_sub(from).y.units() == between.spec_sub(from).y.units() + to.spec_sub(
            between,
        ).y.units(),
        from.spec_sub(from).x.spec_same(Float::whole(0)),
        from.spec_sub(from).y.spec_same(Float::whole(0)),
{
    lemma_neg(from.x);
    lemma_neg(from.y);
    lemma_neg(between.x);
    lemma_neg(between.y);
    lemma_whole(0);
    lemma_add_exact(from.x, from.x.spec_neg(), Float::whole(0));
    lemma_add_exact(from.y, from.y.spec_neg(), Float::whole(0));
}

} // verus!
