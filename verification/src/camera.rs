//! One axis of the camera: at rest, or on its way along a spring.

use crate::float::Float;
use vstd::prelude::*;

verus! {

/// Names the curve of an animation among those that the host is configured with.
#[derive(Clone, Copy, Debug, PartialEq, Eq, Structural)]
pub struct AnimationConfig {
    pub handle: u64,
}

/// An animation of one value. The host runs the curve and reports where it stands.
#[derive(Clone, Copy, Debug)]
pub struct Animation {
    pub from: Float,
    pub to: Float,
    pub initial_velocity: Float,
    pub config: AnimationConfig,
    /// Where the curve stood when it was last sampled.
    pub value: Float,
}

/// Where an animation stands at one moment.
#[derive(Clone, Copy, Debug)]
pub struct AnimationSample {
    pub value: Float,
    pub is_done: bool,
}

impl Animation {
    /// An animation that has just started, standing where it starts from.
    pub open spec fn started(
        from: Float,
        to: Float,
        initial_velocity: Float,
        config: AnimationConfig,
    ) -> Animation {
        Animation { from, to, initial_velocity, config, value: from }
    }

    pub fn new(
        from: Float,
        to: Float,
        initial_velocity: Float,
        config: AnimationConfig,
    ) -> (r: Animation)
        ensures
            r == Animation::started(from, to, initial_velocity, config),
    {
        Animation { from, to, initial_velocity, config, value: from }
    }
}

/// Single-axis camera: a static value or a spring animation.
#[derive(Clone, Copy, Debug)]
pub enum AxisCamera {
    Static(Float),
    Animation(Animation),
}

impl AxisCamera {
    pub open spec fn spec_current(self) -> Float {
        match self {
            AxisCamera::Static(v) => v,
            AxisCamera::Animation(a) => a.value,
        }
    }

    pub open spec fn spec_target(self) -> Float {
        match self {
            AxisCamera::Static(v) => v,
            AxisCamera::Animation(a) => a.to,
        }
    }

    /// The camera once it heads for `to`: as it was if it already does, else on a new spring from
    /// where it stands.
    pub open spec fn headed(self, to: Float, config: AnimationConfig) -> AxisCamera {
        if self.spec_target().spec_same(to) {
            self
        } else {
            AxisCamera::Animation(
                Animation::started(self.spec_current(), to, Float::whole(0), config),
            )
        }
    }

    /// The camera at rest where it stands.
    pub open spec fn stopped(self) -> AxisCamera {
        AxisCamera::Static(self.spec_current())
    }

    /// The camera where its spring, if it is on one, stands at `value`.
    pub open spec fn standing_at(self, value: Float) -> AxisCamera {
        match self {
            AxisCamera::Static(v) => self,
            AxisCamera::Animation(a) => AxisCamera::Animation(Animation { value, ..a }),
        }
    }

    /// The camera at the moment of `sample`: at rest on its target once the animation is done.
    pub open spec fn sampled(self, sample: AnimationSample) -> AxisCamera {
        match self {
            AxisCamera::Static(v) => self,
            AxisCamera::Animation(a) => if sample.is_done {
                AxisCamera::Static(a.to)
            } else {
                AxisCamera::Animation(Animation { value: sample.value, ..a })
            },
        }
    }

    pub fn current(&self) -> (r: Float)
        ensures
            r == self.spec_current(),
    {
        match self {
            AxisCamera::Static(v) => *v,
            AxisCamera::Animation(a) => a.value,
        }
    }

    pub fn target(&self) -> (r: Float)
        ensures
            r == self.spec_target(),
    {
        match self {
            AxisCamera::Static(v) => *v,
            AxisCamera::Animation(a) => a.to,
        }
    }

    pub fn is_static(&self) -> (r: bool)
        ensures
            r == (self is Static),
    {
        match self {
            AxisCamera::Static(_) => true,
            AxisCamera::Animation(_) => false,
        }
    }

    pub fn is_animation_ongoing(&self) -> (r: bool)
        ensures
            r == (self is Animation),
    {
        match self {
            AxisCamera::Static(_) => false,
            AxisCamera::Animation(_) => true,
        }
    }

    /// Starts a spring toward `to`, unless the camera already heads there.
    pub fn animate_to(&mut self, to: Float, config: AnimationConfig)
        ensures
            *final(self) == old(self).headed(to, config),
    {
        if self.target().same(to) {
            return;
        }
        *self = AxisCamera::Animation(
            Animation::new(self.current(), to, Float::from_i32(0), config),
        );
    }

    /// Ends any animation where it stands.
    pub fn stop(&mut self)
        ensures
            *final(self) == old(self).stopped(),
    {
        *self = AxisCamera::Static(self.current());
    }

    /// Takes over where the spring stands, if the camera is on one.
    pub fn stand_at(&mut self, value: Float)
        ensures
            *final(self) == old(self).standing_at(value),
    {
        if let AxisCamera::Animation(a) = *self {
            *self = AxisCamera::Animation(Animation { value, ..a });
        }
    }

    /// Moves on to the moment of `sample`.
    pub fn advance(&mut self, sample: AnimationSample)
        ensures
            *final(self) == old(self).sampled(sample),
    {
        if let AxisCamera::Animation(a) = *self {
            if sample.is_done {
                *self = AxisCamera::Static(a.to);
            } else {
                *self = AxisCamera::Animation(Animation { value: sample.value, ..a });
            }
        }
    }
}

} // verus!
