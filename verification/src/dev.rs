//! Developer tooling: the player sprite spawn and its frame animation.
//!
//! The player ("Lira") is an 8-frame idle animation advanced at 6 frames a
//! second by an explicit elapsed-time accumulator, registered as both the
//! camera's followed entity and the movement system's controlled entity.

use crate::camera::CameraResource;
use crate::movement::ControlledEntity;
use crate::movement::Movement;
use crate::units::Vec2M;
use vstd::prelude::*;

verus! {

/// The animation runs at 6 frames per second, so one frame lasts a sixth of
/// a second, in microseconds.
pub const ANIMATION_PERIOD_MICROS: u64 = 1_000_000 / 6;

/// The first and last atlas frames of an animation cycle.
#[derive(Clone, Copy, PartialEq, Eq, Structural, Debug)]
pub struct AnimationIndices {
    pub first: usize,
    pub last: usize,
}

/// A repeating timer: fires each time the accumulated elapsed time crosses
/// the period, keeping the overshoot.
#[derive(Clone, Copy, PartialEq, Eq, Structural, Debug)]
pub struct AnimationTimer {
    /// Time accumulated since the last firing, in microseconds; always
    /// below the period.
    pub elapsed_micros: u64,
    /// The firing period in microseconds.
    pub period_micros: u64,
}

impl AnimationTimer {
    /// The accumulator is strictly inside one period.
    pub open spec fn wf(self) -> bool {
        1 <= self.period_micros && self.elapsed_micros < self.period_micros
    }

    /// A fresh repeating timer with the given period.
    pub fn new(period_micros: u64) -> (r: AnimationTimer)
        requires
            1 <= period_micros,
        ensures
            r.period_micros == period_micros,
            r.elapsed_micros == 0,
            r.wf(),
    {
        AnimationTimer { elapsed_micros: 0, period_micros }
    }

    /// Advances the timer by a frame's elapsed time: reports whether the
    /// period was crossed, and keeps the remainder toward the next firing.
    pub fn tick(&mut self, delta_micros: u64) -> (fired: bool)
        requires
            old(self).wf(),
            delta_micros <= u64::MAX - old(self).period_micros,
        ensures
            fired == (old(self).elapsed_micros + delta_micros >= old(self).period_micros),
            final(self).elapsed_micros == (old(self).elapsed_micros + delta_micros) % (old(
                self,
            ).period_micros as int),
            final(self).period_micros == old(self).period_micros,
            final(self).wf(),
    {
        let total: u64 = self.elapsed_micros + delta_micros;
        if total >= self.period_micros {
            self.elapsed_micros = total % self.period_micros;
            true
        } else {
            proof {
                vstd::arithmetic::div_mod::lemma_small_mod(
                    total as nat,
                    self.period_micros as nat,
                );
            }
            self.elapsed_micros = total;
            false
        }
    }
}

/// The atlas frame that follows `index` in the cycle `[first, last]`:
/// one further, wrapping back to `first` after `last`.
pub open spec fn spec_next_frame(index: usize, indices: AnimationIndices) -> usize {
    if index == indices.last {
        indices.first
    } else {
        (index + 1) as usize
    }
}

/// One frame of sprite animation for one entity: advances the timer, and
/// when it fires steps the atlas frame forward, wrapping from `last` back
/// to `first`.
pub fn animate_sprite(
    indices: &AnimationIndices,
    timer: &mut AnimationTimer,
    atlas_index: &mut usize,
    delta_micros: u64,
)
    requires
        old(timer).wf(),
        delta_micros <= u64::MAX - old(timer).period_micros,
        *old(atlas_index) < usize::MAX,
    ensures
        final(timer).period_micros == old(timer).period_micros,
        final(timer).elapsed_micros == (old(timer).elapsed_micros + delta_micros) % (old(
            timer,
        ).period_micros as int),
        final(timer).wf(),
        old(timer).elapsed_micros + delta_micros >= old(timer).period_micros ==> *final(atlas_index)
            == spec_next_frame(*old(atlas_index), *indices),
        old(timer).elapsed_micros + delta_micros < old(timer).period_micros ==> *final(atlas_index)
            == *old(atlas_index),
{
    let fired: bool = timer.tick(delta_micros);
    if fired {
        if *atlas_index == indices.last {
            *atlas_index = indices.first;
        } else {
            *atlas_index = *atlas_index + 1;
        }
    }
}

/// Everything the engine shell needs to spawn the player sprite: the atlas
/// grid of the idle animation, the starting transform, the animation cycle
/// and timer, and a default movement record.
#[derive(Clone, Copy, PartialEq, Eq, Structural, Debug)]
pub struct LiraSpawn {
    /// Width of one atlas frame, in pixels.
    pub frame_width: u32,
    /// Height of one atlas frame, in pixels.
    pub frame_height: u32,
    /// Atlas columns.
    pub columns: u32,
    /// Atlas rows.
    pub rows: u32,
    /// Starting world translation, milli-units.
    pub position: Vec2M,
    /// Starting depth, milli-units.
    pub z: i64,
    /// The atlas frame the sprite starts on.
    pub initial_atlas_index: usize,
    pub indices: AnimationIndices,
    pub timer: AnimationTimer,
    pub movement: Movement,
}

/// Describes the player spawn — an 8-frame 75 by 127 idle strip at the
/// origin, depth 100, animated from frame 0 to 7 at 6 frames a second,
/// moving with the default record — and registers the new entity as both
/// the followed and the controlled entity.
pub fn spawn_lira(
    camera_resource: &mut CameraResource,
    controlled_entity: &mut ControlledEntity,
    lira: u64,
) -> (r: LiraSpawn)
    ensures
        r.frame_width == 75 && r.frame_height == 127,
        r.columns == 8 && r.rows == 1,
        r.position == (Vec2M { x: 0, y: 0 }) && r.z == 100_000,
        r.indices == (AnimationIndices { first: 0, last: 7 }),
        r.initial_atlas_index == r.indices.first,
        r.timer.period_micros == ANIMATION_PERIOD_MICROS && r.timer.elapsed_micros == 0,
        r.movement == (Movement {
            speed: 100_000,
            destination: None::<Vec2M>,
            velocity_desire: Vec2M { x: 0, y: 0 },
            velocity: Vec2M { x: 0, y: 0 },
            inertia_ratio: 100,
        }),
        r.movement.wf(),
        *final(camera_resource) == (CameraResource {
            followed_entity: Some(lira),
            ..*old(camera_resource)
        }),
        final(controlled_entity).0 == Some(lira),
{
    let spawn = LiraSpawn {
        frame_width: 75,
        frame_height: 127,
        columns: 8,
        rows: 1,
        position: Vec2M { x: 0, y: 0 },
        z: 100_000,
        initial_atlas_index: 0,
        indices: AnimationIndices { first: 0, last: 7 },
        timer: AnimationTimer::new(ANIMATION_PERIOD_MICROS),
        movement: Movement::default(),
    };
    camera_resource.followed_entity = Some(lira);
    controlled_entity.0 = Some(lira);
    spawn
}

} // verus!
