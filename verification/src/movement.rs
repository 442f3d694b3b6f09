//! Player movement with inertia.
//!
//! Each frame, the left stick sets (or clears) a destination for the single
//! controlled entity; then, for every entity with a movement record, a
//! desired velocity toward the destination is clamped to the entity's speed
//! and the actual velocity is pulled toward it by an exponential smoothing
//! whose time constant is `inertia_ratio` milliseconds.  When the entity has
//! slowed below a tenth of its speed, the destination is considered reached
//! and cleared.
//!
//! Lengths are milli-units, times milliseconds, speeds milli-units per
//! second.

use crate::gamepad::GamepadState;
use crate::units::Vec2M;
use crate::units::clamp_length_max;
use crate::units::div_floor;
use crate::units::spec_clamp_length_max;
use vstd::prelude::*;

verus! {

/// The single entity currently receiving input-driven destinations, by its
/// identifier, if any.
#[derive(Clone, Copy, PartialEq, Eq, Structural, Debug)]
pub struct ControlledEntity(pub Option<u64>);

impl Default for ControlledEntity {
    /// No entity is controlled until one is spawned and registered.
    fn default() -> (r: ControlledEntity)
        ensures
            r.0 is None,
    {
        ControlledEntity(None)
    }
}

/// A per-entity movement record.
#[derive(Clone, Copy, PartialEq, Eq, Structural, Debug)]
pub struct Movement {
    /// Top speed, in milli-units per second.
    pub speed: i64,
    /// Where the entity is headed, if anywhere.
    pub destination: Option<Vec2M>,
    /// The velocity the entity would like to have: toward the destination,
    /// no longer than `speed`.
    pub velocity_desire: Vec2M,
    /// The velocity the entity actually has, in milli-units per second.
    pub velocity: Vec2M,
    /// The smoothing time constant pulling `velocity` toward
    /// `velocity_desire`, in milliseconds.
    pub inertia_ratio: i64,
}

/// Positions handed to the movement simulation stay within this many
/// milli-units of the origin, so the intermediate products of one
/// integration step fit in 64 bits.
pub const POSITION_LIMIT: i64 = 1_000_000_000;

/// Speeds stay within this many milli-units per second.
pub const SPEED_LIMIT: i64 = 1_000_000;

/// A frame never advances time by more than this many milliseconds.
pub const FRAME_DELTA_LIMIT: i64 = 60_000;

impl Movement {
    /// The record's fields are within the ranges the simulation maintains.
    pub open spec fn wf(self) -> bool {
        &&& 0 <= self.speed <= SPEED_LIMIT
        &&& 1 <= self.inertia_ratio <= 1_000_000
        &&& match self.destination {
            None => true,
            Some(d) => -POSITION_LIMIT - SPEED_LIMIT <= d.x <= POSITION_LIMIT + SPEED_LIMIT
                && -POSITION_LIMIT - SPEED_LIMIT <= d.y <= POSITION_LIMIT + SPEED_LIMIT,
        }
        &&& -SPEED_LIMIT <= self.velocity_desire.x <= SPEED_LIMIT
        &&& -SPEED_LIMIT <= self.velocity_desire.y <= SPEED_LIMIT
    }
}

impl Default for Movement {
    /// At rest with no destination: speed 100 units per second and a tenth
    /// of a second of inertia.
    fn default() -> (r: Movement)
        ensures
            r == (Movement {
                speed: 100_000,
                destination: None::<Vec2M>,
                velocity_desire: Vec2M { x: 0, y: 0 },
                velocity: Vec2M { x: 0, y: 0 },
                inertia_ratio: 100,
            }),
            r.wf(),
    {
        Movement {
            speed: 100_000,
            destination: None,
            velocity_desire: Vec2M { x: 0, y: 0 },
            velocity: Vec2M { x: 0, y: 0 },
            inertia_ratio: 100,
        }
    }
}

/// Sets or clears the controlled entity's destination from the left stick:
/// while the stick is outside the deadzone the destination is the current
/// position displaced by the stick deflection times the entity's speed;
/// once the stick falls back inside, the destination is cleared.
pub fn update_destination(gamepad: &GamepadState, position: Vec2M, movement: &mut Movement)
    requires
        gamepad.wf(),
        old(movement).wf(),
        -POSITION_LIMIT <= position.x <= POSITION_LIMIT,
        -POSITION_LIMIT <= position.y <= POSITION_LIMIT,
    ensures
        gamepad.ls_deadzone_exceed ==> final(movement).destination == Some(
            Vec2M {
                x: (position.x + gamepad.ls_x * old(movement).speed / 1000) as i64,
                y: (position.y + gamepad.ls_y * old(movement).speed / 1000) as i64,
            },
        ),
        !gamepad.ls_deadzone_exceed ==> final(movement).destination is None,
        *final(movement) == (Movement { destination: final(movement).destination, ..*old(movement) }),
        final(movement).wf(),
{
    if gamepad.ls_deadzone_exceed {
        proof {
            lemma_stick_displacement_bounded(gamepad.ls_x as int, movement.speed as int);
            lemma_stick_displacement_bounded(gamepad.ls_y as int, movement.speed as int);
        }
        let dx: i64 = div_floor(gamepad.ls_x * movement.speed, 1000);
        let dy: i64 = div_floor(gamepad.ls_y * movement.speed, 1000);
        movement.destination = Some(Vec2M { x: position.x + dx, y: position.y + dy });
    } else {
        movement.destination = None;
    }
}

/// A stick deflection times a speed, scaled back to milli-units, is at most
/// the speed in magnitude.
proof fn lemma_stick_displacement_bounded(stick: int, speed: int)
    requires
        -1000 <= stick <= 1000,
        0 <= speed <= SPEED_LIMIT,
    ensures
        -1_000_000_000 <= stick * speed <= 1_000_000_000,
        -speed <= stick * speed / 1000 <= speed,
{
    assert(-1000 * speed <= stick * speed <= 1000 * speed) by (nonlinear_arith)
        requires
            -1000 <= stick <= 1000,
            0 <= speed,
    ;
    vstd::arithmetic::div_mod::lemma_div_is_ordered(-1000 * speed, stick * speed, 1000);
    vstd::arithmetic::div_mod::lemma_div_is_ordered(stick * speed, 1000 * speed, 1000);
    vstd::arithmetic::div_mod::lemma_div_multiples_vanish(-speed, 1000);
    vstd::arithmetic::div_mod::lemma_div_multiples_vanish(speed, 1000);
    assert(-1000 * speed == 1000 * -speed) by (nonlinear_arith);
}

/// The velocity the entity would like to have: the offset to its
/// destination clamped to its speed, or zero without a destination.
pub open spec fn spec_velocity_desire(position: Vec2M, m: Movement) -> (int, int) {
    match m.destination {
        None => (0, 0),
        Some(d) => spec_clamp_length_max(d.x - position.x, d.y - position.y, m.speed as int),
    }
}

/// The movement record's invariant on the desired velocity: it is clamped
/// to the entity's speed, so its Euclidean length (stated over squares)
/// and both its components stay within `speed`, whatever destination and
/// position a frame sees.
pub proof fn lemma_velocity_desire_bounded(position: Vec2M, m: Movement)
    requires
        m.wf(),
    ensures
        ({
            let vd = spec_velocity_desire(position, m);
            &&& vd.0 * vd.0 + vd.1 * vd.1 <= m.speed * m.speed
            &&& -m.speed <= vd.0 <= m.speed
            &&& -m.speed <= vd.1 <= m.speed
        }),
{
    match m.destination {
        None => {
            assert(0 <= m.speed * m.speed) by (nonlinear_arith)
                requires
                    0 <= m.speed,
            ;
        },
        Some(d) => {
            crate::units::lemma_clamp_norm_bounded(
                d.x - position.x,
                d.y - position.y,
                m.speed as int,
            );
        },
    }
}

/// The fraction (in milli-units) by which one frame pulls the velocity
/// toward the desired velocity: the frame's duration over the inertia time
/// constant.
pub open spec fn spec_smoothing_fraction(delta_ms: int, inertia_ratio: int) -> int {
    delta_ms * 1000 / inertia_ratio
}

/// One component of the exponentially smoothed velocity:
/// `v * (1 - k) + desire * k` in milli-unit arithmetic.
pub open spec fn spec_smoothed(v: int, desire: int, k: int) -> int {
    (v * (1000 - k) + desire * k) / 1000
}

/// One frame of position integration for one entity, as the movement
/// simulator applies it to every entity carrying a movement record:
/// recompute the desired velocity, pull the velocity toward it, advance the
/// position, and clear the destination once the entity has slowed below a
/// tenth of its speed.
pub fn update_position(position: &mut Vec2M, movement: &mut Movement, delta_ms: i64)
    requires
        old(movement).wf(),
        -POSITION_LIMIT <= old(position).x <= POSITION_LIMIT,
        -POSITION_LIMIT <= old(position).y <= POSITION_LIMIT,
        -POSITION_LIMIT <= old(movement).velocity.x <= POSITION_LIMIT,
        -POSITION_LIMIT <= old(movement).velocity.y <= POSITION_LIMIT,
        0 <= delta_ms <= FRAME_DELTA_LIMIT,
    ensures
        ({
            let vd = spec_velocity_desire(*old(position), *old(movement));
            let k = spec_smoothing_fraction(delta_ms as int, old(movement).inertia_ratio as int);
            let vx = spec_smoothed(old(movement).velocity.x as int, vd.0, k);
            let vy = spec_smoothed(old(movement).velocity.y as int, vd.1, k);
            let thr = old(movement).speed as int / 10;
            &&& (final(movement).velocity_desire.x as int, final(movement).velocity_desire.y as int)
                == vd
            &&& final(movement).velocity_desire.x * final(movement).velocity_desire.x
                + final(movement).velocity_desire.y * final(movement).velocity_desire.y
                <= old(movement).speed * old(movement).speed
            &&& final(movement).velocity.x == vx && final(movement).velocity.y == vy
            &&& final(position).x == old(position).x + vx * delta_ms / 1000
            &&& final(position).y == old(position).y + vy * delta_ms / 1000
            &&& final(movement).destination == (if vx * vx + vy * vy < thr * thr {
                None::<Vec2M>
            } else {
                old(movement).destination
            })
            &&& final(movement).speed == old(movement).speed
            &&& final(movement).inertia_ratio == old(movement).inertia_ratio
        }),
{
    let vd: Vec2M = calculate_velocity_desire(position, movement);
    movement.velocity_desire = vd;
    let v: Vec2M = calculate_velocity(movement, delta_ms);
    movement.velocity = v;
    let remove_destination_threshold: i64 = movement.speed / 10;
    proof {
        lemma_advance_bounded(v.x as int, delta_ms as int);
        lemma_advance_bounded(v.y as int, delta_ms as int);
    }
    position.x = position.x + div_floor(v.x * delta_ms, 1000);
    position.y = position.y + div_floor(v.y * delta_ms, 1000);
    proof {
        lemma_square_fits_i128(v.x as int);
        lemma_square_fits_i128(v.y as int);
        lemma_square_fits_i128(remove_destination_threshold as int);
    }
    let vx2: i128 = (v.x as i128) * (v.x as i128);
    let vy2: i128 = (v.y as i128) * (v.y as i128);
    let thr2: i128 = (remove_destination_threshold as i128) * (
    remove_destination_threshold as i128);
    if vx2 + vy2 < thr2 {
        movement.destination = None;
    }
}

/// The square of any `i64` value this module computes with fits in 128
/// bits.
proof fn lemma_square_fits_i128(v: int)
    requires
        -70_000_000_000_000 <= v <= 70_000_000_000_000,
    ensures
        0 <= v * v <= 4_900_000_000_000_000_000_000_000_000,
{
    assert(0 <= v * v <= 4_900_000_000_000_000_000_000_000_000) by (nonlinear_arith)
        requires
            -70_000_000_000_000 <= v <= 70_000_000_000_000,
    ;
}

/// A velocity reached by one smoothing step, times a frame duration, stays
/// well inside 64 bits.
proof fn lemma_advance_bounded(v: int, delta_ms: int)
    requires
        -70_000_000_000_000 <= v <= 70_000_000_000_000,
        0 <= delta_ms <= FRAME_DELTA_LIMIT,
    ensures
        -4_200_000_000_000_000_000 <= v * delta_ms <= 4_200_000_000_000_000_000,
{
    assert(-70_000_000_000_000 * 60_000 <= v * delta_ms <= 70_000_000_000_000 * 60_000)
        by (nonlinear_arith)
        requires
            -70_000_000_000_000 <= v <= 70_000_000_000_000,
            0 <= delta_ms <= 60_000,
    ;
}

/// The desired velocity: toward the destination, clamped to the speed.
fn calculate_velocity_desire(position: &Vec2M, movement: &Movement) -> (r: Vec2M)
    requires
        movement.wf(),
        -POSITION_LIMIT <= position.x <= POSITION_LIMIT,
        -POSITION_LIMIT <= position.y <= POSITION_LIMIT,
    ensures
        (r.x as int, r.y as int) == spec_velocity_desire(*position, *movement),
        r.x * r.x + r.y * r.y <= movement.speed * movement.speed,
        -SPEED_LIMIT <= r.x <= SPEED_LIMIT,
        -SPEED_LIMIT <= r.y <= SPEED_LIMIT,
{
    match movement.destination {
        Some(destination) => {
            clamp_length_max(
                destination.x - position.x,
                destination.y - position.y,
                movement.speed,
            )
        },
        None => {
            proof {
                assert(0 <= movement.speed * movement.speed) by (nonlinear_arith)
                    requires
                        0 <= movement.speed,
                ;
            }
            Vec2M { x: 0, y: 0 }
        },
    }
}

/// One exponential smoothing step of the velocity.
fn calculate_velocity(movement: &Movement, delta_ms: i64) -> (r: Vec2M)
    requires
        movement.wf(),
        -POSITION_LIMIT <= movement.velocity.x <= POSITION_LIMIT,
        -POSITION_LIMIT <= movement.velocity.y <= POSITION_LIMIT,
        0 <= delta_ms <= FRAME_DELTA_LIMIT,
    ensures
        ({
            let k = spec_smoothing_fraction(delta_ms as int, movement.inertia_ratio as int);
            &&& r.x == spec_smoothed(
                movement.velocity.x as int,
                movement.velocity_desire.x as int,
                k,
            )
            &&& r.y == spec_smoothed(
                movement.velocity.y as int,
                movement.velocity_desire.y as int,
                k,
            )
            &&& -70_000_000_000_000 <= r.x <= 70_000_000_000_000
            &&& -70_000_000_000_000 <= r.y <= 70_000_000_000_000
        }),
{
    let delta_inertia: i64 = div_floor(delta_ms * 1000, movement.inertia_ratio);
    proof {
        lemma_smoothing_fraction_bounded(delta_ms as int, movement.inertia_ratio as int);
        lemma_smoothed_bounded(
            movement.velocity.x as int,
            movement.velocity_desire.x as int,
            delta_inertia as int,
        );
        lemma_smoothed_bounded(
            movement.velocity.y as int,
            movement.velocity_desire.y as int,
            delta_inertia as int,
        );
    }
    let x: i64 = div_floor(
        movement.velocity.x * (1000 - delta_inertia) + movement.velocity_desire.x * delta_inertia,
        1000,
    );
    let y: i64 = div_floor(
        movement.velocity.y * (1000 - delta_inertia) + movement.velocity_desire.y * delta_inertia,
        1000,
    );
    Vec2M { x, y }
}

/// The debug overlay drawn for the controlled entity: a line to the tip of
/// each velocity vector and a small marker on the destination, all at a
/// fixed debug depth.
#[derive(Clone, Copy, PartialEq, Eq, Structural, Debug)]
pub struct GizmoFrame {
    /// End of the line from the entity to `position + velocity_desire`.
    pub desire_line_to: Vec2M,
    /// End of the line from the entity to `position + velocity`.
    pub velocity_line_to: Vec2M,
    /// The debug depth both line ends sit at, milli-units.
    pub line_z: i64,
    /// The destination marker's center, when a destination is set.
    pub destination_marker: Option<Vec2M>,
    /// The destination marker's radius, milli-units.
    pub marker_radius: i64,
}

/// Describes the diagnostic overlay for the controlled entity: one line per
/// velocity vector from the entity's position, at debug depth 30, and a
/// unit-radius circle on the destination when one is set.  Purely
/// observational: nothing of the simulation changes.
pub fn draw_gizmos(position: Vec2M, movement: &Movement) -> (r: GizmoFrame)
    requires
        movement.wf(),
        -POSITION_LIMIT <= position.x <= POSITION_LIMIT,
        -POSITION_LIMIT <= position.y <= POSITION_LIMIT,
        -POSITION_LIMIT <= movement.velocity.x <= POSITION_LIMIT,
        -POSITION_LIMIT <= movement.velocity.y <= POSITION_LIMIT,
    ensures
        r.desire_line_to.x == position.x + movement.velocity_desire.x,
        r.desire_line_to.y == position.y + movement.velocity_desire.y,
        r.velocity_line_to.x == position.x + movement.velocity.x,
        r.velocity_line_to.y == position.y + movement.velocity.y,
        r.line_z == 30_000,
        r.destination_marker == movement.destination,
        r.marker_radius == 1_000,
{
    GizmoFrame {
        desire_line_to: Vec2M {
            x: position.x + movement.velocity_desire.x,
            y: position.y + movement.velocity_desire.y,
        },
        velocity_line_to: Vec2M {
            x: position.x + movement.velocity.x,
            y: position.y + movement.velocity.y,
        },
        line_z: 30_000,
        destination_marker: movement.destination,
        marker_radius: 1_000,
    }
}

/// The smoothing fraction of a bounded frame is nonnegative and bounded.
proof fn lemma_smoothing_fraction_bounded(delta_ms: int, inertia_ratio: int)
    requires
        0 <= delta_ms <= FRAME_DELTA_LIMIT,
        1 <= inertia_ratio,
    ensures
        0 <= delta_ms * 1000 / inertia_ratio <= 60_000_000,
{
    vstd::arithmetic::div_mod::lemma_div_pos_is_pos(delta_ms * 1000, inertia_ratio);
    vstd::arithmetic::div_mod::lemma_div_nonincreasing(delta_ms * 1000, inertia_ratio);
}

/// The products inside one smoothing step stay well inside 64 bits, and the
/// smoothed component is bounded by the magnitudes involved.
proof fn lemma_smoothed_bounded(v: int, desire: int, k: int)
    requires
        -POSITION_LIMIT <= v <= POSITION_LIMIT,
        -SPEED_LIMIT <= desire <= SPEED_LIMIT,
        0 <= k <= 60_000_000,
    ensures
        -61_000_000_000_000_000 <= v * (1000 - k) <= 61_000_000_000_000_000,
        -60_000_000_000_000 <= desire * k <= 60_000_000_000_000,
        -70_000_000_000_000 <= (v * (1000 - k) + desire * k) / 1000 <= 70_000_000_000_000,
{
    assert(-61_000_000_000_000_000 <= v * (1000 - k) <= 61_000_000_000_000_000
        && -60_000_000_000_000 <= desire * k <= 60_000_000_000_000) by (nonlinear_arith)
        requires
            -1_000_000_000 <= v <= 1_000_000_000,
            -1_000_000 <= desire <= 1_000_000,
            0 <= k <= 60_000_000,
    ;
    vstd::arithmetic::div_mod::lemma_div_is_ordered(
        -70_000_000_000_000int * 1000,
        v * (1000 - k) + desire * k,
        1000,
    );
    vstd::arithmetic::div_mod::lemma_div_is_ordered(
        v * (1000 - k) + desire * k,
        70_000_000_000_000int * 1000,
        1000,
    );
    vstd::arithmetic::div_mod::lemma_div_multiples_vanish(-70_000_000_000_000, 1000);
    vstd::arithmetic::div_mod::lemma_div_multiples_vanish(70_000_000_000_000, 1000);
}

} // verus!
