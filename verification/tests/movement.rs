use lira::gamepad::GamepadState;
use lira::movement::ControlledEntity;
use lira::movement::Movement;
use lira::movement::draw_gizmos;
use lira::movement::update_destination;
use lira::movement::update_position;
use lira::units::Vec2M;

fn stick_state(ls_x: i64, ls_y: i64, exceed: bool) -> GamepadState {
    GamepadState {
        ls_x,
        ls_y,
        rs_x: 0,
        rs_y: 0,
        deadzone: 100,
        ls_deadzone_exceed: exceed,
        rs_deadzone_exceed: false,
    }
}

#[test]
fn default_movement_record() {
    let m = Movement::default();
    assert_eq!(m.speed, 100_000);
    assert_eq!(m.destination, None);
    assert_eq!(m.velocity, Vec2M { x: 0, y: 0 });
    assert_eq!(m.velocity_desire, Vec2M { x: 0, y: 0 });
    assert_eq!(m.inertia_ratio, 100);
}

#[test]
fn controlled_entity_starts_unset() {
    let c = ControlledEntity::default();
    assert_eq!(c.0, None);
}

#[test]
fn active_stick_sets_destination() {
    let gp = stick_state(800, 600, true);
    let mut m = Movement::default();
    update_destination(&gp, Vec2M { x: 10_000, y: 20_000 }, &mut m);
    // destination = position + stick * speed: 0.8 * 100 = 80 units, 0.6 * 100 = 60.
    assert_eq!(m.destination, Some(Vec2M { x: 90_000, y: 80_000 }));
}

#[test]
fn idle_stick_clears_destination() {
    let gp = stick_state(0, 0, false);
    let mut m = Movement::default();
    m.destination = Some(Vec2M { x: 1, y: 2 });
    update_destination(&gp, Vec2M { x: 0, y: 0 }, &mut m);
    assert_eq!(m.destination, None);
}

#[test]
fn one_full_step_reaches_desired_velocity() {
    // speed 100, inertia 0.1 s, delta 0.1 s: the smoothing fraction is 1,
    // so velocity jumps to the desired (100, 0) and the position advances
    // by 10 units.
    let mut pos = Vec2M { x: 0, y: 0 };
    let mut m = Movement {
        speed: 100_000,
        destination: Some(Vec2M { x: 100_000, y: 0 }),
        velocity_desire: Vec2M { x: 0, y: 0 },
        velocity: Vec2M { x: 0, y: 0 },
        inertia_ratio: 100,
    };
    update_position(&mut pos, &mut m, 100);
    assert_eq!(m.velocity_desire, Vec2M { x: 100_000, y: 0 });
    assert_eq!(m.velocity, Vec2M { x: 100_000, y: 0 });
    assert_eq!(pos, Vec2M { x: 10_000, y: 0 });
    // Still moving at full speed: the destination stays.
    assert_eq!(m.destination, Some(Vec2M { x: 100_000, y: 0 }));
}

#[test]
fn desired_velocity_is_clamped_to_speed() {
    // A destination a million milli-units away pulls at speed, not more.
    let mut pos = Vec2M { x: 0, y: 0 };
    let mut m = Movement {
        speed: 100_000,
        destination: Some(Vec2M { x: 1_000_000, y: 0 }),
        velocity_desire: Vec2M { x: 0, y: 0 },
        velocity: Vec2M { x: 0, y: 0 },
        inertia_ratio: 100,
    };
    update_position(&mut pos, &mut m, 100);
    assert_eq!(m.velocity_desire, Vec2M { x: 100_000, y: 0 });
}

#[test]
fn clamp_shrinks_a_diagonal_offset_exactly() {
    // Offset (-3, -4) has length 5, above speed 4: it is scaled by 4/5
    // with components rounding toward zero, to (-2, -3) — squared length
    // 13, within speed squared 16.
    let mut pos = Vec2M { x: 0, y: 0 };
    let mut m = Movement {
        speed: 4,
        destination: Some(Vec2M { x: -3, y: -4 }),
        velocity_desire: Vec2M { x: 0, y: 0 },
        velocity: Vec2M { x: 0, y: 0 },
        inertia_ratio: 100,
    };
    update_position(&mut pos, &mut m, 0);
    assert_eq!(m.velocity_desire, Vec2M { x: -2, y: -3 });
    let vd = m.velocity_desire;
    assert!(vd.x * vd.x + vd.y * vd.y <= m.speed * m.speed);
}

#[test]
fn clamp_divides_by_one_more_when_the_length_is_inexact() {
    // Offset (3, 3) has squared length 18, between 4^2 and 5^2: the clamp
    // divides by 5, the next integer above the true length, giving (2, 2).
    let mut pos = Vec2M { x: 0, y: 0 };
    let mut m = Movement {
        speed: 4,
        destination: Some(Vec2M { x: 3, y: 3 }),
        velocity_desire: Vec2M { x: 0, y: 0 },
        velocity: Vec2M { x: 0, y: 0 },
        inertia_ratio: 100,
    };
    update_position(&mut pos, &mut m, 0);
    assert_eq!(m.velocity_desire, Vec2M { x: 2, y: 2 });
    let vd = m.velocity_desire;
    assert!(vd.x * vd.x + vd.y * vd.y <= m.speed * m.speed);
}

#[test]
fn slow_entity_drops_destination() {
    // Velocity 5 units/s is below the removal threshold of 10 units/s
    // (a tenth of speed 100), so the destination is cleared even though it
    // was not reached.
    let mut pos = Vec2M { x: 0, y: 0 };
    let mut m = Movement {
        speed: 100_000,
        destination: Some(Vec2M { x: 50, y: 0 }),
        velocity_desire: Vec2M { x: 0, y: 0 },
        velocity: Vec2M { x: 5_000, y: 0 },
        inertia_ratio: 100_000,
    };
    update_position(&mut pos, &mut m, 1);
    assert_eq!(m.destination, None);
}

#[test]
fn half_step_smoothing_is_exact() {
    // delta 0.05 s over inertia 0.1 s: fraction 0.5, so velocity moves
    // halfway from 0 toward 100 units/s.
    let mut pos = Vec2M { x: 0, y: 0 };
    let mut m = Movement {
        speed: 100_000,
        destination: Some(Vec2M { x: 100_000, y: 0 }),
        velocity_desire: Vec2M { x: 0, y: 0 },
        velocity: Vec2M { x: 0, y: 0 },
        inertia_ratio: 100,
    };
    update_position(&mut pos, &mut m, 50);
    assert_eq!(m.velocity, Vec2M { x: 50_000, y: 0 });
    assert_eq!(pos, Vec2M { x: 2_500, y: 0 });
}

#[test]
fn gizmos_mirror_the_record() {
    let m = Movement {
        speed: 100_000,
        destination: Some(Vec2M { x: 7, y: 8 }),
        velocity_desire: Vec2M { x: 100, y: 200 },
        velocity: Vec2M { x: 300, y: 400 },
        inertia_ratio: 100,
    };
    let g = draw_gizmos(Vec2M { x: 1_000, y: 2_000 }, &m);
    assert_eq!(g.desire_line_to, Vec2M { x: 1_100, y: 2_200 });
    assert_eq!(g.velocity_line_to, Vec2M { x: 1_300, y: 2_400 });
    assert_eq!(g.line_z, 30_000);
    assert_eq!(g.destination_marker, Some(Vec2M { x: 7, y: 8 }));
    assert_eq!(g.marker_radius, 1_000);
}

#[test]
fn gizmos_without_destination_have_no_marker() {
    let m = Movement::default();
    let g = draw_gizmos(Vec2M { x: 0, y: 0 }, &m);
    assert_eq!(g.destination_marker, None);
}
