use lira::camera::setup_cameras;
use lira::dev::ANIMATION_PERIOD_MICROS;
use lira::dev::AnimationIndices;
use lira::dev::AnimationTimer;
use lira::dev::animate_sprite;
use lira::dev::spawn_lira;
use lira::movement::ControlledEntity;
use lira::time::WorldTime;
use lira::units::Vec2M;

#[test]
fn animation_runs_at_six_frames_per_second() {
    assert_eq!(ANIMATION_PERIOD_MICROS, 166_666);
}

#[test]
fn timer_fires_when_the_period_is_crossed() {
    let mut t = AnimationTimer::new(100);
    assert!(!t.tick(99));
    assert_eq!(t.elapsed_micros, 99);
    assert!(t.tick(1));
    assert_eq!(t.elapsed_micros, 0);
    assert!(t.tick(150));
    assert_eq!(t.elapsed_micros, 50);
}

#[test]
fn sprite_advances_only_when_the_timer_fires() {
    let indices = AnimationIndices { first: 0, last: 7 };
    let mut timer = AnimationTimer::new(100);
    let mut frame: usize = 3;
    animate_sprite(&indices, &mut timer, &mut frame, 50);
    assert_eq!(frame, 3);
    animate_sprite(&indices, &mut timer, &mut frame, 50);
    assert_eq!(frame, 4);
}

#[test]
fn sprite_wraps_from_last_to_first() {
    let indices = AnimationIndices { first: 0, last: 7 };
    let mut timer = AnimationTimer::new(100);
    let mut frame: usize = 7;
    animate_sprite(&indices, &mut timer, &mut frame, 100);
    assert_eq!(frame, 0);
}

#[test]
fn lira_spawn_registers_and_describes_the_player() {
    let mut camera = setup_cameras(1280, 720, 1, 2, 3, 4);
    let mut controlled = ControlledEntity::default();
    let spawn = spawn_lira(&mut camera, &mut controlled, 77);
    assert_eq!(camera.followed_entity, Some(77));
    assert_eq!(controlled.0, Some(77));
    assert_eq!((spawn.frame_width, spawn.frame_height), (75, 127));
    assert_eq!((spawn.columns, spawn.rows), (8, 1));
    assert_eq!(spawn.position, Vec2M { x: 0, y: 0 });
    assert_eq!(spawn.z, 100_000);
    assert_eq!(spawn.indices, AnimationIndices { first: 0, last: 7 });
    assert_eq!(spawn.initial_atlas_index, 0);
    assert_eq!(spawn.timer.period_micros, ANIMATION_PERIOD_MICROS);
    assert_eq!(spawn.timer.elapsed_micros, 0);
    assert_eq!(spawn.movement.speed, 100_000);
    assert_eq!(spawn.movement.destination, None);
    assert_eq!(spawn.movement.inertia_ratio, 100);
}

#[test]
fn world_time_defaults_to_real_time_running() {
    let t = WorldTime::default();
    assert_eq!(t.delta_multiplier, 1000);
    assert!(!t.paused);
}
