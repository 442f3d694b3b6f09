use lira::gamepad::AxisEvent;
use lira::gamepad::GamepadAxis;
use lira::gamepad::GamepadState;
use lira::gamepad::update_gamepad_state;

#[test]
fn default_state_is_centered_and_inactive() {
    let s = GamepadState::default();
    assert_eq!(s.ls_x, 0);
    assert_eq!(s.ls_y, 0);
    assert_eq!(s.rs_x, 0);
    assert_eq!(s.rs_y, 0);
    assert_eq!(s.deadzone, 100);
    assert!(!s.ls_deadzone_exceed);
    assert!(!s.rs_deadzone_exceed);
}

#[test]
fn small_deflection_is_suppressed() {
    let mut s = GamepadState::default();
    let events = vec![AxisEvent { axis: GamepadAxis::LeftStickX, value: 50 }];
    update_gamepad_state(&mut s, &events);
    assert_eq!(s.ls_x, 0);
    assert_eq!(s.ls_y, 0);
    assert!(!s.ls_deadzone_exceed);
}

#[test]
fn full_deflection_is_kept() {
    let mut s = GamepadState::default();
    let events = vec![
        AxisEvent { axis: GamepadAxis::LeftStickX, value: 800 },
        AxisEvent { axis: GamepadAxis::LeftStickY, value: 600 },
    ];
    update_gamepad_state(&mut s, &events);
    assert_eq!(s.ls_x, 800);
    assert_eq!(s.ls_y, 600);
    assert!(s.ls_deadzone_exceed);
}

#[test]
fn later_event_overwrites_earlier() {
    let mut s = GamepadState::default();
    let events = vec![
        AxisEvent { axis: GamepadAxis::LeftStickX, value: 900 },
        AxisEvent { axis: GamepadAxis::LeftStickX, value: 500 },
    ];
    update_gamepad_state(&mut s, &events);
    assert_eq!(s.ls_x, 500);
    assert!(s.ls_deadzone_exceed);
}

#[test]
fn sticks_are_filtered_independently() {
    let mut s = GamepadState::default();
    let events = vec![
        AxisEvent { axis: GamepadAxis::LeftStickX, value: 500 },
        AxisEvent { axis: GamepadAxis::RightStickX, value: 30 },
    ];
    update_gamepad_state(&mut s, &events);
    assert_eq!(s.ls_x, 500);
    assert!(s.ls_deadzone_exceed);
    assert_eq!(s.rs_x, 0);
    assert!(!s.rs_deadzone_exceed);
}

#[test]
fn other_axes_are_ignored() {
    let mut s = GamepadState::default();
    let events = vec![AxisEvent { axis: GamepadAxis::Other, value: 1000 }];
    update_gamepad_state(&mut s, &events);
    assert_eq!(s.ls_x, 0);
    assert_eq!(s.rs_x, 0);
    assert!(!s.ls_deadzone_exceed);
    assert!(!s.rs_deadzone_exceed);
}

#[test]
fn zero_valued_event_marks_then_clears() {
    let mut s = GamepadState::default();
    let events = vec![AxisEvent { axis: GamepadAxis::LeftStickX, value: 0 }];
    update_gamepad_state(&mut s, &events);
    assert!(!s.ls_deadzone_exceed);
    assert_eq!(s.ls_x, 0);
}

#[test]
fn boundary_magnitude_is_kept() {
    let mut s = GamepadState::default();
    let events = vec![AxisEvent { axis: GamepadAxis::LeftStickX, value: 100 }];
    update_gamepad_state(&mut s, &events);
    assert_eq!(s.ls_x, 100);
    assert!(s.ls_deadzone_exceed);
}
