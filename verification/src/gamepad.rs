//! Gamepad input normalization.
//!
//! Raw analog-stick axis events overwrite the per-axis values of a
//! process-wide [`GamepadState`] and mark the stick active; after all events
//! of a frame are applied, a stick whose deflection lies inside the deadzone
//! is zeroed and marked inactive.  Stick values are milli-units of full
//! deflection, so a full stick is 1000 and the default deadzone 100.

use vstd::prelude::*;

verus! {

/// The axis a raw gamepad event speaks of.  Axes other than the two sticks
/// are carried as [`GamepadAxis::Other`] and ignored.
#[derive(Clone, Copy, PartialEq, Eq, Structural, Debug)]
pub enum GamepadAxis {
    LeftStickX,
    LeftStickY,
    RightStickX,
    RightStickY,
    Other,
}

/// One raw axis event: the axis moved and its new deflection in milli-units
/// of full scale, in `[-1000, 1000]`.
#[derive(Clone, Copy, PartialEq, Eq, Structural, Debug)]
pub struct AxisEvent {
    pub axis: GamepadAxis,
    pub value: i64,
}

/// The normalized controller input: per-stick deflections in milli-units,
/// the deadzone threshold, and per-stick flags saying whether the stick's
/// deflection exceeds the deadzone.
#[derive(Clone, Copy, PartialEq, Eq, Structural, Debug)]
pub struct GamepadState {
    pub ls_x: i64,
    pub ls_y: i64,
    pub rs_x: i64,
    pub rs_y: i64,
    pub deadzone: i64,
    pub ls_deadzone_exceed: bool,
    pub rs_deadzone_exceed: bool,
}

impl GamepadState {
    /// The state is within the ranges the normalizer maintains.
    pub open spec fn wf(self) -> bool {
        &&& -1000 <= self.ls_x <= 1000
        &&& -1000 <= self.ls_y <= 1000
        &&& -1000 <= self.rs_x <= 1000
        &&& -1000 <= self.rs_y <= 1000
        &&& 0 <= self.deadzone <= 1000
    }
}

impl Default for GamepadState {
    /// Sticks centered and inactive, deadzone a tenth of full deflection.
    fn default() -> (r: GamepadState)
        ensures
            r == (GamepadState {
                ls_x: 0,
                ls_y: 0,
                rs_x: 0,
                rs_y: 0,
                deadzone: 100,
                ls_deadzone_exceed: false,
                rs_deadzone_exceed: false,
            }),
            r.wf(),
    {
        GamepadState {
            ls_x: 0,
            ls_y: 0,
            rs_x: 0,
            rs_y: 0,
            deadzone: 100,
            ls_deadzone_exceed: false,
            rs_deadzone_exceed: false,
        }
    }
}

/// The state after one axis event: a stick axis overwrites its component
/// and marks its stick active; any other axis changes nothing.
pub open spec fn apply_event(s: GamepadState, e: AxisEvent) -> GamepadState {
    match e.axis {
        GamepadAxis::LeftStickX => GamepadState { ls_x: e.value, ls_deadzone_exceed: true, ..s },
        GamepadAxis::LeftStickY => GamepadState { ls_y: e.value, ls_deadzone_exceed: true, ..s },
        GamepadAxis::RightStickX => GamepadState { rs_x: e.value, rs_deadzone_exceed: true, ..s },
        GamepadAxis::RightStickY => GamepadState { rs_y: e.value, rs_deadzone_exceed: true, ..s },
        GamepadAxis::Other => s,
    }
}

/// The state after a whole frame's events, applied left to right.
pub open spec fn apply_events(s: GamepadState, evs: Seq<AxisEvent>) -> GamepadState
    decreases evs.len(),
{
    if evs.len() == 0 {
        s
    } else {
        apply_events(apply_event(s, evs[0]), evs.drop_first())
    }
}

/// The left stick's deflection lies strictly inside the deadzone: its
/// Euclidean magnitude is below the threshold, stated over squares.
pub open spec fn ls_inside_deadzone(s: GamepadState) -> bool {
    s.ls_x * s.ls_x + s.ls_y * s.ls_y < s.deadzone * s.deadzone
}

/// The right stick's deflection lies strictly inside the deadzone.
pub open spec fn rs_inside_deadzone(s: GamepadState) -> bool {
    s.rs_x * s.rs_x + s.rs_y * s.rs_y < s.deadzone * s.deadzone
}

/// The deadzone filter: a stick inside the deadzone is zeroed and marked
/// inactive; one outside keeps its values and flag.
pub open spec fn deadzone_filtered(s: GamepadState) -> GamepadState {
    let after_ls = if ls_inside_deadzone(s) {
        GamepadState { ls_x: 0, ls_y: 0, ls_deadzone_exceed: false, ..s }
    } else {
        s
    };
    if rs_inside_deadzone(after_ls) {
        GamepadState { rs_x: 0, rs_y: 0, rs_deadzone_exceed: false, ..after_ls }
    } else {
        after_ls
    }
}

/// Applies a frame's raw axis events to the gamepad state, then suppresses
/// sticks whose deflection stayed inside the deadzone.
pub fn update_gamepad_state(state: &mut GamepadState, events: &Vec<AxisEvent>)
    requires
        old(state).wf(),
        forall|i: int| 0 <= i < events@.len() ==> -1000 <= #[trigger] events@[i].value <= 1000,
    ensures
        *final(state) == deadzone_filtered(apply_events(*old(state), events@)),
        final(state).wf(),
{
    let ghost s0: GamepadState = *state;
    let mut idx: usize = 0;
    while idx < events.len()
        invariant
            idx <= events@.len(),
            *state == apply_events(s0, events@.take(idx as int)),
            state.wf(),
            s0.wf(),
            forall|i: int| 0 <= i < events@.len() ==> -1000 <= #[trigger] events@[i].value <= 1000,
        decreases events@.len() - idx,
    {
        let e = events[idx];
        proof {
            lemma_apply_events_snoc(s0, events@.take(idx as int), e);
            assert(events@.take(idx as int).push(e) =~= events@.take(idx as int + 1));
        }
        match e.axis {
            GamepadAxis::LeftStickX => {
                state.ls_x = e.value;
                state.ls_deadzone_exceed = true;
            },
            GamepadAxis::LeftStickY => {
                state.ls_y = e.value;
                state.ls_deadzone_exceed = true;
            },
            GamepadAxis::RightStickX => {
                state.rs_x = e.value;
                state.rs_deadzone_exceed = true;
            },
            GamepadAxis::RightStickY => {
                state.rs_y = e.value;
                state.rs_deadzone_exceed = true;
            },
            GamepadAxis::Other => {},
        }
        idx = idx + 1;
    }
    proof {
        assert(events@.take(events@.len() as int) =~= events@);
        lemma_square_bounds(state.ls_x as int, state.ls_y as int, state.deadzone as int);
        lemma_square_bounds(state.rs_x as int, state.rs_y as int, state.deadzone as int);
    }
    if state.ls_x * state.ls_x + state.ls_y * state.ls_y < state.deadzone * state.deadzone {
        state.ls_x = 0;
        state.ls_y = 0;
        state.ls_deadzone_exceed = false;
    }
    if state.rs_x * state.rs_x + state.rs_y * state.rs_y < state.deadzone * state.deadzone {
        state.rs_x = 0;
        state.rs_y = 0;
        state.rs_deadzone_exceed = false;
    }
}

/// Squares of values within a stick's range stay far inside `i64`.
proof fn lemma_square_bounds(x: int, y: int, d: int)
    requires
        -1000 <= x <= 1000,
        -1000 <= y <= 1000,
        0 <= d <= 1000,
    ensures
        0 <= x * x <= 1_000_000,
        0 <= y * y <= 1_000_000,
        0 <= d * d <= 1_000_000,
{
    assert(0 <= x * x <= 1_000_000 && 0 <= y * y <= 1_000_000 && 0 <= d * d <= 1_000_000)
        by (nonlinear_arith)
        requires
            -1000 <= x <= 1000,
            -1000 <= y <= 1000,
            0 <= d <= 1000,
    ;
}

/// Appending one event to a frame folds as one more application.
proof fn lemma_apply_events_snoc(s: GamepadState, evs: Seq<AxisEvent>, e: AxisEvent)
    ensures
        apply_events(s, evs.push(e)) == apply_event(apply_events(s, evs), e),
    decreases evs.len(),
{
    if evs.len() == 0 {
        assert(evs.push(e)[0] == e);
        assert(evs.push(e).drop_first() =~= Seq::<AxisEvent>::empty());
        assert(apply_events(s, evs.push(e)) == apply_events(
            apply_event(s, e),
            Seq::<AxisEvent>::empty(),
        ));
        assert(apply_events(apply_event(s, e), Seq::<AxisEvent>::empty()) == apply_event(s, e));
    } else {
        assert(evs.push(e)[0] == evs[0]);
        assert(evs.push(e).drop_first() =~= evs.drop_first().push(e));
        lemma_apply_events_snoc(apply_event(s, evs[0]), evs.drop_first(), e);
        assert(apply_events(s, evs.push(e)) == apply_events(apply_event(s, evs[0]), evs.drop_first().push(e)));
    }
}

} // verus!
