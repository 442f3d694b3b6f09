//! The world-time resource.
//!
//! A process-wide clock state — a time-scale multiplier and a pause flag —
//! reserved for future time-control systems; nothing mutates it at runtime
//! yet, but the integration point is kept so scaling can be wired in
//! without redesign.

use vstd::prelude::*;

verus! {

/// The process-wide clock state: how fast simulated time runs relative to
/// real time (milli-units, 1000 is real time) and whether it is paused.
#[derive(Clone, Copy, PartialEq, Eq, Structural, Debug)]
pub struct WorldTime {
    /// Simulated milliseconds per real millisecond, in milli-units.
    pub delta_multiplier: i64,
    pub paused: bool,
}

impl Default for WorldTime {
    /// Real time, running.
    fn default() -> (r: WorldTime)
        ensures
            r.delta_multiplier == 1000,
            r.paused == false,
    {
        WorldTime { delta_multiplier: 1000, paused: false }
    }
}

} // verus!
