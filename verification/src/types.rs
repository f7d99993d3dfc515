//! Core value types of the engine: analog samples and the engine's
//! configuration parameters.

use vstd::prelude::*;

verus! {

/// Upper end of the analog pressure domain, in thousandths of the
/// normalized unit. Readings may overtravel slightly past 1.0, so the
/// domain is [0, 1.2]; anything larger is clamped before use.
pub const ANALOG_MAX: u32 = 1200;

/// One analog pressure reading: a clamped fixed-point value (thousandths
/// of the normalized unit) stamped with the engine's tick time in
/// milliseconds.
#[derive(Clone, Copy, Debug, PartialEq, Eq, Structural)]
pub struct Sample {
    pub value: u32,
    pub time: u64,
}

/// Design parameters of the engine: the three analog thresholds that
/// drive the per-key state machine, the debounce dwell, the velocity
/// calibration constant and the bound on the attack-window buffer.
///
/// Thresholds are in thousandths of the normalized analog unit,
/// `d_min` in milliseconds.
#[derive(Clone, Copy, Debug, PartialEq, Eq, Structural)]
pub struct EngineConfig {
    /// Crossing this value upward begins an attack.
    pub t_onset: u32,
    /// Crossing this value while still rising fires the note.
    pub t_sustain: u32,
    /// Falling below this value releases the note.
    pub t_release: u32,
    /// Minimum dwell after a release before a new attack is accepted.
    pub d_min: u64,
    /// Velocity calibration: velocity = round(slope * k) clamped to [1, 127],
    /// with slope in normalized units per millisecond.
    pub k: u32,
    /// Bound on the attack-window ring buffer; the oldest entry is
    /// discarded once the bound is reached.
    pub window_cap: usize,
}

impl EngineConfig {
    /// The thresholds must be ordered so that the state machine's phases
    /// are disjoint: release below onset, onset at or below sustain.
    pub open spec fn wf(self) -> bool {
        &&& 0 < self.t_release
        &&& self.t_release < self.t_onset
        &&& self.t_onset <= self.t_sustain
        &&& self.window_cap >= 2
    }
}

impl Default for EngineConfig {
    /// The reference calibration: onset 0.10, sustain 0.50, release 0.05,
    /// 5 ms debounce, and k scaled so that a full-range press over 10 ms
    /// reaches the top of the velocity scale.
    fn default() -> (c: Self)
        ensures
            c == (EngineConfig {
                t_onset: 100u32,
                t_sustain: 500u32,
                t_release: 50u32,
                d_min: 5u64,
                k: 1270u32,
                window_cap: 64usize,
            }),
            c.wf(),
    {
        EngineConfig {
            t_onset: 100,
            t_sustain: 500,
            t_release: 50,
            d_min: 5,
            k: 1270,
            window_cap: 64,
        }
    }
}

/// Clamps a raw reading into the analog domain [0, ANALOG_MAX]; the
/// sampler may hand back malformed or overtravelling values.
pub open spec fn spec_clamp_analog(v: u32) -> u32 {
    if v > ANALOG_MAX {
        ANALOG_MAX
    } else {
        v
    }
}

/// Executable counterpart of `spec_clamp_analog`.
pub fn clamp_analog(v: u32) -> (r: u32)
    ensures
        r == spec_clamp_analog(v),
{
    if v > ANALOG_MAX {
        ANALOG_MAX
    } else {
        v
    }
}

} // verus!
