//! Velocity computation: the average slope of the attack window, mapped
//! onto the MIDI velocity scale [1, 127].

use vstd::prelude::*;
use crate::types::Sample;

verus! {

/// Rounds `num / den` to the nearest integer (half up); `den` must be
/// positive for the result to be meaningful.
pub open spec fn spec_round_div(num: int, den: int) -> int
    recommends
        den > 0,
{
    (2 * num + den) / (2 * den)
}

/// Clamps a velocity candidate into the MIDI range [1, 127]. Zero is
/// excluded: a Note-On with velocity 0 means Note-Off on the wire.
pub open spec fn spec_clamp_velocity(q: int) -> int {
    if q < 1 {
        1
    } else if q > 127 {
        127
    } else {
        q
    }
}

/// Velocity of an attack window: the average rate of change between the
/// window's first and last sample, scaled by the calibration constant `k`
/// and clamped to [1, 127].
///
/// Values are thousandths of the normalized unit and times milliseconds,
/// so the slope in units per millisecond is dv / (1000 * dt) and the
/// velocity is round(dv * k / (1000 * dt)).
///
/// A window whose endpoints carry the same timestamp represents the
/// highest resolvable attack speed and yields 127; a flat or falling
/// window yields the minimum, 1.
pub open spec fn spec_velocity(w: Seq<Sample>, k: u32) -> int
    recommends
        w.len() >= 1,
        w[0].time <= w[w.len() - 1].time,
{
    let first = w[0];
    let last = w[w.len() - 1];
    if last.time <= first.time {
        127
    } else if last.value <= first.value {
        1
    } else {
        spec_clamp_velocity(
            spec_round_div((last.value - first.value) * k, 1000 * (last.time - first.time)),
        )
    }
}

/// The velocity of any window lies in [1, 127].
pub proof fn lemma_velocity_range(w: Seq<Sample>, k: u32)
    ensures
        1 <= spec_velocity(w, k) <= 127,
{
}

/// Computes the velocity of a nonempty attack window; internal form that
/// also accepts the degenerate single-sample window (zero elapsed time,
/// maximum velocity).
pub(crate) fn velocity_of_window(w: &Vec<Sample>, k: u32) -> (v: u8)
    requires
        w@.len() >= 1,
        w@[0].time <= w@[w@.len() - 1].time,
    ensures
        v as int == spec_velocity(w@, k),
        1 <= v <= 127,
{
    let first: Sample = w[0];
    let last: Sample = w[w.len() - 1];
    if last.time <= first.time {
        return 127;
    }
    if last.value <= first.value {
        return 1;
    }
    let dv: u128 = (last.value - first.value) as u128;
    let dt: u128 = (last.time - first.time) as u128;
    proof {
        assert(dv * (k as u128) <= 0xFFFF_FFFF_FFFF_FFFFu128) by (nonlinear_arith)
            requires
                dv <= 0xFFFF_FFFFu128,
                (k as u128) <= 0xFFFF_FFFFu128,
        ;
    }
    let num: u128 = dv * (k as u128);
    let den: u128 = 1000 * dt;
    let q: u128 = (2 * num + den) / (2 * den);
    if q < 1 {
        1
    } else if q > 127 {
        127
    } else {
        q as u8
    }
}

/// Velocity of a completed attack window, per the engine's contract: an
/// ordered window of at least two samples yields a velocity in [1, 127]
/// from the average slope between its endpoints.
pub fn velocity_calc(window: &Vec<Sample>, k: u32) -> (v: u8)
    requires
        window@.len() >= 2,
        window@[0].time <= window@[window@.len() - 1].time,
    ensures
        v as int == spec_velocity(window@, k),
        1 <= v <= 127,
{
    velocity_of_window(window, k)
}

} // verus!
