//! Frame pacing and the display-only rate estimate. Times are counts of
//! microseconds; the rate estimate is frames per second in micro-units.

use vstd::arithmetic::div_mod::lemma_div_nonincreasing;
use vstd::prelude::*;

verus! {

/// Sleep budget left after a frame: the target interval minus the frame
/// cost, never negative. A frame that met or overran its budget asks for
/// no sleep at all, and overruns are not compensated later.
pub fn pace_budget(frame_cost: u64, target_interval: u64) -> (sleep: u64)
    ensures
        sleep == if frame_cost >= target_interval {
            0int
        } else {
            target_interval - frame_cost
        },
        frame_cost >= target_interval ==> sleep == 0,
{
    if frame_cost >= target_interval {
        0
    } else {
        target_interval - frame_cost
    }
}

/// The instantaneous rate for a frame that took `frame_cost`
/// microseconds, in micro-frames per second; a zero cost reports the
/// target rate of sixty.
pub open spec fn instant_rate_spec(frame_cost: u64) -> int {
    if frame_cost == 0 {
        60_000_000
    } else {
        1_000_000_000_000int / (frame_cost as int)
    }
}

/// Exponential smoothing: 85 parts the old estimate, 15 parts the new
/// observation.
pub open spec fn smooth_rate_spec(old_rate: u64, inst: int) -> int {
    ((old_rate as int) * 850_000 + inst * 150_000) / 1_000_000
}

/// The frame counter and smoothed rate estimate; display-only state with
/// no feedback into the simulation.
#[derive(Clone, Copy, Debug, PartialEq, Eq, Structural)]
pub struct FrameMetrics {
    pub frame: u64,
    pub fps_fx: u64,
}

/// The rate estimate never leaves micro-scaled `[0, 10^6]` frames per
/// second.
pub open spec fn metrics_wf(m: FrameMetrics) -> bool {
    m.fps_fx <= 1_000_000_000_000
}

impl FrameMetrics {
    /// Fresh metrics: no frames yet, estimate seeded at the target rate.
    pub fn new() -> (m: FrameMetrics)
        ensures
            m.frame == 0,
            m.fps_fx == 60_000_000,
            metrics_wf(m),
    {
        FrameMetrics { frame: 0, fps_fx: 60_000_000 }
    }

    /// Counts a finished frame and folds its cost into the smoothed rate.
    pub fn update(&mut self, frame_cost: u64)
        requires
            metrics_wf(*old(self)),
        ensures
            final(self).frame == old(self).frame.wrapping_add(1),
            final(self).fps_fx == smooth_rate_spec(
                old(self).fps_fx,
                instant_rate_spec(frame_cost),
            ),
            metrics_wf(*final(self)),
    {
        let inst: u64 = if frame_cost == 0 {
            60_000_000
        } else {
            proof {
                lemma_div_nonincreasing(1_000_000_000_000, frame_cost as int);
            }
            1_000_000_000_000 / frame_cost
        };
        self.frame = self.frame.wrapping_add(1);
        self.fps_fx = (self.fps_fx * 850_000 + inst * 150_000) / 1_000_000;
    }
}

} // verus!
