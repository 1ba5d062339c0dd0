//! The pacing clock: turns a words-per-minute rate and a chunk size into a
//! reveal interval, and accumulates elapsed wall-clock time to decide how
//! many intervals have been consumed.

use vstd::prelude::*;

verus! {

/// A rate or chunk size outside the accepted range was rejected.
#[derive(Clone, Copy, Debug, PartialEq, Eq, Structural)]
pub struct InvalidParameterError;

/// The target reveal rate: words per minute, and how many words are revealed
/// together at each interval.
#[derive(Clone, Copy, Debug, PartialEq, Eq, Structural)]
pub struct PacingConfig {
    pub words_per_minute: u32,
    pub chunk_size: u32,
}

impl PacingConfig {
    /// A configuration is valid when both the rate and the chunk size are
    /// positive.
    pub open spec fn wf(&self) -> bool {
        self.words_per_minute > 0 && self.chunk_size > 0
    }
}

/// The reveal interval in milliseconds: `(60 / words_per_minute) seconds *
/// chunk_size`, floored to whole milliseconds and never below one
/// millisecond.
pub open spec fn interval_ms_of(wpm: int, chunk_size: int) -> int {
    let raw = 60_000 * chunk_size / wpm;
    if raw < 1 {
        1
    } else {
        raw
    }
}

/// Addition on the clock's accumulator, saturating at the accumulator's
/// largest representable value.
pub open spec fn sat_add_u64(a: int, b: int) -> int {
    if a + b > u64::MAX {
        u64::MAX as int
    } else {
        a + b
    }
}

/// Computes the reveal interval of a configuration.
pub fn compute_interval_ms(cfg: &PacingConfig) -> (r: u64)
    requires
        cfg.wf(),
    ensures
        r == interval_ms_of(cfg.words_per_minute as int, cfg.chunk_size as int),
        r >= 1,
{
    let raw = 60_000u64 * (cfg.chunk_size as u64) / (cfg.words_per_minute as u64);
    if raw < 1 {
        1
    } else {
        raw
    }
}

/// Accumulates elapsed time against the current interval.
#[derive(Clone, Copy, Debug, PartialEq, Eq, Structural)]
pub struct PacingClock {
    pub accumulated_ms: u64,
}

impl PacingClock {
    /// A fresh clock with nothing accumulated.
    pub fn new() -> (r: PacingClock)
        ensures
            r.accumulated_ms == 0,
    {
        PacingClock { accumulated_ms: 0 }
    }

    /// Adds `elapsed_ms` to the accumulator and consumes every whole
    /// `interval_ms` now contained in it, returning how many were consumed.
    /// The remainder stays accumulated, so partial progress is never lost.
    pub fn advance(&mut self, elapsed_ms: u64, interval_ms: u64) -> (fired: u64)
        requires
            interval_ms >= 1,
        ensures
            fired == sat_add_u64(old(self).accumulated_ms as int, elapsed_ms as int) / (
            interval_ms as int),
            final(self).accumulated_ms == sat_add_u64(
                old(self).accumulated_ms as int,
                elapsed_ms as int,
            ) % (interval_ms as int),
    {
        let total: u64 = if elapsed_ms > u64::MAX - self.accumulated_ms {
            u64::MAX
        } else {
            self.accumulated_ms + elapsed_ms
        };
        let fired = total / interval_ms;
        self.accumulated_ms = total % interval_ms;
        fired
    }
}

} // verus!
