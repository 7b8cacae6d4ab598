//! Timing constants of the monitor.

use vstd::prelude::*;

verus! {

/// Milliseconds between two passes of the consumer.
pub const TICK_RATE_MS: u64 = 500;

/// Seconds of traffic that the averages and the charts look back on.
pub const HISTORY_WINDOW_SECS: u64 = 60;

/// Samples held per window: the look-back duration divided by the tick.
pub const MAX_SAMPLES: usize = 120;

/// The sample count is the look-back duration over the tick interval.
pub proof fn lemma_max_samples_is_duration_over_tick()
    ensures
        MAX_SAMPLES as int == (HISTORY_WINDOW_SECS as int * 1000) / (TICK_RATE_MS as int),
{
}

} // verus!
