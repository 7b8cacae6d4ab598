//! When the consumer makes its next pass.

use vstd::prelude::*;

verus! {

/// The two states of the consumer.
#[derive(Clone, Copy, Debug, PartialEq, Eq)]
pub enum Phase {
    /// Waiting for the tick interval to elapse.
    Idle,
    /// Making one pass.
    Ticking,
}

/// Whether a tick is due: the time since the last one has reached the
/// interval.
pub fn tick_due(elapsed_ms: u64, tick_ms: u64) -> (due: bool)
    ensures
        due == (elapsed_ms >= tick_ms),
{
    elapsed_ms >= tick_ms
}

/// How long to wait for input before the next tick is due: what is left of
/// the interval, or nothing once it has elapsed.
pub fn poll_timeout_ms(elapsed_ms: u64, tick_ms: u64) -> (wait: u64)
    ensures
        elapsed_ms >= tick_ms ==> wait == 0,
        elapsed_ms < tick_ms ==> wait == tick_ms - elapsed_ms,
{
    if elapsed_ms >= tick_ms {
        0
    } else {
        tick_ms - elapsed_ms
    }
}

/// The state after `phase`: an idle consumer starts a pass once the interval
/// has elapsed, and a pass always ends idle.
pub open spec fn phase_after(phase: Phase, elapsed_ms: u64, tick_ms: u64) -> Phase {
    match phase {
        Phase::Idle => if elapsed_ms >= tick_ms {
            Phase::Ticking
        } else {
            Phase::Idle
        },
        Phase::Ticking => Phase::Idle,
    }
}

/// Moves the consumer on by one step: see `phase_after`.
pub fn next_phase(phase: Phase, elapsed_ms: u64, tick_ms: u64) -> (next: Phase)
    ensures
        next == phase_after(phase, elapsed_ms, tick_ms),
{
    match phase {
        Phase::Idle => if tick_due(elapsed_ms, tick_ms) {
            Phase::Ticking
        } else {
            Phase::Idle
        },
        Phase::Ticking => Phase::Idle,
    }
}

/// Whether a key asks to leave: `q` or `c`.
pub fn is_quit_key(key: char) -> (quit: bool)
    ensures
        quit == (key == 'q' || key == 'c'),
{
    key == 'q' || key == 'c'
}

/// Two passes never follow each other directly.
pub proof fn lemma_no_overlapping_passes(phase: Phase, first_ms: u64, second_ms: u64, tick_ms: u64)
    ensures
        !(phase_after(phase, first_ms, tick_ms) == Phase::Ticking && phase_after(
            phase_after(phase, first_ms, tick_ms),
            second_ms,
            tick_ms,
        ) == Phase::Ticking),
{
}

} // verus!
