//! Sliding-window rate estimator of one host.

use crate::config::{MAX_SAMPLES, TICK_RATE_MS};
use crate::rate::Rate;
use std::collections::VecDeque;
use vstd::prelude::*;

verus! {

/// Sum of the samples of a window.
pub open spec fn window_sum(w: Seq<u64>) -> nat
    decreases w.len(),
{
    if w.len() == 0 {
        0
    } else {
        window_sum(w.drop_last()) + w.last() as nat
    }
}

/// The window after one more sample: the sample is appended, and the oldest
/// one leaves once more than `capacity` are held.
pub open spec fn slide(w: Seq<u64>, sample: u64, capacity: nat) -> Seq<u64> {
    if w.len() + 1 > capacity {
        w.push(sample).skip(1)
    } else {
        w.push(sample)
    }
}

/// Average rate of a window whose samples are `tick_ms` milliseconds apart.
pub open spec fn window_rate(w: Seq<u64>, tick_ms: u64) -> Rate {
    Rate { bytes: window_sum(w) as u128, millis: (w.len() * tick_ms) as u64 }
}

/// Appending a sample adds it to the sum.
pub proof fn lemma_sum_push(w: Seq<u64>, sample: u64)
    ensures
        window_sum(w.push(sample)) == window_sum(w) + sample,
{
    assert(w.push(sample).drop_last() =~= w);
}

/// Dropping the oldest sample takes it off the sum.
pub proof fn lemma_sum_skip_first(w: Seq<u64>)
    requires
        w.len() > 0,
    ensures
        window_sum(w.skip(1)) + w[0] == window_sum(w),
    decreases w.len(),
{
    if w.len() == 1 {
        assert(window_sum(w.skip(1)) == 0);
        assert(window_sum(w.drop_last()) == 0);
    } else {
        lemma_sum_skip_first(w.drop_last());
        assert(w.skip(1).drop_last() =~= w.drop_last().skip(1));
        assert(w.skip(1).last() == w.last());
        assert(w.drop_last()[0] == w[0]);
    }
}

/// A sum of `u64` samples is at most their number times `u64::MAX`.
pub proof fn lemma_sum_bound(w: Seq<u64>)
    ensures
        window_sum(w) <= w.len() * 0xffff_ffff_ffff_ffff,
    decreases w.len(),
{
    if w.len() > 0 {
        lemma_sum_bound(w.drop_last());
        assert((w.len() - 1) * 0xffff_ffff_ffff_ffff + 0xffff_ffff_ffff_ffff == w.len()
            * 0xffff_ffff_ffff_ffff) by (nonlinear_arith);
    }
}

/// Per-host estimator: the last samples, oldest first, and their running sum.
pub struct IpHistory {
    /// Byte deltas of the last ticks, oldest first.
    pub samples: VecDeque<u64>,
    /// Sum of `samples`.
    pub total_sum: u128,
    /// Most samples that the window holds.
    pub capacity: usize,
    /// Milliseconds between two samples.
    pub tick_ms: u64,
}

impl IpHistory {
    /// The running sum equals the sum of the held samples, the window is
    /// within its capacity, and the longest span fits in 64 bits.
    pub open spec fn wf(&self) -> bool {
        &&& self.samples@.len() <= self.capacity
        &&& self.total_sum == window_sum(self.samples@)
        &&& self.capacity * self.tick_ms <= u64::MAX
    }

    /// The held samples, oldest first.
    pub open spec fn window(&self) -> Seq<u64> {
        self.samples@
    }

    /// An empty estimator with the default window and tick.
    pub fn new() -> (h: IpHistory)
        ensures
            h.wf(),
            h.window() == Seq::<u64>::empty(),
            h.total_sum == 0,
            h.capacity == MAX_SAMPLES,
            h.tick_ms == TICK_RATE_MS,
    {
        assert(MAX_SAMPLES * TICK_RATE_MS == 60000) by (nonlinear_arith)
            requires
                MAX_SAMPLES == 120,
                TICK_RATE_MS == 500,
        ;
        IpHistory {
            samples: VecDeque::with_capacity(MAX_SAMPLES),
            total_sum: 0,
            capacity: MAX_SAMPLES,
            tick_ms: TICK_RATE_MS,
        }
    }

    /// An empty estimator holding up to `capacity` samples taken `tick_ms`
    /// milliseconds apart, or `None` where the longest span, `capacity *
    /// tick_ms`, does not fit in 64 bits.
    pub fn with_window(capacity: usize, tick_ms: u64) -> (r: Option<IpHistory>)
        ensures
            r is Some <==> capacity * tick_ms <= u64::MAX,
            r matches Some(h) ==> {
                &&& h.wf()
                &&& h.window() == Seq::<u64>::empty()
                &&& h.total_sum == 0
                &&& h.capacity == capacity
                &&& h.tick_ms == tick_ms
            },
    {
        match (capacity as u64).checked_mul(tick_ms) {
            Some(_) => Some(
                IpHistory { samples: VecDeque::new(), total_sum: 0, capacity, tick_ms },
            ),
            None => None,
        }
    }

    /// Takes the byte delta of one tick: appends it as the newest sample,
    /// evicts the oldest one if the window is over capacity, and returns the
    /// average rate over the samples then held.
    pub fn update(&mut self, bytes: u64) -> (rate: Rate)
        requires
            old(self).wf(),
        ensures
            final(self).wf(),
            final(self).capacity == old(self).capacity,
            final(self).tick_ms == old(self).tick_ms,
            final(self).window() == slide(old(self).window(), bytes, old(self).capacity as nat),
            final(self).total_sum == window_sum(final(self).window()),
            rate == window_rate(final(self).window(), old(self).tick_ms),
    {
        proof {
            lemma_sum_bound(self.samples@);
            lemma_sum_push(self.samples@, bytes);
            assert(self.samples@.len() * 0xffff_ffff_ffff_ffff <= 0xffff_ffff_ffff_ffff
                * 0xffff_ffff_ffff_ffff) by (nonlinear_arith)
                requires
                    self.samples@.len() <= 0xffff_ffff_ffff_ffff,
            ;
        }
        self.samples.push_back(bytes);
        self.total_sum = self.total_sum + bytes as u128;
        if self.samples.len() > self.capacity {
            proof {
                lemma_sum_skip_first(self.samples@);
            }
            if let Some(removed) = self.samples.pop_front() {
                self.total_sum = self.total_sum - removed as u128;
            }
        }
        let held: usize = self.samples.len();
        assert(held * self.tick_ms <= self.capacity * self.tick_ms) by (nonlinear_arith)
            requires
                held <= self.capacity,
        ;
        Rate { bytes: self.total_sum, millis: held as u64 * self.tick_ms }
    }
}

/// The window after the same sample arrived on `n` ticks in a row.
pub open spec fn fed(w: Seq<u64>, sample: u64, n: nat, capacity: nat) -> Seq<u64>
    decreases n,
{
    if n == 0 {
        w
    } else {
        slide(fed(w, sample, (n - 1) as nat, capacity), sample, capacity)
    }
}

/// A window that holds one sample `len` times sums to `len` times the sample.
pub proof fn lemma_sum_constant(len: nat, sample: u64)
    ensures
        window_sum(Seq::new(len, |i: int| sample)) == len * sample,
    decreases len,
{
    let w = Seq::new(len, |i: int| sample);
    if len == 0 {
        assert(len * sample == 0) by (nonlinear_arith)
            requires
                len == 0,
        ;
    } else {
        lemma_sum_constant((len - 1) as nat, sample);
        assert(w.drop_last() =~= Seq::new((len - 1) as nat, |i: int| sample));
        assert((len - 1) * sample + sample == len * sample) by (nonlinear_arith);
    }
}

/// After `n` ticks with the same sample, a window within its capacity holds
/// as many samples as fit, and the newest `n` of them, or all, are that
/// sample.
pub proof fn lemma_fed_tail(w: Seq<u64>, sample: u64, n: nat, capacity: nat)
    requires
        w.len() <= capacity,
    ensures
        fed(w, sample, n, capacity).len() == if w.len() + n <= capacity {
            w.len() + n
        } else {
            capacity
        },
        forall|i: int|
            0 <= i < fed(w, sample, n, capacity).len() && i >= fed(w, sample, n, capacity).len()
                - n ==> fed(w, sample, n, capacity)[i] == sample,
    decreases n,
{
    if n > 0 {
        lemma_fed_tail(w, sample, (n - 1) as nat, capacity);
    }
}

/// Convergence: once the same delta `d` has arrived on at least as many
/// ticks as the window holds samples, the window holds nothing but `d`, and
/// the average rate is exactly `d` bytes per tick interval.
pub proof fn lemma_convergence(w: Seq<u64>, d: u64, n: nat, capacity: nat, tick_ms: u64)
    requires
        w.len() <= capacity,
        n >= capacity,
        capacity >= 1,
        tick_ms >= 1,
        capacity * tick_ms <= u64::MAX,
    ensures
        fed(w, d, n, capacity) == Seq::new(capacity, |i: int| d),
        window_sum(fed(w, d, n, capacity)) == capacity * d,
        window_rate(fed(w, d, n, capacity), tick_ms).is_per_tick(d as int, tick_ms as int),
{
    let after = fed(w, d, n, capacity);
    lemma_fed_tail(w, d, n, capacity);
    assert(after =~= Seq::new(capacity, |i: int| d));
    lemma_sum_constant(capacity, d);
    lemma_sum_bound(after);
    let rate = window_rate(after, tick_ms);
    assert(capacity <= 0xffff_ffff_ffff_ffff) by (nonlinear_arith)
        requires
            capacity * tick_ms <= 0xffff_ffff_ffff_ffff,
            tick_ms >= 1,
    ;
    assert(capacity * d <= 0xffff_ffff_ffff_ffff * 0xffff_ffff_ffff_ffff) by (nonlinear_arith)
        requires
            capacity <= 0xffff_ffff_ffff_ffff,
            d <= 0xffff_ffff_ffff_ffff,
    ;
    assert(capacity * tick_ms >= 1) by (nonlinear_arith)
        requires
            capacity >= 1,
            tick_ms >= 1,
    ;
    assert(rate.num() == capacity * d);
    assert(rate.den() == capacity * tick_ms);
    assert((capacity * d) * tick_ms == d * (capacity * tick_ms)) by (nonlinear_arith);
}

/// Silence: once the delta zero has arrived on at least as many ticks as the
/// window holds samples, the running sum is zero.
pub proof fn lemma_silence_empties(w: Seq<u64>, n: nat, capacity: nat)
    requires
        w.len() <= capacity,
        n >= capacity,
    ensures
        window_sum(fed(w, 0, n, capacity)) == 0,
{
    let after = fed(w, 0, n, capacity);
    lemma_fed_tail(w, 0, n, capacity);
    assert(after =~= Seq::new(capacity, |i: int| 0u64));
    lemma_sum_constant(capacity, 0);
    assert(capacity * 0 == 0) by (nonlinear_arith);
}

/// A silent tick never raises the running sum.
pub proof fn lemma_silent_slide_shrinks(w: Seq<u64>, capacity: nat)
    ensures
        window_sum(slide(w, 0, capacity)) <= window_sum(w),
{
    lemma_sum_push(w, 0);
    if w.len() + 1 > capacity {
        lemma_sum_skip_first(w.push(0));
    }
}

} // verus!
