//! The consumer's state and the pass it makes on every tick.

use crate::accumulator::{count_of, SharedStats};
use crate::config::{MAX_SAMPLES, TICK_RATE_MS};
use crate::estimator::{
    fed, lemma_silent_slide_shrinks, slide, window_rate, window_sum, IpHistory,
};
use crate::ranking::{distinct_hosts, lemma_ranking_unique_up_to_ties, rank, sorted_desc};
use crate::rate::Rate;
use std::collections::HashMap;
use std::collections::VecDeque;
use vstd::prelude::*;
use vstd::std_specs::hash::spec_keys_iter;
use vstd::std_specs::iter::IteratorSpec;

verus! {

broadcast use vstd::std_specs::hash::group_hash_axioms;

/// A history buffer after one tick: the oldest total leaves and the newest
/// is appended, so the length stays what it was.
pub open spec fn shifted(history: Seq<u64>, total: u64) -> Seq<u64> {
    if history.len() == 0 {
        history
    } else {
        history.skip(1).push(total)
    }
}

/// The window of every host of a registry.
pub open spec fn windows_of(registry: Map<u32, IpHistory>) -> Map<u32, Seq<u64>> {
    Map::new(|h: u32| registry.contains_key(h), |h: u32| registry[h].window())
}

/// The window that `host` has after a tick that drained `deltas`: its
/// previous window, or an empty one for a host not seen before, slid by its
/// delta, which is zero for a host without traffic.
pub open spec fn next_window(
    windows: Map<u32, Seq<u64>>,
    deltas: Map<u32, u64>,
    capacity: nat,
    host: u32,
) -> Seq<u64> {
    let previous = if windows.contains_key(host) {
        windows[host]
    } else {
        Seq::<u64>::empty()
    };
    slide(previous, count_of(deltas, host) as u64, capacity)
}

/// The windows after a tick that drained `deltas`: every host that had a
/// window or has a delta gets its next window, and stays if and only if that
/// window's sum is not zero.
pub open spec fn next_windows(
    windows: Map<u32, Seq<u64>>,
    deltas: Map<u32, u64>,
    capacity: nat,
) -> Map<u32, Seq<u64>> {
    Map::new(
        |h: u32|
            (windows.contains_key(h) || deltas.contains_key(h)) && window_sum(
                next_window(windows, deltas, capacity, h),
            ) > 0,
        |h: u32| next_window(windows, deltas, capacity, h),
    )
}

/// Every estimator of the registry is consistent, has the given window size
/// and tick, and a running sum above zero.
pub open spec fn all_live(registry: Map<u32, IpHistory>, window: usize, tick_ms: u64) -> bool {
    forall|h: u32| #[trigger]
        registry.contains_key(h) ==> {
            &&& registry[h].wf()
            &&& registry[h].capacity == window
            &&& registry[h].tick_ms == tick_ms
            &&& registry[h].total_sum > 0
        }
}

/// Every pair names a host of `windows` with the average rate of its window.
pub open spec fn rates_of(s: Seq<(u32, Rate)>, windows: Map<u32, Seq<u64>>, tick_ms: u64) -> bool {
    forall|k: int|
        0 <= k < s.len() ==> windows.contains_key((#[trigger] s[k]).0) && s[k].1 == window_rate(
            windows[s[k].0],
            tick_ms,
        )
}

/// Every host of `windows` occurs in the sequence.
pub open spec fn covers(s: Seq<(u32, Rate)>, windows: Map<u32, Seq<u64>>) -> bool {
    forall|h: u32| #[trigger]
        windows.contains_key(h) ==> exists|k: int| 0 <= k < s.len() && (#[trigger] s[k]).0 == h
}

/// The sequence is the ranking of `windows`: one pair per host, with the
/// host's average rate, fastest first.
pub open spec fn is_ranking_of(s: Seq<(u32, Rate)>, windows: Map<u32, Seq<u64>>, tick_ms: u64) -> bool {
    &&& sorted_desc(s)
    &&& distinct_hosts(s)
    &&& rates_of(s, windows, tick_ms)
    &&& covers(s, windows)
}

/// Every host that has an estimator or a drained delta, each once.
pub fn collect_hosts(known: &HashMap<u32, IpHistory>, deltas: &HashMap<u32, u64>) -> (hosts: Vec<
    u32,
>)
    ensures
        hosts@.no_duplicates(),
        forall|h: u32|
            hosts@.contains(h) <==> known@.contains_key(h) || deltas@.contains_key(h),
{
    let mut hosts: Vec<u32> = Vec::new();
    let ghost old_keys = spec_keys_iter(known).remaining();
    for k in it: known.keys()
        invariant
            it.seq() == old_keys,
            hosts@.len() == it.index(),
            forall|j: int| 0 <= j < hosts@.len() ==> hosts@[j] == *old_keys[j],
    {
        hosts.push(*k);
    }
    proof {
        assert(hosts@ =~= old_keys.unref());
        assert(old_keys.unref().to_set() == known@.dom());
        assert forall|h: u32| hosts@.contains(h) <==> known@.contains_key(h) by {
            assert(hosts@.to_set().contains(h) <==> known@.dom().contains(h));
        }
    }
    let ghost first = hosts@;
    let ghost new_keys = spec_keys_iter(deltas).remaining();
    for k in it: deltas.keys()
        invariant
            it.seq() == new_keys,
            hosts@.no_duplicates(),
            forall|h: u32| first.contains(h) <==> known@.contains_key(h),
            forall|h: u32|
                hosts@.contains(h) <==> known@.contains_key(h) || exists|j: int|
                    0 <= j < it.index() && *new_keys[j] == h,
    {
        let ghost before = hosts@;
        if !known.contains_key(k) {
            hosts.push(*k);
            proof {
                assert(!before.contains(*k)) by {
                    if before.contains(*k) {
                        let j = choose|j: int| 0 <= j < it.index() && *new_keys[j] == *k;
                        assert(new_keys[j] == new_keys[it.index()]);
                    }
                }
                assert forall|a: int, b: int|
                    0 <= a < hosts@.len() && 0 <= b < hosts@.len() && a != b implies hosts@[a]
                    != hosts@[b] by {
                    if a == before.len() {
                        assert(before.contains(hosts@[b]));
                    } else if b == before.len() {
                        assert(before.contains(hosts@[a]));
                    }
                }
            }
        }
        proof {
            let here = it.index();
            assert forall|h: u32|
                hosts@.contains(h) <==> known@.contains_key(h) || exists|j: int|
                    0 <= j < here + 1 && *new_keys[j] == h by {
                if hosts@.contains(h) {
                    let a = choose|a: int| 0 <= a < hosts@.len() && hosts@[a] == h;
                    if a < before.len() {
                        assert(before.contains(h));
                        if !known@.contains_key(h) {
                            let j = choose|j: int| 0 <= j < here && *new_keys[j] == h;
                            assert(0 <= j < here + 1 && *new_keys[j] == h);
                        }
                    } else {
                        assert(*new_keys[here] == h);
                    }
                }
                if known@.contains_key(h) {
                    assert(before.contains(h));
                    let a = choose|a: int| 0 <= a < before.len() && before[a] == h;
                    assert(hosts@[a] == h);
                } else if exists|j: int| 0 <= j < here + 1 && *new_keys[j] == h {
                    let j = choose|j: int| 0 <= j < here + 1 && *new_keys[j] == h;
                    if j < here {
                        assert(before.contains(h));
                        let a = choose|a: int| 0 <= a < before.len() && before[a] == h;
                        assert(hosts@[a] == h);
                    } else {
                        assert(hosts@[before.len() as int] == h);
                    }
                }
            }
        }
    }
    proof {
        assert(new_keys.unref().to_set() == deltas@.dom());
        assert forall|h: u32|
            hosts@.contains(h) <==> known@.contains_key(h) || deltas@.contains_key(h) by {
            assert(new_keys.unref().to_set().contains(h) <==> deltas@.dom().contains(h));
            if new_keys.unref().contains(h) {
                let j = choose|j: int| 0 <= j < new_keys.len() && new_keys.unref()[j] == h;
                assert(*new_keys[j] == h);
            }
            if exists|j: int| 0 <= j < new_keys.len() && *new_keys[j] == h {
                let j = choose|j: int| 0 <= j < new_keys.len() && *new_keys[j] == h;
                assert(new_keys.unref()[j] == h);
            }
        }
    }
    hosts
}

/// Slides the window of every host by its drained delta: a host seen for the
/// first time gets a fresh estimator, and one whose running sum is zero
/// afterwards leaves the registry. Returns the hosts that stay, each with its
/// new average rate.
pub fn advance_hosts(
    registry: &mut HashMap<u32, IpHistory>,
    deltas: &HashMap<u32, u64>,
    window: usize,
    tick_ms: u64,
) -> (snapshot: Vec<(u32, Rate)>)
    requires
        all_live(old(registry)@, window, tick_ms),
        window * tick_ms <= u64::MAX,
    ensures
        all_live(final(registry)@, window, tick_ms),
        windows_of(final(registry)@) == next_windows(
            windows_of(old(registry)@),
            deltas@,
            window as nat,
        ),
        distinct_hosts(snapshot@),
        rates_of(snapshot@, windows_of(final(registry)@), tick_ms),
        covers(snapshot@, windows_of(final(registry)@)),
{
    let hosts = collect_hosts(registry, deltas);
    let ghost before = registry@;
    let ghost goal = next_windows(windows_of(before), deltas@, window as nat);
    let mut snapshot: Vec<(u32, Rate)> = Vec::new();
    let mut i: usize = 0;
    while i < hosts.len()
        invariant
            i <= hosts@.len(),
            window * tick_ms <= u64::MAX,
            all_live(before, window, tick_ms),
            goal == next_windows(windows_of(before), deltas@, window as nat),
            hosts@.no_duplicates(),
            forall|h: u32|
                hosts@.contains(h) <==> before.contains_key(h) || deltas@.contains_key(h),
            forall|h: u32| #[trigger] registry@.contains_key(h) ==> hosts@.contains(h),
            forall|j: int|
                i <= j < hosts@.len() ==> (registry@.contains_key(#[trigger] hosts@[j])
                    <==> before.contains_key(hosts@[j])) && (before.contains_key(hosts@[j])
                    ==> registry@[hosts@[j]] == before[hosts@[j]]),
            forall|j: int|
                0 <= j < i ==> (registry@.contains_key(#[trigger] hosts@[j]) <==> goal.contains_key(
                    hosts@[j],
                )),
            forall|j: int|
                0 <= j < i && goal.contains_key(#[trigger] hosts@[j]) ==> {
                    &&& registry@[hosts@[j]].wf()
                    &&& registry@[hosts@[j]].capacity == window
                    &&& registry@[hosts@[j]].tick_ms == tick_ms
                    &&& registry@[hosts@[j]].total_sum > 0
                    &&& registry@[hosts@[j]].window() == goal[hosts@[j]]
                },
            forall|k: int|
                0 <= k < snapshot@.len() ==> exists|j: int|
                    0 <= j < i && hosts@[j] == (#[trigger] snapshot@[k]).0,
            rates_of(snapshot@, goal, tick_ms),
            distinct_hosts(snapshot@),
            forall|j: int|
                0 <= j < i && goal.contains_key(#[trigger] hosts@[j]) ==> exists|k: int|
                    0 <= k < snapshot@.len() && (#[trigger] snapshot@[k]).0 == hosts@[j],
        decreases hosts@.len() - i,
    {
        let ip: u32 = hosts[i];
        let bytes_in: u64 = match deltas.get(&ip) {
            Some(v) => *v,
            None => 0,
        };
        let ghost at_entry = registry@;
        let ghost rows = snapshot@;
        let mut history = match registry.remove(&ip) {
            Some(h) => h,
            None => IpHistory {
                samples: VecDeque::new(),
                total_sum: 0,
                capacity: window,
                tick_ms,
            },
        };
        let avg = history.update(bytes_in);
        if history.total_sum > 0 {
            snapshot.push((ip, avg));
            registry.insert(ip, history);
            proof {
                assert forall|k: int| 0 <= k < snapshot@.len() implies exists|j: int|
                    0 <= j < i + 1 && hosts@[j] == (#[trigger] snapshot@[k]).0 by {
                    if k < rows.len() {
                        let j = choose|j: int| 0 <= j < i && hosts@[j] == rows[k].0;
                        assert(hosts@[j] == snapshot@[k].0);
                    } else {
                        assert(hosts@[i as int] == snapshot@[k].0);
                    }
                }
                assert forall|a: int, b: int| 0 <= a < b < snapshot@.len() implies (
                #[trigger] snapshot@[a]).0 != (#[trigger] snapshot@[b]).0 by {
                    if b == rows.len() {
                        let j = choose|j: int| 0 <= j < i && hosts@[j] == rows[a].0;
                        assert(hosts@[j] != hosts@[i as int]);
                    } else {
                        assert(rows[a].0 != rows[b].0);
                    }
                }
            }
        }
        proof {
            assert forall|j: int| i + 1 <= j < hosts@.len() implies (registry@.contains_key(
                #[trigger] hosts@[j],
            ) <==> before.contains_key(hosts@[j])) && (before.contains_key(hosts@[j])
                ==> registry@[hosts@[j]] == before[hosts@[j]]) by {
                assert(hosts@[j] != hosts@[i as int]);
            }
            assert forall|j: int| 0 <= j < i + 1 implies (registry@.contains_key(
                #[trigger] hosts@[j],
            ) <==> goal.contains_key(hosts@[j])) by {
                if j < i {
                    assert(hosts@[j] != hosts@[i as int]);
                }
            }
            assert forall|j: int| 0 <= j < i + 1 && goal.contains_key(
                #[trigger] hosts@[j],
            ) implies {
                &&& registry@[hosts@[j]].wf()
                &&& registry@[hosts@[j]].capacity == window
                &&& registry@[hosts@[j]].tick_ms == tick_ms
                &&& registry@[hosts@[j]].total_sum > 0
                &&& registry@[hosts@[j]].window() == goal[hosts@[j]]
            } by {
                if j < i {
                    assert(hosts@[j] != hosts@[i as int]);
                }
            }
            assert forall|j: int| 0 <= j < i + 1 && goal.contains_key(
                #[trigger] hosts@[j],
            ) implies exists|k: int|
                0 <= k < snapshot@.len() && (#[trigger] snapshot@[k]).0 == hosts@[j] by {
                if j < i {
                    let k = choose|k: int| 0 <= k < rows.len() && (#[trigger] rows[k]).0 == hosts@[j];
                    assert(snapshot@[k].0 == hosts@[j]);
                } else {
                    assert(snapshot@[rows.len() as int].0 == hosts@[j]);
                }
            }
            assert(rates_of(snapshot@, goal, tick_ms)) by {
                assert forall|k: int| 0 <= k < snapshot@.len() implies goal.contains_key(
                    (#[trigger] snapshot@[k]).0,
                ) && snapshot@[k].1 == window_rate(goal[snapshot@[k].0], tick_ms) by {
                    if k < rows.len() {
                        assert(snapshot@[k] == rows[k]);
                    }
                }
            }
        }
        i = i + 1;
    }
    proof {
        let done = registry@;
        assert forall|h: u32| #[trigger] done.contains_key(h) <==> goal.contains_key(h) by {
            if done.contains_key(h) || goal.contains_key(h) {
                assert(hosts@.contains(h));
                let j = choose|j: int| 0 <= j < hosts@.len() && hosts@[j] == h;
                assert(done.contains_key(hosts@[j]) <==> goal.contains_key(hosts@[j]));
            }
        }
        assert forall|h: u32| #[trigger] done.contains_key(h) implies {
            &&& done[h].wf()
            &&& done[h].capacity == window
            &&& done[h].tick_ms == tick_ms
            &&& done[h].total_sum > 0
            &&& done[h].window() == goal[h]
        } by {
            assert(hosts@.contains(h));
            let j = choose|j: int| 0 <= j < hosts@.len() && hosts@[j] == h;
            assert(goal.contains_key(hosts@[j]));
        }
        assert(windows_of(done) =~= goal);
    }
    snapshot
}

/// A buffer of `n` zeros.
pub fn zeros(n: usize) -> (v: Vec<u64>)
    ensures
        v@ == Seq::new(n as nat, |i: int| 0u64),
{
    let mut v: Vec<u64> = Vec::new();
    while v.len() < n
        invariant
            v@.len() <= n,
            forall|i: int| 0 <= i < v@.len() ==> v@[i] == 0,
        decreases n - v@.len(),
    {
        v.push(0);
    }
    assert(v@ =~= Seq::new(n as nat, |i: int| 0u64));
    v
}

/// Drops the oldest total of a history buffer and appends the newest; an
/// empty buffer stays empty.
pub fn push_history(history: &mut Vec<u64>, total: u64)
    ensures
        final(history)@ == shifted(old(history)@, total),
        final(history)@.len() == old(history)@.len(),
{
    if history.len() > 0 {
        history.remove(0);
        history.push(total);
        assert(old(history)@.remove(0) =~= old(history)@.skip(1));
    }
}

/// State of the consumer: the global history buffers, the lifetime and peak
/// counters, the estimator of every host still seen, and the last ranking.
pub struct App {
    /// Inbound bytes of the last ticks, oldest first.
    pub rx_history: Vec<u64>,
    /// Outbound bytes of the last ticks, oldest first.
    pub tx_history: Vec<u64>,
    /// Inbound bytes since the start.
    pub total_rx_bytes: u64,
    /// Outbound bytes since the start.
    pub total_tx_bytes: u64,
    /// Most inbound bytes seen in one tick.
    pub peak_rx_rate: u64,
    /// Most outbound bytes seen in one tick.
    pub peak_tx_rate: u64,
    /// Estimator of every host whose window holds traffic.
    pub ip_histories: HashMap<u32, IpHistory>,
    /// Hosts with their average rates, fastest first.
    pub top_talkers: Vec<(u32, Rate)>,
    /// Samples per estimator window.
    pub window: usize,
    /// Milliseconds between two ticks.
    pub tick_ms: u64,
}

impl App {
    /// The window of every host that has an estimator.
    pub open spec fn windows(&self) -> Map<u32, Seq<u64>> {
        windows_of(self.ip_histories@)
    }

    /// The two history buffers have one length, every estimator is
    /// consistent and holds traffic, and the ranking is that of the
    /// estimators.
    pub open spec fn wf(&self) -> bool {
        &&& self.rx_history@.len() == self.tx_history@.len()
        &&& self.window * self.tick_ms <= u64::MAX
        &&& all_live(self.ip_histories@, self.window, self.tick_ms)
        &&& is_ranking_of(self.top_talkers@, self.windows(), self.tick_ms)
    }

    /// Nothing has been seen yet: the buffers hold `history_len` zeros, the
    /// counters are zero and no host has an estimator.
    pub open spec fn is_fresh(&self, history_len: usize, window: usize, tick_ms: u64) -> bool {
        &&& self.rx_history@ == Seq::new(history_len as nat, |i: int| 0u64)
        &&& self.tx_history@ == Seq::new(history_len as nat, |i: int| 0u64)
        &&& self.total_rx_bytes == 0
        &&& self.total_tx_bytes == 0
        &&& self.peak_rx_rate == 0
        &&& self.peak_tx_rate == 0
        &&& self.ip_histories@ == Map::<u32, IpHistory>::empty()
        &&& self.top_talkers@ == Seq::<(u32, Rate)>::empty()
        &&& self.window == window
        &&& self.tick_ms == tick_ms
    }

    /// The state before the first tick, with the default buffer length,
    /// window and tick.
    pub fn new() -> (app: App)
        ensures
            app.wf(),
            app.is_fresh(MAX_SAMPLES, MAX_SAMPLES, TICK_RATE_MS),
    {
        let app = App {
            rx_history: zeros(MAX_SAMPLES),
            tx_history: zeros(MAX_SAMPLES),
            total_rx_bytes: 0,
            total_tx_bytes: 0,
            peak_rx_rate: 0,
            peak_tx_rate: 0,
            ip_histories: HashMap::new(),
            top_talkers: Vec::new(),
            window: MAX_SAMPLES,
            tick_ms: TICK_RATE_MS,
        };
        assert(app.windows() =~= Map::<u32, Seq<u64>>::empty());
        assert(app.window * app.tick_ms == 60000) by (nonlinear_arith)
            requires
                app.window == 120,
                app.tick_ms == 500,
        ;
        app
    }

    /// The state before the first tick, with history buffers of
    /// `history_len` totals and estimators of `window` samples taken
    /// `tick_ms` milliseconds apart; `None` where the longest span,
    /// `window * tick_ms`, does not fit in 64 bits.
    pub fn with_config(history_len: usize, window: usize, tick_ms: u64) -> (r: Option<App>)
        ensures
            r is Some <==> window * tick_ms <= u64::MAX,
            r matches Some(app) ==> app.wf() && app.is_fresh(history_len, window, tick_ms),
    {
        let wide: u64 = window as u64;
        match wide.checked_mul(tick_ms) {
            Some(_) => {
                let app = App {
                    rx_history: zeros(history_len),
                    tx_history: zeros(history_len),
                    total_rx_bytes: 0,
                    total_tx_bytes: 0,
                    peak_rx_rate: 0,
                    peak_tx_rate: 0,
                    ip_histories: HashMap::new(),
                    top_talkers: Vec::new(),
                    window,
                    tick_ms,
                };
                assert(app.windows() =~= Map::<u32, Seq<u64>>::empty());
                Some(app)
            },
            None => None,
        }
    }

    /// The lifetime totals can take what `stats` holds without leaving the
    /// range of `u64`.
    pub open spec fn has_room(&self, stats: &SharedStats) -> bool {
        &&& self.total_rx_bytes + stats.rx_delta <= u64::MAX
        &&& self.total_tx_bytes + stats.tx_delta <= u64::MAX
    }

    /// Whether `on_tick` may drain `stats`: see `has_room`.
    pub fn can_tick(&self, stats: &SharedStats) -> (ok: bool)
        ensures
            ok == self.has_room(stats),
    {
        self.total_rx_bytes <= u64::MAX - stats.rx_delta && self.total_tx_bytes <= u64::MAX
            - stats.tx_delta
    }

    /// One pass of the consumer. Drains the accumulator; shifts the drained
    /// totals into the history buffers, adds them to the lifetime totals and
    /// raises the peaks to them; slides the window of every host that has an
    /// estimator or a drained delta, dropping the hosts whose running sum is
    /// zero afterwards; and ranks the hosts that stay by average rate,
    /// fastest first.
    pub fn on_tick(&mut self, stats: &mut SharedStats)
        requires
            old(self).wf(),
            old(self).has_room(old(stats)),
        ensures
            final(self).wf(),
            final(stats).is_reset(),
            final(self).window == old(self).window,
            final(self).tick_ms == old(self).tick_ms,
            final(self).rx_history@ == shifted(old(self).rx_history@, old(stats).rx_delta),
            final(self).tx_history@ == shifted(old(self).tx_history@, old(stats).tx_delta),
            final(self).rx_history@.len() == old(self).rx_history@.len(),
            final(self).tx_history@.len() == old(self).tx_history@.len(),
            final(self).total_rx_bytes == old(self).total_rx_bytes + old(stats).rx_delta,
            final(self).total_tx_bytes == old(self).total_tx_bytes + old(stats).tx_delta,
            final(self).peak_rx_rate == if old(stats).rx_delta > old(self).peak_rx_rate {
                old(stats).rx_delta
            } else {
                old(self).peak_rx_rate
            },
            final(self).peak_tx_rate == if old(stats).tx_delta > old(self).peak_tx_rate {
                old(stats).tx_delta
            } else {
                old(self).peak_tx_rate
            },
            final(self).total_rx_bytes >= old(self).total_rx_bytes,
            final(self).total_tx_bytes >= old(self).total_tx_bytes,
            final(self).peak_rx_rate >= old(self).peak_rx_rate,
            final(self).peak_tx_rate >= old(self).peak_tx_rate,
            final(self).windows() == next_windows(
                old(self).windows(),
                old(stats).traffic_delta@,
                old(self).window as nat,
            ),
            is_ranking_of(final(self).top_talkers@, final(self).windows(), old(self).tick_ms),
    {
        let drained = stats.drain_and_reset();

        push_history(&mut self.rx_history, drained.rx_delta);
        push_history(&mut self.tx_history, drained.tx_delta);

        self.total_rx_bytes = self.total_rx_bytes + drained.rx_delta;
        self.total_tx_bytes = self.total_tx_bytes + drained.tx_delta;

        if drained.rx_delta > self.peak_rx_rate {
            self.peak_rx_rate = drained.rx_delta;
        }
        if drained.tx_delta > self.peak_tx_rate {
            self.peak_tx_rate = drained.tx_delta;
        }

        let current_snapshot = advance_hosts(
            &mut self.ip_histories,
            &drained.traffic_delta,
            self.window,
            self.tick_ms,
        );
        let ranked = rank(&current_snapshot);
        proof {
            let windows = self.windows();
            assert forall|k: int| 0 <= k < ranked@.len() implies windows.contains_key(
                (#[trigger] ranked@[k]).0,
            ) && ranked@[k].1 == window_rate(windows[ranked@[k].0], self.tick_ms) by {
                assert(ranked@.contains(ranked@[k]));
                assert(current_snapshot@.contains(ranked@[k]));
                let m = choose|m: int|
                    0 <= m < current_snapshot@.len() && current_snapshot@[m] == ranked@[k];
                assert(windows.contains_key(current_snapshot@[m].0));
            }
            assert forall|h: u32| #[trigger] windows.contains_key(h) implies exists|k: int|
                0 <= k < ranked@.len() && (#[trigger] ranked@[k]).0 == h by {
                let m = choose|m: int|
                    0 <= m < current_snapshot@.len() && (#[trigger] current_snapshot@[m]).0 == h;
                assert(current_snapshot@.contains(current_snapshot@[m]));
                assert(ranked@.contains(current_snapshot@[m]));
                let k = choose|k: int| 0 <= k < ranked@.len() && ranked@[k] == current_snapshot@[m];
                assert(ranked@[k].0 == h);
            }
        }
        self.top_talkers = ranked;
    }
}

/// A history buffer after the totals of several ticks, oldest first.
pub open spec fn history_after(history: Seq<u64>, totals: Seq<u64>) -> Seq<u64>
    decreases totals.len(),
{
    if totals.len() == 0 {
        history
    } else {
        shifted(history_after(history, totals.drop_last()), totals.last())
    }
}

/// Bounded history: after any number of ticks a history buffer has the
/// length it started with and holds the most recent totals, oldest first;
/// once there were at least as many ticks as the buffer is long, these are
/// the totals of the last ticks alone.
pub proof fn lemma_bounded_history(history: Seq<u64>, totals: Seq<u64>)
    ensures
        history_after(history, totals).len() == history.len(),
        history_after(history, totals) == (history + totals).skip(totals.len() as int),
        totals.len() >= history.len() ==> history_after(history, totals) == totals.skip(
            totals.len() - history.len(),
        ),
    decreases totals.len(),
{
    let after = history_after(history, totals);
    if totals.len() == 0 {
        assert(after =~= (history + totals).skip(0));
    } else {
        lemma_bounded_history(history, totals.drop_last());
        assert(after =~= (history + totals).skip(totals.len() as int));
    }
    if totals.len() >= history.len() {
        assert((history + totals).skip(totals.len() as int) =~= totals.skip(
            totals.len() - history.len(),
        ));
    }
}

/// The windows after `n` ticks on which nothing was drained.
pub open spec fn after_silence(windows: Map<u32, Seq<u64>>, n: nat, capacity: nat) -> Map<
    u32,
    Seq<u64>,
>
    decreases n,
{
    if n == 0 {
        windows
    } else {
        next_windows(
            after_silence(windows, (n - 1) as nat, capacity),
            Map::<u32, u64>::empty(),
            capacity,
        )
    }
}

/// Host pruning: a host whose window holds traffic stays through the silent
/// ticks on which its running sum is still above zero, with its window slid
/// by a zero on each, and is gone from the first tick on which the sum is
/// zero, neither before nor after.
pub proof fn lemma_host_pruning(windows: Map<u32, Seq<u64>>, host: u32, n: nat, capacity: nat)
    requires
        windows.contains_key(host),
        window_sum(windows[host]) > 0,
    ensures
        after_silence(windows, n, capacity).contains_key(host) <==> window_sum(
            fed(windows[host], 0, n, capacity),
        ) > 0,
        after_silence(windows, n, capacity).contains_key(host) ==> after_silence(
            windows,
            n,
            capacity,
        )[host] == fed(windows[host], 0, n, capacity),
    decreases n,
{
    if n > 0 {
        lemma_host_pruning(windows, host, (n - 1) as nat, capacity);
        lemma_silent_slide_shrinks(fed(windows[host], 0, (n - 1) as nat, capacity), capacity);
    }
}

/// A ranking of given windows holds exactly the pairs of a host of the
/// windows with its average rate, each once.
pub proof fn lemma_ranking_members(
    s: Seq<(u32, Rate)>,
    windows: Map<u32, Seq<u64>>,
    tick_ms: u64,
    pair: (u32, Rate),
)
    requires
        is_ranking_of(s, windows, tick_ms),
    ensures
        s.no_duplicates(),
        s.contains(pair) <==> windows.contains_key(pair.0) && pair.1 == window_rate(
            windows[pair.0],
            tick_ms,
        ),
        s.to_multiset().count(pair) == if s.contains(pair) {
            1nat
        } else {
            0nat
        },
{
    assert forall|i: int, j: int| 0 <= i < s.len() && 0 <= j < s.len() && i != j implies s[i]
        != s[j] by {
        if i < j {
            assert(s[i].0 != s[j].0);
        } else {
            assert(s[j].0 != s[i].0);
        }
    }
    if windows.contains_key(pair.0) && pair.1 == window_rate(windows[pair.0], tick_ms) {
        let k = choose|k: int| 0 <= k < s.len() && (#[trigger] s[k]).0 == pair.0;
        assert(s[k] == pair);
    }
    if s.contains(pair) {
        let k = choose|k: int| 0 <= k < s.len() && s[k] == pair;
        assert(windows.contains_key(s[k].0));
    }
    s.lemma_multiset_has_no_duplicates();
    vstd::seq_lib::to_multiset_contains(s, pair);
}

/// Ranking order: whatever order the hosts were visited in, the ranking of
/// given windows is determined up to the order among equal rates. Two
/// rankings of the same windows are equally long and have the same rate at
/// every place.
pub proof fn lemma_tick_ranking_unique_up_to_ties(
    a: Seq<(u32, Rate)>,
    b: Seq<(u32, Rate)>,
    windows: Map<u32, Seq<u64>>,
    tick_ms: u64,
)
    requires
        is_ranking_of(a, windows, tick_ms),
        is_ranking_of(b, windows, tick_ms),
    ensures
        a.len() == b.len(),
        a.to_multiset() == b.to_multiset(),
        forall|i: int| 0 <= i < a.len() ==> (#[trigger] a[i]).1.same(b[i].1),
{
    assert forall|pair: (u32, Rate)|
        a.to_multiset().count(pair) == b.to_multiset().count(pair) by {
        lemma_ranking_members(a, windows, tick_ms, pair);
        lemma_ranking_members(b, windows, tick_ms, pair);
    }
    assert(a.to_multiset() =~= b.to_multiset());
    lemma_ranking_unique_up_to_ties(a, b);
}

} // verus!
