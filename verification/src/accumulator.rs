//! The delta accumulator that the capture path fills and each tick drains.

use crate::frame::{endpoints_of, frame_endpoints};
use crate::hosts::{is_lan, is_lan_ip};
use std::collections::HashMap;
use vstd::prelude::*;

verus! {

/// Bytes credited to `host` in a per-host table; zero for an absent host.
pub open spec fn count_of(table: Map<u32, u64>, host: u32) -> nat {
    if table.contains_key(host) {
        table[host] as nat
    } else {
        0
    }
}

/// The per-host table after `len` bytes were attributed to `host`: hosts
/// outside the local subnets leave it unchanged.
pub open spec fn credited(table: Map<u32, u64>, host: u32, len: u64) -> Map<u32, u64> {
    if is_lan(host) {
        table.insert(host, (count_of(table, host) + len) as u64)
    } else {
        table
    }
}

/// The per-host table after `n` frames of `len` bytes each were attributed
/// to `host`, one after the other.
pub open spec fn credited_times(table: Map<u32, u64>, host: u32, len: u64, n: nat) -> Map<u32, u64>
    decreases n,
{
    if n == 0 {
        table
    } else {
        credited(credited_times(table, host, len, (n - 1) as nat), host, len)
    }
}

/// What became of a captured frame.
#[derive(Clone, Copy, Debug, PartialEq, Eq)]
pub enum Observed {
    /// The frame carries no IPv4 packet: nothing was recorded.
    Ignored,
    /// The frame was recorded.
    Recorded,
    /// A counter would have left the range of `u64`: nothing was recorded.
    Full,
}

/// Traffic seen since the last drain.
pub struct SharedStats {
    /// Bytes per local host.
    pub traffic_delta: HashMap<u32, u64>,
    /// Inbound bytes.
    pub rx_delta: u64,
    /// Outbound bytes.
    pub tx_delta: u64,
}

impl SharedStats {
    /// An accumulator that has seen nothing.
    pub fn new() -> (s: SharedStats)
        ensures
            s.is_reset(),
    {
        SharedStats { traffic_delta: HashMap::new(), rx_delta: 0, tx_delta: 0 }
    }

    /// Nothing has been recorded since the last drain.
    pub open spec fn is_reset(&self) -> bool {
        &&& self.traffic_delta@ == Map::<u32, u64>::empty()
        &&& self.rx_delta == 0
        &&& self.tx_delta == 0
    }

    /// No counter that a frame of `len` bytes from `src` to `dst` touches
    /// would leave the range of `u64`.
    pub open spec fn has_room(&self, src: u32, dst: u32, len: u64, local: u32) -> bool {
        &&& src == local ==> self.tx_delta + len <= u64::MAX
        &&& src != local ==> self.rx_delta + len <= u64::MAX
        &&& is_lan(src) ==> count_of(self.traffic_delta@, src) + len <= u64::MAX
        &&& is_lan(dst) ==> count_of(credited(self.traffic_delta@, src, len), dst) + len
            <= u64::MAX
    }

    /// Bytes credited to `host` since the last drain.
    pub fn host_delta(&self, host: u32) -> (n: u64)
        ensures
            n == count_of(self.traffic_delta@, host),
    {
        match self.traffic_delta.get(&host) {
            Some(v) => *v,
            None => 0,
        }
    }

    /// Whether `record` may take this frame: see `has_room`.
    pub fn can_record(&self, src: u32, dst: u32, len: u64, local: u32) -> (ok: bool)
        ensures
            ok == self.has_room(src, dst, len, local),
    {
        let global: u64 = if src == local {
            self.tx_delta
        } else {
            self.rx_delta
        };
        if global > u64::MAX - len {
            return false;
        }
        let src_now: u64 = self.host_delta(src);
        if is_lan_ip(src) && src_now > u64::MAX - len {
            return false;
        }
        if is_lan_ip(dst) {
            let dst_now: u64 = self.host_delta(dst);
            let dst_before: u64 = if src == dst {
                src_now + len
            } else {
                dst_now
            };
            if dst_before > u64::MAX - len {
                return false;
            }
        }
        true
    }

    /// Attributes `len` bytes to `host` if it lies in the local subnets.
    pub fn credit(&mut self, host: u32, len: u64)
        requires
            is_lan(host) ==> count_of(old(self).traffic_delta@, host) + len <= u64::MAX,
        ensures
            final(self).traffic_delta@ == credited(old(self).traffic_delta@, host, len),
            final(self).rx_delta == old(self).rx_delta,
            final(self).tx_delta == old(self).tx_delta,
    {
        if is_lan_ip(host) {
            let now: u64 = self.host_delta(host);
            self.traffic_delta.insert(host, now + len);
        }
    }

    /// Records one frame of `len` bytes from `src` to `dst`: the bytes count
    /// as outbound when `src` is the local address and as inbound otherwise,
    /// and are attributed to each of `src` and `dst` that is a local host.
    pub fn record(&mut self, src: u32, dst: u32, len: u64, local: u32)
        requires
            old(self).has_room(src, dst, len, local),
        ensures
            final(self).traffic_delta@ == credited(
                credited(old(self).traffic_delta@, src, len),
                dst,
                len,
            ),
            final(self).tx_delta == old(self).tx_delta + (if src == local { len } else { 0 }),
            final(self).rx_delta == old(self).rx_delta + (if src == local { 0 } else { len }),
    {
        if src == local {
            self.tx_delta = self.tx_delta + len;
        } else {
            self.rx_delta = self.rx_delta + len;
        }
        self.credit(src, len);
        self.credit(dst, len);
    }

    /// Takes one captured frame with the length that the capture reports
    /// for it: a frame with an IPv4 packet is recorded under the packet's
    /// source and destination, unless a counter has no room for it; any
    /// other frame is ignored.
    pub fn observe(&mut self, frame: &[u8], len: u64, local: u32) -> (seen: Observed)
        ensures
            match endpoints_of(frame@) {
                None => seen == Observed::Ignored && *final(self) == *old(self),
                Some(ends) => if old(self).has_room(ends.0, ends.1, len, local) {
                    &&& seen == Observed::Recorded
                    &&& final(self).traffic_delta@ == credited(
                        credited(old(self).traffic_delta@, ends.0, len),
                        ends.1,
                        len,
                    )
                    &&& final(self).tx_delta == old(self).tx_delta + (if ends.0 == local {
                        len
                    } else {
                        0
                    })
                    &&& final(self).rx_delta == old(self).rx_delta + (if ends.0 == local {
                        0
                    } else {
                        len
                    })
                } else {
                    seen == Observed::Full && *final(self) == *old(self)
                },
            },
    {
        match frame_endpoints(frame) {
            None => Observed::Ignored,
            Some(ends) => {
                if self.can_record(ends.0, ends.1, len, local) {
                    self.record(ends.0, ends.1, len, local);
                    Observed::Recorded
                } else {
                    Observed::Full
                }
            },
        }
    }

    /// Hands out everything recorded since the last drain and leaves the
    /// accumulator empty.
    pub fn drain_and_reset(&mut self) -> (drained: SharedStats)
        ensures
            drained.traffic_delta@ == old(self).traffic_delta@,
            drained.rx_delta == old(self).rx_delta,
            drained.tx_delta == old(self).tx_delta,
            final(self).is_reset(),
    {
        let mut taken = SharedStats::new();
        std::mem::swap(self, &mut taken);
        taken
    }
}

/// Between two drains no counter goes down: crediting a host, without its
/// counter leaving the range of `u64`, lowers the count of no host.
pub proof fn lemma_credit_never_lowers(table: Map<u32, u64>, host: u32, len: u64, other: u32)
    requires
        is_lan(host) ==> count_of(table, host) + len <= u64::MAX,
    ensures
        count_of(credited(table, host, len), other) >= count_of(table, other),
        other != host ==> count_of(credited(table, host, len), other) == count_of(table, other),
        is_lan(host) ==> count_of(credited(table, host, len), host) == count_of(table, host)
            + len,
{
}

/// Crediting a local host `n` times with `len` bytes, from any table and
/// with no counter leaving the range of `u64`, leaves it with exactly
/// `n * len` bytes more, and every other host as it was.
pub proof fn lemma_exactly_once(table: Map<u32, u64>, host: u32, len: u64, n: nat)
    requires
        is_lan(host),
        count_of(table, host) + n * len <= u64::MAX,
    ensures
        count_of(credited_times(table, host, len, n), host) == count_of(table, host) + n * len,
        forall|other: u32|
            other != host ==> count_of(credited_times(table, host, len, n), other) == count_of(
                table,
                other,
            ),
    decreases n,
{
    if n > 0 {
        assert((n - 1) * len + len == n * len) by (nonlinear_arith);
        assert((n - 1) * len >= 0) by (nonlinear_arith)
            requires
                n >= 1,
        ;
        lemma_exactly_once(table, host, len, (n - 1) as nat);
    } else {
        assert(n * len == 0) by (nonlinear_arith)
            requires
                n == 0,
        ;
    }
}

} // verus!
