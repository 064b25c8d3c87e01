//! The load balancer's state: its backends with their round-robin cursor,
//! the flow table that keeps each connection on one backend, and the ARP
//! cache of backend hardware addresses.

use std::collections::HashMap;
use vstd::prelude::*;
use vstd::std_specs::iter::IteratorSpec;
use crate::addr::{FlowKey, MacAddr, SocketAddress, flow_code};
use crate::clock::Clock;

verus! {

broadcast use vstd::std_specs::hash::group_hash_axioms;

/// A backend server that the load balancer sends traffic to.
#[derive(Clone, Copy, Debug, PartialEq, Eq, Structural)]
pub struct Backend {
    pub addr: SocketAddress,
    pub is_healthy: bool,
}

/// Where a flow goes, and when a packet of it was last seen.
#[derive(Clone, Copy, Debug, PartialEq, Eq, Structural)]
pub struct FlowEntry {
    pub backend_addr: SocketAddress,
    /// Clock reading, in nanoseconds, of the flow's latest packet.
    pub last_seen: u64,
}

/// A learned hardware address, and when it was last confirmed.
#[derive(Clone, Copy, Debug, PartialEq, Eq, Structural)]
pub struct ArpEntry {
    pub mac: MacAddr,
    /// Clock reading, in nanoseconds, of the latest ARP reply for it.
    pub last_seen: u64,
}

/// A table entry stamped with the clock reading at which it was last
/// refreshed.
pub trait Stamped {
    /// The entry's stamp.
    spec fn stamp(&self) -> u64;

    /// Reads the entry's stamp.
    fn last_seen_at(&self) -> (r: u64)
        ensures
            r == self.stamp(),
    ;
}

impl Stamped for FlowEntry {
    open spec fn stamp(&self) -> u64 {
        self.last_seen
    }

    fn last_seen_at(&self) -> (r: u64) {
        self.last_seen
    }
}

impl Stamped for ArpEntry {
    open spec fn stamp(&self) -> u64 {
        self.last_seen
    }

    fn last_seen_at(&self) -> (r: u64) {
        self.last_seen
    }
}

/// The state of the load balancer.
pub struct State {
    pub backends: Vec<Backend>,
    /// The index of the next backend to try (round robin).
    pub next_backend: usize,
    /// Flow table for sticky sessions, keyed by the packed 5-tuple
    /// (`FlowKey::code`).
    pub flow_table: HashMap<u128, FlowEntry>,
    /// ARP cache, keyed by IPv4 address.
    pub arp_table: HashMap<u32, ArpEntry>,
    /// The clock that stamps entries.
    pub clock: Clock,
}

/// The state as the contracts see it.
#[verifier::ext_equal]
pub struct StateView {
    pub backends: Seq<Backend>,
    pub next_backend: usize,
    pub flows: Map<u128, FlowEntry>,
    pub arps: Map<u32, ArpEntry>,
}

impl View for State {
    type V = StateView;

    open spec fn view(&self) -> StateView {
        StateView {
            backends: self.backends@,
            next_backend: self.next_backend,
            flows: self.flow_table@,
            arps: self.arp_table@,
        }
    }
}

/// The first offset `j >= k` (below the number of backends) at which the
/// backend `(start + j) % n` is healthy.
pub open spec fn healthy_offset_from(b: Seq<Backend>, start: int, k: int) -> Option<int>
    decreases b.len() - k,
{
    if k < 0 || k >= b.len() {
        None
    } else if b[(start + k) % (b.len() as int)].is_healthy {
        Some(k)
    } else {
        healthy_offset_from(b, start, k + 1)
    }
}

/// Round robin over `b` from cursor `next`: the address of the first healthy
/// backend at or after position `next % n`, wrapping around, with the cursor
/// moved just past it; with no healthy backend, no address and the cursor at
/// `next % n`. With no backend at all, nothing moves.
pub open spec fn round_robin(b: Seq<Backend>, next: int) -> (Option<SocketAddress>, int) {
    let n = b.len() as int;
    if n == 0 {
        (None, next)
    } else {
        let start = next % n;
        match healthy_offset_from(b, start, 0) {
            Some(k) => {
                let idx = (start + k) % n;
                (Some(b[idx].addr), (idx + 1) % n)
            },
            None => (None, start),
        }
    }
}

/// Nanoseconds from `then` to `now`, or zero when `then` is not earlier
/// (the saturating difference of two clock readings).
pub open spec fn elapsed(now: u64, then: u64) -> int {
    if now >= then {
        now - then
    } else {
        0
    }
}

/// The entries of `m` refreshed less than `timeout` before `now`.
pub open spec fn fresh_entries<K, V: Stamped>(m: Map<K, V>, now: u64, timeout: u128) -> Map<K, V> {
    Map::new(|k: K| m.contains_key(k) && elapsed(now, m[k].stamp()) < timeout, |k: K| m[k])
}

/// Whether some healthy backend of `b` listens at `a`.
pub open spec fn serves(b: Seq<Backend>, a: SocketAddress) -> bool {
    exists|i: int| 0 <= i < b.len() && b[i].addr == a && b[i].is_healthy
}

/// Every flow and ARP entry of `s` is stamped no later than `t`.
pub open spec fn stamps_at_most(s: StateView, t: u64) -> bool {
    &&& forall|k: u128| #[trigger] s.flows.contains_key(k) ==> s.flows[k].last_seen <= t
    &&& forall|k: u32| #[trigger] s.arps.contains_key(k) ==> s.arps[k].last_seen <= t
}

/// What assigning a backend to `flow` at clock reading `now` does: a flow
/// already in the table whose backend is still healthy keeps it and is
/// stamped `now`; any other flow (new, or mapped to a backend that is no
/// longer healthy or no longer listed) gets the next healthy backend by round
/// robin and is recorded with it; with no healthy backend it gets none, and
/// only the cursor moves.
pub open spec fn assign_backend(s: StateView, flow: FlowKey, now: u64) -> (StateView, Option<SocketAddress>) {
    let k = flow_code(flow) as u128;
    if s.flows.contains_key(k) && serves(s.backends, s.flows[k].backend_addr) {
        let a = s.flows[k].backend_addr;
        (
            StateView {
                backends: s.backends,
                next_backend: s.next_backend,
                flows: s.flows.insert(k, FlowEntry { backend_addr: a, last_seen: now }),
                arps: s.arps,
            },
            Some(a),
        )
    } else {
        let (r, next) = round_robin(s.backends, s.next_backend as int);
        match r {
            Some(a) => (
                StateView {
                    backends: s.backends,
                    next_backend: next as usize,
                    flows: s.flows.insert(k, FlowEntry { backend_addr: a, last_seen: now }),
                    arps: s.arps,
                },
                Some(a),
            ),
            None => (
                StateView {
                    backends: s.backends,
                    next_backend: next as usize,
                    flows: s.flows,
                    arps: s.arps,
                },
                None,
            ),
        }
    }
}

/// The state after an ARP reply maps `ip` to `mac` at clock reading `now`.
pub open spec fn learn_arp(s: StateView, ip: u32, mac: MacAddr, now: u64) -> StateView {
    StateView {
        backends: s.backends,
        next_backend: s.next_backend,
        flows: s.flows,
        arps: s.arps.insert(ip, ArpEntry { mac, last_seen: now }),
    }
}

/// The hardware address cached for `ip`, if any.
pub open spec fn cached_mac(s: StateView, ip: u32) -> Option<MacAddr> {
    if s.arps.contains_key(ip) {
        Some(s.arps[ip].mac)
    } else {
        None
    }
}

/// The state after dropping, at clock reading `now`, the flows idle for
/// `flow_timeout` nanoseconds or more and the ARP entries `arp_timeout`
/// nanoseconds old or more.
pub open spec fn expire(s: StateView, flow_timeout: u128, arp_timeout: u128, now: u64) -> StateView {
    StateView {
        backends: s.backends,
        next_backend: s.next_backend,
        flows: fresh_entries(s.flows, now, flow_timeout),
        arps: fresh_entries(s.arps, now, arp_timeout),
    }
}

/// Keys of the entries in `table` that are at least `timeout` old at `now`.
fn stale_keys<K: std::hash::Hash + Eq + Copy, V: Stamped>(table: &HashMap<K, V>, now: u64, timeout: u128) -> (keys: Vec<K>)
    requires
        vstd::std_specs::hash::obeys_key_model::<K>(),
    ensures
        forall|k: K|
            keys@.contains(k) <==> table@.contains_key(k) && !(elapsed(now, table@[k].stamp())
                < timeout),
{
    let mut keys: Vec<K> = Vec::new();
    let ghost pairs = table.iter().remaining();
    for item in it: table.iter()
        invariant
            it.seq() == pairs,
            forall|k: K|
                keys@.contains(k) <==> exists|j: int|
                    0 <= j < it.index() && *(#[trigger] pairs[j]).0 == k && !(elapsed(
                        now,
                        pairs[j].1.stamp(),
                    ) < timeout),
    {
        let ghost before = keys@;
        let ghost idx = it.index();
        let (k, e) = item;
        assert(pairs[idx] == item);
        let stamp = e.last_seen_at();
        let age: u64 = if stamp <= now {
            now - stamp
        } else {
            0
        };
        if age as u128 >= timeout {
            keys.push(*k);
        }
        assert forall|k2: K|
            keys@.contains(k2) <==> exists|j: int|
                0 <= j < idx + 1 && *(#[trigger] pairs[j]).0 == k2 && !(elapsed(
                    now,
                    pairs[j].1.stamp(),
                ) < timeout) by {
            if keys@.contains(k2) && !before.contains(k2) {
                assert(keys@ == before.push(*k));
                assert(k2 == *k);
                assert(*pairs[idx].0 == k2);
            }
            if exists|j: int|
                0 <= j < idx + 1 && *(#[trigger] pairs[j]).0 == k2 && !(elapsed(
                    now,
                    pairs[j].1.stamp(),
                ) < timeout) {
                let j = choose|j: int|
                    0 <= j < idx + 1 && *(#[trigger] pairs[j]).0 == k2 && !(elapsed(
                        now,
                        pairs[j].1.stamp(),
                    ) < timeout);
                if j == idx {
                    assert(keys@.last() == k2);
                } else {
                    assert(before.contains(k2));
                    let p = choose|p: int| 0 <= p < before.len() && before[p] == k2;
                    assert(keys@[p] == k2);
                }
            }
        }
    }
    keys
}

/// Removes each key of `keys` from `table`, leaving the other entries as
/// they were.
fn remove_keys<K: std::hash::Hash + Eq + Copy, V>(table: &mut HashMap<K, V>, keys: &Vec<K>)
    requires
        vstd::std_specs::hash::obeys_key_model::<K>(),
    ensures
        forall|k: K|
            #[trigger] final(table)@.contains_key(k) <==> old(table)@.contains_key(k) && !keys@.contains(k),
        forall|k: K| #[trigger] final(table)@.contains_key(k) ==> final(table)@[k] == old(table)@[k],
{
    let mut i: usize = 0;
    while i < keys.len()
        invariant
            vstd::std_specs::hash::obeys_key_model::<K>(),
            0 <= i <= keys.len(),
            forall|k: K|
                #[trigger] table@.contains_key(k) <==> old(table)@.contains_key(k) && !keys@.take(
                    i as int,
                ).contains(k),
            forall|k: K| #[trigger] table@.contains_key(k) ==> table@[k] == old(table)@[k],
        decreases keys.len() - i,
    {
        let ghost before = table@;
        table.remove(&keys[i]);
        let ghost done = keys@.take(i as int);
        let ghost upto = keys@.take(i + 1);
        assert(keys@.take(i + 1) == done.push(keys@[i as int]));
        assert forall|k: K| #[trigger] upto.contains(k) <==> done.contains(k) || k == keys@[i as int] by {
            if upto.contains(k) && k != keys@[i as int] {
                let p = choose|p: int| 0 <= p < i + 1 && upto[p] == k;
                assert(done[p] == k);
            }
            if done.contains(k) {
                let p = choose|p: int| 0 <= p < i && done[p] == k;
                assert(upto[p] == k);
            }
            if k == keys@[i as int] {
                assert(upto[i as int] == k);
            }
        }
        i = i + 1;
    }
    assert(keys@.take(keys.len() as int) == keys@);
}

proof fn lemma_mod_step(start: int, i: int, n: int)
    requires
        n > 0,
        0 <= start < n,
        0 <= i < n,
    ensures
        ((start + i) % n + 1) % n == (start + i + 1) % n,
        (start + i) % n < n,
        (start + n) % n == start,
        start % n == start,
{
    assert(((start + i) % n + 1) % n == (start + i + 1) % n && (start + i) % n < n && (start + n) % n
        == start && start % n == start) by (nonlinear_arith)
        requires
            n > 0,
            0 <= start < n,
            0 <= i < n,
    ;
}

impl State {
    /// A state over `backends` with the cursor at the first one and empty
    /// tables.
    pub fn new(backends: Vec<Backend>) -> (s: State)
        ensures
            s@.backends == backends@,
            s@.next_backend == 0,
            s@.flows == Map::<u128, FlowEntry>::empty(),
            s@.arps == Map::<u32, ArpEntry>::empty(),
            s.clock.latest() == 0,
            stamps_at_most(s@, s.clock.latest()),
    {
        State {
            backends,
            next_backend: 0,
            flow_table: HashMap::new(),
            arp_table: HashMap::new(),
            clock: Clock::start(),
        }
    }

    /// Selects the next healthy backend using round robin.
    pub fn next_backend_addr(&mut self) -> (r: Option<SocketAddress>)
        ensures
            (r, final(self)@.next_backend as int) == round_robin(
                old(self)@.backends,
                old(self)@.next_backend as int,
            ),
            final(self)@.backends == old(self)@.backends,
            final(self)@.flows == old(self)@.flows,
            final(self)@.arps == old(self)@.arps,
            final(self).clock == old(self).clock,
    {
        let n = self.backends.len();
        if n == 0 {
            return None;
        }
        let ghost b = self.backends@;
        let ghost cursor = self.next_backend as int;
        let ghost start = cursor % (n as int);
        assert(0 <= start < n) by (nonlinear_arith)
            requires
                n > 0,
                start == cursor % (n as int),
        ;
        let mut i: usize = 0;
        while i < n
            invariant
                n == self.backends.len(),
                n > 0,
                0 <= i <= n,
                0 <= start < n,
                b == self.backends@,
                b == old(self)@.backends,
                self.flow_table@ == old(self)@.flows,
                self.arp_table@ == old(self)@.arps,
                self.clock == old(self).clock,
                start == (old(self).next_backend as int) % (n as int),
                i == 0 ==> self.next_backend == old(self).next_backend,
                i > 0 ==> self.next_backend as int == (start + i) % (n as int),
                healthy_offset_from(b, start, 0) == healthy_offset_from(b, start, i as int),
            decreases n - i,
        {
            proof {
                lemma_mod_step(start, i as int, n as int);
            }
            let idx = self.next_backend % n;
            assert(idx as int == (start + i) % (n as int)) by {
                if i > 0 {
                    vstd::arithmetic::div_mod::lemma_small_mod(self.next_backend as nat, n as nat);
                }
            }
            self.next_backend = (idx + 1) % n;
            if self.backends[idx].is_healthy {
                return Some(self.backends[idx].addr);
            }
            i = i + 1;
        }
        proof {
            lemma_mod_step(start, 0, n as int);
        }
        None
    }

    /// Whether some healthy backend listens at `a`.
    fn serves_addr(&self, a: SocketAddress) -> (r: bool)
        ensures
            r == serves(self@.backends, a),
    {
        let mut i: usize = 0;
        while i < self.backends.len()
            invariant
                0 <= i <= self.backends.len(),
                forall|j: int| 0 <= j < i ==> !(#[trigger] self@.backends[j].addr == a && self@.backends[j].is_healthy),
            decreases self.backends.len() - i,
        {
            if self.backends[i].addr == a && self.backends[i].is_healthy {
                return true;
            }
            i = i + 1;
        }
        false
    }

    /// Returns the backend assigned to `flow` at clock reading `now` while it
    /// is healthy, or assigns one by round robin.
    pub fn get_or_assign_backend_at(&mut self, flow: FlowKey, now: u64) -> (r: Option<SocketAddress>)
        ensures
            (final(self)@, r) == assign_backend(old(self)@, flow, now),
            final(self).clock == old(self).clock,
    {
        let key = flow.code();
        let mut known: Option<SocketAddress> = None;
        if let Some(entry) = self.flow_table.get(&key) {
            known = Some(entry.backend_addr);
        }
        if let Some(a) = known {
            if self.serves_addr(a) {
                self.flow_table.insert(key, FlowEntry { backend_addr: a, last_seen: now });
                return Some(a);
            }
        }
        match self.next_backend_addr() {
            Some(a) => {
                self.flow_table.insert(key, FlowEntry { backend_addr: a, last_seen: now });
                Some(a)
            },
            None => None,
        }
    }

    /// Returns the backend assigned to `flow` while it is healthy, or assigns
    /// one by round robin; the flow's entry is stamped with a fresh clock
    /// reading, no earlier than the previous one.
    pub fn get_or_assign_backend(&mut self, flow: FlowKey) -> (r: Option<SocketAddress>)
        ensures
            (final(self)@, r) == assign_backend(old(self)@, flow, final(self).clock.latest()),
            final(self).clock.latest() >= old(self).clock.latest(),
            stamps_at_most(old(self)@, old(self).clock.latest()) ==> stamps_at_most(
                final(self)@,
                final(self).clock.latest(),
            ),
    {
        let now = self.clock.now();
        self.get_or_assign_backend_at(flow, now)
    }

    /// Records, at clock reading `now`, that `ip` is at hardware address
    /// `mac`.
    pub fn update_arp_at(&mut self, ip: u32, mac: MacAddr, now: u64)
        ensures
            final(self)@ == learn_arp(old(self)@, ip, mac, now),
            final(self).clock == old(self).clock,
    {
        self.arp_table.insert(ip, ArpEntry { mac, last_seen: now });
    }

    /// Records that `ip` is at hardware address `mac`, stamped with a fresh
    /// clock reading, no earlier than the previous one.
    pub fn update_arp(&mut self, ip: u32, mac: MacAddr)
        ensures
            final(self)@ == learn_arp(old(self)@, ip, mac, final(self).clock.latest()),
            final(self).clock.latest() >= old(self).clock.latest(),
            stamps_at_most(old(self)@, old(self).clock.latest()) ==> stamps_at_most(
                final(self)@,
                final(self).clock.latest(),
            ),
    {
        let now = self.clock.now();
        self.update_arp_at(ip, mac, now);
    }

    /// The hardware address cached for `ip`.
    pub fn get_mac(&self, ip: u32) -> (r: Option<MacAddr>)
        ensures
            r == cached_mac(self@, ip),
    {
        match self.arp_table.get(&ip) {
            Some(entry) => Some(entry.mac),
            None => None,
        }
    }

    /// Drops, at clock reading `now`, the flows idle for `flow_timeout`
    /// nanoseconds or more and the ARP entries `arp_timeout` nanoseconds old
    /// or more.
    pub fn cleanup_at(&mut self, flow_timeout: u128, arp_timeout: u128, now: u64)
        ensures
            final(self)@ == expire(old(self)@, flow_timeout, arp_timeout, now),
            final(self).clock == old(self).clock,
    {
        let stale_flows = stale_keys(&self.flow_table, now, flow_timeout);
        remove_keys(&mut self.flow_table, &stale_flows);
        let stale_arps = stale_keys(&self.arp_table, now, arp_timeout);
        remove_keys(&mut self.arp_table, &stale_arps);
        assert(self.flow_table@ =~= fresh_entries(old(self)@.flows, now, flow_timeout));
        assert(self.arp_table@ =~= fresh_entries(old(self)@.arps, now, arp_timeout));
    }

    /// Drops the flows idle for `flow_timeout` nanoseconds or more and the ARP
    /// entries `arp_timeout` nanoseconds old or more, at a fresh clock
    /// reading, no earlier than the previous one.
    pub fn cleanup(&mut self, flow_timeout: u128, arp_timeout: u128)
        ensures
            final(self)@ == expire(old(self)@, flow_timeout, arp_timeout, final(self).clock.latest()),
            final(self).clock.latest() >= old(self).clock.latest(),
            stamps_at_most(old(self)@, old(self).clock.latest()) ==> stamps_at_most(
                final(self)@,
                final(self).clock.latest(),
            ),
    {
        let now = self.clock.now();
        self.cleanup_at(flow_timeout, arp_timeout, now);
    }

}

} // verus!
