//! Properties of the load balancer that span several operations: round
//! robin, sticky sessions, the ARP cache, ageing, and frame handling.

use vstd::prelude::*;
use crate::addr::{FlowKey, IpAddress, MacAddr, SocketAddress, flow_code, lemma_flow_code_injective};
use crate::arp::{arp_reply_binding, arp_request_bytes, source_ipv4};
use crate::health::{HealthChange, health_change, with_health};
use crate::passthrough::{FrameActionView, frame_flow, rewrite_fits, retargeted, ipv4_sealed, frame_outcome, rewritten, rewritable, tcp_offset};
use crate::state::{
    Backend,
    FlowEntry,
    StateView,
    assign_backend,
    cached_mac,
    elapsed,
    expire,
    healthy_offset_from,
    learn_arp,
    round_robin,
    serves,
};
use crate::wire::{be16, be32, ipv4_ihl, ipv4_header_checksum, lemma_short_segments_fit, put_be16, tcp_ipv4_checksum};
use vstd::arithmetic::div_mod::{lemma_add_mod_noop_right, lemma_mod_pos_bound, lemma_mod_twice};

verus! {

/// The search for a healthy backend from offset `k` finds one exactly when
/// some backend at an offset `j >= k` is healthy, and what it finds is
/// healthy.
proof fn lemma_healthy_offset(b: Seq<Backend>, start: int, k: int)
    requires
        b.len() > 0,
        0 <= k <= b.len(),
    ensures
        match healthy_offset_from(b, start, k) {
            Some(j) => k <= j < b.len() && b[(start + j) % (b.len() as int)].is_healthy && forall|m: int|
                k <= m < j ==> !#[trigger] b[(start + m) % (b.len() as int)].is_healthy,
            None => forall|j: int| k <= j < b.len() ==> !#[trigger] b[(start + j) % (b.len() as int)].is_healthy,
        },
    decreases b.len() - k,
{
    if k < b.len() {
        lemma_healthy_offset(b, start, k + 1);
    }
}

/// Every position of the ring is reached from `start` at some offset.
proof fn lemma_ring_covers(start: int, i: int, n: int)
    requires
        n > 0,
        0 <= start < n,
        0 <= i < n,
    ensures
        0 <= (if i >= start {
            i - start
        } else {
            i - start + n
        }) < n,
        (start + (if i >= start {
            i - start
        } else {
            i - start + n
        })) % n == i,
{
    let j = if i >= start {
        i - start
    } else {
        i - start + n
    };
    assert((start + j) % n == i) by (nonlinear_arith)
        requires
            n > 0,
            0 <= start < n,
            0 <= i < n,
            j == (if i >= start {
                i - start
            } else {
                i - start + n
            }),
    ;
}

/// Round robin only ever picks a healthy backend, and leaves the cursor on
/// a valid position.
pub proof fn lemma_round_robin_picks_healthy(b: Seq<Backend>, next: int)
    requires
        next >= 0,
    ensures
        round_robin(b, next).0 matches Some(a) ==> exists|i: int|
            0 <= i < b.len() && #[trigger] b[i].is_healthy && b[i].addr == a,
        b.len() > 0 ==> 0 <= round_robin(b, next).1 < b.len(),
{
    if b.len() > 0 {
        let n = b.len() as int;
        let start = next % n;
        assert(0 <= start < n) by (nonlinear_arith)
            requires
                n > 0,
                start == next % n,
        ;
        lemma_healthy_offset(b, start, 0);
        if let Some(k) = healthy_offset_from(b, start, 0) {
            let idx = (start + k) % n;
            assert(0 <= idx < n && 0 <= (idx + 1) % n < n) by (nonlinear_arith)
                requires
                    n > 0,
                    idx == (start + k) % n,
                    start + k >= 0,
            ;
            assert(b[idx].is_healthy);
        }
    }
}

/// Round robin gives no backend exactly when none is healthy.
pub proof fn lemma_round_robin_none_iff_no_healthy(b: Seq<Backend>, next: int)
    requires
        next >= 0,
    ensures
        round_robin(b, next).0 is None <==> forall|i: int| 0 <= i < b.len() ==> !#[trigger] b[i].is_healthy,
{
    lemma_round_robin_picks_healthy(b, next);
    if b.len() > 0 {
        let n = b.len() as int;
        let start = next % n;
        assert(0 <= start < n) by (nonlinear_arith)
            requires
                n > 0,
                start == next % n,
        ;
        lemma_healthy_offset(b, start, 0);
        if healthy_offset_from(b, start, 0) is None {
            assert forall|i: int| 0 <= i < b.len() implies !#[trigger] b[i].is_healthy by {
                lemma_ring_covers(start, i, n);
                let j = if i >= start {
                    i - start
                } else {
                    i - start + n
                };
                assert(!b[(start + j) % n].is_healthy);
            }
        }
    }
}

/// With every backend healthy, round robin takes the backend under the
/// cursor and moves the cursor one step around the ring: successive calls
/// visit the backends in order.
pub proof fn lemma_round_robin_cycles_when_all_healthy(b: Seq<Backend>, next: int)
    requires
        next >= 0,
        b.len() > 0,
        forall|i: int| 0 <= i < b.len() ==> #[trigger] b[i].is_healthy,
    ensures
        round_robin(b, next) == (
            Some(b[next % (b.len() as int)].addr),
            (next % (b.len() as int) + 1) % (b.len() as int),
        ),
{
    let n = b.len() as int;
    let start = next % n;
    assert(0 <= start < n && (start + 0) % n == start) by (nonlinear_arith)
        requires
            n > 0,
            start == next % n,
    ;
    assert(b[(start + 0) % n].is_healthy);
}

/// The offset, counted around the ring from `start`, of the `k`-th (from 0)
/// healthy backend at offset `e` or beyond.
pub open spec fn nth_healthy_offset(b: Seq<Backend>, start: int, e: int, k: nat) -> Option<int>
    decreases k,
{
    match healthy_offset_from(b, start, e) {
        Some(d) => if k == 0 {
            Some(d)
        } else {
            nth_healthy_offset(b, start, d + 1, (k - 1) as nat)
        },
        None => None,
    }
}

/// The round-robin cursor after `k` successive calls from cursor `next`.
pub open spec fn cursor_after(b: Seq<Backend>, next: int, k: nat) -> int
    decreases k,
{
    if k == 0 {
        next
    } else {
        cursor_after(b, round_robin(b, next).1, (k - 1) as nat)
    }
}

/// Searching from a cursor `e` steps past `start` finds what searching from
/// `start` finds beyond offset `e`, `e` steps earlier.
proof fn lemma_search_shift(b: Seq<Backend>, start: int, e: int, m: int, d: int)
    requires
        b.len() > 0,
        0 <= start < b.len(),
        0 <= e,
        0 <= m,
        e + m <= d,
        healthy_offset_from(b, start, e + m) == Some(d),
    ensures
        healthy_offset_from(b, (start + e) % (b.len() as int), m) == Some(d - e),
    decreases d - e - m,
{
    let n = b.len() as int;
    let c = (start + e) % n;
    lemma_healthy_offset(b, start, e + m);
    lemma_add_mod_noop_right(m, start + e, n);
    lemma_mod_pos_bound(start + e, n);
    assert((c + m) % n == (start + e + m) % n);
    if e + m < d {
        assert(!b[(start + (e + m)) % n].is_healthy);
        assert(healthy_offset_from(b, start, e + m) == healthy_offset_from(b, start, e + m + 1));
        lemma_search_shift(b, start, e, m + 1, d);
    }
}

/// From a cursor `e` steps past `start`, round robin takes the first healthy
/// backend at offset `e` or beyond and moves the cursor just past it.
proof fn lemma_round_robin_from(b: Seq<Backend>, start: int, e: int, c: int)
    requires
        b.len() > 0,
        0 <= start < b.len(),
        0 <= e,
        c >= 0,
        c % (b.len() as int) == (start + e) % (b.len() as int),
        healthy_offset_from(b, start, e) is Some,
    ensures
        ({
            let n = b.len() as int;
            let d = healthy_offset_from(b, start, e)->0;
            &&& round_robin(b, c).0 == Some(b[(start + d) % n].addr)
            &&& round_robin(b, c).1 >= 0
            &&& round_robin(b, c).1 % n == (start + d + 1) % n
        }),
{
    let n = b.len() as int;
    let d = healthy_offset_from(b, start, e)->0;
    lemma_healthy_offset(b, start, e);
    lemma_search_shift(b, start, e, 0, d);
    let cc = c % n;
    let idx = (cc + (d - e)) % n;
    lemma_mod_pos_bound(c, n);
    lemma_add_mod_noop_right(d - e, start + e, n);
    assert(idx == (start + d) % n);
    lemma_mod_pos_bound(cc + (d - e), n);
    lemma_mod_pos_bound(idx + 1, n);
    lemma_mod_twice(idx + 1, n);
    lemma_add_mod_noop_right(1, start + d, n);
    assert((idx + 1) % n == (start + d + 1) % n);
}

/// The `k`-th call from a cursor `e` steps past `start` takes the `k`-th
/// healthy backend at offset `e` or beyond.
proof fn lemma_round_robin_visits(b: Seq<Backend>, start: int, e: int, c: int, k: nat)
    requires
        b.len() > 0,
        0 <= start < b.len(),
        0 <= e,
        c >= 0,
        c % (b.len() as int) == (start + e) % (b.len() as int),
        nth_healthy_offset(b, start, e, k) is Some,
    ensures
        round_robin(b, cursor_after(b, c, k)).0 == Some(
            b[(start + nth_healthy_offset(b, start, e, k)->0) % (b.len() as int)].addr,
        ),
    decreases k,
{
    let d0 = healthy_offset_from(b, start, e)->0;
    lemma_round_robin_from(b, start, e, c);
    if k > 0 {
        lemma_round_robin_visits(b, start, d0 + 1, round_robin(b, c).1, (k - 1) as nat);
    }
}

/// Round-robin fairness: from cursor `next`, the `k`-th successive call (from
/// 0) takes the `k`-th healthy backend counted around the ring from
/// `next % n`; with `lemma_healthy_offsets_enumerated`, the calls visit
/// every healthy backend once, in ring order, before any is taken again.
pub proof fn lemma_round_robin_is_fair(b: Seq<Backend>, next: int, k: nat)
    requires
        next >= 0,
        b.len() > 0,
        nth_healthy_offset(b, next % (b.len() as int), 0, k) is Some,
    ensures
        round_robin(b, cursor_after(b, next, k)).0 == Some(
            b[(next % (b.len() as int) + nth_healthy_offset(b, next % (b.len() as int), 0, k)->0) % (
            b.len() as int)].addr,
        ),
{
    let n = b.len() as int;
    let start = next % n;
    assert(0 <= start < n && next % n == (start + 0) % n) by (nonlinear_arith)
        requires
            n > 0,
            next >= 0,
            start == next % n,
    ;
    lemma_round_robin_visits(b, start, 0, next, k);
}

/// The `k`-th healthy offset at `e` or beyond is a healthy offset at `e` or
/// beyond, the offsets grow with `k`, and every healthy offset at `e` or
/// beyond is one of them.
proof fn lemma_nth_healthy(b: Seq<Backend>, start: int, e: int, k: nat, j: int)
    requires
        b.len() > 0,
        0 <= start < b.len(),
        0 <= e <= b.len(),
    ensures
        nth_healthy_offset(b, start, e, k) matches Some(d) ==> e <= d < b.len() && b[(start + d) % (
        b.len() as int)].is_healthy,
        nth_healthy_offset(b, start, e, k) matches Some(d) ==> (nth_healthy_offset(b, start, e, k + 1) matches Some(
            d2,
        ) ==> d < d2),
        e <= j < b.len() && b[(start + j) % (b.len() as int)].is_healthy ==> exists|k2: nat|
            #[trigger] nth_healthy_offset(b, start, e, k2) == Some(j),
    decreases k + (b.len() - e),
{
    lemma_healthy_offset(b, start, e);
    if let Some(d0) = healthy_offset_from(b, start, e) {
        if k > 0 {
            lemma_nth_healthy(b, start, d0 + 1, (k - 1) as nat, j);
        } else {
            lemma_healthy_offset(b, start, d0 + 1);
        }
        if e <= j < b.len() && b[(start + j) % (b.len() as int)].is_healthy && j != d0 {
            lemma_nth_healthy(b, start, d0 + 1, 0, j);
            let k2 = choose|k2: nat| #[trigger] nth_healthy_offset(b, start, d0 + 1, k2) == Some(j);
            assert(nth_healthy_offset(b, start, e, k2 + 1) == Some(j));
        } else if e <= j < b.len() && b[(start + j) % (b.len() as int)].is_healthy {
            assert(nth_healthy_offset(b, start, e, 0) == Some(j));
        }
    }
}

/// The healthy offsets counted around the ring from `start` are enumerated
/// in increasing order: each is a healthy backend's offset, and every healthy
/// backend's offset is the `k`-th for some `k`.
pub proof fn lemma_healthy_offsets_enumerated(b: Seq<Backend>, start: int, k: nat, j: int)
    requires
        b.len() > 0,
        0 <= start < b.len(),
    ensures
        nth_healthy_offset(b, start, 0, k) matches Some(d) ==> 0 <= d < b.len() && b[(start + d) % (
        b.len() as int)].is_healthy,
        nth_healthy_offset(b, start, 0, k) matches Some(d) ==> (nth_healthy_offset(b, start, 0, k + 1) matches Some(
            d2,
        ) ==> d < d2),
        0 <= j < b.len() && b[(start + j) % (b.len() as int)].is_healthy ==> exists|k2: nat|
            #[trigger] nth_healthy_offset(b, start, 0, k2) == Some(j),
{
    lemma_nth_healthy(b, start, 0, k, j);
}

/// The number of healthy backends at offsets `e` and beyond, counted around
/// the ring from `start`.
pub open spec fn healthy_count(b: Seq<Backend>, start: int, e: int) -> int
    decreases b.len() - e,
{
    if 0 <= e < b.len() {
        (if b[(start + e) % (b.len() as int)].is_healthy {
            1int
        } else {
            0int
        }) + healthy_count(b, start, e + 1)
    } else {
        0
    }
}

/// Skipping unhealthy offsets does not change the count.
proof fn lemma_count_skips_unhealthy(b: Seq<Backend>, start: int, e: int, d: int)
    requires
        0 <= e <= d <= b.len(),
        forall|m: int| e <= m < d ==> !#[trigger] b[(start + m) % (b.len() as int)].is_healthy,
    ensures
        healthy_count(b, start, e) == healthy_count(b, start, d),
    decreases d - e,
{
    if e < d {
        lemma_count_skips_unhealthy(b, start, e + 1, d);
    }
}

/// There is a `k`-th healthy offset at `e` or beyond exactly when `k` is
/// below the number of healthy backends there.
proof fn lemma_count_bounds_nth(b: Seq<Backend>, start: int, e: int, k: nat)
    requires
        b.len() > 0,
        0 <= start < b.len(),
        0 <= e <= b.len(),
    ensures
        healthy_count(b, start, e) >= 0,
        nth_healthy_offset(b, start, e, k) is Some <==> k < healthy_count(b, start, e),
    decreases k + (b.len() - e),
{
    lemma_healthy_offset(b, start, e);
    match healthy_offset_from(b, start, e) {
        Some(d0) => {
            lemma_count_skips_unhealthy(b, start, e, d0);
            lemma_count_bounds_nth(b, start, d0 + 1, if k > 0 {
                (k - 1) as nat
            } else {
                0
            });
        },
        None => {
            lemma_count_skips_unhealthy(b, start, e, b.len() as int);
        },
    }
}

/// The `k`-th healthy offsets grow with `k`.
proof fn lemma_nth_increasing(b: Seq<Backend>, start: int, k1: nat, k2: nat)
    requires
        b.len() > 0,
        0 <= start < b.len(),
        k1 < k2 < healthy_count(b, start, 0),
    ensures
        nth_healthy_offset(b, start, 0, k1)->0 < nth_healthy_offset(b, start, 0, k2)->0,
    decreases k2 - k1,
{
    let km = (k2 - 1) as nat;
    lemma_count_bounds_nth(b, start, 0, km);
    lemma_count_bounds_nth(b, start, 0, k2);
    lemma_healthy_offsets_enumerated(b, start, km, 0);
    if k1 < km {
        lemma_nth_increasing(b, start, k1, km);
    }
}

/// Positions `d` steps around the ring from `start`, for `d < n`.
proof fn lemma_ring_index(start: int, d: int, n: int)
    requires
        n > 0,
        0 <= start < n,
        0 <= d < n,
    ensures
        (start + d) % n == if start + d < n {
            start + d
        } else {
            start + d - n
        },
{
    assert((start + d) % n == if start + d < n {
        start + d
    } else {
        start + d - n
    }) by (nonlinear_arith)
        requires
            n > 0,
            0 <= start < n,
            0 <= d < n,
    ;
}

/// The backend index that the `k`-th successive round-robin call from cursor
/// `next` takes.
pub open spec fn round_robin_pick(b: Seq<Backend>, next: int, k: nat) -> int {
    let n = b.len() as int;
    (next % n + nth_healthy_offset(b, next % n, 0, k)->0) % n
}

/// Round robin over a full round: with `h` healthy backends, the first `h`
/// successive calls from any cursor take healthy backends, no backend twice,
/// and every healthy backend once, in ring order from the cursor.
pub proof fn lemma_round_robin_full_round(b: Seq<Backend>, next: int)
    requires
        next >= 0,
        b.len() > 0,
    ensures
        ({
            let n = b.len() as int;
            let h = healthy_count(b, next % n, 0);
            &&& forall|k: nat|
                k < h ==> {
                    &&& 0 <= #[trigger] round_robin_pick(b, next, k) < n
                    &&& b[round_robin_pick(b, next, k)].is_healthy
                    &&& round_robin(b, cursor_after(b, next, k)).0 == Some(
                        b[round_robin_pick(b, next, k)].addr,
                    )
                }
            &&& forall|k1: nat, k2: nat|
                k1 < k2 < h ==> #[trigger] round_robin_pick(b, next, k1) != #[trigger] round_robin_pick(
                    b,
                    next,
                    k2,
                )
            &&& forall|i: int|
                0 <= i < n && #[trigger] b[i].is_healthy ==> exists|k: nat|
                    k < h && #[trigger] round_robin_pick(b, next, k) == i
        }),
{
    let n = b.len() as int;
    let start = next % n;
    assert(0 <= start < n) by (nonlinear_arith)
        requires
            n > 0,
            start == next % n,
    ;
    let h = healthy_count(b, start, 0);
    assert forall|k: nat| k < h implies {
        &&& 0 <= #[trigger] round_robin_pick(b, next, k) < n
        &&& b[round_robin_pick(b, next, k)].is_healthy
        &&& round_robin(b, cursor_after(b, next, k)).0 == Some(b[round_robin_pick(b, next, k)].addr)
    } by {
        lemma_count_bounds_nth(b, start, 0, k);
        lemma_healthy_offsets_enumerated(b, start, k, 0);
        lemma_round_robin_is_fair(b, next, k);
        lemma_ring_index(start, nth_healthy_offset(b, start, 0, k)->0, n);
    }
    assert forall|k1: nat, k2: nat| k1 < k2 < h implies #[trigger] round_robin_pick(b, next, k1)
        != #[trigger] round_robin_pick(b, next, k2) by {
        lemma_count_bounds_nth(b, start, 0, k1);
        lemma_count_bounds_nth(b, start, 0, k2);
        lemma_healthy_offsets_enumerated(b, start, k1, 0);
        lemma_healthy_offsets_enumerated(b, start, k2, 0);
        lemma_nth_increasing(b, start, k1, k2);
        lemma_ring_index(start, nth_healthy_offset(b, start, 0, k1)->0, n);
        lemma_ring_index(start, nth_healthy_offset(b, start, 0, k2)->0, n);
    }
    assert forall|i: int| 0 <= i < n && #[trigger] b[i].is_healthy implies exists|k: nat|
        k < h && #[trigger] round_robin_pick(b, next, k) == i by {
        lemma_ring_covers(start, i, n);
        let j = if i >= start {
            i - start
        } else {
            i - start + n
        };
        lemma_healthy_offsets_enumerated(b, start, 0, j);
        let k = choose|k: nat| #[trigger] nth_healthy_offset(b, start, 0, k) == Some(j);
        lemma_count_bounds_nth(b, start, 0, k);
        assert(round_robin_pick(b, next, k) == i);
    }
}

/// Writing back the big-endian 16-bit value read at `i` leaves the bytes as
/// they were.
proof fn lemma_put_be16_same(s: Seq<u8>, i: int)
    requires
        0 <= i,
        i + 1 < s.len(),
    ensures
        put_be16(s, i, be16(s, i)) == s,
{
    let hi = s[i] as int;
    let lo = s[i + 1] as int;
    let v = hi * 256 + lo;
    assert(v / 256 == hi && v % 256 == lo && 0 <= v < 0x10000) by (nonlinear_arith)
        requires
            0 <= hi < 256,
            0 <= lo < 256,
            v == hi * 256 + lo,
    ;
    assert(be16(s, i) as int == v);
    assert(put_be16(s, i, be16(s, i)) =~= s);
}

/// The TCP checksum of a forwarded frame covers the whole segment: the value
/// in its checksum field is `pnet`'s TCP checksum of the forwarded frame's
/// bytes from the TCP header to the very end of the frame (an odd trailing
/// byte included), taken with some value in the checksum field (which `pnet`
/// leaves out of the sum), over the pseudo-header from the received frame's
/// IPv4 source to the backend.
pub proof fn lemma_forwarded_checksum_covers_segment(
    frame: Seq<u8>,
    source_mac: MacAddr,
    target_mac: MacAddr,
    backend_ip: u32,
    backend_port: u16,
)
    requires
        frame_flow(frame) is Some,
    ensures
        ({
            let out = rewritten(frame, source_mac, target_mac, backend_ip, backend_port);
            let t = tcp_offset(out);
            &&& out.len() == frame.len()
            &&& 14 <= t && t + 20 <= out.len()
            &&& exists|c0: u16|
                be16(out, t + 16) == tcp_ipv4_checksum(
                    #[trigger] put_be16(out, t + 16, c0).subrange(t, out.len() as int),
                    be32(frame, 26),
                    backend_ip,
                )
        }),
{
    let len = frame.len() as int;
    let a = retargeted(frame, source_mac, target_mac, backend_ip);
    let b = ipv4_sealed(a, ipv4_header_checksum(a.subrange(14, a.len() as int)), backend_port);
    let t = tcp_offset(b);
    let c2 = tcp_ipv4_checksum(b.subrange(t, b.len() as int), be32(frame, 26), backend_ip);
    let out = rewritten(frame, source_mac, target_mac, backend_ip, backend_port);
    assert(frame.subrange(14, len)[0] == frame[14]);
    assert(frame_flow(frame) is Some ==> rewritable(frame));
    assert(a.subrange(14, len)[0] == a[14]);
    let a1 = put_be16(a, 24, ipv4_header_checksum(a.subrange(14, len)));
    assert(a1.subrange(14, len)[0] == a1[14]);
    assert(b.subrange(14, len)[0] == b[14]);
    assert(out.subrange(14, len)[0] == out[14]);
    assert(tcp_offset(out) == t);
    assert(out == put_be16(b, t + 16, c2));
    let c0 = be16(b, t + 16);
    lemma_put_be16_same(b, t + 16);
    assert(put_be16(out, t + 16, c0) =~= put_be16(b, t + 16, c0));
    assert(be16(out, t + 16) == c2) by {
        let hi = (c2 / 0x100) as u8;
        let lo = (c2 % 0x100) as u8;
        assert(out[t + 16] == hi && out[t + 17] == lo);
        assert(hi as int * 256 + lo as int == c2) by (nonlinear_arith)
            requires
                hi as int == c2 / 0x100,
                lo as int == c2 % 0x100,
                0 <= c2 < 0x10000,
        ;
    }
}

/// The reaper measures age exactly, in nanoseconds: at clock reading `now`,
/// a flow or ARP entry stamped `t <= now` is dropped exactly when `now - t`
/// reaches its timeout, and one stamped later than `now` is kept exactly
/// when its timeout is positive. Entries that stay are unchanged.
pub proof fn lemma_expire_by_exact_age(s: StateView, flow_timeout: u128, arp_timeout: u128, now: u64)
    ensures
        ({
            let e = expire(s, flow_timeout, arp_timeout, now);
            &&& forall|k: u128|
                #![trigger e.flows.contains_key(k)]
                s.flows.contains_key(k) ==> (e.flows.contains_key(k) <==> if s.flows[k].last_seen <= now {
                    now - s.flows[k].last_seen < flow_timeout
                } else {
                    0 < flow_timeout
                })
            &&& forall|k: u32|
                #![trigger e.arps.contains_key(k)]
                s.arps.contains_key(k) ==> (e.arps.contains_key(k) <==> if s.arps[k].last_seen <= now {
                    now - s.arps[k].last_seen < arp_timeout
                } else {
                    0 < arp_timeout
                })
            &&& forall|k: u128| #[trigger] e.flows.contains_key(k) ==> s.flows.contains_key(k) && e.flows[k] == s.flows[k]
            &&& forall|k: u32| #[trigger] e.arps.contains_key(k) ==> s.arps.contains_key(k) && e.arps[k] == s.arps[k]
        }),
{
}

/// An Ethernet frame carries an ARP reply exactly when it has the ARP
/// EtherType (bytes 12-13), at least the 42 bytes of an Ethernet header and
/// an ARP packet, and the reply operation (bytes 20-21); the binding is then
/// the sender's IPv4 address (bytes 28-31) and hardware address (bytes
/// 22-27). Whatever follows the ARP packet, such as Ethernet padding, does not
/// matter.
pub proof fn lemma_arp_reply_fields(frame: Seq<u8>, pad: Seq<u8>)
    ensures
        arp_reply_binding(frame) is Some <==> frame.len() >= 42 && frame[12] == 0x08 && frame[13]
            == 0x06 && frame[20] == 0x00 && frame[21] == 0x02,
        arp_reply_binding(frame) is Some ==> arp_reply_binding(frame) == Some(
            (
                (frame[28] as int * 0x100_0000 + frame[29] as int * 0x1_0000 + frame[30] as int * 0x100
                    + frame[31] as int) as u32,
                MacAddr(frame[22], frame[23], frame[24], frame[25], frame[26], frame[27]),
            ),
        ),
        arp_reply_binding(frame) is Some ==> arp_reply_binding(frame + pad) == arp_reply_binding(frame),
{
    let len = frame.len() as int;
    if len >= 14 {
        let p = frame.subrange(14, len);
        assert(forall|i: int| 0 <= i < p.len() ==> p[i] == frame[14 + i]);
        let f2 = frame + pad;
        let p2 = f2.subrange(14, f2.len() as int);
        assert(forall|i: int| 0 <= i < p.len() ==> p2[i] == frame[14 + i]);
        assert(f2[12] == frame[12] && f2[13] == frame[13]);
        assert((frame[12] as int * 0x100 + frame[13] as int) as u16 == 0x0806 <==> frame[12] == 0x08
            && frame[13] == 0x06) by (nonlinear_arith)
            requires
                0 <= frame[12] < 256,
                0 <= frame[13] < 256,
        ;
        if len >= 42 {
            assert((p[6] as int * 0x100 + p[7] as int) as u16 == 2 <==> p[6] == 0 && p[7] == 2) by (nonlinear_arith)
                requires
                    0 <= p[6] < 256,
                    0 <= p[7] < 256,
            ;
        }
    }
}

/// The address an interface sends ARP requests from is its first IPv4
/// address: the first entry of the list that is an IPv4 address, however
/// many IPv6 addresses come before it; with none, `0.0.0.0`.
pub proof fn lemma_source_is_first_ipv4(ips: Seq<IpAddress>, i: int)
    ensures
        0 <= i < ips.len() && (ips[i] matches IpAddress::V4(a)) && (forall|j: int|
            0 <= j < i ==> #[trigger] ips[j] is V6) ==> source_ipv4(ips) == ips[i]->V4_0,
        (forall|j: int| 0 <= j < ips.len() ==> #[trigger] ips[j] is V6) ==> source_ipv4(ips) == 0,
    decreases ips.len(),
{
    if ips.len() > 0 {
        lemma_source_is_first_ipv4(ips.drop_first(), i - 1);
        assert forall|j: int| 0 <= j < ips.drop_first().len() implies ips.drop_first()[j] == ips[j + 1] by {}
    }
}

/// The state after assigning backends to `flows`, one after the other, at
/// clock reading `now`.
pub open spec fn assign_all(s: StateView, flows: Seq<FlowKey>, now: u64) -> StateView
    decreases flows.len(),
{
    if flows.len() == 0 {
        s
    } else {
        assign_backend(assign_all(s, flows.drop_last(), now), flows.last(), now).0
    }
}

/// One more call moves the cursor once more.
proof fn lemma_cursor_after_step(b: Seq<Backend>, c: int, k: nat)
    ensures
        cursor_after(b, c, k + 1) == round_robin(b, cursor_after(b, c, k)).1,
    decreases k,
{
    let c1 = round_robin(b, c).1;
    assert(cursor_after(b, c, k + 1) == cursor_after(b, c1, k));
    if k > 0 {
        lemma_cursor_after_step(b, c1, (k - 1) as nat);
        assert(cursor_after(b, c, k) == cursor_after(b, c1, (k - 1) as nat));
    }
}

/// Along a run of assignments of distinct flows absent from the table, the
/// backends stay, the cursor moves as round robin moves it, and the flows
/// still to come stay absent.
proof fn lemma_assign_all_new_flows(s: StateView, flows: Seq<FlowKey>, now: u64, k: nat)
    requires
        s.backends.len() > 0,
        s.backends.len() <= usize::MAX,
        k <= flows.len(),
        forall|i: int, j: int| 0 <= i < j < flows.len() ==> flows[i] != flows[j],
        forall|i: int| 0 <= i < flows.len() ==> !s.flows.contains_key(#[trigger] flow_code(flows[i]) as u128),
    ensures
        ({
            let x = assign_all(s, flows.take(k as int), now);
            &&& x.backends == s.backends
            &&& x.next_backend as int == cursor_after(s.backends, s.next_backend as int, k)
            &&& forall|i: int|
                k <= i < flows.len() ==> !x.flows.contains_key(#[trigger] flow_code(flows[i]) as u128)
        }),
    decreases k,
{
    if k > 0 {
        let km = (k - 1) as nat;
        lemma_assign_all_new_flows(s, flows, now, km);
        let x = assign_all(s, flows.take(km as int), now);
        assert(flows.take(k as int).drop_last() =~= flows.take(km as int));
        assert(flows.take(k as int).last() == flows[km as int]);
        lemma_round_robin_picks_healthy(s.backends, x.next_backend as int);
        lemma_cursor_after_step(s.backends, s.next_backend as int, km);
        assert forall|i: int| k <= i < flows.len() implies !assign_all(s, flows.take(k as int), now).flows.contains_key(
            #[trigger] flow_code(flows[i]) as u128,
        ) by {
            lemma_flow_code_injective(flows[km as int], flows[i]);
            lemma_other_flows_undisturbed(x, flows[km as int], flows[i], now);
        }
    }
}

/// New flows are spread by round robin: assigning distinct flows that are
/// not in the table one after the other, the `k`-th of them (from 0) goes to
/// the backend that the `k`-th round-robin pick from the cursor names, for as
/// many flows as there are healthy backends. So the first `h` new flows, `h`
/// the number of healthy backends, go to `h` different healthy backends,
/// every healthy backend taking one, in ring order from the cursor.
pub proof fn lemma_new_flows_follow_round_robin(s: StateView, flows: Seq<FlowKey>, now: u64, k: nat)
    requires
        s.backends.len() > 0,
        s.backends.len() <= usize::MAX,
        k < flows.len(),
        k < healthy_count(s.backends, s.next_backend as int % (s.backends.len() as int), 0),
        forall|i: int, j: int| 0 <= i < j < flows.len() ==> flows[i] != flows[j],
        forall|i: int| 0 <= i < flows.len() ==> !s.flows.contains_key(#[trigger] flow_code(flows[i]) as u128),
    ensures
        ({
            let b = s.backends;
            let pick = round_robin_pick(b, s.next_backend as int, k);
            &&& assign_backend(assign_all(s, flows.take(k as int), now), flows[k as int], now).1 == Some(
                b[pick].addr,
            )
            &&& 0 <= pick < b.len()
            &&& b[pick].is_healthy
            &&& forall|j: nat| j < k ==> #[trigger] round_robin_pick(b, s.next_backend as int, j) != pick
        }),
{
    lemma_assign_all_new_flows(s, flows, now, k);
    lemma_round_robin_full_round(s.backends, s.next_backend as int);
    assert(round_robin_pick(s.backends, s.next_backend as int, k) == round_robin_pick(
        s.backends,
        s.next_backend as int,
        k,
    ));
}

/// A new flow that gets a backend is recorded with it, stamped with the
/// clock reading of the assignment.
pub proof fn lemma_assigned_flow_is_recorded(s: StateView, flow: FlowKey, now: u64)
    ensures
        assign_backend(s, flow, now).1 matches Some(a) ==> {
            let s1 = assign_backend(s, flow, now).0;
            let k = flow_code(flow) as u128;
            &&& s1.flows.contains_key(k)
            &&& s1.flows[k] == FlowEntry { backend_addr: a, last_seen: now }
        },
{
}

/// Traffic only goes to healthy nodes: whatever backend an assignment gives
/// is a healthy backend of the list.
pub proof fn lemma_assignment_serves_healthy(s: StateView, flow: FlowKey, now: u64)
    ensures
        assign_backend(s, flow, now).1 matches Some(a) ==> serves(s.backends, a),
{
    lemma_round_robin_picks_healthy(s.backends, s.next_backend as int);
}

/// A flow mapped to a backend that is no longer healthy (or no longer
/// listed) is assigned afresh by round robin: it gets the next healthy
/// backend, or none when no backend is healthy.
pub proof fn lemma_unhealthy_session_is_reassigned(s: StateView, flow: FlowKey, now: u64)
    requires
        s.flows.contains_key(flow_code(flow) as u128),
        !serves(s.backends, s.flows[flow_code(flow) as u128].backend_addr),
    ensures
        assign_backend(s, flow, now).1 == round_robin(s.backends, s.next_backend as int).0,
        assign_backend(s, flow, now).0.next_backend == round_robin(s.backends, s.next_backend as int).1 as usize,
{
    lemma_round_robin_picks_healthy(s.backends, s.next_backend as int);
}

/// A flow that is not in the table is assigned by round robin: it gets the
/// next healthy backend from the cursor, or none when no backend is healthy,
/// and the cursor moves just past the backend taken, exactly as for a flow
/// whose backend is no longer healthy.
pub proof fn lemma_new_flow_takes_round_robin(s: StateView, flow: FlowKey, now: u64)
    requires
        !s.flows.contains_key(flow_code(flow) as u128),
    ensures
        assign_backend(s, flow, now).1 == round_robin(s.backends, s.next_backend as int).0,
        assign_backend(s, flow, now).0.next_backend == round_robin(s.backends, s.next_backend as int).1 as usize,
{
    lemma_round_robin_picks_healthy(s.backends, s.next_backend as int);
}

/// Sticky sessions: once a flow has a backend, assigning it again while the
/// backends are as they were gives the same backend, whatever the clock
/// reads, and does not move the round-robin cursor.
pub proof fn lemma_session_sticks(s: StateView, flow: FlowKey, t1: u64, t2: u64)
    ensures
        assign_backend(s, flow, t1).1 matches Some(a) ==> {
            let s1 = assign_backend(s, flow, t1).0;
            &&& assign_backend(s1, flow, t2).1 == Some(a)
            &&& assign_backend(s1, flow, t2).0.next_backend == s1.next_backend
        },
{
    lemma_assignment_serves_healthy(s, flow, t1);
}

/// Every frame of a flow goes to the backend that the flow's first handled
/// frame got, whatever the clock reads when the later frame arrives.
pub proof fn lemma_flow_frames_share_backend(
    s: StateView,
    first: Seq<u8>,
    target_port: u16,
    source_mac: MacAddr,
    t1: u64,
    t2: u64,
)
    requires
        frame_flow(first) matches Some(f) && f.dst_port == target_port,
        assign_backend(s, frame_flow(first)->0, t1).1 is Some,
    ensures
        ({
            let flow = frame_flow(first)->0;
            let s1 = frame_outcome(s, first, target_port, source_mac, t1).0;
            assign_backend(s1, flow, t2).1 == assign_backend(s, flow, t1).1
        }),
{
    lemma_session_sticks(s, frame_flow(first)->0, t1, t2);
}

/// Assigning a backend to one flow leaves the entry of every other flow as
/// it was.
pub proof fn lemma_other_flows_undisturbed(s: StateView, flow: FlowKey, other: FlowKey, now: u64)
    requires
        flow != other,
    ensures
        ({
            let s1 = assign_backend(s, flow, now).0;
            let k = flow_code(other) as u128;
            &&& s1.flows.contains_key(k) == s.flows.contains_key(k)
            &&& s.flows.contains_key(k) ==> s1.flows[k] == s.flows[k]
        }),
{
    lemma_flow_code_injective(flow, other);
}

/// One operation on the load balancer's state, as the contracts describe
/// it: a backend assignment (`State::get_or_assign_backend_at`), an ARP
/// binding learned (`State::update_arp_at`), a probe outcome recorded
/// (`State::record_health`), or a reaper pass (`State::cleanup_at`).
pub enum Operation {
    Assign(FlowKey, u64),
    LearnArp(u32, MacAddr, u64),
    RecordHealth(usize, bool),
    Expire(u128, u128, u64),
}

/// The state after one operation.
pub open spec fn step(s: StateView, op: Operation) -> StateView {
    match op {
        Operation::Assign(flow, now) => assign_backend(s, flow, now).0,
        Operation::LearnArp(ip, mac, now) => learn_arp(s, ip, mac, now),
        Operation::RecordHealth(idx, healthy) => with_health(s, idx as int, healthy),
        Operation::Expire(flow_timeout, arp_timeout, now) => expire(s, flow_timeout, arp_timeout, now),
    }
}

/// The state after a run of operations, in order.
pub open spec fn run(s: StateView, ops: Seq<Operation>) -> StateView
    decreases ops.len(),
{
    if ops.len() == 0 {
        s
    } else {
        run(step(s, ops[0]), ops.drop_first())
    }
}

/// Every reaper pass of the run, from `s`, keeps the flow table entry `k`.
pub open spec fn expiries_keep_flow(s: StateView, ops: Seq<Operation>, k: u128) -> bool
    decreases ops.len(),
{
    if ops.len() == 0 {
        true
    } else {
        &&& (ops[0] is Expire ==> step(s, ops[0]).flows.contains_key(k))
        &&& expiries_keep_flow(step(s, ops[0]), ops.drop_first(), k)
    }
}

/// Every reaper pass of the run, from `s`, keeps the ARP entry of `ip`.
pub open spec fn expiries_keep_arp(s: StateView, ops: Seq<Operation>, ip: u32) -> bool
    decreases ops.len(),
{
    if ops.len() == 0 {
        true
    } else {
        &&& (ops[0] is Expire ==> step(s, ops[0]).arps.contains_key(ip))
        &&& expiries_keep_arp(step(s, ops[0]), ops.drop_first(), ip)
    }
}

/// Health checking changes only health flags: any run of recorded probe
/// outcomes keeps the number and addresses of the backends, the cursor, the
/// flow table and the ARP cache.
pub proof fn lemma_health_run_changes_only_flags(s: StateView, ops: Seq<Operation>)
    requires
        forall|i: int| 0 <= i < ops.len() ==> #[trigger] ops[i] is RecordHealth,
    ensures
        run(s, ops).backends.len() == s.backends.len(),
        forall|i: int| 0 <= i < s.backends.len() ==> #[trigger] run(s, ops).backends[i].addr == s.backends[i].addr,
        run(s, ops).next_backend == s.next_backend,
        run(s, ops).flows == s.flows,
        run(s, ops).arps == s.arps,
    decreases ops.len(),
{
    if ops.len() > 0 {
        let s1 = step(s, ops[0]);
        assert forall|i: int| 0 <= i < ops.drop_first().len() implies #[trigger] ops.drop_first()[i] is RecordHealth by {
            assert(ops.drop_first()[i] == ops[i + 1]);
        }
        lemma_health_run_changes_only_flags(s1, ops.drop_first());
        assert forall|i: int| 0 <= i < s.backends.len() implies #[trigger] s1.backends[i].addr == s.backends[i].addr by {
        }
    }
}

/// Along a run with no assignment of `flow` and no reaper pass that drops
/// it, the entry of `flow` keeps its backend.
proof fn lemma_run_keeps_flow_backend(s: StateView, ops: Seq<Operation>, flow: FlowKey, a: SocketAddress)
    requires
        s.flows.contains_key(flow_code(flow) as u128),
        s.flows[flow_code(flow) as u128].backend_addr == a,
        forall|i: int| 0 <= i < ops.len() ==> !(#[trigger] ops[i] matches Operation::Assign(g, _) && g == flow),
        expiries_keep_flow(s, ops, flow_code(flow) as u128),
    ensures
        run(s, ops).flows.contains_key(flow_code(flow) as u128),
        run(s, ops).flows[flow_code(flow) as u128].backend_addr == a,
    decreases ops.len(),
{
    if ops.len() > 0 {
        let s1 = step(s, ops[0]);
        if let Operation::Assign(g, t) = ops[0] {
            lemma_other_flows_undisturbed(s, g, flow, t);
        }
        assert forall|i: int| 0 <= i < ops.drop_first().len() implies !(#[trigger] ops.drop_first()[i] matches Operation::Assign(g, _) && g == flow) by {
            assert(ops.drop_first()[i] == ops[i + 1]);
        }
        lemma_run_keeps_flow_backend(s1, ops.drop_first(), flow, a);
    }
}

/// Sticky sessions across a run: once a flow has a backend, any run of
/// assignments of other flows, ARP updates, health changes and reaper
/// passes that keep the flow leaves it on that backend, as long as the
/// backend is healthy at the end; the next assignment of the flow gives the
/// same backend without moving the round-robin cursor.
pub proof fn lemma_session_sticks_across_run(
    s: StateView,
    flow: FlowKey,
    t1: u64,
    ops: Seq<Operation>,
    t2: u64,
)
    requires
        assign_backend(s, flow, t1).1 is Some,
        forall|i: int| 0 <= i < ops.len() ==> !(#[trigger] ops[i] matches Operation::Assign(g, _) && g == flow),
        expiries_keep_flow(assign_backend(s, flow, t1).0, ops, flow_code(flow) as u128),
        serves(run(assign_backend(s, flow, t1).0, ops).backends, assign_backend(s, flow, t1).1->0),
    ensures
        ({
            let s2 = run(assign_backend(s, flow, t1).0, ops);
            &&& assign_backend(s2, flow, t2).1 == assign_backend(s, flow, t1).1
            &&& assign_backend(s2, flow, t2).0.next_backend == s2.next_backend
        }),
{
    lemma_run_keeps_flow_backend(assign_backend(s, flow, t1).0, ops, flow, assign_backend(s, flow, t1).1->0);
}

/// Along a run with no ARP update of `ip` and no reaper pass that drops
/// it, the cached hardware address of `ip` stays.
proof fn lemma_run_keeps_arp(s: StateView, ops: Seq<Operation>, ip: u32, mac: MacAddr)
    requires
        cached_mac(s, ip) == Some(mac),
        forall|i: int| 0 <= i < ops.len() ==> !(#[trigger] ops[i] matches Operation::LearnArp(j, _, _) && j == ip),
        expiries_keep_arp(s, ops, ip),
    ensures
        cached_mac(run(s, ops), ip) == Some(mac),
    decreases ops.len(),
{
    if ops.len() > 0 {
        assert forall|i: int| 0 <= i < ops.drop_first().len() implies !(#[trigger] ops.drop_first()[i] matches Operation::LearnArp(j, _, _) && j == ip) by {
            assert(ops.drop_first()[i] == ops[i + 1]);
        }
        lemma_run_keeps_arp(step(s, ops[0]), ops.drop_first(), ip, mac);
    }
}

/// ARP read-after-write across a run: after `ip` is learned at `mac`, any
/// run of operations with no later ARP update of `ip` and no reaper pass
/// that drops it leaves the cache giving `mac` for `ip`.
pub proof fn lemma_arp_read_after_write_across_run(
    s: StateView,
    ip: u32,
    mac: MacAddr,
    now: u64,
    ops: Seq<Operation>,
)
    requires
        forall|i: int| 0 <= i < ops.len() ==> !(#[trigger] ops[i] matches Operation::LearnArp(j, _, _) && j == ip),
        expiries_keep_arp(learn_arp(s, ip, mac, now), ops, ip),
    ensures
        cached_mac(run(learn_arp(s, ip, mac, now), ops), ip) == Some(mac),
{
    lemma_run_keeps_arp(learn_arp(s, ip, mac, now), ops, ip, mac);
}

/// A learned hardware address is what the cache gives back for its IPv4
/// address, and the cache entry of every other address stays as it was.
pub proof fn lemma_arp_read_after_write(s: StateView, ip: u32, mac: MacAddr, now: u64, other: u32)
    ensures
        cached_mac(learn_arp(s, ip, mac, now), ip) == Some(mac),
        other != ip ==> cached_mac(learn_arp(s, ip, mac, now), other) == cached_mac(s, other),
{
}

/// Ageing keeps exactly the entries younger than their timeout, touches
/// neither the backends nor the cursor, and a second pass at the same clock
/// reading removes nothing more.
pub proof fn lemma_expire_keeps_fresh(s: StateView, flow_timeout: u128, arp_timeout: u128, now: u64)
    ensures
        ({
            let e = expire(s, flow_timeout, arp_timeout, now);
            &&& e.backends == s.backends
            &&& e.next_backend == s.next_backend
            &&& forall|k: u128|
                #![trigger e.flows.contains_key(k)]
                e.flows.contains_key(k) <==> s.flows.contains_key(k) && elapsed(
                    now,
                    s.flows[k].last_seen,
                ) < flow_timeout
            &&& forall|k: u128| #[trigger] e.flows.contains_key(k) ==> e.flows[k] == s.flows[k]
            &&& forall|k: u32|
                #![trigger e.arps.contains_key(k)]
                e.arps.contains_key(k) <==> s.arps.contains_key(k) && elapsed(
                    now,
                    s.arps[k].last_seen,
                ) < arp_timeout
            &&& forall|k: u32| #[trigger] e.arps.contains_key(k) ==> e.arps[k] == s.arps[k]
            &&& expire(e, flow_timeout, arp_timeout, now) == e
        }),
{
    let e = expire(s, flow_timeout, arp_timeout, now);
    assert(expire(e, flow_timeout, arp_timeout, now).flows =~= e.flows);
    assert(expire(e, flow_timeout, arp_timeout, now).arps =~= e.arps);
}

/// A frame that is not TCP over IPv4 to the served port is ignored and
/// changes nothing.
pub proof fn lemma_foreign_frames_change_nothing(
    s: StateView,
    frame: Seq<u8>,
    target_port: u16,
    source_mac: MacAddr,
    now: u64,
)
    requires
        !(frame_flow(frame) matches Some(f) && f.dst_port == target_port),
    ensures
        frame_outcome(s, frame, target_port, source_mac, now) == (s, FrameActionView::Ignore),
{
}

/// Dynamic ARP resolution: when a frame had to wait for a backend's hardware
/// address, the same frame is forwarded, rewritten towards that address, once
/// an ARP reply for the backend has been learned.
pub proof fn lemma_arp_reply_unblocks_forwarding(
    s: StateView,
    frame: Seq<u8>,
    target_port: u16,
    source_mac: MacAddr,
    t1: u64,
    backend_mac: MacAddr,
    t2: u64,
    t3: u64,
)
    requires
        frame_outcome(s, frame, target_port, source_mac, t1).1 matches FrameActionView::ResolveMac(_),
        frame.len() <= 100000,
    ensures
        ({
            let (s1, action) = frame_outcome(s, frame, target_port, source_mac, t1);
            let ip = action->ResolveMac_0;
            let s2 = learn_arp(s1, ip, backend_mac, t2);
            let port = assign_backend(s, frame_flow(frame)->0, t1).1->0.port;
            frame_outcome(s2, frame, target_port, source_mac, t3).1 == FrameActionView::Forward(
                rewritten(frame, source_mac, backend_mac, ip, port),
            )
        }),
{
    lemma_session_sticks(s, frame_flow(frame)->0, t1, t3);
    let (s1, action) = frame_outcome(s, frame, target_port, source_mac, t1);
    let port = assign_backend(s, frame_flow(frame)->0, t1).1->0.port;
    lemma_short_frames_fit(frame, source_mac, backend_mac, action->ResolveMac_0, port);
}

/// Every TCP/IPv4 frame of up to 100000 bytes (far above any link's MTU) is
/// rewritten without overflowing `pnet`'s checksum sum.
pub proof fn lemma_short_frames_fit(
    frame: Seq<u8>,
    source_mac: MacAddr,
    target_mac: MacAddr,
    backend_ip: u32,
    backend_port: u16,
)
    requires
        frame_flow(frame) is Some,
        frame.len() <= 100000,
    ensures
        rewrite_fits(frame, source_mac, target_mac, backend_ip, backend_port),
{
    let len = frame.len() as int;
    let a = retargeted(frame, source_mac, target_mac, backend_ip);
    let b = ipv4_sealed(a, ipv4_header_checksum(a.subrange(14, len)), backend_port);
    assert(frame.subrange(14, len)[0] == frame[14]);
    assert(a.subrange(14, len)[0] == a[14]);
    let a1 = crate::wire::put_be16(a, 24, ipv4_header_checksum(a.subrange(14, len)));
    assert(a1.subrange(14, len)[0] == a1[14]);
    assert(b.subrange(14, len)[0] == b[14]);
    let t = tcp_offset(b);
    assert(0 <= t <= len);
    lemma_short_segments_fit(b.subrange(t, len), be32(frame, 26), backend_ip);
}

/// The rewrite towards a backend keeps the frame's length and every byte
/// after the fixed TCP header: only header fields change.
pub proof fn lemma_rewrite_keeps_payload(
    frame: Seq<u8>,
    source_mac: MacAddr,
    target_mac: MacAddr,
    backend_ip: u32,
    backend_port: u16,
)
    requires
        rewritable(frame),
    ensures
        rewritten(frame, source_mac, target_mac, backend_ip, backend_port).len() == frame.len(),
        forall|i: int|
            tcp_offset(frame) + 20 <= i < frame.len() ==> #[trigger] rewritten(
                frame,
                source_mac,
                target_mac,
                backend_ip,
                backend_port,
            )[i] == frame[i],
{
    let len = frame.len() as int;
    let out = rewritten(frame, source_mac, target_mac, backend_ip, backend_port);
    assert(frame.subrange(14, len)[0] == frame[14]);
    assert forall|s: Seq<u8>| #![trigger tcp_offset(s)] s.len() == len && s[14] == frame[14] implies tcp_offset(s)
        == tcp_offset(frame) by {
        assert(s.subrange(14, len)[0] == s[14]);
    }
}

/// The load balancer's own ARP requests are not replies: it learns nothing
/// from them.
pub proof fn lemma_request_is_not_reply(source_mac: MacAddr, source_ip: u32, target_ip: u32)
    ensures
        arp_reply_binding(arp_request_bytes(source_mac, source_ip, target_ip)) is None,
{
    let f = arp_request_bytes(source_mac, source_ip, target_ip);
    let p = f.subrange(14, f.len() as int);
    assert(p[6] == 0 && p[7] == 1);
}

/// Recording the same probe outcome twice changes the flag once at most.
pub proof fn lemma_health_record_settles(was: bool, healthy: bool)
    ensures
        health_change(healthy, healthy) == HealthChange::Unchanged,
        health_change(was, healthy) == HealthChange::Unchanged <==> was == healthy,
{
}

} // verus!
