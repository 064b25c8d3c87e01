//! The data plane of passthrough mode: which frames belong to the balanced
//! service, how a frame is rewritten towards its backend (Ethernet
//! addresses, IPv4 destination, TCP destination port, both checksums), and
//! what the load balancer does with each frame it receives.

use vstd::prelude::*;
use crate::addr::{FlowKey, IpAddress, MacAddr, SocketAddress};
use crate::state::{State, StateView, assign_backend, cached_mac, stamps_at_most};
use crate::wire::{
    ETHERTYPE_IPV4,
    be16,
    be32,
    ethernet_ethertype,
    ethernet_payload,
    ethernet_set_destination,
    ethernet_set_source,
    ipv4_checksum,
    ipv4_destination,
    ipv4_header_checksum,
    ipv4_header_length,
    ipv4_ihl,
    ipv4_next_level_protocol,
    ipv4_payload,
    ipv4_payload_bytes,
    ipv4_set_checksum,
    ipv4_set_destination,
    ipv4_source,
    put_be16,
    put_be32,
    put_mac,
    tcp_checksum,
    tcp_checksum_fits,
    tcp_destination,
    tcp_ipv4_checksum,
    tcp_set_checksum,
    tcp_set_destination,
    tcp_source,
    tcp_sum_fits,
};

verus! {

/// The 5-tuple of the TCP segment that an Ethernet frame carries over IPv4,
/// as the frame's headers give it: an Ethernet header with the IPv4
/// EtherType, an IPv4 header of at least 20 bytes, and an IPv4 payload of at
/// least 20 bytes.
pub open spec fn frame_flow(frame: Seq<u8>) -> Option<FlowKey> {
    if frame.len() >= 14 && be16(frame, 12) == ETHERTYPE_IPV4 {
        let ip = frame.subrange(14, frame.len() as int);
        let tcp = ipv4_payload(ip);
        if ip.len() >= 20 && tcp.len() >= 20 {
            Some(
                FlowKey {
                    src_ip: be32(ip, 12),
                    dst_ip: be32(ip, 16),
                    src_port: be16(tcp, 0),
                    dst_port: be16(tcp, 2),
                    protocol: ip[9],
                },
            )
        } else {
            None
        }
    } else {
        None
    }
}

/// Where the TCP header starts in a frame: after the Ethernet header and the
/// IPv4 header as long as its length field says.
pub open spec fn tcp_offset(frame: Seq<u8>) -> int {
    14 + ipv4_ihl(frame.subrange(14, frame.len() as int)) * 4
}

/// `frame` with `source_mac` and `target_mac` as its Ethernet source and
/// destination and `backend_ip` as its IPv4 destination.
pub open spec fn retargeted(frame: Seq<u8>, source_mac: MacAddr, target_mac: MacAddr, backend_ip: u32) -> Seq<u8> {
    put_be32(put_mac(put_mac(frame, 6, source_mac), 0, target_mac), 30, backend_ip)
}

/// `frame` with `checksum` as its IPv4 header checksum and `backend_port` as
/// its TCP destination port.
pub open spec fn ipv4_sealed(frame: Seq<u8>, checksum: u16, backend_port: u16) -> Seq<u8> {
    let s = put_be16(frame, 24, checksum);
    put_be16(s, tcp_offset(s) + 2, backend_port)
}

/// The frame sent to a backend at `backend_ip`:`backend_port` whose hardware
/// address is `target_mac`, from a load balancer at `source_mac`: the
/// retargeted frame, its IPv4 header checksum recomputed, its TCP
/// destination port set, and its TCP checksum recomputed over the segment
/// (to the end of the frame) with the original source address and the
/// backend address in the pseudo-header.
pub open spec fn rewritten(
    frame: Seq<u8>,
    source_mac: MacAddr,
    target_mac: MacAddr,
    backend_ip: u32,
    backend_port: u16,
) -> Seq<u8> {
    let a = retargeted(frame, source_mac, target_mac, backend_ip);
    let b = ipv4_sealed(a, ipv4_header_checksum(a.subrange(14, a.len() as int)), backend_port);
    let t = tcp_offset(b);
    put_be16(b, t + 16, tcp_ipv4_checksum(b.subrange(t, b.len() as int), be32(frame, 26), backend_ip))
}

/// Whether `pnet`'s TCP checksum of the rewritten frame is computed without
/// its 32-bit sum overflowing: the segment it is computed over is the one of
/// the frame retargeted, its IPv4 checksum stored and its port set.
pub open spec fn rewrite_fits(
    frame: Seq<u8>,
    source_mac: MacAddr,
    target_mac: MacAddr,
    backend_ip: u32,
    backend_port: u16,
) -> bool {
    let a = retargeted(frame, source_mac, target_mac, backend_ip);
    let b = ipv4_sealed(a, ipv4_header_checksum(a.subrange(14, a.len() as int)), backend_port);
    let t = tcp_offset(b);
    tcp_sum_fits(b.subrange(t, b.len() as int), be32(frame, 26), backend_ip)
}

/// A frame whose IPv4 and TCP headers lie where the rewrite writes them.
pub open spec fn rewritable(frame: Seq<u8>) -> bool {
    &&& frame.len() >= 34
    &&& tcp_offset(frame) + 20 <= frame.len()
}

/// What the data plane does with a frame.
pub enum FrameAction {
    /// Nothing: the frame is not for the balanced service, or no backend can
    /// take it.
    Ignore,
    /// Send this rewritten frame.
    Forward(Vec<u8>),
    /// The backend's hardware address is unknown: ask for it by ARP (the
    /// frame itself is dropped).
    ResolveMac(u32),
}

/// `FrameAction` as the contracts see it.
pub enum FrameActionView {
    Ignore,
    Forward(Seq<u8>),
    ResolveMac(u32),
}

impl View for FrameAction {
    type V = FrameActionView;

    open spec fn view(&self) -> FrameActionView {
        match self {
            FrameAction::Ignore => FrameActionView::Ignore,
            FrameAction::Forward(v) => FrameActionView::Forward(v@),
            FrameAction::ResolveMac(ip) => FrameActionView::ResolveMac(*ip),
        }
    }
}

/// What receiving `frame` at clock reading `now` does, for a load balancer
/// at `source_mac` serving TCP port `target_port`: a TCP/IPv4 frame to that
/// port gets (or keeps) a backend; with an IPv4 backend whose hardware
/// address is cached, the rewritten frame goes out; with one whose address
/// is not, an ARP request is due. A frame whose TCP checksum would overflow
/// `pnet`'s 32-bit sum (`rewrite_fits` fails; only frames far longer than
/// any link's MTU) is not forwarded. Anything else is ignored and changes nothing.
pub open spec fn frame_outcome(
    s: StateView,
    frame: Seq<u8>,
    target_port: u16,
    source_mac: MacAddr,
    now: u64,
) -> (StateView, FrameActionView) {
    match frame_flow(frame) {
        Some(flow) => {
            if flow.dst_port == target_port {
                let (s1, r) = assign_backend(s, flow, now);
                let action = match r {
                    Some(addr) => match addr.ip {
                        IpAddress::V4(ip) => match cached_mac(s1, ip) {
                            Some(mac) => if rewrite_fits(frame, source_mac, mac, ip, addr.port) {
                                FrameActionView::Forward(
                                    rewritten(frame, source_mac, mac, ip, addr.port),
                                )
                            } else {
                                FrameActionView::Ignore
                            },
                            None => FrameActionView::ResolveMac(ip),
                        },
                        IpAddress::V6(_) => FrameActionView::Ignore,
                    },
                    None => FrameActionView::Ignore,
                };
                (s1, action)
            } else {
                (s, FrameActionView::Ignore)
            }
        },
        None => (s, FrameActionView::Ignore),
    }
}

/// Reads the 5-tuple of the TCP segment that `frame` carries over IPv4.
pub fn classify_frame(frame: &[u8]) -> (r: Option<FlowKey>)
    ensures
        r == frame_flow(frame@),
{
    let ethertype = match ethernet_ethertype(frame) {
        Some(t) => t,
        None => return None,
    };
    if ethertype != ETHERTYPE_IPV4 {
        return None;
    }
    let ip = match ethernet_payload(frame) {
        Some(p) => p,
        None => return None,
    };
    let tcp = match ipv4_payload_bytes(ip.as_slice()) {
        Some(p) => p,
        None => return None,
    };
    let dst_port = match tcp_destination(tcp.as_slice()) {
        Some(p) => p,
        None => return None,
    };
    let src_port = match tcp_source(tcp.as_slice()) {
        Some(p) => p,
        None => return None,
    };
    let src_ip = match ipv4_source(ip.as_slice()) {
        Some(a) => a,
        None => return None,
    };
    let dst_ip = match ipv4_destination(ip.as_slice()) {
        Some(a) => a,
        None => return None,
    };
    let protocol = match ipv4_next_level_protocol(ip.as_slice()) {
        Some(p) => p,
        None => return None,
    };
    Some(FlowKey { src_ip, dst_ip, src_port, dst_port, protocol })
}

/// A TCP/IPv4 frame has its IPv4 and TCP headers where the rewrite writes
/// them.
proof fn lemma_flow_frame_is_rewritable(frame: Seq<u8>)
    requires
        frame_flow(frame) is Some,
    ensures
        rewritable(frame),
{
    let ip = frame.subrange(14, frame.len() as int);
    assert(ip[0] == frame[14]);
}

/// Copies `frame` and points it at the backend: `source_mac` and
/// `target_mac` as Ethernet source and destination, `backend_ip` as IPv4
/// destination.
pub fn retarget_frame(frame: &[u8], source_mac: MacAddr, target_mac: MacAddr, backend_ip: u32) -> (out:
    Vec<u8>)
    requires
        frame@.len() >= 34,
    ensures
        out@ == retargeted(frame@, source_mac, target_mac, backend_ip),
{
    let mut out = vstd::slice::slice_to_vec(frame);
    ethernet_set_source(&mut out, source_mac);
    ethernet_set_destination(&mut out, target_mac);
    ipv4_set_destination(&mut out, 14, backend_ip);
    out
}

/// Stores the IPv4 header checksum `checksum` and sets the TCP destination
/// port to `backend_port`; returns where the TCP header starts.
pub fn seal_ipv4_header(frame: &mut Vec<u8>, checksum: u16, backend_port: u16) -> (tcp_start: usize)
    requires
        rewritable(old(frame)@),
    ensures
        final(frame)@ == ipv4_sealed(old(frame)@, checksum, backend_port),
        tcp_start == tcp_offset(old(frame)@),
        rewritable(final(frame)@),
        final(frame)@.len() == old(frame)@.len(),
{
    ipv4_set_checksum(frame, 14, checksum);
    let len = frame.len();
    proof {
        assert(frame@.subrange(14, len as int)[0] == old(frame)@.subrange(14, len as int)[0]);
    }
    let ihl = match ipv4_header_length(&frame.as_slice()[14..len]) {
        Some(h) => h,
        None => {
            proof {
                assert(false);
            }
            0
        },
    };
    let tcp_start = 14 + (ihl as usize) * 4;
    tcp_set_destination(frame, tcp_start, backend_port);
    proof {
        let s = put_be16(old(frame)@, 24, checksum);
        assert(frame@.subrange(14, len as int)[0] == s.subrange(14, len as int)[0]);
    }
    tcp_start
}

/// Stores the TCP checksum `checksum` in the segment starting at
/// `tcp_start`.
pub fn seal_tcp_segment(frame: &mut Vec<u8>, tcp_start: usize, checksum: u16)
    requires
        tcp_start + 20 <= old(frame)@.len(),
    ensures
        final(frame)@ == put_be16(old(frame)@, tcp_start + 16, checksum),
{
    tcp_set_checksum(frame, tcp_start, checksum);
}

/// Rewrites a TCP/IPv4 frame for the backend at `backend_ip`:`backend_port`
/// whose hardware address is `target_mac`, sent from `source_mac`; none
/// where the TCP checksum would overflow `pnet`'s 32-bit sum.
pub fn rewrite_for_backend(
    frame: &[u8],
    source_mac: MacAddr,
    target_mac: MacAddr,
    backend_ip: u32,
    backend_port: u16,
) -> (out: Option<Vec<u8>>)
    requires
        frame_flow(frame@) is Some,
    ensures
        match out {
            Some(v) => rewrite_fits(frame@, source_mac, target_mac, backend_ip, backend_port) && v@
                == rewritten(frame@, source_mac, target_mac, backend_ip, backend_port),
            None => !rewrite_fits(frame@, source_mac, target_mac, backend_ip, backend_port),
        },
{
    proof {
        lemma_flow_frame_is_rewritable(frame@);
    }
    let source_ip = match ipv4_source(&frame[14..frame.len()]) {
        Some(a) => a,
        None => {
            proof {
                assert(false);
            }
            0
        },
    };
    assert(source_ip == be32(frame@, 26));
    let mut out = retarget_frame(frame, source_mac, target_mac, backend_ip);
    let len = out.len();
    assert(rewritable(out@)) by {
        assert(out@.subrange(14, len as int)[0] == frame@.subrange(14, len as int)[0]);
    }
    let c1 = match ipv4_checksum(&out.as_slice()[14..len]) {
        Some(c) => c,
        None => {
            proof {
                assert(false);
            }
            0
        },
    };
    let tcp_start = seal_ipv4_header(&mut out, c1, backend_port);
    if !tcp_checksum_fits(&out.as_slice()[tcp_start..len], source_ip, backend_ip) {
        return None;
    }
    let c2 = match tcp_checksum(&out.as_slice()[tcp_start..len], source_ip, backend_ip) {
        Some(c) => c,
        None => {
            proof {
                assert(false);
            }
            0
        },
    };
    seal_tcp_segment(&mut out, tcp_start, c2);
    Some(out)
}

/// The position of the first interface named `name` among `names`.
pub fn find_interface(names: &Vec<String>, name: &String) -> (r: Option<usize>)
    ensures
        match r {
            Some(i) => i < names@.len() && names@[i as int]@ == name@ && forall|j: int|
                0 <= j < i ==> #[trigger] names@[j]@ != name@,
            None => forall|j: int| 0 <= j < names@.len() ==> #[trigger] names@[j]@ != name@,
        },
{
    let mut i: usize = 0;
    while i < names.len()
        invariant
            0 <= i <= names.len(),
            forall|j: int| 0 <= j < i ==> #[trigger] names@[j]@ != name@,
        decreases names.len() - i,
    {
        if names[i] == *name {
            return Some(i);
        }
        i = i + 1;
    }
    None
}

impl State {
    /// Handles a frame received at clock reading `now`, for a load balancer
    /// at `source_mac` serving TCP port `target_port`.
    pub fn handle_frame_at(&mut self, frame: &[u8], target_port: u16, source_mac: MacAddr, now: u64) -> (r:
        FrameAction)
        ensures
            (final(self)@, r@) == frame_outcome(old(self)@, frame@, target_port, source_mac, now),
            final(self).clock == old(self).clock,
    {
        let flow = match classify_frame(frame) {
            Some(f) => f,
            None => return FrameAction::Ignore,
        };
        if flow.dst_port != target_port {
            return FrameAction::Ignore;
        }
        let backend = match self.get_or_assign_backend_at(flow, now) {
            Some(a) => a,
            None => return FrameAction::Ignore,
        };
        let backend_ip = match backend.ip {
            IpAddress::V4(ip) => ip,
            IpAddress::V6(_) => return FrameAction::Ignore,
        };
        match self.get_mac(backend_ip) {
            Some(target_mac) => match rewrite_for_backend(
                frame,
                source_mac,
                target_mac,
                backend_ip,
                backend.port,
            ) {
                Some(out) => FrameAction::Forward(out),
                None => FrameAction::Ignore,
            },
            None => FrameAction::ResolveMac(backend_ip),
        }
    }

    /// Handles a frame received now, for a load balancer at `source_mac`
    /// serving TCP port `target_port`, at a fresh clock reading no earlier
    /// than the previous one.
    pub fn handle_frame(&mut self, frame: &[u8], target_port: u16, source_mac: MacAddr) -> (r: FrameAction)
        ensures
            (final(self)@, r@) == frame_outcome(
                old(self)@,
                frame@,
                target_port,
                source_mac,
                final(self).clock.latest(),
            ),
            final(self).clock.latest() >= old(self).clock.latest(),
            stamps_at_most(old(self)@, old(self).clock.latest()) ==> stamps_at_most(
                final(self)@,
                final(self).clock.latest(),
            ),
    {
        let now = self.clock.now();
        self.handle_frame_at(frame, target_port, source_mac, now)
    }
}

} // verus!
