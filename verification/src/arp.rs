//! ARP: learning backend hardware addresses from replies, and building the
//! broadcast request that asks for one.

use vstd::prelude::*;
use crate::addr::{IpAddress, MacAddr};
use crate::state::{State, StateView, learn_arp, stamps_at_most};
use crate::wire::{
    ARP_HARDWARE_ETHERNET,
    ARP_OP_REPLY,
    ARP_OP_REQUEST,
    ARP_PACKET_LEN,
    ETHERNET_HEADER_LEN,
    ETHERTYPE_ARP,
    ETHERTYPE_IPV4,
    arp_operation,
    arp_sender_hw_addr,
    arp_sender_proto_addr,
    arp_set_hardware_type,
    arp_set_hw_addr_len,
    arp_set_operation,
    arp_set_proto_addr_len,
    arp_set_protocol_type,
    arp_set_sender_hw_addr,
    arp_set_sender_proto_addr,
    arp_set_target_hw_addr,
    arp_set_target_proto_addr,
    be16,
    be32,
    ethernet_ethertype,
    ethernet_payload,
    ethernet_set_destination,
    ethernet_set_ethertype,
    ethernet_set_payload,
    ethernet_set_source,
    mac_at,
};

verus! {

/// The binding (sender IPv4 address, sender hardware address) that `frame`
/// announces, where it is an Ethernet frame carrying an ARP reply.
pub open spec fn arp_reply_binding(frame: Seq<u8>) -> Option<(u32, MacAddr)> {
    if frame.len() >= 14 && be16(frame, 12) == ETHERTYPE_ARP {
        let p = frame.subrange(14, frame.len() as int);
        if p.len() >= 28 && be16(p, 6) == ARP_OP_REPLY {
            Some((be32(p, 14), mac_at(p, 8)))
        } else {
            None
        }
    } else {
        None
    }
}

/// The state after receiving `frame` at clock reading `now`: the binding of
/// an ARP reply is learned; any other frame changes nothing.
pub open spec fn after_arp_frame(s: StateView, frame: Seq<u8>, now: u64) -> StateView {
    match arp_reply_binding(frame) {
        Some((ip, mac)) => learn_arp(s, ip, mac, now),
        None => s,
    }
}

/// The four octets of an IPv4 address, most significant first.
pub open spec fn ipv4_octets(ip: u32) -> Seq<u8> {
    seq![
        (ip / 0x100_0000) as u8,
        (ip / 0x1_0000 % 0x100) as u8,
        (ip / 0x100 % 0x100) as u8,
        (ip % 0x100) as u8,
    ]
}

/// The 42-byte broadcast frame in which `source_mac` at `source_ip` asks
/// who has `target_ip`: an Ethernet header to `ff:ff:ff:ff:ff:ff` with the
/// ARP EtherType, then an ARP request for IPv4 over Ethernet with an all-zero
/// target hardware address.
pub open spec fn arp_request_bytes(source_mac: MacAddr, source_ip: u32, target_ip: u32) -> Seq<u8> {
    seq![0xffu8, 0xffu8, 0xffu8, 0xffu8, 0xffu8, 0xffu8] + source_mac.octets() + seq![0x08u8, 0x06u8]
        + seq![0x00u8, 0x01u8, 0x08u8, 0x00u8, 0x06u8, 0x04u8, 0x00u8, 0x01u8] + source_mac.octets()
        + ipv4_octets(source_ip) + seq![0u8, 0u8, 0u8, 0u8, 0u8, 0u8] + ipv4_octets(target_ip)
}

/// The address an interface sends ARP requests from: its first IPv4
/// address, or `0.0.0.0` when it has none.
pub open spec fn source_ipv4(ips: Seq<IpAddress>) -> u32
    decreases ips.len(),
{
    if ips.len() == 0 {
        0
    } else {
        match ips[0] {
            IpAddress::V4(a) => a,
            IpAddress::V6(_) => source_ipv4(ips.drop_first()),
        }
    }
}

/// Reads the binding that an ARP reply frame announces.
pub fn parse_arp_reply(frame: &[u8]) -> (r: Option<(u32, MacAddr)>)
    ensures
        r == arp_reply_binding(frame@),
{
    let ethertype = match ethernet_ethertype(frame) {
        Some(t) => t,
        None => return None,
    };
    if ethertype != ETHERTYPE_ARP {
        return None;
    }
    let packet = match ethernet_payload(frame) {
        Some(p) => p,
        None => return None,
    };
    let operation = match arp_operation(packet.as_slice()) {
        Some(op) => op,
        None => return None,
    };
    if operation != ARP_OP_REPLY {
        return None;
    }
    let ip = match arp_sender_proto_addr(packet.as_slice()) {
        Some(a) => a,
        None => return None,
    };
    let mac = match arp_sender_hw_addr(packet.as_slice()) {
        Some(m) => m,
        None => return None,
    };
    Some((ip, mac))
}

/// `n` zero bytes.
fn zeroed(n: usize) -> (v: Vec<u8>)
    ensures
        v@ == Seq::new(n as nat, |i: int| 0u8),
{
    let mut v: Vec<u8> = Vec::new();
    while v.len() < n
        invariant
            v.len() <= n,
            v@ == Seq::new(v.len() as nat, |i: int| 0u8),
        decreases n - v.len(),
    {
        v.push(0);
    }
    v
}

/// The first IPv4 address of an interface, or `0.0.0.0` when it has none.
pub fn select_source_ipv4(ips: &Vec<IpAddress>) -> (r: u32)
    ensures
        r == source_ipv4(ips@),
{
    let mut i: usize = 0;
    assert(ips@.skip(0) == ips@);
    while i < ips.len()
        invariant
            0 <= i <= ips.len(),
            source_ipv4(ips@) == source_ipv4(ips@.skip(i as int)),
        decreases ips.len() - i,
    {
        assert(ips@.skip(i as int).drop_first() == ips@.skip(i + 1));
        match ips[i] {
            IpAddress::V4(a) => return a,
            IpAddress::V6(_) => {},
        }
        i = i + 1;
    }
    0
}

/// Builds the broadcast ARP request in which `source_mac` at `source_ip`
/// asks who has `target_ip`.
pub fn build_arp_request(source_mac: MacAddr, source_ip: u32, target_ip: u32) -> (frame: Vec<u8>)
    ensures
        frame@ == arp_request_bytes(source_mac, source_ip, target_ip),
{
    let mut frame = zeroed(ETHERNET_HEADER_LEN + ARP_PACKET_LEN);
    ethernet_set_destination(&mut frame, MacAddr::broadcast());
    ethernet_set_source(&mut frame, source_mac);
    ethernet_set_ethertype(&mut frame, ETHERTYPE_ARP);
    let mut arp = zeroed(ARP_PACKET_LEN);
    arp_set_hardware_type(&mut arp, ARP_HARDWARE_ETHERNET);
    arp_set_protocol_type(&mut arp, ETHERTYPE_IPV4);
    arp_set_hw_addr_len(&mut arp, 6);
    arp_set_proto_addr_len(&mut arp, 4);
    arp_set_operation(&mut arp, ARP_OP_REQUEST);
    arp_set_sender_hw_addr(&mut arp, source_mac);
    arp_set_sender_proto_addr(&mut arp, source_ip);
    arp_set_target_hw_addr(&mut arp, MacAddr::zero());
    arp_set_target_proto_addr(&mut arp, target_ip);
    ethernet_set_payload(&mut frame, arp.as_slice());
    assert(frame@ =~= arp_request_bytes(source_mac, source_ip, target_ip));
    frame
}

/// The ARP request that an interface with hardware address `interface_mac`
/// and addresses `interface_ips` sends to find `target_ip`; none when the
/// interface has no hardware address.
pub fn arp_request_for(interface_mac: Option<MacAddr>, interface_ips: &Vec<IpAddress>, target_ip: u32) -> (r:
    Option<Vec<u8>>)
    ensures
        match interface_mac {
            Some(mac) => r is Some && r->0@ == arp_request_bytes(
                mac,
                source_ipv4(interface_ips@),
                target_ip,
            ),
            None => r is None,
        },
{
    match interface_mac {
        Some(mac) => {
            let source_ip = select_source_ipv4(interface_ips);
            Some(build_arp_request(mac, source_ip, target_ip))
        },
        None => None,
    }
}

impl State {
    /// Learns, at clock reading `now`, the binding that an ARP reply frame
    /// announces; returns it. Other frames change nothing.
    pub fn learn_from_arp_frame_at(&mut self, frame: &[u8], now: u64) -> (r: Option<(u32, MacAddr)>)
        ensures
            r == arp_reply_binding(frame@),
            final(self)@ == after_arp_frame(old(self)@, frame@, now),
            final(self).clock == old(self).clock,
    {
        let binding = parse_arp_reply(frame);
        if let Some((ip, mac)) = binding {
            self.update_arp_at(ip, mac, now);
        }
        binding
    }

    /// Learns the binding that an ARP reply frame announces, stamped with a
    /// fresh clock reading no earlier than the previous one; returns it.
    /// Other frames change nothing.
    pub fn learn_from_arp_frame(&mut self, frame: &[u8]) -> (r: Option<(u32, MacAddr)>)
        ensures
            r == arp_reply_binding(frame@),
            final(self)@ == after_arp_frame(old(self)@, frame@, final(self).clock.latest()),
            final(self).clock.latest() >= old(self).clock.latest(),
            stamps_at_most(old(self)@, old(self).clock.latest()) ==> stamps_at_most(
                final(self)@,
                final(self).clock.latest(),
            ),
    {
        let now = self.clock.now();
        self.learn_from_arp_frame_at(frame, now)
    }
}

} // verus!
