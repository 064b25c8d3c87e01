//! Field access to Ethernet, IPv4, TCP and ARP headers, through the packet
//! views of `pnet`, with each access stated over the bytes it reads or
//! writes.

use pnet::packet::arp::{ArpHardwareType, ArpOperation, ArpPacket, MutableArpPacket};
use pnet::packet::ethernet::{EtherType, EthernetPacket, MutableEthernetPacket};
use pnet::packet::ipv4::{Ipv4Packet, MutableIpv4Packet};
use pnet::packet::tcp::{MutableTcpPacket, TcpPacket};
use pnet::packet::Packet;
use vstd::prelude::*;
use crate::addr::MacAddr;

verus! {

/// Length of an Ethernet II header.
pub const ETHERNET_HEADER_LEN: usize = 14;

/// Length of an IPv4 header without options.
pub const IPV4_MIN_HEADER_LEN: usize = 20;

/// Length of a TCP header without options.
pub const TCP_MIN_HEADER_LEN: usize = 20;

/// Length of an ARP packet for IPv4 over Ethernet.
pub const ARP_PACKET_LEN: usize = 28;

/// The EtherType of IPv4.
pub const ETHERTYPE_IPV4: u16 = 0x0800;

/// The EtherType of ARP.
pub const ETHERTYPE_ARP: u16 = 0x0806;

/// The ARP hardware type of Ethernet.
pub const ARP_HARDWARE_ETHERNET: u16 = 1;

/// The ARP operation of a request.
pub const ARP_OP_REQUEST: u16 = 1;

/// The ARP operation of a reply.
pub const ARP_OP_REPLY: u16 = 2;

/// The big-endian 16-bit value at `i`.
pub open spec fn be16(s: Seq<u8>, i: int) -> u16 {
    (s[i] as int * 0x100 + s[i + 1] as int) as u16
}

/// The big-endian 32-bit value at `i`.
pub open spec fn be32(s: Seq<u8>, i: int) -> u32 {
    (s[i] as int * 0x100_0000 + s[i + 1] as int * 0x1_0000 + s[i + 2] as int * 0x100 + s[i
        + 3] as int) as u32
}

/// The hardware address in the six bytes at `i`.
pub open spec fn mac_at(s: Seq<u8>, i: int) -> MacAddr {
    MacAddr(s[i], s[i + 1], s[i + 2], s[i + 3], s[i + 4], s[i + 5])
}

/// `s` with the big-endian 16-bit `v` written at `i`.
pub open spec fn put_be16(s: Seq<u8>, i: int, v: u16) -> Seq<u8> {
    s.update(i, (v / 0x100) as u8).update(i + 1, (v % 0x100) as u8)
}

/// `s` with the big-endian 32-bit `v` written at `i`.
pub open spec fn put_be32(s: Seq<u8>, i: int, v: u32) -> Seq<u8> {
    s.update(i, (v / 0x100_0000) as u8).update(i + 1, (v / 0x1_0000 % 0x100) as u8).update(
        i + 2,
        (v / 0x100 % 0x100) as u8,
    ).update(i + 3, (v % 0x100) as u8)
}

/// `s` with the hardware address `m` written at `i`.
pub open spec fn put_mac(s: Seq<u8>, i: int, m: MacAddr) -> Seq<u8> {
    s.update(i, m.0).update(i + 1, m.1).update(i + 2, m.2).update(i + 3, m.3).update(i + 4, m.4).update(
        i + 5,
        m.5,
    )
}

/// `s` with the bytes of `t` written from `i` on.
pub open spec fn put_bytes(s: Seq<u8>, i: int, t: Seq<u8>) -> Seq<u8> {
    s.subrange(0, i) + t + s.subrange(i + t.len(), s.len() as int)
}

/// The IPv4 header length, in 32-bit words (the low nibble of the first
/// byte).
pub open spec fn ipv4_ihl(p: Seq<u8>) -> int {
    p[0] as int % 16
}

/// Where the payload of the IPv4 packet `p` starts: after the 20 fixed header
/// bytes and the options that the header length announces beyond them.
pub open spec fn ipv4_payload_start(p: Seq<u8>) -> int {
    if ipv4_ihl(p) * 4 > 20 {
        ipv4_ihl(p) * 4
    } else {
        20
    }
}

/// Where the payload of the IPv4 packet `p` ends: the total length field
/// minus the header length, from the payload start, cut at the end of `p`.
pub open spec fn ipv4_payload_end(p: Seq<u8>) -> int {
    let total = be16(p, 2) as int;
    let len = if total > ipv4_ihl(p) * 4 {
        total - ipv4_ihl(p) * 4
    } else {
        0
    };
    if ipv4_payload_start(p) + len < p.len() {
        ipv4_payload_start(p) + len
    } else {
        p.len() as int
    }
}

/// The payload of the IPv4 packet `p`, as `pnet` delimits it.
pub open spec fn ipv4_payload(p: Seq<u8>) -> Seq<u8> {
    if p.len() <= ipv4_payload_start(p) {
        Seq::empty()
    } else {
        p.subrange(ipv4_payload_start(p), ipv4_payload_end(p))
    }
}

/// The checksum that `pnet` computes for the IPv4 header at the start of
/// `packet`.
pub uninterp spec fn ipv4_header_checksum(packet: Seq<u8>) -> u16;

/// The checksum that `pnet` computes for the TCP segment `segment` carried
/// over IPv4 from `source` to `destination`.
pub uninterp spec fn tcp_ipv4_checksum(segment: Seq<u8>, source: u32, destination: u32) -> u16;

/// The sum that `pnet` accumulates over `data` from byte `i` on for a
/// checksum (`util::sum_be_words`): the big-endian 16-bit words, the word at
/// index `skipword` left out, and a final odd byte as the high byte of a
/// word.
pub open spec fn word_sum_from(data: Seq<u8>, i: int, skipword: int) -> int
    decreases data.len() - i,
{
    if i < 0 || i >= data.len() {
        0
    } else if i + 1 < data.len() {
        (if i / 2 == skipword {
            0
        } else {
            be16(data, i) as int
        }) + word_sum_from(data, i + 2, skipword)
    } else if i / 2 == skipword {
        0
    } else {
        data[i] as int * 0x100
    }
}

/// Whether the 32-bit sum that `pnet::packet::tcp::ipv4_checksum`
/// accumulates for `segment` sent from `source` to `destination` stays below
/// 2^32: both addresses as two 16-bit halves each, the protocol number 6, the
/// segment's length, and the segment's words with the checksum word (index
/// 8) left out. All terms are non-negative, so no partial sum overflows
/// either.
pub open spec fn tcp_sum_fits(segment: Seq<u8>, source: u32, destination: u32) -> bool {
    source / 0x10000 + source % 0x10000 + destination / 0x10000 + destination % 0x10000 + 6
        + segment.len() + word_sum_from(segment, 0, 8) <= 0xffff_ffff
}

/// A word sum is never negative, and is at most 32768 per byte counted, one
/// byte more.
pub proof fn lemma_word_sum_bound(data: Seq<u8>, i: int, skipword: int)
    requires
        0 <= i,
    ensures
        0 <= word_sum_from(data, i, skipword),
        i <= data.len() ==> word_sum_from(data, i, skipword) <= (data.len() - i + 1) * 32768,
    decreases data.len() - i,
{
    if i + 1 < data.len() {
        lemma_word_sum_bound(data, i + 2, skipword);
    }
}

/// The 16-bit halves of a 32-bit value.
proof fn lemma_halves(v: u32)
    ensures
        v / 0x10000 <= 0xffff,
        v % 0x10000 <= 0xffff,
{
    assert(v / 0x10000 <= 0xffff && v % 0x10000 <= 0xffff) by (nonlinear_arith)
        requires
            v <= 0xffff_ffff,
    ;
}

/// Segments of up to 100000 bytes always fit `pnet`'s 32-bit sum.
pub proof fn lemma_short_segments_fit(segment: Seq<u8>, source: u32, destination: u32)
    requires
        segment.len() <= 100000,
    ensures
        tcp_sum_fits(segment, source, destination),
{
    lemma_word_sum_bound(segment, 0, 8);
    lemma_halves(source);
    lemma_halves(destination);
}

/// Decides `tcp_sum_fits`: adds the terms in 64 bits and stops as soon as
/// they pass 2^32 - 1.
pub fn tcp_checksum_fits(segment: &[u8], source: u32, destination: u32) -> (r: bool)
    ensures
        r == tcp_sum_fits(segment@, source, destination),
{
    let limit: u64 = 0xffff_ffff;
    let len = segment.len();
    let ghost total = source / 0x10000 + source % 0x10000 + destination / 0x10000 + destination
        % 0x10000 + 6 + segment@.len() + word_sum_from(segment@, 0, 8);
    proof {
        lemma_word_sum_bound(segment@, 0, 8);
        lemma_halves(source);
        lemma_halves(destination);
    }
    if len as u64 > limit {
        return false;
    }
    let mut acc: u64 = (source / 0x10000) as u64 + (source % 0x10000) as u64 + (destination / 0x10000) as u64
        + (destination % 0x10000) as u64 + 6 + len as u64;
    if acc > limit {
        return false;
    }
    let mut i: usize = 0;
    while i < len
        invariant
            limit == 0xffff_ffff,
            len == segment@.len(),
            len <= limit,
            i <= len,
            acc <= limit,
            total == acc + word_sum_from(segment@, i as int, 8),
            tcp_sum_fits(segment@, source, destination) <==> total <= limit,
        decreases len - i,
    {
        let word: u64 = if i / 2 == 8 {
            0
        } else if i + 1 < len {
            (segment[i] as u64) * 0x100 + (segment[i + 1] as u64)
        } else {
            (segment[i] as u64) * 0x100
        };
        assert(word == total - acc - word_sum_from(segment@, i + 2, 8));
        acc = acc + word;
        proof {
            lemma_word_sum_bound(segment@, i + 2, 8);
        }
        if acc > limit {
            return false;
        }
        if i + 1 >= len {
            return true;
        }
        i = i + 2;
    }
    true
}

/// Calls `EthernetPacket::new` on `frame` and, where the frame holds an
/// Ethernet header (14 bytes), its `get_ethertype`: the big-endian value of
/// bytes 12 and 13.
#[verifier::external_body]
pub(crate) fn ethernet_ethertype(frame: &[u8]) -> (r: Option<u16>)
    ensures
        r == if frame@.len() >= 14 {
            Some(be16(frame@, 12))
        } else {
            None
        },
{
    match EthernetPacket::new(frame) {
        Some(p) => Some(p.get_ethertype().0),
        None => None,
    }
}

/// Calls `EthernetPacket::new` on `frame` and, where the frame holds an
/// Ethernet header, its `payload`: every byte after the header.
#[verifier::external_body]
pub(crate) fn ethernet_payload(frame: &[u8]) -> (r: Option<Vec<u8>>)
    ensures
        match r {
            Some(p) => frame@.len() >= 14 && p@ == frame@.subrange(14, frame@.len() as int),
            None => frame@.len() < 14,
        },
{
    match EthernetPacket::new(frame) {
        Some(p) => Some(p.payload().to_vec()),
        None => None,
    }
}

/// Calls `Ipv4Packet::new` on `packet` and, where it holds the 20 fixed
/// header bytes, its `get_source`: the address in bytes 12 to 15.
#[verifier::external_body]
pub(crate) fn ipv4_source(packet: &[u8]) -> (r: Option<u32>)
    ensures
        r == if packet@.len() >= 20 {
            Some(be32(packet@, 12))
        } else {
            None
        },
{
    match Ipv4Packet::new(packet) {
        Some(p) => Some(u32::from(p.get_source())),
        None => None,
    }
}

/// Calls `Ipv4Packet::new` on `packet` and, where it holds the 20 fixed
/// header bytes, its `get_destination`: the address in bytes 16 to 19.
#[verifier::external_body]
pub(crate) fn ipv4_destination(packet: &[u8]) -> (r: Option<u32>)
    ensures
        r == if packet@.len() >= 20 {
            Some(be32(packet@, 16))
        } else {
            None
        },
{
    match Ipv4Packet::new(packet) {
        Some(p) => Some(u32::from(p.get_destination())),
        None => None,
    }
}

/// Calls `Ipv4Packet::new` on `packet` and, where it holds the 20 fixed
/// header bytes, its `get_next_level_protocol`: byte 9.
#[verifier::external_body]
pub(crate) fn ipv4_next_level_protocol(packet: &[u8]) -> (r: Option<u8>)
    ensures
        r == if packet@.len() >= 20 {
            Some(packet@[9])
        } else {
            None
        },
{
    match Ipv4Packet::new(packet) {
        Some(p) => Some(p.get_next_level_protocol().0),
        None => None,
    }
}

/// Calls `Ipv4Packet::new` on `packet` and, where it holds the 20 fixed
/// header bytes, its `get_header_length`: the low nibble of byte 0.
#[verifier::external_body]
pub(crate) fn ipv4_header_length(packet: &[u8]) -> (r: Option<u8>)
    ensures
        r == if packet@.len() >= 20 {
            Some(ipv4_ihl(packet@) as u8)
        } else {
            None
        },
{
    match Ipv4Packet::new(packet) {
        Some(p) => Some(p.get_header_length()),
        None => None,
    }
}

/// Calls `Ipv4Packet::new` on `packet` and, where it holds the 20 fixed
/// header bytes, its `payload`: the bytes that `ipv4_payload` delimits
/// (from the end of the header as its length field gives it, at least 20,
/// for as many bytes as the total length field leaves, cut at the end of
/// `packet`).
#[verifier::external_body]
pub(crate) fn ipv4_payload_bytes(packet: &[u8]) -> (r: Option<Vec<u8>>)
    ensures
        match r {
            Some(p) => packet@.len() >= 20 && p@ == ipv4_payload(packet@),
            None => packet@.len() < 20,
        },
{
    match Ipv4Packet::new(packet) {
        Some(p) => Some(p.payload().to_vec()),
        None => None,
    }
}

/// Calls `Ipv4Packet::new` on `packet` and `pnet::packet::ipv4::checksum` on
/// the view, where `packet` holds the 20 fixed header bytes. The checksum is
/// not stated here beyond being a function of the bytes.
#[verifier::external_body]
pub(crate) fn ipv4_checksum(packet: &[u8]) -> (r: Option<u16>)
    ensures
        r == if packet@.len() >= 20 {
            Some(ipv4_header_checksum(packet@))
        } else {
            None
        },
{
    match Ipv4Packet::new(packet) {
        Some(p) => Some(pnet::packet::ipv4::checksum(&p)),
        None => None,
    }
}

/// Calls `TcpPacket::new` on `segment` and, where it holds the 20 fixed
/// header bytes, its `get_source`: the port in bytes 0 and 1.
#[verifier::external_body]
pub(crate) fn tcp_source(segment: &[u8]) -> (r: Option<u16>)
    ensures
        r == if segment@.len() >= 20 {
            Some(be16(segment@, 0))
        } else {
            None
        },
{
    match TcpPacket::new(segment) {
        Some(p) => Some(p.get_source()),
        None => None,
    }
}

/// Calls `TcpPacket::new` on `segment` and, where it holds the 20 fixed
/// header bytes, its `get_destination`: the port in bytes 2 and 3.
#[verifier::external_body]
pub(crate) fn tcp_destination(segment: &[u8]) -> (r: Option<u16>)
    ensures
        r == if segment@.len() >= 20 {
            Some(be16(segment@, 2))
        } else {
            None
        },
{
    match TcpPacket::new(segment) {
        Some(p) => Some(p.get_destination()),
        None => None,
    }
}

/// Calls `TcpPacket::new` on `segment` and
/// `pnet::packet::tcp::ipv4_checksum` on the view with the pseudo-header
/// addresses `source` and `destination`, where `segment` holds the 20 fixed
/// header bytes. The checksum is not stated here beyond being a function of
/// the bytes and the two addresses. Only where `tcp_sum_fits` holds: the
/// 32-bit sum that `pnet` accumulates (`util::ipv4_checksum`) overflows, and
/// panics in a debug build, otherwise.
#[verifier::external_body]
pub(crate) fn tcp_checksum(segment: &[u8], source: u32, destination: u32) -> (r: Option<u16>)
    requires
        tcp_sum_fits(segment@, source, destination),
    ensures
        r == if segment@.len() >= 20 {
            Some(tcp_ipv4_checksum(segment@, source, destination))
        } else {
            None
        },
{
    match TcpPacket::new(segment) {
        Some(p) => Some(pnet::packet::tcp::ipv4_checksum(&p, &source.into(), &destination.into())),
        None => None,
    }
}

/// Calls `ArpPacket::new` on `packet` and, where it holds an ARP packet (28
/// bytes), its `get_operation`: the value in bytes 6 and 7.
#[verifier::external_body]
pub(crate) fn arp_operation(packet: &[u8]) -> (r: Option<u16>)
    ensures
        r == if packet@.len() >= 28 {
            Some(be16(packet@, 6))
        } else {
            None
        },
{
    match ArpPacket::new(packet) {
        Some(p) => Some(p.get_operation().0),
        None => None,
    }
}

/// Calls `ArpPacket::new` on `packet` and, where it holds an ARP packet, its
/// `get_sender_hw_addr`: the hardware address in bytes 8 to 13.
#[verifier::external_body]
pub(crate) fn arp_sender_hw_addr(packet: &[u8]) -> (r: Option<MacAddr>)
    ensures
        r == if packet@.len() >= 28 {
            Some(mac_at(packet@, 8))
        } else {
            None
        },
{
    match ArpPacket::new(packet) {
        Some(p) => {
            let m = p.get_sender_hw_addr();
            Some(MacAddr(m.0, m.1, m.2, m.3, m.4, m.5))
        },
        None => None,
    }
}

/// Calls `ArpPacket::new` on `packet` and, where it holds an ARP packet, its
/// `get_sender_proto_addr`: the IPv4 address in bytes 14 to 17.
#[verifier::external_body]
pub(crate) fn arp_sender_proto_addr(packet: &[u8]) -> (r: Option<u32>)
    ensures
        r == if packet@.len() >= 28 {
            Some(be32(packet@, 14))
        } else {
            None
        },
{
    match ArpPacket::new(packet) {
        Some(p) => Some(u32::from(p.get_sender_proto_addr())),
        None => None,
    }
}

/// Calls `MutableEthernetPacket::new` on `buf` and its `set_source`: writes
/// `mac` into bytes 6 to 11.
#[verifier::external_body]
pub(crate) fn ethernet_set_source(buf: &mut Vec<u8>, mac: MacAddr)
    requires
        old(buf)@.len() >= 14,
    ensures
        final(buf)@ == put_mac(old(buf)@, 6, mac),
{
    if let Some(mut p) = MutableEthernetPacket::new(&mut buf[..]) {
        p.set_source(pnet::util::MacAddr(mac.0, mac.1, mac.2, mac.3, mac.4, mac.5));
    }
}

/// Calls `MutableEthernetPacket::new` on `buf` and its `set_destination`:
/// writes `mac` into bytes 0 to 5.
#[verifier::external_body]
pub(crate) fn ethernet_set_destination(buf: &mut Vec<u8>, mac: MacAddr)
    requires
        old(buf)@.len() >= 14,
    ensures
        final(buf)@ == put_mac(old(buf)@, 0, mac),
{
    if let Some(mut p) = MutableEthernetPacket::new(&mut buf[..]) {
        p.set_destination(pnet::util::MacAddr(mac.0, mac.1, mac.2, mac.3, mac.4, mac.5));
    }
}

/// Calls `MutableEthernetPacket::new` on `buf` and its `set_ethertype`:
/// writes `ethertype` big-endian into bytes 12 and 13.
#[verifier::external_body]
pub(crate) fn ethernet_set_ethertype(buf: &mut Vec<u8>, ethertype: u16)
    requires
        old(buf)@.len() >= 14,
    ensures
        final(buf)@ == put_be16(old(buf)@, 12, ethertype),
{
    if let Some(mut p) = MutableEthernetPacket::new(&mut buf[..]) {
        p.set_ethertype(EtherType(ethertype));
    }
}

/// Calls `MutableEthernetPacket::new` on `buf` and its `set_payload`: copies
/// `payload` into the bytes after the header. The payload must fit, or
/// `set_payload` panics.
#[verifier::external_body]
pub(crate) fn ethernet_set_payload(buf: &mut Vec<u8>, payload: &[u8])
    requires
        old(buf)@.len() >= 14 + payload@.len(),
    ensures
        final(buf)@ == put_bytes(old(buf)@, 14, payload@),
{
    if let Some(mut p) = MutableEthernetPacket::new(&mut buf[..]) {
        p.set_payload(payload);
    }
}

/// Calls `MutableIpv4Packet::new` on `buf` from byte `start` on, and its
/// `set_destination`: writes `ip` big-endian into bytes 16 to 19 of the
/// packet.
#[verifier::external_body]
pub(crate) fn ipv4_set_destination(buf: &mut Vec<u8>, start: usize, ip: u32)
    requires
        start + 20 <= old(buf)@.len(),
    ensures
        final(buf)@ == put_be32(old(buf)@, start + 16, ip),
{
    if let Some(mut p) = MutableIpv4Packet::new(&mut buf[start..]) {
        p.set_destination(ip.into());
    }
}

/// Calls `MutableIpv4Packet::new` on `buf` from byte `start` on, and its
/// `set_checksum`: writes `checksum` big-endian into bytes 10 and 11 of the
/// packet.
#[verifier::external_body]
pub(crate) fn ipv4_set_checksum(buf: &mut Vec<u8>, start: usize, checksum: u16)
    requires
        start + 20 <= old(buf)@.len(),
    ensures
        final(buf)@ == put_be16(old(buf)@, start + 10, checksum),
{
    if let Some(mut p) = MutableIpv4Packet::new(&mut buf[start..]) {
        p.set_checksum(checksum);
    }
}

/// Calls `MutableTcpPacket::new` on `buf` from byte `start` on, and its
/// `set_destination`: writes `port` big-endian into bytes 2 and 3 of the
/// segment.
#[verifier::external_body]
pub(crate) fn tcp_set_destination(buf: &mut Vec<u8>, start: usize, port: u16)
    requires
        start + 20 <= old(buf)@.len(),
    ensures
        final(buf)@ == put_be16(old(buf)@, start + 2, port),
{
    if let Some(mut p) = MutableTcpPacket::new(&mut buf[start..]) {
        p.set_destination(port);
    }
}

/// Calls `MutableTcpPacket::new` on `buf` from byte `start` on, and its
/// `set_checksum`: writes `checksum` big-endian into bytes 16 and 17 of the
/// segment.
#[verifier::external_body]
pub(crate) fn tcp_set_checksum(buf: &mut Vec<u8>, start: usize, checksum: u16)
    requires
        start + 20 <= old(buf)@.len(),
    ensures
        final(buf)@ == put_be16(old(buf)@, start + 16, checksum),
{
    if let Some(mut p) = MutableTcpPacket::new(&mut buf[start..]) {
        p.set_checksum(checksum);
    }
}

/// Calls `MutableArpPacket::new` on `buf` and its `set_hardware_type`:
/// writes `hardware_type` big-endian into bytes 0 and 1.
#[verifier::external_body]
pub(crate) fn arp_set_hardware_type(buf: &mut Vec<u8>, hardware_type: u16)
    requires
        old(buf)@.len() >= 28,
    ensures
        final(buf)@ == put_be16(old(buf)@, 0, hardware_type),
{
    if let Some(mut p) = MutableArpPacket::new(&mut buf[..]) {
        p.set_hardware_type(ArpHardwareType::new(hardware_type));
    }
}

/// Calls `MutableArpPacket::new` on `buf` and its `set_protocol_type`:
/// writes `protocol_type` big-endian into bytes 2 and 3.
#[verifier::external_body]
pub(crate) fn arp_set_protocol_type(buf: &mut Vec<u8>, protocol_type: u16)
    requires
        old(buf)@.len() >= 28,
    ensures
        final(buf)@ == put_be16(old(buf)@, 2, protocol_type),
{
    if let Some(mut p) = MutableArpPacket::new(&mut buf[..]) {
        p.set_protocol_type(EtherType(protocol_type));
    }
}

/// Calls `MutableArpPacket::new` on `buf` and its `set_hw_addr_len`: writes
/// `len` into byte 4.
#[verifier::external_body]
pub(crate) fn arp_set_hw_addr_len(buf: &mut Vec<u8>, len: u8)
    requires
        old(buf)@.len() >= 28,
    ensures
        final(buf)@ == old(buf)@.update(4, len),
{
    if let Some(mut p) = MutableArpPacket::new(&mut buf[..]) {
        p.set_hw_addr_len(len);
    }
}

/// Calls `MutableArpPacket::new` on `buf` and its `set_proto_addr_len`:
/// writes `len` into byte 5.
#[verifier::external_body]
pub(crate) fn arp_set_proto_addr_len(buf: &mut Vec<u8>, len: u8)
    requires
        old(buf)@.len() >= 28,
    ensures
        final(buf)@ == old(buf)@.update(5, len),
{
    if let Some(mut p) = MutableArpPacket::new(&mut buf[..]) {
        p.set_proto_addr_len(len);
    }
}

/// Calls `MutableArpPacket::new` on `buf` and its `set_operation`: writes
/// `operation` big-endian into bytes 6 and 7.
#[verifier::external_body]
pub(crate) fn arp_set_operation(buf: &mut Vec<u8>, operation: u16)
    requires
        old(buf)@.len() >= 28,
    ensures
        final(buf)@ == put_be16(old(buf)@, 6, operation),
{
    if let Some(mut p) = MutableArpPacket::new(&mut buf[..]) {
        p.set_operation(ArpOperation(operation));
    }
}

/// Calls `MutableArpPacket::new` on `buf` and its `set_sender_hw_addr`:
/// writes `mac` into bytes 8 to 13.
#[verifier::external_body]
pub(crate) fn arp_set_sender_hw_addr(buf: &mut Vec<u8>, mac: MacAddr)
    requires
        old(buf)@.len() >= 28,
    ensures
        final(buf)@ == put_mac(old(buf)@, 8, mac),
{
    if let Some(mut p) = MutableArpPacket::new(&mut buf[..]) {
        p.set_sender_hw_addr(pnet::util::MacAddr(mac.0, mac.1, mac.2, mac.3, mac.4, mac.5));
    }
}

/// Calls `MutableArpPacket::new` on `buf` and its `set_sender_proto_addr`:
/// writes `ip` big-endian into bytes 14 to 17.
#[verifier::external_body]
pub(crate) fn arp_set_sender_proto_addr(buf: &mut Vec<u8>, ip: u32)
    requires
        old(buf)@.len() >= 28,
    ensures
        final(buf)@ == put_be32(old(buf)@, 14, ip),
{
    if let Some(mut p) = MutableArpPacket::new(&mut buf[..]) {
        p.set_sender_proto_addr(ip.into());
    }
}

/// Calls `MutableArpPacket::new` on `buf` and its `set_target_hw_addr`:
/// writes `mac` into bytes 18 to 23.
#[verifier::external_body]
pub(crate) fn arp_set_target_hw_addr(buf: &mut Vec<u8>, mac: MacAddr)
    requires
        old(buf)@.len() >= 28,
    ensures
        final(buf)@ == put_mac(old(buf)@, 18, mac),
{
    if let Some(mut p) = MutableArpPacket::new(&mut buf[..]) {
        p.set_target_hw_addr(pnet::util::MacAddr(mac.0, mac.1, mac.2, mac.3, mac.4, mac.5));
    }
}

/// Calls `MutableArpPacket::new` on `buf` and its `set_target_proto_addr`:
/// writes `ip` big-endian into bytes 24 to 27.
#[verifier::external_body]
pub(crate) fn arp_set_target_proto_addr(buf: &mut Vec<u8>, ip: u32)
    requires
        old(buf)@.len() >= 28,
    ensures
        final(buf)@ == put_be32(old(buf)@, 24, ip),
{
    if let Some(mut p) = MutableArpPacket::new(&mut buf[..]) {
        p.set_target_proto_addr(ip.into());
    }
}

} // verus!
