//! Link-layer and network addresses, and the 5-tuple that identifies a flow.

use vstd::prelude::*;

verus! {

/// A 48-bit Ethernet hardware address, octet by octet in wire order.
#[derive(Clone, Copy, Debug, PartialEq, Eq, Structural)]
pub struct MacAddr(pub u8, pub u8, pub u8, pub u8, pub u8, pub u8);

impl MacAddr {
    /// The six octets in wire order.
    pub open spec fn octets(self) -> Seq<u8> {
        seq![self.0, self.1, self.2, self.3, self.4, self.5]
    }

    /// The broadcast address `ff:ff:ff:ff:ff:ff`.
    pub fn broadcast() -> (m: MacAddr)
        ensures
            m == MacAddr(0xff, 0xff, 0xff, 0xff, 0xff, 0xff),
    {
        MacAddr(0xff, 0xff, 0xff, 0xff, 0xff, 0xff)
    }

    /// The all-zero address `00:00:00:00:00:00`.
    pub fn zero() -> (m: MacAddr)
        ensures
            m == MacAddr(0, 0, 0, 0, 0, 0),
    {
        MacAddr(0, 0, 0, 0, 0, 0)
    }
}

/// An IP address. IPv4 addresses are held as the big-endian value of their
/// four octets (`a.b.c.d` is `a << 24 | b << 16 | c << 8 | d`).
#[derive(Clone, Copy, Debug, PartialEq, Eq, Structural)]
pub enum IpAddress {
    V4(u32),
    V6(u128),
}

/// An IP address with a port: where a backend listens.
#[derive(Clone, Copy, Debug, PartialEq, Eq, Structural)]
pub struct SocketAddress {
    pub ip: IpAddress,
    pub port: u16,
}

/// The 5-tuple of a flow, as read from its first packet.
#[derive(Clone, Copy, Debug, PartialEq, Eq, Hash, Structural)]
pub struct FlowKey {
    pub src_ip: u32,
    pub dst_ip: u32,
    pub src_port: u16,
    pub dst_port: u16,
    pub protocol: u8,
}

/// The 104-bit packing of a 5-tuple that keys the flow table:
/// source address, destination address, source port, destination port and
/// protocol, from the most significant bits down.
pub open spec fn flow_code(f: FlowKey) -> int {
    f.src_ip * 0x1_0000_0000_0000_0000_00 + f.dst_ip * 0x100_0000_0000 + f.src_port * 0x100_0000
        + f.dst_port * 0x100 + f.protocol
}

impl FlowKey {
    /// Packs the 5-tuple into the integer that keys the flow table.
    pub fn code(&self) -> (c: u128)
        ensures
            c == flow_code(*self),
    {
        (self.src_ip as u128) * 0x1_0000_0000_0000_0000_00u128 + (self.dst_ip as u128)
            * 0x100_0000_0000u128 + (self.src_port as u128) * 0x100_0000u128 + (self.dst_port as u128)
            * 0x100u128 + (self.protocol as u128)
    }
}

/// A number below `m` added to a multiple of `m` gives back both parts.
proof fn lemma_digit_split(a: int, r: int, b: int, s: int, m: int)
    requires
        m > 0,
        0 <= r < m,
        0 <= s < m,
        a * m + r == b * m + s,
    ensures
        a == b,
        r == s,
{
    assert(a == b && r == s) by (nonlinear_arith)
        requires
            m > 0,
            0 <= r < m,
            0 <= s < m,
            a * m + r == b * m + s,
    ;
}

/// Two flows share a table key only if they are the same flow: the packing
/// of the 5-tuple loses nothing.
pub proof fn lemma_flow_code_injective(f: FlowKey, g: FlowKey)
    ensures
        flow_code(f) == flow_code(g) <==> f == g,
{
    if flow_code(f) == flow_code(g) {
        let rf4 = f.dst_port * 0x100 + f.protocol;
        let rg4 = g.dst_port * 0x100 + g.protocol;
        let rf3 = f.src_port * 0x100_0000 + rf4;
        let rg3 = g.src_port * 0x100_0000 + rg4;
        let rf2 = f.dst_ip * 0x100_0000_0000 + rf3;
        let rg2 = g.dst_ip * 0x100_0000_0000 + rg3;
        lemma_digit_split(f.src_ip as int, rf2, g.src_ip as int, rg2, 0x1_0000_0000_0000_0000_00);
        lemma_digit_split(f.dst_ip as int, rf3, g.dst_ip as int, rg3, 0x100_0000_0000);
        lemma_digit_split(f.src_port as int, rf4, g.src_port as int, rg4, 0x100_0000);
        lemma_digit_split(f.dst_port as int, f.protocol as int, g.dst_port as int, g.protocol as int, 0x100);
    }
}

} // verus!
