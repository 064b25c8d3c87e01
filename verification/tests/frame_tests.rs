use sp_nlb::addr::{FlowKey, IpAddress, MacAddr, SocketAddress};
use sp_nlb::passthrough::{
    classify_frame, find_interface, retarget_frame, rewrite_for_backend, seal_ipv4_header, seal_tcp_segment,
    FrameAction,
};
use sp_nlb::wire::tcp_checksum_fits;
use sp_nlb::state::{Backend, State};

const LB_MAC: MacAddr = MacAddr(0x02, 0, 0, 0, 0, 0x01);
const BACKEND_MAC: MacAddr = MacAddr(0x02, 0, 0, 0, 0, 0x99);

fn v4(a: u8, b: u8, c: u8, d: u8) -> u32 {
    u32::from_be_bytes([a, b, c, d])
}

fn tcp_frame_with(ihl: u8, src_ip: u32, dst_ip: u32, src_port: u16, dst_port: u16, payload: &[u8]) -> Vec<u8> {
    let mut f = vec![0xaa, 0xaa, 0xaa, 0xaa, 0xaa, 0xaa, 0xbb, 0xbb, 0xbb, 0xbb, 0xbb, 0xbb, 0x08, 0x00];
    let header_len = ihl as usize * 4;
    let total = (header_len + 20 + payload.len()) as u16;
    let mut ip = vec![0u8; header_len];
    ip[0] = 0x40 | ihl;
    ip[2..4].copy_from_slice(&total.to_be_bytes());
    ip[6] = 0x40;
    ip[8] = 64;
    ip[9] = 6;
    ip[10] = 0x12;
    ip[11] = 0x34;
    ip[12..16].copy_from_slice(&src_ip.to_be_bytes());
    ip[16..20].copy_from_slice(&dst_ip.to_be_bytes());
    f.extend_from_slice(&ip);
    let mut tcp = vec![0u8; 20];
    tcp[0..2].copy_from_slice(&src_port.to_be_bytes());
    tcp[2..4].copy_from_slice(&dst_port.to_be_bytes());
    tcp[4..8].copy_from_slice(&7u32.to_be_bytes());
    tcp[12] = 0x50;
    tcp[13] = 0x18;
    tcp[14] = 0xff;
    tcp[15] = 0xff;
    tcp[16] = 0xde;
    tcp[17] = 0xad;
    f.extend_from_slice(&tcp);
    f.extend_from_slice(payload);
    f
}

fn tcp_frame(dst_port: u16, payload: &[u8]) -> Vec<u8> {
    tcp_frame_with(5, v4(10, 0, 0, 1), v4(10, 0, 0, 2), 40000, dst_port, payload)
}

fn ones_complement_sum(data: &[u8]) -> u32 {
    let mut sum = 0u32;
    let mut i = 0;
    while i + 1 < data.len() {
        sum += u16::from_be_bytes([data[i], data[i + 1]]) as u32;
        i += 2;
    }
    if i < data.len() {
        sum += (data[i] as u32) << 8;
    }
    while sum >> 16 != 0 {
        sum = (sum >> 16) + (sum & 0xffff);
    }
    sum
}

fn ipv4_header_checks_out(frame: &[u8]) -> bool {
    let header_len = (frame[14] & 0x0f) as usize * 4;
    ones_complement_sum(&frame[14..14 + header_len]) == 0xffff
}

fn tcp_checksum_checks_out(frame: &[u8], src: u32, dst: u32) -> bool {
    let tcp_start = 14 + (frame[14] & 0x0f) as usize * 4;
    let segment = &frame[tcp_start..];
    let mut pseudo = Vec::new();
    pseudo.extend_from_slice(&src.to_be_bytes());
    pseudo.extend_from_slice(&dst.to_be_bytes());
    pseudo.push(0);
    pseudo.push(6);
    pseudo.extend_from_slice(&(segment.len() as u16).to_be_bytes());
    pseudo.extend_from_slice(segment);
    ones_complement_sum(&pseudo) == 0xffff
}

fn backend_v4(ip: u32, port: u16, healthy: bool) -> Backend {
    Backend { addr: SocketAddress { ip: IpAddress::V4(ip), port }, is_healthy: healthy }
}

#[test]
fn classify_reads_the_five_tuple() {
    let f = tcp_frame(8080, b"hello");
    assert_eq!(
        classify_frame(&f),
        Some(FlowKey { src_ip: v4(10, 0, 0, 1), dst_ip: v4(10, 0, 0, 2), src_port: 40000, dst_port: 8080, protocol: 6 })
    );
}

#[test]
fn classify_rejects_other_ethertypes() {
    let mut f = tcp_frame(8080, b"");
    f[12] = 0x08;
    f[13] = 0x06;
    assert_eq!(classify_frame(&f), None);
}

#[test]
fn classify_rejects_short_frames() {
    let f = tcp_frame(8080, b"");
    assert_eq!(classify_frame(&f[..13]), None);
    assert_eq!(classify_frame(&f[..14]), None);
    assert_eq!(classify_frame(&f[..33]), None);
    assert_eq!(classify_frame(&f[..53]), None);
    assert!(classify_frame(&f[..54]).is_some());
}

#[test]
fn classify_honours_ipv4_total_length() {
    let mut f = tcp_frame(8080, b"");
    // total length announces a 19-byte payload: too short for TCP
    f[16] = 0;
    f[17] = 39;
    assert_eq!(classify_frame(&f), None);
}

#[test]
fn classify_skips_ipv4_options() {
    let f = tcp_frame_with(6, v4(1, 2, 3, 4), v4(5, 6, 7, 8), 1111, 2222, b"x");
    assert_eq!(
        classify_frame(&f),
        Some(FlowKey { src_ip: v4(1, 2, 3, 4), dst_ip: v4(5, 6, 7, 8), src_port: 1111, dst_port: 2222, protocol: 6 })
    );
}

#[test]
fn frames_to_other_ports_are_ignored() {
    let mut s = State::new(vec![backend_v4(v4(127, 0, 0, 1), 8081, true)]);
    let f = tcp_frame(9999, b"");
    assert!(matches!(s.handle_frame_at(&f, 8080, LB_MAC, 0), FrameAction::Ignore));
    assert!(s.flow_table.is_empty());
    assert_eq!(s.next_backend, 0);
}

#[test]
fn unknown_backend_mac_asks_for_arp() {
    let backend_ip = v4(192, 168, 1, 20);
    let mut s = State::new(vec![backend_v4(backend_ip, 8081, true)]);
    let f = tcp_frame(8080, b"payload");
    match s.handle_frame_at(&f, 8080, LB_MAC, 5) {
        FrameAction::ResolveMac(ip) => assert_eq!(ip, backend_ip),
        _ => panic!("expected an ARP lookup"),
    }
    assert_eq!(s.flow_table.len(), 1);
}

#[test]
fn known_backend_mac_forwards_rewritten_frame() {
    let backend_ip = v4(192, 168, 1, 20);
    let mut s = State::new(vec![backend_v4(backend_ip, 8081, true)]);
    s.update_arp_at(backend_ip, BACKEND_MAC, 0);
    let f = tcp_frame(8080, b"payload!");
    let out = match s.handle_frame_at(&f, 8080, LB_MAC, 5) {
        FrameAction::Forward(bytes) => bytes,
        _ => panic!("expected a forwarded frame"),
    };
    assert_eq!(out.len(), f.len());
    assert_eq!(&out[0..6], &[0x02, 0, 0, 0, 0, 0x99]);
    assert_eq!(&out[6..12], &[0x02, 0, 0, 0, 0, 0x01]);
    assert_eq!(&out[12..14], &f[12..14]);
    assert_eq!(&out[26..30], &v4(10, 0, 0, 1).to_be_bytes());
    assert_eq!(&out[30..34], &backend_ip.to_be_bytes());
    assert_eq!(&out[34..36], &40000u16.to_be_bytes());
    assert_eq!(&out[36..38], &8081u16.to_be_bytes());
    assert_eq!(&out[54..], b"payload!");
    assert_ne!(&out[24..26], &[0x12, 0x34]);
    assert!(ipv4_header_checks_out(&out));
    assert!(tcp_checksum_checks_out(&out, v4(10, 0, 0, 1), backend_ip));
}

#[test]
fn arp_reply_unblocks_the_same_flow() {
    let backend_ip = v4(192, 168, 1, 20);
    let mut s = State::new(vec![backend_v4(backend_ip, 8081, true)]);
    let f = tcp_frame(8080, b"abc");
    assert!(matches!(s.handle_frame_at(&f, 8080, LB_MAC, 1), FrameAction::ResolveMac(_)));
    s.update_arp_at(backend_ip, BACKEND_MAC, 2);
    assert!(matches!(s.handle_frame_at(&f, 8080, LB_MAC, 3), FrameAction::Forward(_)));
}

#[test]
fn frame_whose_checksum_sum_overflows_is_not_forwarded() {
    let backend_ip = v4(192, 168, 1, 20);
    let mut s = State::new(vec![backend_v4(backend_ip, 8081, true)]);
    s.update_arp_at(backend_ip, BACKEND_MAC, 0);
    let f = tcp_frame(8080, &vec![0xff; 140000]);
    assert!(matches!(s.handle_frame_at(&f, 8080, LB_MAC, 1), FrameAction::Ignore));
    // the flow still got its backend
    assert_eq!(s.flow_table.len(), 1);
}

#[test]
fn long_frame_within_the_sum_is_forwarded() {
    let backend_ip = v4(192, 168, 1, 20);
    let mut s = State::new(vec![backend_v4(backend_ip, 8081, true)]);
    s.update_arp_at(backend_ip, BACKEND_MAC, 0);
    let f = tcp_frame(8080, &vec![0x5a; 110000]);
    match s.handle_frame_at(&f, 8080, LB_MAC, 1) {
        FrameAction::Forward(out) => assert_eq!(out.len(), f.len()),
        _ => panic!("expected a forwarded frame"),
    }
}

#[test]
fn checksum_sum_fit_is_decided_exactly() {
    assert!(tcp_checksum_fits(&vec![0u8; 200000], 0, 0));
    assert!(!tcp_checksum_fits(&vec![0xffu8; 140000], 0, 0));
    assert!(tcp_checksum_fits(&vec![0xffu8; 20], u32::MAX, u32::MAX));
    // all-ones words, the checksum word skipped: 6 + 131070 + 65534 * 65535
    // stays below 2^32; two more bytes do not
    let mut seg = vec![0xffu8; 131070];
    assert!(tcp_checksum_fits(&seg, 0, 0));
    let view = pnet::packet::tcp::TcpPacket::new(&seg).unwrap();
    let _ = pnet::packet::tcp::ipv4_checksum(&view, &0u32.into(), &0u32.into());
    seg.extend_from_slice(&[0xff, 0xff]);
    assert!(!tcp_checksum_fits(&seg, 0, 0));
}

#[test]
fn ipv6_backend_is_not_forwarded() {
    let mut s = State::new(vec![Backend {
        addr: SocketAddress { ip: IpAddress::V6(1), port: 8081 },
        is_healthy: true,
    }]);
    let f = tcp_frame(8080, b"");
    assert!(matches!(s.handle_frame_at(&f, 8080, LB_MAC, 0), FrameAction::Ignore));
    assert_eq!(s.flow_table.len(), 1);
}

#[test]
fn no_healthy_backend_ignores_frame() {
    let mut s = State::new(vec![backend_v4(v4(127, 0, 0, 1), 8081, false)]);
    let f = tcp_frame(8080, b"");
    assert!(matches!(s.handle_frame_at(&f, 8080, LB_MAC, 0), FrameAction::Ignore));
    assert!(s.flow_table.is_empty());
}

#[test]
fn handle_frame_with_clock_forwards() {
    let backend_ip = v4(127, 0, 0, 1);
    let mut s = State::new(vec![backend_v4(backend_ip, 8081, true)]);
    s.update_arp(backend_ip, BACKEND_MAC);
    let f = tcp_frame(8080, b"z");
    assert!(matches!(s.handle_frame(&f, 8080, LB_MAC), FrameAction::Forward(_)));
}

#[test]
fn rewrite_with_ipv4_options_targets_shifted_tcp_header() {
    let f = tcp_frame_with(6, v4(1, 2, 3, 4), v4(5, 6, 7, 8), 1111, 80, b"data");
    let out = rewrite_for_backend(&f, LB_MAC, BACKEND_MAC, v4(9, 9, 9, 9), 8443).unwrap();
    assert_eq!(out.len(), f.len());
    assert_eq!(&out[38..40], &1111u16.to_be_bytes());
    assert_eq!(&out[40..42], &8443u16.to_be_bytes());
    assert_eq!(&out[58..], b"data");
    assert!(ipv4_header_checks_out(&out));
    assert!(tcp_checksum_checks_out(&out, v4(1, 2, 3, 4), v4(9, 9, 9, 9)));
}

#[test]
fn retarget_sets_addresses_only() {
    let f = tcp_frame(80, b"q");
    let out = retarget_frame(&f, LB_MAC, BACKEND_MAC, v4(8, 8, 4, 4));
    let mut expected = f.clone();
    expected[0..6].copy_from_slice(&[0x02, 0, 0, 0, 0, 0x99]);
    expected[6..12].copy_from_slice(&[0x02, 0, 0, 0, 0, 0x01]);
    expected[30..34].copy_from_slice(&[8, 8, 4, 4]);
    assert_eq!(out, expected);
}

#[test]
fn seal_ipv4_header_stores_checksum_and_port() {
    let mut f = tcp_frame(80, b"");
    let tcp_start = seal_ipv4_header(&mut f, 0xbeef, 9000);
    assert_eq!(tcp_start, 34);
    assert_eq!(&f[24..26], &[0xbe, 0xef]);
    assert_eq!(&f[36..38], &9000u16.to_be_bytes());
}

#[test]
fn seal_tcp_segment_stores_checksum() {
    let mut f = tcp_frame(80, b"");
    seal_tcp_segment(&mut f, 34, 0x0102);
    assert_eq!(&f[50..52], &[0x01, 0x02]);
}

#[test]
fn find_interface_picks_first_match() {
    let names = vec!["eth0".to_string(), "lo".to_string(), "lo".to_string()];
    assert_eq!(find_interface(&names, &"lo".to_string()), Some(1));
    assert_eq!(find_interface(&names, &"wlan0".to_string()), None);
}
