use sp_nlb::addr::{IpAddress, MacAddr};
use sp_nlb::arp::{arp_request_for, build_arp_request, parse_arp_reply, select_source_ipv4};
use sp_nlb::state::State;

fn v4(a: u8, b: u8, c: u8, d: u8) -> u32 {
    u32::from_be_bytes([a, b, c, d])
}

fn arp_frame(operation: u16, sender_mac: [u8; 6], sender_ip: u32) -> Vec<u8> {
    let mut f = vec![0xff; 6];
    f.extend_from_slice(&[0x02, 0, 0, 0, 0, 0x77]);
    f.extend_from_slice(&[0x08, 0x06]);
    f.extend_from_slice(&[0x00, 0x01, 0x08, 0x00, 6, 4]);
    f.extend_from_slice(&operation.to_be_bytes());
    f.extend_from_slice(&sender_mac);
    f.extend_from_slice(&sender_ip.to_be_bytes());
    f.extend_from_slice(&[0; 6]);
    f.extend_from_slice(&v4(10, 0, 0, 9).to_be_bytes());
    f
}

#[test]
fn arp_request_has_exact_layout() {
    let frame = build_arp_request(MacAddr(1, 2, 3, 4, 5, 6), v4(10, 0, 0, 9), v4(10, 0, 0, 20));
    let expected: Vec<u8> = vec![
        0xff, 0xff, 0xff, 0xff, 0xff, 0xff, 1, 2, 3, 4, 5, 6, 0x08, 0x06, // ethernet
        0x00, 0x01, 0x08, 0x00, 6, 4, 0x00, 0x01, // htype, ptype, lengths, request
        1, 2, 3, 4, 5, 6, 10, 0, 0, 9, // sender
        0, 0, 0, 0, 0, 0, 10, 0, 0, 20, // target
    ];
    assert_eq!(frame, expected);
}

#[test]
fn arp_reply_is_parsed() {
    let f = arp_frame(2, [0xaa, 0xbb, 0xcc, 0xdd, 0xee, 0xff], v4(192, 168, 0, 5));
    assert_eq!(parse_arp_reply(&f), Some((v4(192, 168, 0, 5), MacAddr(0xaa, 0xbb, 0xcc, 0xdd, 0xee, 0xff))));
}

#[test]
fn arp_request_is_not_a_reply() {
    let f = arp_frame(1, [0xaa, 0xbb, 0xcc, 0xdd, 0xee, 0xff], v4(192, 168, 0, 5));
    assert_eq!(parse_arp_reply(&f), None);
    let own = build_arp_request(MacAddr(1, 2, 3, 4, 5, 6), 1, 2);
    assert_eq!(parse_arp_reply(&own), None);
}

#[test]
fn non_arp_and_truncated_frames_are_not_replies() {
    let mut f = arp_frame(2, [1; 6], 7);
    assert_eq!(parse_arp_reply(&f[..41]), None);
    assert_eq!(parse_arp_reply(&f[..10]), None);
    f[13] = 0x00;
    assert_eq!(parse_arp_reply(&f), None);
}

#[test]
fn learning_an_arp_reply_fills_the_cache() {
    let mut s = State::new(vec![]);
    let f = arp_frame(2, [9, 8, 7, 6, 5, 4], v4(127, 0, 0, 1));
    assert_eq!(s.learn_from_arp_frame_at(&f, 42), Some((v4(127, 0, 0, 1), MacAddr(9, 8, 7, 6, 5, 4))));
    assert_eq!(s.get_mac(v4(127, 0, 0, 1)), Some(MacAddr(9, 8, 7, 6, 5, 4)));
    assert_eq!(s.arp_table.get(&v4(127, 0, 0, 1)).unwrap().last_seen, 42);
    let request = arp_frame(1, [1; 6], v4(127, 0, 0, 2));
    assert_eq!(s.learn_from_arp_frame(&request), None);
    assert_eq!(s.arp_table.len(), 1);
    let g = arp_frame(2, [3; 6], v4(127, 0, 0, 3));
    assert!(s.learn_from_arp_frame(&g).is_some());
    assert_eq!(s.get_mac(v4(127, 0, 0, 3)), Some(MacAddr(3, 3, 3, 3, 3, 3)));
}

#[test]
fn source_address_is_first_ipv4() {
    let ips = vec![IpAddress::V6(1), IpAddress::V4(v4(10, 1, 1, 1)), IpAddress::V4(v4(10, 2, 2, 2))];
    assert_eq!(select_source_ipv4(&ips), v4(10, 1, 1, 1));
    assert_eq!(select_source_ipv4(&vec![IpAddress::V6(5)]), 0);
    assert_eq!(select_source_ipv4(&vec![]), 0);
}

#[test]
fn arp_request_needs_a_hardware_address() {
    assert_eq!(arp_request_for(None, &vec![IpAddress::V4(1)], 2), None);
    let frame = arp_request_for(Some(MacAddr(1, 1, 1, 1, 1, 1)), &vec![IpAddress::V6(3)], v4(10, 0, 0, 20)).unwrap();
    assert_eq!(&frame[28..32], &[0, 0, 0, 0]);
    assert_eq!(&frame[38..42], &[10, 0, 0, 20]);
}

#[test]
fn broadcast_and_zero_addresses() {
    assert_eq!(MacAddr::broadcast(), MacAddr(0xff, 0xff, 0xff, 0xff, 0xff, 0xff));
    assert_eq!(MacAddr::zero(), MacAddr(0, 0, 0, 0, 0, 0));
}
