use sp_nlb::addr::{FlowKey, IpAddress, MacAddr, SocketAddress};
use sp_nlb::health::HealthChange;
use sp_nlb::state::{Backend, State};

fn v4(a: u8, b: u8, c: u8, d: u8) -> u32 {
    u32::from_be_bytes([a, b, c, d])
}

fn addr(port: u16) -> SocketAddress {
    SocketAddress { ip: IpAddress::V4(v4(127, 0, 0, 1)), port }
}

fn backend(port: u16, healthy: bool) -> Backend {
    Backend { addr: addr(port), is_healthy: healthy }
}

fn flow(src_port: u16) -> FlowKey {
    FlowKey {
        src_ip: v4(10, 0, 0, 1),
        dst_ip: v4(10, 0, 0, 2),
        src_port,
        dst_port: 8080,
        protocol: 6,
    }
}

#[test]
fn new_state_is_empty_with_cursor_at_start() {
    let s = State::new(vec![backend(8081, true), backend(8082, true)]);
    assert_eq!(s.next_backend, 0);
    assert_eq!(s.backends.len(), 2);
    assert!(s.flow_table.is_empty());
    assert!(s.arp_table.is_empty());
}

#[test]
fn round_robin_cycles_through_healthy_backends() {
    let mut s = State::new(vec![backend(8081, true), backend(8082, true), backend(8083, true)]);
    assert_eq!(s.next_backend_addr(), Some(addr(8081)));
    assert_eq!(s.next_backend, 1);
    assert_eq!(s.next_backend_addr(), Some(addr(8082)));
    assert_eq!(s.next_backend_addr(), Some(addr(8083)));
    assert_eq!(s.next_backend, 0);
    assert_eq!(s.next_backend_addr(), Some(addr(8081)));
}

#[test]
fn round_robin_skips_unhealthy_backends() {
    let mut s = State::new(vec![backend(8081, true), backend(8082, false), backend(8083, true)]);
    assert_eq!(s.next_backend_addr(), Some(addr(8081)));
    assert_eq!(s.next_backend_addr(), Some(addr(8083)));
    assert_eq!(s.next_backend, 0);
    assert_eq!(s.next_backend_addr(), Some(addr(8081)));
}

#[test]
fn round_robin_without_healthy_backend_gives_none() {
    let mut s = State::new(vec![backend(8081, false), backend(8082, false)]);
    s.next_backend = 5;
    assert_eq!(s.next_backend_addr(), None);
    // the cursor comes to rest on next % n
    assert_eq!(s.next_backend, 1);
}

#[test]
fn round_robin_without_backends_gives_none() {
    let mut s = State::new(vec![]);
    s.next_backend = 3;
    assert_eq!(s.next_backend_addr(), None);
    assert_eq!(s.next_backend, 3);
}

#[test]
fn round_robin_cursor_past_end_wraps() {
    let mut s = State::new(vec![backend(8081, true), backend(8082, true)]);
    s.next_backend = 7;
    assert_eq!(s.next_backend_addr(), Some(addr(8082)));
    assert_eq!(s.next_backend, 0);
}

#[test]
fn new_flow_gets_next_backend_and_sticks() {
    let mut s = State::new(vec![backend(8081, true), backend(8082, true)]);
    assert_eq!(s.get_or_assign_backend_at(flow(1000), 10), Some(addr(8081)));
    assert_eq!(s.get_or_assign_backend_at(flow(2000), 11), Some(addr(8082)));
    assert_eq!(s.get_or_assign_backend_at(flow(1000), 12), Some(addr(8081)));
    assert_eq!(s.get_or_assign_backend_at(flow(2000), 13), Some(addr(8082)));
    assert_eq!(s.flow_table.len(), 2);
    // a known flow does not consume a round-robin turn
    assert_eq!(s.next_backend, 0);
    let entry = s.flow_table.get(&flow(1000).code()).unwrap();
    assert_eq!(entry.last_seen, 12);
    assert_eq!(entry.backend_addr, addr(8081));
}

#[test]
fn flow_on_unhealthy_backend_is_reassigned() {
    let mut s = State::new(vec![backend(8081, true), backend(8082, true)]);
    assert_eq!(s.get_or_assign_backend_at(flow(1), 0), Some(addr(8081)));
    assert_eq!(s.record_health(0, false), HealthChange::BecameUnhealthy);
    assert_eq!(s.get_or_assign_backend_at(flow(1), 1), Some(addr(8082)));
    assert_eq!(s.flow_table.get(&flow(1).code()).unwrap().backend_addr, addr(8082));
    // once recovered, the flow stays where it was moved
    assert_eq!(s.record_health(0, true), HealthChange::BecameHealthy);
    assert_eq!(s.get_or_assign_backend_at(flow(1), 2), Some(addr(8082)));
}

#[test]
fn flow_on_removed_backend_is_reassigned() {
    let mut s = State::new(vec![backend(8081, true), backend(8082, true)]);
    assert_eq!(s.get_or_assign_backend_at(flow(1), 0), Some(addr(8081)));
    s.backends = vec![backend(8083, true)];
    s.next_backend = 0;
    assert_eq!(s.get_or_assign_backend_at(flow(1), 1), Some(addr(8083)));
}

#[test]
fn flow_without_any_healthy_backend_gets_none() {
    let mut s = State::new(vec![backend(8081, true), backend(8082, true)]);
    assert_eq!(s.get_or_assign_backend_at(flow(1), 0), Some(addr(8081)));
    s.record_health(0, false);
    s.record_health(1, false);
    assert_eq!(s.get_or_assign_backend_at(flow(1), 1), None);
    // the stale entry stays as it was; only the cursor moved
    let entry = s.flow_table.get(&flow(1).code()).unwrap();
    assert_eq!(entry.backend_addr, addr(8081));
    assert_eq!(entry.last_seen, 0);
    assert_eq!(s.next_backend, 1);
}

#[test]
fn clock_readings_never_go_back() {
    let mut s = State::new(vec![backend(8081, true)]);
    let first = s.clock.now();
    let second = s.clock.now();
    assert!(second >= first);
    s.get_or_assign_backend(flow(9));
    let stamp1 = s.flow_table.get(&flow(9).code()).unwrap().last_seen;
    s.get_or_assign_backend(flow(9));
    let stamp2 = s.flow_table.get(&flow(9).code()).unwrap().last_seen;
    assert!(stamp1 >= second);
    assert!(stamp2 >= stamp1);
}

#[test]
fn flow_without_healthy_backend_is_not_recorded() {
    let mut s = State::new(vec![backend(8081, false)]);
    assert_eq!(s.get_or_assign_backend_at(flow(1), 0), None);
    assert!(s.flow_table.is_empty());
    assert_eq!(s.next_backend, 0);
}

#[test]
fn get_or_assign_backend_with_clock_sticks() {
    let mut s = State::new(vec![backend(8081, true), backend(8082, true)]);
    let first = s.get_or_assign_backend(flow(42));
    assert_eq!(first, Some(addr(8081)));
    assert_eq!(s.get_or_assign_backend(flow(42)), first);
}

#[test]
fn arp_cache_reads_what_was_written() {
    let mut s = State::new(vec![]);
    let ip = v4(127, 0, 0, 1);
    assert_eq!(s.get_mac(ip), None);
    s.update_arp_at(ip, MacAddr(1, 2, 3, 4, 5, 6), 100);
    assert_eq!(s.get_mac(ip), Some(MacAddr(1, 2, 3, 4, 5, 6)));
    s.update_arp_at(ip, MacAddr(9, 9, 9, 9, 9, 9), 200);
    assert_eq!(s.get_mac(ip), Some(MacAddr(9, 9, 9, 9, 9, 9)));
    assert_eq!(s.arp_table.get(&ip).unwrap().last_seen, 200);
    assert_eq!(s.get_mac(v4(127, 0, 0, 2)), None);
    s.update_arp(v4(127, 0, 0, 2), MacAddr(7, 7, 7, 7, 7, 7));
    assert_eq!(s.get_mac(v4(127, 0, 0, 2)), Some(MacAddr(7, 7, 7, 7, 7, 7)));
}

#[test]
fn cleanup_drops_stale_entries_and_keeps_fresh_ones() {
    let mut s = State::new(vec![backend(8081, true)]);
    s.get_or_assign_backend_at(flow(1), 100);
    s.get_or_assign_backend_at(flow(2), 900);
    s.update_arp_at(1, MacAddr(1, 1, 1, 1, 1, 1), 100);
    s.update_arp_at(2, MacAddr(2, 2, 2, 2, 2, 2), 950);
    s.cleanup_at(500, 100, 1000);
    // flow 1 is 900 old (>= 500): gone; flow 2 is 100 old: kept
    assert!(!s.flow_table.contains_key(&flow(1).code()));
    assert!(s.flow_table.contains_key(&flow(2).code()));
    // arp 1 is 900 old: gone; arp 2 is 50 old: kept
    assert_eq!(s.get_mac(1), None);
    assert_eq!(s.get_mac(2), Some(MacAddr(2, 2, 2, 2, 2, 2)));
    assert_eq!(s.backends.len(), 1);
}

#[test]
fn cleanup_at_exact_timeout_drops_entry() {
    let mut s = State::new(vec![backend(8081, true)]);
    s.get_or_assign_backend_at(flow(1), 100);
    s.cleanup_at(50, 50, 150);
    assert!(s.flow_table.is_empty());
}

#[test]
fn cleanup_treats_future_stamps_as_fresh() {
    let mut s = State::new(vec![backend(8081, true)]);
    s.get_or_assign_backend_at(flow(1), 5000);
    s.update_arp_at(1, MacAddr(1, 1, 1, 1, 1, 1), 5000);
    s.cleanup_at(10, 10, 1000);
    assert_eq!(s.flow_table.len(), 1);
    assert_eq!(s.arp_table.len(), 1);
    s.cleanup_at(0, 0, 1000);
    assert!(s.flow_table.is_empty());
    assert!(s.arp_table.is_empty());
}

#[test]
fn cleanup_with_maximal_timeouts_keeps_everything() {
    let mut s = State::new(vec![backend(8081, true)]);
    s.get_or_assign_backend_at(flow(1), 0);
    s.update_arp_at(1, MacAddr(1, 1, 1, 1, 1, 1), 0);
    let max = std::time::Duration::MAX.as_nanos();
    s.cleanup_at(max, max, u64::MAX);
    assert_eq!(s.flow_table.len(), 1);
    assert_eq!(s.arp_table.len(), 1);
    s.cleanup(max, max);
    assert_eq!(s.flow_table.len(), 1);
}

#[test]
fn cleanup_with_clock_keeps_recent_entries() {
    let mut s = State::new(vec![backend(8081, true)]);
    s.get_or_assign_backend(flow(1));
    s.update_arp(1, MacAddr(1, 1, 1, 1, 1, 1));
    s.cleanup(300_000_000_000, 3_600_000_000_000);
    assert_eq!(s.flow_table.len(), 1);
    assert_eq!(s.arp_table.len(), 1);
}

#[test]
fn flow_code_packs_every_field() {
    let f = FlowKey { src_ip: 0x0a000001, dst_ip: 0x0a000002, src_port: 0x1234, dst_port: 0x1f90, protocol: 6 };
    assert_eq!(f.code(), 0x0a000001_0a000002_1234_1f90_06u128);
    let g = FlowKey { protocol: 17, ..f };
    let h = FlowKey { src_port: 0x1235, ..f };
    assert_ne!(f.code(), g.code());
    assert_ne!(f.code(), h.code());
}

#[test]
fn health_targets_list_every_backend() {
    let s = State::new(vec![backend(8081, true), backend(8082, false)]);
    assert_eq!(s.health_targets(), vec![(0, addr(8081)), (1, addr(8082))]);
}

#[test]
fn record_health_reports_changes() {
    let mut s = State::new(vec![backend(8081, true), backend(8082, false)]);
    assert_eq!(s.record_health(0, true), HealthChange::Unchanged);
    assert_eq!(s.record_health(1, true), HealthChange::BecameHealthy);
    assert_eq!(s.record_health(0, false), HealthChange::BecameUnhealthy);
    assert!(!s.backends[0].is_healthy);
    assert!(s.backends[1].is_healthy);
    assert_eq!(s.backends[1].addr, addr(8082));
}
