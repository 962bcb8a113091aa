use scout::discover::{
    candidate_hosts, candidate_ips, insert_host, liveness_ports_exec, subnet_scan_hosts, LiveHostFilter,
};
use scout::types::{Host, Subnet};

fn addr(a: u8, b: u8, c: u8, d: u8) -> u32 {
    u32::from_be_bytes([a, b, c, d])
}

#[test]
fn liveness_ports_are_a_small_common_set() {
    assert_eq!(liveness_ports_exec(), vec![22, 80, 443]);
}

#[test]
fn candidates_skip_own_address_and_network_and_broadcast() {
    let lan = Subnet { addr: addr(192, 168, 1, 2), prefix_len: 29 };
    let hosts = candidate_hosts(&[lan]);
    let ips: Vec<u32> = hosts.iter().map(|h| h.ip).collect();
    assert_eq!(
        ips,
        vec![
            addr(192, 168, 1, 1),
            addr(192, 168, 1, 3),
            addr(192, 168, 1, 4),
            addr(192, 168, 1, 5),
            addr(192, 168, 1, 6),
        ]
    );
    assert!(hosts.iter().all(|h| h.subnet == lan));
    assert_eq!(candidate_ips(&hosts), ips);
}

#[test]
fn wide_subnets_are_skipped_in_discovery() {
    let docker = Subnet { addr: addr(172, 17, 0, 1), prefix_len: 16 };
    let point = Subnet { addr: addr(10, 0, 0, 1), prefix_len: 31 };
    let hosts = candidate_hosts(&[docker, point]);
    let ips: Vec<u32> = hosts.iter().map(|h| h.ip).collect();
    assert_eq!(ips, vec![addr(10, 0, 0, 0)]);
}

#[test]
fn subnet_scan_keeps_wide_subnets() {
    let small = Subnet { addr: addr(10, 0, 0, 1), prefix_len: 30 };
    let wide = Subnet { addr: addr(172, 17, 0, 1), prefix_len: 20 };
    let hosts = subnet_scan_hosts(&[small, wide]);
    assert_eq!(hosts[0], addr(10, 0, 0, 2));
    assert_eq!(hosts.len(), 1 + 4094 - 1);
    assert!(!hosts.contains(&addr(172, 17, 0, 1)));
}

#[test]
fn live_filter_reports_each_host_once() {
    let lan = Subnet { addr: addr(192, 168, 1, 2), prefix_len: 24 };
    let candidates = vec![Host { ip: addr(192, 168, 1, 10), subnet: lan }];
    let mut filter = LiveHostFilter::new(&candidates);
    assert_eq!(filter.on_result(addr(192, 168, 1, 10), false), None);
    assert_eq!(
        filter.on_result(addr(192, 168, 1, 10), true),
        Some(Host { ip: addr(192, 168, 1, 10), subnet: lan })
    );
    assert_eq!(filter.on_result(addr(192, 168, 1, 10), true), None);
    // An address that is not a candidate is never reported.
    assert_eq!(filter.on_result(addr(192, 168, 1, 99), true), None);
}

#[test]
fn hosts_are_kept_in_address_order() {
    let lan = Subnet { addr: addr(192, 168, 1, 2), prefix_len: 24 };
    let mut hosts = Vec::new();
    for last in [30, 4, 200, 17] {
        insert_host(&mut hosts, Host { ip: addr(192, 168, 1, last), subnet: lan });
    }
    let ips: Vec<u32> = hosts.iter().map(|h| h.ip).collect();
    assert_eq!(
        ips,
        vec![addr(192, 168, 1, 4), addr(192, 168, 1, 17), addr(192, 168, 1, 30), addr(192, 168, 1, 200)]
    );
}
