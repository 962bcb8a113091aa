use scout::fingerprint::{guess_os, parse_service};
use scout::inspect::{empty_report, insert_port, insert_service};
use scout::limits::compute_channel_size;
use scout::types::{Confidence, OsFamily};

#[test]
fn port_arrival_order_does_not_matter() {
    let mut a = empty_report(1);
    let mut b = empty_report(1);
    for p in [443, 22, 80, 22] {
        insert_port(&mut a, p);
    }
    for p in [80, 22, 443, 443] {
        insert_port(&mut b, p);
    }
    assert_eq!(a.open_ports, b.open_ports);
}

#[test]
fn service_arrival_order_does_not_matter() {
    let mut a = empty_report(1);
    let mut b = empty_report(1);
    insert_service(&mut a, 80, "nginx".to_string());
    insert_service(&mut a, 22, "OpenSSH".to_string());
    insert_service(&mut b, 22, "OpenSSH".to_string());
    insert_service(&mut b, 80, "nginx".to_string());
    insert_service(&mut b, 22, "OpenSSH".to_string());
    let keys = |r: &scout::types::HostReport| -> Vec<(u16, String)> {
        r.services.iter().map(|s| (s.port, s.banner.clone())).collect()
    };
    assert_eq!(keys(&a), keys(&b));
}

#[test]
fn banner_family_wins_over_every_ttl() {
    let services = vec![parse_service(22, "SSH-2.0-OpenSSH_9.6p1 Debian")];
    for ttl in [None, Some(0), Some(30), Some(64), Some(100), Some(200)] {
        assert_eq!(guess_os(ttl, &services).unwrap().family, OsFamily::Linux);
    }
    assert_eq!(guess_os(Some(64), &services).unwrap().confidence, Confidence::High);
}

#[test]
fn channel_size_never_shrinks() {
    let mut last = 0;
    for c in [0, 1, 63, 64, 65, 1000, 4096, 5000, 100_000] {
        let size = compute_channel_size(c);
        assert!(size >= last);
        assert!((256..=16_384).contains(&size));
        last = size;
    }
}
