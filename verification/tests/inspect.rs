use std::collections::BTreeMap;
use scout::inspect::{apply_enrichment, empty_report, insert_port, insert_service, Coordinator, Enrich};
use scout::types::{Confidence, HostReport, OsFamily};

fn ip() -> u32 {
    u32::from_be_bytes([10, 0, 0, 1])
}

#[test]
fn insert_port_keeps_sorted_and_deduplicated() {
    let mut report = empty_report(ip());
    insert_port(&mut report, 443);
    insert_port(&mut report, 22);
    insert_port(&mut report, 80);
    insert_port(&mut report, 22); // duplicate is a no-op
    assert_eq!(report.open_ports, vec![22, 80, 443]);
}

#[test]
fn insert_service_sorts_by_port_then_banner() {
    let mut report = empty_report(ip());
    insert_service(&mut report, 80, "nginx".to_string());
    insert_service(&mut report, 22, "OpenSSH".to_string());
    insert_service(&mut report, 80, "apache".to_string());
    let ordered: Vec<_> = report
        .services
        .iter()
        .map(|s| (s.port, s.banner.as_str()))
        .collect();
    assert_eq!(
        ordered,
        vec![(22, "OpenSSH"), (80, "apache"), (80, "nginx")]
    );
}

#[test]
fn insert_service_deduplicates_identical_entries() {
    let mut report = empty_report(ip());
    insert_service(&mut report, 80, "nginx".to_string());
    insert_service(&mut report, 80, "nginx".to_string());
    assert_eq!(report.services.len(), 1);
}

#[test]
fn apply_enrichment_ttl_sets_and_returns_snapshot() {
    let mut reports = BTreeMap::new();
    reports.insert(ip(), empty_report(ip()));
    let snapshot = apply_enrichment(&mut reports, Enrich::Ttl(ip(), Some(64)));
    assert_eq!(snapshot.unwrap().ttl, Some(64));
    assert_eq!(reports[&ip()].ttl, Some(64));
}

#[test]
fn apply_enrichment_service_adds_and_returns_snapshot() {
    let mut reports = BTreeMap::new();
    reports.insert(ip(), empty_report(ip()));
    let snapshot = apply_enrichment(
        &mut reports,
        Enrich::Service(ip(), 22, Some("OpenSSH".to_string())),
    );
    let services = snapshot.unwrap().services;
    assert_eq!(services.len(), 1);
    assert_eq!(services[0].port, 22);
}

#[test]
fn apply_enrichment_none_results_emit_nothing() {
    let mut reports = BTreeMap::new();
    reports.insert(ip(), empty_report(ip()));
    assert!(apply_enrichment(&mut reports, Enrich::Ttl(ip(), None)).is_none());
    assert!(apply_enrichment(&mut reports, Enrich::Service(ip(), 22, None)).is_none());
}

#[test]
fn apply_enrichment_unknown_ip_emits_nothing() {
    let mut reports: BTreeMap<u32, HostReport> = BTreeMap::new();
    assert!(apply_enrichment(&mut reports, Enrich::Ttl(ip(), Some(64))).is_none());
}

#[test]
fn enrichment_refreshes_the_os_guess() {
    let mut reports = BTreeMap::new();
    reports.insert(ip(), empty_report(ip()));
    let snapshot = apply_enrichment(&mut reports, Enrich::Ttl(ip(), Some(64))).unwrap();
    let os = snapshot.os.unwrap();
    assert_eq!(os.family, OsFamily::Linux);
    assert_eq!(os.confidence, Confidence::Medium);
    let snapshot = apply_enrichment(
        &mut reports,
        Enrich::Service(ip(), 22, Some("SSH-2.0-OpenSSH_9.6p1 Ubuntu".to_string())),
    )
    .unwrap();
    assert_eq!(snapshot.os.unwrap().confidence, Confidence::High);
    assert_eq!(snapshot.services[0].product.as_deref(), Some("OpenSSH"));
}

#[test]
fn insert_service_parses_the_banner() {
    let mut report = empty_report(ip());
    insert_service(&mut report, 80, "HTTP/1.1 200 OK | Server: nginx/1.25.3".to_string());
    assert_eq!(report.services[0].name.as_deref(), Some("http"));
    assert_eq!(report.services[0].version.as_deref(), Some("1.25.3"));
}

#[test]
fn coordinator_counts_probes_and_finishes() {
    let mut run = Coordinator::new();
    assert!(run.is_sweeping());
    assert!(!run.finished());
    // A closed port changes nothing.
    assert!(run.on_live(ip(), 80, false).is_none());
    assert_eq!(run.pending(), 0);
    // The first open port asks for a TTL probe and a service probe.
    let action = run.on_live(ip(), 80, true).unwrap();
    assert!(action.probe_ttl);
    assert_eq!(action.snapshot.unwrap().open_ports, vec![80]);
    assert_eq!(run.pending(), 2);
    // Later ports of the same host only ask for a service probe.
    let action = run.on_live(ip(), 22, true).unwrap();
    assert!(!action.probe_ttl);
    assert_eq!(action.snapshot.unwrap().open_ports, vec![22, 80]);
    assert_eq!(run.pending(), 3);
    // A port the report already lists asks for a probe but changes nothing.
    let action = run.on_live(ip(), 22, true).unwrap();
    assert!(!action.probe_ttl);
    assert!(action.snapshot.is_none());
    assert_eq!(run.pending(), 4);
    run.on_sweep_done();
    assert!(!run.finished());
    assert_eq!(run.on_enrich(Enrich::Ttl(ip(), Some(128))).unwrap().ttl, Some(128));
    assert!(run.on_enrich(Enrich::Service(ip(), 80, None)).is_none());
    // The same TTL again changes nothing.
    assert!(run.on_enrich(Enrich::Ttl(ip(), Some(128))).is_none());
    let last = run
        .on_enrich(Enrich::Service(ip(), 22, Some("SSH-2.0-OpenSSH_9.6p1".to_string())))
        .unwrap();
    assert_eq!(last.services.len(), 1);
    assert_eq!(run.pending(), 0);
    assert!(run.finished());
}

#[test]
fn enrichment_that_changes_nothing_emits_nothing() {
    let mut reports = BTreeMap::new();
    reports.insert(ip(), empty_report(ip()));
    assert!(apply_enrichment(&mut reports, Enrich::Ttl(ip(), Some(64))).is_some());
    assert!(apply_enrichment(&mut reports, Enrich::Ttl(ip(), Some(64))).is_none());
    assert!(apply_enrichment(&mut reports, Enrich::Ttl(ip(), Some(63))).is_some());
    let banner = || Some("SSH-2.0-OpenSSH_9.6p1".to_string());
    assert!(apply_enrichment(&mut reports, Enrich::Service(ip(), 22, banner())).is_some());
    assert!(apply_enrichment(&mut reports, Enrich::Service(ip(), 22, banner())).is_none());
    assert!(apply_enrichment(&mut reports, Enrich::Service(ip(), 2222, banner())).is_some());
    assert_eq!(reports[&ip()].services.len(), 2);
}
