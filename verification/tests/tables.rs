use scout::format::format_lines;
use scout::tables::{discovery_rows, group_open_ports};

#[test]
fn open_ports_grouped_per_host() {
    let open = vec![(3, 443), (1, 80), (3, 22), (1, 80), (2, 8080), (3, 443)];
    let grouped = group_open_ports(&open);
    assert_eq!(grouped, vec![(1, vec![80]), (2, vec![8080]), (3, vec![22, 443])]);
    assert!(group_open_ports(&[]).is_empty());
}

#[test]
fn discovery_rows_join_results_by_host() {
    let open = vec![(20, 80), (10, 22), (20, 22), (20, 80)];
    let ttls = vec![(20, 64), (10, 128), (20, 63), (30, 255)];
    let found = vec![
        (20, 80, "nginx".to_string()),
        (20, 22, "OpenSSH".to_string()),
        (20, 80, "nginx".to_string()),
        (40, 25, "Postfix".to_string()),
    ];
    let rows = discovery_rows(&open, &ttls, &found);
    let hosts: Vec<u32> = rows.iter().map(|r| r.host).collect();
    assert_eq!(hosts, vec![10, 20, 30, 40]);

    assert_eq!(rows[0].ttl, Some(128));
    assert_eq!(rows[0].open_ports, vec![22]);
    assert!(rows[0].services.is_empty());

    // The last ping answer wins; ports and entries are sorted and deduplicated.
    assert_eq!(rows[1].ttl, Some(63));
    assert_eq!(rows[1].open_ports, vec![22, 80]);
    assert_eq!(rows[1].services, vec!["22: OpenSSH".to_string(), "80: nginx".to_string()]);
    assert_eq!(format_lines(&rows[1].services), "22: OpenSSH\n80: nginx");

    assert_eq!(rows[2].ttl, Some(255));
    assert!(rows[2].open_ports.is_empty());
    assert_eq!(format_lines(&rows[2].services), "-");

    assert_eq!(rows[3].ttl, None);
    assert_eq!(rows[3].services, vec!["25: Postfix".to_string()]);
}

#[test]
fn service_entries_sort_as_strings() {
    let found = vec![(1, 8080, "b".to_string()), (1, 443, "a".to_string()), (1, 80, "c".to_string())];
    let rows = discovery_rows(&[], &[], &found);
    // String order, not port order: "8080: b" comes before "80: c" since '8' < ':'.
    assert_eq!(
        rows[0].services,
        vec!["443: a".to_string(), "8080: b".to_string(), "80: c".to_string()]
    );
}
