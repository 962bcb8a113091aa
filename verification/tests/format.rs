use scout::format::{format_ipv4, format_ports, format_services, format_subnet, format_ttl, host_row, report_row};
use scout::inspect::{empty_report, insert_port, insert_service};
use scout::types::{Host, Subnet};

fn addr(a: u8, b: u8, c: u8, d: u8) -> u32 {
    u32::from_be_bytes([a, b, c, d])
}

#[test]
fn addresses_render_as_dotted_quads() {
    assert_eq!(format_ipv4(addr(192, 168, 1, 10)), "192.168.1.10");
    assert_eq!(format_ipv4(0), "0.0.0.0");
    assert_eq!(format_ipv4(u32::MAX), "255.255.255.255");
    let subnet = Subnet { addr: addr(10, 0, 0, 1), prefix_len: 24 };
    assert_eq!(format_subnet(subnet), "10.0.0.1/24");
}

#[test]
fn ports_and_ttls() {
    assert_eq!(format_ports(&[22, 80, 443]), "22, 80, 443");
    assert_eq!(format_ports(&[]), "");
    assert_eq!(format_ttl(Some(64)), "64");
    assert_eq!(format_ttl(None), "-");
}

#[test]
fn rows() {
    let host = Host { ip: addr(10, 0, 0, 7), subnet: Subnet { addr: addr(10, 0, 0, 1), prefix_len: 24 } };
    assert_eq!(host_row(&host), vec!["10.0.0.7".to_string(), "10.0.0.1/24".to_string()]);

    let mut report = empty_report(addr(10, 0, 0, 7));
    assert_eq!(format_services(&report.services), "-");
    insert_port(&mut report, 80);
    insert_port(&mut report, 22);
    insert_service(&mut report, 22, "SSH-2.0-OpenSSH_9.6".to_string());
    insert_service(&mut report, 80, "HTTP/1.1 200 OK".to_string());
    report.ttl = Some(64);
    assert_eq!(
        report_row(&report),
        vec![
            "10.0.0.7".to_string(),
            "64".to_string(),
            "22, 80".to_string(),
            "22: SSH-2.0-OpenSSH_9.6\n80: HTTP/1.1 200 OK".to_string(),
        ]
    );
}
