use scout::fingerprint::{guess_os, parse_service};
use scout::types::{Confidence, OsFamily, Service};

fn service(banner: &str) -> Service {
    parse_service(0, banner)
}

#[test]
fn ttl_64_is_linux_medium() {
    let os = guess_os(Some(64), &[]).unwrap();
    assert_eq!(os.family, OsFamily::Linux);
    assert_eq!(os.confidence, Confidence::Medium);
}

#[test]
fn decremented_ttl_lowers_confidence() {
    let os = guess_os(Some(54), &[]).unwrap();
    assert_eq!(os.family, OsFamily::Linux);
    assert_eq!(os.confidence, Confidence::Low);
}

#[test]
fn ttl_128_is_windows() {
    assert_eq!(guess_os(Some(128), &[]).unwrap().family, OsFamily::Windows);
}

#[test]
fn high_ttl_is_network_device() {
    assert_eq!(
        guess_os(Some(250), &[]).unwrap().family,
        OsFamily::NetworkDevice
    );
}

#[test]
fn corroborating_banner_bumps_to_high() {
    let services = vec![service("SSH-2.0-OpenSSH_9.6p1 Ubuntu-3ubuntu0.1")];
    let os = guess_os(Some(64), &services).unwrap();
    assert_eq!(os.family, OsFamily::Linux);
    assert_eq!(os.confidence, Confidence::High);
}

#[test]
fn banner_overrides_conflicting_ttl() {
    // TTL says Windows, but the banner explicitly says Ubuntu.
    let services = vec![service("SSH-2.0-OpenSSH_9.6p1 Ubuntu")];
    let os = guess_os(Some(128), &services).unwrap();
    assert_eq!(os.family, OsFamily::Linux);
    assert_eq!(os.confidence, Confidence::Medium);
}

#[test]
fn no_ttl_and_no_services_is_none() {
    assert!(guess_os(None, &[]).is_none());
}

#[test]
fn ttl_zero_is_none() {
    assert!(guess_os(Some(0), &[]).is_none());
}

#[test]
fn banner_only_infers_family() {
    let services = vec![service("SSH-2.0-OpenSSH_9.6p1 Debian")];
    let os = guess_os(None, &services).unwrap();
    assert_eq!(os.family, OsFamily::Linux);
    assert_eq!(os.confidence, Confidence::Medium);
}

#[test]
fn parse_ssh_banner() {
    let s = parse_service(22, "SSH-2.0-OpenSSH_9.6p1 Debian-3ubuntu0.1");
    assert_eq!(s.name.as_deref(), Some("ssh"));
    assert_eq!(s.product.as_deref(), Some("OpenSSH"));
    assert_eq!(s.version.as_deref(), Some("9.6p1"));
    assert_eq!(s.confidence, Confidence::High);
}

#[test]
fn parse_http_server_header() {
    let s = parse_service(80, "HTTP/1.1 200 OK | Server: nginx/1.25.3");
    assert_eq!(s.name.as_deref(), Some("http"));
    assert_eq!(s.product.as_deref(), Some("nginx"));
    assert_eq!(s.version.as_deref(), Some("1.25.3"));
    assert_eq!(s.confidence, Confidence::High);
}

#[test]
fn parse_http_without_version_is_medium() {
    let s = parse_service(80, "HTTP/1.1 200 OK | Server: Apache");
    assert_eq!(s.product.as_deref(), Some("Apache"));
    assert_eq!(s.version, None);
    assert_eq!(s.confidence, Confidence::Medium);
}

#[test]
fn parse_ftp_greeting() {
    let s = parse_service(21, "220 ProFTPD 1.3.5 Server ready");
    assert_eq!(s.name.as_deref(), Some("ftp"));
    assert_eq!(s.product.as_deref(), Some("ProFTPD"));
    assert_eq!(s.version.as_deref(), Some("1.3.5"));
    assert_eq!(s.confidence, Confidence::High);
}

#[test]
fn greeting_hostname_is_not_a_version() {
    // The dotted hostname has no leading digit, so it is not mistaken for a version.
    let s = parse_service(25, "220 mail.example.com ESMTP Postfix");
    assert_eq!(s.name.as_deref(), Some("smtp"));
    assert_eq!(s.version, None);
}

#[test]
fn unparseable_banner_keeps_raw_and_is_low() {
    let s = parse_service(4444, "some random chatter");
    assert_eq!(s.name, None);
    assert_eq!(s.product, None);
    assert_eq!(s.banner, "some random chatter");
    assert_eq!(s.confidence, Confidence::Low);
}

#[test]
fn windows_banner_without_ttl_is_windows_medium() {
    let services = vec![service("HTTP/1.1 200 OK | Server: Microsoft-IIS/10.0")];
    let os = guess_os(None, &services).unwrap();
    assert_eq!(os.family, OsFamily::Windows);
    assert_eq!(os.confidence, Confidence::Medium);
}

#[test]
fn conflicting_banners_leave_the_ttl_guess() {
    let services = vec![
        service("SSH-2.0-OpenSSH_9.6p1 Ubuntu"),
        service("HTTP/1.1 200 OK | Server: Microsoft-IIS/10.0"),
    ];
    let os = guess_os(Some(255), &services).unwrap();
    assert_eq!(os.family, OsFamily::NetworkDevice);
    assert_eq!(os.confidence, Confidence::Medium);
}

#[test]
fn ttl_bucket_edges() {
    assert_eq!(guess_os(Some(1), &[]).unwrap().family, OsFamily::Linux);
    assert_eq!(guess_os(Some(65), &[]).unwrap().family, OsFamily::Windows);
    assert_eq!(guess_os(Some(65), &[]).unwrap().confidence, Confidence::Low);
    assert_eq!(guess_os(Some(129), &[]).unwrap().family, OsFamily::NetworkDevice);
    assert_eq!(guess_os(Some(255), &[]).unwrap().confidence, Confidence::Medium);
}

#[test]
fn port_fallback_names() {
    assert_eq!(parse_service(443, "").name.as_deref(), Some("https"));
    assert_eq!(parse_service(631, "x").name.as_deref(), Some("ipp"));
    assert_eq!(parse_service(587, "x").name.as_deref(), Some("smtp"));
    assert_eq!(parse_service(9999, "x").name, None);
    // A Server header names the protocol whatever the port.
    assert_eq!(parse_service(9999, "server: thing").name.as_deref(), Some("http"));
}

#[test]
fn slash_token_without_version() {
    let s = parse_service(8080, "HTTP/1.0 200 | Server: lighttpd");
    assert_eq!(s.product.as_deref(), Some("lighttpd"));
    assert_eq!(s.version, None);
    assert_eq!(s.confidence, Confidence::Medium);
}

#[test]
fn ssh_without_underscore_is_product_only() {
    let s = parse_service(22, "SSH-2.0-dropbear");
    assert_eq!(s.product.as_deref(), Some("dropbear"));
    assert_eq!(s.version, None);
    assert_eq!(s.confidence, Confidence::Medium);
}

#[test]
fn labels() {
    assert_eq!(Confidence::Low.label(), "low");
    assert_eq!(Confidence::High.label(), "high");
    assert_eq!(OsFamily::NetworkDevice.label(), "Network device");
    assert_eq!(OsFamily::Linux.label(), "Linux/Unix");
}
