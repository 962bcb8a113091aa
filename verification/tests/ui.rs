use scout::inspect::{empty_report, insert_port, insert_service};
use scout::tui::{App, Inspection, Scan, Screen};
use scout::types::{Host, Subnet};
use scout::ui::{
    discover_text, footer_hints, inspect_lines, inspect_title, report_lines, scope_lines, scope_preview,
    service_line, spinner, title,
};

#[test]
fn titles_and_footers() {
    let mut app = App::new();
    assert_eq!(title(&app), " scout — discover");
    assert_eq!(footer_hints(&app), "q: quit");
    app.discover = Scan::Done(vec![Host { ip: 0x0a000001, subnet: Subnet { addr: 0x0a000002, prefix_len: 24 } }]);
    assert_eq!(footer_hints(&app), "↑/↓ navigate    enter: scope    q: quit");
    app.screen = Screen::Scope;
    app.target = Some(Host { ip: 0x0a000001, subnet: Subnet { addr: 0x0a000002, prefix_len: 24 } });
    assert_eq!(title(&app), " scout — scope 10.0.0.1");
    app.screen = Screen::Inspect;
    assert_eq!(title(&app), " scout — inspect 10.0.0.1");
    assert_eq!(footer_hints(&app), "esc: back    q: quit");
}

#[test]
fn spinner_cycles_through_ten_frames() {
    assert_eq!(spinner(0), "⠋");
    assert_eq!(spinner(10), "⠋");
    assert_eq!(spinner(9), "⠏");
}

#[test]
fn report_lines_describe_the_host() {
    let mut report = empty_report(1);
    assert_eq!(
        report_lines(&report),
        vec!["TTL:        -", "OS:         -", "Open ports: ", "Services:", "  -"]
    );
    insert_port(&mut report, 22);
    insert_service(&mut report, 22, "SSH-2.0-OpenSSH_9.6p1 Ubuntu".to_string());
    insert_service(&mut report, 4444, "chatter".to_string());
    report.ttl = Some(64);
    report.os = scout::fingerprint::guess_os(report.ttl, &report.services);
    assert_eq!(
        report_lines(&report),
        vec![
            "TTL:        64",
            "OS:         Linux/Unix (high)",
            "Open ports: 22",
            "Services:",
            "  22: ssh OpenSSH/9.6p1",
            "  4444: chatter",
        ]
    );
    assert_eq!(service_line(&report.services[0]), "22: ssh OpenSSH/9.6p1");
}

#[test]
fn scope_preview_counts_or_explains() {
    assert_eq!(scope_preview("  "), ("   type ports, then enter".to_string(), false));
    assert_eq!(scope_preview("20-29"), ("   → 10 port(s)".to_string(), false));
    assert_eq!(scope_preview("all"), ("   → 65535 port(s)".to_string(), false));
    assert_eq!(
        scope_preview("9-1"),
        ("   ✗ start port must be smaller than end port".to_string(), true)
    );
    assert_eq!(
        scope_preview("1,x"),
        ("   ✗ invalid digit found in string".to_string(), true)
    );
}

#[test]
fn screen_bodies() {
    let mut app = App::new();
    assert_eq!(discover_text(&app), "⠋ Discovering live hosts…");
    app.on_tick();
    assert_eq!(discover_text(&app), "⠙ Discovering live hosts…");
    app.discover = Scan::Failed("no interfaces".to_string());
    assert_eq!(discover_text(&app), "Discover failed: no interfaces");
    app.discover = Scan::Done(vec![]);
    assert_eq!(discover_text(&app), "No live hosts found on local networks.");
    app.discover = Scan::Done(vec![Host { ip: 1, subnet: Subnet { addr: 2, prefix_len: 24 } }; 12]);
    assert_eq!(discover_text(&app), "Discover — 12 live");

    assert_eq!(inspect_title(&app), "⠙ Inspect");
    assert_eq!(inspect_lines(&app), vec!["⠙ Inspecting…"]);
    app.inspection = Inspection::Done(None);
    assert_eq!(inspect_title(&app), "Inspect");
    assert_eq!(inspect_lines(&app), vec!["No open ports found."]);
    app.inspection = Inspection::Failed("timeout".to_string());
    assert_eq!(inspect_lines(&app), vec!["Inspect failed: timeout"]);
    app.inspection = Inspection::Done(Some(empty_report(1)));
    assert_eq!(inspect_lines(&app).len(), 5);

    assert_eq!(
        scope_lines(),
        vec![
            " Web",
            "   80, 443, 8080, 8443, 8000",
            " Common",
            "   22, 23, 53, 80, 139, 443, 445, 631, 8000, 8080, 8443",
            " All",
            "   1-65535",
        ]
    );
}
