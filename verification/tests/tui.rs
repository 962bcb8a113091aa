use scout::tui::{preset_hint, preset_label, Action, App, Inspection, Key, KeyEvent, Scan, Screen};
use scout::types::{Host, PortSpec, Subnet};

fn press(key: Key) -> KeyEvent {
    KeyEvent { key, ctrl: false, press: true }
}

fn host(ip: u32) -> Host {
    Host { ip, subnet: Subnet { addr: 1, prefix_len: 24 } }
}

#[test]
fn presets() {
    assert_eq!(preset_label(0), "Web");
    assert_eq!(preset_label(2), "All");
    assert_eq!(preset_hint(0), "80, 443, 8080, 8443, 8000");
    assert_eq!(preset_hint(1), "22, 23, 53, 80, 139, 443, 445, 631, 8000, 8080, 8443");
    assert_eq!(preset_hint(2), "1-65535");
}

#[test]
fn discover_scope_inspect_flow() {
    let mut app = App::new();
    assert!(matches!(app.on_event(press(Key::Down)), Action::Nothing));
    assert_eq!(app.selected, None);
    app.on_discover_finished(Ok(vec![host(10), host(11), host(12)]));
    assert_eq!(app.selected, Some(0));
    app.on_event(press(Key::Down));
    app.on_event(press(Key::Char('j')));
    app.on_event(press(Key::Down));
    assert_eq!(app.selected, Some(2)); // stops at the last row
    app.on_event(press(Key::Up));
    assert_eq!(app.selected, Some(1));
    app.on_event(press(Key::Enter));
    assert_eq!(app.screen, Screen::Scope);
    assert_eq!(app.target, Some(host(11)));
    assert_eq!(app.preset, 0);
    app.on_event(press(Key::Right));
    app.on_event(press(Key::Right));
    app.on_event(press(Key::Right));
    assert_eq!(app.preset, 2);
    app.on_event(press(Key::Left));
    match app.on_event(press(Key::Enter)) {
        Action::Inspect { host: h, spec, cancel_previous } => {
            assert_eq!(h, host(11));
            assert!(matches!(spec, PortSpec::Common));
            assert!(!cancel_previous);
        }
        Action::Nothing => panic!("expected an inspection"),
    }
    assert_eq!(app.screen, Screen::Inspect);
    assert!(app.inspect_in_flight);
    // Back on Discover, a second inspection abandons the first.
    app.on_event(press(Key::Esc));
    app.on_event(press(Key::Enter));
    assert_eq!(app.screen, Screen::Scope);
    match app.on_event(press(Key::Enter)) {
        Action::Inspect { cancel_previous, .. } => assert!(cancel_previous),
        Action::Nothing => panic!("expected an inspection"),
    }
    app.on_inspect_finished(Inspection::Done(None));
    assert!(!app.inspect_in_flight);
    assert!(matches!(app.inspection, Inspection::Done(None)));
    app.on_event(press(Key::Esc));
    assert_eq!(app.screen, Screen::Discover);
}

#[test]
fn quitting_and_releases() {
    let mut app = App::new();
    app.on_event(KeyEvent { key: Key::Char('q'), ctrl: false, press: false });
    assert!(!app.should_quit);
    app.on_event(KeyEvent { key: Key::Char('c'), ctrl: true, press: true });
    assert!(app.should_quit);
}

#[test]
fn failed_discovery_and_ticks() {
    let mut app = App::new();
    app.on_discover_finished(Err("no interfaces".to_string()));
    assert!(matches!(app.discover, Scan::Failed(ref e) if e == "no interfaces"));
    app.on_tick();
    app.on_tick();
    assert_eq!(app.spinner_frame, 2);
    // Enter with nothing highlighted stays on Discover.
    app.on_event(press(Key::Enter));
    assert_eq!(app.screen, Screen::Discover);
}

#[test]
fn late_inspection_outcome_is_dropped() {
    let mut app = App::new();
    app.on_discover_finished(Ok(vec![host(10)]));
    app.on_event(press(Key::Enter));
    app.on_event(press(Key::Enter));
    assert!(app.inspect_in_flight);
    app.on_event(press(Key::Esc));
    app.on_inspect_finished(Inspection::Failed("boom".to_string()));
    assert!(!app.inspect_in_flight);
    assert!(matches!(app.inspection, Inspection::Running));
}
