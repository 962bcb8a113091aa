//! The texts the interactive front-end shows: titles, key hints, report lines and
//! the port-selection preview. Laying them out on the terminal happens outside
//! the library.

use vstd::prelude::*;

use crate::format::{ipv4_text, ports_text, push_ipv4, ttl_text, format_ports, format_ttl};
use crate::scope::{parsed_selection, resolved, ScopeError};
use crate::text::{chars_of, decimal, push_decimal, push_str, trim, trim_exec};
use crate::tui::{preset_hint, preset_hint_text, preset_label, App, Inspection, Scan, Screen};
use crate::types::{opt_view, Confidence, Host, HostReport, OsGuess, PortSpec, Service};

verus! {

/// The address of the chosen host, or nothing.
pub open spec fn target_text(target: Option<Host>) -> Seq<char> {
    match target {
        Some(host) => ipv4_text(host.ip),
        None => Seq::empty(),
    }
}

/// The header title line for a screen.
pub open spec fn title_text(screen: Screen, target: Option<Host>) -> Seq<char> {
    match screen {
        Screen::Discover => " scout — discover"@,
        Screen::Scope => " scout — scope "@ + target_text(target),
        Screen::Inspect => " scout — inspect "@ + target_text(target),
    }
}

/// The header title line for the current screen.
pub fn title(app: &App) -> (r: String)
    ensures
        r@ == title_text(app.screen, app.target),
{
    match app.screen {
        Screen::Discover => String::from_str(" scout — discover"),
        Screen::Scope => {
            let mut out = String::from_str(" scout — scope ");
            if let Some(host) = app.target {
                push_ipv4(&mut out, host.ip);
            }
            proof {
                assert(out@ =~= title_text(app.screen, app.target));
            }
            out
        },
        Screen::Inspect => {
            let mut out = String::from_str(" scout — inspect ");
            if let Some(host) = app.target {
                push_ipv4(&mut out, host.ip);
            }
            proof {
                assert(out@ =~= title_text(app.screen, app.target));
            }
            out
        },
    }
}

/// The braille spinner frame shown for a frame counter (ten frames, cycling).
pub fn spinner(frame: usize) -> (r: &'static str)
    ensures
        r@ == spinner_frame(frame % 10),
{
    match frame % 10 {
        0 => "⠋",
        1 => "⠙",
        2 => "⠹",
        3 => "⠸",
        4 => "⠼",
        5 => "⠴",
        6 => "⠦",
        7 => "⠧",
        8 => "⠇",
        _ => "⠏",
    }
}

/// The spinner frames, in order.
pub open spec fn spinner_frame(i: usize) -> Seq<char> {
    if i == 0 {
        "⠋"@
    } else if i == 1 {
        "⠙"@
    } else if i == 2 {
        "⠹"@
    } else if i == 3 {
        "⠸"@
    } else if i == 4 {
        "⠼"@
    } else if i == 5 {
        "⠴"@
    } else if i == 6 {
        "⠦"@
    } else if i == 7 {
        "⠧"@
    } else if i == 8 {
        "⠇"@
    } else {
        "⠏"@
    }
}

/// The key hints for a screen: navigation only where there are hosts to navigate.
pub open spec fn footer_text(screen: Screen, discover: Scan) -> Seq<char> {
    match screen {
        Screen::Discover => match discover {
            Scan::Done(hosts) => if hosts@.len() > 0 {
                "↑/↓ navigate    enter: scope    q: quit"@
            } else {
                "q: quit"@
            },
            _ => "q: quit"@,
        },
        Screen::Scope => "↑/↓ choose    enter: select    esc: back    q: quit"@,
        Screen::Inspect => "esc: back    q: quit"@,
    }
}

/// The footer key hints for the current screen.
pub fn footer_hints(app: &App) -> (r: &'static str)
    ensures
        r@ == footer_text(app.screen, app.discover),
{
    match app.screen {
        Screen::Discover => match &app.discover {
            Scan::Done(hosts) => if hosts.len() > 0 {
                "↑/↓ navigate    enter: scope    q: quit"
            } else {
                "q: quit"
            },
            _ => "q: quit",
        },
        Screen::Scope => "↑/↓ choose    enter: select    esc: back    q: quit",
        Screen::Inspect => "esc: back    q: quit",
    }
}

/// `name product/version`, flagged with its confidence unless high; nothing when
/// no product was recovered.
pub open spec fn identity_text(service: Service) -> Option<Seq<char>> {
    match opt_view(service.product) {
        None => None,
        Some(product) => {
            let named = match opt_view(service.name) {
                Some(name) => name + seq![' '],
                None => Seq::empty(),
            };
            let versioned = match opt_view(service.version) {
                Some(version) => seq!['/'] + version,
                None => Seq::empty(),
            };
            let flag = if service.confidence != Confidence::High {
                " ("@ + service.confidence.spec_label() + ")"@
            } else {
                Seq::empty()
            };
            Some(named + product + versioned + flag)
        },
    }
}

/// Assemble `name product/version` from a service, or `None` when no product
/// was recovered from the banner.
pub fn service_identity(service: &Service) -> (r: Option<String>)
    ensures
        opt_view(r) == identity_text(*service),
{
    let product = match &service.product {
        Some(p) => p,
        None => return None,
    };
    let mut identity = String::new();
    if let Some(name) = &service.name {
        push_str(&mut identity, name.as_str());
        identity.push(' ');
    }
    push_str(&mut identity, product.as_str());
    if let Some(version) = &service.version {
        identity.push('/');
        push_str(&mut identity, version.as_str());
    }
    if service.confidence != Confidence::High {
        push_str(&mut identity, " (");
        push_str(&mut identity, service.confidence.label());
        push_str(&mut identity, ")");
    }
    proof {
        assert(opt_view(Some(identity)) =~= identity_text(*service)) by {
            assert(identity@ =~= identity_text(*service)->0);
        }
    }
    Some(identity)
}

/// `port: identity` when the service was identified, `port: banner` otherwise.
pub open spec fn service_line_text(service: Service) -> Seq<char> {
    decimal(service.port as nat) + ": "@ + match identity_text(service) {
        Some(identity) => identity,
        None => service.banner@,
    }
}

/// One service line: the parsed `name product/version` when identified,
/// otherwise the raw banner.
pub fn service_line(service: &Service) -> (r: String)
    ensures
        r@ == service_line_text(*service),
{
    let mut out = String::new();
    push_decimal(&mut out, service.port as u64);
    push_str(&mut out, ": ");
    match service_identity(service) {
        Some(identity) => push_str(&mut out, identity.as_str()),
        None => push_str(&mut out, service.banner.as_str()),
    }
    proof {
        assert(out@ =~= service_line_text(*service));
    }
    out
}

/// `family (confidence)`, or `-` without a guess.
pub open spec fn os_text(os: Option<OsGuess>) -> Seq<char> {
    match os {
        Some(guess) => guess.family.spec_label() + " ("@ + guess.confidence.spec_label() + ")"@,
        None => "-"@,
    }
}

/// The lines describing a report: TTL, OS, open ports, then one indented line per
/// service (or `-` when there is none).
pub open spec fn report_text(report: HostReport) -> Seq<Seq<char>> {
    seq![
        "TTL:        "@ + ttl_text(report.ttl),
        "OS:         "@ + os_text(report.os),
        "Open ports: "@ + ports_text(report.open_ports@),
        "Services:"@,
    ] + if report.services@.len() == 0 {
        seq!["  -"@]
    } else {
        report.services@.map_values(|s: Service| "  "@ + service_line_text(s))
    }
}

/// The texts of a vector of strings.
pub open spec fn line_texts(v: Seq<String>) -> Seq<Seq<char>> {
    v.map_values(|s: String| s@)
}

fn labelled(label: &str, value: &str) -> (r: String)
    ensures
        r@ == label@ + value@,
{
    let mut out = String::from_str(label);
    push_str(&mut out, value);
    out
}

/// Render a host report as labelled lines.
pub fn report_lines(report: &HostReport) -> (r: Vec<String>)
    ensures
        line_texts(r@) == report_text(*report),
{
    let ttl = format_ttl(report.ttl);
    let os = match report.os {
        Some(guess) => {
            let mut text = String::from_str(guess.family.label());
            push_str(&mut text, " (");
            push_str(&mut text, guess.confidence.label());
            push_str(&mut text, ")");
            text
        },
        None => String::from_str("-"),
    };
    proof {
        assert(os@ =~= os_text(report.os));
    }
    let ports = format_ports(report.open_ports.as_slice());
    let mut lines: Vec<String> = Vec::new();
    lines.push(labelled("TTL:        ", ttl.as_str()));
    lines.push(labelled("OS:         ", os.as_str()));
    lines.push(labelled("Open ports: ", ports.as_str()));
    lines.push(String::from_str("Services:"));
    let ghost head = line_texts(lines@);
    if report.services.len() == 0 {
        lines.push(String::from_str("  -"));
        proof {
            assert(line_texts(lines@) =~= report_text(*report));
        }
        return lines;
    }
    let mut i: usize = 0;
    while i < report.services.len()
        invariant
            i <= report.services.len(),
            head.len() == 4,
            line_texts(lines@) == head + report.services@.take(i as int).map_values(
                |s: Service| "  "@ + service_line_text(s),
            ),
            head == report_text(*report).take(4),
        decreases report.services.len() - i,
    {
        let text = service_line(&report.services[i]);
        let line = labelled("  ", text.as_str());
        let ghost before = lines@;
        lines.push(line);
        proof {
            let f = |s: Service| "  "@ + service_line_text(s);
            assert(line@ == f(report.services@[i as int]));
            assert(lines@ == before.push(line));
            assert(report.services@.take(i + 1) =~= report.services@.take(i as int).push(
                report.services@[i as int],
            ));
            assert(line_texts(lines@) =~= line_texts(before).push(line@));
            assert(report.services@.take(i + 1).map_values(f) =~= report.services@.take(
                i as int,
            ).map_values(f).push(f(report.services@[i as int])));
        }
        i += 1;
    }
    proof {
        assert(report.services@.take(report.services.len() as int) =~= report.services@);
        assert(line_texts(lines@) =~= report_text(*report));
    }
    lines
}

/// The preview under a typed port selection: a prompt when nothing is typed, the
/// number of ports it resolves to, or why it cannot be used (flagged as an error).
pub open spec fn preview_text(input: Seq<char>) -> (Seq<char>, bool) {
    if trim(input).len() == 0 {
        ("   type ports, then enter"@, false)
    } else {
        match parsed_selection(input) {
            Ok(selection) => match resolved(selection) {
                Ok(ports) => ("   → "@ + decimal(ports.len()) + " port(s)"@, false),
                Err(e) => ("   ✗ "@ + e.spec_message(), true),
            },
            Err(e) => ("   ✗ "@ + e.spec_message(), true),
        }
    }
}

/// A preview line for a typed port selection: the resolved port count, or the
/// parse error; the flag marks an error.
pub fn scope_preview(input: &str) -> (r: (String, bool))
    ensures
        (r.0@, r.1) == preview_text(input@),
{
    let text = chars_of(input);
    let trimmed = trim_exec(text.as_slice());
    if trimmed.len() == 0 {
        return (String::from_str("   type ports, then enter"), false);
    }
    let outcome = match PortSpec::parse(input) {
        Ok(spec) => spec.resolve(),
        Err(e) => Err(e),
    };
    match outcome {
        Ok(ports) => {
            let mut out = String::from_str("   → ");
            push_decimal(&mut out, ports.len() as u64);
            push_str(&mut out, " port(s)");
            (out, false)
        },
        Err(e) => {
            let mut out = String::from_str("   ✗ ");
            push_str(&mut out, e.to_string().as_str());
            (out, true)
        },
    }
}

/// The Discover body: a spinner while the sweep runs, the failure, the empty
/// result, or the title over the table of live hosts.
pub open spec fn discover_text_of(discover: Scan, frame: usize) -> Seq<char> {
    match discover {
        Scan::Running => spinner_frame(frame % 10) + " Discovering live hosts…"@,
        Scan::Failed(err) => "Discover failed: "@ + err@,
        Scan::Done(hosts) => if hosts@.len() == 0 {
            "No live hosts found on local networks."@
        } else {
            "Discover — "@ + decimal(hosts@.len()) + " live"@
        },
    }
}

/// The text of the Discover screen's body: the table's title once hosts were
/// found, otherwise the message shown in its place.
pub fn discover_text(app: &App) -> (r: String)
    ensures
        r@ == discover_text_of(app.discover, app.spinner_frame),
{
    match &app.discover {
        Scan::Running => {
            let mut out = String::from_str(spinner(app.spinner_frame));
            push_str(&mut out, " Discovering live hosts…");
            out
        },
        Scan::Failed(err) => {
            let mut out = String::from_str("Discover failed: ");
            push_str(&mut out, err.as_str());
            out
        },
        Scan::Done(hosts) => if hosts.len() == 0 {
            String::from_str("No live hosts found on local networks.")
        } else {
            let mut out = String::from_str("Discover — ");
            push_decimal(&mut out, hosts.len() as u64);
            push_str(&mut out, " live");
            out
        },
    }
}

/// The name of a Scope preset.
pub open spec fn preset_label_text(index: usize) -> Seq<char> {
    if index == 0 {
        "Web"@
    } else if index == 1 {
        "Common"@
    } else {
        "All"@
    }
}

/// The lines of the Scope screen: each preset's label, then the ports it covers.
pub open spec fn scope_text() -> Seq<Seq<char>> {
    seq![
        " "@ + preset_label_text(0),
        "   "@ + preset_hint_text(0),
        " "@ + preset_label_text(1),
        "   "@ + preset_hint_text(1),
        " "@ + preset_label_text(2),
        "   "@ + preset_hint_text(2),
    ]
}

/// The Scope screen's lines, a label and a hint per preset, in display order.
pub fn scope_lines() -> (r: Vec<String>)
    ensures
        line_texts(r@) == scope_text(),
{
    let mut lines: Vec<String> = Vec::new();
    lines.push(labelled(" ", preset_label(0)));
    lines.push(labelled("   ", preset_hint(0).as_str()));
    lines.push(labelled(" ", preset_label(1)));
    lines.push(labelled("   ", preset_hint(1).as_str()));
    lines.push(labelled(" ", preset_label(2)));
    lines.push(labelled("   ", preset_hint(2).as_str()));
    assert(line_texts(lines@) =~= scope_text());
    lines
}

/// The Inspect body's title: with a spinner while the inspection runs.
pub open spec fn inspect_title_of(inspection: Inspection, frame: usize) -> Seq<char> {
    match inspection {
        Inspection::Running => spinner_frame(frame % 10) + " Inspect"@,
        _ => "Inspect"@,
    }
}

/// The title of the Inspect screen's body.
pub fn inspect_title(app: &App) -> (r: String)
    ensures
        r@ == inspect_title_of(app.inspection, app.spinner_frame),
{
    match &app.inspection {
        Inspection::Running => {
            let mut out = String::from_str(spinner(app.spinner_frame));
            push_str(&mut out, " Inspect");
            out
        },
        _ => String::from_str("Inspect"),
    }
}

/// The Inspect body: a spinner while the inspection runs, the report once it is
/// done, or why there is none.
pub open spec fn inspect_text_of(inspection: Inspection, frame: usize) -> Seq<Seq<char>> {
    match inspection {
        Inspection::Running => seq![spinner_frame(frame % 10) + " Inspecting…"@],
        Inspection::Done(Some(report)) => report_text(report),
        Inspection::Done(None) => seq!["No open ports found."@],
        Inspection::Failed(err) => seq!["Inspect failed: "@ + err@],
    }
}

/// The lines of the Inspect screen's body.
pub fn inspect_lines(app: &App) -> (r: Vec<String>)
    ensures
        line_texts(r@) == inspect_text_of(app.inspection, app.spinner_frame),
{
    let mut lines: Vec<String> = Vec::new();
    match &app.inspection {
        Inspection::Running => {
            lines.push(labelled(spinner(app.spinner_frame), " Inspecting…"));
        },
        Inspection::Done(Some(report)) => {
            return report_lines(report);
        },
        Inspection::Done(None) => {
            lines.push(String::from_str("No open ports found."));
        },
        Inspection::Failed(err) => {
            lines.push(labelled("Inspect failed: ", err.as_str()));
        },
    }
    assert(line_texts(lines@) =~= inspect_text_of(app.inspection, app.spinner_frame));
    lines
}

} // verus!
