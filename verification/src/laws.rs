//! Properties that hold across the library's operations: how the OS guess
//! weighs its signals, that a report's contents do not depend on the order
//! results arrive in, that each host is probed for its TTL and reported live
//! only once, and the bounds and monotonicity of the concurrency limits.

use vstd::prelude::*;

use crate::banner::{first_line, greeting_banner, printable_text};
use crate::discover::{filter_step, LiveHostFilterView};
use crate::fingerprint::{
    banner_product, cleaned, greeting_product, os_guess, product_and_version, server_header,
    services_family, slash_product, ssh_product, ttl_family, version_position,
};
use crate::inspect::{
    book_well_formed, enrich_step, enrichment_applied, has_service, lemma_insert_contains,
    lemma_text_less_irreflexive, lemma_text_less_transitive, live_step, only_entry_changed,
    port_added, ports_sorted, service_added, service_less, services_sorted, sweep_end_step,
    text_less, CoordinatorView, Enrich, LiveAction,
};
use crate::limits::{channel_size_for, concurrency_for};
use crate::scope::{parsed_selection, port_range, resolved, PortSelection, ScopeError};
use crate::text::{
    is_ascii_alnum, is_ws, lemma_skip_while_suffix, lower, punct_pred, skip_while, skip_while_rev,
    split_once, starts_with, tokens, trim, trim_punct, ws_pred, lines,
};
use crate::banner::{http_banner, server_line_from};
use crate::ui::identity_text;
use crate::tui::{
    discover_done_step, inspect_done_step, key_step, next_row, previous_row, tick_step, Action, App,
    Inspection, Key, KeyEvent, Screen, PRESET_COUNT,
};
use crate::types::{opt_view, Confidence, Host, HostReport, OsFamily, OsGuess, Service};

verus! {

// ---------------------------------------------------------------------------
// The OS guess
// ---------------------------------------------------------------------------

/// There is a guess exactly when there is a signal: a non-zero TTL, or banners
/// that point at one family.
pub proof fn law_guess_needs_a_signal(ttl: Option<u8>, services: Seq<Service>)
    ensures
        os_guess(ttl, services) is None <==> ((ttl is None || ttl == Some(0u8)) && services_family(
            services,
        ) is None),
{
}

/// The guess is of high confidence exactly when the TTL and the banners point at
/// the same family.
pub proof fn law_high_confidence_needs_agreement(ttl: Option<u8>, services: Seq<Service>)
    ensures
        (os_guess(ttl, services) matches Some(g) && g.confidence == Confidence::High) <==> (
        ttl matches Some(t) && ttl_family(t) matches Some((family, _)) && services_family(services)
            == Some(family)),
{
}

/// A family the banners point at is the family guessed, whatever the TTL says.
pub proof fn law_banner_decides_family(ttl: Option<u8>, services: Seq<Service>, family: OsFamily)
    requires
        services_family(services) == Some(family),
    ensures
        os_guess(ttl, services) matches Some(g) && g.family == family,
{
}

/// A parsed service keeps its raw banner, and its confidence says how much was
/// recovered: product and version give high, a product alone medium, no
/// product low.
pub proof fn law_confidence_tracks_recovery(s: Service, port: u16, banner: Seq<char>)
    requires
        s.parsed_from(port, banner),
    ensures
        s.port == port,
        s.banner@ == banner,
        s.confidence == Confidence::High <==> (s.product is Some && s.version is Some),
        s.confidence == Confidence::Medium <==> (s.product is Some && s.version is None),
        s.confidence == Confidence::Low <==> s.product is None,
{
}

// ---------------------------------------------------------------------------
// Reports do not depend on the order results arrive in
// ---------------------------------------------------------------------------

/// Two sequences strictly sorted by the same strict order, with the same
/// elements, are the same sequence.
proof fn lemma_strictly_sorted_unique<A>(a: Seq<A>, b: Seq<A>, less: spec_fn(A, A) -> bool)
    requires
        forall|x: A| !#[trigger] less(x, x),
        forall|x: A, y: A, z: A| #[trigger] less(x, y) && #[trigger] less(y, z) ==> less(x, z),
        forall|i: int, j: int| 0 <= i < j < a.len() ==> less(a[i], a[j]),
        forall|i: int, j: int| 0 <= i < j < b.len() ==> less(b[i], b[j]),
        forall|x: A| a.contains(x) <==> b.contains(x),
    ensures
        a == b,
    decreases a.len(),
{
    if a.len() == 0 {
        if b.len() > 0 {
            assert(b.contains(b[0]));
        }
        assert(a =~= b);
    } else {
        assert(a.contains(a[0]));
        assert(b.contains(a[0]));
        assert(b.contains(b[0]));
        assert(a.contains(b[0]));
        let i = choose|i: int| 0 <= i < a.len() && a[i] == b[0];
        let j = choose|j: int| 0 <= j < b.len() && b[j] == a[0];
        if a[0] != b[0] {
            assert(i > 0 && j > 0);
            assert(less(a[0], a[i]));
            assert(less(b[0], b[j]));
            assert(less(a[0], a[0]));
        }
        let ta = a.drop_first();
        let tb = b.drop_first();
        assert forall|x: A| ta.contains(x) <==> tb.contains(x) by {
            if ta.contains(x) {
                let k = choose|k: int| 0 <= k < ta.len() && ta[k] == x;
                assert(a[k + 1] == x);
                assert(less(a[0], a[k + 1]));
                assert(a.contains(x));
                let m = choose|m: int| 0 <= m < b.len() && b[m] == x;
                if m == 0 {
                    assert(less(x, x));
                }
                assert(tb[m - 1] == x);
            }
            if tb.contains(x) {
                let k = choose|k: int| 0 <= k < tb.len() && tb[k] == x;
                assert(b[k + 1] == x);
                assert(less(b[0], b[k + 1]));
                assert(b.contains(x));
                let m = choose|m: int| 0 <= m < a.len() && a[m] == x;
                if m == 0 {
                    assert(less(x, x));
                }
                assert(ta[m - 1] == x);
            }
        }
        lemma_strictly_sorted_unique(ta, tb, less);
        assert(a =~= b) by {
            assert forall|k: int| 0 <= k < a.len() implies a[k] == b[k] by {
                if k > 0 {
                    assert(ta[k - 1] == tb[k - 1]);
                }
            }
        }
    }
}

/// The elements a port insertion leaves.
proof fn lemma_port_added_contains(before: Seq<u16>, after: Seq<u16>, port: u16)
    requires
        port_added(before, after, port),
    ensures
        forall|p: u16| after.contains(p) <==> (before.contains(p) || p == port),
{
    if !before.contains(port) {
        let pos = choose|pos: int| 0 <= pos <= before.len() && after == before.insert(pos, port);
        lemma_insert_contains(before, pos, port);
    }
}

/// Adding a port that is already there changes nothing: inserting a port twice
/// is inserting it once.
pub proof fn law_port_insertion_idempotent(before: Seq<u16>, once: Seq<u16>, twice: Seq<u16>, port: u16)
    requires
        port_added(before, once, port),
        port_added(once, twice, port),
    ensures
        twice == once,
{
    lemma_port_added_contains(before, once, port);
    assert(once.contains(port));
}

/// The ports a report ends up with do not depend on the order they were found
/// open in: adding `a` then `b` gives what adding `b` then `a` gives.
pub proof fn law_port_arrival_order(
    before: Seq<u16>,
    a_first: Seq<u16>,
    a_then_b: Seq<u16>,
    b_first: Seq<u16>,
    b_then_a: Seq<u16>,
    a: u16,
    b: u16,
)
    requires
        port_added(before, a_first, a),
        port_added(a_first, a_then_b, b),
        port_added(before, b_first, b),
        port_added(b_first, b_then_a, a),
        ports_sorted(a_then_b),
        ports_sorted(b_then_a),
    ensures
        a_then_b == b_then_a,
{
    lemma_port_added_contains(before, a_first, a);
    lemma_port_added_contains(a_first, a_then_b, b);
    lemma_port_added_contains(before, b_first, b);
    lemma_port_added_contains(b_first, b_then_a, a);
    let less = |x: u16, y: u16| x < y;
    assert forall|x: u16| a_then_b.contains(x) <==> b_then_a.contains(x) by {
        assert(a_then_b.contains(x) <==> (a_first.contains(x) || x == b));
        assert(a_first.contains(x) <==> (before.contains(x) || x == a));
        assert(b_then_a.contains(x) <==> (b_first.contains(x) || x == a));
        assert(b_first.contains(x) <==> (before.contains(x) || x == b));
    }
    lemma_strictly_sorted_unique(a_then_b, b_then_a, less);
}

/// What identifies a service in a report: its port and raw banner.
pub open spec fn service_key(s: Service) -> (u16, Seq<char>) {
    (s.port, s.banner@)
}

/// The identifying keys of a report's services, in order.
pub open spec fn service_keys(services: Seq<Service>) -> Seq<(u16, Seq<char>)> {
    services.map_values(|s: Service| service_key(s))
}

/// The order of service keys: by port, then by banner.
pub open spec fn key_less(x: (u16, Seq<char>), y: (u16, Seq<char>)) -> bool {
    x.0 < y.0 || (x.0 == y.0 && text_less(x.1, y.1))
}

/// The keys a service insertion leaves.
proof fn lemma_service_added_keys(before: Seq<Service>, after: Seq<Service>, port: u16, banner: Seq<char>)
    requires
        service_added(before, after, port, banner),
    ensures
        forall|k: (u16, Seq<char>)|
            service_keys(after).contains(k) <==> (service_keys(before).contains(k) || k == (
            port,
            banner,
        )),
{
    if has_service(before, port, banner) {
        let i = choose|i: int|
            0 <= i < before.len() && (#[trigger] before[i]).port == port && before[i].banner@
                == banner;
        assert(service_keys(before)[i] == (port, banner));
    } else {
        let (pos, s) = choose|pos: int, s: Service|
            0 <= pos <= before.len() && s.parsed_from(port, banner) && after == before.insert(
                pos,
                s,
            );
        assert(service_keys(after) =~= service_keys(before).insert(pos, (port, banner)));
        lemma_insert_contains(service_keys(before), pos, (port, banner));
    }
}

/// The services a report ends up with do not depend on the order their banners
/// arrived in: adding the banner `(pa, ba)` then `(pb, bb)` gives the same
/// ports and banners, in the same order, as adding them the other way round.
pub proof fn law_service_arrival_order(
    before: Seq<Service>,
    a_first: Seq<Service>,
    a_then_b: Seq<Service>,
    b_first: Seq<Service>,
    b_then_a: Seq<Service>,
    pa: u16,
    ba: Seq<char>,
    pb: u16,
    bb: Seq<char>,
)
    requires
        service_added(before, a_first, pa, ba),
        service_added(a_first, a_then_b, pb, bb),
        service_added(before, b_first, pb, bb),
        service_added(b_first, b_then_a, pa, ba),
        services_sorted(a_then_b),
        services_sorted(b_then_a),
    ensures
        service_keys(a_then_b) == service_keys(b_then_a),
{
    lemma_service_added_keys(before, a_first, pa, ba);
    lemma_service_added_keys(a_first, a_then_b, pb, bb);
    lemma_service_added_keys(before, b_first, pb, bb);
    lemma_service_added_keys(b_first, b_then_a, pa, ba);
    let ka = service_keys(a_then_b);
    let kb = service_keys(b_then_a);
    assert forall|k: (u16, Seq<char>)| ka.contains(k) <==> kb.contains(k) by {
        assert(ka.contains(k) <==> (service_keys(a_first).contains(k) || k == (pb, bb)));
        assert(service_keys(a_first).contains(k) <==> (service_keys(before).contains(k) || k == (
        pa, ba)));
        assert(kb.contains(k) <==> (service_keys(b_first).contains(k) || k == (pa, ba)));
        assert(service_keys(b_first).contains(k) <==> (service_keys(before).contains(k) || k == (
        pb, bb)));
    }
    let less = |x: (u16, Seq<char>), y: (u16, Seq<char>)| key_less(x, y);
    assert forall|x: (u16, Seq<char>)| !#[trigger] less(x, x) by {
        lemma_text_less_irreflexive(x.1);
    }
    assert forall|x: (u16, Seq<char>), y: (u16, Seq<char>), z: (u16, Seq<char>)|
        #[trigger] less(x, y) && #[trigger] less(y, z) implies less(x, z) by {
        if x.0 == y.0 && y.0 == z.0 {
            lemma_text_less_transitive(x.1, y.1, z.1);
        }
    }
    assert forall|i: int, j: int| 0 <= i < j < ka.len() implies less(ka[i], ka[j]) by {
        assert(ka[i] == service_key(a_then_b[i]));
        assert(ka[j] == service_key(a_then_b[j]));
        assert(service_less(a_then_b[i], a_then_b[j]));
    }
    assert forall|i: int, j: int| 0 <= i < j < kb.len() implies less(kb[i], kb[j]) by {
        assert(kb[i] == service_key(b_then_a[i]));
        assert(kb[j] == service_key(b_then_a[j]));
        assert(service_less(b_then_a[i], b_then_a[j]));
    }
    lemma_strictly_sorted_unique(ka, kb, less);
}

// ---------------------------------------------------------------------------
// The Inspect run and the Discover filter
// ---------------------------------------------------------------------------

/// A host's TTL is probed once: only the first open port found on it asks for a
/// TTL probe.
pub proof fn law_ttl_probed_once(
    start: CoordinatorView,
    middle: CoordinatorView,
    end: CoordinatorView,
    ip: u32,
    first_port: u16,
    second_port: u16,
    first: Option<LiveAction>,
    second: Option<LiveAction>,
)
    requires
        live_step(start, middle, ip, first_port, true, first),
        live_step(middle, end, ip, second_port, true, second),
    ensures
        second matches Some(action) && !action.probe_ttl,
{
    if start.reports.contains_key(ip) && start.reports[ip]@.open_ports.contains(first_port) {
        assert(middle.reports == start.reports);
    }
}

/// A live-sweep result hands on a snapshot exactly when it changed the reports,
/// and an open port always calls for a service probe.
pub proof fn law_live_snapshot_iff_changed(
    before: CoordinatorView,
    after: CoordinatorView,
    ip: u32,
    port: u16,
    open: bool,
    r: Option<LiveAction>,
)
    requires
        live_step(before, after, ip, port, open, r),
    ensures
        open <==> r is Some,
        r matches Some(action) ==> (action.snapshot is Some <==> after.reports != before.reports),
{
    if open {
        let first = !before.reports.contains_key(ip);
        if first {
            assert(!before.reports.contains_key(ip) && after.reports.contains_key(ip));
        } else if !before.reports[ip]@.open_ports.contains(port) {
            lemma_port_added_contains(
                before.reports[ip]@.open_ports,
                after.reports[ip]@.open_ports,
                port,
            );
            assert(after.reports[ip]@.open_ports.contains(port));
        }
    }
}

/// An enrichment hands on a snapshot exactly when it changed the reports.
pub proof fn law_enrichment_snapshot_iff_changed(
    before: Map<u32, HostReport>,
    after: Map<u32, HostReport>,
    result: Enrich,
    snapshot: Option<HostReport>,
)
    requires
        enrichment_applied(before, after, result, snapshot),
    ensures
        snapshot is Some <==> after != before,
{
    match result {
        Enrich::Ttl(ip, Some(ttl)) => {
            if before.contains_key(ip) && before[ip]@.ttl != Some(ttl) {
                assert(after[ip]@.ttl != before[ip]@.ttl);
            }
        },
        Enrich::Service(ip, port, Some(banner)) => {
            if before.contains_key(ip) && !has_service(before[ip]@.services, port, banner@) {
                let old_s = before[ip]@.services;
                let new_s = after[ip]@.services;
                let (pos, sv) = choose|pos: int, sv: Service|
                    0 <= pos <= old_s.len() && sv.parsed_from(port, banner@) && new_s
                        == old_s.insert(pos, sv);
                assert(new_s.len() == old_s.len() + 1);
            }
        },
        _ => {},
    }
}

/// A live-sweep result never drops a host's report nor a port from one.
pub proof fn law_reports_only_grow(
    before: CoordinatorView,
    after: CoordinatorView,
    ip: u32,
    port: u16,
    open: bool,
    r: Option<LiveAction>,
    host: u32,
    p: u16,
)
    requires
        live_step(before, after, ip, port, open, r),
        before.reports.contains_key(host),
    ensures
        after.reports.contains_key(host),
        before.reports[host]@.open_ports.contains(p) ==> after.reports[host]@.open_ports.contains(
            p,
        ),
{
    if open && !before.reports[ip]@.open_ports.contains(port) || open && !before.reports.contains_key(ip) {
        if host == ip {
            lemma_port_added_contains(
                before.reports[ip]@.open_ports,
                after.reports[ip]@.open_ports,
                port,
            );
        } else {
            assert(before.reports.remove(ip).contains_key(host));
            assert(after.reports.remove(ip)[host] == before.reports.remove(ip)[host]);
        }
    }
}

/// Every snapshot a live-sweep result hands on is a well-formed report: ports
/// sorted and distinct, services sorted and distinct and each the parse of its
/// banner, and an OS guess that agrees with its TTL and banners.
pub proof fn law_live_snapshot_well_formed(
    before: CoordinatorView,
    after: CoordinatorView,
    ip: u32,
    port: u16,
    open: bool,
    r: Option<LiveAction>,
)
    requires
        live_step(before, after, ip, port, open, r),
        book_well_formed(after.reports),
    ensures
        r matches Some(action) ==> (action.snapshot matches Some(s) ==> s@.well_formed()),
{
    if open {
        if !(before.reports.contains_key(ip) && before.reports[ip]@.open_ports.contains(port)) {
            assert(after.reports.contains_key(ip));
        }
    }
}

/// Every snapshot an enrichment hands on is a well-formed report.
pub proof fn law_enrichment_snapshot_well_formed(
    before: Map<u32, HostReport>,
    after: Map<u32, HostReport>,
    result: Enrich,
    snapshot: Option<HostReport>,
)
    requires
        enrichment_applied(before, after, result, snapshot),
        book_well_formed(after),
    ensures
        snapshot matches Some(s) ==> s@.well_formed(),
{
    match result {
        Enrich::Ttl(h, Some(_)) => {
            if before.contains_key(h) {
                assert(after.contains_key(h));
            }
        },
        Enrich::Service(h, _, Some(_)) => {
            if before.contains_key(h) {
                assert(after.contains_key(h));
            }
        },
        _ => {},
    }
}

// ---------------------------------------------------------------------------
// A whole Inspect run
// ---------------------------------------------------------------------------

/// An event of an Inspect run, in the order the coordinator receives them.
pub enum RunEvent {
    /// A live-sweep result: host, port, whether it accepted.
    Live(u32, u16, bool),
    /// The live sweep reported every target.
    SweepEnd,
    /// An enrichment probe finished.
    Enriched(Enrich),
}

/// What the coordinator answered to an event.
pub enum RunReply {
    Live(Option<LiveAction>),
    Enriched(Option<HostReport>),
    Nothing,
}

/// A run that has seen nothing yet, with the sweep running.
pub open spec fn run_start() -> CoordinatorView {
    CoordinatorView { reports: Map::empty(), pending: 0, sweeping: true }
}

/// One event of a run, answered as the coordinator's operations answer it.
pub open spec fn run_step(
    before: CoordinatorView,
    after: CoordinatorView,
    event: RunEvent,
    reply: RunReply,
) -> bool {
    match event {
        RunEvent::Live(ip, port, open) => match reply {
            RunReply::Live(r) => live_step(before, after, ip, port, open, r) && book_well_formed(
                after.reports,
            ),
            _ => false,
        },
        RunEvent::SweepEnd => reply is Nothing && sweep_end_step(before, after),
        RunEvent::Enriched(result) => match reply {
            RunReply::Enriched(snapshot) => before.pending > 0 && enrich_step(
                before,
                after,
                result,
                snapshot,
            ) && book_well_formed(after.reports),
            _ => false,
        },
    }
}

/// The `i`-th event of a run takes its state to the next one.
pub open spec fn step_taken(
    states: Seq<CoordinatorView>,
    events: Seq<RunEvent>,
    replies: Seq<RunReply>,
    i: int,
) -> bool {
    run_step(states[i], states[i + 1], events[i], replies[i])
}

/// `states` is what a coordinator goes through from its start as it answers
/// `events` with `replies`.
pub open spec fn is_run(
    states: Seq<CoordinatorView>,
    events: Seq<RunEvent>,
    replies: Seq<RunReply>,
) -> bool {
    &&& states.len() == events.len() + 1
    &&& replies.len() == events.len()
    &&& states[0] == run_start()
    &&& forall|i: int| 0 <= i < events.len() ==> #[trigger] step_taken(states, events, replies, i)
}

/// The probes an answer calls for: a service probe for an open port, and a TTL
/// probe besides on a first sighting.
pub open spec fn probes_called(event: RunEvent, reply: RunReply) -> nat {
    match event {
        RunEvent::Live(_, _, true) => match reply {
            RunReply::Live(Some(action)) => if action.probe_ttl {
                2
            } else {
                1
            },
            _ => 0,
        },
        _ => 0,
    }
}

/// The probes the first `k` answers called for.
pub open spec fn probes_started(events: Seq<RunEvent>, replies: Seq<RunReply>, k: int) -> nat
    decreases k,
{
    if k <= 0 {
        0
    } else {
        probes_started(events, replies, k - 1) + probes_called(events[k - 1], replies[k - 1])
    }
}

/// The probes that finished among the first `k` events.
pub open spec fn probes_returned(events: Seq<RunEvent>, k: int) -> nat
    decreases k,
{
    if k <= 0 {
        0
    } else {
        probes_returned(events, k - 1) + if events[k - 1] is Enriched {
            1nat
        } else {
            0nat
        }
    }
}

/// The `i`-th answer calls for a TTL probe of `host`.
pub open spec fn ttl_probe_started(
    events: Seq<RunEvent>,
    replies: Seq<RunReply>,
    i: int,
    host: u32,
) -> bool {
    match events[i] {
        RunEvent::Live(ip, _, _) => ip == host && match replies[i] {
            RunReply::Live(Some(action)) => action.probe_ttl,
            _ => false,
        },
        _ => false,
    }
}

/// One of the first `k` events found `port` open on `host`.
pub open spec fn opened(events: Seq<RunEvent>, k: int, host: u32, port: u16) -> bool {
    exists|i: int| 0 <= i < k && #[trigger] events[i] == RunEvent::Live(host, port, true)
}

/// The snapshot an answer hands on, if any.
pub open spec fn reply_snapshot(reply: RunReply) -> Option<HostReport> {
    match reply {
        RunReply::Live(Some(action)) => action.snapshot,
        RunReply::Enriched(snapshot) => snapshot,
        _ => None,
    }
}

/// What holds of every state of a run.
proof fn lemma_run_invariant(
    states: Seq<CoordinatorView>,
    events: Seq<RunEvent>,
    replies: Seq<RunReply>,
    k: int,
)
    requires
        is_run(states, events, replies),
        0 <= k <= events.len(),
    ensures
        states[k].pending + probes_returned(events, k) == probes_started(events, replies, k),
        book_well_formed(states[k].reports),
        forall|h: u32|
            #[trigger] states[k].reports.contains_key(h) <==> exists|j: int|
                0 <= j < k && #[trigger] ttl_probe_started(events, replies, j, h),
        forall|h: u32, p: u16|
            states[k].reports.contains_key(h) && #[trigger] states[k].reports[h]@.open_ports.contains(
                p,
            ) ==> opened(events, k, h, p),
        !states[k].sweeping ==> exists|j: int| 0 <= j < k && #[trigger] events[j] is SweepEnd,
    decreases k,
{
    if k == 0 {
        assert(states[0] == run_start());
        return;
    }
    let i = k - 1;
    lemma_run_invariant(states, events, replies, i);
    assert(step_taken(states, events, replies, i));
    let before = states[i];
    let after = states[k];
    assert(i + 1 == k);
    match events[i] {
        RunEvent::Live(ip, port, open) => {
            let r = match replies[i] {
                RunReply::Live(r) => r,
                _ => None,
            };
            assert(live_step(before, after, ip, port, open, r));
            let first = !before.reports.contains_key(ip);
            let known = !first && before.reports[ip]@.open_ports.contains(port);
            if open && !known {
                lemma_port_added_contains(
                    if first {
                        Seq::<u16>::empty()
                    } else {
                        before.reports[ip]@.open_ports
                    },
                    after.reports[ip]@.open_ports,
                    port,
                );
            }
            assert forall|h: u32| #[trigger] after.reports.contains_key(h) <==> exists|j: int|
                0 <= j < k && #[trigger] ttl_probe_started(events, replies, j, h) by {
                if h != ip || !open || known {
                    assert(!ttl_probe_started(events, replies, i, h));
                    if open && !known && h != ip {
                        assert(before.reports.remove(ip).contains_key(h) == before.reports.contains_key(h));
                        assert(after.reports.remove(ip).contains_key(h) == after.reports.contains_key(h));
                    }
                    if exists|j: int| 0 <= j < k && #[trigger] ttl_probe_started(events, replies, j, h) {
                        let j = choose|j: int| 0 <= j < k && #[trigger] ttl_probe_started(events, replies, j, h);
                        assert(j < i);
                    }
                } else if first {
                    assert(ttl_probe_started(events, replies, i, h));
                } else {
                    assert(before.reports.contains_key(h));
                    let j = choose|j: int| 0 <= j < i && #[trigger] ttl_probe_started(events, replies, j, h);
                    assert(0 <= j < k && ttl_probe_started(events, replies, j, h));
                }
            }
            assert forall|h: u32, p: u16|
                after.reports.contains_key(h) && #[trigger] after.reports[h]@.open_ports.contains(p)
                implies opened(events, k, h, p) by {
                if open && !known {
                    if h == ip {
                        if p == port {
                            assert(events[i] == RunEvent::Live(h, p, true));
                        } else {
                            assert(before.reports.contains_key(h) && before.reports[h]@.open_ports.contains(p));
                            assert(opened(events, i, h, p));
                            let w = choose|w: int| 0 <= w < i && #[trigger] events[w] == RunEvent::Live(h, p, true);
                            assert(events[w] == RunEvent::Live(h, p, true));
                        }
                    } else {
                        assert(before.reports.remove(ip).contains_key(h));
                        assert(after.reports.remove(ip)[h] == before.reports.remove(ip)[h]);
                        assert(opened(events, i, h, p));
                        let w = choose|w: int| 0 <= w < i && #[trigger] events[w] == RunEvent::Live(h, p, true);
                        assert(events[w] == RunEvent::Live(h, p, true));
                    }
                } else {
                    assert(opened(events, i, h, p));
                    let w = choose|w: int| 0 <= w < i && #[trigger] events[w] == RunEvent::Live(h, p, true);
                    assert(events[w] == RunEvent::Live(h, p, true));
                }
            }
            if !after.sweeping {
                let j = choose|j: int| 0 <= j < i && #[trigger] events[j] is SweepEnd;
                assert(events[j] is SweepEnd);
            }
        },
        RunEvent::SweepEnd => {
            assert(sweep_end_step(before, after));
            assert(events[i] is SweepEnd);
            assert forall|h: u32| #[trigger] after.reports.contains_key(h) <==> exists|j: int|
                0 <= j < k && #[trigger] ttl_probe_started(events, replies, j, h) by {
                assert(!ttl_probe_started(events, replies, i, h));
                if exists|j: int| 0 <= j < k && #[trigger] ttl_probe_started(events, replies, j, h) {
                    let j = choose|j: int| 0 <= j < k && #[trigger] ttl_probe_started(events, replies, j, h);
                    assert(j < i);
                }
            }
            assert forall|h: u32, p: u16|
                after.reports.contains_key(h) && #[trigger] after.reports[h]@.open_ports.contains(p)
                implies opened(events, k, h, p) by {
                assert(opened(events, i, h, p));
                let w = choose|w: int| 0 <= w < i && #[trigger] events[w] == RunEvent::Live(h, p, true);
                assert(events[w] == RunEvent::Live(h, p, true));
            }
        },
        RunEvent::Enriched(result) => {
            let snapshot = match replies[i] {
                RunReply::Enriched(snapshot) => snapshot,
                _ => None,
            };
            assert(enrich_step(before, after, result, snapshot));
            let changed = match result {
                Enrich::Ttl(ip, Some(ttl)) => before.reports.contains_key(ip) && before.reports[ip]@.ttl != Some(ttl),
                Enrich::Service(ip, port, Some(banner)) => before.reports.contains_key(ip) && !has_service(
                    before.reports[ip]@.services,
                    port,
                    banner@,
                ),
                _ => false,
            };
            let ip = match result {
                Enrich::Ttl(ip, _) => ip,
                Enrich::Service(ip, _, _) => ip,
            };
            assert(changed ==> only_entry_changed(before.reports, after.reports, ip)
                && after.reports[ip]@.open_ports == before.reports[ip]@.open_ports);
            assert(!changed ==> after.reports == before.reports);
            assert forall|h: u32| #[trigger] after.reports.contains_key(h) <==> exists|j: int|
                0 <= j < k && #[trigger] ttl_probe_started(events, replies, j, h) by {
                assert(!ttl_probe_started(events, replies, i, h));
                if changed && h != ip {
                    assert(before.reports.remove(ip).contains_key(h) == before.reports.contains_key(h));
                    assert(after.reports.remove(ip).contains_key(h) == after.reports.contains_key(h));
                }
                if exists|j: int| 0 <= j < k && #[trigger] ttl_probe_started(events, replies, j, h) {
                    let j = choose|j: int| 0 <= j < k && #[trigger] ttl_probe_started(events, replies, j, h);
                    assert(j < i);
                }
            }
            assert forall|h: u32, p: u16|
                after.reports.contains_key(h) && #[trigger] after.reports[h]@.open_ports.contains(p)
                implies opened(events, k, h, p) by {
                if changed && h != ip {
                    assert(before.reports.remove(ip).contains_key(h));
                    assert(after.reports.remove(ip)[h] == before.reports.remove(ip)[h]);
                }
                assert(before.reports.contains_key(h) && before.reports[h]@.open_ports.contains(p));
                assert(opened(events, i, h, p));
                let w = choose|w: int| 0 <= w < i && #[trigger] events[w] == RunEvent::Live(h, p, true);
                assert(events[w] == RunEvent::Live(h, p, true));
            }
            if !after.sweeping {
                let j = choose|j: int| 0 <= j < i && #[trigger] events[j] is SweepEnd;
                assert(events[j] is SweepEnd);
            }
        },
    }
}

/// Over a whole run, the probes in flight are exactly those started and not yet
/// returned.
pub proof fn law_run_counts_probes(
    states: Seq<CoordinatorView>,
    events: Seq<RunEvent>,
    replies: Seq<RunReply>,
    k: int,
)
    requires
        is_run(states, events, replies),
        0 <= k <= events.len(),
    ensures
        states[k].pending + probes_returned(events, k) == probes_started(events, replies, k),
{
    lemma_run_invariant(states, events, replies, k);
}

/// Over a whole run, no host's TTL is probed twice, and every host found with an
/// open port has had its TTL probe started by then.
pub proof fn law_run_one_ttl_probe_per_host(
    states: Seq<CoordinatorView>,
    events: Seq<RunEvent>,
    replies: Seq<RunReply>,
    i: int,
    j: int,
    host: u32,
    port: u16,
)
    requires
        is_run(states, events, replies),
        0 <= i < j < events.len(),
    ensures
        !(ttl_probe_started(events, replies, i, host) && ttl_probe_started(events, replies, j, host)),
        events[i] == RunEvent::Live(host, port, true) ==> exists|m: int|
            0 <= m <= i && #[trigger] ttl_probe_started(events, replies, m, host),
{
    lemma_run_invariant(states, events, replies, i);
    lemma_run_invariant(states, events, replies, j);
    assert(step_taken(states, events, replies, i));
    assert(step_taken(states, events, replies, j));
    if ttl_probe_started(events, replies, i, host) {
        assert(states[j].reports.contains_key(host));
    }
    if events[i] == RunEvent::Live(host, port, true) {
        if states[i].reports.contains_key(host) {
            let m = choose|m: int| 0 <= m < i && #[trigger] ttl_probe_started(events, replies, m, host);
            assert(ttl_probe_started(events, replies, m, host));
        } else {
            assert(ttl_probe_started(events, replies, i, host));
        }
    }
}

/// Over a whole run, every snapshot handed on is a well-formed report of its
/// host whose ports were all found open by earlier results.
pub proof fn law_run_snapshots_from_open_results(
    states: Seq<CoordinatorView>,
    events: Seq<RunEvent>,
    replies: Seq<RunReply>,
    i: int,
    p: u16,
)
    requires
        is_run(states, events, replies),
        0 <= i < events.len(),
    ensures
        reply_snapshot(replies[i]) matches Some(s) ==> s@.well_formed() && (s@.open_ports.contains(p)
            ==> opened(events, i + 1, s@.host, p)),
{
    lemma_run_invariant(states, events, replies, i + 1);
    assert(step_taken(states, events, replies, i));
    let after = states[i + 1];
    match reply_snapshot(replies[i]) {
        Some(s) => {
            match events[i] {
                RunEvent::Live(ip, port, open) => {
                    assert(after.reports.contains_key(ip) && s@ == after.reports[ip]@);
                },
                RunEvent::Enriched(result) => {
                    match result {
                        Enrich::Ttl(ip, _) => {
                            assert(after.reports.contains_key(ip) && s@ == after.reports[ip]@);
                        },
                        Enrich::Service(ip, _, _) => {
                            assert(after.reports.contains_key(ip) && s@ == after.reports[ip]@);
                        },
                    }
                },
                RunEvent::SweepEnd => {},
            }
        },
        None => {},
    }
}

/// A run is finished only once the sweep has ended and every probe it started
/// has returned.
pub proof fn law_run_finishes_after_every_probe(
    states: Seq<CoordinatorView>,
    events: Seq<RunEvent>,
    replies: Seq<RunReply>,
    k: int,
)
    requires
        is_run(states, events, replies),
        0 <= k <= events.len(),
        !states[k].sweeping,
        states[k].pending == 0,
    ensures
        exists|j: int| 0 <= j < k && #[trigger] events[j] is SweepEnd,
        probes_returned(events, k) == probes_started(events, replies, k),
{
    lemma_run_invariant(states, events, replies, k);
}

/// The hosts the filter has seen only grow.
pub proof fn law_seen_only_grows(
    before: LiveHostFilterView,
    after: LiveHostFilterView,
    ip: u32,
    open: bool,
    r: Option<Host>,
    host: u32,
)
    requires
        filter_step(before, after, ip, open, r),
        before.seen.contains(host),
    ensures
        after.seen.contains(host),
{
}

/// A reported host is seen from then on, and a seen host is never reported
/// again: each live host is reported at most once.
pub proof fn law_host_reported_once(
    before: LiveHostFilterView,
    after: LiveHostFilterView,
    ip: u32,
    open: bool,
    r: Option<Host>,
)
    ensures
        filter_step(before, after, ip, open, r) && r is Some ==> after.seen.contains(ip) && !before.seen.contains(ip),
        filter_step(before, after, ip, open, r) && before.seen.contains(ip) ==> r is None,
{
}

// ---------------------------------------------------------------------------
// Port selections
// ---------------------------------------------------------------------------

/// The parser accepts a range in either order; resolving it rejects a start
/// after its end, and otherwise gives every port from start to end.
pub proof fn law_range_checked_on_resolve(raw: Seq<char>, start: u16, end: u16)
    requires
        parsed_selection(raw) == Ok::<PortSelection, ScopeError>(PortSelection::Range(start, end)),
    ensures
        start > end ==> resolved(PortSelection::Range(start, end)) == Err::<Seq<u16>, ScopeError>(
            ScopeError::ReversedRange,
        ),
        start <= end ==> resolved(PortSelection::Range(start, end)) == Ok::<Seq<u16>, ScopeError>(
            port_range(start, end),
        ) && port_range(start, end).len() == end - start + 1 && forall|i: int|
            0 <= i < port_range(start, end).len() ==> #[trigger] port_range(start, end)[i] == start
                + i,
{
}

/// Trimming twice is trimming once.
proof fn lemma_trim_idempotent(s: Seq<char>)
    ensures
        trim(trim(s)) == trim(s),
{
    let u = skip_while(s, ws_pred());
    let t = trim(s);
    lemma_skip_while_suffix(s, ws_pred());
    lemma_skip_while_rev_prefix(u, ws_pred());
    if t.len() > 0 {
        assert(t[0] == u[0]);
        assert(skip_while(t, ws_pred()) == t);
    } else {
        assert(skip_while(t, ws_pred()) == t);
    }
    assert(skip_while_rev(t, ws_pred()) == t);
}

/// Whitespace around a port selection does not change what it selects.
pub proof fn law_selection_ignores_padding(raw: Seq<char>)
    ensures
        parsed_selection(raw) == parsed_selection(trim(raw)),
{
    lemma_trim_idempotent(raw);
}

// ---------------------------------------------------------------------------
// Limits
// ---------------------------------------------------------------------------

/// Concurrency grows with the number of CPUs and stays between 1 and 4096.
pub proof fn law_concurrency_bounded_and_monotone(a: usize, b: usize)
    requires
        1 <= a <= b,
    ensures
        1 <= concurrency_for(a) <= 4096,
        concurrency_for(a) <= concurrency_for(b),
{
    assert(a * 64 <= b * 64) by (nonlinear_arith)
        requires
            a <= b,
    ;
}

/// The channel grows with the concurrency and stays between 256 and 16384.
pub proof fn law_channel_size_bounded_and_monotone(a: usize, b: usize)
    requires
        a <= b,
    ensures
        256 <= channel_size_for(a) <= 16384,
        channel_size_for(a) <= channel_size_for(b),
{
}

// ---------------------------------------------------------------------------
// Navigation
// ---------------------------------------------------------------------------

/// Moving the highlight keeps it on a row of a non-empty list, and moving up
/// undoes moving down except on the last row.
pub proof fn law_highlight_navigation(selected: Option<usize>, count: nat)
    requires
        count > 0,
        count <= usize::MAX,
        selected matches Some(i) ==> i < count,
    ensures
        next_row(selected, count) matches Some(i) && i < count,
        previous_row(selected, count) matches Some(i) && i < count,
        selected matches Some(i) && i + 1 < count ==> previous_row(next_row(selected, count), count)
            == selected,
{
}

// ---------------------------------------------------------------------------
// A session of the front-end
// ---------------------------------------------------------------------------

/// An event the front-end's loop hands the app.
pub enum UiEvent {
    Key(KeyEvent),
    Tick,
    DiscoverDone(Result<Vec<Host>, String>),
    /// The inspection the loop holds finished.
    InspectDone(Inspection),
}

/// One event of a session, handled as the app's operations handle it; an
/// inspection can only finish while one is in flight.
pub open spec fn ui_step(before: App, after: App, event: UiEvent, action: Action) -> bool {
    match event {
        UiEvent::Key(key) => key_step(before, after, key, action),
        UiEvent::Tick => action is Nothing && tick_step(before, after),
        UiEvent::DiscoverDone(result) => action is Nothing && discover_done_step(
            before,
            after,
            result,
        ),
        UiEvent::InspectDone(outcome) => action is Nothing && before.inspect_in_flight
            && inspect_done_step(before, after, outcome),
    }
}

/// The `i`-th event of a session takes its app to the next one.
pub open spec fn ui_step_taken(apps: Seq<App>, events: Seq<UiEvent>, actions: Seq<Action>, i: int) -> bool {
    ui_step(apps[i], apps[i + 1], events[i], actions[i])
}

/// `apps` is what the front-end goes through from a start with no inspection in
/// flight as it handles `events`, answering with `actions`.
pub open spec fn is_session(apps: Seq<App>, events: Seq<UiEvent>, actions: Seq<Action>) -> bool {
    &&& apps.len() == events.len() + 1
    &&& actions.len() == events.len()
    &&& !apps[0].inspect_in_flight
    &&& forall|i: int| 0 <= i < events.len() ==> #[trigger] ui_step_taken(apps, events, actions, i)
}

/// The inspections the loop holds after the first `k` events: each Inspect action
/// abandons the one in flight when it says so and starts one, and each finished
/// inspection is let go.
pub open spec fn inspections_held(events: Seq<UiEvent>, actions: Seq<Action>, k: int) -> int
    decreases k,
{
    if k <= 0 {
        0
    } else {
        let held = inspections_held(events, actions, k - 1);
        match events[k - 1] {
            UiEvent::InspectDone(_) => held - 1,
            _ => match actions[k - 1] {
                Action::Inspect { cancel_previous, .. } => if cancel_previous {
                    held
                } else {
                    held + 1
                },
                Action::Nothing => held,
            },
        }
    }
}

/// At most one inspection runs at a time: the loop holds one exactly while the
/// app has one in flight, and a new one abandons the one before it.
pub proof fn law_one_inspection_at_a_time(
    apps: Seq<App>,
    events: Seq<UiEvent>,
    actions: Seq<Action>,
    k: int,
)
    requires
        is_session(apps, events, actions),
        0 <= k <= events.len(),
    ensures
        inspections_held(events, actions, k) == if apps[k].inspect_in_flight {
            1int
        } else {
            0int
        },
        0 <= inspections_held(events, actions, k) <= 1,
    decreases k,
{
    if k > 0 {
        let i = k - 1;
        law_one_inspection_at_a_time(apps, events, actions, i);
        assert(ui_step_taken(apps, events, actions, i));
        assert(i + 1 == k);
        match events[i] {
            UiEvent::Key(key) => {
                match actions[i] {
                    Action::Inspect { cancel_previous, .. } => {
                        assert(apps[k].inspect_in_flight);
                        assert(cancel_previous == apps[i].inspect_in_flight);
                    },
                    Action::Nothing => {
                        assert(apps[k].inspect_in_flight == apps[i].inspect_in_flight);
                    },
                }
            },
            _ => {},
        }
    }
}

// ---------------------------------------------------------------------------
// Banners
// ---------------------------------------------------------------------------

/// `skip_while_rev` leaves a prefix of its input that does not end in a
/// character it skips.
proof fn lemma_skip_while_rev_prefix(s: Seq<char>, f: spec_fn(char) -> bool)
    ensures
        skip_while_rev(s, f).len() <= s.len(),
        skip_while_rev(s, f) == s.subrange(0, skip_while_rev(s, f).len() as int),
        skip_while_rev(s, f).len() > 0 ==> !f(skip_while_rev(s, f).last()),
    decreases s.len(),
{
    if s.len() > 0 && f(s.last()) {
        lemma_skip_while_rev_prefix(s.drop_last(), f);
        let t = skip_while_rev(s.drop_last(), f);
        assert(s.drop_last().subrange(0, t.len() as int) =~= s.subrange(0, t.len() as int));
    } else {
        assert(s.subrange(0, s.len() as int) =~= s);
    }
}

/// A greeting banner is never empty and neither starts nor ends with whitespace.
pub proof fn law_greeting_is_trimmed(bytes: Seq<u8>)
    ensures
        greeting_banner(bytes) matches Some(t) ==> t.len() > 0 && !is_ws(t[0]) && !is_ws(t.last()),
{
    if greeting_banner(bytes) is Some {
        let t = greeting_banner(bytes)->0;
        let s = printable_text(first_line(bytes));
        let u = skip_while(s, ws_pred());
        lemma_skip_while_suffix(s, ws_pred());
        lemma_skip_while_rev_prefix(u, ws_pred());
        assert(t == trim(s));
        assert(t[0] == u[0]);
    }
}

// ---------------------------------------------------------------------------
// What parsing recovers from a banner, and how it is shown
// ---------------------------------------------------------------------------

/// A recovered name: non-empty, starting and ending with an ASCII letter or digit.
pub open spec fn alnum_bounded(text: Seq<char>) -> bool {
    &&& text.len() > 0
    &&& is_ascii_alnum(text[0])
    &&& is_ascii_alnum(text.last())
}

/// An optional recovered name is absent or alnum-bounded.
pub open spec fn absent_or_bounded(text: Option<Seq<char>>) -> bool {
    match text {
        Some(t) => alnum_bounded(t),
        None => true,
    }
}

proof fn lemma_cleaned_bounded(token: Seq<char>)
    ensures
        absent_or_bounded(cleaned(token)),
{
    let u = skip_while(token, punct_pred());
    let t = trim_punct(token);
    lemma_skip_while_suffix(token, punct_pred());
    lemma_skip_while_rev_prefix(u, punct_pred());
    if t.len() > 0 {
        assert(t[0] == u[0]);
        assert(!(punct_pred())(u[0]));
        assert(!(punct_pred())(t.last()));
    }
}

proof fn lemma_product_and_version_bounded(token: Seq<char>, sep: char)
    ensures
        absent_or_bounded(product_and_version(token, sep).0),
        absent_or_bounded(product_and_version(token, sep).1),
{
    match split_once(token, sep) {
        Some((product, version)) => {
            lemma_cleaned_bounded(product);
            lemma_cleaned_bounded(version);
        },
        None => {
            lemma_cleaned_bounded(token);
        },
    }
}

proof fn lemma_banner_product_bounded(banner: Seq<char>)
    ensures
        absent_or_bounded(banner_product(banner).0),
        absent_or_bounded(banner_product(banner).1),
{
    if starts_with(banner, "SSH-"@) {
        match split_once(banner, '-') {
            None => {},
            Some((_, after_first)) => match split_once(after_first, '-') {
                None => {},
                Some((_, software)) => {
                    let words = tokens(software);
                    if words.len() > 0 {
                        lemma_product_and_version_bounded(words[0], '_');
                    }
                },
            },
        }
    } else {
        match server_header(banner) {
            Some(rest) => {
                let words = tokens(rest);
                if words.len() > 0 {
                    lemma_product_and_version_bounded(words[0], '/');
                }
            },
            None => {
                let words = tokens(banner);
                match version_position(words, 1) {
                    Some(i) => {
                        lemma_cleaned_bounded(words[i - 1]);
                        lemma_cleaned_bounded(words[i]);
                    },
                    None => {},
                }
            },
        }
    }
}

/// A product or version recovered from a banner is never empty, and neither
/// starts nor ends with punctuation or whitespace: the surrounding characters
/// that are not ASCII letters or digits are trimmed away.
pub proof fn law_recovered_names_are_trimmed(s: Service, port: u16, banner: Seq<char>)
    requires
        s.parsed_from(port, banner),
    ensures
        s.product matches Some(p) ==> alnum_bounded(p@),
        s.version matches Some(v) ==> alnum_bounded(v@),
{
    lemma_banner_product_bounded(banner);
}

/// Without an OS keyword in the banners, a non-zero TTL alone decides the guess:
/// up to 64 is Linux, up to 128 Windows, above that a network device; the
/// confidence is medium exactly at the undecremented starting values 64, 128 and
/// 255, and low for any TTL some hops below them.
pub proof fn law_ttl_alone_decides(ttl: u8, services: Seq<Service>)
    requires
        ttl != 0,
        services_family(services) is None,
    ensures
        os_guess(Some(ttl), services) == Some(
            OsGuess {
                family: if ttl <= 64 {
                    OsFamily::Linux
                } else if ttl <= 128 {
                    OsFamily::Windows
                } else {
                    OsFamily::NetworkDevice
                },
                confidence: if ttl == 64 || ttl == 128 || ttl == 255 {
                    Confidence::Medium
                } else {
                    Confidence::Low
                },
            },
        ),
{
}

/// `suffix` ends `text`.
pub open spec fn ends_with(text: Seq<char>, suffix: Seq<char>) -> bool {
    text.len() >= suffix.len() && text.subrange(text.len() - suffix.len(), text.len() as int)
        == suffix
}

/// A service's shown identity is flagged with its confidence, as ` (medium)` or
/// ` (low)`, exactly when that confidence is not high: a high-confidence identity
/// ends with the version itself, a letter or digit.
pub proof fn law_identity_flags_uncertainty(s: Service, port: u16, banner: Seq<char>)
    requires
        s.parsed_from(port, banner),
    ensures
        identity_text(s) is Some <==> s.product is Some,
        identity_text(s) matches Some(id) ==> (s.confidence != Confidence::High ==> ends_with(
            id,
            " ("@ + s.confidence.spec_label() + ")"@,
        )),
        identity_text(s) matches Some(id) ==> (s.confidence == Confidence::High ==> is_ascii_alnum(
            id.last(),
        )),
{
    law_recovered_names_are_trimmed(s, port, banner);
    match identity_text(s) {
        Some(id) => {
            let product = opt_view(s.product)->0;
            let named = match opt_view(s.name) {
                Some(name) => name + seq![' '],
                None => Seq::<char>::empty(),
            };
            let versioned = match opt_view(s.version) {
                Some(version) => seq!['/'] + version,
                None => Seq::<char>::empty(),
            };
            if s.confidence != Confidence::High {
                let flag = " ("@ + s.confidence.spec_label() + ")"@;
                assert(id == named + product + versioned + flag);
                assert(id.subrange(id.len() - flag.len(), id.len() as int) =~= flag);
            } else {
                let version = opt_view(s.version)->0;
                assert(id == named + product + versioned + Seq::<char>::empty());
                assert(id.last() == version.last());
            }
        },
        None => {},
    }
}

/// The line a `Server:` header is found on is recognised whatever the letter case
/// of its name: when some line of a response starts with `server:` once ASCII
/// letters are lowered, the banner is the status line joined with the first such
/// line; when none does, the banner is the status line alone.
pub proof fn law_server_header_any_case(data: Seq<char>)
    ensures
        ({
            let ls = lines(data);
            let status = if ls.len() > 0 {
                ls[0]
            } else {
                Seq::<char>::empty()
            };
            &&& forall|j: int|
                #![trigger ls[j]]
                0 <= j < ls.len() && data.len() > 0 && starts_with(lower(ls[j]), "server:"@)
                    && (forall|m: int| 0 <= m < j ==> !starts_with(lower(#[trigger] ls[m]), "server:"@))
                    ==> http_banner(data) == Some(status + " | "@ + ls[j])
            &&& data.len() > 0 && (forall|m: int|
                0 <= m < ls.len() ==> !starts_with(lower(#[trigger] ls[m]), "server:"@))
                ==> http_banner(data) == Some(status)
        }),
{
    let ls = lines(data);
    assert forall|j: int|
        #![trigger ls[j]]
        0 <= j < ls.len() && data.len() > 0 && starts_with(lower(ls[j]), "server:"@) && (forall|
            m: int,
        | 0 <= m < j ==> !starts_with(lower(#[trigger] ls[m]), "server:"@)) implies server_line_from(
        ls,
        0,
    ) == Some(j) by {
        lemma_server_line_first(ls, 0, j);
    }
    if forall|m: int| 0 <= m < ls.len() ==> !starts_with(lower(#[trigger] ls[m]), "server:"@) {
        lemma_server_line_none(ls, 0);
    }
}

proof fn lemma_server_line_first(ls: Seq<Seq<char>>, i: int, j: int)
    requires
        0 <= i <= j < ls.len(),
        starts_with(lower(ls[j]), "server:"@),
        forall|m: int| i <= m < j ==> !starts_with(lower(#[trigger] ls[m]), "server:"@),
    ensures
        server_line_from(ls, i) == Some(j),
    decreases j - i,
{
    if i < j {
        lemma_server_line_first(ls, i + 1, j);
    }
}

proof fn lemma_server_line_none(ls: Seq<Seq<char>>, i: int)
    requires
        0 <= i,
        forall|m: int| i <= m < ls.len() ==> !starts_with(lower(#[trigger] ls[m]), "server:"@),
    ensures
        server_line_from(ls, i) is None,
    decreases ls.len() - i,
{
    if i < ls.len() {
        lemma_server_line_none(ls, i + 1);
    }
}

/// On the Scope screen the arrow keys move the preset just as the letter keys
/// do: Up (like `k`) to the previous preset, stopping at the first, Down (like
/// `j`) to the next, stopping at the last; nothing else changes and nothing is
/// started.
pub proof fn law_scope_arrows_move_preset(before: App, after: App, event: KeyEvent, action: Action)
    requires
        before.screen == Screen::Scope,
        event.press,
        event.key == Key::Up || event.key == Key::Down,
        key_step(before, after, event, action),
    ensures
        action is Nothing,
        after == (App {
            preset: if event.key == Key::Up {
                if before.preset == 0 {
                    0
                } else {
                    (before.preset - 1) as usize
                }
            } else if before.preset + 1 <= PRESET_COUNT - 1 {
                (before.preset + 1) as usize
            } else {
                (PRESET_COUNT - 1) as usize
            },
            ..before
        }),
{
}

} // verus!
