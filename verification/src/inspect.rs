//! Inspect stage: keep a report per host up to date as probe results stream in.
//!
//! Probing is asynchronous I/O and runs outside the library. The decisions it
//! makes are here: how a report absorbs an open port, a TTL or a banner, which
//! probes to start when a port is found open, and when the stage is finished.

use vstd::prelude::*;

use crate::fingerprint::{guess_os, os_guess, parse_service};
use crate::text::{chars_of, same};
use crate::types::{HostReport, OsGuess, Service};
use std::collections::BTreeMap;

verus! {

broadcast use {vstd::std_specs::btree::group_btree_axioms, vstd::laws_cmp::group_laws_cmp};

// ---------------------------------------------------------------------------
// Report views and ordering
// ---------------------------------------------------------------------------

/// What a [`HostReport`] holds, with its vectors as sequences.
pub struct ReportView {
    pub host: u32,
    pub ttl: Option<u8>,
    pub os: Option<OsGuess>,
    pub open_ports: Seq<u16>,
    pub services: Seq<Service>,
}

impl View for HostReport {
    type V = ReportView;

    open spec fn view(&self) -> ReportView {
        ReportView {
            host: self.host,
            ttl: self.ttl,
            os: self.os,
            open_ports: self.open_ports@,
            services: self.services@,
        }
    }
}

/// Lexicographic order of texts by code point (the order of `str`'s `<`).
pub open spec fn text_less(a: Seq<char>, b: Seq<char>) -> bool
    decreases a.len(),
{
    if a.len() == 0 {
        b.len() > 0
    } else if b.len() == 0 {
        false
    } else if a[0] != b[0] {
        a[0] < b[0]
    } else {
        text_less(a.drop_first(), b.drop_first())
    }
}

pub proof fn lemma_text_less_irreflexive(a: Seq<char>)
    ensures
        !text_less(a, a),
    decreases a.len(),
{
    if a.len() > 0 {
        lemma_text_less_irreflexive(a.drop_first());
    }
}

pub proof fn lemma_text_less_transitive(a: Seq<char>, b: Seq<char>, c: Seq<char>)
    requires
        text_less(a, b),
        text_less(b, c),
    ensures
        text_less(a, c),
    decreases a.len(),
{
    if a.len() > 0 && b.len() > 0 && c.len() > 0 && a[0] == b[0] && b[0] == c[0] {
        lemma_text_less_transitive(a.drop_first(), b.drop_first(), c.drop_first());
    }
}

pub proof fn lemma_text_less_total(a: Seq<char>, b: Seq<char>)
    ensures
        a == b || text_less(a, b) || text_less(b, a),
    decreases a.len(),
{
    if a.len() > 0 && b.len() > 0 && a[0] == b[0] {
        lemma_text_less_total(a.drop_first(), b.drop_first());
        if a.drop_first() == b.drop_first() {
            assert(a =~= seq![a[0]] + a.drop_first());
            assert(b =~= seq![b[0]] + b.drop_first());
        }
    } else if a.len() == 0 && b.len() == 0 {
        assert(a =~= b);
    }
}

/// Services are ordered by port, then by banner.
pub open spec fn service_less(a: Service, b: Service) -> bool {
    a.port < b.port || (a.port == b.port && text_less(a.banner@, b.banner@))
}

/// Ports in strictly increasing order (sorted, no duplicates).
pub open spec fn ports_sorted(ports: Seq<u16>) -> bool {
    forall|i: int, j: int| 0 <= i < j < ports.len() ==> ports[i] < ports[j]
}

/// Services in strictly increasing (port, banner) order.
pub open spec fn services_sorted(services: Seq<Service>) -> bool {
    forall|i: int, j: int| 0 <= i < j < services.len() ==> service_less(services[i], services[j])
}

/// Some service has this port and banner.
pub open spec fn has_service(services: Seq<Service>, port: u16, banner: Seq<char>) -> bool {
    exists|i: int|
        0 <= i < services.len() && (#[trigger] services[i]).port == port && services[i].banner@
            == banner
}

/// `after` is `before` with `port` added: unchanged if it was there, inserted at
/// some position otherwise.
pub open spec fn port_added(before: Seq<u16>, after: Seq<u16>, port: u16) -> bool {
    &&& before.contains(port) ==> after == before
    &&& !before.contains(port) ==> exists|pos: int|
        0 <= pos <= before.len() && after == before.insert(pos, port)
}

/// `after` is `before` with the service parsed from `banner` on `port` added:
/// unchanged if that port and banner were there, inserted at some position otherwise.
pub open spec fn service_added(
    before: Seq<Service>,
    after: Seq<Service>,
    port: u16,
    banner: Seq<char>,
) -> bool {
    &&& has_service(before, port, banner) ==> after == before
    &&& !has_service(before, port, banner) ==> exists|pos: int, s: Service|
        0 <= pos <= before.len() && s.parsed_from(port, banner) && after == before.insert(pos, s)
}

impl ReportView {
    /// Ports sorted and distinct; services sorted by (port, banner) and distinct,
    /// each the parse of its own banner; the OS guess the one its TTL and banners give.
    pub open spec fn well_formed(self) -> bool {
        &&& ports_sorted(self.open_ports)
        &&& services_sorted(self.services)
        &&& forall|i: int|
            0 <= i < self.services.len() ==> (#[trigger] self.services[i]).parsed_from(
                self.services[i].port,
                self.services[i].banner@,
            )
        &&& self.os == os_guess(self.ttl, self.services)
    }
}

/// A report for a host about which nothing is known yet.
pub fn empty_report(host: u32) -> (r: HostReport)
    ensures
        r@.host == host,
        r@.ttl is None,
        r@.os is None,
        r@.open_ports == Seq::<u16>::empty(),
        r@.services == Seq::<Service>::empty(),
        r@.well_formed(),
{
    let r = HostReport {
        host,
        ttl: None,
        os: None,
        open_ports: Vec::new(),
        services: Vec::new(),
    };
    r
}

/// Insert a port keeping `open_ports` sorted and deduplicated.
pub fn insert_port(report: &mut HostReport, port: u16)
    requires
        ports_sorted(old(report)@.open_ports),
    ensures
        ports_sorted(final(report)@.open_ports),
        port_added(old(report)@.open_ports, final(report)@.open_ports, port),
        final(report)@.host == old(report)@.host,
        final(report)@.ttl == old(report)@.ttl,
        final(report)@.os == old(report)@.os,
        final(report)@.services == old(report)@.services,
{
    insert_sorted_port(&mut report.open_ports, port);
}

/// Insert a port into a sorted, duplicate-free list, keeping it so.
pub fn insert_sorted_port(ports: &mut Vec<u16>, port: u16)
    requires
        ports_sorted(old(ports)@),
    ensures
        ports_sorted(final(ports)@),
        port_added(old(ports)@, final(ports)@, port),
        forall|p: u16| final(ports)@.contains(p) <==> (old(ports)@.contains(p) || p == port),
{
    let n = ports.len();
    let mut k: usize = 0;
    while k < n && ports[k] < port
        invariant
            k <= n,
            n == ports.len(),
            forall|m: int| 0 <= m < k ==> ports@[m] < port,
        decreases n - k,
    {
        k += 1;
    }
    if k < n && ports[k] == port {
        assert(ports@[k as int] == port);
        return;
    }
    proof {
        assert forall|m: int| 0 <= m < n implies ports@[m] != port by {
            if m > k {
                assert(ports@[k as int] < ports@[m]);
            }
        }
    }
    let ghost before = ports@;
    ports.insert(k, port);
    proof {
        let after = ports@;
        assert(after == before.insert(k as int, port));
        let less = |a: u16, b: u16| a < b;
        lemma_insert_keeps_sorted(before, k as int, port, less);
        assert forall|i: int, j: int| 0 <= i < j < after.len() implies after[i] < after[j] by {
            assert(less(after[i], after[j]));
        }
        assert(!before.contains(port));
        lemma_insert_contains(before, k as int, port);
    }
}

/// Inserting an element where it belongs keeps a sequence sorted by a
/// transitive order: after everything before the insertion point, before what
/// stood there.
pub proof fn lemma_insert_keeps_sorted<A>(s: Seq<A>, k: int, x: A, less: spec_fn(A, A) -> bool)
    requires
        0 <= k <= s.len(),
        forall|a: A, b: A, c: A| #[trigger] less(a, b) && #[trigger] less(b, c) ==> less(a, c),
        forall|i: int, j: int| 0 <= i < j < s.len() ==> less(s[i], s[j]),
        forall|m: int| 0 <= m < k ==> less(s[m], x),
        k < s.len() ==> less(x, s[k]),
    ensures
        forall|i: int, j: int|
            0 <= i < j < s.len() + 1 ==> less(s.insert(k, x)[i], s.insert(k, x)[j]),
{
    let t = s.insert(k, x);
    assert forall|i: int, j: int| 0 <= i < j < s.len() + 1 implies less(t[i], t[j]) by {
        if j < k {
            assert(t[i] == s[i] && t[j] == s[j]);
        } else if j == k {
            assert(t[i] == s[i]);
        } else if i < k {
            assert(t[i] == s[i] && t[j] == s[j - 1]);
            if k < j - 1 {
                assert(less(s[k], s[j - 1]));
                assert(less(x, s[j - 1]));
            }
            assert(less(x, s[j - 1]));
        } else if i == k {
            assert(t[j] == s[j - 1]);
            if k < j - 1 {
                assert(less(s[k], s[j - 1]));
            }
        } else {
            assert(t[i] == s[i - 1] && t[j] == s[j - 1]);
        }
    }
}

/// What inserting into a sequence adds to its elements.
pub proof fn lemma_insert_contains<A>(s: Seq<A>, pos: int, x: A)
    requires
        0 <= pos <= s.len(),
    ensures
        forall|y: A| s.insert(pos, x).contains(y) <==> (s.contains(y) || y == x),
{
    let t = s.insert(pos, x);
    assert forall|y: A| t.contains(y) <==> (s.contains(y) || y == x) by {
        if t.contains(y) {
            let i = choose|i: int| 0 <= i < t.len() && t[i] == y;
            if i < pos {
                assert(s[i] == y);
            } else if i > pos {
                assert(s[i - 1] == y);
            }
        }
        if s.contains(y) {
            let i = choose|i: int| 0 <= i < s.len() && s[i] == y;
            if i < pos {
                assert(t[i] == y);
            } else {
                assert(t[i + 1] == y);
            }
        }
        if y == x {
            assert(t[pos] == x);
        }
    }
}

fn precedes(s: &Service, port: u16, text: &[char]) -> (r: bool)
    ensures
        r == (s.port < port || (s.port == port && text_less(s.banner@, text@))),
{
    if s.port < port {
        return true;
    }
    if s.port > port {
        return false;
    }
    let existing = chars_of(s.banner.as_str());
    text_less_exec(existing.as_slice(), text)
}

pub fn text_less_exec(a: &[char], b: &[char]) -> (r: bool)
    ensures
        r == text_less(a@, b@),
{
    let mut i: usize = 0;
    proof {
        assert(a@.skip(0) =~= a@);
        assert(b@.skip(0) =~= b@);
    }
    while i < a.len() && i < b.len() && a[i] == b[i]
        invariant
            i <= a.len(),
            i <= b.len(),
            text_less(a@, b@) == text_less(a@.skip(i as int), b@.skip(i as int)),
        decreases a.len() - i,
    {
        proof {
            assert(a@.skip(i as int)[0] == a@[i as int]);
            assert(b@.skip(i as int)[0] == b@[i as int]);
            assert(a@.skip(i as int).drop_first() =~= a@.skip(i + 1));
            assert(b@.skip(i as int).drop_first() =~= b@.skip(i + 1));
        }
        i += 1;
    }
    proof {
        if i < a.len() {
            assert(a@.skip(i as int)[0] == a@[i as int]);
        }
        if i < b.len() {
            assert(b@.skip(i as int)[0] == b@[i as int]);
        }
    }
    if i == a.len() {
        i < b.len()
    } else if i == b.len() {
        false
    } else {
        a[i] < b[i]
    }
}

/// Insert the service parsed from `banner` on `port`, keeping `services` sorted by
/// (port, banner) and deduplicated: a port and banner already present leave the
/// list unchanged.
pub fn insert_service(report: &mut HostReport, port: u16, banner: String)
    requires
        services_sorted(old(report)@.services),
    ensures
        services_sorted(final(report)@.services),
        service_added(old(report)@.services, final(report)@.services, port, banner@),
        final(report)@.host == old(report)@.host,
        final(report)@.ttl == old(report)@.ttl,
        final(report)@.os == old(report)@.os,
        final(report)@.open_ports == old(report)@.open_ports,
{
    let text = chars_of(banner.as_str());
    let n = report.services.len();
    let mut k: usize = 0;
    while k < n && precedes(&report.services[k], port, text.as_slice())
        invariant
            k <= n,
            n == report.services.len(),
            text@ == banner@,
            forall|m: int|
                0 <= m < k ==> (report.services@[m].port < port || (report.services@[m].port
                    == port && text_less(report.services@[m].banner@, banner@))),
        decreases n - k,
    {
        k += 1;
    }
    let ghost before = report.services@;
    if k < n {
        let s = &report.services[k];
        let existing = chars_of(s.banner.as_str());
        if s.port == port && same(existing.as_slice(), text.as_slice()) {
            return;
        }
    }
    proof {
        assert forall|m: int| 0 <= m < n implies !(before[m].port == port && before[m].banner@
            == banner@) by {
            lemma_text_less_irreflexive(banner@);
            if m >= k && before[m].port == port && before[m].banner@ == banner@ {
                if m > k {
                    assert(service_less(before[k as int], before[m]));
                }
            }
        }
    }
    let service = parse_service(port, banner.as_str());
    let ghost new = service;
    report.services.insert(k, service);
    proof {
        let after = report.services@;
        assert(after == before.insert(k as int, new));
        assert(new.port == port && new.banner@ == banner@);
        if k < n {
            // The element at the insertion point is greater than the new one.
            let e = before[k as int];
            lemma_text_less_total(e.banner@, banner@);
            assert(service_less(new, e));
        }
        let less = |a: Service, b: Service| service_less(a, b);
        assert forall|a: Service, b: Service, c: Service| #[trigger] less(a, b) && #[trigger] less(
            b,
            c,
        ) implies less(a, c) by {
            lemma_service_less_transitive(a, b, c);
        }
        lemma_insert_keeps_sorted(before, k as int, new, less);
        assert forall|i: int, j: int| 0 <= i < j < after.len() implies service_less(
            after[i],
            after[j],
        ) by {
            assert(less(after[i], after[j]));
        }
        assert(!has_service(before, port, banner@));
    }
}

pub proof fn lemma_service_less_transitive(a: Service, b: Service, c: Service)
    requires
        service_less(a, b),
        service_less(b, c),
    ensures
        service_less(a, c),
{
    if a.port == b.port && b.port == c.port {
        lemma_text_less_transitive(a.banner@, b.banner@, c.banner@);
    }
}

// ---------------------------------------------------------------------------
// Enrichment
// ---------------------------------------------------------------------------

/// A result from one of the per-host/per-port enrichment probes.
pub enum Enrich {
    /// The TTL a host answered `ping` with, if it answered.
    Ttl(u32, Option<u8>),
    /// The banner a host's port gave, if any.
    Service(u32, u16, Option<String>),
}

/// The view of a report about which nothing is known yet.
pub open spec fn empty_view(host: u32) -> ReportView {
    ReportView {
        host,
        ttl: None,
        os: None,
        open_ports: Seq::empty(),
        services: Seq::empty(),
    }
}

/// Every report is well formed and filed under its own host.
pub open spec fn book_well_formed(reports: Map<u32, HostReport>) -> bool {
    forall|ip: u32|
        #[trigger] reports.contains_key(ip) ==> reports[ip]@.well_formed() && reports[ip]@.host
            == ip
}

/// Every report lists its services sorted by (port, banner) and without
/// duplicates, as inserting a service assumes.
pub open spec fn book_sorted(reports: Map<u32, HostReport>) -> bool {
    forall|ip: u32| #[trigger] reports.contains_key(ip) ==> services_sorted(reports[ip]@.services)
}

/// `after` differs from `before` at most in the entry of `ip`.
pub open spec fn only_entry_changed(
    before: Map<u32, HostReport>,
    after: Map<u32, HostReport>,
    ip: u32,
) -> bool {
    &&& after.contains_key(ip)
    &&& after.remove(ip) == before.remove(ip)
}

/// What folding an enrichment result into the reports does: a TTL sets the host's
/// TTL, a banner adds the parsed service, and either refreshes the OS guess and
/// yields a snapshot of the changed report. A probe that found nothing, a host
/// without a report, the TTL the report already has, or a port and banner the
/// report already lists change nothing and yield nothing.
pub open spec fn enrichment_applied(
    before: Map<u32, HostReport>,
    after: Map<u32, HostReport>,
    result: Enrich,
    snapshot: Option<HostReport>,
) -> bool {
    match result {
        Enrich::Ttl(ip, Some(ttl)) if before.contains_key(ip) && before[ip]@.ttl != Some(ttl) => {
            let old_r = before[ip]@;
            let new_r = after[ip]@;
            &&& only_entry_changed(before, after, ip)
            &&& new_r == ReportView {
                ttl: Some(ttl),
                os: os_guess(Some(ttl), old_r.services),
                ..old_r
            }
            &&& snapshot matches Some(s) && s@ == new_r
        },
        Enrich::Service(ip, port, Some(banner)) if before.contains_key(ip) && !has_service(
            before[ip]@.services,
            port,
            banner@,
        ) => {
            let old_r = before[ip]@;
            let new_r = after[ip]@;
            &&& only_entry_changed(before, after, ip)
            &&& new_r.host == old_r.host
            &&& new_r.ttl == old_r.ttl
            &&& new_r.open_ports == old_r.open_ports
            &&& service_added(old_r.services, new_r.services, port, banner@)
            &&& new_r.os == os_guess(new_r.ttl, new_r.services)
            &&& snapshot matches Some(s) && s@ == new_r
        },
        _ => after == before && snapshot is None,
    }
}

/// Whether a service with this port and banner is listed.
fn holds_service(services: &[Service], port: u16, text: &[char]) -> (r: bool)
    ensures
        r == has_service(services@, port, text@),
{
    let mut i: usize = 0;
    while i < services.len()
        invariant
            i <= services.len(),
            forall|m: int|
                0 <= m < i ==> !((#[trigger] services@[m]).port == port && services@[m].banner@
                    == text@),
        decreases services.len() - i,
    {
        let s = &services[i];
        if s.port == port && same(chars_of(s.banner.as_str()).as_slice(), text) {
            assert(services@[i as int].port == port && services@[i as int].banner@ == text@);
            return true;
        }
        i += 1;
    }
    false
}

/// Fold an enrichment result into its host's report, returning a fresh snapshot
/// when it actually changed something. The reports' service lists must be sorted
/// and without duplicates, as inserting a service assumes; reports that are well
/// formed stay so.
pub fn apply_enrichment(reports: &mut BTreeMap<u32, HostReport>, result: Enrich) -> (r: Option<
    HostReport,
>)
    requires
        book_sorted(old(reports)@),
    ensures
        book_sorted(final(reports)@),
        book_well_formed(old(reports)@) ==> book_well_formed(final(reports)@),
        enrichment_applied(old(reports)@, final(reports)@, result, r),
{
    let ghost before = reports@;
    match result {
        Enrich::Ttl(ip, Some(ttl)) => {
            let unchanged = match reports.get(&ip) {
                Some(report) => match report.ttl {
                    Some(t) => t == ttl,
                    None => false,
                },
                None => true,
            };
            if unchanged {
                return None;
            }
            let mut report = match reports.remove(&ip) {
                Some(report) => report,
                None => {
                    assert(reports@ =~= before);
                    return None;
                },
            };
            report.ttl = Some(ttl);
            report.os = guess_os(report.ttl, report.services.as_slice());
            let snapshot = report.clone();
            reports.insert(ip, report);
            proof {
                assert(reports@.remove(ip) =~= before.remove(ip));
                assert(snapshot@ == reports@[ip]@);
                assert forall|k: u32| #[trigger] reports@.contains_key(k) implies services_sorted(
                    reports@[k]@.services,
                ) by {
                    if k != ip {
                        assert(before.contains_key(k));
                    }
                }
                if book_well_formed(before) {
                    assert forall|k: u32| #[trigger] reports@.contains_key(k) implies reports@[
                        k
                    ]@.well_formed() && reports@[k]@.host == k by {
                        if k != ip {
                            assert(before.contains_key(k));
                        }
                    }
                }
            }
            Some(snapshot)
        },
        Enrich::Service(ip, port, Some(banner)) => {
            let unchanged = match reports.get(&ip) {
                Some(report) => {
                    let text = chars_of(banner.as_str());
                    holds_service(report.services.as_slice(), port, text.as_slice())
                },
                None => true,
            };
            if unchanged {
                return None;
            }
            let mut report = match reports.remove(&ip) {
                Some(report) => report,
                None => {
                    assert(reports@ =~= before);
                    return None;
                },
            };
            let ghost old_r = report@;
            insert_service(&mut report, port, banner);
            report.os = guess_os(report.ttl, report.services.as_slice());
            proof {
                if book_well_formed(before) {
                    lemma_service_added_parsed(old_r.services, report@.services, port, banner@);
                }
            }
            let snapshot = report.clone();
            reports.insert(ip, report);
            proof {
                assert(reports@.remove(ip) =~= before.remove(ip));
                assert forall|k: u32| #[trigger] reports@.contains_key(k) implies services_sorted(
                    reports@[k]@.services,
                ) by {
                    if k != ip {
                        assert(before.contains_key(k));
                    }
                }
                if book_well_formed(before) {
                    assert forall|k: u32| #[trigger] reports@.contains_key(k) implies reports@[
                        k
                    ]@.well_formed() && reports@[k]@.host == k by {
                        if k != ip {
                            assert(before.contains_key(k));
                        }
                    }
                }
            }
            Some(snapshot)
        },
        Enrich::Ttl(_, None) => None,
        Enrich::Service(_, _, None) => None,
    }
}

/// Adding a parsed service keeps every service the parse of its own banner.
proof fn lemma_service_added_parsed(
    before: Seq<Service>,
    after: Seq<Service>,
    port: u16,
    banner: Seq<char>,
)
    requires
        service_added(before, after, port, banner),
        forall|i: int|
            0 <= i < before.len() ==> (#[trigger] before[i]).parsed_from(
                before[i].port,
                before[i].banner@,
            ),
    ensures
        forall|i: int|
            0 <= i < after.len() ==> (#[trigger] after[i]).parsed_from(
                after[i].port,
                after[i].banner@,
            ),
{
    if !has_service(before, port, banner) {
        let (pos, s) = choose|pos: int, s: Service|
            0 <= pos <= before.len() && s.parsed_from(port, banner) && after == before.insert(
                pos,
                s,
            );
        assert forall|i: int| 0 <= i < after.len() implies (#[trigger] after[i]).parsed_from(
            after[i].port,
            after[i].banner@,
        ) by {
            if i < pos {
                assert(after[i] == before[i]);
            } else if i > pos {
                assert(after[i] == before[i - 1]);
            }
        }
    }
}

// ---------------------------------------------------------------------------
// Coordination of the stage
// ---------------------------------------------------------------------------

/// The state of an Inspect run: the report per host, how many enrichment probes
/// are still in flight, and whether the live sweep is still running.
pub struct Coordinator {
    reports: BTreeMap<u32, HostReport>,
    pending: usize,
    sweeping: bool,
}

/// What a [`Coordinator`] holds.
pub struct CoordinatorView {
    pub reports: Map<u32, HostReport>,
    pub pending: nat,
    pub sweeping: bool,
}

impl View for Coordinator {
    type V = CoordinatorView;

    closed spec fn view(&self) -> CoordinatorView {
        CoordinatorView {
            reports: self.reports@,
            pending: self.pending as nat,
            sweeping: self.sweeping,
        }
    }
}

/// What an open port calls for: a service probe for the port (always), a TTL
/// probe for the host on its first sighting, and the host's report to hand on
/// when it changed.
pub struct LiveAction {
    /// A snapshot of the host's report, when the port was new to it.
    pub snapshot: Option<HostReport>,
    /// Whether to probe the host's TTL: only on its first sighting.
    pub probe_ttl: bool,
}

/// What a live-sweep result does to an Inspect run. A closed port changes
/// nothing and calls for nothing. An open port counts a service probe for the
/// port and, on the host's first sighting, a TTL probe for the host. A port the
/// host's report already lists changes nothing else; any other open port is
/// added to the host's report (a new, empty report on a first sighting), and a
/// snapshot of the changed report is handed on.
pub open spec fn live_step(
    before: CoordinatorView,
    after: CoordinatorView,
    ip: u32,
    port: u16,
    open: bool,
    r: Option<LiveAction>,
) -> bool {
    &&& after.sweeping == before.sweeping
    &&& !open ==> after == before && r is None
    &&& open ==> {
        let first = !before.reports.contains_key(ip);
        let known = !first && before.reports[ip]@.open_ports.contains(port);
        let base = if first {
            empty_view(ip)
        } else {
            before.reports[ip]@
        };
        let entry = after.reports[ip]@;
        &&& match r {
            Some(action) => {
                &&& action.probe_ttl == first
                &&& known ==> action.snapshot is None
                &&& !known ==> (action.snapshot matches Some(snapshot) && snapshot@ == entry)
            },
            None => false,
        }
        &&& known ==> after.reports == before.reports
        &&& !known ==> {
            &&& only_entry_changed(before.reports, after.reports, ip)
            &&& entry == ReportView { open_ports: entry.open_ports, ..base }
            &&& port_added(base.open_ports, entry.open_ports, port)
        }
        &&& after.pending == before.pending + if first {
            2nat
        } else {
            1nat
        }
    }
}

/// What a finished enrichment probe does to an Inspect run: one fewer probe is
/// pending and its result is folded into the reports.
pub open spec fn enrich_step(
    before: CoordinatorView,
    after: CoordinatorView,
    result: Enrich,
    snapshot: Option<HostReport>,
) -> bool {
    &&& after.sweeping == before.sweeping
    &&& after.pending == before.pending - 1
    &&& enrichment_applied(before.reports, after.reports, result, snapshot)
}

/// What the end of the live sweep does to an Inspect run.
pub open spec fn sweep_end_step(before: CoordinatorView, after: CoordinatorView) -> bool {
    after == CoordinatorView { sweeping: false, ..before }
}

/// Whether a port is among the listed ones.
fn lists_port(ports: &[u16], port: u16) -> (r: bool)
    ensures
        r == ports@.contains(port),
{
    let mut i: usize = 0;
    while i < ports.len()
        invariant
            i <= ports.len(),
            forall|m: int| 0 <= m < i ==> ports@[m] != port,
        decreases ports.len() - i,
    {
        if ports[i] == port {
            assert(ports@[i as int] == port);
            return true;
        }
        i += 1;
    }
    false
}

impl Coordinator {
    /// Every report is well formed and filed under its own host.
    #[verifier::type_invariant]
    spec fn reports_well_formed(self) -> bool {
        book_well_formed(self.reports@)
    }

    /// A run that has seen nothing yet, with the sweep running.
    pub fn new() -> (r: Coordinator)
        ensures
            book_well_formed(r@.reports),
            r@.reports == Map::<u32, HostReport>::empty(),
            r@.pending == 0,
            r@.sweeping,
    {
        Coordinator { reports: BTreeMap::new(), pending: 0, sweeping: true }
    }

    /// Done once the sweep has finished and no enrichment is outstanding.
    pub fn finished(&self) -> (r: bool)
        ensures
            r == (!self@.sweeping && self@.pending == 0),
    {
        !self.sweeping && self.pending == 0
    }

    /// Whether the live sweep is still running.
    pub fn is_sweeping(&self) -> (r: bool)
        ensures
            r == self@.sweeping,
    {
        self.sweeping
    }

    /// The number of enrichment probes in flight.
    pub fn pending(&self) -> (r: usize)
        ensures
            r == self@.pending,
    {
        self.pending
    }

    /// The sweep has reported every target.
    pub fn on_sweep_done(&mut self)
        ensures
            sweep_end_step(old(self)@, final(self)@),
    {
        proof {
            use_type_invariant(&*self);
        }
        self.sweeping = false;
    }

    /// A live-sweep result. An open port calls for a service probe for the port
    /// and, on the host's first sighting, a TTL probe for the host; each counts as
    /// one pending probe. A port new to the host's report is added to it and a
    /// snapshot of the report comes back. A closed port changes nothing.
    pub fn on_live(&mut self, ip: u32, port: u16, open: bool) -> (r: Option<LiveAction>)
        requires
            old(self)@.pending + 2 <= usize::MAX,
        ensures
            book_well_formed(final(self)@.reports),
            live_step(old(self)@, final(self)@, ip, port, open, r),
    {
        proof {
            use_type_invariant(&*self);
        }
        if !open {
            return None;
        }
        let known = match self.reports.get(&ip) {
            Some(report) => lists_port(report.open_ports.as_slice(), port),
            None => false,
        };
        if known {
            self.pending = self.pending + 1;
            return Some(LiveAction { snapshot: None, probe_ttl: false });
        }
        let mut reports: BTreeMap<u32, HostReport> = BTreeMap::new();
        std::mem::swap(&mut reports, &mut self.reports);
        let ghost before = reports@;
        let (mut report, first) = match reports.remove(&ip) {
            Some(report) => (report, false),
            None => (empty_report(ip), true),
        };
        proof {
            if !first {
                assert(before.contains_key(ip));
            }
        }
        insert_port(&mut report, port);
        let snapshot = report.clone();
        reports.insert(ip, report);
        proof {
            assert(reports@.remove(ip) =~= before.remove(ip));
            assert(book_well_formed(reports@)) by {
                assert forall|k: u32| #[trigger] reports@.contains_key(k) implies reports@[
                    k
                ]@.well_formed() && reports@[k]@.host == k by {
                    if k != ip {
                        assert(before.contains_key(k));
                    }
                }
            }
        }
        self.reports = reports;
        if first {
            self.pending = self.pending + 2;
        } else {
            self.pending = self.pending + 1;
        }
        Some(LiveAction { snapshot: Some(snapshot), probe_ttl: first })
    }

    /// An enrichment probe finished: one fewer is pending, and its result is folded
    /// into the host's report; a snapshot comes back when the report changed.
    pub fn on_enrich(&mut self, result: Enrich) -> (r: Option<HostReport>)
        requires
            old(self)@.pending > 0,
        ensures
            book_well_formed(final(self)@.reports),
            enrich_step(old(self)@, final(self)@, result, r),
    {
        proof {
            use_type_invariant(&*self);
        }
        let mut reports: BTreeMap<u32, HostReport> = BTreeMap::new();
        std::mem::swap(&mut reports, &mut self.reports);
        self.pending = self.pending - 1;
        let r = apply_enrichment(&mut reports, result);
        self.reports = reports;
        r
    }
}

} // verus!
