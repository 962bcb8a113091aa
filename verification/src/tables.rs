//! The rows of the result tables: open ports grouped per host, and the
//! discovery summary that joins open ports, ping TTLs and service banners by
//! host. Drawing the tables happens outside the library.

use vstd::prelude::*;

use crate::format::texts;
use crate::inspect::{
    insert_sorted_port, lemma_insert_contains, lemma_insert_keeps_sorted, lemma_text_less_total,
    lemma_text_less_transitive, ports_sorted, text_less, text_less_exec,
};
use crate::text::{chars_of, decimal, push_decimal, push_str, same};

verus! {

// ---------------------------------------------------------------------------
// Sorted, duplicate-free collections
// ---------------------------------------------------------------------------

/// Addresses in strictly increasing order.
pub open spec fn addresses_sorted(s: Seq<u32>) -> bool {
    forall|i: int, j: int| 0 <= i < j < s.len() ==> s[i] < s[j]
}

/// Texts in strictly increasing order (the order of `str`'s `<`).
pub open spec fn texts_sorted(s: Seq<Seq<char>>) -> bool {
    forall|i: int, j: int| 0 <= i < j < s.len() ==> text_less(s[i], s[j])
}

/// Insert an address into a sorted, duplicate-free list, keeping it so.
fn insert_address(v: &mut Vec<u32>, x: u32)
    requires
        addresses_sorted(old(v)@),
    ensures
        addresses_sorted(final(v)@),
        forall|y: u32| final(v)@.contains(y) <==> (old(v)@.contains(y) || y == x),
{
    let n = v.len();
    let mut k: usize = 0;
    while k < n && v[k] < x
        invariant
            k <= n,
            n == v.len(),
            forall|m: int| 0 <= m < k ==> v@[m] < x,
        decreases n - k,
    {
        k += 1;
    }
    if k < n && v[k] == x {
        assert(v@[k as int] == x);
        return;
    }
    let ghost before = v@;
    v.insert(k, x);
    proof {
        let after = v@;
        let less = |a: u32, b: u32| a < b;
        lemma_insert_keeps_sorted(before, k as int, x, less);
        assert forall|i: int, j: int| 0 <= i < j < after.len() implies after[i] < after[j] by {
            assert(less(after[i], after[j]));
        }
        lemma_insert_contains(before, k as int, x);
    }
}

/// Insert a text into a sorted, duplicate-free list of strings, keeping it so.
fn insert_text(v: &mut Vec<String>, s: String)
    requires
        texts_sorted(texts(old(v)@)),
    ensures
        texts_sorted(texts(final(v)@)),
        forall|t: Seq<char>| texts(final(v)@).contains(t) <==> (texts(old(v)@).contains(t) || t == s@),
{
    let text = chars_of(s.as_str());
    let n = v.len();
    let ghost before = texts(v@);
    let mut k: usize = 0;
    while k < n && text_less_exec(chars_of(v[k].as_str()).as_slice(), text.as_slice())
        invariant
            k <= n,
            n == v.len(),
            before == texts(v@),
            text@ == s@,
            forall|m: int| 0 <= m < k ==> text_less(before[m], s@),
        decreases n - k,
    {
        k += 1;
    }
    if k < n && same(chars_of(v[k].as_str()).as_slice(), text.as_slice()) {
        assert(before[k as int] == s@);
        return;
    }
    proof {
        if k < n {
            lemma_text_less_total(before[k as int], s@);
        }
    }
    v.insert(k, s);
    proof {
        let after = texts(v@);
        assert(after =~= before.insert(k as int, s@));
        let less = |a: Seq<char>, b: Seq<char>| text_less(a, b);
        assert forall|a: Seq<char>, b: Seq<char>, c: Seq<char>| #[trigger] less(a, b)
            && #[trigger] less(b, c) implies less(a, c) by {
            lemma_text_less_transitive(a, b, c);
        }
        lemma_insert_keeps_sorted(before, k as int, s@, less);
        assert forall|i: int, j: int| 0 <= i < j < after.len() implies text_less(
            after[i],
            after[j],
        ) by {
            assert(less(after[i], after[j]));
        }
        lemma_insert_contains(before, k as int, s@);
    }
}

// ---------------------------------------------------------------------------
// What the results say of a host
// ---------------------------------------------------------------------------

/// Some open-port result among the first `n` is for `host`.
pub open spec fn open_has_host(open: Seq<(u32, u16)>, host: u32, n: int) -> bool {
    exists|j: int| 0 <= j < n && (#[trigger] open[j]).0 == host
}

/// Some TTL result among the first `n` is for `host`.
pub open spec fn ttls_have_host(ttls: Seq<(u32, u8)>, host: u32, n: int) -> bool {
    exists|j: int| 0 <= j < n && (#[trigger] ttls[j]).0 == host
}

/// Some service result among the first `n` is for `host`.
pub open spec fn found_has_host(found: Seq<(u32, u16, String)>, host: u32, n: int) -> bool {
    exists|j: int| 0 <= j < n && (#[trigger] found[j]).0 == host
}

/// The ports the first `n` open-port results give for `host`.
pub open spec fn ports_of(open: Seq<(u32, u16)>, host: u32, n: int) -> Set<u16> {
    Set::new(|p: u16| exists|j: int| 0 <= j < n && #[trigger] open[j] == (host, p))
}

/// The TTL the last of the first `n` TTL results for `host` gives, if any.
pub open spec fn last_ttl(ttls: Seq<(u32, u8)>, host: u32, n: int) -> Option<u8>
    decreases n,
{
    if n <= 0 {
        None
    } else if ttls[n - 1].0 == host {
        Some(ttls[n - 1].1)
    } else {
        last_ttl(ttls, host, n - 1)
    }
}

/// A service cell entry: `port: info`.
pub open spec fn service_entry(port: u16, info: Seq<char>) -> Seq<char> {
    decimal(port as nat) + ": "@ + info
}

/// The service entries the first `n` service results give for `host`.
pub open spec fn entries_of(found: Seq<(u32, u16, String)>, host: u32, n: int) -> Set<Seq<char>> {
    Set::new(
        |t: Seq<char>|
            exists|j: int|
                0 <= j < n && (#[trigger] found[j]).0 == host && t == service_entry(
                    found[j].1,
                    found[j].2@,
                ),
    )
}

// ---------------------------------------------------------------------------
// Open ports per host
// ---------------------------------------------------------------------------

/// The ports open on `host`, sorted and without duplicates.
fn ports_for(open: &[(u32, u16)], host: u32) -> (r: Vec<u16>)
    ensures
        ports_sorted(r@),
        forall|p: u16| r@.contains(p) <==> ports_of(open@, host, open@.len() as int).contains(p),
{
    let mut out: Vec<u16> = Vec::new();
    let mut i: usize = 0;
    while i < open.len()
        invariant
            i <= open.len(),
            ports_sorted(out@),
            forall|p: u16| out@.contains(p) <==> ports_of(open@, host, i as int).contains(p),
        decreases open.len() - i,
    {
        let (h, port) = open[i];
        if h == host {
            insert_sorted_port(&mut out, port);
        }
        proof {
            assert forall|p: u16| out@.contains(p) <==> ports_of(open@, host, i + 1).contains(
                p,
            ) by {
                if ports_of(open@, host, i + 1).contains(p) {
                    let j = choose|j: int| 0 <= j < i + 1 && #[trigger] open@[j] == (host, p);
                    if j < i {
                        assert(ports_of(open@, host, i as int).contains(p));
                    }
                }
                if ports_of(open@, host, i as int).contains(p) {
                    let j = choose|j: int| 0 <= j < i && #[trigger] open@[j] == (host, p);
                    assert(open@[j] == (host, p));
                }
                if h == host && p == port {
                    assert(open@[i as int] == (host, p));
                }
            }
        }
        i += 1;
    }
    out
}

/// The addresses the open-port results name, added to a sorted, duplicate-free list.
fn add_open_hosts(open: &[(u32, u16)], start: Vec<u32>) -> (r: Vec<u32>)
    requires
        addresses_sorted(start@),
    ensures
        addresses_sorted(r@),
        forall|h: u32|
            r@.contains(h) <==> (start@.contains(h) || open_has_host(open@, h, open@.len() as int)),
{
    let ghost initial = start@;
    let mut hosts = start;
    let mut i: usize = 0;
    while i < open.len()
        invariant
            i <= open.len(),
            addresses_sorted(hosts@),
            forall|h: u32| #[trigger] hosts@.contains(h) <==> (initial.contains(h) || open_has_host(open@, h, i as int)),
        decreases open.len() - i,
    {
        let (h, _) = open[i];
        let ghost prior = hosts@;
        insert_address(&mut hosts, h);
        proof {
            assert forall|x: u32| open_has_host(open@, x, i + 1) <==> (open_has_host(open@, x, i as int) || x == h) by {
                if open_has_host(open@, x, i + 1) {
                    let j = choose|j: int| 0 <= j < i + 1 && (#[trigger] open@[j]).0 == x;
                    if j < i {
                        assert(open_has_host(open@, x, i as int));
                    }
                }
                if open_has_host(open@, x, i as int) {
                    let j = choose|j: int| 0 <= j < i && (#[trigger] open@[j]).0 == x;
                    assert(open@[j].0 == x);
                }
                if x == h {
                    assert(open@[i as int].0 == x);
                }
            }
            assert forall|x: u32| hosts@.contains(x) <==> (initial.contains(x) || open_has_host(
                open@,
                x,
                i + 1,
            )) by {
                assert(hosts@.contains(x) <==> (prior.contains(x) || x == h));
                assert(prior.contains(x) <==> (initial.contains(x) || open_has_host(open@, x, i as int)));
            }
        }
        i += 1;
    }
    hosts
}

/// The addresses the TTL results name, added to a sorted, duplicate-free list.
fn add_ttl_hosts(ttls: &[(u32, u8)], start: Vec<u32>) -> (r: Vec<u32>)
    requires
        addresses_sorted(start@),
    ensures
        addresses_sorted(r@),
        forall|h: u32|
            r@.contains(h) <==> (start@.contains(h) || ttls_have_host(ttls@, h, ttls@.len() as int)),
{
    let ghost initial = start@;
    let mut hosts = start;
    let mut i: usize = 0;
    while i < ttls.len()
        invariant
            i <= ttls.len(),
            addresses_sorted(hosts@),
            forall|h: u32| #[trigger] hosts@.contains(h) <==> (initial.contains(h) || ttls_have_host(ttls@, h, i as int)),
        decreases ttls.len() - i,
    {
        let (h, _) = ttls[i];
        let ghost prior = hosts@;
        insert_address(&mut hosts, h);
        proof {
            assert forall|x: u32| ttls_have_host(ttls@, x, i + 1) <==> (ttls_have_host(ttls@, x, i as int) || x == h) by {
                if ttls_have_host(ttls@, x, i + 1) {
                    let j = choose|j: int| 0 <= j < i + 1 && (#[trigger] ttls@[j]).0 == x;
                    if j < i {
                        assert(ttls_have_host(ttls@, x, i as int));
                    }
                }
                if ttls_have_host(ttls@, x, i as int) {
                    let j = choose|j: int| 0 <= j < i && (#[trigger] ttls@[j]).0 == x;
                    assert(ttls@[j].0 == x);
                }
                if x == h {
                    assert(ttls@[i as int].0 == x);
                }
            }
            assert forall|x: u32| hosts@.contains(x) <==> (initial.contains(x) || ttls_have_host(
                ttls@,
                x,
                i + 1,
            )) by {
                assert(hosts@.contains(x) <==> (prior.contains(x) || x == h));
                assert(prior.contains(x) <==> (initial.contains(x) || ttls_have_host(ttls@, x, i as int)));
            }
        }
        i += 1;
    }
    hosts
}

/// The addresses the service results name, added to a sorted, duplicate-free list.
fn add_found_hosts(found: &[(u32, u16, String)], start: Vec<u32>) -> (r: Vec<u32>)
    requires
        addresses_sorted(start@),
    ensures
        addresses_sorted(r@),
        forall|h: u32|
            r@.contains(h) <==> (start@.contains(h) || found_has_host(found@, h, found@.len() as int)),
{
    let ghost initial = start@;
    let mut hosts = start;
    let mut i: usize = 0;
    while i < found.len()
        invariant
            i <= found.len(),
            addresses_sorted(hosts@),
            forall|h: u32| #[trigger] hosts@.contains(h) <==> (initial.contains(h) || found_has_host(found@, h, i as int)),
        decreases found.len() - i,
    {
        let h = found[i].0;
        let ghost prior = hosts@;
        insert_address(&mut hosts, h);
        proof {
            assert forall|x: u32| found_has_host(found@, x, i + 1) <==> (found_has_host(found@, x, i as int) || x == h) by {
                if found_has_host(found@, x, i + 1) {
                    let j = choose|j: int| 0 <= j < i + 1 && (#[trigger] found@[j]).0 == x;
                    if j < i {
                        assert(found_has_host(found@, x, i as int));
                    }
                }
                if found_has_host(found@, x, i as int) {
                    let j = choose|j: int| 0 <= j < i && (#[trigger] found@[j]).0 == x;
                    assert(found@[j].0 == x);
                }
                if x == h {
                    assert(found@[i as int].0 == x);
                }
            }
            assert forall|x: u32| hosts@.contains(x) <==> (initial.contains(x) || found_has_host(
                found@,
                x,
                i + 1,
            )) by {
                assert(hosts@.contains(x) <==> (prior.contains(x) || x == h));
                assert(prior.contains(x) <==> (initial.contains(x) || found_has_host(found@, x, i as int)));
            }
        }
        i += 1;
    }
    hosts
}

/// Open ports grouped per host: one entry per host that has an open port, in
/// increasing address order, with its ports sorted and without duplicates.
pub fn group_open_ports(open: &[(u32, u16)]) -> (r: Vec<(u32, Vec<u16>)>)
    ensures
        forall|i: int, j: int| 0 <= i < j < r@.len() ==> r@[i].0 < r@[j].0,
        forall|h: u32|
            open_has_host(open@, h, open@.len() as int) <==> exists|k: int|
                0 <= k < r@.len() && (#[trigger] r@[k]).0 == h,
        forall|k: int|
            0 <= k < r@.len() ==> ports_sorted((#[trigger] r@[k]).1@) && forall|p: u16|
                r@[k].1@.contains(p) <==> ports_of(open@, r@[k].0, open@.len() as int).contains(p),
{
    let hosts = add_open_hosts(open, Vec::new());
    let mut out: Vec<(u32, Vec<u16>)> = Vec::new();
    let mut k: usize = 0;
    while k < hosts.len()
        invariant
            k <= hosts.len(),
            out@.len() == k,
            addresses_sorted(hosts@),
            forall|m: int| 0 <= m < k ==> (#[trigger] out@[m]).0 == hosts@[m],
            forall|m: int|
                0 <= m < k ==> ports_sorted((#[trigger] out@[m]).1@) && forall|p: u16|
                    out@[m].1@.contains(p) <==> ports_of(open@, out@[m].0, open@.len() as int).contains(p),
        decreases hosts.len() - k,
    {
        let host = hosts[k];
        let ports = ports_for(open, host);
        out.push((host, ports));
        k += 1;
    }
    proof {
        assert forall|h: u32|
            open_has_host(open@, h, open@.len() as int) <==> exists|m: int|
                0 <= m < out@.len() && (#[trigger] out@[m]).0 == h by {
            if open_has_host(open@, h, open@.len() as int) {
                assert(hosts@.contains(h));
                let m = choose|m: int| 0 <= m < hosts@.len() && hosts@[m] == h;
                assert(out@[m].0 == h);
            }
            if exists|m: int| 0 <= m < out@.len() && (#[trigger] out@[m]).0 == h {
                let m = choose|m: int| 0 <= m < out@.len() && (#[trigger] out@[m]).0 == h;
                assert(hosts@[m] == h);
                assert(hosts@.contains(h));
            }
        }
    }
    out
}

// ---------------------------------------------------------------------------
// The discovery summary
// ---------------------------------------------------------------------------

/// One row of the discovery summary.
pub struct DiscoveryRow {
    pub host: u32,
    /// The TTL of the host's last ping answer, if it answered.
    pub ttl: Option<u8>,
    /// Sorted, without duplicates.
    pub open_ports: Vec<u16>,
    /// `port: info` entries, sorted, without duplicates.
    pub services: Vec<String>,
}

/// The TTL the last ping answer of `host` gave, if any.
fn last_ttl_for(ttls: &[(u32, u8)], host: u32) -> (r: Option<u8>)
    ensures
        r == last_ttl(ttls@, host, ttls@.len() as int),
{
    let mut ttl: Option<u8> = None;
    let mut i: usize = 0;
    while i < ttls.len()
        invariant
            i <= ttls.len(),
            ttl == last_ttl(ttls@, host, i as int),
        decreases ttls.len() - i,
    {
        if ttls[i].0 == host {
            ttl = Some(ttls[i].1);
        }
        i += 1;
    }
    ttl
}

/// The `port: info` entries of `host`, sorted and without duplicates.
fn entries_for(found: &[(u32, u16, String)], host: u32) -> (r: Vec<String>)
    ensures
        texts_sorted(texts(r@)),
        forall|t: Seq<char>|
            #[trigger] texts(r@).contains(t) <==> entries_of(found@, host, found@.len() as int).contains(t),
{
    let mut out: Vec<String> = Vec::new();
    let mut i: usize = 0;
    while i < found.len()
        invariant
            i <= found.len(),
            texts_sorted(texts(out@)),
            forall|t: Seq<char>|
                #[trigger] texts(out@).contains(t) <==> entries_of(found@, host, i as int).contains(t),
        decreases found.len() - i,
    {
        let ghost prior = texts(out@);
        let ghost entry = service_entry(found@[i as int].1, found@[i as int].2@);
        if found[i].0 == host {
            let mut text = String::new();
            push_decimal(&mut text, found[i].1 as u64);
            push_str(&mut text, ": ");
            push_str(&mut text, found[i].2.as_str());
            assert(text@ =~= entry);
            insert_text(&mut out, text);
        }
        proof {
            assert forall|t: Seq<char>| #[trigger] texts(out@).contains(t) <==> entries_of(
                found@,
                host,
                i + 1,
            ).contains(t) by {
                if entries_of(found@, host, i + 1).contains(t) {
                    let j = choose|j: int|
                        0 <= j < i + 1 && (#[trigger] found@[j]).0 == host && t == service_entry(
                            found@[j].1,
                            found@[j].2@,
                        );
                    if j < i {
                        assert(entries_of(found@, host, i as int).contains(t));
                    }
                }
                if entries_of(found@, host, i as int).contains(t) {
                    let j = choose|j: int|
                        0 <= j < i && (#[trigger] found@[j]).0 == host && t == service_entry(
                            found@[j].1,
                            found@[j].2@,
                        );
                    assert(entries_of(found@, host, i + 1).contains(t));
                }
                if found@[i as int].0 == host && t == entry {
                    assert(entries_of(found@, host, i + 1).contains(t));
                }
                assert(prior.contains(t) <==> entries_of(found@, host, i as int).contains(t));
            }
        }
        i += 1;
    }
    out
}

/// What a row of the discovery summary says of its host: the TTL of its last
/// ping answer, its open ports and its service entries, each list sorted and
/// without duplicates.
pub open spec fn row_summarises(
    row: DiscoveryRow,
    open: Seq<(u32, u16)>,
    ttls: Seq<(u32, u8)>,
    found: Seq<(u32, u16, String)>,
) -> bool {
    &&& row.ttl == last_ttl(ttls, row.host, ttls.len() as int)
    &&& ports_sorted(row.open_ports@)
    &&& forall|p: u16|
        #[trigger] row.open_ports@.contains(p) <==> ports_of(open, row.host, open.len() as int).contains(p)
    &&& texts_sorted(texts(row.services@))
    &&& forall|t: Seq<char>|
        #[trigger] texts(row.services@).contains(t) <==> entries_of(found, row.host, found.len() as int).contains(t)
}

/// Whether any of the results names `host`.
pub open spec fn reported(
    open: Seq<(u32, u16)>,
    ttls: Seq<(u32, u8)>,
    found: Seq<(u32, u16, String)>,
    host: u32,
) -> bool {
    ||| open_has_host(open, host, open.len() as int)
    ||| ttls_have_host(ttls, host, ttls.len() as int)
    ||| found_has_host(found, host, found.len() as int)
}

/// Join the open ports, ping TTLs and service banners by host: one row per host
/// that any result names, in increasing address order.
pub fn discovery_rows(
    open: &[(u32, u16)],
    ttls: &[(u32, u8)],
    found: &[(u32, u16, String)],
) -> (r: Vec<DiscoveryRow>)
    ensures
        forall|i: int, j: int| 0 <= i < j < r@.len() ==> r@[i].host < r@[j].host,
        forall|h: u32|
            reported(open@, ttls@, found@, h) <==> exists|k: int|
                0 <= k < r@.len() && (#[trigger] r@[k]).host == h,
        forall|k: int| 0 <= k < r@.len() ==> row_summarises(#[trigger] r@[k], open@, ttls@, found@),
{
    let hosts = add_open_hosts(open, Vec::new());
    let hosts = add_ttl_hosts(ttls, hosts);
    let hosts = add_found_hosts(found, hosts);
    let mut rows: Vec<DiscoveryRow> = Vec::new();
    let mut k: usize = 0;
    while k < hosts.len()
        invariant
            k <= hosts.len(),
            rows@.len() == k,
            addresses_sorted(hosts@),
            forall|m: int| 0 <= m < k ==> (#[trigger] rows@[m]).host == hosts@[m],
            forall|m: int| 0 <= m < k ==> row_summarises(#[trigger] rows@[m], open@, ttls@, found@),
        decreases hosts.len() - k,
    {
        let host = hosts[k];
        let row = DiscoveryRow {
            host,
            ttl: last_ttl_for(ttls, host),
            open_ports: ports_for(open, host),
            services: entries_for(found, host),
        };
        rows.push(row);
        k += 1;
    }
    proof {
        assert forall|h: u32|
            reported(open@, ttls@, found@, h) <==> exists|m: int|
                0 <= m < rows@.len() && (#[trigger] rows@[m]).host == h by {
            if reported(open@, ttls@, found@, h) {
                assert(hosts@.contains(h));
                let m = choose|m: int| 0 <= m < hosts@.len() && hosts@[m] == h;
                assert(rows@[m].host == h);
            }
            if exists|m: int| 0 <= m < rows@.len() && (#[trigger] rows@[m]).host == h {
                let m = choose|m: int| 0 <= m < rows@.len() && (#[trigger] rows@[m]).host == h;
                assert(hosts@[m] == h);
                assert(hosts@.contains(h));
            }
        }
    }
    rows
}

} // verus!
