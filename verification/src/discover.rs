//! Discover stage: expand the local subnets into candidate hosts and pick out the
//! ones that answer the liveness sweep. Enumerating interfaces and touching ports
//! is I/O and happens outside the library.

use vstd::prelude::*;

use crate::target::{block_size, lemma_block_fits, lemma_two_pow_positive, two_pow};
use crate::inspect::lemma_insert_keeps_sorted;
use crate::types::{Host, Subnet};
use std::collections::{BTreeMap, BTreeSet};

verus! {

broadcast use {vstd::std_specs::btree::group_btree_axioms, vstd::laws_cmp::group_laws_cmp};

/// Ports TCP-touched to decide whether a host is live.
pub open spec fn liveness_ports() -> Seq<u16> {
    seq![22, 80, 443]
}

/// The ports TCP-touched to decide whether a host is live: a small common set that
/// keeps the sweep fast and needs no raw sockets.
pub fn liveness_ports_exec() -> (r: Vec<u16>)
    ensures
        r@ == liveness_ports(),
{
    let v = vec![22, 80, 443];
    assert(v@ =~= liveness_ports());
    v
}

/// Subnets with a prefix shorter than this are skipped during Discover.
pub open spec fn min_subnet_prefix() -> u8 {
    22
}

/// The first address of the subnet's block (its network address).
pub open spec fn network_of(subnet: Subnet) -> nat {
    ((subnet.addr as nat) - (subnet.addr as nat) % block_size(subnet.prefix_len)) as nat
}

/// The host addresses of a subnet, in order (`Ipv4Net::hosts`): the whole block,
/// without its network and broadcast addresses when the prefix is shorter than 31.
pub open spec fn subnet_hosts(subnet: Subnet) -> Seq<u32> {
    let net = network_of(subnet);
    let size = block_size(subnet.prefix_len);
    if subnet.prefix_len < 31 {
        Seq::new((size - 2) as nat, |i: int| (net + 1 + i) as u32)
    } else {
        Seq::new(size, |i: int| (net + i) as u32)
    }
}

/// The addresses tagged with their subnet, leaving out `local`.
pub open spec fn tagged(addrs: Seq<u32>, local: u32, subnet: Subnet) -> Seq<Host>
    decreases addrs.len(),
{
    if addrs.len() == 0 {
        Seq::empty()
    } else {
        let rest = tagged(addrs.drop_last(), local, subnet);
        if addrs.last() == local {
            rest
        } else {
            rest.push(Host { ip: addrs.last(), subnet })
        }
    }
}

/// The candidate hosts of the given subnets, in order: every host address of each
/// subnet with a prefix of at least 22 bits, tagged with that subnet, except the
/// interface's own address.
pub open spec fn candidates(nets: Seq<Subnet>) -> Seq<Host>
    decreases nets.len(),
{
    if nets.len() == 0 {
        Seq::empty()
    } else {
        let rest = candidates(nets.drop_last());
        let subnet = nets.last();
        if subnet.prefix_len < min_subnet_prefix() {
            rest
        } else {
            rest + tagged(subnet_hosts(subnet), subnet.addr, subnet)
        }
    }
}

proof fn lemma_network_bounds(subnet: Subnet)
    requires
        subnet.prefix_len <= 32,
    ensures
        network_of(subnet) % block_size(subnet.prefix_len) == 0,
        network_of(subnet) + block_size(subnet.prefix_len) <= 0x1_0000_0000,
        network_of(subnet) <= subnet.addr,
        block_size(subnet.prefix_len) >= 1,
        subnet.prefix_len < 31 ==> block_size(subnet.prefix_len) >= 4,
{
    let size = block_size(subnet.prefix_len);
    lemma_two_pow_positive((32 - subnet.prefix_len) as nat);
    let a = subnet.addr as int;
    let sz = size as int;
    assert((a - a % sz) % sz == 0 && a % sz <= a) by (nonlinear_arith)
        requires
            sz >= 1,
            a >= 0,
    ;
    let net = (a - a % sz) as u32;
    assert(net as int == a - a % sz);
    lemma_block_fits(net, subnet.prefix_len);
    if subnet.prefix_len < 31 {
        let k = (32 - subnet.prefix_len) as nat;
        assert(two_pow(k) == 2 * two_pow((k - 1) as nat));
        assert(two_pow((k - 1) as nat) == 2 * two_pow((k - 2) as nat));
        lemma_two_pow_positive((k - 2) as nat);
    }
}

/// Append the candidates of one subnet.
fn push_subnet_hosts(out: &mut Vec<Host>, subnet: Subnet)
    requires
        subnet.prefix_len <= 32,
    ensures
        final(out)@ == old(out)@ + tagged(subnet_hosts(subnet), subnet.addr, subnet),
{
    proof {
        lemma_network_bounds(subnet);
    }
    let len = subnet.prefix_len;
    let mut size: u64 = 1;
    let mut e: u8 = 0;
    while e < 32 - len
        invariant
            e <= 32 - len,
            len == subnet.prefix_len,
            len <= 32,
            size == two_pow(e as nat),
            block_size(len) <= 0x1_0000_0000,
        decreases 32 - len - e,
    {
        proof {
            crate::target::lemma_two_pow_add(e as nat + 1, (32 - len - e - 1) as nat);
            lemma_two_pow_positive((32 - len - e - 1) as nat);
            assert(two_pow(e as nat + 1) <= block_size(len)) by (nonlinear_arith)
                requires
                    block_size(len) == two_pow(e as nat + 1) * two_pow(
                        (32 - len - e - 1) as nat,
                    ),
                    two_pow((32 - len - e - 1) as nat) >= 1,
            ;
        }
        size = size * 2;
        e = e + 1;
    }
    let addr = subnet.addr as u64;
    proof {
        assert(addr % size <= addr) by (nonlinear_arith)
            requires
                size >= 1,
        ;
    }
    let net = addr - addr % size;
    proof {
        assert(net == network_of(subnet));
    }
    let (first, count) = if len < 31 {
        (net + 1, size - 2)
    } else {
        (net, size)
    };
    let ghost hosts = subnet_hosts(subnet);
    let ghost start = out@;
    let mut i: u64 = 0;
    while i < count
        invariant
            i <= count,
            hosts == subnet_hosts(subnet),
            count == hosts.len(),
            forall|k: int| 0 <= k < count ==> hosts[k] as nat == first + k,
            first + count <= 0x1_0000_0000,
            out@ == start + tagged(hosts.take(i as int), subnet.addr, subnet),
        decreases count - i,
    {
        let ip = (first + i) as u32;
        proof {
            assert(hosts.take(i + 1).drop_last() =~= hosts.take(i as int));
            assert(hosts.take(i + 1).last() == ip);
        }
        if ip != subnet.addr {
            out.push(Host { ip, subnet });
        }
        i += 1;
    }
    assert(hosts.take(count as int) =~= hosts);
}

/// Expand the given subnets into candidate hosts, tagging each with the subnet it
/// belongs to and skipping our own address. Subnets wider than /22 are skipped:
/// exhaustively touching them is dominated by dead address space.
pub fn candidate_hosts(nets: &[Subnet]) -> (r: Vec<Host>)
    requires
        forall|i: int| 0 <= i < nets@.len() ==> (#[trigger] nets@[i]).prefix_len <= 32,
    ensures
        r@ == candidates(nets@),
{
    let mut hosts: Vec<Host> = Vec::new();
    let mut i: usize = 0;
    while i < nets.len()
        invariant
            i <= nets.len(),
            forall|k: int| 0 <= k < nets@.len() ==> (#[trigger] nets@[k]).prefix_len <= 32,
            hosts@ == candidates(nets@.take(i as int)),
        decreases nets.len() - i,
    {
        let subnet = nets[i];
        proof {
            assert(nets@.take(i + 1).drop_last() =~= nets@.take(i as int));
            assert(nets@.take(i + 1).last() == subnet);
        }
        if subnet.prefix_len >= 22 {
            push_subnet_hosts(&mut hosts, subnet);
        }
        i += 1;
    }
    assert(nets@.take(nets.len() as int) =~= nets@);
    hosts
}

/// Every host address of every subnet, tagged with its subnet, except each
/// interface's own address; no subnet is skipped.
pub open spec fn subnet_members(nets: Seq<Subnet>) -> Seq<Host>
    decreases nets.len(),
{
    if nets.len() == 0 {
        Seq::empty()
    } else {
        let subnet = nets.last();
        subnet_members(nets.drop_last()) + tagged(subnet_hosts(subnet), subnet.addr, subnet)
    }
}

/// The addresses to sweep on the local networks: every host address of every
/// subnet, in order, except the interface's own address.
pub fn subnet_scan_hosts(nets: &[Subnet]) -> (r: Vec<u32>)
    requires
        forall|i: int| 0 <= i < nets@.len() ==> (#[trigger] nets@[i]).prefix_len <= 32,
    ensures
        r@ == subnet_members(nets@).map_values(|h: Host| h.ip),
{
    let mut hosts: Vec<Host> = Vec::new();
    let mut i: usize = 0;
    while i < nets.len()
        invariant
            i <= nets.len(),
            forall|k: int| 0 <= k < nets@.len() ==> (#[trigger] nets@[k]).prefix_len <= 32,
            hosts@ == subnet_members(nets@.take(i as int)),
        decreases nets.len() - i,
    {
        let subnet = nets[i];
        proof {
            assert(nets@.take(i + 1).drop_last() =~= nets@.take(i as int));
            assert(nets@.take(i + 1).last() == subnet);
        }
        push_subnet_hosts(&mut hosts, subnet);
        i += 1;
    }
    assert(nets@.take(nets.len() as int) =~= nets@);
    candidate_ips(hosts.as_slice())
}

/// The addresses of the candidates, in order.
pub fn candidate_ips(candidates: &[Host]) -> (r: Vec<u32>)
    ensures
        r@ == candidates@.map_values(|h: Host| h.ip),
{
    let mut out: Vec<u32> = Vec::new();
    let mut i: usize = 0;
    while i < candidates.len()
        invariant
            i <= candidates.len(),
            out@ == candidates@.take(i as int).map_values(|h: Host| h.ip),
        decreases candidates.len() - i,
    {
        out.push(candidates[i].ip);
        i += 1;
        assert(out@ =~= candidates@.take(i as int).map_values(|h: Host| h.ip));
    }
    assert(candidates@.take(candidates.len() as int) =~= candidates@);
    out
}

/// Each candidate's subnet by address; a later candidate with the same address
/// replaces an earlier one.
pub open spec fn subnet_index(candidates: Seq<Host>) -> Map<u32, Subnet>
    decreases candidates.len(),
{
    if candidates.len() == 0 {
        Map::empty()
    } else {
        subnet_index(candidates.drop_last()).insert(candidates.last().ip, candidates.last().subnet)
    }
}

/// Picks the live hosts out of the sweep's results: a host is live on its first
/// open port, and the rest of its ports are suppressed.
pub struct LiveHostFilter {
    seen: BTreeSet<u32>,
    subnets: BTreeMap<u32, Subnet>,
}

/// What a [`LiveHostFilter`] holds: the addresses already reported live, and
/// each candidate's subnet.
pub struct LiveHostFilterView {
    pub seen: Set<u32>,
    pub subnets: Map<u32, Subnet>,
}

impl View for LiveHostFilter {
    type V = LiveHostFilterView;

    closed spec fn view(&self) -> LiveHostFilterView {
        LiveHostFilterView { seen: self.seen@, subnets: self.subnets@ }
    }
}

/// What a sweep result does to the filter: an open port marks the host seen, and
/// the host is reported, with its candidate subnet, the first time it is seen.
pub open spec fn filter_step(
    before: LiveHostFilterView,
    after: LiveHostFilterView,
    ip: u32,
    open: bool,
    r: Option<Host>,
) -> bool {
    &&& after.subnets == before.subnets
    &&& after.seen == if open {
        before.seen.insert(ip)
    } else {
        before.seen
    }
    &&& r == if open && !before.seen.contains(ip) && before.subnets.contains_key(ip) {
        Some(Host { ip, subnet: before.subnets[ip] })
    } else {
        None
    }
}

impl LiveHostFilter {
    /// A filter for the given candidates, with no host seen yet.
    pub fn new(candidates: &[Host]) -> (r: LiveHostFilter)
        ensures
            r@.seen == Set::<u32>::empty(),
            r@.subnets == subnet_index(candidates@),
    {
        let mut subnets: BTreeMap<u32, Subnet> = BTreeMap::new();
        let mut i: usize = 0;
        while i < candidates.len()
            invariant
                i <= candidates.len(),
                subnets@ == subnet_index(candidates@.take(i as int)),
            decreases candidates.len() - i,
        {
            let host = candidates[i];
            proof {
                assert(candidates@.take(i + 1).drop_last() =~= candidates@.take(i as int));
            }
            subnets.insert(host.ip, host.subnet);
            i += 1;
        }
        assert(candidates@.take(candidates.len() as int) =~= candidates@);
        LiveHostFilter { seen: BTreeSet::new(), subnets }
    }

    /// A sweep result: the host is reported the first time one of its ports is
    /// open, with its candidate subnet; any other result reports nothing.
    pub fn on_result(&mut self, ip: u32, open: bool) -> (r: Option<Host>)
        ensures
            filter_step(old(self)@, final(self)@, ip, open, r),
    {
        if !open {
            return None;
        }
        if !self.seen.insert(ip) {
            return None;
        }
        match self.subnets.get(&ip) {
            Some(subnet) => Some(Host { ip, subnet: *subnet }),
            None => None,
        }
    }
}

/// Hosts in increasing address order.
pub open spec fn hosts_ordered(hosts: Seq<Host>) -> bool {
    forall|i: int, j: int| 0 <= i < j < hosts.len() ==> hosts[i].ip <= hosts[j].ip
}

/// Add a host to a list kept in increasing address order (after any host with
/// the same address), so hosts arriving in completion order end up sorted.
pub fn insert_host(hosts: &mut Vec<Host>, host: Host)
    requires
        hosts_ordered(old(hosts)@),
    ensures
        hosts_ordered(final(hosts)@),
        exists|pos: int|
            0 <= pos <= old(hosts)@.len() && final(hosts)@ == old(hosts)@.insert(pos, host) && (
            forall|m: int| 0 <= m < pos ==> (#[trigger] old(hosts)@[m]).ip <= host.ip) && (forall|
                m: int,
            |
                pos <= m < old(hosts)@.len() ==> (#[trigger] old(hosts)@[m]).ip > host.ip),
{
    let n = hosts.len();
    let mut k: usize = 0;
    while k < n && hosts[k].ip <= host.ip
        invariant
            k <= n,
            n == hosts.len(),
            forall|m: int| 0 <= m < k ==> hosts@[m].ip <= host.ip,
        decreases n - k,
    {
        k += 1;
    }
    let ghost before = hosts@;
    proof {
        assert forall|m: int| k <= m < n implies (#[trigger] before[m]).ip > host.ip by {
            if k < n && k < m {
                assert(before[k as int].ip <= before[m].ip);
            }
        }
    }
    hosts.insert(k, host);
    proof {
        let after = hosts@;
        assert(after == before.insert(k as int, host));
        let less = |a: Host, b: Host| a.ip <= b.ip;
        lemma_insert_keeps_sorted(before, k as int, host, less);
        assert forall|i: int, j: int| 0 <= i < j < after.len() implies after[i].ip <= after[j].ip by {
            assert(less(after[i], after[j]));
        }
    }
}

} // verus!
