//! Text renderings of addresses, port lists, services and table rows.

use vstd::prelude::*;

use crate::text::{decimal, push_all, push_decimal, push_str};
use crate::types::{Host, HostReport, Service, Subnet};

verus! {

/// Parts joined with `sep` between consecutive ones.
pub open spec fn join(parts: Seq<Seq<char>>, sep: Seq<char>) -> Seq<char>
    decreases parts.len(),
{
    if parts.len() == 0 {
        Seq::empty()
    } else if parts.len() == 1 {
        parts[0]
    } else {
        join(parts.drop_last(), sep) + sep + parts.last()
    }
}

/// Dotted-quad notation, most significant byte first (`Ipv4Addr`'s `Display`).
pub open spec fn ipv4_text(ip: u32) -> Seq<char> {
    decimal((ip / 0x100_0000) as nat) + seq!['.'] + decimal(((ip / 0x1_0000) % 0x100) as nat)
        + seq!['.'] + decimal(((ip / 0x100) % 0x100) as nat) + seq!['.'] + decimal(
        (ip % 0x100) as nat,
    )
}

/// `address/prefix` (`Ipv4Net`'s `Display`).
pub open spec fn subnet_text(subnet: Subnet) -> Seq<char> {
    ipv4_text(subnet.addr) + seq!['/'] + decimal(subnet.prefix_len as nat)
}

/// The decimal numbers of the ports.
pub open spec fn port_numbers(ports: Seq<u16>) -> Seq<Seq<char>> {
    ports.map_values(|p: u16| decimal(p as nat))
}

/// The ports in decimal, separated by `, `.
pub open spec fn ports_text(ports: Seq<u16>) -> Seq<char> {
    join(port_numbers(ports), ", "@)
}

/// One line per service, `port: banner`.
pub open spec fn service_entries(services: Seq<Service>) -> Seq<Seq<char>> {
    services.map_values(|s: Service| decimal(s.port as nat) + ": "@ + s.banner@)
}

/// The services one per line, or `-` when there are none.
pub open spec fn services_text(services: Seq<Service>) -> Seq<char> {
    if services.len() == 0 {
        "-"@
    } else {
        join(service_entries(services), "\n"@)
    }
}

/// The TTL in decimal, or `-` when unknown.
pub open spec fn ttl_text(ttl: Option<u8>) -> Seq<char> {
    match ttl {
        Some(t) => decimal(t as nat),
        None => "-"@,
    }
}

/// The texts of a vector of strings.
pub open spec fn texts(v: Seq<String>) -> Seq<Seq<char>> {
    v.map_values(|s: String| s@)
}

pub fn push_ipv4(out: &mut String, ip: u32)
    ensures
        final(out)@ == old(out)@ + ipv4_text(ip),
{
    let ghost start = out@;
    push_decimal(out, (ip / 0x100_0000) as u64);
    out.push('.');
    push_decimal(out, ((ip / 0x1_0000) % 0x100) as u64);
    out.push('.');
    push_decimal(out, ((ip / 0x100) % 0x100) as u64);
    out.push('.');
    push_decimal(out, (ip % 0x100) as u64);
    assert(out@ =~= start + ipv4_text(ip));
}

/// Render an IPv4 address in dotted-quad notation.
pub fn format_ipv4(ip: u32) -> (r: String)
    ensures
        r@ == ipv4_text(ip),
{
    let mut out = String::new();
    push_ipv4(&mut out, ip);
    assert(out@ =~= ipv4_text(ip));
    out
}

/// Render a subnet as `address/prefix`.
pub fn format_subnet(subnet: Subnet) -> (r: String)
    ensures
        r@ == subnet_text(subnet),
{
    let mut out = String::new();
    push_ipv4(&mut out, subnet.addr);
    out.push('/');
    push_decimal(&mut out, subnet.prefix_len as u64);
    assert(out@ =~= subnet_text(subnet));
    out
}

proof fn lemma_join_push(parts: Seq<Seq<char>>, sep: Seq<char>, next: Seq<char>)
    requires
        parts.len() > 0,
    ensures
        join(parts.push(next), sep) == join(parts, sep) + sep + next,
{
    assert(parts.push(next).drop_last() =~= parts);
}

/// Render ports as a comma-separated list.
pub fn format_ports(ports: &[u16]) -> (r: String)
    ensures
        r@ == ports_text(ports@),
{
    let mut out = String::new();
    let mut i: usize = 0;
    while i < ports.len()
        invariant
            i <= ports.len(),
            out@ == join(port_numbers(ports@.take(i as int)), ", "@),
        decreases ports.len() - i,
    {
        let ghost before = port_numbers(ports@.take(i as int));
        if i > 0 {
            push_str(&mut out, ", ");
        }
        push_decimal(&mut out, ports[i] as u64);
        proof {
            assert(port_numbers(ports@.take(i + 1)) =~= before.push(decimal(ports@[i as int] as nat)));
            if i > 0 {
                lemma_join_push(before, ", "@, decimal(ports@[i as int] as nat));
            } else {
                assert(out@ =~= decimal(ports@[0] as nat));
            }
        }
        i += 1;
    }
    assert(ports@.take(ports.len() as int) =~= ports@);
    out
}

/// Render services one per line as `port: banner`, or `-` when there are none.
pub fn format_services(services: &[Service]) -> (r: String)
    ensures
        r@ == services_text(services@),
{
    if services.len() == 0 {
        return String::from_str("-");
    }
    let mut out = String::new();
    let mut i: usize = 0;
    while i < services.len()
        invariant
            i <= services.len(),
            out@ == join(service_entries(services@.take(i as int)), "\n"@),
        decreases services.len() - i,
    {
        let ghost before = service_entries(services@.take(i as int));
        let s = &services[i];
        let ghost entry = decimal(s.port as nat) + ": "@ + s.banner@;
        if i > 0 {
            push_str(&mut out, "\n");
        }
        let ghost mid = out@;
        push_decimal(&mut out, s.port as u64);
        push_str(&mut out, ": ");
        push_str(&mut out, s.banner.as_str());
        proof {
            assert(out@ =~= mid + entry);
            assert(service_entries(services@.take(i + 1)) =~= before.push(entry));
            if i > 0 {
                lemma_join_push(before, "\n"@, entry);
            } else {
                assert(before =~= Seq::<Seq<char>>::empty());
            }
        }
        i += 1;
    }
    assert(services@.take(services.len() as int) =~= services@);
    out
}

/// Render lines joined by newlines, or `-` when there are none.
pub fn format_lines(lines: &[String]) -> (r: String)
    ensures
        r@ == (if lines@.len() == 0 {
            "-"@
        } else {
            join(texts(lines@), "\n"@)
        }),
{
    if lines.len() == 0 {
        return String::from_str("-");
    }
    let mut out = String::new();
    let mut i: usize = 0;
    while i < lines.len()
        invariant
            i <= lines.len(),
            out@ == join(texts(lines@.take(i as int)), "\n"@),
        decreases lines.len() - i,
    {
        let ghost before = texts(lines@.take(i as int));
        if i > 0 {
            push_str(&mut out, "\n");
        }
        push_str(&mut out, lines[i].as_str());
        proof {
            assert(texts(lines@.take(i + 1)) =~= before.push(lines@[i as int]@));
            if i > 0 {
                lemma_join_push(before, "\n"@, lines@[i as int]@);
            } else {
                assert(out@ =~= lines@[0]@);
            }
        }
        i += 1;
    }
    assert(lines@.take(lines.len() as int) =~= lines@);
    out
}

/// Render a TTL, or `-` when unknown.
pub fn format_ttl(ttl: Option<u8>) -> (r: String)
    ensures
        r@ == ttl_text(ttl),
{
    match ttl {
        Some(t) => {
            let mut out = String::new();
            push_decimal(&mut out, t as u64);
            assert(out@ =~= decimal(t as nat));
            out
        },
        None => String::from_str("-"),
    }
}

/// The cells of a discovered host's table row: the host, then its subnet.
pub fn host_row(host: &Host) -> (r: Vec<String>)
    ensures
        texts(r@) == seq![ipv4_text(host.ip), subnet_text(host.subnet)],
{
    let mut row: Vec<String> = Vec::new();
    row.push(format_ipv4(host.ip));
    row.push(format_subnet(host.subnet));
    assert(texts(row@) =~= seq![ipv4_text(host.ip), subnet_text(host.subnet)]);
    row
}

/// The cells of an inspection report's table row: the host, its ping TTL, its
/// open ports and its services.
pub fn report_row(report: &HostReport) -> (r: Vec<String>)
    ensures
        texts(r@) == seq![
            ipv4_text(report.host),
            ttl_text(report.ttl),
            ports_text(report.open_ports@),
            services_text(report.services@),
        ],
{
    let mut row: Vec<String> = Vec::new();
    row.push(format_ipv4(report.host));
    row.push(format_ttl(report.ttl));
    row.push(format_ports(report.open_ports.as_slice()));
    row.push(format_services(report.services.as_slice()));
    assert(texts(row@) =~= seq![
        ipv4_text(report.host),
        ttl_text(report.ttl),
        ports_text(report.open_ports@),
        services_text(report.services@),
    ]);
    row
}

} // verus!
