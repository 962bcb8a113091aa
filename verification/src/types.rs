//! The values the stages hand each other: port selections, scan plans, hosts,
//! services, operating-system guesses and per-host reports.
//!
//! IPv4 addresses are held as `u32` in network order of significance: the
//! first octet is the most significant byte (`a.b.c.d` is `a·2²⁴ + b·2¹⁶ + c·2⁸ + d`).

use vstd::prelude::*;

verus! {

/// An IPv4 network as an interface carries it: an address together with a prefix length.
#[derive(Clone, Copy, Debug, PartialEq, Eq, Structural)]
pub struct Subnet {
    pub addr: u32,
    pub prefix_len: u8,
}

/// A host found during the Discover stage.
#[derive(Clone, Copy, Debug, PartialEq, Eq, Structural)]
pub struct Host {
    pub ip: u32,
    pub subnet: Subnet,
}

/// Input to the Scope stage.
#[derive(Clone, Debug)]
pub enum PortSpec {
    /// Common web ports (80, 443, 8080, 8443, 8000).
    Web,
    /// Curated set of ports consumer devices commonly expose.
    Common,
    /// Every port, 1–65535.
    All,
    Range(u16, u16),
    List(Vec<u16>),
}

/// Output of the Scope stage, used as input for the Inspect stage.
#[derive(Clone, Debug)]
pub struct ScanPlan {
    pub hosts: Vec<u32>,
    pub ports: Vec<u16>,
}

/// How strongly a fingerprint signal supports its conclusion.
#[derive(Clone, Copy, Debug, PartialEq, Eq, Structural)]
pub enum Confidence {
    Low,
    Medium,
    High,
}

impl Confidence {
    /// Canonical name for the level (domain label, not presentation).
    pub fn label(self) -> (r: &'static str)
        ensures
            r@ == self.spec_label(),
    {
        match self {
            Confidence::Low => "low",
            Confidence::Medium => "medium",
            Confidence::High => "high",
        }
    }

    pub open spec fn spec_label(self) -> Seq<char> {
        match self {
            Confidence::Low => "low"@,
            Confidence::Medium => "medium"@,
            Confidence::High => "high"@,
        }
    }
}

/// Operating-system family a host most likely belongs to.
#[derive(Clone, Copy, Debug, PartialEq, Eq, Structural)]
pub enum OsFamily {
    Linux,
    Windows,
    NetworkDevice,
}

impl OsFamily {
    /// Canonical name for the family (domain label, not presentation).
    pub fn label(self) -> (r: &'static str)
        ensures
            r@ == self.spec_label(),
    {
        match self {
            OsFamily::Linux => "Linux/Unix",
            OsFamily::Windows => "Windows",
            OsFamily::NetworkDevice => "Network device",
        }
    }

    pub open spec fn spec_label(self) -> Seq<char> {
        match self {
            OsFamily::Linux => "Linux/Unix"@,
            OsFamily::Windows => "Windows"@,
            OsFamily::NetworkDevice => "Network device"@,
        }
    }
}

/// Inferred operating system for a host, with the confidence behind the guess.
#[derive(Clone, Copy, Debug, PartialEq, Eq, Structural)]
pub struct OsGuess {
    pub family: OsFamily,
    pub confidence: Confidence,
}

/// The text an optional string holds, if any.
pub open spec fn opt_view(o: Option<String>) -> Option<Seq<char>> {
    match o {
        Some(s) => Some(s@),
        None => None,
    }
}

/// A service found at a specific port during the Inspect stage.
#[derive(Debug)]
pub struct Service {
    pub port: u16,
    /// Protocol/service name, e.g. `"http"`, `"ssh"`, `"ftp"`.
    pub name: Option<String>,
    /// Software product behind the service, e.g. `"nginx"`, `"OpenSSH"`.
    pub product: Option<String>,
    /// Product version, e.g. `"1.25.3"`, `"9.6p1"`.
    pub version: Option<String>,
    /// Raw banner, always preserved so nothing is lost to parsing.
    pub banner: String,
    /// How much of the identification the banner actually supported.
    pub confidence: Confidence,
}

fn clone_text(o: &Option<String>) -> (r: Option<String>)
    ensures
        r == *o,
{
    match o {
        Some(s) => Some(s.clone()),
        None => None,
    }
}

impl Clone for Service {
    fn clone(&self) -> (r: Self)
        ensures
            r == *self,
    {
        Service {
            port: self.port,
            name: clone_text(&self.name),
            product: clone_text(&self.product),
            version: clone_text(&self.version),
            banner: self.banner.clone(),
            confidence: self.confidence,
        }
    }
}

/// Inspect stage result per host.
#[derive(Debug)]
pub struct HostReport {
    pub host: u32,
    pub ttl: Option<u8>,
    /// Inferred operating system, derived from the TTL and service banners.
    pub os: Option<OsGuess>,
    pub open_ports: Vec<u16>,
    pub services: Vec<Service>,
}

pub fn clone_services(v: &Vec<Service>) -> (r: Vec<Service>)
    ensures
        r@ == v@,
{
    let mut out: Vec<Service> = Vec::new();
    let mut i: usize = 0;
    while i < v.len()
        invariant
            i <= v.len(),
            out@ == v@.take(i as int),
        decreases v.len() - i,
    {
        out.push(v[i].clone());
        i += 1;
        assert(out@ =~= v@.take(i as int));
    }
    assert(v@.take(v.len() as int) =~= v@);
    out
}

pub fn clone_ports(v: &Vec<u16>) -> (r: Vec<u16>)
    ensures
        r@ == v@,
{
    let mut out: Vec<u16> = Vec::new();
    let mut i: usize = 0;
    while i < v.len()
        invariant
            i <= v.len(),
            out@ == v@.take(i as int),
        decreases v.len() - i,
    {
        out.push(v[i]);
        i += 1;
        assert(out@ =~= v@.take(i as int));
    }
    assert(v@.take(v.len() as int) =~= v@);
    out
}

impl Clone for HostReport {
    fn clone(&self) -> (r: Self)
        ensures
            r.host == self.host,
            r.ttl == self.ttl,
            r.os == self.os,
            r.open_ports@ == self.open_ports@,
            r.services@ == self.services@,
    {
        HostReport {
            host: self.host,
            ttl: self.ttl,
            os: self.os,
            open_ports: clone_ports(&self.open_ports),
            services: clone_services(&self.services),
        }
    }
}

} // verus!
