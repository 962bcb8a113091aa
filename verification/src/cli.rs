//! The command line as the library sees it, and the plans its subcommands run:
//! what to probe, worked out from the arguments before any packet is sent.
//! Reading the arguments and running the probes happen outside the library.

use vstd::prelude::*;

use crate::live::{build_live_targets, LiveTarget, TargetError};
use crate::scope::{
    build_port_range, parse_port_spec, parsed_selection, port_range, resolved, scope, PortSelection,
    ScopeError,
};
use crate::target::{block_addresses, cidr_block, ipv4_address, parse_target, TargetParseError};
use crate::types::ScanPlan;

verus! {

/// Local host discovery and TCP probing tool.
pub struct Cli {
    pub command: Option<Commands>,
}

/// The subcommands.
pub enum Commands {
    /// Discover live hosts on your local networks.
    Discover,
    /// Inspect a target's open ports, TTL, and services.
    Inspect {
        /// Target host IP or CIDR (e.g. 192.168.1.0/24).
        target: String,
        /// Ports to scan: web | common | all | a range (1-1024) | a list (22,80,443).
        /// Defaults to the common set.
        ports: Option<String>,
    },
}

/// The addresses a target names: the address itself, or every address of a CIDR
/// block; nothing when it is neither.
pub open spec fn target_hosts(target: Seq<char>) -> Option<Seq<u32>> {
    match ipv4_address(target) {
        Some(ip) => Some(seq![ip]),
        None => match cidr_block(target) {
            Some((first, len)) => Some(block_addresses(first, len)),
            None => None,
        },
    }
}

/// The port selection the `--ports` value asks for; the common set by default.
pub open spec fn requested_selection(ports: Option<String>) -> Result<PortSelection, ScopeError> {
    match ports {
        Some(raw) => parsed_selection(raw@),
        None => Ok(PortSelection::Common),
    }
}

/// Why a subcommand's plan could not be made.
#[derive(Clone, Copy, Debug, PartialEq, Eq, Structural)]
pub enum PlanError {
    /// The target is neither an IPv4 address nor a CIDR block.
    Target(TargetParseError),
    /// The probe's target is neither an IPv4 address nor a CIDR block.
    ProbeTarget(TargetParseError),
    /// The port selection is malformed or empty.
    Scope(ScopeError),
    /// There are more host/port pairs than can be held.
    Targets(TargetError),
}

impl PlanError {
    /// The human-readable message for the error.
    pub fn to_string(&self) -> (r: String)
        ensures
            r@ == self.spec_message(),
    {
        match self {
            PlanError::Target(e) => e.to_string(),
            PlanError::ProbeTarget(_) => String::from_str(
                "Target not supported; supply IP address or CIDR",
            ),
            PlanError::Scope(e) => e.to_string(),
            PlanError::Targets(e) => e.to_string(),
        }
    }

    pub open spec fn spec_message(&self) -> Seq<char> {
        match self {
            PlanError::Target(_) => "Target not supported; supply an IP address or CIDR"@,
            PlanError::ProbeTarget(_) => "Target not supported; supply IP address or CIDR"@,
            PlanError::Scope(e) => e.spec_message(),
            PlanError::Targets(_) => "too many targets: host/port cartesian product overflowed"@,
        }
    }
}

/// The plan of `scout inspect <target> [--ports ..]`: the target's addresses and
/// the selected ports. The target is checked first, then the port selection.
pub fn plan_inspection(target: &str, ports: Option<String>) -> (r: Result<ScanPlan, PlanError>)
    ensures
        match target_hosts(target@) {
            None => r == Err::<ScanPlan, PlanError>(PlanError::Target(TargetParseError::Unsupported)),
            Some(hosts) => match requested_selection(ports) {
                Err(e) => r == Err::<ScanPlan, PlanError>(PlanError::Scope(e)),
                Ok(selection) => match resolved(selection) {
                    Err(e) => r == Err::<ScanPlan, PlanError>(PlanError::Scope(e)),
                    Ok(resolved_ports) => r matches Ok(plan) && plan.hosts@ == hosts
                        && plan.ports@ == resolved_ports,
                },
            },
        },
{
    let hosts = match parse_target(target) {
        Ok(hosts) => hosts,
        Err(e) => return Err(PlanError::Target(e)),
    };
    let spec = match parse_port_spec(ports) {
        Ok(spec) => spec,
        Err(e) => return Err(PlanError::Scope(e)),
    };
    match scope(hosts, spec) {
        Ok(plan) => Ok(plan),
        Err(e) => Err(PlanError::Scope(e)),
    }
}

/// The targets of a port probe over `target` from `start` (default 1) to `end`
/// (default 1024): every address paired with every port, host-major.
pub fn plan_probe(target: &str, start: Option<u16>, end: Option<u16>) -> (r: Result<
    Vec<LiveTarget>,
    PlanError,
>)
    ensures
        ({
            let s = match start {
                Some(s) => s,
                None => 1u16,
            };
            let e = match end {
                Some(e) => e,
                None => 1024u16,
            };
            match target_hosts(target@) {
                None => r == Err::<Vec<LiveTarget>, PlanError>(
                    PlanError::ProbeTarget(TargetParseError::Unsupported),
                ),
                Some(hosts) => if s > e {
                    r == Err::<Vec<LiveTarget>, PlanError>(PlanError::Scope(ScopeError::ReversedBounds))
                } else {
                    let ports = port_range(s, e);
                    if hosts.len() * ports.len() > usize::MAX {
                        r == Err::<Vec<LiveTarget>, PlanError>(
                            PlanError::Targets(TargetError::TooManyTargets),
                        )
                    } else {
                        r matches Ok(targets) && targets.len() == hosts.len() * ports.len()
                            && forall|i: int, j: int|
                            0 <= i < hosts.len() && 0 <= j < ports.len() ==> #[trigger] targets@[i
                                * ports.len() + j] == (hosts[i], ports[j])
                    }
                },
            }
        }),
{
    let hosts = match parse_target(target) {
        Ok(hosts) => hosts,
        Err(e) => return Err(PlanError::ProbeTarget(e)),
    };
    let ports = match build_port_range(start, end) {
        Ok(ports) => ports,
        Err(e) => return Err(PlanError::Scope(e)),
    };
    match build_live_targets(hosts, ports) {
        Ok(targets) => Ok(targets),
        Err(e) => Err(PlanError::Targets(e)),
    }
}

} // verus!
