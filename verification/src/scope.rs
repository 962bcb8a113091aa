//! Scope stage: turn a port selection into a concrete plan of what to scan.

use vstd::prelude::*;

use crate::text::{
    chars_of, contains, contains_exec, lower, lowercase, parse_unsigned, parse_unsigned_exec,
    same, split_on, split_on_exec, split_once, split_once_exec, trim, trim_exec, views,
    NumberError,
};
use crate::types::{PortSpec, ScanPlan};

verus! {

/// Why a port selection could not be turned into ports.
#[derive(Clone, Copy, Debug, PartialEq, Eq, Structural)]
pub enum ScopeError {
    /// A port number in the selection is not a number from 0 to 65535.
    Number(NumberError),
    /// A range whose start is after its end.
    ReversedRange,
    /// Probe bounds whose start is after their end.
    ReversedBounds,
}

impl ScopeError {
    /// The human-readable message for the error.
    pub fn to_string(&self) -> (r: String)
        ensures
            r@ == self.spec_message(),
    {
        match self {
            ScopeError::Number(e) => e.message(),
            ScopeError::ReversedRange => String::from_str(
                "start port must be smaller than end port",
            ),
            ScopeError::ReversedBounds => String::from_str(
                "start port must be smaller than end poirt",
            ),
        }
    }

    pub open spec fn spec_message(&self) -> Seq<char> {
        match self {
            ScopeError::Number(e) => e.spec_message(),
            ScopeError::ReversedRange => "start port must be smaller than end port"@,
            ScopeError::ReversedBounds => "start port must be smaller than end poirt"@,
        }
    }
}

/// What a [`PortSpec`] selects, with the list as a sequence.
pub enum PortSelection {
    Web,
    Common,
    All,
    Range(u16, u16),
    List(Seq<u16>),
}

impl View for PortSpec {
    type V = PortSelection;

    open spec fn view(&self) -> PortSelection {
        match self {
            PortSpec::Web => PortSelection::Web,
            PortSpec::Common => PortSelection::Common,
            PortSpec::All => PortSelection::All,
            PortSpec::Range(a, b) => PortSelection::Range(*a, *b),
            PortSpec::List(v) => PortSelection::List(v@),
        }
    }
}

/// Common web ports.
pub open spec fn web_ports() -> Seq<u16> {
    seq![80, 443, 8080, 8443, 8000]
}

/// Curated set of ports consumer devices commonly expose.
pub open spec fn common_ports() -> Seq<u16> {
    seq![22, 23, 53, 80, 139, 443, 445, 631, 8000, 8080, 8443]
}

/// The ports from `start` to `end`, both included, in increasing order.
pub open spec fn port_range(start: u16, end: u16) -> Seq<u16> {
    Seq::new((end - start + 1) as nat, |i: int| (start + i) as u16)
}

/// The ports a selection stands for; a range whose start is after its end is an error.
pub open spec fn resolved(selection: PortSelection) -> Result<Seq<u16>, ScopeError> {
    match selection {
        PortSelection::Web => Ok(web_ports()),
        PortSelection::Common => Ok(common_ports()),
        PortSelection::All => Ok(port_range(1, 65535)),
        PortSelection::Range(start, end) => if start > end {
            Err(ScopeError::ReversedRange)
        } else {
            Ok(port_range(start, end))
        },
        PortSelection::List(ports) => Ok(ports),
    }
}

/// A port number as `u16::from_str` reads it.
pub open spec fn port_number(s: Seq<char>) -> Result<u16, NumberError> {
    match parse_unsigned(s, 65535) {
        Ok(v) => Ok(v as u16),
        Err(e) => Err(e),
    }
}

/// The port numbers of the comma-separated pieces, each trimmed; the first piece
/// that is not a number decides the error.
pub open spec fn listed_ports(pieces: Seq<Seq<char>>) -> Result<Seq<u16>, NumberError>
    decreases pieces.len(),
{
    if pieces.len() == 0 {
        Ok(Seq::empty())
    } else {
        match port_number(trim(pieces[0])) {
            Err(e) => Err(e),
            Ok(p) => match listed_ports(pieces.drop_first()) {
                Ok(rest) => Ok(seq![p] + rest),
                Err(e) => Err(e),
            },
        }
    }
}

/// The selection a user-supplied text names, after trimming it: a preset name in
/// any letter case, a `start-end` range (split at the first `-`, each bound
/// trimmed), a comma-separated list (each entry trimmed), or a bare number as a
/// one-port list. A range is not checked for order here.
pub open spec fn parsed_selection(raw: Seq<char>) -> Result<PortSelection, ScopeError> {
    let t = trim(raw);
    let name = lower(t);
    if name == "web"@ {
        Ok(PortSelection::Web)
    } else if name == "common"@ {
        Ok(PortSelection::Common)
    } else if name == "all"@ {
        Ok(PortSelection::All)
    } else {
        match split_once(t, '-') {
            Some((a, b)) => match port_number(trim(a)) {
                Err(e) => Err(ScopeError::Number(e)),
                Ok(start) => match port_number(trim(b)) {
                    Err(e) => Err(ScopeError::Number(e)),
                    Ok(end) => Ok(PortSelection::Range(start, end)),
                },
            },
            None => if contains(t, seq![',']) {
                match listed_ports(split_on(t, ',')) {
                    Ok(ports) => Ok(PortSelection::List(ports)),
                    Err(e) => Err(ScopeError::Number(e)),
                }
            } else {
                match port_number(t) {
                    Ok(p) => Ok(PortSelection::List(seq![p])),
                    Err(e) => Err(ScopeError::Number(e)),
                }
            },
        }
    }
}

fn port_number_exec(s: &[char]) -> (r: Result<u16, NumberError>)
    ensures
        match r {
            Ok(p) => port_number(s@) == Ok::<u16, NumberError>(p),
            Err(e) => port_number(s@) == Err::<u16, NumberError>(e),
        },
{
    match parse_unsigned_exec(s, 65535) {
        Ok(v) => Ok(v as u16),
        Err(e) => Err(e),
    }
}

fn push_range(out: &mut Vec<u16>, start: u16, end: u16)
    requires
        start <= end,
    ensures
        final(out)@ == old(out)@ + port_range(start, end),
{
    let ghost before = out@;
    let mut p: u32 = start as u32;
    while p <= end as u32
        invariant
            start <= p <= end as u32 + 1,
            out@ == before + port_range(start, (p - 1) as u16).take(p - start),
        decreases end as u32 + 1 - p,
    {
        out.push(p as u16);
        p += 1;
        proof {
            assert(out@ =~= before + port_range(start, (p - 1) as u16).take(p - start));
        }
    }
    proof {
        assert(port_range(start, (p - 1) as u16).take(p - start) =~= port_range(start, end));
    }
}

impl PortSpec {
    /// Resolve a port selection into the concrete list of ports to scan.
    pub fn resolve(&self) -> (r: Result<Vec<u16>, ScopeError>)
        ensures
            match r {
                Ok(ports) => resolved(self@) == Ok::<Seq<u16>, ScopeError>(ports@),
                Err(e) => resolved(self@) == Err::<Seq<u16>, ScopeError>(e),
            },
    {
        match self {
            PortSpec::Web => {
                let v = vec![80, 443, 8080, 8443, 8000];
                assert(v@ =~= web_ports());
                Ok(v)
            },
            PortSpec::Common => {
                let v = vec![22, 23, 53, 80, 139, 443, 445, 631, 8000, 8080, 8443];
                assert(v@ =~= common_ports());
                Ok(v)
            },
            PortSpec::All => {
                let mut v: Vec<u16> = Vec::new();
                push_range(&mut v, 1, 65535);
                assert(v@ =~= port_range(1, 65535));
                Ok(v)
            },
            PortSpec::Range(start, end) => {
                if *start > *end {
                    return Err(ScopeError::ReversedRange);
                }
                let mut v: Vec<u16> = Vec::new();
                push_range(&mut v, *start, *end);
                assert(v@ =~= port_range(*start, *end));
                Ok(v)
            },
            PortSpec::List(ports) => Ok(ports.clone()),
        }
    }

    /// Parse a user-supplied port selection: a preset name (`web`/`common`/`all`),
    /// a `start-end` range, or a comma-separated list (a bare number is a one-item
    /// list). Range ordering is validated later, in [`PortSpec::resolve`].
    pub fn parse(raw: &str) -> (r: Result<PortSpec, ScopeError>)
        ensures
            match r {
                Ok(spec) => parsed_selection(raw@) == Ok::<PortSelection, ScopeError>(spec@),
                Err(e) => parsed_selection(raw@) == Err::<PortSelection, ScopeError>(e),
            },
    {
        let text = chars_of(raw);
        let t = trim_exec(text.as_slice());
        let name = lowercase(t.as_slice());
        if same(name.as_slice(), chars_of("web").as_slice()) {
            return Ok(PortSpec::Web);
        }
        if same(name.as_slice(), chars_of("common").as_slice()) {
            return Ok(PortSpec::Common);
        }
        if same(name.as_slice(), chars_of("all").as_slice()) {
            return Ok(PortSpec::All);
        }
        match split_once_exec(t.as_slice(), '-') {
            Some((a, b)) => {
                let a = trim_exec(a.as_slice());
                let start = match port_number_exec(a.as_slice()) {
                    Ok(p) => p,
                    Err(e) => return Err(ScopeError::Number(e)),
                };
                let b = trim_exec(b.as_slice());
                let end = match port_number_exec(b.as_slice()) {
                    Ok(p) => p,
                    Err(e) => return Err(ScopeError::Number(e)),
                };
                Ok(PortSpec::Range(start, end))
            },
            None => {
                let comma = vec![','];
                proof {
                    assert(comma@ =~= seq![',']);
                }
                if contains_exec(t.as_slice(), comma.as_slice()) {
                    let pieces = split_on_exec(t.as_slice(), ',');
                    match list_ports(&pieces) {
                        Ok(ports) => Ok(PortSpec::List(ports)),
                        Err(e) => Err(ScopeError::Number(e)),
                    }
                } else {
                    match port_number_exec(t.as_slice()) {
                        Ok(p) => {
                            let v = vec![p];
                            assert(v@ =~= seq![p]);
                            Ok(PortSpec::List(v))
                        },
                        Err(e) => Err(ScopeError::Number(e)),
                    }
                }
            },
        }
    }
}

proof fn lemma_listed_ports_split(pieces: Seq<Seq<char>>, i: int)
    requires
        0 <= i <= pieces.len(),
    ensures
        listed_ports(pieces.subrange(i, pieces.len() as int)) == (if i == pieces.len() {
            Ok(Seq::<u16>::empty())
        } else {
            match port_number(trim(pieces[i])) {
                Err(e) => Err(e),
                Ok(p) => match listed_ports(pieces.subrange(i + 1, pieces.len() as int)) {
                    Ok(rest) => Ok(seq![p] + rest),
                    Err(e) => Err(e),
                },
            }
        }),
{
    if i < pieces.len() {
        assert(pieces.subrange(i, pieces.len() as int).drop_first() =~= pieces.subrange(
            i + 1,
            pieces.len() as int,
        ));
    }
}

fn list_ports(pieces: &Vec<Vec<char>>) -> (r: Result<Vec<u16>, NumberError>)
    ensures
        match r {
            Ok(ports) => listed_ports(views(pieces@)) == Ok::<Seq<u16>, NumberError>(ports@),
            Err(e) => listed_ports(views(pieces@)) == Err::<Seq<u16>, NumberError>(e),
        },
{
    let ghost pv = views(pieces@);
    let mut out: Vec<u16> = Vec::new();
    let mut i: usize = 0;
    proof {
        assert(pv.subrange(0, pv.len() as int) =~= pv);
    }
    while i < pieces.len()
        invariant
            i <= pieces.len(),
            pv == views(pieces@),
            forall|rest: Seq<u16>|
                listed_ports(pv.subrange(i as int, pv.len() as int)) == Ok::<
                    Seq<u16>,
                    NumberError,
                >(rest) ==> listed_ports(pv) == Ok::<Seq<u16>, NumberError>(out@ + rest),
            forall|e: NumberError|
                listed_ports(pv.subrange(i as int, pv.len() as int)) == Err::<
                    Seq<u16>,
                    NumberError,
                >(e) ==> listed_ports(pv) == Err::<Seq<u16>, NumberError>(e),
        decreases pieces.len() - i,
    {
        proof {
            lemma_listed_ports_split(pv, i as int);
            assert(pv[i as int] == pieces@[i as int]@);
        }
        let piece = trim_exec(pieces[i].as_slice());
        match port_number_exec(piece.as_slice()) {
            Ok(p) => {
                let ghost before = out@;
                out.push(p);
                proof {
                    assert forall|rest: Seq<u16>|
                        listed_ports(pv.subrange(i + 1, pv.len() as int)) == Ok::<
                            Seq<u16>,
                            NumberError,
                        >(rest) implies listed_ports(pv) == Ok::<Seq<u16>, NumberError>(
                        out@ + rest,
                    ) by {
                        assert(before + (seq![p] + rest) =~= out@ + rest);
                    }
                }
            },
            Err(e) => {
                return Err(e);
            },
        }
        i += 1;
    }
    proof {
        lemma_listed_ports_split(pv, pv.len() as int);
        assert(out@ + Seq::<u16>::empty() =~= out@);
    }
    Ok(out)
}

/// Run the Scope stage: pair the chosen hosts with the resolved ports.
pub fn scope(hosts: Vec<u32>, spec: PortSpec) -> (r: Result<ScanPlan, ScopeError>)
    ensures
        match r {
            Ok(plan) => plan.hosts@ == hosts@ && resolved(spec@) == Ok::<Seq<u16>, ScopeError>(
                plan.ports@,
            ),
            Err(e) => resolved(spec@) == Err::<Seq<u16>, ScopeError>(e),
        },
{
    let ports = match spec.resolve() {
        Ok(p) => p,
        Err(e) => return Err(e),
    };
    Ok(ScanPlan { hosts, ports })
}

/// Parse the `--ports` value into a [`PortSpec`]; defaults to the common set.
pub fn parse_port_spec(ports: Option<String>) -> (r: Result<PortSpec, ScopeError>)
    ensures
        match ports {
            Some(raw) => match r {
                Ok(spec) => parsed_selection(raw@) == Ok::<PortSelection, ScopeError>(spec@),
                Err(e) => parsed_selection(raw@) == Err::<PortSelection, ScopeError>(e),
            },
            None => r matches Ok(spec) && spec@ == PortSelection::Common,
        },
{
    match ports {
        Some(raw) => PortSpec::parse(raw.as_str()),
        None => Ok(PortSpec::Common),
    }
}

/// The ports from `start` to `end`, both included, where `start` defaults to 1 and
/// `end` to 1024; a start after the end is an error.
pub fn build_port_range(start: Option<u16>, end: Option<u16>) -> (r: Result<Vec<u16>, ScopeError>)
    ensures
        ({
            let s = match start {
                Some(s) => s,
                None => 1u16,
            };
            let e = match end {
                Some(e) => e,
                None => 1024u16,
            };
            match r {
                Ok(ports) => s <= e && ports@ == port_range(s, e),
                Err(err) => s > e && err == ScopeError::ReversedBounds,
            }
        }),
{
    let start = match start {
        Some(s) => s,
        None => 1,
    };
    let end = match end {
        Some(e) => e,
        None => 1024,
    };
    if start > end {
        return Err(ScopeError::ReversedBounds);
    }
    let mut v: Vec<u16> = Vec::new();
    push_range(&mut v, start, end);
    assert(v@ =~= port_range(start, end));
    Ok(v)
}

impl core::str::FromStr for PortSpec {
    type Err = ScopeError;

    /// Parse a user-supplied port selection; see [`PortSpec::parse`].
    fn from_str(raw: &str) -> (r: Result<Self, Self::Err>)
        ensures
            match r {
                Ok(spec) => parsed_selection(raw@) == Ok::<PortSelection, ScopeError>(spec@),
                Err(e) => parsed_selection(raw@) == Err::<PortSelection, ScopeError>(e),
            },
    {
        PortSpec::parse(raw)
    }
}

} // verus!
