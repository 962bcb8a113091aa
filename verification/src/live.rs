//! The live sweep's targets: every host paired with every port.

use vstd::prelude::*;

verus! {

/// A host and a port to TCP-touch.
pub type LiveTarget = (u32, u16);

/// A touched target and whether the port accepted the connection.
pub type LiveResult = (u32, u16, bool);

/// Why the targets could not be built.
#[derive(Clone, Copy, Debug, PartialEq, Eq, Structural)]
pub enum TargetError {
    /// The number of host/port pairs does not fit in memory's index type.
    TooManyTargets,
}

impl TargetError {
    /// The human-readable message for the error.
    pub fn to_string(&self) -> (r: String)
        ensures
            r@ == "too many targets: host/port cartesian product overflowed"@,
    {
        String::from_str("too many targets: host/port cartesian product overflowed")
    }
}

/// Pair every host with every port, host-major: all ports of the first host,
/// then all ports of the second, and so on.
pub fn build_live_targets(hosts: Vec<u32>, ports: Vec<u16>) -> (r: Result<
    Vec<LiveTarget>,
    TargetError,
>)
    ensures
        match r {
            Ok(targets) => {
                &&& hosts.len() * ports.len() <= usize::MAX
                &&& targets.len() == hosts.len() * ports.len()
                &&& forall|i: int, j: int|
                    0 <= i < hosts.len() && 0 <= j < ports.len() ==> #[trigger] targets@[i
                        * ports.len() + j] == (hosts@[i], ports@[j])
            },
            Err(e) => hosts.len() * ports.len() > usize::MAX && e == TargetError::TooManyTargets,
        },
{
    let h = hosts.len();
    let p = ports.len();
    let capacity = match h.checked_mul(p) {
        Some(c) => c,
        None => return Err(TargetError::TooManyTargets),
    };
    let mut targets: Vec<LiveTarget> = Vec::with_capacity(capacity);
    let mut i: usize = 0;
    while i < h
        invariant
            i <= h,
            h == hosts.len(),
            p == ports.len(),
            h * p <= usize::MAX,
            targets.len() == i * p,
            forall|a: int, b: int|
                0 <= a < i && 0 <= b < p ==> #[trigger] targets@[a * p + b] == (hosts@[a], ports@[b]),
        decreases h - i,
    {
        let mut j: usize = 0;
        while j < p
            invariant
                i < h,
                j <= p,
                h == hosts.len(),
                p == ports.len(),
                h * p <= usize::MAX,
                targets.len() == i * p + j,
                forall|a: int, b: int|
                    0 <= a < i && 0 <= b < p ==> #[trigger] targets@[a * p + b] == (
                        hosts@[a],
                        ports@[b],
                    ),
                forall|b: int| 0 <= b < j ==> #[trigger] targets@[i * p + b] == (hosts@[i as int], ports@[b]),
            decreases p - j,
        {
            proof {
                assert(i * p + j < h * p) by (nonlinear_arith)
                    requires
                        i < h,
                        j < p,
                ;
            }
            let ghost before = targets@;
            targets.push((hosts[i], ports[j]));
            proof {
                assert forall|a: int, b: int| 0 <= a < i && 0 <= b < p implies #[trigger] targets@[a
                    * p + b] == (hosts@[a], ports@[b]) by {
                    assert(a * p + b < i * p) by (nonlinear_arith)
                        requires
                            0 <= a < i,
                            0 <= b < p,
                    ;
                    assert(targets@[a * p + b] == before[a * p + b]);
                }
            }
            j += 1;
        }
        proof {
            assert((i + 1) * p == i * p + p) by (nonlinear_arith);
            assert forall|a: int, b: int| 0 <= a < i + 1 && 0 <= b < p implies #[trigger] targets@[a
                * p + b] == (hosts@[a], ports@[b]) by {
                if a == i {
                } else {
                }
            }
        }
        i += 1;
    }
    Ok(targets)
}

} // verus!
