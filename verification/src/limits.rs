//! Concurrency limits for fanning work out over many targets.

use vstd::prelude::*;

verus! {

/// `num_cpus::get`: the number of logical CPUs this process may run on. The
/// crate documents that it always returns at least 1; nothing more is claimed,
/// since the count depends on the machine.
#[verifier::external_body]
fn available_cpus() -> (n: usize)
    ensures
        n >= 1,
{
    num_cpus::get()
}

/// 64 concurrent tasks per CPU (saturating), capped at 4096.
pub open spec fn concurrency_for(cpus: usize) -> usize {
    let scaled = if cpus * 64 > usize::MAX {
        usize::MAX
    } else {
        (cpus * 64) as usize
    };
    if scaled < 4096 {
        scaled
    } else {
        4096
    }
}

/// The number of concurrent tasks for a machine with `cpus` CPUs: generous
/// concurrency for I/O, 64 per CPU, capped at 4096.
pub fn concurrency_for_cpus(cpus: usize) -> (r: usize)
    ensures
        r == concurrency_for(cpus),
{
    let scaled = match cpus.checked_mul(64) {
        Some(m) => m,
        None => usize::MAX,
    };
    if scaled < 4096 {
        scaled
    } else {
        4096
    }
}

/// Compute the number of concurrent tasks based on the number of CPUs.
/// - x64 the number of CPUs; generous concurrency for I/O
/// - cap is 4096
pub fn compute_concurrency() -> (r: usize)
    ensures
        1 <= r <= 4096,
        exists|cpus: usize| cpus >= 1 && r == concurrency_for(cpus),
{
    let cpus = available_cpus();
    concurrency_for_cpus(cpus)
}

/// Four channel slots per concurrent task, kept between 256 and 16384.
pub open spec fn channel_size_for(concurrency: usize) -> usize {
    let wanted = concurrency * 4;
    if wanted < 256 {
        256
    } else if wanted > 16384 {
        16384
    } else {
        wanted as usize
    }
}

/// Compute the size of the channel based on the given concurrency.
/// Ensure channel can handle bursts.
pub fn compute_channel_size(concurrency: usize) -> (r: usize)
    requires
        concurrency <= usize::MAX / 4,
    ensures
        r == channel_size_for(concurrency),
        256 <= r <= 16384,
{
    let wanted = concurrency * 4;
    if wanted < 256 {
        256
    } else if wanted > 16384 {
        16384
    } else {
        wanted
    }
}

} // verus!
