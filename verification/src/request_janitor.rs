//! How long decided requests are kept.
//!
//! Two queues of requests are swept by one task: those for more tenants and
//! those for more storage. Each has its own number of days, and a failure of
//! one leaves the other alone.

use vstd::prelude::*;

verus! {

/// What a sweep removed from the two queues. One that failed removed nothing.
pub fn prune_counts(cap: Result<usize, String>, quota: Result<usize, String>) -> (r: (usize, usize))
    ensures
        r.0 == (match cap {
            Ok(n) => n,
            Err(_) => 0,
        }),
        r.1 == (match quota {
            Ok(n) => n,
            Err(_) => 0,
        }),
{
    (
        match cap {
            Ok(n) => n,
            Err(_) => 0,
        },
        match quota {
            Ok(n) => n,
            Err(_) => 0,
        },
    )
}

/// Whether there is anything to sweep at all. A queue with no days keeps its
/// requests for ever, and that must not keep the other's too.
pub fn retention_runs(cap_days: u64, quota_days: u64) -> (r: bool)
    ensures
        r == (cap_days != 0 || quota_days != 0),
{
    cap_days != 0 || quota_days != 0
}

} // verus!
