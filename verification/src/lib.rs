pub mod config;
pub mod dispatch;
pub mod hostlist;
pub mod hostname;
pub mod ipv4;
pub mod names;
pub mod output;
pub mod policy;
pub mod record;
pub mod wildcard;

use vstd::prelude::*;

verus! {

/// The ceiling on simultaneously in-flight resolutions: the configured thread
/// count, lowered to the number of candidate hosts when there are fewer hosts
/// than threads.
pub fn effective_threads(threads: usize, host_count: usize) -> (r: usize)
    ensures
        r == if host_count < threads {
            host_count as int
        } else {
            threads as int
        },
        r <= threads,
        r <= host_count,
{
    if host_count < threads {
        host_count
    } else {
        threads
    }
}

} // verus!
