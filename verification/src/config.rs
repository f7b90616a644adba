//! The configuration surface the resolution engine consumes: plain values,
//! fixed before dispatch and shared read-only by every concurrent task.

use vstd::prelude::*;
use vstd::string::*;
use crate::effective_threads;

verus! {

/// The run's configuration values, as the command line supplies them.
pub struct Args {
    /// Ceiling on simultaneously in-flight host resolutions.
    pub threads: usize,
    /// Retry attempts after a lookup failure before giving up.
    pub retries: usize,
    /// Target domain; when set, input lines are wordlist labels to join with it.
    pub domain: Option<String>,
    /// Path of a file with one nameserver IP per line.
    pub resolvers: Option<String>,
    /// Per-query timeout in seconds.
    pub timeout: u64,
    /// Display the resolved addresses next to each host.
    pub ip: bool,
    /// Require agreement of the primary and the trusted resolver.
    pub enable_double_check: bool,
    /// Print nothing but errors.
    pub quiet_flag: bool,
}

/// The built-in trusted nameserver pool: two endpoints each of Cloudflare,
/// Google, Quad9, OpenDNS and Verisign, used for verification whatever
/// resolvers the user supplies.
pub fn builtin_nameservers() -> (r: Vec<String>)
    ensures
        r@.len() == 10,
        r@[0]@ == "1.1.1.1:53"@,
        r@[1]@ == "1.0.0.1:53"@,
        r@[2]@ == "8.8.8.8:53"@,
        r@[3]@ == "8.8.4.4:53"@,
        r@[4]@ == "9.9.9.9:53"@,
        r@[5]@ == "149.112.112.112:53"@,
        r@[6]@ == "208.67.222.222:53"@,
        r@[7]@ == "208.67.220.220:53"@,
        r@[8]@ == "64.6.64.6:53"@,
        r@[9]@ == "64.6.65.6:53"@,
{
    let mut r: Vec<String> = Vec::new();
    r.push(String::from_str("1.1.1.1:53"));
    r.push(String::from_str("1.0.0.1:53"));
    r.push(String::from_str("8.8.8.8:53"));
    r.push(String::from_str("8.8.4.4:53"));
    r.push(String::from_str("9.9.9.9:53"));
    r.push(String::from_str("149.112.112.112:53"));
    r.push(String::from_str("208.67.222.222:53"));
    r.push(String::from_str("208.67.220.220:53"));
    r.push(String::from_str("64.6.64.6:53"));
    r.push(String::from_str("64.6.65.6:53"));
    r
}

impl Args {
    /// The ceiling actually applied to a run: the configured thread count,
    /// lowered to the candidate count when fewer hosts than threads exist.
    pub fn effective_thread_ceiling(&self, host_count: usize) -> (r: usize)
        ensures
            r == if host_count < self.threads {
                host_count as int
            } else {
                self.threads as int
            },
            r <= self.threads,
            r <= host_count,
    {
        effective_threads(self.threads, host_count)
    }
}

} // verus!
