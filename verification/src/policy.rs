//! The double-verification consensus policy: which lookup outcome, if any,
//! supplies a host's accepted address set.

use vstd::prelude::*;
use crate::names::views;
use crate::record::{all_in, make_record, DomainData};

verus! {

/// The string views of an optional lookup result.
pub open spec fn lookup_views(o: Option<Vec<String>>) -> Option<Seq<Seq<char>>> {
    match o {
        Some(v) => Some(views(v@)),
        None => None,
    }
}

/// The address set the policy accepts. Without double-checking, the primary
/// resolver's answer is taken as-is (failure degrades to empty). With
/// double-checking, an answer is accepted only when both resolvers succeed,
/// and the trusted resolver's addresses are the ones kept.
pub open spec fn accepted_addrs(
    enable_double_check: bool,
    primary: Option<Seq<Seq<char>>>,
    trusted: Option<Seq<Seq<char>>>,
) -> Seq<Seq<char>> {
    if enable_double_check {
        match (primary, trusted) {
            (Some(_), Some(t)) => t,
            _ => Seq::empty(),
        }
    } else {
        match primary {
            Some(p) => p,
            None => Seq::empty(),
        }
    }
}

/// Double-check conjunction: with double-checking enabled, the accepted
/// address set is non-empty only if both lookups succeeded.
pub proof fn lemma_double_check_conjunction(
    primary: Option<Seq<Seq<char>>>,
    trusted: Option<Seq<Seq<char>>>,
)
    ensures
        accepted_addrs(true, primary, trusted).len() > 0 ==> primary is Some && trusted is Some,
{
}

/// Applies the consensus policy to the outcomes of the two concurrent lookups.
pub fn decide_addresses(
    enable_double_check: bool,
    primary: Option<Vec<String>>,
    trusted: Option<Vec<String>>,
) -> (r: Vec<String>)
    ensures
        views(r@) == accepted_addrs(
            enable_double_check,
            lookup_views(primary),
            lookup_views(trusted),
        ),
{
    let r = if enable_double_check {
        match (primary, trusted) {
            (Some(_), Some(t)) => t,
            _ => Vec::new(),
        }
    } else {
        match primary {
            Some(p) => p,
            None => Vec::new(),
        }
    };
    proof {
        if r@.len() == 0 {
            assert(views(r@) =~= Seq::<Seq<char>>::empty());
        }
    }
    r
}

/// The whole per-host step after both lookups came back: the consensus policy
/// picks the accepted addresses, which are deduplicated into a fresh record
/// whose wildcard flag is recomputed against the suppression set.
pub fn resolve_host_record(
    enable_double_check: bool,
    primary: Option<Vec<String>>,
    trusted: Option<Vec<String>>,
    wildcard_ips: &Vec<String>,
) -> (r: DomainData)
    ensures
        views(r.ipv4_addresses@).no_duplicates(),
        forall|x: Seq<char>| views(r.ipv4_addresses@).contains(x) == accepted_addrs(
            enable_double_check,
            lookup_views(primary),
            lookup_views(trusted),
        ).contains(x),
        r.ipv6_addresses@.len() == 0,
        r.cname@.len() == 0,
        r.is_wildcard == all_in(
            accepted_addrs(enable_double_check, lookup_views(primary), lookup_views(trusted)),
            views(wildcard_ips@),
        ),
{
    let addrs = decide_addresses(enable_double_check, primary, trusted);
    make_record(addrs, wildcard_ips)
}

} // verus!
