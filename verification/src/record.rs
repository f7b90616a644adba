//! Per-host results: the record a resolution produces and the wildcard
//! predicate that decides whether it is suppressed.

use vstd::prelude::*;
use crate::names::{views, vec_contains_str};

verus! {

/// The result of resolving one candidate host.
#[derive(Clone, Debug)]
pub struct DomainData {
    /// Addresses accepted for this host, deduplicated; empty when the lookup
    /// failed or was rejected by the double-check policy.
    pub ipv4_addresses: Vec<String>,
    /// Reserved: only A-record lookups are performed, so this stays empty.
    pub ipv6_addresses: Vec<String>,
    /// Canonical name from a CNAME lookup; empty when none was performed.
    pub cname: String,
    /// True iff every accepted address also appears in the wildcard
    /// suppression set; always recomputed, never set independently.
    pub is_wildcard: bool,
}

impl Default for DomainData {
    fn default() -> (r: Self)
        ensures
            r.ipv4_addresses@.len() == 0,
            r.ipv6_addresses@.len() == 0,
            r.cname@.len() == 0,
            !r.is_wildcard,
    {
        DomainData {
            ipv4_addresses: Vec::new(),
            ipv6_addresses: Vec::new(),
            cname: String::new(),
            is_wildcard: false,
        }
    }
}

/// Every member of `addrs` is also a member of `wild` (vacuously true of an
/// empty `addrs`).
pub open spec fn all_in(addrs: Seq<Seq<char>>, wild: Seq<Seq<char>>) -> bool {
    forall|x: Seq<char>| addrs.contains(x) ==> wild.contains(x)
}

/// Wildcard suppression monotonicity, for any record whose flag was
/// recomputed from its addresses as every constructor here does: a non-empty
/// address set lying wholly inside the suppression set is flagged as
/// wildcard, and any address outside the suppression set clears the flag.
pub proof fn lemma_wildcard_monotonic(record: DomainData, wild: Seq<Seq<char>>)
    requires
        record.is_wildcard == all_in(views(record.ipv4_addresses@), wild),
    ensures
        views(record.ipv4_addresses@).len() > 0 && (forall|x: Seq<char>|
            views(record.ipv4_addresses@).contains(x) ==> wild.contains(x))
            ==> record.is_wildcard,
        (exists|x: Seq<char>|
            views(record.ipv4_addresses@).contains(x) && !wild.contains(x))
            ==> !record.is_wildcard,
{
}

/// Whether every address in `addrs` appears in the wildcard suppression set.
pub fn compute_is_wildcard(addrs: &Vec<String>, wildcard_ips: &Vec<String>) -> (r: bool)
    ensures
        r == all_in(views(addrs@), views(wildcard_ips@)),
{
    let mut i: usize = 0;
    while i < addrs.len()
        invariant
            i <= addrs.len(),
            forall|j: int| 0 <= j < i ==> views(wildcard_ips@).contains(views(addrs@)[j]),
        decreases addrs.len() - i,
    {
        if !vec_contains_str(wildcard_ips, &addrs[i]) {
            assert(views(addrs@).contains(views(addrs@)[i as int]));
            return false;
        }
        i += 1;
    }
    proof {
        assert forall|x: Seq<char>| views(addrs@).contains(x) implies views(
            wildcard_ips@,
        ).contains(x) by {
            let j = choose|j: int| 0 <= j < views(addrs@).len() && views(addrs@)[j] == x;
            assert(views(wildcard_ips@).contains(views(addrs@)[j]));
        }
    }
    true
}

/// Builds a host's record from the accepted addresses: deduplicates them and
/// recomputes the wildcard flag against the suppression set.
pub fn make_record(addrs: Vec<String>, wildcard_ips: &Vec<String>) -> (r: DomainData)
    ensures
        views(r.ipv4_addresses@).no_duplicates(),
        forall|x: Seq<char>| views(r.ipv4_addresses@).contains(x) == views(addrs@).contains(x),
        r.ipv6_addresses@.len() == 0,
        r.cname@.len() == 0,
        r.is_wildcard == all_in(views(addrs@), views(wildcard_ips@)),
{
    let mut unique: Vec<String> = Vec::new();
    let mut i: usize = 0;
    while i < addrs.len()
        invariant
            i <= addrs.len(),
            views(unique@).no_duplicates(),
            forall|x: Seq<char>| views(unique@).contains(x) == views(addrs@).subrange(
                0,
                i as int,
            ).contains(x),
        decreases addrs.len() - i,
    {
        let ghost seen = views(addrs@).subrange(0, i as int);
        let ghost seen_next = views(addrs@).subrange(0, i + 1);
        proof {
            assert(seen_next.drop_last() =~= seen);
            assert(seen_next.last() == views(addrs@)[i as int]);
        }
        let ghost pre_unique = unique@;
        if !vec_contains_str(&unique, &addrs[i]) {
            unique.push(addrs[i].clone());
            proof {
                assert(views(unique@) =~= views(pre_unique).push(addrs@[i as int]@));
            }
        }
        proof {
            assert forall|x: Seq<char>| views(unique@).contains(x) == seen_next.contains(x) by {
                if seen_next.contains(x) {
                    let j = choose|j: int| 0 <= j < seen_next.len() && seen_next[j] == x;
                    if j < i {
                        assert(seen[j] == x);
                        assert(seen.contains(x));
                        assert(views(pre_unique).contains(x));
                        let k = choose|k: int|
                            0 <= k < views(pre_unique).len() && views(pre_unique)[k] == x;
                        assert(views(unique@)[k] == x);
                    } else {
                        assert(views(addrs@)[i as int] == x);
                        if views(pre_unique).contains(x) {
                            let k = choose|k: int|
                                0 <= k < views(pre_unique).len() && views(pre_unique)[k] == x;
                            assert(views(unique@)[k] == x);
                        } else {
                            assert(views(unique@).last() == x);
                        }
                    }
                    assert(views(unique@).contains(x));
                }
                if views(unique@).contains(x) {
                    let k = choose|k: int|
                        0 <= k < views(unique@).len() && views(unique@)[k] == x;
                    if k < views(pre_unique).len() {
                        assert(views(pre_unique)[k] == x);
                        assert(views(pre_unique).contains(x));
                        assert(seen.contains(x));
                        let j = choose|j: int| 0 <= j < seen.len() && seen[j] == x;
                        assert(seen_next[j] == x);
                    } else {
                        assert(x == views(addrs@)[i as int]);
                        assert(seen_next[i as int] == x);
                    }
                    assert(seen_next.contains(x));
                }
            }
        }
        i += 1;
    }
    proof {
        assert(views(addrs@).subrange(0, addrs@.len() as int) =~= views(addrs@));
    }
    let is_wildcard = compute_is_wildcard(&unique, wildcard_ips);
    proof {
        assert(all_in(views(unique@), views(wildcard_ips@)) == all_in(
            views(addrs@),
            views(wildcard_ips@),
        ));
    }
    DomainData {
        ipv4_addresses: unique,
        ipv6_addresses: Vec::new(),
        cname: String::new(),
        is_wildcard,
    }
}

/// Builds the record of a CNAME resolution: the first canonical name returned,
/// or an empty string when the lookup failed or returned nothing.
pub fn make_cname_record(cnames: Option<Vec<String>>) -> (r: DomainData)
    ensures
        r.ipv4_addresses@.len() == 0,
        r.ipv6_addresses@.len() == 0,
        !r.is_wildcard,
        r.cname@ == match cnames {
            Some(v) => if v@.len() > 0 {
                v@[0]@
            } else {
                Seq::<char>::empty()
            },
            None => Seq::<char>::empty(),
        },
{
    let mut r = DomainData::default();
    match cnames {
        Some(mut v) => {
            if v.len() > 0 {
                let first = v.remove(0);
                r.cname = first;
            }
        },
        None => {},
    }
    r
}

} // verus!
