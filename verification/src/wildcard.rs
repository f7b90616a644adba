//! Wildcard detection: synthetic probe names for the target domain, and the
//! suppression set distilled from what the trusted resolver answered for them.

use vstd::prelude::*;
use vstd::string::*;
use rand::Rng;
use crate::ipv4::is_dotted_quad;
use crate::ipv4::is_valid_ipv4;
use crate::names::{views, vec_contains_str};

verus! {

/// How many synthetic probe names are generated per detection run.
pub const PROBE_COUNT: usize = 19;

/// The length of each random probe label.
pub const LABEL_LENGTH: usize = 15;

/// The ceiling on simultaneously in-flight probe lookups; the probe phase
/// runs to completion before the main dispatch, under its own small limit.
pub const PROBE_CONCURRENCY: usize = 10;

/// `c` is an ASCII letter or digit.
pub open spec fn is_alnum_char(c: char) -> bool {
    (97 <= c as u32 <= 122) || (65 <= c as u32 <= 90) || (48 <= c as u32 <= 57)
}

/// The probe name a label produces: `label.domain.`, already normalized.
pub open spec fn probe_name(label: Seq<char>, domain: Seq<char>) -> Seq<char> {
    label + seq!['.'] + domain + seq!['.']
}

/// `x` is a probe name for `domain`: a random-looking alphanumeric label of
/// the fixed length, joined with the domain and a trailing dot.
pub open spec fn is_probe_for(x: Seq<char>, domain: Seq<char>) -> bool {
    exists|label: Seq<char>|
        {
            &&& label.len() == LABEL_LENGTH
            &&& (forall|i: int| 0 <= i < label.len() ==> is_alnum_char(#[trigger] label[i]))
            &&& x == #[trigger] probe_name(label, domain)
        }
}

/// Relies on rand's `Alphanumeric` distribution, whose samples are uniform
/// over the ASCII letters and digits, and on `Iterator::take` to yield
/// exactly the requested count; nothing is claimed of which characters
/// come out.
#[verifier::external_body]
fn random_label() -> (r: String)
    ensures
        r@.len() == LABEL_LENGTH,
        forall|i: int| 0 <= i < r@.len() ==> is_alnum_char(#[trigger] r@[i]),
{
    rand::rng().sample_iter(rand::distr::Alphanumeric).take(LABEL_LENGTH).map(
        char::from,
    ).collect()
}

/// Generates the deduplicated set of synthetic probe names for `domain`:
/// up to the fixed probe count, at least one, each of the probe shape.
/// Label collisions are simply dropped.
pub fn generate_probes(domain: &str) -> (r: Vec<String>)
    ensures
        views(r@).no_duplicates(),
        1 <= r@.len() <= PROBE_COUNT,
        forall|k: int| 0 <= k < r@.len() ==> is_probe_for(#[trigger] views(r@)[k], domain@),
{
    let mut r: Vec<String> = Vec::new();
    let mut i: usize = 0;
    while i < PROBE_COUNT
        invariant
            i <= PROBE_COUNT,
            r@.len() <= i,
            i > 0 ==> r@.len() >= 1,
            views(r@).no_duplicates(),
            forall|k: int| 0 <= k < r@.len() ==> is_probe_for(#[trigger] views(r@)[k], domain@),
        decreases PROBE_COUNT - i,
    {
        let label = random_label();
        let ghost lab = label@;
        let probe = label.concat(".").concat(domain).concat(".");
        proof {
            reveal_strlit(".");
            assert(probe@ =~= probe_name(lab, domain@));
            assert(is_probe_for(probe@, domain@));
        }
        let ghost pv = probe@;
        let ghost pre = r@;
        if !vec_contains_str(&r, &probe) {
            r.push(probe);
            proof {
                assert(views(r@) =~= views(pre).push(pv));
            }
        }
        i += 1;
    }
    r
}

/// `x` occurs in one of the address pools strictly before position
/// (`i_lim`, `j_lim`) in lexicographic order.
pub open spec fn pool_member_upto(
    pools: Seq<Vec<String>>,
    x: Seq<char>,
    i_lim: int,
    j_lim: int,
) -> bool {
    exists|i: int, j: int|
        {
            &&& 0 <= i < pools.len()
            &&& 0 <= j < pools[i]@.len()
            &&& (i < i_lim || (i == i_lim && j < j_lim))
            &&& (#[trigger] pools[i]@[j])@ == x
        }
}

/// `x` occurs in one of the address pools.
pub open spec fn pool_member(pools: Seq<Vec<String>>, x: Seq<char>) -> bool {
    pool_member_upto(pools, x, pools.len() as int, 0)
}

/// Flattens the per-probe address pools into the wildcard suppression set:
/// every address that parses as a dotted-quad IPv4 string, deduplicated.
/// A probe whose lookup failed simply contributes an empty pool.
pub fn build_suppression_set(pools: &Vec<Vec<String>>) -> (r: Vec<String>)
    ensures
        views(r@).no_duplicates(),
        forall|x: Seq<char>|
            #[trigger] views(r@).contains(x) == (pool_member(pools@, x) && is_dotted_quad(x)),
{
    let mut r: Vec<String> = Vec::new();
    let mut i: usize = 0;
    while i < pools.len()
        invariant
            i <= pools.len(),
            views(r@).no_duplicates(),
            forall|x: Seq<char>|
                #[trigger] views(r@).contains(x) == (pool_member_upto(pools@, x, i as int, 0)
                    && is_dotted_quad(x)),
        decreases pools.len() - i,
    {
        let pool = &pools[i];
        let mut j: usize = 0;
        while j < pool.len()
            invariant
                i < pools.len(),
                j <= pool.len(),
                pool == &pools[i as int],
                views(r@).no_duplicates(),
                forall|x: Seq<char>|
                    #[trigger] views(r@).contains(x) == (pool_member_upto(
                        pools@,
                        x,
                        i as int,
                        j as int,
                    ) && is_dotted_quad(x)),
            decreases pool.len() - j,
        {
            let addr = &pool[j];
            let ghost pre = r@;
            let valid = is_valid_ipv4(addr.as_str());
            if valid && !vec_contains_str(&r, addr) {
                r.push(addr.clone());
                proof {
                    assert(views(r@) =~= views(pre).push(addr@));
                }
            }
            proof {
                assert forall|x: Seq<char>|
                    #[trigger] views(r@).contains(x) == (pool_member_upto(
                        pools@,
                        x,
                        i as int,
                        j + 1,
                    ) && is_dotted_quad(x)) by {
                    if views(r@).contains(x) {
                        let k = choose|k: int| 0 <= k < views(r@).len() && views(r@)[k] == x;
                        if k < views(pre).len() {
                            assert(views(pre)[k] == x);
                            assert(views(pre).contains(x));
                            assert(pool_member_upto(pools@, x, i as int, j as int));
                            let (i0, j0) = choose|i0: int, j0: int|
                                {
                                    &&& 0 <= i0 < pools@.len()
                                    &&& 0 <= j0 < pools@[i0]@.len()
                                    &&& (i0 < i || (i0 == i && j0 < j))
                                    &&& (#[trigger] pools@[i0]@[j0])@ == x
                                };
                            assert(pools@[i0]@[j0]@ == x);
                        } else {
                            assert(x == addr@);
                            assert(pools@[i as int]@[j as int]@ == x);
                        }
                        assert(pool_member_upto(pools@, x, i as int, j + 1));
                    }
                    if pool_member_upto(pools@, x, i as int, j + 1) && is_dotted_quad(x) {
                        let (i0, j0) = choose|i0: int, j0: int|
                            {
                                &&& 0 <= i0 < pools@.len()
                                &&& 0 <= j0 < pools@[i0]@.len()
                                &&& (i0 < i || (i0 == i && j0 < j + 1))
                                &&& (#[trigger] pools@[i0]@[j0])@ == x
                            };
                        if i0 < i || j0 < j {
                            assert(pool_member_upto(pools@, x, i as int, j as int));
                            assert(views(pre).contains(x));
                            let k = choose|k: int|
                                0 <= k < views(pre).len() && views(pre)[k] == x;
                            assert(views(r@)[k] == x);
                        } else {
                            assert(x == addr@);
                            if views(pre).contains(x) {
                                let k = choose|k: int|
                                    0 <= k < views(pre).len() && views(pre)[k] == x;
                                assert(views(r@)[k] == x);
                            } else {
                                assert(views(r@).last() == x);
                            }
                        }
                        assert(views(r@).contains(x));
                    }
                }
            }
            j += 1;
        }
        proof {
            assert forall|x: Seq<char>|
                pool_member_upto(pools@, x, i as int, pool@.len() as int) == pool_member_upto(
                    pools@,
                    x,
                    i + 1,
                    0,
                ) by {
                if pool_member_upto(pools@, x, i as int, pool@.len() as int) {
                    let (i0, j0) = choose|i0: int, j0: int|
                        {
                            &&& 0 <= i0 < pools@.len()
                            &&& 0 <= j0 < pools@[i0]@.len()
                            &&& (i0 < i || (i0 == i && j0 < pool@.len()))
                            &&& (#[trigger] pools@[i0]@[j0])@ == x
                        };
                    assert(i0 < i + 1 || (i0 == i + 1 && j0 < 0));
                    assert(pool_member_upto(pools@, x, i + 1, 0));
                }
                if pool_member_upto(pools@, x, i + 1, 0) {
                    let (i0, j0) = choose|i0: int, j0: int|
                        {
                            &&& 0 <= i0 < pools@.len()
                            &&& 0 <= j0 < pools@[i0]@.len()
                            &&& (i0 < i + 1 || (i0 == i + 1 && j0 < 0))
                            &&& (#[trigger] pools@[i0]@[j0])@ == x
                        };
                    if i0 == i {
                        assert(j0 < pool@.len());
                    }
                    assert(pool_member_upto(pools@, x, i as int, pool@.len() as int));
                }
            }
        }
        i += 1;
    }
    r
}

} // verus!
