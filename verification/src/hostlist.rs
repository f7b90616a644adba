//! The host-list builder: raw input lines, optionally suffixed with a target
//! domain, deduplicated into the candidate set.

use vstd::prelude::*;
use crate::hostname::join_host;
use crate::names::{views, vec_contains_str};

verus! {

/// The candidate name an input line produces: the line itself in pure
/// hostlist mode, or `line.domain` in brute-force mode.
pub open spec fn candidate(line: Seq<char>, domain: Option<Seq<char>>) -> Seq<char> {
    match domain {
        Some(d) => line + seq!['.'] + d,
        None => line,
    }
}

/// The character sequence of an optional domain argument.
pub open spec fn domain_view(domain: Option<&String>) -> Option<Seq<char>> {
    match domain {
        Some(d) => Some(d@),
        None => None,
    }
}

/// `x` is the candidate of one of the first `n` input lines.
pub open spec fn is_candidate_of(
    x: Seq<char>,
    lines: Seq<String>,
    domain: Option<Seq<char>>,
    n: int,
) -> bool {
    exists|j: int| 0 <= j < n && x == candidate(#[trigger] lines[j]@, domain)
}

/// `x` is the `:53`-suffixed endpoint of one of the first `n` non-empty lines.
pub open spec fn is_endpoint_of(x: Seq<char>, lines: Seq<String>, n: int) -> bool {
    exists|j: int| 0 <= j < n && #[trigger] lines[j]@.len() > 0 && x == lines[j]@ + ":53"@
}

/// Builds the deduplicated candidate host set from the input lines. Each
/// line is kept as-is, or joined with the target domain in brute-force mode;
/// the first occurrence of a name decides its position.
pub fn build_hosts(lines: &Vec<String>, domain: Option<&String>) -> (r: Vec<String>)
    ensures
        views(r@).no_duplicates(),
        forall|x: Seq<char>|
            #[trigger] views(r@).contains(x) == is_candidate_of(
                x,
                lines@,
                domain_view(domain),
                lines@.len() as int,
            ),
{
    let ghost dv = domain_view(domain);
    let mut r: Vec<String> = Vec::new();
    let mut i: usize = 0;
    while i < lines.len()
        invariant
            i <= lines.len(),
            views(r@).no_duplicates(),
            forall|x: Seq<char>|
                #[trigger] views(r@).contains(x) == is_candidate_of(x, lines@, dv, i as int),
            dv == domain_view(domain),
        decreases lines.len() - i,
    {
        let name = match domain {
            Some(d) => join_host(lines[i].as_str(), d.as_str()),
            None => lines[i].clone(),
        };
        assert(name@ == candidate(lines@[i as int]@, dv));
        let ghost pre = r@;
        if !vec_contains_str(&r, &name) {
            r.push(name);
            proof {
                assert(views(r@) =~= views(pre).push(candidate(lines@[i as int]@, dv)));
            }
        }
        proof {
            assert forall|x: Seq<char>|
                #[trigger] views(r@).contains(x) == is_candidate_of(
                    x,
                    lines@,
                    dv,
                    i + 1,
                ) by {
                if views(r@).contains(x) {
                    let k = choose|k: int| 0 <= k < views(r@).len() && views(r@)[k] == x;
                    if k < views(pre).len() {
                        assert(views(pre)[k] == x);
                        assert(views(pre).contains(x));
                        assert(is_candidate_of(x, lines@, dv, i as int));
                        let j = choose|j: int|
                            0 <= j < i && x == candidate(#[trigger] lines@[j]@, dv);
                        assert(x == candidate(lines@[j]@, dv));
                    } else {
                        assert(x == candidate(lines@[i as int]@, dv));
                    }
                    assert(is_candidate_of(x, lines@, dv, i + 1));
                }
                if is_candidate_of(x, lines@, dv, i + 1) {
                    let j = choose|j: int|
                        0 <= j < i + 1 && x == candidate(#[trigger] lines@[j]@, dv);
                    if j < i {
                        assert(is_candidate_of(x, lines@, dv, i as int));
                        assert(views(pre).contains(x));
                        let k = choose|k: int| 0 <= k < views(pre).len() && views(pre)[k] == x;
                        assert(views(r@)[k] == x);
                    } else {
                        if views(pre).contains(x) {
                            let k = choose|k: int|
                                0 <= k < views(pre).len() && views(pre)[k] == x;
                            assert(views(r@)[k] == x);
                        } else {
                            assert(views(r@).last() == x);
                        }
                    }
                    assert(views(r@).contains(x));
                }
            }
        }
        i += 1;
    }
    r
}

/// Builds the nameserver endpoint set from the lines of a resolver list:
/// every non-empty line is suffixed with the standard DNS port, deduplicated.
pub fn nameserver_endpoints(lines: &Vec<String>) -> (r: Vec<String>)
    ensures
        views(r@).no_duplicates(),
        forall|x: Seq<char>|
            #[trigger] views(r@).contains(x) == is_endpoint_of(x, lines@, lines@.len() as int),
{
    let mut r: Vec<String> = Vec::new();
    let mut i: usize = 0;
    while i < lines.len()
        invariant
            i <= lines.len(),
            views(r@).no_duplicates(),
            forall|x: Seq<char>|
                #[trigger] views(r@).contains(x) == is_endpoint_of(x, lines@, i as int),
        decreases lines.len() - i,
    {
        let ghost pre = r@;
        if !lines[i].as_str().is_empty() {
            let mut name = lines[i].clone();
            name.append(":53");
            assert(name@ == lines@[i as int]@ + ":53"@);
            if !vec_contains_str(&r, &name) {
                r.push(name);
                proof {
                    assert(views(r@) =~= views(pre).push(lines@[i as int]@ + ":53"@));
                }
            }
        }
        proof {
            assert forall|x: Seq<char>|
                #[trigger] views(r@).contains(x) == is_endpoint_of(x, lines@, i + 1) by {
                if views(r@).contains(x) {
                    let k = choose|k: int| 0 <= k < views(r@).len() && views(r@)[k] == x;
                    if k < views(pre).len() {
                        assert(views(pre)[k] == x);
                        assert(views(pre).contains(x));
                        assert(is_endpoint_of(x, lines@, i as int));
                        let j = choose|j: int|
                            0 <= j < i && #[trigger] lines@[j]@.len() > 0 && x == lines@[j]@
                                + ":53"@;
                        assert(lines@[j]@.len() > 0 && x == lines@[j]@ + ":53"@);
                    } else {
                        assert(lines@[i as int]@.len() > 0 && x == lines@[i as int]@ + ":53"@);
                    }
                    assert(is_endpoint_of(x, lines@, i + 1));
                }
                if is_endpoint_of(x, lines@, i + 1) {
                    let j = choose|j: int|
                        0 <= j < i + 1 && #[trigger] lines@[j]@.len() > 0 && x == lines@[j]@
                            + ":53"@;
                    if j < i {
                        assert(is_endpoint_of(x, lines@, i as int));
                        assert(views(pre).contains(x));
                        let k = choose|k: int| 0 <= k < views(pre).len() && views(pre)[k] == x;
                        assert(views(r@)[k] == x);
                    } else {
                        if views(pre).contains(x) {
                            let k = choose|k: int|
                                0 <= k < views(pre).len() && views(pre)[k] == x;
                            assert(views(r@)[k] == x);
                        } else {
                            assert(views(r@).last() == x);
                        }
                    }
                    assert(views(r@).contains(x));
                }
            }
        }
        i += 1;
    }
    r
}

} // verus!
