//! The bounded-concurrency dispatcher, modelled as a state machine. The
//! caller starts hosts while capacity allows, runs the lookups however it
//! likes, and hands each outcome back; the dispatcher enforces the ceiling
//! on simultaneously in-flight hosts and aggregates one record per host.

use vstd::prelude::*;
use vstd::seq_lib::seq_to_set_is_finite;
use vstd::set_lib::lemma_subset_equality;
use crate::effective_threads;
use crate::names::views;
use crate::record::DomainData;

verus! {

/// The host names of the collected results, in completion order.
pub open spec fn result_keys(rs: Seq<(String, DomainData)>) -> Seq<Seq<char>> {
    rs.map_values(|p: (String, DomainData)| p.0@)
}

/// The state of one resolution run over a fixed candidate set.
pub struct Dispatcher {
    /// The candidate hosts, deduplicated, in submission order.
    pub hosts: Vec<String>,
    /// How many hosts have been started so far; hosts are started in order.
    pub next_idx: usize,
    /// The hosts whose lookups are currently in flight.
    pub in_flight: Vec<String>,
    /// The aggregated mapping: one entry per completed host.
    pub results: Vec<(String, DomainData)>,
    /// The ceiling on simultaneously in-flight hosts.
    pub limit: usize,
}

impl Dispatcher {
    /// `x` is one of the hosts started so far.
    pub open spec fn started(self, x: Seq<char>) -> bool {
        views(self.hosts@).subrange(0, self.next_idx as int).contains(x)
    }

    /// The dispatcher's invariant: the in-flight count never exceeds the
    /// ceiling, every started host is in flight or completed but not both,
    /// and no host is started twice.
    pub open spec fn wf(self) -> bool {
        &&& self.next_idx <= self.hosts@.len()
        &&& self.in_flight@.len() <= self.limit
        &&& views(self.hosts@).no_duplicates()
        &&& views(self.in_flight@).no_duplicates()
        &&& result_keys(self.results@).no_duplicates()
        &&& (forall|x: Seq<char>|
            #[trigger] views(self.in_flight@).contains(x) ==> !result_keys(
                self.results@,
            ).contains(x))
        &&& (forall|x: Seq<char>|
            #[trigger] views(self.in_flight@).contains(x) ==> self.started(x))
        &&& (forall|x: Seq<char>|
            #[trigger] result_keys(self.results@).contains(x) ==> self.started(x))
        &&& self.in_flight@.len() + self.results@.len() == self.next_idx
    }

    /// A fresh run over `hosts` with the given thread ceiling; the effective
    /// ceiling never exceeds either the configured threads or the host count.
    pub fn new(hosts: Vec<String>, threads: usize) -> (r: Dispatcher)
        requires
            views(hosts@).no_duplicates(),
        ensures
            r.wf(),
            r.hosts@ == hosts@,
            r.next_idx == 0,
            r.in_flight@.len() == 0,
            r.results@.len() == 0,
            r.limit <= threads,
            r.limit == if hosts@.len() < threads {
                hosts@.len() as int
            } else {
                threads as int
            },
    {
        let limit = effective_threads(threads, hosts.len());
        Dispatcher { hosts, next_idx: 0, in_flight: Vec::new(), results: Vec::new(), limit }
    }

    /// Starts the next pending host if one remains and the ceiling allows,
    /// returning its name; returns nothing when the queue is drained or the
    /// ceiling is reached.
    pub fn start_next(&mut self) -> (r: Option<String>)
        requires
            old(self).wf(),
        ensures
            final(self).wf(),
            final(self).hosts@ == old(self).hosts@,
            final(self).limit == old(self).limit,
            final(self).results@ == old(self).results@,
            r is Some <==> (old(self).next_idx < old(self).hosts@.len()
                && old(self).in_flight@.len() < old(self).limit),
            match r {
                Some(h) => {
                    &&& h@ == views(old(self).hosts@)[old(self).next_idx as int]
                    &&& final(self).next_idx == old(self).next_idx + 1
                    &&& views(final(self).in_flight@) == views(old(self).in_flight@).push(h@)
                },
                None => *final(self) == *old(self),
            },
    {
        if self.next_idx < self.hosts.len() && self.in_flight.len() < self.limit {
            let ghost pre = *self;
            let idx = self.next_idx;
            let h = self.hosts[idx].clone();
            let out = h.clone();
            self.in_flight.push(h);
            self.next_idx = idx + 1;
            proof {
                let hv = views(pre.hosts@);
                let x = hv[idx as int];
                assert(views(self.in_flight@) =~= views(pre.in_flight@).push(x));
                assert(!views(pre.in_flight@).contains(x) && !result_keys(
                    pre.results@,
                ).contains(x)) by {
                    if views(pre.in_flight@).contains(x) || result_keys(
                        pre.results@,
                    ).contains(x) {
                        let sub = hv.subrange(0, idx as int);
                        assert(sub.contains(x));
                        let j = choose|j: int| 0 <= j < sub.len() && sub[j] == x;
                        assert(hv[j] == x && j < idx);
                        assert(false);
                    }
                }
                assert(views(self.in_flight@).no_duplicates()) by {
                    let n = views(pre.in_flight@).len() as int;
                    assert forall|i: int, j: int|
                        0 <= i < j < views(self.in_flight@).len() implies views(
                        self.in_flight@,
                    )[i] != views(self.in_flight@)[j] by {
                        if j == n {
                            if views(self.in_flight@)[i] == x {
                                assert(views(pre.in_flight@)[i] == x);
                                assert(views(pre.in_flight@).contains(x));
                            }
                        }
                    }
                }
                assert forall|y: Seq<char>|
                    #[trigger] views(self.in_flight@).contains(y) implies self.started(y)
                    && !result_keys(self.results@).contains(y) by {
                    let k = choose|k: int|
                        0 <= k < views(self.in_flight@).len() && views(self.in_flight@)[k] == y;
                    let newsub = hv.subrange(0, idx + 1);
                    if k < views(pre.in_flight@).len() {
                        assert(views(pre.in_flight@).contains(y));
                        assert(pre.started(y));
                        let oldsub = hv.subrange(0, idx as int);
                        let j = choose|j: int| 0 <= j < oldsub.len() && oldsub[j] == y;
                        assert(newsub[j] == y);
                    } else {
                        assert(y == x);
                        assert(newsub[idx as int] == y);
                    }
                    assert(newsub.contains(y));
                }
                assert forall|y: Seq<char>|
                    #[trigger] result_keys(self.results@).contains(y) implies self.started(
                    y,
                ) by {
                    assert(pre.started(y));
                    let oldsub = hv.subrange(0, idx as int);
                    let newsub = hv.subrange(0, idx + 1);
                    let j = choose|j: int| 0 <= j < oldsub.len() && oldsub[j] == y;
                    assert(newsub[j] == y);
                    assert(newsub.contains(y));
                }
            }
            Some(out)
        } else {
            None
        }
    }

    /// Hands back the outcome for an in-flight host: the host leaves the
    /// in-flight set and its record joins the aggregated results.
    pub fn complete(&mut self, host: String, record: DomainData)
        requires
            old(self).wf(),
            views(old(self).in_flight@).contains(host@),
        ensures
            final(self).wf(),
            final(self).hosts@ == old(self).hosts@,
            final(self).limit == old(self).limit,
            final(self).next_idx == old(self).next_idx,
            final(self).in_flight@.len() == old(self).in_flight@.len() - 1,
            final(self).results@ == old(self).results@.push((host, record)),
            !views(final(self).in_flight@).contains(host@),
            forall|x: Seq<char>|
                x != host@ ==> #[trigger] views(final(self).in_flight@).contains(x) == views(
                    old(self).in_flight@,
                ).contains(x),
    {
        let ghost pre = *self;
        let mut k: usize = 0;
        while k < self.in_flight.len() && !(self.in_flight[k] == host)
            invariant
                *self == pre,
                k <= self.in_flight@.len(),
                forall|j: int| 0 <= j < k ==> views(pre.in_flight@)[j] != host@,
            decreases self.in_flight@.len() - k,
        {
            k += 1;
        }
        proof {
            let j = choose|j: int|
                0 <= j < views(pre.in_flight@).len() && views(pre.in_flight@)[j] == host@;
            assert(k < self.in_flight@.len());
            assert(views(pre.in_flight@)[k as int] == host@);
        }
        self.in_flight.remove(k);
        self.results.push((host, record));
        proof {
            let fv = views(pre.in_flight@);
            let nfv = views(self.in_flight@);
            fv.remove_ensures(k as int);
            pre.in_flight@.remove_ensures(k as int);
            assert(nfv =~= fv.remove(k as int));
            assert(result_keys(self.results@) =~= result_keys(pre.results@).push(host@));
            // membership of the shrunken in-flight set
            assert forall|x: Seq<char>| #[trigger] nfv.contains(x) implies fv.contains(x) by {
                let i = choose|i: int| 0 <= i < nfv.len() && nfv[i] == x;
                if i < k {
                    assert(fv[i] == x);
                } else {
                    assert(fv[i + 1] == x);
                }
            }
            assert(!nfv.contains(host@)) by {
                if nfv.contains(host@) {
                    let i = choose|i: int| 0 <= i < nfv.len() && nfv[i] == host@;
                    if i < k {
                        assert(fv[i] == host@);
                    } else {
                        assert(fv[i + 1] == host@);
                    }
                    assert(false);
                }
            }
            assert forall|x: Seq<char>|
                x != host@ && #[trigger] fv.contains(x) implies nfv.contains(x) by {
                let i = choose|i: int| 0 <= i < fv.len() && fv[i] == x;
                if i < k {
                    assert(nfv[i] == x);
                } else {
                    assert(i != k);
                    assert(nfv[i - 1] == x);
                }
            }
            assert(nfv.no_duplicates()) by {
                assert forall|i: int, j: int| 0 <= i < j < nfv.len() implies nfv[i] != nfv[j] by {
                    let i0: int = if i < k {
                        i
                    } else {
                        i + 1
                    };
                    let j0: int = if j < k {
                        j
                    } else {
                        j + 1
                    };
                    assert(nfv[i] == fv[i0] && nfv[j] == fv[j0]);
                }
            }
            let rk = result_keys(pre.results@);
            let nrk = result_keys(self.results@);
            assert(!rk.contains(host@));
            assert(nrk.no_duplicates()) by {
                assert forall|i: int, j: int| 0 <= i < j < nrk.len() implies nrk[i] != nrk[j] by {
                    if j == rk.len() {
                        if nrk[i] == host@ {
                            assert(rk[i] == host@);
                            assert(rk.contains(host@));
                        }
                    }
                }
            }
            assert forall|x: Seq<char>| #[trigger] nrk.contains(x) implies self.started(x) by {
                let i = choose|i: int| 0 <= i < nrk.len() && nrk[i] == x;
                if i < rk.len() {
                    assert(rk[i] == x);
                    assert(rk.contains(x));
                } else {
                    assert(x == host@);
                    assert(pre.started(x));
                }
            }
            assert forall|x: Seq<char>|
                #[trigger] nfv.contains(x) implies !nrk.contains(x) && self.started(x) by {
                assert(fv.contains(x));
                if nrk.contains(x) {
                    let i = choose|i: int| 0 <= i < nrk.len() && nrk[i] == x;
                    if i < rk.len() {
                        assert(rk[i] == x);
                        assert(rk.contains(x));
                        assert(false);
                    } else {
                        assert(x == host@);
                        assert(false);
                    }
                }
            }
        }
    }

    /// The run is finished: every host was started and every lookup came back.
    pub fn is_done(&self) -> (r: bool)
        ensures
            r == (self.next_idx == self.hosts@.len() && self.in_flight@.len() == 0),
    {
        self.next_idx == self.hosts.len() && self.in_flight.len() == 0
    }
}

/// Bounded concurrency: a well-formed dispatcher never has more in-flight
/// hosts than its ceiling, which `new` caps by the configured thread count.
pub proof fn lemma_bounded_in_flight(d: Dispatcher)
    requires
        d.wf(),
    ensures
        d.in_flight@.len() <= d.limit,
{
}

/// When a run is finished, the aggregated mapping holds exactly one record
/// per candidate host.
pub proof fn lemma_run_complete(d: Dispatcher)
    requires
        d.wf(),
        d.next_idx == d.hosts@.len(),
        d.in_flight@.len() == 0,
    ensures
        d.results@.len() == d.hosts@.len(),
        result_keys(d.results@).no_duplicates(),
        forall|x: Seq<char>|
            #[trigger] result_keys(d.results@).contains(x) == views(d.hosts@).contains(x),
{
    broadcast use seq_to_set_is_finite;

    let keys = result_keys(d.results@);
    let hv = views(d.hosts@);
    assert(hv.subrange(0, d.next_idx as int) =~= hv);
    assert forall|x: Seq<char>| #[trigger] keys.contains(x) implies hv.contains(x) by {
        assert(d.started(x));
    }
    keys.unique_seq_to_set();
    hv.unique_seq_to_set();
    assert(keys.to_set().subset_of(hv.to_set()));
    lemma_subset_equality(keys.to_set(), hv.to_set());
    assert forall|x: Seq<char>| hv.contains(x) implies keys.contains(x) by {
        assert(hv.to_set().contains(x));
        assert(keys.to_set().contains(x));
    }
}

} // verus!
