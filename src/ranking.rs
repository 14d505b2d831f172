//! Ranking of query results: nearest first, then latest expiry first, then
//! store order, keeping at most a given number.

use vstd::prelude::*;
use vstd::set_lib::lemma_len_subset;

verus! {

/// One result of a query: its distance from the query point in meters, its expiry,
/// and its position in the store.
#[derive(Clone, Copy, Debug, PartialEq, Eq, Structural)]
pub struct Candidate {
    pub distance: u64,
    pub expires_at: i64,
    pub index: usize,
}

/// `a` comes before `b`: it is nearer, or as near and expires later, or ties on
/// both and comes first in the store.
pub open spec fn ranks_before(a: Candidate, b: Candidate) -> bool {
    ||| a.distance < b.distance
    ||| a.distance == b.distance && a.expires_at > b.expires_at
    ||| a.distance == b.distance && a.expires_at == b.expires_at && a.index < b.index
}

pub open spec fn distinct_indices(c: Seq<Candidate>) -> bool {
    forall|i: int, j: int| 0 <= i < j < c.len() ==> c[i].index != c[j].index
}

/// `r` is the first `cap` candidates of `c` in ranking order, or all of them when
/// there are fewer.
pub open spec fn is_top_ranked(c: Seq<Candidate>, cap: nat, r: Seq<Candidate>) -> bool {
    &&& r.len() <= cap
    &&& forall|i: int| 0 <= i < r.len() ==> c.contains(r[i])
    &&& forall|i: int, j: int| 0 <= i < j < r.len() ==> ranks_before(r[i], r[j])
    &&& forall|x: Candidate|
        c.contains(x) && !r.contains(x) ==> {
            &&& r.len() == cap
            &&& forall|i: int| 0 <= i < r.len() ==> ranks_before(r[i], x)
        }
}

fn precedes(a: Candidate, b: Candidate) -> (r: bool)
    ensures
        r == ranks_before(a, b),
{
    a.distance < b.distance || (a.distance == b.distance && a.expires_at > b.expires_at) || (
    a.distance == b.distance && a.expires_at == b.expires_at && a.index < b.index)
}

/// Eligible for the next pick: after the last one picked, if any.
pub open spec fn after_last(r: Seq<Candidate>, x: Candidate) -> bool {
    r.len() == 0 || ranks_before(r.last(), x)
}

/// The first `cap` candidates in ranking order.
pub fn top_ranked(c: &Vec<Candidate>, cap: usize) -> (r: Vec<Candidate>)
    requires
        distinct_indices(c@),
    ensures
        is_top_ranked(c@, cap as nat, r@),
{
    let mut r: Vec<Candidate> = Vec::new();
    while r.len() < cap
        invariant
            distinct_indices(c@),
            r@.len() <= cap,
            forall|i: int| 0 <= i < r@.len() ==> c@.contains(r@[i]),
            forall|i: int, j: int| 0 <= i < j < r@.len() ==> ranks_before(r@[i], r@[j]),
            forall|x: Candidate|
                c@.contains(x) && !r@.contains(x) ==> forall|i: int|
                    0 <= i < r@.len() ==> ranks_before(r@[i], x),
        ensures
            r@.len() <= cap,
            forall|i: int| 0 <= i < r@.len() ==> c@.contains(r@[i]),
            forall|i: int, j: int| 0 <= i < j < r@.len() ==> ranks_before(r@[i], r@[j]),
            forall|x: Candidate|
                c@.contains(x) && !r@.contains(x) ==> {
                    &&& r@.len() == cap
                    &&& forall|i: int| 0 <= i < r@.len() ==> ranks_before(r@[i], x)
                },
        decreases cap - r@.len(),
    {
        let mut best: Option<usize> = None;
        let mut k: usize = 0;
        while k < c.len()
            invariant
                distinct_indices(c@),
                k <= c@.len(),
                best matches Some(b) ==> b < c@.len() && after_last(r@, c@[b as int]),
                forall|j: int|
                    0 <= j < k && after_last(r@, c@[j]) ==> (best is Some && (c@[j]
                        == c@[best->0 as int] || ranks_before(c@[best->0 as int], c@[j]))),
            decreases c@.len() - k,
        {
            let x = c[k];
            let eligible = r.len() == 0 || precedes(r[r.len() - 1], x);
            if eligible {
                match best {
                    None => {
                        best = Some(k);
                    },
                    Some(b) => {
                        if precedes(x, c[b]) {
                            proof {
                                assert forall|j: int|
                                    0 <= j < k && after_last(r@, c@[j]) implies (c@[j] == c@[k as int]
                                        || ranks_before(c@[k as int], c@[j])) by {
                                    assert(c@[j] == c@[b as int] || ranks_before(c@[b as int], c@[j]));
                                }
                            }
                            best = Some(k);
                        } else {
                            proof {
                                if c@[k as int] != c@[b as int] {
                                    if (k as int) < (b as int) {
                                        assert(c@[k as int].index != c@[b as int].index);
                                    } else {
                                        assert(c@[b as int].index != c@[k as int].index);
                                    }
                                }
                            }
                        }
                    },
                }
            }
            k = k + 1;
        }
        match best {
            None => {
                proof {
                    assert forall|x: Candidate| c@.contains(x) && !r@.contains(x) implies false by {
                        let j = choose|j: int| 0 <= j < c@.len() && c@[j] == x;
                        assert(!after_last(r@, c@[j]));
                        assert(r@.len() > 0);
                        assert(ranks_before(r@[r@.len() - 1], x));
                    }
                }
                break;
            },
            Some(b) => {
                let ghost old_r = r@;
                let pick = c[b];
                r.push(pick);
                proof {
                    assert(r@ == old_r.push(pick));
                    assert(c@.contains(pick)) by {
                        assert(c@[b as int] == pick);
                    }
                    assert forall|i: int, j: int| 0 <= i < j < r@.len() implies ranks_before(r@[i], r@[j]) by {
                        if j == r@.len() - 1 && i < j {
                            assert(after_last(old_r, pick));
                            if i < old_r.len() - 1 {
                                assert(ranks_before(old_r[i], old_r.last()));
                            }
                        }
                    }
                    assert forall|x: Candidate| c@.contains(x) && !r@.contains(x) implies forall|i: int|
                        0 <= i < r@.len() ==> ranks_before(r@[i], x) by {
                        let j = choose|j: int| 0 <= j < c@.len() && c@[j] == x;
                        assert(!old_r.contains(x)) by {
                            if old_r.contains(x) {
                                let q = choose|q: int| 0 <= q < old_r.len() && old_r[q] == x;
                                assert(r@[q] == x);
                            }
                        }
                        assert(x != pick) by {
                            assert(r@[r@.len() - 1] == pick);
                        }
                        if old_r.len() > 0 {
                            assert(ranks_before(old_r[old_r.len() - 1], x));
                        }
                        assert(after_last(old_r, c@[j]));
                        assert(c@[j] == c@[b as int] || ranks_before(c@[b as int], c@[j]));
                    }
                    assert forall|i: int| 0 <= i < r@.len() implies c@.contains(r@[i]) by {
                        if i < old_r.len() {
                            assert(r@[i] == old_r[i]);
                        }
                    }
                }
            },
        }
    }
    r
}

pub open spec fn candidate_at(dist: spec_fn(int) -> u64, expiry: spec_fn(int) -> i64, i: int) -> Candidate {
    Candidate { distance: dist(i), expires_at: expiry(i), index: i as usize }
}

/// The candidates among store positions below `n` that `keep` admits, in store order.
pub open spec fn candidates_upto(keep: spec_fn(int) -> bool, dist: spec_fn(int) -> u64, expiry: spec_fn(int) -> i64, n: int) -> Seq<Candidate>
    decreases n,
{
    if n <= 0 {
        Seq::empty()
    } else {
        let prev = candidates_upto(keep, dist, expiry, n - 1);
        if keep(n - 1) {
            prev.push(candidate_at(dist, expiry, n - 1))
        } else {
            prev
        }
    }
}

/// A position is a candidate exactly when `keep` admits it; positions are distinct.
pub proof fn lemma_candidates(keep: spec_fn(int) -> bool, dist: spec_fn(int) -> u64, expiry: spec_fn(int) -> i64, n: int)
    requires
        0 <= n <= usize::MAX + 1,
    ensures
        distinct_indices(candidates_upto(keep, dist, expiry, n)),
        forall|i: int|
            0 <= i < candidates_upto(keep, dist, expiry, n).len() ==> {
                let c = #[trigger] candidates_upto(keep, dist, expiry, n)[i];
                &&& 0 <= c.index < n
                &&& keep(c.index as int)
                &&& c == candidate_at(dist, expiry, c.index as int)
            },
        forall|j: int|
            0 <= j < n ==> (candidates_upto(keep, dist, expiry, n).contains(
                #[trigger] candidate_at(dist, expiry, j),
            ) <==> keep(j)),
    decreases n,
{
    if n > 0 {
        lemma_candidates(keep, dist, expiry, n - 1);
        let prev = candidates_upto(keep, dist, expiry, n - 1);
        let cur = candidates_upto(keep, dist, expiry, n);
        let last = candidate_at(dist, expiry, n - 1);
        assert forall|j: int| 0 <= j < n implies (cur.contains(#[trigger] candidate_at(dist, expiry, j)) <==> keep(j)) by {
            let cj = candidate_at(dist, expiry, j);
            if j < n - 1 {
                assert(cj != last) by {
                    assert(cj.index != last.index);
                }
                if keep(n - 1) {
                    if prev.contains(cj) {
                        let q = choose|q: int| 0 <= q < prev.len() && prev[q] == cj;
                        assert(cur[q] == cj);
                    }
                    if cur.contains(cj) {
                        let q = choose|q: int| 0 <= q < cur.len() && cur[q] == cj;
                        assert(q < prev.len());
                        assert(prev[q] == cj);
                    }
                }
            } else {
                if keep(n - 1) {
                    assert(cur[cur.len() - 1] == last);
                } else {
                    if cur.contains(cj) {
                        let q = choose|q: int| 0 <= q < cur.len() && cur[q] == cj;
                        assert(prev[q].index < n - 1);
                    }
                }
            }
        }
    }
}

/// The candidates that rank before `x`.
pub open spec fn ranked_before(x: Candidate) -> spec_fn(Candidate) -> bool {
    |y: Candidate| ranks_before(y, x)
}

/// How many candidates of `c` rank before `x`.
pub open spec fn precedes_count(c: Seq<Candidate>, x: Candidate) -> nat {
    c.filter(ranked_before(x)).len()
}

proof fn lemma_ranked_no_duplicates(r: Seq<Candidate>)
    requires
        forall|i: int, j: int| 0 <= i < j < r.len() ==> ranks_before(r[i], r[j]),
    ensures
        r.no_duplicates(),
        r.to_set().len() == r.len(),
{
    assert forall|i: int, j: int| 0 <= i < r.len() && 0 <= j < r.len() && i != j implies r[i] != r[j] by {
        if i < j {
            assert(ranks_before(r[i], r[j]));
        } else {
            assert(ranks_before(r[j], r[i]));
        }
    }
    r.unique_seq_to_set();
}

/// A candidate that fewer than `cap` candidates rank before is among the first `cap`.
pub proof fn lemma_top_ranked_keeps(c: Seq<Candidate>, cap: nat, r: Seq<Candidate>, x: Candidate)
    requires
        is_top_ranked(c, cap, r),
        c.contains(x),
        precedes_count(c, x) < cap,
    ensures
        r.contains(x),
{
    broadcast use vstd::seq_lib::group_seq_properties;
    if !r.contains(x) {
        let f = c.filter(ranked_before(x));
        lemma_ranked_no_duplicates(r);
        assert forall|y: Candidate| r.to_set().contains(y) implies f.to_set().contains(y) by {
            let i = choose|i: int| 0 <= i < r.len() && r[i] == y;
            assert(c.contains(y));
            let k = choose|k: int| 0 <= k < c.len() && c[k] == y;
            assert(ranks_before(y, x));
            c.lemma_filter_contains(ranked_before(x), k);
        }
        f.lemma_cardinality_of_set();
        lemma_len_subset(r.to_set(), f.to_set());
    }
}

/// With room for every candidate, the ranking keeps every candidate.
pub proof fn lemma_top_ranked_all(c: Seq<Candidate>, cap: nat, r: Seq<Candidate>)
    requires
        is_top_ranked(c, cap, r),
        c.len() <= cap,
    ensures
        forall|x: Candidate| c.contains(x) ==> r.contains(x),
{
    broadcast use vstd::seq_lib::group_seq_properties;
    assert forall|x: Candidate| c.contains(x) implies r.contains(x) by {
        if !r.contains(x) {
            lemma_ranked_no_duplicates(r);
            let s = r.to_set().insert(x);
            assert(!r.to_set().contains(x));
            assert forall|y: Candidate| s.contains(y) implies c.to_set().contains(y) by {
                if y != x {
                    let i = choose|i: int| 0 <= i < r.len() && r[i] == y;
                }
            }
            c.lemma_cardinality_of_set();
            lemma_len_subset(s, c.to_set());
        }
    }
}

} // verus!
