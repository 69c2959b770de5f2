//! Majority voting over the replies of repeated judge calls.

use vstd::prelude::*;
use vstd::string::StringExecFns;
use crate::text::{trim, trimmed_of};

verus! {

/// How many times one prompt is put to the judge.
pub const DEFAULT_TRIALS: usize = 9;

/// The texts of a list of strings.
pub open spec fn texts(v: Seq<String>) -> Seq<Seq<char>> {
    v.map_values(|s: String| s@)
}

/// How often `x` occurs in `pool`.
pub open spec fn occurrences(pool: Seq<Seq<char>>, x: Seq<char>) -> nat
    decreases pool.len(),
{
    if pool.len() == 0 {
        0
    } else {
        occurrences(pool.drop_last(), x) + if pool.last() == x { 1nat } else { 0nat }
    }
}

/// `k` is the first position of the pool whose reply is a most frequent one.
pub open spec fn is_first_majority(pool: Seq<Seq<char>>, k: int) -> bool {
    &&& 0 <= k < pool.len()
    &&& forall|j: int| 0 <= j < pool.len() ==> occurrences(pool, pool[j]) <= occurrences(pool, pool[k])
    &&& forall|j: int| 0 <= j < k ==> occurrences(pool, pool[j]) < occurrences(pool, pool[k])
}

/// The reply that wins a vote: the most frequent one, the first seen among
/// equally frequent ones, and the failure marker for an empty pool.
pub open spec fn winner(pool: Seq<Seq<char>>) -> Seq<char> {
    if pool.len() == 0 {
        "Error"@
    } else {
        pool[choose|k: int| is_first_majority(pool, k)]
    }
}

/// What one judge call adds to the pool: its trimmed reply, or the failure
/// marker where the call failed.
pub open spec fn pool_entry(outcome: Option<String>) -> Seq<char> {
    match outcome {
        Some(reply) => trimmed_of(reply@),
        None => "Error"@,
    }
}

/// The pool of replies for a list of judge call outcomes.
pub open spec fn pool_of(outcomes: Seq<Option<String>>) -> Seq<Seq<char>> {
    outcomes.map_values(|o: Option<String>| pool_entry(o))
}

proof fn lemma_first_majority_unique(pool: Seq<Seq<char>>, k1: int, k2: int)
    requires
        is_first_majority(pool, k1),
        is_first_majority(pool, k2),
    ensures
        k1 == k2,
{
    if k1 < k2 {
        assert(occurrences(pool, pool[k1]) < occurrences(pool, pool[k2]));
        assert(occurrences(pool, pool[k2]) <= occurrences(pool, pool[k1]));
    } else if k2 < k1 {
        assert(occurrences(pool, pool[k2]) < occurrences(pool, pool[k1]));
        assert(occurrences(pool, pool[k1]) <= occurrences(pool, pool[k2]));
    }
}

pub proof fn lemma_occurrences_bound(pool: Seq<Seq<char>>, x: Seq<char>)
    ensures
        occurrences(pool, x) <= pool.len(),
    decreases pool.len(),
{
    if pool.len() > 0 {
        lemma_occurrences_bound(pool.drop_last(), x);
    }
}

/// How often `x` occurs in `pool`.
pub fn count_of(pool: &Vec<String>, x: &String) -> (c: usize)
    ensures
        c == occurrences(texts(pool@), x@),
{
    let ghost all = texts(pool@);
    let mut c: usize = 0;
    let mut j: usize = 0;
    while j < pool.len()
        invariant
            j <= pool.len(),
            all == texts(pool@),
            c == occurrences(all.subrange(0, j as int), x@),
            c <= j,
        decreases pool.len() - j,
    {
        proof {
            assert(all.subrange(0, j + 1).drop_last() =~= all.subrange(0, j as int));
        }
        if pool[j] == *x {
            c = c + 1;
        }
        j = j + 1;
    }
    proof {
        assert(all.subrange(0, pool.len() as int) =~= all);
    }
    c
}

/// The most frequent reply of the pool, the first seen among equally frequent
/// ones; the failure marker `"Error"` for an empty pool.
pub fn majority(pool: &Vec<String>) -> (r: String)
    ensures
        r@ == winner(texts(pool@)),
{
    let ghost all = texts(pool@);
    if pool.len() == 0 {
        return String::from_str("Error");
    }
    let mut best: usize = 0;
    let mut best_count: usize = count_of(pool, &pool[0]);
    let mut i: usize = 1;
    while i < pool.len()
        invariant
            1 <= i <= pool.len(),
            all == texts(pool@),
            best < i,
            best_count == occurrences(all, all[best as int]),
            forall|j: int| 0 <= j < i ==> occurrences(all, all[j]) <= best_count,
            forall|j: int| 0 <= j < best ==> occurrences(all, all[j]) < best_count,
        decreases pool.len() - i,
    {
        let c = count_of(pool, &pool[i]);
        if c > best_count {
            best = i;
            best_count = c;
        }
        i = i + 1;
    }
    proof {
        assert(is_first_majority(all, best as int));
        let k = choose|k: int| is_first_majority(all, k);
        lemma_first_majority_unique(all, k, best as int);
    }
    pool[best].clone()
}

/// The pool of replies for a list of judge call outcomes.
pub fn response_pool(outcomes: &Vec<Option<String>>) -> (r: Vec<String>)
    ensures
        texts(r@) == pool_of(outcomes@),
{
    let mut r: Vec<String> = Vec::new();
    let mut i: usize = 0;
    while i < outcomes.len()
        invariant
            i <= outcomes.len(),
            texts(r@) =~= pool_of(outcomes@.subrange(0, i as int)),
        decreases outcomes.len() - i,
    {
        let entry = match &outcomes[i] {
            Some(reply) => trim(reply.as_str()),
            None => String::from_str("Error"),
        };
        assert(entry@ == pool_entry(outcomes@[i as int]));
        let ghost prev = r@;
        r.push(entry);
        proof {
            assert(texts(r@) =~= texts(prev).push(entry@));
            assert(outcomes@.subrange(0, i + 1) =~= outcomes@.subrange(0, i as int).push(
                outcomes@[i as int],
            ));
        }
        i = i + 1;
    }
    proof {
        assert(outcomes@.subrange(0, i as int) =~= outcomes@);
    }
    r
}

/// The reply that wins a vote over the outcomes of repeated judge calls, in
/// which each failed call counts as the reply `"Error"`.
pub fn vote(outcomes: &Vec<Option<String>>) -> (r: String)
    ensures
        r@ == winner(pool_of(outcomes@)),
{
    let pool = response_pool(outcomes);
    majority(&pool)
}

/// Where every judge call failed, the vote returns the failure marker.
pub proof fn all_failed_vote_gives_error(outcomes: Seq<Option<String>>)
    requires
        forall|i: int| 0 <= i < outcomes.len() ==> outcomes[i] is None,
    ensures
        winner(pool_of(outcomes)) == "Error"@,
{
    let pool = pool_of(outcomes);
    if pool.len() > 0 {
        assert(is_first_majority(pool, 0));
    }
}

/// The first position, among the first `i`, whose reply is a most frequent one.
spec fn first_best(pool: Seq<Seq<char>>, i: int) -> int
    decreases i,
{
    if i <= 1 {
        0
    } else {
        let b = first_best(pool, i - 1);
        if occurrences(pool, pool[i - 1]) > occurrences(pool, pool[b]) {
            i - 1
        } else {
            b
        }
    }
}

proof fn lemma_first_best(pool: Seq<Seq<char>>, i: int)
    requires
        1 <= i <= pool.len(),
    ensures
        0 <= first_best(pool, i) < i,
        forall|j: int| 0 <= j < i ==> occurrences(pool, #[trigger] pool[j]) <= occurrences(pool, pool[first_best(pool, i)]),
        forall|j: int| 0 <= j < first_best(pool, i) ==> occurrences(pool, #[trigger] pool[j]) < occurrences(pool, pool[first_best(pool, i)]),
    decreases i,
{
    if i > 1 {
        lemma_first_best(pool, i - 1);
    }
}

proof fn lemma_two_replies(pool: Seq<Seq<char>>, x: Seq<char>, y: Seq<char>)
    requires
        x != y,
    ensures
        occurrences(pool, x) + occurrences(pool, y) <= pool.len(),
    decreases pool.len(),
{
    if pool.len() > 0 {
        lemma_two_replies(pool.drop_last(), x, y);
    }
}

proof fn lemma_occurs_somewhere(pool: Seq<Seq<char>>, x: Seq<char>) -> (j: int)
    requires
        occurrences(pool, x) > 0,
    ensures
        0 <= j < pool.len(),
        pool[j] == x,
    decreases pool.len(),
{
    if pool.last() == x {
        pool.len() - 1
    } else {
        let j = lemma_occurs_somewhere(pool.drop_last(), x);
        assert(pool.drop_last()[j] == pool[j]);
        j
    }
}

/// A reply that makes up more than half of the pool wins the vote.
pub proof fn strict_majority_wins(pool: Seq<Seq<char>>, reply: Seq<char>)
    requires
        2 * occurrences(pool, reply) > pool.len(),
    ensures
        winner(pool) == reply,
{
    let j = lemma_occurs_somewhere(pool, reply);
    lemma_first_best(pool, pool.len() as int);
    assert(is_first_majority(pool, first_best(pool, pool.len() as int)));
    let k = choose|k: int| is_first_majority(pool, k);
    if pool[k] != reply {
        lemma_two_replies(pool, pool[k], reply);
        assert(occurrences(pool, pool[j]) <= occurrences(pool, pool[k]));
    }
}

} // verus!
