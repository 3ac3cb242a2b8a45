use vstd::prelude::*;
use rand::Rng;
use std::collections::HashSet;
use crate::ch02::{lemma_swap_permutes, permutes};

verus! {

broadcast use vstd::std_specs::hash::group_hash_axioms;

/// Relies on rand's `Rng::random_range`, on the thread-local generator, for
/// `lo..=hi`: a value drawn from that range, which must not be empty.
#[verifier::external_body]
fn random_in(lo: usize, hi: usize) -> (r: usize)
    requires
        lo <= hi,
    ensures
        lo <= r <= hi,
{
    rand::rng().random_range(lo..=hi)
}

/// The best rank among the first `i` candidates, `0` before any.
pub open spec fn best_before(ranks: Seq<u32>, i: int) -> u32
    decreases i,
{
    if i <= 0 {
        0
    } else {
        let b = best_before(ranks, i - 1);
        if ranks[i - 1] > b {
            ranks[i - 1]
        } else {
            b
        }
    }
}

/// The candidates among the first `n` that are hired: each one who is better
/// than every candidate seen before (and better than rank `0`).
pub open spec fn hired(ranks: Seq<u32>, n: int) -> Seq<usize>
    decreases n,
{
    if n <= 0 {
        Seq::empty()
    } else if ranks[n - 1] > best_before(ranks, n - 1) {
        hired(ranks, n - 1).push((n - 1) as usize)
    } else {
        hired(ranks, n - 1)
    }
}

/// The indices of the candidates that are hired when they are interviewed in
/// order and each one better than all before is hired.
pub fn hire_assistant(ranks: &[u32]) -> (r: Vec<usize>)
    ensures
        r@ == hired(ranks@, ranks@.len() as int),
{
    let mut hired_so_far: Vec<usize> = Vec::new();
    let mut best_rank: u32 = 0;
    for i in 0..ranks.len()
        invariant
            best_rank == best_before(ranks@, i as int),
            hired_so_far@ == hired(ranks@, i as int),
    {
        if ranks[i] > best_rank {
            best_rank = ranks[i];
            hired_so_far.push(i);
        }
    }
    hired_so_far
}

/// The online choice among `scores`: after rejecting the first `k`, the first
/// candidate better than all of them, or the last candidate if none is.
pub fn online_maximum_aux(k: usize, scores: &[u32]) -> (r: usize)
    requires
        k <= scores@.len(),
        scores@.len() > 0,
    ensures
        r < scores@.len(),
        (exists|x: int| k <= x < scores@.len() && scores@[x] > best_before(scores@, k as int)) ==> {
            &&& k <= r
            &&& scores@[r as int] > best_before(scores@, k as int)
            &&& forall|x: int| k <= x < r ==> scores@[x] <= best_before(scores@, k as int)
        },
        !(exists|x: int| k <= x < scores@.len() && scores@[x] > best_before(scores@, k as int)) ==> r
            == scores@.len() - 1,
{
    let mut best_score: u32 = 0;
    for i in 0..k
        invariant
            k <= scores@.len(),
            best_score == best_before(scores@, i as int),
    {
        if scores[i] > best_score {
            best_score = scores[i];
        }
    }
    let n = scores.len();
    for i in k..n
        invariant
            n == scores@.len(),
            best_score == best_before(scores@, k as int),
            forall|x: int| k <= x < i ==> scores@[x] <= best_score,
    {
        if scores[i] > best_score {
            return i;
        }
    }
    n - 1
}

/// Rearranges `a` into an order drawn at random: each position in turn takes
/// an element drawn from those not yet placed.
pub fn randomly_permute<T: Copy>(a: &mut [T])
    ensures
        permutes(final(a)@, old(a)@),
{
    let n = a.len();
    for i in 0..n
        invariant
            n == a@.len(),
            permutes(a@, old(a)@),
    {
        let index = random_in(i, n - 1);
        let ghost s = a@;
        let t = a[i];
        a[i] = a[index];
        a[index] = t;
        proof {
            lemma_swap_permutes(s, i as int, index as int);
            assert(a@ == s.update(i as int, s[index as int]).update(index as int, s[i as int]));
        }
    }
}

/// Shuffles the candidates at random, then hires as `hire_assistant` does.
pub fn randomized_hire_assistant(ranks: &mut [u32]) -> (r: Vec<usize>)
    ensures
        permutes(final(ranks)@, old(ranks)@),
        r@ == hired(final(ranks)@, final(ranks)@.len() as int),
{
    randomly_permute(ranks);
    hire_assistant(ranks)
}

/// A sample of `m` distinct numbers drawn at random from `1..=n`.
pub fn random_sample(m: usize, n: usize) -> (r: HashSet<usize>)
    requires
        m <= n,
    ensures
        r@.finite(),
        r@.len() == m,
        forall|x: usize| r@.contains(x) ==> 1 <= x <= n,
{
    let mut s: HashSet<usize> = HashSet::with_capacity(m);
    let mut k: usize = n - m;
    while k < n
        invariant
            m <= n,
            n - m <= k <= n,
            s@.finite(),
            s@.len() == k - (n - m),
            forall|x: usize| s@.contains(x) ==> 1 <= x <= k,
        decreases n - k,
    {
        k += 1;
        let i = random_in(1, k);
        if s.contains(&i) {
            s.insert(k);
        } else {
            s.insert(i);
        }
    }
    s
}

} // verus!
