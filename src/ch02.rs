use vstd::prelude::*;
use vstd::multiset::Multiset;
use vstd::seq_lib::{lemma_multiset_commutative, to_multiset_update};

verus! {

broadcast use vstd::seq_lib::group_to_multiset_ensures;

/// Every element is no larger than any element after it.
pub open spec fn sorted(s: Seq<i32>) -> bool {
    forall|i: int, j: int| 0 <= i < j < s.len() ==> s[i] <= s[j]
}

/// `t` holds the same elements as `s`, each as many times.
pub open spec fn permutes<T>(s: Seq<T>, t: Seq<T>) -> bool {
    s.to_multiset() == t.to_multiset()
}

/// Exchanging two elements keeps the multiset of a sequence.
pub proof fn lemma_swap_permutes<T>(s: Seq<T>, i: int, j: int)
    requires
        0 <= i < s.len(),
        0 <= j < s.len(),
    ensures
        permutes(s.update(i, s[j]).update(j, s[i]), s),
{
    let t = s.update(i, s[j]);
    to_multiset_update(s, i, s[j]);
    to_multiset_update(t, j, s[i]);
    assert(t[j] == s[j] || i == j);
    assert(s.update(i, s[j]).update(j, s[i]).to_multiset() =~= s.to_multiset());
}

/// Sorts `a` in ascending order by repeated passes that exchange neighbours
/// out of order, stopping after a pass that exchanges nothing.
pub fn bubble_sort(a: &mut [i32])
    ensures
        sorted(final(a)@),
        permutes(final(a)@, old(a)@),
{
    let n = a.len();
    if n < 2 {
        return;
    }
    let mut i: usize = n - 1;
    while i >= 1
        invariant
            1 <= n == a@.len(),
            i < n,
            permutes(a@, old(a)@),
            forall|x: int, y: int| i < x < y < n ==> a@[x] <= a@[y],
            forall|x: int, y: int| 0 <= x <= i < y < n ==> a@[x] <= a@[y],
        decreases i,
    {
        let mut swapped = false;
        let mut j: usize = 0;
        while j < i
            invariant
                1 <= n == a@.len(),
                1 <= i < n,
                j <= i,
                permutes(a@, old(a)@),
                forall|x: int, y: int| i < x < y < n ==> a@[x] <= a@[y],
                forall|x: int, y: int| 0 <= x <= i < y < n ==> a@[x] <= a@[y],
                forall|x: int| 0 <= x <= j ==> a@[x] <= a@[j as int],
                !swapped ==> forall|x: int, y: int| 0 <= x < y <= j ==> a@[x] <= a@[y],
            decreases i - j,
        {
            if a[j] > a[j + 1] {
                let ghost s = a@;
                let t = a[j];
                a[j] = a[j + 1];
                a[j + 1] = t;
                proof {
                    lemma_swap_permutes(s, j as int, j + 1);
                    assert(a@ == s.update(j as int, s[j + 1]).update(j + 1, s[j as int]));
                }
                swapped = true;
            }
            j += 1;
        }
        if !swapped {
            return;
        }
        i -= 1;
    }
}

/// Sorts `a` in ascending order by inserting each element into the sorted
/// prefix before it.
pub fn insertion_sort(a: &mut [i32])
    ensures
        sorted(final(a)@),
        permutes(final(a)@, old(a)@),
{
    let n = a.len();
    let mut i: usize = 1;
    while i < n
        invariant
            n == a@.len(),
            1 <= i || n == 0,
            permutes(a@, old(a)@),
            forall|x: int, y: int| 0 <= x < y < i && y < n ==> a@[x] <= a@[y],
        decreases n - i,
    {
        let key = a[i];
        let mut j = i;
        let ghost start = a@;
        assert(a@.update(j as int, key) =~= a@);
        while j > 0 && a[j - 1] > key
            invariant
                n == a@.len(),
                0 <= j <= i < n,
                permutes(a@.update(j as int, key), old(a)@),
                forall|x: int, y: int| 0 <= x < y <= i && y != j && x != j ==> a@[x] <= a@[y],
                forall|y: int| j < y <= i ==> key < a@[y],
                j < i ==> a@[j as int] == a@[j + 1],
                forall|x: int| i < x < n ==> a@[x] == start[x],
            decreases j,
        {
            let ghost s = a@;
            a[j] = a[j - 1];
            proof {
                let u = s.update(j as int, key);
                lemma_swap_permutes(u, j - 1, j as int);
                assert(a@.update(j - 1, key) == u.update(j - 1, u[j as int]).update(j as int, u[j - 1]));
            }
            j -= 1;
        }
        let ghost s = a@;
        a[j] = key;
        proof {
            assert(a@ == s.update(j as int, key));
            assert forall|x: int, y: int| 0 <= x < y < i + 1 && y < n implies a@[x] <= a@[y] by {
                if x == j {
                    if y > j {
                        assert(key < s[y] || (y == j + 1 && j < i && key < s[y]));
                    }
                } else if y == j {
                    if j > 0 {
                        assert(s[x] <= s[j - 1] || x == j - 1);
                    }
                }
            }
        }
        i += 1;
    }
}

/// The multiset of `s[lo..hi)` splits at any `mid` between.
proof fn lemma_split_multiset(s: Seq<i32>, lo: int, mid: int, hi: int)
    requires
        0 <= lo <= mid <= hi <= s.len(),
    ensures
        s.subrange(lo, hi).to_multiset() == s.subrange(lo, mid).to_multiset().add(s.subrange(mid, hi).to_multiset()),
{
    assert(s.subrange(lo, hi) =~= s.subrange(lo, mid) + s.subrange(mid, hi));
    lemma_multiset_commutative(s.subrange(lo, mid), s.subrange(mid, hi));
}

/// Taking the first element off `s[i..n)`.
proof fn lemma_take_first(s: Seq<i32>, i: int, n: int)
    requires
        0 <= i < n <= s.len(),
    ensures
        s.subrange(i, n).to_multiset() == s.subrange(i + 1, n).to_multiset().insert(s[i]),
{
    lemma_split_multiset(s, i, i + 1, n);
    assert(s.subrange(i, i + 1) =~= seq![s[i]]);
    assert(seq![s[i]].to_multiset() =~= Multiset::empty().insert(s[i]));
    assert(s.subrange(i + 1, n).to_multiset().insert(s[i]) =~= seq![s[i]].to_multiset().add(
        s.subrange(i + 1, n).to_multiset(),
    ));
}

/// Sorts `a` in ascending order by splitting it in halves, sorting each and
/// merging them.
pub fn merge_sort(a: &mut [i32])
    ensures
        sorted(final(a)@),
        permutes(final(a)@, old(a)@),
{
    if a.len() == 0 {
        return;
    }
    let n = a.len();
    merge_sort_aux(a, 0, n - 1);
    proof {
        assert(a@.subrange(0, n as int) =~= a@);
        assert(old(a)@.subrange(0, n as int) =~= old(a)@);
    }
}

fn merge_sort_aux(a: &mut [i32], p: usize, r: usize)
    requires
        r < old(a)@.len(),
    ensures
        final(a)@.len() == old(a)@.len(),
        forall|x: int| 0 <= x < old(a)@.len() && !(p <= x <= r) ==> final(a)@[x] == old(a)@[x],
        p <= r ==> sorted(final(a)@.subrange(p as int, r + 1)),
        p <= r ==> permutes(final(a)@.subrange(p as int, r + 1), old(a)@.subrange(p as int, r + 1)),
    decreases r - p,
{
    if p >= r {
        return;
    }
    let _len = a.len();
    let q = p + (r - p) / 2;
    let ghost a0 = a@;
    merge_sort_aux(a, p, q);
    let ghost a1 = a@;
    merge_sort_aux(a, q + 1, r);
    let ghost a2 = a@;
    proof {
        assert(a2.subrange(p as int, q + 1) =~= a1.subrange(p as int, q + 1));
        assert(a1.subrange(q + 1, r + 1) =~= a0.subrange(q + 1, r + 1));
        lemma_split_multiset(a2, p as int, q + 1, r + 1);
        lemma_split_multiset(a0, p as int, q + 1, r + 1);
        assert(sorted(a2.subrange(p as int, q + 1)));
    }
    merge(a, p, q, r);
}

fn merge(a: &mut [i32], p: usize, q: usize, r: usize)
    requires
        p <= q < r < old(a)@.len(),
        sorted(old(a)@.subrange(p as int, q + 1)),
        sorted(old(a)@.subrange(q + 1, r + 1)),
    ensures
        final(a)@.len() == old(a)@.len(),
        forall|x: int| 0 <= x < old(a)@.len() && !(p <= x <= r) ==> final(a)@[x] == old(a)@[x],
        sorted(final(a)@.subrange(p as int, r + 1)),
        permutes(final(a)@.subrange(p as int, r + 1), old(a)@.subrange(p as int, r + 1)),
{
    let ghost orig = a@;
    let _len = a.len();
    let mut left: Vec<i32> = Vec::new();
    for t in p..q + 1
        invariant
            a@ == orig,
            p <= q < a@.len(),
            p <= t <= q + 1,
            left@ == orig.subrange(p as int, t as int),
    {
        left.push(a[t]);
        proof {
            assert(left@ =~= orig.subrange(p as int, t + 1));
        }
    }
    let mut right: Vec<i32> = Vec::new();
    for t in q + 1..r + 1
        invariant
            a@ == orig,
            q < r < a@.len(),
            q + 1 <= t <= r + 1,
            right@ == orig.subrange(q + 1, t as int),
    {
        right.push(a[t]);
        proof {
            assert(right@ =~= orig.subrange(q + 1, t + 1));
        }
    }
    let n_left = left.len();
    let n_right = right.len();
    let mut i: usize = 0;
    let mut j: usize = 0;
    let mut k: usize = p;
    proof {
        lemma_split_multiset(orig, p as int, q + 1, r + 1);
        assert(a@.subrange(p as int, p as int) =~= Seq::<i32>::empty());
        assert(left@.subrange(0, n_left as int) =~= left@);
        assert(right@.subrange(0, n_right as int) =~= right@);
        assert(Seq::<i32>::empty().to_multiset() =~= Multiset::empty());
        assert(Multiset::<i32>::empty().add(left@.to_multiset()) =~= left@.to_multiset());
    }
    while i < n_left || j < n_right
        invariant
            a@.len() == orig.len(),
            p <= q < r < orig.len(),
            n_left == q + 1 - p,
            n_right == r - q,
            left@ == orig.subrange(p as int, q + 1),
            right@ == orig.subrange(q + 1, r + 1),
            sorted(left@),
            sorted(right@),
            i <= n_left,
            j <= n_right,
            k == p + i + j,
            forall|x: int| 0 <= x < orig.len() && !(p <= x < k) ==> a@[x] == orig[x],
            sorted(a@.subrange(p as int, k as int)),
            forall|x: int| p <= x < k && i < n_left ==> a@[x] <= left@[i as int],
            forall|x: int| p <= x < k && j < n_right ==> a@[x] <= right@[j as int],
            a@.subrange(p as int, k as int).to_multiset().add(left@.subrange(i as int, n_left as int).to_multiset()).add(
                right@.subrange(j as int, n_right as int).to_multiset(),
            ) == orig.subrange(p as int, r + 1).to_multiset(),
        decreases n_left - i + n_right - j,
    {
        let ghost s = a@;
        let take_left = j >= n_right || (i < n_left && left[i] < right[j]);
        if take_left {
            a[k] = left[i];
            proof {
                lemma_take_first(left@, i as int, n_left as int);
                assert(a@.subrange(p as int, k + 1) =~= s.subrange(p as int, k as int).push(left@[i as int]));
            }
            i += 1;
        } else {
            a[k] = right[j];
            proof {
                lemma_take_first(right@, j as int, n_right as int);
                assert(a@.subrange(p as int, k + 1) =~= s.subrange(p as int, k as int).push(right@[j as int]));
            }
            j += 1;
        }
        proof {
            let m = a@.subrange(p as int, k + 1);
            assert forall|x: int, y: int| 0 <= x < y < m.len() implies m[x] <= m[y] by {
                if y == m.len() - 1 && x < y {
                    assert(s[p + x] == m[x]);
                }
            }
            assert(m.to_multiset() =~= s.subrange(p as int, k as int).to_multiset().insert(m[m.len() - 1]));
        }
        k += 1;
    }
    proof {
        assert(left@.subrange(i as int, n_left as int) =~= Seq::<i32>::empty());
        assert(right@.subrange(j as int, n_right as int) =~= Seq::<i32>::empty());
        assert(a@.subrange(p as int, k as int).to_multiset().add(Multiset::empty()).add(Multiset::empty())
            =~= a@.subrange(p as int, k as int).to_multiset());
    }
}

} // verus!
