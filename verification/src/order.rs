//! Stable ordering of items by an integer key.

use vstd::prelude::*;

verus! {

/// Item `a` comes before item `b`: a smaller key, or the same key and an earlier place.
pub open spec fn before(keys: Seq<i128>, a: int, b: int) -> bool {
    keys[a] < keys[b] || (keys[a] == keys[b] && a < b)
}

/// `p` lists every index of `keys` once, in the order of the keys, ties in their given order.
pub open spec fn is_stable_order(keys: Seq<i128>, p: Seq<usize>) -> bool {
    &&& p.len() == keys.len() <= usize::MAX
    &&& forall|i: int| 0 <= i < p.len() ==> #[trigger] p[i] < keys.len()
    &&& forall|i: int, j: int| 0 <= i < j < p.len() ==> before(keys, #[trigger] p[i] as int, #[trigger] p[j] as int)
}

/// `r` is the item at place `k` of the keys in ascending order.
pub open spec fn is_nth_smallest(keys: Seq<i128>, k: int, r: int) -> bool {
    exists|p: Seq<usize>| #[trigger] is_stable_order(keys, p) && 0 <= k < p.len() && r == keys[p[k] as int]
}

/// Every index stands in a stable order.
pub proof fn lemma_order_covers(keys: Seq<i128>, p: Seq<usize>, v: usize)
    requires
        is_stable_order(keys, p),
        v < keys.len(),
    ensures
        p.contains(v),
{
    let n = p.len() as int;
    assert(p.no_duplicates()) by {
        assert forall|i: int, j: int| 0 <= i < p.len() && 0 <= j < p.len() && i != j implies p[i] != p[j] by {
            if i < j {
                assert(before(keys, p[i] as int, p[j] as int));
            } else {
                assert(before(keys, p[j] as int, p[i] as int));
            }
        }
    }
    p.unique_seq_to_set();
    let full = Set::new(|x: usize| x < n);
    lemma_usize_range(n as nat);
    assert(p.to_set().subset_of(full));
    vstd::set_lib::lemma_subset_equality(p.to_set(), full);
    assert(full.contains(v));
    assert(p.to_set().contains(v));
}

proof fn lemma_usize_range(n: nat)
    requires
        n <= usize::MAX + 1,
    ensures
        Set::new(|x: usize| x < n).finite(),
        Set::new(|x: usize| x < n).len() == n,
    decreases n,
{
    let s = Set::new(|x: usize| x < n);
    if n == 0 {
        assert(s =~= Set::empty());
    } else {
        lemma_usize_range((n - 1) as nat);
        let t = Set::new(|x: usize| x < n - 1);
        assert(s =~= t.insert((n - 1) as usize));
    }
}

/// A list of keys has only one stable order.
pub proof fn law_stable_order_unique(keys: Seq<i128>, p: Seq<usize>, q: Seq<usize>)
    requires
        is_stable_order(keys, p),
        is_stable_order(keys, q),
    ensures
        p == q,
{
    assert forall|k: int| 0 <= k < p.len() implies p[k] == q[k] by {
        lemma_order_agrees(keys, p, q, k);
    }
    assert(p =~= q);
}

proof fn lemma_order_agrees(keys: Seq<i128>, p: Seq<usize>, q: Seq<usize>, k: int)
    requires
        is_stable_order(keys, p),
        is_stable_order(keys, q),
        0 <= k < p.len(),
    ensures
        p[k] == q[k],
    decreases k,
{
    if p[k] != q[k] {
        assert forall|j: int| 0 <= j < k implies p[j] == q[j] by {
            lemma_order_agrees(keys, p, q, j);
        }
        lemma_order_covers(keys, q, p[k]);
        let a = choose|a: int| 0 <= a < q.len() && q[a] == p[k];
        if a < k {
            assert(p[a] == q[a]);
            assert(before(keys, p[a] as int, p[k] as int));
        }
        assert(before(keys, q[k] as int, q[a] as int));
        lemma_order_covers(keys, p, q[k]);
        let b = choose|b: int| 0 <= b < p.len() && p[b] == q[k];
        if b < k {
            assert(p[b] == q[b]);
            assert(before(keys, q[b] as int, q[k] as int));
        }
        assert(before(keys, p[k] as int, p[b] as int));
        assert(false);
    }
}

/// The indices of `keys` in ascending order of their keys.
pub fn stable_order(keys: &Vec<i128>) -> (p: Vec<usize>)
    ensures
        is_stable_order(keys@, p@),
{
    let n: usize = keys.len();
    let mut p: Vec<usize> = Vec::new();
    let mut i: usize = 0;
    while i < n
        invariant
            n == keys.len(),
            i <= n,
            p.len() == i,
            forall|k: int| 0 <= k < p.len() ==> #[trigger] p[k] < i,
            forall|k: int, j: int| 0 <= k < j < p.len() ==> before(keys@, #[trigger] p[k] as int, #[trigger] p[j] as int),
        decreases n - i,
    {
        let mut pos: usize = i;
        while pos > 0 && keys[p[pos - 1]] > keys[i]
            invariant
                pos <= i,
                i < n,
                n == keys.len(),
                p.len() == i,
                forall|k: int| 0 <= k < p.len() ==> #[trigger] p[k] < i,
                forall|k: int| pos <= k < p.len() ==> keys@[#[trigger] p[k] as int] > keys@[i as int],
            decreases pos,
        {
            pos = pos - 1;
        }
        let ghost old_p = p@;
        p.insert(pos, i);
        proof {
            assert forall|k: int, j: int| 0 <= k < j < p.len() implies before(keys@, #[trigger] p[k] as int, #[trigger] p[j] as int) by {
                let ko = if k < pos { k } else { k - 1 };
                let jo = if j < pos { j } else { j - 1 };
                if k != pos && j != pos {
                    assert(p[k] == old_p[ko]);
                    assert(p[j] == old_p[jo]);
                    assert(before(keys@, old_p[ko] as int, old_p[jo] as int));
                } else if j == pos {
                    assert(p[k] == old_p[k]);
                    if k < pos - 1 {
                        assert(before(keys@, old_p[k] as int, old_p[pos - 1] as int));
                    }
                } else {
                    assert(p[j] == old_p[j - 1]);
                }
            }
            assert forall|k: int| 0 <= k < p.len() implies #[trigger] p[k] < i + 1 by {
                if k < pos {
                    assert(p[k] == old_p[k]);
                } else if k > pos {
                    assert(p[k] == old_p[k - 1]);
                }
            }
        }
        i = i + 1;
    }
    p
}

} // verus!
