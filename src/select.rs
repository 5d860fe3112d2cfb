//! Choosing the entries with the largest keys, largest first.

use vstd::prelude::*;
use vstd::set_lib::{lemma_int_range, lemma_len_subset, set_int_range};

verus! {

/// `ix` lists the positions of the (at most) `k` largest keys, largest
/// first, each once; when fewer than `k` are listed, every position is, and
/// every position left out has a key no larger than the last one listed.
pub open spec fn top_k_of(keys: Seq<i128>, k: nat, ix: Seq<usize>) -> bool {
    &&& ix.len() <= k
    &&& forall|i: int| 0 <= i < ix.len() ==> #[trigger] ix[i] < keys.len()
    &&& forall|i: int, j: int| 0 <= i < j < ix.len() ==> ix[i] != ix[j]
    &&& forall|i: int| 0 <= i < ix.len() - 1 ==> keys[#[trigger] ix[i] as int] >= keys[ix[i
        + 1] as int]
    &&& ix.len() < k ==> forall|j: usize| j < keys.len() ==> #[trigger] ix.contains(j)
    &&& ix.len() > 0 ==> forall|j: usize|
        j < keys.len() && !#[trigger] ix.contains(j) ==> keys[j as int] <= keys[ix.last() as int]
}

/// The positions of the `k` largest keys, largest first; among equal keys the
/// earlier position comes first.
pub fn top_k(keys: &Vec<i128>, k: usize) -> (r: Vec<usize>)
    ensures
        top_k_of(keys@, k as nat, r@),
{
    let n = keys.len();
    let mut taken: Vec<bool> = Vec::new();
    let mut i: usize = 0;
    while i < n
        invariant
            i <= n,
            taken@.len() == i,
            forall|j: int| 0 <= j < i ==> !taken@[j],
        decreases n - i,
    {
        taken.push(false);
        i = i + 1;
    }
    let mut r: Vec<usize> = Vec::new();
    while r.len() < k
        invariant
            n == keys@.len(),
            taken@.len() == n,
            r@.len() <= k,
            forall|j: usize| j < n ==> (taken@[j as int] <==> #[trigger] r@.contains(j)),
            forall|a: int| 0 <= a < r@.len() ==> #[trigger] r@[a] < n,
            forall|a: int, b: int| 0 <= a < b < r@.len() ==> r@[a] != r@[b],
            forall|a: int| 0 <= a < r@.len() - 1 ==> keys@[#[trigger] r@[a] as int] >= keys@[r@[a
                + 1] as int],
            r@.len() > 0 ==> forall|j: int|
                0 <= j < n && !taken@[j] ==> keys@[j] <= keys@[r@.last() as int],
        ensures
            r@.len() <= k,
            forall|j: usize| j < n ==> (taken@[j as int] <==> #[trigger] r@.contains(j)),
            forall|a: int| 0 <= a < r@.len() ==> #[trigger] r@[a] < n,
            forall|a: int, b: int| 0 <= a < b < r@.len() ==> r@[a] != r@[b],
            forall|a: int| 0 <= a < r@.len() - 1 ==> keys@[#[trigger] r@[a] as int] >= keys@[r@[a
                + 1] as int],
            r@.len() > 0 ==> forall|j: int|
                0 <= j < n && !taken@[j] ==> keys@[j] <= keys@[r@.last() as int],
            r@.len() < k ==> forall|j: int| 0 <= j < n ==> taken@[j],
        decreases k - r@.len(),
    {
        let mut best: usize = n;
        let mut j: usize = 0;
        while j < n
            invariant
                n == keys@.len(),
                taken@.len() == n,
                j <= n,
                best == n || (best < j && !taken@[best as int]),
                best == n ==> forall|q: int| 0 <= q < j ==> taken@[q],
                best < n ==> forall|q: int|
                    0 <= q < j && !taken@[q] ==> keys@[q] <= keys@[best as int],
            decreases n - j,
        {
            if !taken[j] && (best == n || keys[j] > keys[best]) {
                best = j;
            }
            j = j + 1;
        }
        if best == n {
            break;
        }
        let ghost r0 = r@;
        let ghost t0 = taken@;
        r.push(best);
        taken.set(best, true);
        proof {
            assert forall|q: usize| q < n implies (taken@[q as int] <==> #[trigger] r@.contains(q)) by {
                if q == best {
                    assert(r@[r@.len() - 1] == best);
                } else {
                    assert(t0[q as int] == taken@[q as int]);
                    if r0.contains(q) {
                        let a = choose|a: int| 0 <= a < r0.len() && r0[a] == q;
                        assert(r@[a] == q);
                    }
                    if r@.contains(q) {
                        let a = choose|a: int| 0 <= a < r@.len() && r@[a] == q;
                        assert(a < r0.len());
                        assert(r0[a] == q);
                    }
                }
            }
            assert forall|a: int, b: int| 0 <= a < b < r@.len() implies r@[a] != r@[b] by {
                if b == r0.len() {
                    assert(r0.contains(r0[a]));
                    assert(t0[r0[a] as int]);
                    assert(!t0[best as int]);
                }
            }
        }
    }
    proof {
        if r@.len() < k {
            assert forall|j: usize| j < n implies #[trigger] r@.contains(j) by {
                assert(taken@[j as int]);
            }
        }
        if r@.len() > 0 {
            assert forall|j: usize| j < n && !#[trigger] r@.contains(j) implies keys@[j as int]
                <= keys@[r@.last() as int] by {
                assert(!taken@[j as int]);
            }
        }
    }
    r
}

/// Distinct positions below `n` number at most `n`, and when there are `n`
/// of them every position is among them.
pub proof fn lemma_distinct_positions(ix: Seq<usize>, n: nat)
    requires
        forall|i: int| 0 <= i < ix.len() ==> #[trigger] ix[i] < n,
        forall|i: int, j: int| 0 <= i < j < ix.len() ==> ix[i] != ix[j],
    ensures
        ix.len() <= n,
        ix.len() == n ==> forall|j: usize| j < n ==> #[trigger] ix.contains(j),
{
    let s = ix.map_values(|x: usize| x as int);
    assert(s.no_duplicates()) by {
        assert forall|i: int, j: int| 0 <= i < s.len() && 0 <= j < s.len() && i != j implies s[i]
            != s[j] by {
            if i < j {
                assert(ix[i] != ix[j]);
            } else {
                assert(ix[j] != ix[i]);
            }
        }
    }
    s.unique_seq_to_set();
    lemma_int_range(0, n as int);
    let range = set_int_range(0, n as int);
    assert(s.to_set().subset_of(range)) by {
        assert forall|x: int| s.to_set().contains(x) implies range.contains(x) by {
            let i = choose|i: int| 0 <= i < s.len() && s[i] == x;
            assert(ix[i] < n);
        }
    }
    lemma_len_subset(s.to_set(), range);
    if ix.len() == n {
        assert forall|j: usize| j < n implies #[trigger] ix.contains(j) by {
            if !ix.contains(j) {
                let smaller = range.remove(j as int);
                assert(s.to_set().subset_of(smaller)) by {
                    assert forall|x: int| s.to_set().contains(x) implies smaller.contains(x) by {
                        let i = choose|i: int| 0 <= i < s.len() && s[i] == x;
                        assert(ix[i] < n);
                        assert(ix[i] != j);
                    }
                }
                lemma_len_subset(s.to_set(), smaller);
            }
        }
    }
}

} // verus!
