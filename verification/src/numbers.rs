//! Small verified utilities over lists of PR and stack numbers.

use vstd::prelude::*;

verus! {

/// `v` is strictly increasing.
pub open spec fn strictly_sorted(v: Seq<u64>) -> bool {
    forall|i: int, j: int| 0 <= i < j < v.len() ==> v[i] < v[j]
}

/// Whether `v` holds `n`.
pub fn contains_u64(v: &[u64], n: u64) -> (r: bool)
    ensures
        r == v@.contains(n),
{
    let mut i: usize = 0;
    while i < v.len()
        invariant
            i <= v@.len(),
            forall|j: int| 0 <= j < i ==> v@[j] != n,
        decreases v@.len() - i,
    {
        if v[i] == n {
            return true;
        }
        i = i + 1;
    }
    false
}

/// Insert `n` into the strictly sorted `v`, keeping it strictly sorted; no-op
/// when `n` is already there.
pub fn insert_sorted(v: &mut Vec<u64>, n: u64)
    requires
        strictly_sorted(old(v)@),
    ensures
        strictly_sorted(final(v)@),
        forall|x: u64| final(v)@.contains(x) <==> (old(v)@.contains(x) || x == n),
{
    let mut i: usize = 0;
    while i < v.len() && v[i] < n
        invariant
            i <= v@.len(),
            forall|j: int| 0 <= j < i ==> v@[j] < n,
        decreases v@.len() - i,
    {
        i = i + 1;
    }
    if i < v.len() && v[i] == n {
        assert(v@[i as int] == n);
    } else {
        let ghost before = v@;
        v.insert(i, n);
        proof {
            lemma_insert_sorted(before, i as int, n, v@);
        }
    }
}

/// Lemma: inserting `n` at its sorted position keeps a sequence strictly
/// sorted and adds exactly `n`.
proof fn lemma_insert_sorted(before: Seq<u64>, i: int, n: u64, after: Seq<u64>)
    requires
        strictly_sorted(before),
        0 <= i <= before.len(),
        forall|j: int| 0 <= j < i ==> before[j] < n,
        i < before.len() ==> before[i] != n && !(before[i] < n),
        after == before.insert(i, n),
    ensures
        strictly_sorted(after),
        forall|x: u64| after.contains(x) <==> (before.contains(x) || x == n),
{
    assert forall|a: int, b: int| 0 <= a < b < after.len() implies after[a] < after[b] by {
        if b < i {
        } else if b == i {
        } else if a < i {
            assert(after[b] == before[b - 1]);
            assert(before[i] > n);
            if b - 1 > i {
                assert(before[i] < before[b - 1]);
            }
        } else if a == i {
            assert(after[b] == before[b - 1]);
            assert(before[i] > n);
            if b - 1 > i {
                assert(before[i] < before[b - 1]);
            }
        } else {
            assert(after[a] == before[a - 1]);
            assert(after[b] == before[b - 1]);
        }
    }
    assert forall|x: u64| after.contains(x) <==> (before.contains(x) || x == n) by {
        if after.contains(x) {
            let k = choose|k: int| 0 <= k < after.len() && #[trigger] after[k] == x;
            if k < i {
                assert(before[k] == x);
            } else if k > i {
                assert(before[k - 1] == x);
            }
        }
        if before.contains(x) {
            let k = choose|k: int| 0 <= k < before.len() && #[trigger] before[k] == x;
            if k < i {
                assert(after[k] == x);
            } else {
                assert(after[k + 1] == x);
            }
        }
        if x == n {
            assert(after[i] == n);
        }
    }
}

/// The distinct values of `v`, in increasing order.
pub fn sorted_distinct(v: &[u64]) -> (r: Vec<u64>)
    ensures
        strictly_sorted(r@),
        forall|x: u64| r@.contains(x) <==> v@.contains(x),
{
    let mut out: Vec<u64> = Vec::new();
    let mut i: usize = 0;
    while i < v.len()
        invariant
            i <= v@.len(),
            strictly_sorted(out@),
            forall|x: u64| out@.contains(x) <==> v@.subrange(0, i as int).contains(x),
        decreases v@.len() - i,
    {
        insert_sorted(&mut out, v[i]);
        proof {
            let prev = v@.subrange(0, i as int);
            let next = v@.subrange(0, i + 1);
            assert(next =~= prev.push(v@[i as int]));
            assert forall|x: u64| next.contains(x) <==> (prev.contains(x) || x == v@[i as int]) by {
                if next.contains(x) {
                    let k = choose|k: int| 0 <= k < next.len() && #[trigger] next[k] == x;
                    if k < i {
                        assert(prev[k] == x);
                    }
                }
                if prev.contains(x) {
                    let k = choose|k: int| 0 <= k < prev.len() && #[trigger] prev[k] == x;
                    assert(next[k] == x);
                }
                if x == v@[i as int] {
                    assert(next[i as int] == x);
                }
            }
        }
        i = i + 1;
    }
    assert(v@.subrange(0, v@.len() as int) =~= v@);
    out
}

} // verus!
