use vstd::prelude::*;

verus! {

/// `before` is a strict weak order: irreflexive, transitive, and whenever `a` comes
/// before `c`, any `b` comes after `a` or before `c`.
pub open spec fn strict_weak_order<T>(before: spec_fn(T, T) -> bool) -> bool {
    &&& forall|a: T| !#[trigger] before(a, a)
    &&& forall|a: T, b: T, c: T| #[trigger] before(a, b) && #[trigger] before(b, c) ==> before(a, c)
    &&& forall|a: T, b: T, c: T| #[trigger] before(a, c) ==> before(a, b) || #[trigger] before(b, c)
}

/// No element comes before one to its left.
pub open spec fn sorted_by<T>(s: Seq<T>, before: spec_fn(T, T) -> bool) -> bool {
    forall|i: int, j: int| 0 <= i < j < s.len() ==> !before(#[trigger] s[j], #[trigger] s[i])
}

/// `perm` lists each index below `n` exactly once.
pub open spec fn is_perm(perm: Seq<int>, n: int) -> bool {
    &&& perm.len() == n
    &&& forall|i: int| 0 <= i < n ==> 0 <= #[trigger] perm[i] < n
    &&& forall|i: int, j: int| 0 <= i < j < n ==> #[trigger] perm[i] != #[trigger] perm[j]
}

/// `sorted` is `orig` rearranged by `perm`, ordered by `before`, and elements that
/// neither comes before the other keep their order in `orig`.
pub open spec fn stable_sort_with<T>(
    sorted: Seq<T>,
    orig: Seq<T>,
    perm: Seq<int>,
    before: spec_fn(T, T) -> bool,
) -> bool {
    &&& sorted.len() == orig.len()
    &&& is_perm(perm, orig.len() as int)
    &&& forall|i: int| 0 <= i < sorted.len() ==> #[trigger] sorted[i] == orig[perm[i]]
    &&& sorted_by(sorted, before)
    &&& forall|i: int, j: int|
        0 <= i < j < sorted.len() && !before(#[trigger] sorted[i], #[trigger] sorted[j]) && !before(
            sorted[j],
            sorted[i],
        ) ==> perm[i] < perm[j]
}

/// `sorted` is what a stable sort of `orig` by `before` gives.
pub open spec fn is_stable_sort<T>(sorted: Seq<T>, orig: Seq<T>, before: spec_fn(T, T) -> bool) -> bool {
    exists|perm: Seq<int>| stable_sort_with(sorted, orig, perm, before)
}

/// Inserting the next element of `orig` after every element it does not come
/// before keeps the sort stable.
pub proof fn lemma_stable_insert<T>(
    sorted: Seq<T>,
    orig: Seq<T>,
    perm: Seq<int>,
    before: spec_fn(T, T) -> bool,
    x: T,
    k: int,
)
    requires
        strict_weak_order(before),
        stable_sort_with(sorted, orig, perm, before),
        0 <= k <= sorted.len(),
        forall|i: int| 0 <= i < k ==> !before(x, #[trigger] sorted[i]),
        k < sorted.len() ==> before(x, sorted[k]),
    ensures
        stable_sort_with(
            sorted.insert(k, x),
            orig.push(x),
            perm.insert(k, orig.len() as int),
            before,
        ),
{
    let n = orig.len() as int;
    let s2 = sorted.insert(k, x);
    let o2 = orig.push(x);
    let p2 = perm.insert(k, n);
    assert forall|j: int| k < j < s2.len() implies before(x, #[trigger] s2[j]) by {
        assert(s2[j] == sorted[j - 1]);
        if j - 1 > k {
            assert(!before(sorted[j - 1], sorted[k]));
            assert(before(x, sorted[k]) ==> before(x, sorted[j - 1]) || before(
                sorted[j - 1],
                sorted[k],
            ));
        }
    }
    assert forall|i: int| 0 <= i < n + 1 implies 0 <= #[trigger] p2[i] < n + 1 by {
        if i < k {
            assert(p2[i] == perm[i]);
        } else if i > k {
            assert(p2[i] == perm[i - 1]);
        }
    }
    assert forall|i: int, j: int| 0 <= i < j < n + 1 implies #[trigger] p2[i] != #[trigger] p2[j] by {
        if i != k && j != k {
            let a = if i < k {
                i
            } else {
                i - 1
            };
            let b = if j < k {
                j
            } else {
                j - 1
            };
            assert(p2[i] == perm[a]);
            assert(p2[j] == perm[b]);
            assert(perm[a] != perm[b]);
        } else if i == k {
            assert(p2[j] == perm[j - 1]);
        } else {
            if i < k {
                assert(p2[i] == perm[i]);
            } else {
                assert(p2[i] == perm[i - 1]);
            }
        }
    }
    assert forall|i: int| 0 <= i < s2.len() implies #[trigger] s2[i] == o2[p2[i]] by {
        if i < k {
            assert(s2[i] == sorted[i]);
            assert(p2[i] == perm[i]);
        } else if i > k {
            assert(s2[i] == sorted[i - 1]);
            assert(p2[i] == perm[i - 1]);
        }
    }
    assert forall|i: int, j: int| 0 <= i < j < s2.len() implies !before(
        #[trigger] s2[j],
        #[trigger] s2[i],
    ) by {
        if i == k {
            assert(before(x, s2[j]));
        } else if j == k {
            assert(s2[i] == sorted[i]);
        } else {
            let a = if i < k {
                i
            } else {
                i - 1
            };
            let b = if j < k {
                j
            } else {
                j - 1
            };
            assert(s2[i] == sorted[a]);
            assert(s2[j] == sorted[b]);
        }
    }
    assert forall|i: int, j: int|
        0 <= i < j < s2.len() && !before(#[trigger] s2[i], #[trigger] s2[j]) && !before(
            s2[j],
            s2[i],
        ) implies p2[i] < p2[j] by {
        if i == k {
            assert(before(x, s2[j]));
        } else if j == k {
            assert(p2[i] == perm[i]);
        } else {
            let a = if i < k {
                i
            } else {
                i - 1
            };
            let b = if j < k {
                j
            } else {
                j - 1
            };
            assert(s2[i] == sorted[a]);
            assert(s2[j] == sorted[b]);
            assert(p2[i] == perm[a]);
            assert(p2[j] == perm[b]);
        }
    }
}

} // verus!
