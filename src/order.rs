//! Stable insertion order: the invariant that both sorts of the library keep,
//! and the step that inserts one more item.

use vstd::prelude::*;

verus! {

/// `le` is a total preorder.
pub open spec fn total_preorder<T>(le: spec_fn(T, T) -> bool) -> bool {
    &&& forall|a: T, b: T| #[trigger] le(a, b) || le(b, a)
    &&& forall|a: T, b: T, c: T| #[trigger] le(a, b) && #[trigger] le(b, c) ==> le(a, c)
}

/// Some position of `idx` holds item `i`.
pub open spec fn holds_index(idx: Seq<int>, i: int) -> bool {
    exists|k: int| 0 <= k < idx.len() && #[trigger] idx[k] == i
}

/// `r` holds the items of `orig` from `lo` on, each once, ordered by `le`,
/// with items that `le` ties kept in their input order. Position `k` of `r`
/// holds item `idx[k]` of `orig`.
pub open spec fn placed_by<T>(r: Seq<T>, orig: Seq<T>, idx: Seq<int>, lo: int, le: spec_fn(T, T) -> bool) -> bool {
    &&& idx.len() == r.len()
    &&& forall|k: int| 0 <= k < r.len() ==> lo <= #[trigger] idx[k] < orig.len()
    &&& forall|k: int| 0 <= k < r.len() ==> #[trigger] r[k] == orig[idx[k]]
    &&& forall|a: int, b: int| 0 <= a < b < r.len() ==> idx[a] != idx[b]
    &&& forall|i: int| lo <= i < orig.len() ==> #[trigger] holds_index(idx, i)
    &&& forall|a: int, b: int| 0 <= a < b < r.len() ==> le(r[a], r[b])
    &&& forall|a: int, b: int| 0 <= a < b < r.len() && le(r[b], r[a]) ==> idx[a] < idx[b]
}

/// Inserting item `m` before the first placed item that it does not follow
/// keeps the order, the ties and the coverage.
pub proof fn lemma_place_by<T>(r: Seq<T>, orig: Seq<T>, idx: Seq<int>, m: int, p: int, le: spec_fn(T, T) -> bool)
    requires
        total_preorder(le),
        placed_by(r, orig, idx, m + 1, le),
        0 <= m < orig.len(),
        0 <= p <= r.len(),
        forall|k: int| 0 <= k < p ==> !le(orig[m], #[trigger] r[k]),
        p < r.len() ==> le(orig[m], r[p]),
    ensures
        placed_by(r.insert(p, orig[m]), orig, idx.insert(p, m), m, le),
{
    let e = orig[m];
    let r2 = r.insert(p, e);
    let i2 = idx.insert(p, m);
    r.insert_ensures(p, e);
    idx.insert_ensures(p, m);
    assert forall|k: int| 0 <= k < r2.len() implies m <= #[trigger] i2[k] < orig.len() && r2[k]
        == orig[i2[k]] by {
        if k > p {
            assert(r2[k] == r[k - 1] && i2[k] == idx[k - 1]);
        }
    }
    assert forall|i: int| m <= i < orig.len() implies #[trigger] holds_index(i2, i) by {
        if i == m {
            assert(i2[p] == m);
        } else {
            assert(holds_index(idx, i));
            let k0 = choose|k: int| 0 <= k < idx.len() && #[trigger] idx[k] == i;
            if k0 < p {
                assert(i2[k0] == i);
            } else {
                assert(i2[k0 + 1] == idx[k0]);
            }
        }
    }
    assert forall|a: int, b: int| 0 <= a < b < r2.len() implies le(r2[a], r2[b]) && i2[a] != i2[b]
        && (le(r2[b], r2[a]) ==> i2[a] < i2[b]) by {
        if b < p {
        } else if b == p {
            assert(!le(e, r[a]));
            assert(le(r[a], e));
        } else if a < p {
            assert(r2[b] == r[b - 1] && i2[b] == idx[b - 1]);
            assert(!le(e, r[a]));
            assert(le(r[a], e));
            assert(le(e, r[p]));
            if p < b - 1 {
                assert(le(r[p], r[b - 1]));
                assert(le(e, r[b - 1]));
            }
            assert(le(r[a], r[b - 1]));
            if le(r[b - 1], r[a]) {
                assert(le(e, r[a]));
            }
        } else if a == p {
            assert(r2[b] == r[b - 1] && i2[b] == idx[b - 1]);
            if p < b - 1 {
                assert(le(r[p], r[b - 1]));
            }
            assert(le(e, r[b - 1]));
        } else {
            assert(r2[b] == r[b - 1] && i2[b] == idx[b - 1]);
            assert(r2[a] == r[a - 1] && i2[a] == idx[a - 1]);
        }
    }
}

} // verus!
