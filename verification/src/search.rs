//! Finding the first entry of a list that has some property.
use vstd::prelude::*;

verus! {

/// `i` is below `len`, `pred` holds at `i`, and it holds at no index before.
pub open spec fn is_first(len: int, pred: spec_fn(int) -> bool, i: int) -> bool {
    &&& 0 <= i < len
    &&& pred(i)
    &&& forall|j: int| 0 <= j < i ==> !#[trigger] pred(j)
}

/// The first index below `len` at which `pred` holds, if there is one.
#[verifier::opaque]
pub open spec fn first_where(len: int, pred: spec_fn(int) -> bool) -> Option<int> {
    if exists|i: int| 0 <= i < len && #[trigger] pred(i) {
        Some(choose|i: int| is_first(len, pred, i))
    } else {
        None
    }
}

/// An index at which `pred` holds, with none before it, is the first.
pub proof fn lemma_first_where_found(len: int, pred: spec_fn(int) -> bool, i: int)
    requires
        0 <= i < len,
        pred(i),
        forall|j: int| 0 <= j < i ==> !#[trigger] pred(j),
    ensures
        first_where(len, pred) == Some(i),
{
    reveal(first_where);
    assert(is_first(len, pred, i));
    let c = choose|c: int| is_first(len, pred, c);
    if c < i {
        assert(!pred(c));
    } else if i < c {
        assert(!pred(i));
    }
}

/// Where `pred` holds at no index, there is no first.
pub proof fn lemma_first_where_none(len: int, pred: spec_fn(int) -> bool)
    requires
        forall|j: int| 0 <= j < len ==> !#[trigger] pred(j),
    ensures
        first_where(len, pred) is None,
{
    reveal(first_where);
}

/// What the first index is: `pred` holds there and nowhere before; with
/// no such index, `pred` holds nowhere.
pub proof fn lemma_first_where(len: int, pred: spec_fn(int) -> bool)
    ensures
        match first_where(len, pred) {
            Some(i) => is_first(len, pred, i),
            None => forall|j: int| 0 <= j < len ==> !#[trigger] pred(j),
        },
{
    reveal(first_where);
    if exists|i: int| 0 <= i < len && #[trigger] pred(i) {
        let w = choose|i: int| 0 <= i < len && #[trigger] pred(i);
        lemma_least_exists(len, pred, w);
    }
}

/// If `pred` holds at `w`, it holds at a least index up to `w`.
proof fn lemma_least_exists(len: int, pred: spec_fn(int) -> bool, w: int)
    requires
        0 <= w < len,
        pred(w),
    ensures
        exists|i: int| is_first(len, pred, i),
    decreases w,
{
    if exists|k: int| 0 <= k < w && #[trigger] pred(k) {
        let k = choose|k: int| 0 <= k < w && #[trigger] pred(k);
        lemma_least_exists(len, pred, k);
    } else {
        assert(is_first(len, pred, w));
    }
}

} // verus!
