//! The general laws of the sequence, stated over the abstract views that the
//! operations' contracts speak of and proved once for all elements and all
//! lengths. Together with those contracts, each law covers every run of the
//! corresponding calls.

use vstd::prelude::*;

verus! {

/// Pushing at the back and popping at the back is last-in, first-out.
/// After `xs` has been pushed at the back of an empty sequence the view is
/// `xs`; the k-th following `pop_back` sees the view `xs.take(xs.len() - k)`,
/// so by its contract it returns that view's last element and leaves the
/// rest. This lemma identifies them: the k-th pop returns
/// `xs[xs.len() - 1 - k]` — the pushed elements come back in reverse push
/// order — and leaves the view the next pop expects.
pub proof fn lemma_pop_back_order<T>(xs: Seq<T>, k: int)
    requires
        0 <= k < xs.len(),
    ensures
        xs.take(xs.len() - k).last() == xs[xs.len() - 1 - k],
        xs.take(xs.len() - k).drop_last() == xs.take(xs.len() - 1 - k),
{
    assert(xs.take(xs.len() - k).drop_last() =~= xs.take(xs.len() - 1 - k));
}

/// Pushing at the back and popping at the front is first-in, first-out.
/// After `xs` has been pushed at the back of an empty sequence the view is
/// `xs`; the k-th following `pop_front` sees the view `xs.skip(k)`, so by its
/// contract it returns that view's first element and leaves the rest. This
/// lemma identifies them: the k-th pop returns `xs[k]` — the pushed elements
/// come back in push order — and leaves the view the next pop expects.
/// With a sequence built at the front instead (its view is then the reverse
/// of the push order, by `lemma_push_front_prepends`), the same lemma says
/// that popping at the front returns those elements in reverse push order.
pub proof fn lemma_pop_front_order<T>(xs: Seq<T>, k: int)
    requires
        0 <= k < xs.len(),
    ensures
        xs.skip(k).first() == xs[k],
        xs.skip(k).drop_first() == xs.skip(k + 1),
{
    assert(xs.skip(k).drop_first() =~= xs.skip(k + 1));
}

/// `push_front` prepends: the view it leaves, `s.insert(0, x)`, is `x`
/// followed by the old view, so building a sequence by pushes at the front
/// reverses the push order.
pub proof fn lemma_push_front_prepends<T>(s: Seq<T>, x: T)
    ensures
        s.insert(0, x) == seq![x] + s,
{
    assert(s.insert(0, x) =~= seq![x] + s);
}

/// `insert_after` at position `p` followed by `next` twice yields the
/// just-inserted element and then its original successor. The insertion
/// leaves the view `s.insert(p + 1, x)` with the cursor still at `p`; the
/// first `next` stands at `p + 1` and by its contract returns the element
/// there, which this lemma says is `x`; the second stands at `p + 2` and
/// returns the original successor `s[p + 1]` when there is one, and is
/// absent otherwise.
pub proof fn lemma_insert_after_then_next<T>(s: Seq<T>, p: int, x: T)
    requires
        0 <= p < s.len(),
    ensures
        s.insert(p + 1, x).len() == s.len() + 1,
        s.insert(p + 1, x)[p + 1] == x,
        p + 1 < s.len() ==> s.insert(p + 1, x)[p + 2] == s[p + 1],
{
    s.insert_ensures(p + 1, x);
    assert(p + 1 < s.len() ==> s.insert(p + 1, x)[(p + 1) + 1] == s[p + 1]);
}

/// `insert_before(x)` then `prev` then `peek_mut` yields the just-inserted
/// element. The insertion leaves the view `s.insert(p, x)` with the cursor
/// at `p + 1`; `prev` moves it to `p`, and by their contracts both `prev`
/// and the following `peek_mut` hand out the element at `p`, which this
/// lemma says is `x`. At the off-the-end position `p == s.len()` the same
/// holds, the insertion then being at the very back.
pub proof fn lemma_insert_before_then_prev<T>(s: Seq<T>, p: int, x: T)
    requires
        0 <= p <= s.len(),
    ensures
        s.insert(p, x).len() == s.len() + 1,
        s.insert(p, x)[p] == x,
{
    s.insert_ensures(p, x);
}

/// `take` on the single element of a one-element sequence empties it: the
/// removal's contract returns `s[0]` and leaves `s.remove(0)`, which this
/// lemma says is empty. The cursor is then off the end of an empty
/// sequence, where a second `take` is absent by its contract.
pub proof fn lemma_take_singleton<T>(s: Seq<T>)
    requires
        s.len() == 1,
    ensures
        s.remove(0) == Seq::<T>::empty(),
        s[0] == s.last(),
{
    assert(s.remove(0) =~= Seq::<T>::empty());
}

} // verus!
