//! A movable handle on one position of a sequence, for localized reads,
//! writes, insertions and removals.
//!
//! The cursor takes the sequence over by value while it is alive and hands it
//! back when it is done, so a second handle that could mutate the sequence
//! under it — the classic way such a handle dangles — cannot even be written
//! down; no runtime check is needed.

use crate::sequence::{Sequence, NIL};
use vstd::prelude::*;

verus! {

/// A position within one sequence: either on the node of the element at
/// `pos()`, or off the end, one past the last element. A cursor obtained
/// from an empty sequence starts off the end, and reading there is simply
/// absent, never undefined.
pub struct Cursor<T> {
    pub(crate) seq: Sequence<T>,
    pub(crate) cur: usize,
    pub(crate) idx: Ghost<int>,
}

impl<T> View for Cursor<T> {
    type V = Seq<T>;

    open spec fn view(&self) -> Seq<T> {
        self.elems()
    }
}

impl<T> Cursor<T> {
    /// The elements of the sequence the cursor stands in, front to back.
    pub open(crate) spec fn elems(&self) -> Seq<T> {
        self.seq@
    }

    /// The logical position the cursor stands on; equal to the length of the
    /// sequence exactly when the cursor is off the end.
    pub open(crate) spec fn pos(&self) -> int {
        self.idx@
    }

    /// The cursor stands on the node of the element at `pos()`, or on `NIL`
    /// when it is off the end.
    pub open(crate) spec fn wf(&self) -> bool {
        &&& self.seq.wf()
        &&& 0 <= self.idx@ <= self.seq@.len()
        &&& (self.idx@ == self.seq@.len() ==> self.cur == NIL)
        &&& (self.idx@ < self.seq@.len() ==> self.cur == self.seq.order@[self.idx@] && self.cur
            != NIL)
    }

    /// Gives the sequence back; the cursor is gone afterwards.
    pub fn into_sequence(self) -> (s: Sequence<T>)
        requires
            self.wf(),
        ensures
            s.wf(),
            s@ == self@,
    {
        self.seq
    }

    /// Mutable access to the current element; absent exactly when the cursor
    /// is off the end. What the caller writes through the reference is what
    /// the sequence holds at this position afterwards.
    pub fn peek_mut(&mut self) -> (r: Option<&mut T>)
        requires
            old(self).wf(),
        ensures
            final(self).wf(),
            final(self).pos() == old(self).pos(),
            old(self).pos() == old(self)@.len() ==> r is None && *final(self) == *old(self),
            old(self).pos() < old(self)@.len() ==> r is Some && *r.unwrap() == old(self)@[old(self).pos()] && final(self)@ == old(self)@.update(old(self).pos(), *final(r.unwrap())),
    {
        if self.cur == NIL {
            None
        } else {
            let x = self.cur;
            let ghost k = self.idx@;
            Some(self.seq.elem_mut(x, Ghost(k)))
        }
    }

    /// Advances one position toward the back and gives mutable access to the
    /// element there; from the last element it moves off the end and is
    /// absent, and off the end it stays put and is absent.
    pub fn next(&mut self) -> (r: Option<&mut T>)
        requires
            old(self).wf(),
        ensures
            final(self).wf(),
            old(self).pos() == old(self)@.len() ==> r is None && *final(self) == *old(self),
            old(self).pos() < old(self)@.len() ==> final(self).pos() == old(self).pos() + 1,
            old(self).pos() == old(self)@.len() - 1 ==> r is None && final(self)@ == old(self)@,
            old(self).pos() < old(self)@.len() - 1 ==> r is Some && *r.unwrap() == old(self)@[old(self).pos() + 1] && final(self)@ == old(self)@.update(
                old(self).pos() + 1,
                *final(r.unwrap()),
            ),
    {
        if self.cur == NIL {
            return None;
        }
        let _cap = self.seq.slots.len();
        proof {
            broadcast use vstd::std_specs::vec::axiom_spec_len;

            assert(self.seq.slots@.len() <= usize::MAX);
        }
        let x = self.cur;
        let nxt = self.seq.slots[x].next;
        self.cur = nxt;
        self.idx = Ghost(self.idx@ + 1);
        if nxt == NIL {
            return None;
        }
        let ghost k = self.idx@;
        Some(self.seq.elem_mut(nxt, Ghost(k)))
    }

    /// Moves one position toward the front and gives mutable access to the
    /// element there; at the front it stays put and is absent. From off the
    /// end it moves onto the last element.
    pub fn prev(&mut self) -> (r: Option<&mut T>)
        requires
            old(self).wf(),
        ensures
            final(self).wf(),
            old(self).pos() == 0 ==> r is None && *final(self) == *old(self),
            old(self).pos() > 0 ==> r is Some && final(self).pos() == old(self).pos() - 1
                && *r.unwrap() == old(self)@[old(self).pos() - 1] && final(self)@ == old(self)@.update(old(self).pos() - 1, *final(r.unwrap())),
    {
        let _cap = self.seq.slots.len();
        proof {
            broadcast use vstd::std_specs::vec::axiom_spec_len;

            assert(self.seq.slots@.len() <= usize::MAX);
        }
        let p = if self.cur == NIL {
            self.seq.tail
        } else {
            self.seq.slots[self.cur].prev
        };
        if p == NIL {
            return None;
        }
        self.cur = p;
        self.idx = Ghost(self.idx@ - 1);
        let ghost k = self.idx@;
        Some(self.seq.elem_mut(p, Ghost(k)))
    }

    /// Removes and returns the current element, splicing its two neighbours
    /// together; absent, and a no-op, when the cursor is off the end. The
    /// cursor moves to the removed element's former successor, or off the end
    /// if none existed.
    pub fn take(&mut self) -> (r: Option<T>)
        requires
            old(self).wf(),
        ensures
            final(self).wf(),
            final(self).pos() == old(self).pos(),
            old(self).pos() == old(self)@.len() ==> r is None && *final(self) == *old(self),
            old(self).pos() < old(self)@.len() ==> r == Some(old(self)@[old(self).pos()]) && final(self)@ == old(self)@.remove(old(self).pos()),
    {
        if self.cur == NIL {
            return None;
        }
        let _cap = self.seq.slots.len();
        proof {
            broadcast use vstd::std_specs::vec::axiom_spec_len;

            assert(self.seq.slots@.len() <= usize::MAX);
        }
        let ghost ord = self.seq.order@;
        let ghost k = self.idx@;
        let x = self.cur;
        let nxt = self.seq.slots[x].next;
        let v = self.seq.unlink(x, Ghost(k));
        self.cur = nxt;
        proof {
            ord.remove_ensures(k);
            assert(k < ord.len() - 1 ==> self.seq.order@[k] == ord[k + 1]);
        }
        Some(v)
    }

    /// Splices a new element in directly after the current one, without
    /// moving the cursor; off the end, the new element becomes the last and
    /// the cursor stays off the end.
    pub fn insert_after(&mut self, element: T)
        requires
            old(self).wf(),
            old(self)@.len() < usize::MAX,
        ensures
            final(self).wf(),
            old(self).pos() < old(self)@.len() ==> final(self)@ == old(self)@.insert(
                old(self).pos() + 1,
                element,
            ) && final(self).pos() == old(self).pos(),
            old(self).pos() == old(self)@.len() ==> final(self)@ == old(self)@.push(element)
                && final(self).pos() == old(self)@.len() + 1,
    {
        let ghost ord = self.seq.order@;
        let ghost k = self.idx@;
        if self.cur == NIL {
            let t = self.seq.tail;
            self.seq.splice(t, NIL, element, Ghost(k));
            self.idx = Ghost(k + 1);
            proof {
                assert(old(self)@.insert(k, element) =~= old(self)@.push(element));
            }
        } else {
            let x = self.cur;
            let nxt = self.seq.slots[x].next;
            self.seq.splice(x, nxt, element, Ghost(k + 1));
            proof {
                assert(self.seq.order@[k] == ord[k]);
            }
        }
    }

    /// Splices a new element in directly before the current one, without
    /// moving the cursor off its element (its position grows by one); off the
    /// end, the new element becomes the last and the cursor stays off the
    /// end.
    pub fn insert_before(&mut self, element: T)
        requires
            old(self).wf(),
            old(self)@.len() < usize::MAX,
        ensures
            final(self).wf(),
            final(self).pos() == old(self).pos() + 1,
            old(self).pos() < old(self)@.len() ==> final(self)@ == old(self)@.insert(
                old(self).pos(),
                element,
            ),
            old(self).pos() == old(self)@.len() ==> final(self)@ == old(self)@.push(element),
    {
        let ghost ord = self.seq.order@;
        let ghost k = self.idx@;
        if self.cur == NIL {
            let t = self.seq.tail;
            self.seq.splice(t, NIL, element, Ghost(k));
            self.idx = Ghost(k + 1);
            proof {
                assert(old(self)@.insert(k, element) =~= old(self)@.push(element));
            }
        } else {
            let x = self.cur;
            let p = self.seq.slots[x].prev;
            self.seq.splice(p, x, element, Ghost(k));
            self.idx = Ghost(k + 1);
            proof {
                assert(self.seq.order@[k + 1] == ord[k]);
            }
        }
    }
}

impl<T> Sequence<T> {
    /// A cursor standing on the first element, or off the end when the
    /// sequence is empty. The cursor owns the sequence until
    /// `into_sequence` hands it back.
    pub fn cursor_front(self) -> (c: Cursor<T>)
        requires
            self.wf(),
        ensures
            c.wf(),
            c@ == self@,
            c.pos() == 0,
    {
        let _cap = self.slots.len();
        proof {
            broadcast use vstd::std_specs::vec::axiom_spec_len;

            assert(self.slots@.len() <= usize::MAX);
        }
        let h = self.head;
        Cursor { seq: self, cur: h, idx: Ghost(0) }
    }

    /// A cursor standing on the last element, or off the end when the
    /// sequence is empty.
    pub fn cursor_back(self) -> (c: Cursor<T>)
        requires
            self.wf(),
        ensures
            c.wf(),
            c@ == self@,
            c.pos() == (if self@.len() == 0 {
                0int
            } else {
                self@.len() - 1
            }),
    {
        let _cap = self.slots.len();
        proof {
            broadcast use vstd::std_specs::vec::axiom_spec_len;

            assert(self.slots@.len() <= usize::MAX);
        }
        let t = self.tail;
        let ghost j: int = if self@.len() == 0 {
            0int
        } else {
            self@.len() - 1
        };
        Cursor { seq: self, cur: t, idx: Ghost(j) }
    }
}

} // verus!
