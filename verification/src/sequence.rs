//! The doubly-linked sequence itself: an ordered collection whose nodes live
//! in a growable arena and refer to their neighbours by index, so that every
//! link update is an ordinary store into the arena.

use vstd::prelude::*;

verus! {

/// Index that stands for "no node": the forward link of the last node, the
/// backward link of the first, and both ends of an empty sequence. A real
/// node index is always strictly below the arena's length, which fits in a
/// `usize`, so no node ever receives this index.
pub const NIL: usize = usize::MAX;

/// One arena slot. A live slot holds the element of one node together with
/// the indices of its two neighbours; a vacant slot holds `None` and waits on
/// the free list to be handed out again.
pub(crate) struct Node<T> {
    pub(crate) elem: Option<T>,
    pub(crate) next: usize,
    pub(crate) prev: usize,
}

/// An ordered collection of elements of type `T`, addressable from the front,
/// the back, and (through a cursor) any interior position, with insertion and
/// removal anywhere in constant time.
///
/// Abstractly a value of this type is the sequence of its elements, written
/// `self@`. The `order` field records, in ghost code, which arena slot holds
/// the node at each logical position; the link fields of the live slots
/// mirror that ordering exactly, which is what `wf` states.
pub struct Sequence<T> {
    pub(crate) slots: Vec<Node<T>>,
    pub(crate) head: usize,
    pub(crate) tail: usize,
    pub(crate) count: usize,
    pub(crate) free: Vec<usize>,
    pub(crate) order: Ghost<Seq<usize>>,
}

impl<T> View for Sequence<T> {
    type V = Seq<T>;

    open spec fn view(&self) -> Seq<T> {
        self.elems()
    }
}

impl<T> Sequence<T> {
    /// The sequence of elements this value represents, front to back.
    pub open(crate) spec fn elems(&self) -> Seq<T> {
        Seq::new(self.order@.len(), |i: int| self.slots@[self.order@[i] as int].elem->0)
    }

    /// The free list names vacant slots only, each at most once.
    pub open(crate) spec fn free_ok(&self) -> bool {
        &&& forall|k: int|
            0 <= k < self.free@.len() ==> (#[trigger] self.free@[k]) < self.slots@.len()
        &&& forall|k: int|
            0 <= k < self.free@.len() ==> self.slots@[#[trigger] self.free@[k] as int].elem
                is None
        &&& forall|k1: int, k2: int|
            0 <= k1 < k2 < self.free@.len() ==> self.free@[k1] != self.free@[k2]
    }

    /// The forward and backward links of the live slots spell out exactly the
    /// ordering that `order` records: each node's `next` names the node one
    /// position later (or `NIL` at the back), each node's `prev` names the
    /// node one position earlier (or `NIL` at the front), and `head`, `tail`
    /// and `count` agree with that ordering.
    pub open(crate) spec fn links_ok(&self) -> bool {
        let ord = self.order@;
        &&& self.count == ord.len()
        &&& forall|i: int|
            #![trigger ord[i]]
            0 <= i < ord.len() ==> {
                &&& ord[i] < self.slots@.len()
                &&& self.slots@[ord[i] as int].elem is Some
                &&& self.slots@[ord[i] as int].prev == (if i == 0 {
                    NIL
                } else {
                    ord[i - 1]
                })
                &&& self.slots@[ord[i] as int].next == (if i == ord.len() - 1 {
                    NIL
                } else {
                    ord[i + 1]
                })
            }
        &&& forall|i: int, j: int|
            #![trigger ord[i], ord[j]]
            0 <= i < j < ord.len() ==> ord[i] != ord[j]
        &&& self.head == (if ord.len() == 0 {
            NIL
        } else {
            ord[0]
        })
        &&& self.tail == (if ord.len() == 0 {
            NIL
        } else {
            ord[ord.len() - 1]
        })
    }

    /// Well-formedness: every constructor establishes this and every
    /// operation preserves it.
    pub open(crate) spec fn wf(&self) -> bool {
        self.links_ok() && self.free_ok()
    }

    /// Returns an empty sequence.
    pub fn new() -> (s: Sequence<T>)
        ensures
            s.wf(),
            s@ == Seq::<T>::empty(),
    {
        let s = Sequence {
            slots: Vec::new(),
            head: NIL,
            tail: NIL,
            count: 0,
            free: Vec::new(),
            order: Ghost(Seq::empty()),
        };
        proof {
            assert(s@ =~= Seq::<T>::empty());
        }
        s
    }

    /// Places one freshly filled node into the arena, reusing a vacant slot
    /// when the free list offers one and growing the arena otherwise, and
    /// returns the node's index. The links, ends and ordering are untouched.
    fn acquire_slot(&mut self, node: Node<T>) -> (f: usize)
        requires
            old(self).free_ok(),
            node.elem is Some,
        ensures
            final(self).free_ok(),
            final(self).head == old(self).head,
            final(self).tail == old(self).tail,
            final(self).count == old(self).count,
            final(self).order@ == old(self).order@,
            old(self).slots@.len() <= final(self).slots@.len(),
            final(self).slots@.len() <= old(self).slots@.len() + 1,
            f == old(self).slots@.len() || final(self).slots@.len() == old(self).slots@.len(),
            f < final(self).slots@.len(),
            final(self).slots@[f as int] == node,
            forall|i: int|
                0 <= i < final(self).slots@.len() && i != f ==> i < old(self).slots@.len()
                    && final(self).slots@[i] == old(self).slots@[i],
            f == old(self).slots@.len() || old(self).slots@[f as int].elem is None,
    {
        match self.free.pop() {
            Some(g) => {
                proof {
                    assert(g == old(self).free@[old(self).free@.len() - 1]);
                }
                self.slots[g] = node;
                proof {
                    assert forall|k: int| 0 <= k < self.free@.len() implies self.slots@[(
                    #[trigger] self.free@[k]) as int].elem is None by {
                        assert(self.free@[k] == old(self).free@[k]);
                        assert(old(self).free@[k] != g);
                    }
                }
                g
            },
            None => {
                let f = self.slots.len();
                self.slots.push(node);
                f
            },
        }
    }

    /// The arena of `post` is the arena of `pre` with one fresh node `f`
    /// holding `v` linked in between the neighbours of logical position `k`,
    /// exactly those two neighbouring links rewritten, and the ends and the
    /// count adjusted to match.
    spec fn splice_shape(pre: Sequence<T>, post: Sequence<T>, k: int, f: usize, v: T) -> bool {
        &&& post.slots@.len() <= usize::MAX
        &&& pre.slots@.len() <= post.slots@.len()
        &&& post.slots@.len() <= pre.slots@.len() + 1
        &&& (f == pre.slots@.len() || post.slots@.len() == pre.slots@.len())
        &&& f < post.slots@.len()
        &&& (f == pre.slots@.len() || pre.slots@[f as int].elem is None)
        &&& post.order@ == pre.order@.insert(k, f)
        &&& post.count == pre.count + 1
        &&& post.head == (if k == 0 {
            f
        } else {
            pre.head
        })
        &&& post.tail == (if k == pre@.len() {
            f
        } else {
            pre.tail
        })
        &&& post.slots@[f as int].elem == Some(v)
        &&& post.slots@[f as int].prev == (if k == 0 {
            NIL
        } else {
            pre.order@[k - 1]
        })
        &&& post.slots@[f as int].next == (if k == pre@.len() {
            NIL
        } else {
            pre.order@[k]
        })
        &&& forall|i: int|
            #![trigger post.slots@[i]]
            0 <= i < post.slots@.len() && i != f && (k == 0 || i != pre.order@[k - 1]) && (k
                == pre@.len() || i != pre.order@[k]) ==> post.slots@[i] == pre.slots@[i]
        &&& (k > 0 ==> post.slots@[pre.order@[k - 1] as int].elem == pre.slots@[pre.order@[k
            - 1] as int].elem && post.slots@[pre.order@[k - 1] as int].prev
            == pre.slots@[pre.order@[k - 1] as int].prev && post.slots@[pre.order@[k
            - 1] as int].next == f)
        &&& (k < pre@.len() ==> post.slots@[pre.order@[k] as int].elem
            == pre.slots@[pre.order@[k] as int].elem && post.slots@[pre.order@[k] as int].next
            == pre.slots@[pre.order@[k] as int].next && post.slots@[pre.order@[k] as int].prev
            == f)
    }

    /// The links of `post` after a splice spell out the inserted ordering.
    #[verifier::rlimit(100)]
    proof fn lemma_splice_links(pre: Sequence<T>, post: Sequence<T>, k: int, f: usize, v: T)
        requires
            pre.wf(),
            0 <= k <= pre@.len(),
            Self::splice_shape(pre, post, k, f, v),
        ensures
            post.links_ok(),
    {
        let ord = pre.order@;
        let n = ord.len() as int;
        let ord2 = post.order@;
        let slots2 = post.slots@;
        assert forall|i: int| 0 <= i < n implies #[trigger] ord[i] != f by {
            assert(pre.slots@[ord[i] as int].elem is Some);
        }
        assert(ord2.len() == n + 1);
        assert forall|j: int| #![trigger ord2[j]] 0 <= j < n + 1 implies {
            &&& (j < k ==> ord2[j] == ord[j])
            &&& (j == k ==> ord2[j] == f)
            &&& (j > k ==> ord2[j] == ord[j - 1])
        } by {}
        assert forall|j: int| #![trigger ord2[j]] 0 <= j < ord2.len() implies {
            &&& ord2[j] < slots2.len()
            &&& slots2[ord2[j] as int].elem is Some
            &&& slots2[ord2[j] as int].prev == (if j == 0 {
                NIL
            } else {
                ord2[j - 1]
            })
            &&& slots2[ord2[j] as int].next == (if j == ord2.len() - 1 {
                NIL
            } else {
                ord2[j + 1]
            })
        } by {
            if j < k - 1 {
                assert(ord2[j] == ord[j]);
                assert(ord[j] != ord[k - 1] && (k < n ==> ord[j] != ord[k]));
                assert(slots2[ord[j] as int] == pre.slots@[ord[j] as int]);
            } else if j == k - 1 {
                assert(ord2[j] == ord[j]);
                assert(k < n ==> ord[j] != ord[k]);
                assert(slots2[ord[j] as int].elem == pre.slots@[ord[j] as int].elem);
                assert(slots2[ord[j] as int].prev == pre.slots@[ord[j] as int].prev);
                assert(slots2[ord[j] as int].next == f);
            } else if j == k {
                assert(ord2[j] == f);
            } else if j == k + 1 {
                assert(ord2[j] == ord[k]);
                assert(k > 0 ==> ord[k] != ord[k - 1]);
                assert(slots2[ord[k] as int].elem == pre.slots@[ord[k] as int].elem);
                assert(slots2[ord[k] as int].next == pre.slots@[ord[k] as int].next);
                assert(slots2[ord[k] as int].prev == f);
            } else {
                assert(ord2[j] == ord[j - 1]);
                assert(ord[j - 1] != ord[k - 1] || k == 0);
                assert(k < n ==> ord[j - 1] != ord[k]);
                assert(slots2[ord[j - 1] as int] == pre.slots@[ord[j - 1] as int]);
            }
        }
        assert forall|i: int, j: int|
            #![trigger ord2[i], ord2[j]]
            0 <= i < j < ord2.len() implies ord2[i] != ord2[j] by {}
        assert(post.links_ok());
    }

    /// After a splice, `post` represents `pre` with `v` inserted at `k`.
    #[verifier::rlimit(100)]
    proof fn lemma_splice_view(pre: Sequence<T>, post: Sequence<T>, k: int, f: usize, v: T)
        requires
            pre.wf(),
            0 <= k <= pre@.len(),
            Self::splice_shape(pre, post, k, f, v),
        ensures
            post@ == pre@.insert(k, v),
    {
        let ord = pre.order@;
        let n = ord.len() as int;
        let ord2 = post.order@;
        let slots2 = post.slots@;
        assert forall|i: int| 0 <= i < n implies #[trigger] ord[i] != f by {
            assert(pre.slots@[ord[i] as int].elem is Some);
        }
        assert(ord2.len() == n + 1);
        assert forall|j: int| #![trigger ord2[j]] 0 <= j < n + 1 implies {
            &&& (j < k ==> ord2[j] == ord[j])
            &&& (j == k ==> ord2[j] == f)
            &&& (j > k ==> ord2[j] == ord[j - 1])
        } by {}
        assert forall|j: int| 0 <= j < n + 1 implies #[trigger] post@[j] == pre@.insert(k, v)[j] by {
            pre@.insert_ensures(k, v);
            if j < k {
                assert(post@[j] == slots2[ord[j] as int].elem->0);
                assert(pre@[j] == pre.slots@[ord[j] as int].elem->0);
            } else if j > k {
                assert(post@[j] == slots2[ord[j - 1] as int].elem->0);
                assert(pre@[j - 1] == pre.slots@[ord[j - 1] as int].elem->0);
            }
        }
        assert(post@ =~= pre@.insert(k, v));
    }

    /// Splices a new node holding `v` in between the two adjacent positions
    /// named by the arena indices `left` and `right` (`NIL` at an end), so
    /// that the new element comes to stand at logical position `k`, and
    /// returns the new node's arena index. Exactly the four links around the
    /// new node are rewritten; every push and every cursor insertion comes
    /// down to this splice.
    #[verifier::rlimit(50)]
    pub(crate) fn splice(
        &mut self,
        left: usize,
        right: usize,
        v: T,
        Ghost(k): Ghost<int>,
    ) -> (f: usize)
        requires
            old(self).wf(),
            0 <= k <= old(self)@.len(),
            old(self)@.len() < usize::MAX,
            left == (if k == 0 {
                NIL
            } else {
                old(self).order@[k - 1]
            }),
            right == (if k == old(self)@.len() {
                NIL
            } else {
                old(self).order@[k]
            }),
        ensures
            final(self).wf(),
            final(self)@ == old(self)@.insert(k, v),
            final(self).order@ == old(self).order@.insert(k, f),
            f != NIL,
    {
        let ghost ord = old(self).order@;
        let ghost n = ord.len() as int;
        let ghost v0 = v;
        let f = self.acquire_slot(Node { elem: Some(v), next: right, prev: left });
        let ghost mid = *self;
        let _cap = self.slots.len();
        proof {
            broadcast use vstd::std_specs::vec::axiom_spec_len;

            assert(self.slots@.len() <= usize::MAX);
            assert forall|i: int| 0 <= i < n implies #[trigger] ord[i] != f by {
                assert(old(self).slots@[ord[i] as int].elem is Some);
            }
            assert(k > 0 ==> left != NIL && left != f && left < self.slots@.len());
            assert(k < n ==> right != NIL && right != f && right < self.slots@.len());
            assert(0 < k < n ==> left != right);
        }
        if left == NIL {
            self.head = f;
        } else {
            self.slots[left].next = f;
        }
        if right == NIL {
            self.tail = f;
        } else {
            self.slots[right].prev = f;
        }
        self.count = self.count + 1;
        self.order = Ghost(ord.insert(k, f));
        proof {
            assert forall|k2: int| 0 <= k2 < self.free@.len() implies self.slots@[(
            #[trigger] self.free@[k2]) as int].elem is None by {
                assert(self.free@[k2] != left || k == 0);
                assert(self.free@[k2] != right || k == n);
            }
            assert(self.free_ok());
            assert forall|i: int|
                #![trigger self.slots@[i]]
                0 <= i < self.slots@.len() && i != f && (k == 0 || i != ord[k - 1]) && (k == n
                    || i != ord[k]) implies self.slots@[i] == old(self).slots@[i] by {
                assert(self.slots@[i] == mid.slots@[i]);
                assert(mid.slots@[i] == old(self).slots@[i]);
            }
            assert(self.slots@[f as int].elem == Some(v0));
            assert(Self::splice_shape(*old(self), *self, k, f, v0));
            Self::lemma_splice_links(*old(self), *self, k, f, v0);
            Self::lemma_splice_view(*old(self), *self, k, f, v0);
        }
        f
    }

    /// The arena of `post` is the arena of `pre` with the node `x` at logical
    /// position `k` emptied and put on the free list, the links of its two
    /// neighbours joined to one another, and the ends and the count adjusted.
    spec fn unlink_shape(pre: Sequence<T>, post: Sequence<T>, k: int, x: usize) -> bool {
        &&& post.slots@.len() == pre.slots@.len()
        &&& post.order@ == pre.order@.remove(k)
        &&& post.count == pre.count - 1
        &&& post.free@ == pre.free@.push(x)
        &&& post.head == (if k == 0 {
            if k == pre@.len() - 1 {
                NIL
            } else {
                pre.order@[k + 1]
            }
        } else {
            pre.head
        })
        &&& post.tail == (if k == pre@.len() - 1 {
            if k == 0 {
                NIL
            } else {
                pre.order@[k - 1]
            }
        } else {
            pre.tail
        })
        &&& post.slots@[x as int].elem is None
        &&& forall|i: int|
            #![trigger post.slots@[i]]
            0 <= i < post.slots@.len() && i != x && (k == 0 || i != pre.order@[k - 1]) && (k
                == pre@.len() - 1 || i != pre.order@[k + 1]) ==> post.slots@[i] == pre.slots@[i]
        &&& (k > 0 ==> post.slots@[pre.order@[k - 1] as int].elem == pre.slots@[pre.order@[k
            - 1] as int].elem && post.slots@[pre.order@[k - 1] as int].prev
            == pre.slots@[pre.order@[k - 1] as int].prev && post.slots@[pre.order@[k
            - 1] as int].next == (if k == pre@.len() - 1 {
            NIL
        } else {
            pre.order@[k + 1]
        }))
        &&& (k < pre@.len() - 1 ==> post.slots@[pre.order@[k + 1] as int].elem
            == pre.slots@[pre.order@[k + 1] as int].elem && post.slots@[pre.order@[k
            + 1] as int].next == pre.slots@[pre.order@[k + 1] as int].next && post.slots@[pre.order@[k
            + 1] as int].prev == (if k == 0 {
            NIL
        } else {
            pre.order@[k - 1]
        }))
    }

    /// The links of `post` after an unlink spell out the shortened ordering.
    #[verifier::rlimit(100)]
    proof fn lemma_unlink_links(pre: Sequence<T>, post: Sequence<T>, k: int, x: usize)
        requires
            pre.wf(),
            0 <= k < pre@.len(),
            x == pre.order@[k],
            Self::unlink_shape(pre, post, k, x),
        ensures
            post.links_ok(),
    {
        let ord = pre.order@;
        let n = ord.len() as int;
        let ord2 = post.order@;
        let slots2 = post.slots@;
        assert(ord2.len() == n - 1);
        assert forall|j: int| #![trigger ord2[j]] 0 <= j < n - 1 implies {
            &&& (j < k ==> ord2[j] == ord[j])
            &&& (j >= k ==> ord2[j] == ord[j + 1])
        } by {}
        assert forall|j: int| #![trigger ord2[j]] 0 <= j < ord2.len() implies {
            &&& ord2[j] < slots2.len()
            &&& slots2[ord2[j] as int].elem is Some
            &&& slots2[ord2[j] as int].prev == (if j == 0 {
                NIL
            } else {
                ord2[j - 1]
            })
            &&& slots2[ord2[j] as int].next == (if j == ord2.len() - 1 {
                NIL
            } else {
                ord2[j + 1]
            })
        } by {
            if j < k - 1 {
                assert(ord2[j] == ord[j]);
                assert(ord[j] != ord[k] && ord[j] != ord[k - 1] && (k < n - 1 ==> ord[j] != ord[k
                    + 1]));
                assert(slots2[ord[j] as int] == pre.slots@[ord[j] as int]);
            } else if j == k - 1 {
                assert(ord2[j] == ord[j]);
                assert(slots2[ord[j] as int].elem == pre.slots@[ord[j] as int].elem);
                assert(slots2[ord[j] as int].prev == pre.slots@[ord[j] as int].prev);
                assert(slots2[ord[j] as int].next == (if k == n - 1 {
                    NIL
                } else {
                    ord[k + 1]
                }));
            } else if j == k {
                assert(ord2[j] == ord[k + 1]);
                assert(slots2[ord[k + 1] as int].elem == pre.slots@[ord[k + 1] as int].elem);
                assert(slots2[ord[k + 1] as int].next == pre.slots@[ord[k + 1] as int].next);
                assert(slots2[ord[k + 1] as int].prev == (if k == 0 {
                    NIL
                } else {
                    ord[k - 1]
                }));
            } else {
                assert(ord2[j] == ord[j + 1]);
                assert(ord[j + 1] != ord[k] && (k > 0 ==> ord[j + 1] != ord[k - 1]) && (k < n - 1
                    ==> ord[j + 1] != ord[k + 1]));
                assert(slots2[ord[j + 1] as int] == pre.slots@[ord[j + 1] as int]);
            }
        }
        assert forall|i: int, j: int|
            #![trigger ord2[i], ord2[j]]
            0 <= i < j < ord2.len() implies ord2[i] != ord2[j] by {}
        assert(post.links_ok());
    }

    /// After an unlink, `post` represents `pre` without the element at `k`.
    #[verifier::rlimit(100)]
    proof fn lemma_unlink_view(pre: Sequence<T>, post: Sequence<T>, k: int, x: usize)
        requires
            pre.wf(),
            0 <= k < pre@.len(),
            x == pre.order@[k],
            Self::unlink_shape(pre, post, k, x),
        ensures
            post@ == pre@.remove(k),
    {
        let ord = pre.order@;
        let n = ord.len() as int;
        let ord2 = post.order@;
        let slots2 = post.slots@;
        assert(ord2.len() == n - 1);
        assert forall|j: int| #![trigger ord2[j]] 0 <= j < n - 1 implies {
            &&& (j < k ==> ord2[j] == ord[j])
            &&& (j >= k ==> ord2[j] == ord[j + 1])
        } by {}
        assert forall|j: int| 0 <= j < n - 1 implies #[trigger] post@[j] == pre@.remove(k)[j] by {
            pre@.remove_ensures(k);
            if j < k {
                assert(ord[j] != ord[k] && (k > 0 ==> ord[j] != ord[k - 1]) || j == k - 1);
                assert(slots2[ord[j] as int].elem == pre.slots@[ord[j] as int].elem);
                assert(post@[j] == slots2[ord[j] as int].elem->0);
                assert(pre@[j] == pre.slots@[ord[j] as int].elem->0);
            } else {
                assert(slots2[ord[j + 1] as int].elem == pre.slots@[ord[j + 1] as int].elem);
                assert(post@[j] == slots2[ord[j + 1] as int].elem->0);
                assert(pre@[j + 1] == pre.slots@[ord[j + 1] as int].elem->0);
            }
        }
        assert(post@ =~= pre@.remove(k));
    }

    /// Unlinks the node at arena index `x`, standing at logical position `k`,
    /// joins its two neighbours to one another, puts the slot on the free
    /// list, and returns the element. Every pop and every cursor removal
    /// comes down to this.
    #[verifier::rlimit(50)]
    pub(crate) fn unlink(&mut self, x: usize, Ghost(k): Ghost<int>) -> (v: T)
        requires
            old(self).wf(),
            0 <= k < old(self)@.len(),
            x == old(self).order@[k],
        ensures
            final(self).wf(),
            v == old(self)@[k],
            final(self)@ == old(self)@.remove(k),
            final(self).order@ == old(self).order@.remove(k),
    {
        let ghost ord = old(self).order@;
        let ghost n = ord.len() as int;
        let _cap = self.slots.len();
        proof {
            broadcast use vstd::std_specs::vec::axiom_spec_len;

            assert(self.slots@.len() <= usize::MAX);
            assert(k > 0 ==> ord[k - 1] != NIL && ord[k - 1] != x);
            assert(k < n - 1 ==> ord[k + 1] != NIL && ord[k + 1] != x);
        }
        let p = self.slots[x].prev;
        let nx = self.slots[x].next;
        let e = self.slots[x].elem.take();
        let ghost mid = *self;
        if p == NIL {
            self.head = nx;
        } else {
            self.slots[p].next = nx;
        }
        if nx == NIL {
            self.tail = p;
        } else {
            self.slots[nx].prev = p;
        }
        self.count = self.count - 1;
        self.free.push(x);
        self.order = Ghost(ord.remove(k));
        proof {
            assert forall|i: int|
                #![trigger self.slots@[i]]
                0 <= i < self.slots@.len() && i != x && (k == 0 || i != ord[k - 1]) && (k == n - 1
                    || i != ord[k + 1]) implies self.slots@[i] == old(self).slots@[i] by {
                assert(self.slots@[i] == mid.slots@[i]);
                assert(mid.slots@[i] == old(self).slots@[i]);
            }
            assert(Self::unlink_shape(*old(self), *self, k, x));
            assert forall|k2: int| 0 <= k2 < self.free@.len() implies {
                &&& (#[trigger] self.free@[k2]) < self.slots@.len()
                &&& self.slots@[self.free@[k2] as int].elem is None
            } by {
                if k2 < old(self).free@.len() {
                    assert(self.free@[k2] == old(self).free@[k2]);
                    assert(old(self).slots@[old(self).free@[k2] as int].elem is None);
                    assert(old(self).free@[k2] != x);
                    assert(k > 0 ==> old(self).free@[k2] != ord[k - 1]);
                    assert(k < n - 1 ==> old(self).free@[k2] != ord[k + 1]);
                } else {
                    assert(self.free@[k2] == x);
                }
            }
            assert forall|k1: int, k2: int|
                0 <= k1 < k2 < self.free@.len() implies self.free@[k1] != self.free@[k2] by {
                if k2 == self.free@.len() - 1 {
                    assert(self.free@[k2] == x);
                    assert(old(self).slots@[old(self).free@[k1] as int].elem is None);
                }
            }
            assert(self.free_ok());
            Self::lemma_unlink_links(*old(self), *self, k, x);
            Self::lemma_unlink_view(*old(self), *self, k, x);
        }
        e.unwrap()
    }

    /// Appends `element` as the new last element; the length grows by one.
    pub fn push_back(&mut self, element: T)
        requires
            old(self).wf(),
            old(self)@.len() < usize::MAX,
        ensures
            final(self).wf(),
            final(self)@ == old(self)@.push(element),
    {
        let ghost n = old(self)@.len() as int;
        let t = self.tail;
        self.splice(t, NIL, element, Ghost(n));
        proof {
            assert(old(self)@.insert(n, element) =~= old(self)@.push(element));
        }
    }

    /// Prepends `element` as the new first element; the length grows by one.
    pub fn push_front(&mut self, element: T)
        requires
            old(self).wf(),
            old(self)@.len() < usize::MAX,
        ensures
            final(self).wf(),
            final(self)@ == old(self)@.insert(0, element),
    {
        let h = self.head;
        self.splice(NIL, h, element, Ghost(0));
    }

    /// Removes and returns the last element; on an empty sequence it leaves
    /// the sequence alone and returns nothing.
    pub fn pop_back(&mut self) -> (r: Option<T>)
        requires
            old(self).wf(),
        ensures
            final(self).wf(),
            old(self)@.len() == 0 ==> r is None && *final(self) == *old(self),
            old(self)@.len() > 0 ==> r == Some(old(self)@.last()) && final(self)@ == old(
                self,
            )@.drop_last(),
    {
        if self.count == 0 {
            return None;
        }
        let ghost n = old(self)@.len() as int;
        let t = self.tail;
        let v = self.unlink(t, Ghost(n - 1));
        proof {
            assert(old(self)@.remove(n - 1) =~= old(self)@.drop_last());
        }
        Some(v)
    }

    /// Removes and returns the first element; on an empty sequence it leaves
    /// the sequence alone and returns nothing.
    pub fn pop_front(&mut self) -> (r: Option<T>)
        requires
            old(self).wf(),
        ensures
            final(self).wf(),
            old(self)@.len() == 0 ==> r is None && *final(self) == *old(self),
            old(self)@.len() > 0 ==> r == Some(old(self)@.first()) && final(self)@ == old(
                self,
            )@.drop_first(),
    {
        if self.count == 0 {
            return None;
        }
        let h = self.head;
        let v = self.unlink(h, Ghost(0));
        proof {
            assert(old(self)@.remove(0) =~= old(self)@.drop_first());
        }
        Some(v)
    }

    /// The number of elements, in constant time.
    pub fn len(&self) -> (n: usize)
        requires
            self.wf(),
        ensures
            n == self@.len(),
    {
        self.count
    }

    /// True exactly when the sequence holds no element.
    pub fn is_empty(&self) -> (b: bool)
        requires
            self.wf(),
        ensures
            b <==> self@.len() == 0,
    {
        self.count == 0
    }

    /// Hands out a mutable reference to the element of the node at arena
    /// index `x`, standing at logical position `k`; whatever the caller
    /// writes through it is what the sequence holds at position `k`
    /// afterwards, and nothing else moves.
    pub(crate) fn elem_mut(&mut self, x: usize, Ghost(k): Ghost<int>) -> (r: &mut T)
        requires
            old(self).wf(),
            0 <= k < old(self)@.len(),
            x == old(self).order@[k],
        ensures
            *r == old(self)@[k],
            final(self).order@ == old(self).order@,
            final(self).head == old(self).head,
            final(self).tail == old(self).tail,
            final(self).count == old(self).count,
            final(self)@ =~= old(self)@.update(k, *final(r)),
            final(self)@ == old(self)@.update(k, *final(r)),
            final(self).wf(),
    {
        let node = &mut self.slots[x];
        match node.elem.as_mut() {
            Some(m) => m,
            None => vstd::pervasive::unreached(),
        }
    }

    /// A fresh read-only iterator, standing before the first element.
    pub fn iter(&self) -> (it: Iter<'_, T>)
        requires
            self.wf(),
        ensures
            it.wf(),
            it.elems() == self@,
            it.pos() == 0,
    {
        let _cap = self.slots.len();
        proof {
            broadcast use vstd::std_specs::vec::axiom_spec_len;

            assert(self.slots@.len() <= usize::MAX);
        }
        Iter { seq: self, cur: self.head, idx: Ghost(0) }
    }
}

/// A read-only, forward-only traversal of one sequence, from the front to the
/// end. It borrows the sequence for its whole lifetime, so the sequence
/// cannot be mutated while the iterator is alive; a fresh iterator can always
/// be made once it is gone.
pub struct Iter<'a, T> {
    pub(crate) seq: &'a Sequence<T>,
    pub(crate) cur: usize,
    pub(crate) idx: Ghost<int>,
}

impl<'a, T> Iter<'a, T> {
    /// The elements of the sequence under traversal, front to back.
    pub open(crate) spec fn elems(&self) -> Seq<T> {
        self.seq@
    }

    /// How many elements have been yielded so far.
    pub open(crate) spec fn pos(&self) -> int {
        self.idx@
    }

    /// The iterator stands on the node of the next element to yield, or on
    /// `NIL` once every element has been yielded.
    pub open(crate) spec fn wf(&self) -> bool {
        &&& self.seq.wf()
        &&& 0 <= self.idx@ <= self.seq@.len()
        &&& (self.idx@ == self.seq@.len() ==> self.cur == NIL)
        &&& (self.idx@ < self.seq@.len() ==> self.cur == self.seq.order@[self.idx@] && self.cur
            != NIL)
    }

    /// Yields a reference to the next element, or nothing once the end has
    /// been reached; every element is yielded exactly once, in sequence
    /// order.
    pub fn next(&mut self) -> (r: Option<&'a T>)
        requires
            old(self).wf(),
        ensures
            final(self).wf(),
            final(self).elems() == old(self).elems(),
            old(self).pos() < old(self).elems().len() ==> r is Some && *r.unwrap() == old(
                self,
            ).elems()[old(self).pos()] && final(self).pos() == old(self).pos() + 1,
            old(self).pos() == old(self).elems().len() ==> r is None && final(self).pos() == old(
                self,
            ).pos(),
    {
        if self.cur == NIL {
            None
        } else {
            let s = self.seq;
            let _cap = s.slots.len();
            proof {
                broadcast use vstd::std_specs::vec::axiom_spec_len;

                assert(s.slots@.len() <= usize::MAX);
            }
            let node = &s.slots[self.cur];
            let r = node.elem.as_ref();
            self.cur = node.next;
            self.idx = Ghost(self.idx@ + 1);
            r
        }
    }
}

} // verus!
