//! A doubly linked deque whose nodes live in a table and name their
//! neighbours by position in that table.
//!
//! Links are indices, so no node is owned from two sides and every link
//! update is an ordinary write through `&mut self`. Slots that a pop gives
//! up are kept on a free list and used again by the next push.

use vstd::prelude::*;

verus! {

/// A slot of the table: the element while the slot is in use, and the
/// slots of the neighbours towards the back (`next`) and the front
/// (`prev`).
struct Node<T> {
    elem: Option<T>,
    next: Option<usize>,
    prev: Option<usize>,
}

impl<T> Node<T> {
    /// A node that holds `elem` and has no neighbours yet.
    fn new(elem: T) -> (node: Self)
        ensures
            node.elem == Some(elem),
            node.next == None::<usize>,
            node.prev == None::<usize>,
    {
        Node { elem: Some(elem), prev: None, next: None }
    }
}

/// The content of a deque after `elem` was pushed at the front of `s`.
pub open spec fn spec_push_front<T>(s: Seq<T>, elem: T) -> Seq<T> {
    seq![elem] + s
}

/// The content of a deque after `elem` was pushed at the back of `s`.
pub open spec fn spec_push_back<T>(s: Seq<T>, elem: T) -> Seq<T> {
    s.push(elem)
}

/// The element at the front of `s`, if any.
pub open spec fn spec_front<T>(s: Seq<T>) -> Option<T> {
    if s.len() == 0 {
        None
    } else {
        Some(s.first())
    }
}

/// The element at the back of `s`, if any.
pub open spec fn spec_back<T>(s: Seq<T>) -> Option<T> {
    if s.len() == 0 {
        None
    } else {
        Some(s.last())
    }
}

/// What a pop at the front leaves of `s`.
pub open spec fn spec_without_front<T>(s: Seq<T>) -> Seq<T> {
    if s.len() == 0 {
        s
    } else {
        s.drop_first()
    }
}

/// What a pop at the back leaves of `s`.
pub open spec fn spec_without_back<T>(s: Seq<T>) -> Seq<T> {
    if s.len() == 0 {
        s
    } else {
        s.drop_last()
    }
}

/// A double-ended queue over a table of doubly linked nodes.
pub struct List<T> {
    nodes: Vec<Node<T>>,
    free: Vec<usize>,
    head: Option<usize>,
    tail: Option<usize>,
    /// The slots in use, from the front of the deque to its back.
    order: Ghost<Seq<usize>>,
}

impl<T> View for List<T> {
    type V = Seq<T>;

    /// The elements from the front of the deque to its back.
    closed spec fn view(&self) -> Seq<T> {
        Seq::new(self.order@.len(), |i: int| self.nodes@[self.order@[i] as int].elem.unwrap())
    }
}

impl<T> List<T> {
    /// The node at position `i` of the deque is in the table, holds an
    /// element, and its two links name the positions beside it: each
    /// neighbour's link in the other direction comes back to it, and the
    /// two ends are open.
    spec fn linked_at(&self, i: int) -> bool {
        let order = self.order@;
        let node = self.nodes@[order[i] as int];
        &&& order[i] < self.nodes@.len()
        &&& node.elem is Some
        &&& node.next == (if i + 1 < order.len() {
            Some(order[i + 1])
        } else {
            None
        })
        &&& node.prev == (if i > 0 {
            Some(order[i - 1])
        } else {
            None
        })
    }

    /// The chain is consistent in both directions, `head` and `tail` name
    /// its ends and are absent together exactly when it is empty.
    spec fn chain_ok(&self) -> bool {
        let order = self.order@;
        &&& forall|i: int| 0 <= i < order.len() ==> #[trigger] self.linked_at(i)
        &&& forall|i: int, j: int| 0 <= i < j < order.len() ==> order[i] != order[j]
        &&& self.head == (if order.len() > 0 {
            Some(order[0])
        } else {
            None
        })
        &&& self.tail == (if order.len() > 0 {
            Some(order[order.len() - 1])
        } else {
            None
        })
    }

    /// The free list names slots of the table, each once.
    spec fn free_ok(&self) -> bool {
        let free = self.free@;
        &&& forall|k: int| 0 <= k < free.len() ==> #[trigger] free[k] < self.nodes@.len()
        &&& forall|k: int, l: int| 0 <= k < l < free.len() ==> free[k] != free[l]
    }

    /// No slot is both free and in use.
    spec fn apart(&self) -> bool {
        forall|k: int, i: int|
            0 <= k < self.free@.len() && 0 <= i < self.order@.len() ==> self.free@[k]
                != self.order@[i]
    }

    /// The deque's invariant: links mirror each other, the ends are named
    /// by `head` and `tail`, and free slots are not in use.
    pub closed spec fn wf(&self) -> bool {
        &&& self.chain_ok()
        &&& self.free_ok()
        &&& self.apart()
    }

    /// An empty deque.
    pub fn new() -> (list: Self)
        ensures
            list.wf(),
            list@ == Seq::<T>::empty(),
    {
        let list = List {
            nodes: Vec::new(),
            free: Vec::new(),
            head: None,
            tail: None,
            order: Ghost(Seq::empty()),
        };
        assert(list@ =~= Seq::<T>::empty());
        list
    }

    /// Puts `node` into a slot that is not in use, a free one if there is
    /// any, and says which. The chain and every other slot stay as they
    /// were.
    fn place(&mut self, node: Node<T>) -> (idx: usize)
        requires
            old(self).wf(),
        ensures
            final(self).free_ok(),
            final(self).apart(),
            final(self).head == old(self).head,
            final(self).tail == old(self).tail,
            final(self).order == old(self).order,
            idx < final(self).nodes@.len(),
            old(self).nodes@.len() <= final(self).nodes@.len(),
            final(self).nodes@[idx as int] == node,
            forall|j: int|
                0 <= j < old(self).nodes@.len() && j != idx ==> final(self).nodes@[j] == old(
                    self,
                ).nodes@[j],
            forall|i: int| 0 <= i < old(self).order@.len() ==> old(self).order@[i] != idx,
            forall|k: int| 0 <= k < final(self).free@.len() ==> final(self).free@[k] != idx,
    {
        match self.free.pop() {
            Some(idx) => {
                proof {
                    let k = old(self).free@.len() - 1;
                    assert(old(self).free@[k] == idx);
                    assert(idx < self.nodes@.len());
                }
                self.nodes[idx] = node;
                idx
            },
            None => {
                proof {
                    assert forall|i: int| 0 <= i < old(self).order@.len() implies old(
                        self,
                    ).order@[i] != old(self).nodes@.len() by {
                        assert(old(self).linked_at(i));
                    }
                }
                self.nodes.push(node);
                self.nodes.len() - 1
            },
        }
    }

    /// Links a new node in as the head; the former head's link to the
    /// front is set to it, and in an empty deque it becomes the tail too.
    pub fn push_front(&mut self, elem: T)
        requires
            old(self).wf(),
        ensures
            final(self).wf(),
            final(self)@ == spec_push_front(old(self)@, elem),
    {
        let mut node = Node::new(elem);
        node.next = self.head;
        let idx = self.place(node);
        match self.head {
            Some(old_head) => {
                proof {
                    assert(old(self).linked_at(0));
                }
                self.nodes[old_head].prev = Some(idx);
            },
            None => {
                self.tail = Some(idx);
            },
        }
        self.head = Some(idx);
        self.order = Ghost(seq![idx] + self.order@);
        proof {
            let order = self.order@;
            let before = old(self).order@;
            assert forall|i: int| 0 <= i < order.len() implies #[trigger] self.linked_at(i) by {
                if i > 0 {
                    assert(old(self).linked_at(i - 1));
                    assert(order[i] == before[i - 1]);
                    if i + 1 < order.len() {
                        assert(order[i + 1] == before[i]);
                    }
                    if i > 1 {
                        assert(order[i - 1] == before[i - 2]);
                    }
                } else {
                    if before.len() > 0 {
                        assert(order[1] == before[0]);
                    }
                }
            }
            assert forall|i: int| 0 <= i < self@.len() implies self@[i] == spec_push_front(
                old(self)@,
                elem,
            )[i] by {
                if i > 0 {
                    assert(old(self).linked_at(i - 1));
                    assert(order[i] == before[i - 1]);
                }
            }
            assert(self@ =~= spec_push_front(old(self)@, elem));
        }
    }

    /// Links a new node in as the tail; the former tail's link to the back
    /// is set to it, and in an empty deque it becomes the head too.
    pub fn push_back(&mut self, elem: T)
        requires
            old(self).wf(),
        ensures
            final(self).wf(),
            final(self)@ == spec_push_back(old(self)@, elem),
    {
        let mut node = Node::new(elem);
        node.prev = self.tail;
        let idx = self.place(node);
        match self.tail {
            Some(old_tail) => {
                proof {
                    assert(old(self).linked_at(old(self).order@.len() - 1));
                }
                self.nodes[old_tail].next = Some(idx);
            },
            None => {
                self.head = Some(idx);
            },
        }
        self.tail = Some(idx);
        self.order = Ghost(self.order@.push(idx));
        proof {
            let order = self.order@;
            let before = old(self).order@;
            assert forall|i: int| 0 <= i < order.len() implies #[trigger] self.linked_at(i) by {
                if i < before.len() {
                    assert(old(self).linked_at(i));
                }
            }
            assert forall|i: int| 0 <= i < self@.len() implies self@[i] == spec_push_back(
                old(self)@,
                elem,
            )[i] by {
                if i < before.len() {
                    assert(old(self).linked_at(i));
                }
            }
            assert(self@ =~= spec_push_back(old(self)@, elem));
        }
    }

    /// Detaches the head and hands out its element; the new head's link to
    /// the front is cleared, and the slot goes to the free list.
    pub fn pop_front(&mut self) -> (popped: Option<T>)
        requires
            old(self).wf(),
        ensures
            final(self).wf(),
            popped == spec_front(old(self)@),
            final(self)@ == spec_without_front(old(self)@),
    {
        match self.head {
            None => None,
            Some(idx) => {
                proof {
                    assert(old(self).linked_at(0));
                    if old(self).order@.len() > 1 {
                        assert(old(self).linked_at(1));
                    }
                }
                let next = self.nodes[idx].next;
                let elem = self.nodes[idx].elem.take();
                self.nodes[idx].next = None;
                match next {
                    Some(new_head) => {
                        self.nodes[new_head].prev = None;
                    },
                    None => {
                        self.tail = None;
                    },
                }
                self.head = next;
                self.free.push(idx);
                self.order = Ghost(self.order@.drop_first());
                proof {
                    let order = self.order@;
                    let before = old(self).order@;
                    assert forall|i: int| 0 <= i < order.len() implies #[trigger] self.linked_at(
                        i,
                    ) by {
                        assert(old(self).linked_at(i + 1));
                        assert(order[i] == before[i + 1]);
                    }
                    assert forall|k: int| 0 <= k < self.free@.len() implies #[trigger] self.free@[k]
                        < self.nodes@.len() by {
                        if k < old(self).free@.len() {
                            assert(self.free@[k] == old(self).free@[k]);
                        }
                    }
                    assert forall|i: int| 0 <= i < self@.len() implies self@[i] == old(
                        self,
                    )@.drop_first()[i] by {
                        assert(old(self).linked_at(i + 1));
                        assert(order[i] == before[i + 1]);
                    }
                    assert(self@ =~= old(self)@.drop_first());
                }
                elem
            },
        }
    }

    /// Detaches the tail and hands out its element; the new tail's link to
    /// the back is cleared, and the slot goes to the free list.
    pub fn pop_back(&mut self) -> (popped: Option<T>)
        requires
            old(self).wf(),
        ensures
            final(self).wf(),
            popped == spec_back(old(self)@),
            final(self)@ == spec_without_back(old(self)@),
    {
        match self.tail {
            None => None,
            Some(idx) => {
                let ghost last = old(self).order@.len() - 1;
                proof {
                    assert(old(self).linked_at(last));
                    if last > 0 {
                        assert(old(self).linked_at(last - 1));
                    }
                }
                let prev = self.nodes[idx].prev;
                let elem = self.nodes[idx].elem.take();
                self.nodes[idx].prev = None;
                match prev {
                    Some(new_tail) => {
                        self.nodes[new_tail].next = None;
                    },
                    None => {
                        self.head = None;
                    },
                }
                self.tail = prev;
                self.free.push(idx);
                self.order = Ghost(self.order@.drop_last());
                proof {
                    let order = self.order@;
                    assert forall|i: int| 0 <= i < order.len() implies #[trigger] self.linked_at(
                        i,
                    ) by {
                        assert(old(self).linked_at(i));
                    }
                    assert forall|k: int| 0 <= k < self.free@.len() implies #[trigger] self.free@[k]
                        < self.nodes@.len() by {
                        if k < old(self).free@.len() {
                            assert(self.free@[k] == old(self).free@[k]);
                        }
                    }
                    assert forall|i: int| 0 <= i < self@.len() implies self@[i] == old(
                        self,
                    )@.drop_last()[i] by {
                        assert(old(self).linked_at(i));
                    }
                    assert(self@ =~= old(self)@.drop_last());
                }
                elem
            },
        }
    }

    /// A look at the front element.
    pub fn peek_front(&self) -> (front: Option<&T>)
        requires
            self.wf(),
        ensures
            self@.len() == 0 <==> front is None,
            front matches Some(elem) ==> *elem == self@.first(),
    {
        match self.head {
            None => None,
            Some(idx) => {
                proof {
                    assert(self.linked_at(0));
                }
                self.nodes[idx].elem.as_ref()
            },
        }
    }

    /// A look at the back element.
    pub fn peek_back(&self) -> (back: Option<&T>)
        requires
            self.wf(),
        ensures
            self@.len() == 0 <==> back is None,
            back matches Some(elem) ==> *elem == self@.last(),
    {
        match self.tail {
            None => None,
            Some(idx) => {
                proof {
                    assert(self.linked_at(self.order@.len() - 1));
                }
                self.nodes[idx].elem.as_ref()
            },
        }
    }
}

/// One step of a deque's use.
pub enum Op<T> {
    PushFront(T),
    PushBack(T),
    PopFront,
    PopBack,
}

/// The content that `op` leaves of `s`.
pub open spec fn spec_apply<T>(s: Seq<T>, op: Op<T>) -> Seq<T> {
    match op {
        Op::PushFront(elem) => spec_push_front(s, elem),
        Op::PushBack(elem) => spec_push_back(s, elem),
        Op::PopFront => spec_without_front(s),
        Op::PopBack => spec_without_back(s),
    }
}

/// What `op` hands out on `s`: a pop its element, if there is one, and a
/// push nothing.
pub open spec fn spec_yield<T>(s: Seq<T>, op: Op<T>) -> Option<T> {
    match op {
        Op::PushFront(_) => None,
        Op::PushBack(_) => None,
        Op::PopFront => spec_front(s),
        Op::PopBack => spec_back(s),
    }
}

/// The content after the steps `ops` were taken on `s`, first to last.
pub open spec fn spec_run<T>(s: Seq<T>, ops: Seq<Op<T>>) -> Seq<T>
    decreases ops.len(),
{
    if ops.len() == 0 {
        s
    } else {
        spec_apply(spec_run(s, ops.drop_last()), ops.last())
    }
}

/// The same step at the other end.
pub open spec fn spec_mirror<T>(op: Op<T>) -> Op<T> {
    match op {
        Op::PushFront(elem) => Op::PushBack(elem),
        Op::PushBack(elem) => Op::PushFront(elem),
        Op::PopFront => Op::PopBack,
        Op::PopBack => Op::PopFront,
    }
}

/// A pop right after a push at the same end hands the pushed element back
/// and leaves the deque as it was; at the other end of an empty deque it
/// does the same.
pub proof fn lemma_push_then_pop<T>(s: Seq<T>, elem: T)
    ensures
        spec_front(spec_push_front(s, elem)) == Some(elem),
        spec_without_front(spec_push_front(s, elem)) == s,
        spec_back(spec_push_back(s, elem)) == Some(elem),
        spec_without_back(spec_push_back(s, elem)) == s,
        s.len() == 0 ==> spec_back(spec_push_front(s, elem)) == Some(elem),
        s.len() == 0 ==> spec_front(spec_push_back(s, elem)) == Some(elem),
{
    assert(spec_push_front(s, elem).drop_first() =~= s);
    assert(spec_push_back(s, elem).drop_last() =~= s);
}

/// The two ends are duals: a step on the deque read back to front is the
/// mirrored step on the deque read front to back, with the same yield.
pub proof fn lemma_mirror_step<T>(s: Seq<T>, op: Op<T>)
    ensures
        spec_apply(s.reverse(), spec_mirror(op)) == spec_apply(s, op).reverse(),
        spec_yield(s.reverse(), spec_mirror(op)) == spec_yield(s, op),
{
    assert(spec_apply(s.reverse(), spec_mirror(op)) =~= spec_apply(s, op).reverse());
}

/// Duality over whole runs: mirroring every step of a run on the reversed
/// deque gives the reversed outcome.
pub proof fn lemma_mirror_run<T>(s: Seq<T>, ops: Seq<Op<T>>)
    ensures
        spec_run(s.reverse(), ops.map_values(|op: Op<T>| spec_mirror(op))) == spec_run(
            s,
            ops,
        ).reverse(),
    decreases ops.len(),
{
    let mirrored = ops.map_values(|op: Op<T>| spec_mirror(op));
    if ops.len() > 0 {
        lemma_mirror_run(s, ops.drop_last());
        assert(mirrored.drop_last() =~= ops.drop_last().map_values(|op: Op<T>| spec_mirror(op)));
        assert(mirrored.last() == spec_mirror(ops.last()));
        lemma_mirror_step(spec_run(s, ops.drop_last()), ops.last());
    }
}

/// Whatever run of pushes and pops has emptied the deque, neither end
/// shows an element afterwards, and a pop at either end yields nothing and
/// leaves it empty.
pub proof fn lemma_emptied_has_no_ends<T>(s: Seq<T>, ops: Seq<Op<T>>)
    requires
        spec_run(s, ops).len() == 0,
    ensures
        spec_front(spec_run(s, ops)) == None::<T>,
        spec_back(spec_run(s, ops)) == None::<T>,
        spec_without_front(spec_run(s, ops)) == spec_run(s, ops),
        spec_without_back(spec_run(s, ops)) == spec_run(s, ops),
{
}

} // verus!
