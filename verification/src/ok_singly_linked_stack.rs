//! An exclusively owned, singly linked LIFO stack.
//!
//! Every node is the sole owner of its successor, so the chain is a path and
//! the stack is modelled by the sequence of its elements from the head on.

use vstd::prelude::*;

verus! {

/// A storage cell: one element and the exclusively owned rest of the chain.
struct Node<T> {
    elem: T,
    next: Option<Box<Node<T>>>,
}

/// The elements reachable from `link`, nearest first.
spec fn link_view<T>(link: Option<Box<Node<T>>>) -> Seq<T>
    decreases link,
{
    match link {
        None => Seq::empty(),
        Some(node) => seq![node.elem] + link_view(node.next),
    }
}

/// The stack after `elem` was pushed onto `s`.
pub open spec fn spec_push<T>(s: Seq<T>, elem: T) -> Seq<T> {
    seq![elem] + s
}

/// The element that a pop of `s` hands out, if any.
pub open spec fn spec_top<T>(s: Seq<T>) -> Option<T> {
    if s.len() == 0 {
        None
    } else {
        Some(s[0])
    }
}

/// The stack that a pop of `s` leaves behind.
pub open spec fn spec_rest<T>(s: Seq<T>) -> Seq<T> {
    if s.len() == 0 {
        s
    } else {
        s.drop_first()
    }
}

/// The stack after the elements of `vs` were pushed onto `s`, first to last.
pub open spec fn spec_push_all<T>(s: Seq<T>, vs: Seq<T>) -> Seq<T>
    decreases vs.len(),
{
    if vs.len() == 0 {
        s
    } else {
        spec_push(spec_push_all(s, vs.drop_last()), vs.last())
    }
}

/// The results of `n` successive pops of `s`, in the order they come out.
pub open spec fn spec_pop_results<T>(s: Seq<T>, n: nat) -> Seq<Option<T>>
    decreases n,
{
    if n == 0 {
        Seq::empty()
    } else {
        seq![spec_top(s)] + spec_pop_results(spec_rest(s), (n - 1) as nat)
    }
}

/// The stack that `n` successive pops of `s` leave behind.
pub open spec fn spec_pop_rest<T>(s: Seq<T>, n: nat) -> Seq<T>
    decreases n,
{
    if n == 0 {
        s
    } else {
        spec_pop_rest(spec_rest(s), (n - 1) as nat)
    }
}

/// A singly linked stack that exclusively owns its chain of nodes.
pub struct List<T> {
    head: Option<Box<Node<T>>>,
}

impl<T> View for List<T> {
    type V = Seq<T>;

    /// The elements from the top of the stack to its bottom.
    closed spec fn view(&self) -> Seq<T> {
        link_view(self.head)
    }
}

impl<T> List<T> {
    /// An empty stack.
    pub fn new() -> (list: Self)
        ensures
            list@ == Seq::<T>::empty(),
    {
        List { head: None }
    }

    /// Puts `elem` on top; the new node takes over the former chain.
    pub fn push(&mut self, elem: T)
        ensures
            final(self)@ == spec_push(old(self)@, elem),
    {
        let new_node = Box::new(Node { elem: elem, next: self.head.take() });
        self.head = Some(new_node);
    }

    /// Takes the top element off, or reports that there is none.
    pub fn pop(&mut self) -> (popped: Option<T>)
        ensures
            popped == spec_top(old(self)@),
            final(self)@ == spec_rest(old(self)@),
    {
        match self.head.take() {
            None => None,
            Some(node) => {
                let node = *node;
                self.head = node.next;
                proof {
                    assert(old(self)@.drop_first() =~= link_view(node.next));
                }
                Some(node.elem)
            },
        }
    }

    /// A look at the top element.
    pub fn peek(&self) -> (top: Option<&T>)
        ensures
            self@.len() == 0 <==> top is None,
            top matches Some(elem) ==> *elem == self@[0],
    {
        match &self.head {
            None => None,
            Some(node) => Some(&node.elem),
        }
    }

    /// Exclusive access to the top element; whatever the caller writes
    /// through it becomes the new top, and nothing else changes.
    pub fn peek_mut(&mut self) -> (top: Option<&mut T>)
        ensures
            old(self)@.len() == 0 <==> top is None,
            top is None ==> final(self)@ == old(self)@,
            top matches Some(elem) ==> *elem == old(self)@[0] && final(self)@ == old(self)@.update(
                0,
                *final(elem),
            ),
    {
        match &mut self.head {
            None => None,
            Some(node) => Some(&mut node.elem),
        }
    }

    /// Turns the stack into a sequence of its elements that is used up by
    /// reading it.
    pub fn into_iter(self) -> (iter: IntoIter<T>)
        ensures
            iter@ == self@,
    {
        IntoIter(self)
    }

    /// A traversal of borrowed elements from the top down, which leaves the
    /// stack as it is and can be started again at will.
    pub fn iter<'a>(&'a self) -> (iter: Iter<'a, T>)
        ensures
            iter@ == self@,
    {
        match &self.head {
            None => Iter { next: None },
            Some(node) => Iter { next: Some(&**node) },
        }
    }
}

/// A consuming traversal: each step is one pop of the stack it holds.
pub struct IntoIter<T>(List<T>);

impl<T> View for IntoIter<T> {
    type V = Seq<T>;

    /// The elements still to come, next first.
    closed spec fn view(&self) -> Seq<T> {
        self.0@
    }
}

impl<T> IntoIter<T> {
    /// The next element, taken out of the stack.
    pub fn next(&mut self) -> (item: Option<T>)
        ensures
            item == spec_top(old(self)@),
            final(self)@ == spec_rest(old(self)@),
    {
        self.0.pop()
    }
}

/// A borrowing traversal, standing at one node of a stack.
pub struct Iter<'a, T> {
    next: Option<&'a Node<T>>,
}

impl<'a, T> View for Iter<'a, T> {
    type V = Seq<T>;

    /// The elements still to come, next first.
    closed spec fn view(&self) -> Seq<T> {
        match self.next {
            None => Seq::empty(),
            Some(node) => seq![node.elem] + link_view(node.next),
        }
    }
}

impl<'a, T> Iter<'a, T> {
    /// The next element, by reference, or nothing once the bottom is passed.
    pub fn next(&mut self) -> (item: Option<&'a T>)
        ensures
            old(self)@.len() == 0 <==> item is None,
            item matches Some(elem) ==> *elem == old(self)@[0],
            final(self)@ == spec_rest(old(self)@),
    {
        match self.next {
            None => None,
            Some(node) => {
                self.next = match &node.next {
                    None => None,
                    Some(succ) => Some(&**succ),
                };
                proof {
                    assert(old(self)@.drop_first() =~= link_view(node.next));
                }
                Some(&node.elem)
            },
        }
    }
}

impl<T> List<T> {
    /// Takes the chain apart node by node, each one separated from its
    /// successor before it is released, and leaves the stack empty. The
    /// work is a loop, so its depth does not grow with the chain.
    fn unlink_all(&mut self)
        ensures
            final(self)@ == Seq::<T>::empty(),
        opens_invariants none
        no_unwind
    {
        let mut cur_link: Option<Box<Node<T>>> = None;
        core::mem::swap(&mut self.head, &mut cur_link);
        loop
            invariant
                self.head is None,
            decreases link_view(cur_link).len(),
        {
            match cur_link {
                None => {
                    break ;
                },
                Some(mut boxed_node) => {
                    let mut rest: Option<Box<Node<T>>> = None;
                    core::mem::swap(&mut boxed_node.next, &mut rest);
                    cur_link = rest;
                },
            }
        }
    }
}

impl<T> Drop for List<T> {
    /// Releases a stack of any length without nesting one release inside
    /// another: the chain is taken apart link by link, and the stack is
    /// left without a node.
    fn drop(&mut self)
        ensures
            final(self)@ == Seq::<T>::empty(),
        opens_invariants none
        no_unwind
    {
        self.unlink_all();
    }
}

/// Last in, first out: after the elements of `vs` were pushed onto `s` in
/// order, as many pops hand them back in reverse order and leave `s`.
pub proof fn lemma_push_all_then_pop<T>(s: Seq<T>, vs: Seq<T>)
    ensures
        spec_pop_results(spec_push_all(s, vs), vs.len()) == vs.reverse().map_values(
            |v: T| Some(v),
        ),
        spec_pop_rest(spec_push_all(s, vs), vs.len()) == s,
    decreases vs.len(),
{
    let rev = vs.reverse().map_values(|v: T| Some(v));
    if vs.len() == 0 {
        assert(spec_pop_results(spec_push_all(s, vs), 0) =~= rev);
    } else {
        let init = vs.drop_last();
        let below = spec_push_all(s, init);
        let full = spec_push_all(s, vs);
        lemma_push_all_then_pop(s, init);
        assert(spec_rest(full) =~= below);
        assert(spec_top(full) == Some(vs.last()));
        assert((vs.len() - 1) as nat == init.len());
        assert(seq![Some(vs.last())] + init.reverse().map_values(|v: T| Some(v)) =~= rev);
    }
}

/// Last in, first out on a fresh stack: pushing `vs` and popping as often
/// yields `vs` backwards, and the pop after that yields nothing.
pub proof fn lemma_lifo<T>(vs: Seq<T>)
    ensures
        spec_pop_results(spec_push_all(Seq::empty(), vs), vs.len()) == vs.reverse().map_values(
            |v: T| Some(v),
        ),
        spec_top(spec_pop_rest(spec_push_all(Seq::empty(), vs), vs.len())) == None::<T>,
{
    lemma_push_all_then_pop(Seq::empty(), vs);
}

} // verus!
