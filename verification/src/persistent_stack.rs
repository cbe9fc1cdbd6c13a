//! An immutable singly linked list whose versions share their common
//! suffix.
//!
//! No node changes after it was made. A list is a counted reference to its
//! first node, so prepending and taking the tail make new lists and leave
//! the receiver as it was.

use std::rc::Rc;
use vstd::prelude::*;

verus! {

/// A storage cell: one element and a shared reference to the rest.
struct Node<T> {
    elem: T,
    next: Option<Rc<Node<T>>>,
}

/// The elements reachable from `link`, nearest first.
spec fn link_view<T>(link: Option<Rc<Node<T>>>) -> Seq<T>
    decreases link,
{
    match link {
        None => Seq::empty(),
        Some(node) => seq![node.elem] + link_view(node.next),
    }
}

/// The content of the list that prepending `elem` to `s` gives.
pub open spec fn spec_prepend<T>(s: Seq<T>, elem: T) -> Seq<T> {
    seq![elem] + s
}

/// The content of the tail of `s`: `s` without its first element, and the
/// empty list again where `s` is empty.
pub open spec fn spec_tail<T>(s: Seq<T>) -> Seq<T> {
    if s.len() == 0 {
        s
    } else {
        s.drop_first()
    }
}

/// `Rc::clone` on a link to a node: one more reference to the same node,
/// so the result is equal to the argument. Nothing is copied.
#[verifier::external_body]
fn share<T>(node: &Rc<Node<T>>) -> (shared: Rc<Node<T>>)
    ensures
        shared == *node,
{
    Rc::clone(node)
}

/// A persistent list: a shared reference to the first node, if any.
pub struct List<T> {
    head: Option<Rc<Node<T>>>,
}

impl<T> View for List<T> {
    type V = Seq<T>;

    /// The elements from the front of the list to its end.
    closed spec fn view(&self) -> Seq<T> {
        link_view(self.head)
    }
}

impl<T> List<T> {
    /// The empty list.
    pub fn new() -> (list: Self)
        ensures
            list@ == Seq::<T>::empty(),
    {
        List { head: None }
    }

    /// A new list with `elem` in front of this one's elements. The new
    /// node refers to this list's first node; the receiver is untouched.
    pub fn prepend(&self, elem: T) -> (list: List<T>)
        ensures
            list@ == spec_prepend(self@, elem),
    {
        let next = match &self.head {
            None => None,
            Some(node) => Some(share(node)),
        };
        List { head: Some(Rc::new(Node { elem: elem, next: next })) }
    }

    /// A new list that starts after this one's first element; the tail of
    /// the empty list is the empty list.
    pub fn tail(&self) -> (list: List<T>)
        ensures
            list@ == spec_tail(self@),
    {
        match &self.head {
            None => List { head: None },
            Some(node) => {
                proof {
                    assert(self@.drop_first() =~= link_view(node.next));
                }
                match &node.next {
                    None => List { head: None },
                    Some(succ) => List { head: Some(share(succ)) },
                }
            },
        }
    }

    /// The first element, by reference.
    pub fn head(&self) -> (front: Option<&T>)
        ensures
            self@.len() == 0 <==> front is None,
            front matches Some(elem) ==> *elem == self@[0],
    {
        match &self.head {
            None => None,
            Some(node) => Some(&node.elem),
        }
    }

    /// A traversal of borrowed elements from the front on, which can be
    /// started again at will.
    pub fn iter(&self) -> (iter: Iter<'_, T>)
        ensures
            iter@ == self@,
    {
        match &self.head {
            None => Iter { next: None },
            Some(node) => Iter { next: Some(&**node) },
        }
    }
}

/// A borrowing traversal, standing at one node of a list.
pub struct Iter<'a, T> {
    next: Option<&'a Node<T>>,
}

impl<'a, T> View for Iter<'a, T> {
    type V = Seq<T>;

    /// The elements still to come, next first.
    closed spec fn view(&self) -> Seq<T> {
        match self.next {
            None => Seq::empty(),
            Some(node) => seq![node.elem] + link_view(node.next),
        }
    }
}

impl<'a, T> Iter<'a, T> {
    /// The next element, by reference, or nothing once the end is passed.
    pub fn next(&mut self) -> (item: Option<&'a T>)
        ensures
            old(self)@.len() == 0 <==> item is None,
            item matches Some(elem) ==> *elem == old(self)@[0],
            final(self)@ == spec_tail(old(self)@),
    {
        match self.next {
            None => None,
            Some(node) => {
                self.next = match &node.next {
                    None => None,
                    Some(succ) => Some(&**succ),
                };
                proof {
                    assert(old(self)@.drop_first() =~= link_view(node.next));
                }
                Some(&node.elem)
            },
        }
    }
}

/// `Rc::try_unwrap` on a link to a node: the node itself where this was
/// the only reference to it, and the reference back where others are
/// left. Beyond that, this states that the call neither unwinds nor opens
/// an invariant, which is what lets it stand inside a destructor.
#[verifier::external_body]
fn claim<T>(node: Rc<Node<T>>) -> (claimed: Result<Node<T>, Rc<Node<T>>>)
    ensures
        match claimed {
            Ok(owned) => owned == *node,
            Err(kept) => kept == node,
        },
    opens_invariants none
    no_unwind
{
    Rc::try_unwrap(node)
}

impl<T> List<T> {
    /// Lets go of this list's nodes one by one, as far as no other list
    /// reaches them, and leaves the list empty. The walk stops at the first
    /// node that another list still holds, and it is a loop, so its depth
    /// does not grow with the chain.
    fn release(&mut self)
        ensures
            final(self)@ == Seq::<T>::empty(),
        opens_invariants none
        no_unwind
    {
        let mut cur_link: Option<Rc<Node<T>>> = None;
        core::mem::swap(&mut self.head, &mut cur_link);
        loop
            invariant
                self.head is None,
            decreases link_view(cur_link).len(),
        {
            match cur_link {
                None => {
                    break ;
                },
                Some(node) => {
                    match claim(node) {
                        Ok(mut owned) => {
                            let mut rest: Option<Rc<Node<T>>> = None;
                            core::mem::swap(&mut owned.next, &mut rest);
                            cur_link = rest;
                        },
                        Err(_) => {
                            break ;
                        },
                    }
                },
            }
        }
    }
}

impl<T> Drop for List<T> {
    /// Releases the part of the chain that only this list holds, without
    /// nesting one release inside another, and leaves the list without a
    /// node.
    fn drop(&mut self)
        ensures
            final(self)@ == Seq::<T>::empty(),
        opens_invariants none
        no_unwind
    {
        self.release();
    }
}

/// Taking the tail undoes a prepend: the tail of `s` with `elem` in front
/// holds exactly what `s` holds.
pub proof fn lemma_tail_of_prepend<T>(s: Seq<T>, elem: T)
    ensures
        spec_tail(spec_prepend(s, elem)) == s,
{
    assert(spec_prepend(s, elem).drop_first() =~= s);
}

/// Two lists made from `s` by prepending `a` and `b` both have `s` as
/// their tail, and prepending `c` to the first changes neither the second
/// nor its tail: its content is a value that the other list's does not
/// enter into.
pub proof fn lemma_branches_are_independent<T>(s: Seq<T>, a: T, b: T, c: T)
    ensures
        spec_tail(spec_prepend(s, a)) == s,
        spec_tail(spec_prepend(s, b)) == s,
        spec_tail(spec_tail(spec_prepend(spec_prepend(s, a), c))) == spec_tail(spec_prepend(s, b)),
{
    lemma_tail_of_prepend(s, a);
    lemma_tail_of_prepend(s, b);
    lemma_tail_of_prepend(spec_prepend(s, a), c);
}

} // verus!
