//! The node of a doubly linked list in which a node is shared between its
//! two neighbours.

use std::rc::Rc;
use vstd::prelude::*;

verus! {

/// A node that holds a number and shares its neighbours on both sides
/// with whoever else refers to them.
pub struct DoubleNode {
    value: u32,
    next: Option<Rc<Box<DoubleNode>>>,
    previous: Option<Rc<Box<DoubleNode>>>,
}

} // verus!
