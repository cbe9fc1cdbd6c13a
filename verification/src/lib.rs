//! Linked containers under three ownership disciplines, each modelled by the
//! sequence of its elements, together with a handful of
//! array and digit-string routines.

pub mod ok_singly_linked_stack;
pub mod persistent_stack;
pub mod bad_doubly_linked_deque;
pub mod linear_search;
pub mod binary_search;
pub mod bubble_sort;
pub mod two_crystal_balls;
pub mod basic_big_o;
pub mod big_o_basics;
pub mod linked_lists;
