//! S-expression parsing into a typed syntax tree, together with a few small
//! containers: singly-linked stacks and a table-driven finite-state machine.

pub mod first;
pub mod fsm;
pub mod linked_lists;
pub mod lisp;
