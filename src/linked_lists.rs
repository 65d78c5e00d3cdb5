//! Two more singly-linked stacks: one of `i32` values with its own link
//! type, and a generic one built on `Option<Box<_>>`.

pub mod first;
pub mod second;
