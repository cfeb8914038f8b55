//! A positional JSON document model: the tree is flattened into an ordered
//! sequence of display rows, a row index can be resolved back to the exact
//! location in the tree, and order-preserving edits, a scroll viewport and a
//! substring search are driven from those rows.

pub mod actions;
pub mod app;
pub mod flatten;
pub mod mutate;
pub mod resolve;
pub mod search;
pub mod tree;
