//! A B+ tree of items that keeps, for every subtree, a sum of what is known of
//! the items in it.

pub mod dimension;
pub mod keyed;
pub mod tree;
