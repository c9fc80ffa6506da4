//! A tree of path segments: paths that share a prefix share the nodes of that
//! prefix, and the tree renders as an indented listing.

pub mod segment;
pub mod model;
pub mod laws;
pub mod tree;
