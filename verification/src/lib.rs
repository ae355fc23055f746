//! A tree whose dropped nodes fold their data into what remains.
//!
//! When a node is dropped and has at most one child, it leaves the tree:
//! a leaf is discarded, and a node with a single child is folded into
//! that child through [`Merge`]. The removal cascades upward.

pub mod data;
pub mod inner;
pub mod merge;
pub mod merge_maps;

pub use data::NodeData;
pub use merge::{Merge, MergeInv};
pub mod tree;
pub mod walk;

pub use tree::Tree;
