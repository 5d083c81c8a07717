//! Workspace labels for a tiling compositor: the layout-tree walk, the label
//! synthesis and the decisions of the update loop, each with its contract.
pub mod tree;
pub mod order;
pub mod query;
pub mod label;
pub mod engine;
