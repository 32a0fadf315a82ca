//! Reverse-mode differentiation: the computation graph and its backward pass.

pub mod check;
pub mod graph;
pub mod laws;
pub mod order;

pub use graph::{Graph, GraphError, GraphResult, Node, NodeId};
