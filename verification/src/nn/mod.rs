//! Building blocks on top of the graph: losses, modules and layers.

pub mod activation;
pub mod layer;
pub mod linear;
pub mod loss;
pub mod mlp;
pub mod module;

pub use activation::{ReLU, Sigmoid};
pub use layer::Layer;
pub use linear::Linear;
pub use mlp::MLP2;
pub use loss::{ce_graph, mse, mse_graph};
pub use module::Module;
