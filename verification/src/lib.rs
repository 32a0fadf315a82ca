//! A small reverse-mode automatic-differentiation engine for dense arrays.
//!
//! A computation is recorded as a graph of operator applications
//! ([`autograd`]); a backward pass walks the graph from an output and
//! accumulates gradients into every node the output depends on. Operators
//! ([`ops`]) pair a forward kernel with its backward kernel; the kernels
//! themselves live behind a backend ([`backend`]). On top of that stand
//! parameters, layers, losses, optimizers, a minibatch loader and a training
//! loop.
//!
//! The engine is generic over the element type ([`Scalar`]). Contracts are
//! stated over the mathematical view of arrays and graphs, and say of every
//! element which element operations produced it ([`kernels`]).

pub mod autograd;
pub mod backend;
pub mod data;
pub mod init;
pub mod kernels;
pub mod nn;
pub mod ops;
pub mod optimizer;
pub mod parameter;
pub mod scalar;
pub mod shape;
pub mod tensor;
pub mod train;
pub mod text;

pub use autograd::{Graph, GraphError, GraphResult, NodeId};
pub use backend::{cpu::CpuBackend, Backend, BackendError, BackendResult};
pub use data::{DataLoader, Dataset, InMemoryDataset};
pub use init::{he_uniform, xavier_uniform, UniformSource};
pub use nn::{ce_graph, mse, mse_graph, Layer, Linear, Module, ReLU, Sigmoid, MLP2};
pub use ops::{Op, OpError, OpId, OpRegistry, OpResult, Operator};
pub use optimizer::{Adam, Optimizer, OptimizerError, SGD};
pub use parameter::{Parameter, ParameterState};
pub use scalar::Scalar;
pub use shape::{Shape, ShapeError};
pub use tensor::{Tensor, TensorError, TensorResult};
pub use train::{TrainError, TrainResult, TrainStepResult, Trainer};
