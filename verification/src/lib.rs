//! Differentiable sparse-to-dense materialization: scatter a list of values
//! into a dense row-major buffer at given coordinates, and route gradients
//! back to the values on the backward pass.
//!
//! - [`shapes`]: extents, strides, and the map from a multi-index to a flat
//!   offset.
//! - [`dtype`]: what a buffer may hold.
//! - [`tensor`]: buffers with a shape, an identity and a tape.
//! - [`device`]: the host device, which makes tensors.
//! - [`gradients`]: the ledger of gradients of one backward pass.
//! - [`tape`]: the deferred backward computations and their execution.
//! - [`from_sparse`]: what the operator computes, and when it is refused.
//! - [`cpu_kernel`]: the operator on the host.
//! - [`cuda_kernel`]: what the host prepares for an accelerator, and what
//!   the kernels do there.
//! - [`error`]: failures at run time.

pub mod cpu_kernel;
pub mod cuda_kernel;
pub mod device;
pub mod dtype;
pub mod error;
pub mod from_sparse;
pub mod gradients;
pub mod shapes;
pub mod tape;
pub mod tensor;
