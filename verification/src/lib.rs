//! Tensor storage, layout and shape algebra, with the index plans of the
//! numeric kernels, the visiting order of the backward pass, and the
//! bookkeeping of the memory pool, the arena, the learning-rate schedulers
//! and the training loop.

pub mod black_math;
pub mod black_error;
pub mod black_device;
pub mod black_dtype;
pub mod black_msg;
pub mod black_shape;
pub mod black_strides;
pub mod black_buffer;
pub mod black_index;
pub mod black_gather;
pub mod black_tensor;
pub mod black_ops;
pub mod black_memory;
pub mod black_pool;
pub mod black_train;
pub mod black_dims;
pub mod black_graph;
pub mod black_laws;
