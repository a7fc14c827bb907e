//! Index plans of the numeric kernels: which element of each operand an
//! output element is made from, and the shape of the result.

pub mod black_reduce;
pub mod black_matmul;
pub mod black_conv;
pub mod black_attn;
