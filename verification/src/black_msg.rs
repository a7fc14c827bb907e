//! Text of the error messages that carry numbers or extents. Each function
//! renders its arguments with std's formatting machinery; nothing is proved
//! of the text.
use vstd::prelude::*;

verus! {

/// Renders, with `format!`, the message for a dimension index past the rank.
#[verifier::external_body]
pub(crate) fn black_msg_dim_index(idx: usize, rank: usize) -> String {
    format!("dimension index {} out of range for rank {}", idx, rank)
}

/// Renders, with `format!`, the message for two shapes that do not broadcast.
#[verifier::external_body]
pub(crate) fn black_msg_broadcast(a: &[usize], b: &[usize]) -> String {
    format!("cannot broadcast shapes {:?} and {:?}", a, b)
}

/// Renders, with `format!`, the message for an allocation the system refused.
#[verifier::external_body]
pub(crate) fn black_msg_alloc_failed(size: usize) -> String {
    format!("failed to allocate {} bytes", size)
}

/// Renders, with `format!`, the message for a view whose element count differs.
#[verifier::external_body]
pub(crate) fn black_msg_view(numel: usize, shape: &[usize]) -> String {
    format!("cannot view tensor of {} elements as shape {:?}", numel, shape)
}

/// Renders, with `format!`, the message for transpose axes past the rank.
#[verifier::external_body]
pub(crate) fn black_msg_transpose(d0: usize, d1: usize, rank: usize) -> String {
    format!("transpose dims ({}, {}) out of range for {}D tensor", d0, d1, rank)
}

/// Renders, with `format!`, the message for a permutation of the wrong length.
#[verifier::external_body]
pub(crate) fn black_msg_permute(len: usize, rank: usize) -> String {
    format!("permute dims length {} does not match tensor rank {}", len, rank)
}

/// Renders, with `format!`, the message for mismatched inner extents of a
/// matrix product.
#[verifier::external_body]
pub(crate) fn black_msg_matmul_inner(k: usize, k2: usize) -> String {
    format!("matmul inner dimensions mismatch: {} vs {}", k, k2)
}

} // verus!
