//! The row-major gather that makes a strided tensor contiguous: an odometer
//! walks the multi-indices in order and each element's 4-byte lane is copied
//! from its strided position.
use vstd::prelude::*;
use crate::black_index::{black_increment, black_unravel, black_zeros_seq, lemma_increment_prefix};
use crate::black_strides::black_dot;

verus! {

/// Advances `black_indices` by one odometer step over `black_dims`: the
/// rightmost position that can grow grows by one and the positions to its
/// right return to 0 (all positions return to 0 after the last multi-index).
pub fn black_odometer_step(black_indices: &mut Vec<usize>, black_dims: &[usize])
    requires
        old(black_indices)@.len() == black_dims@.len(),
        forall|d: int| 0 <= d < black_dims@.len() ==> #[trigger] old(black_indices)@[d] < black_dims@[d],
    ensures
        final(black_indices)@ == black_increment(old(black_indices)@, black_dims@),
        final(black_indices)@.len() == old(black_indices)@.len(),
{
    proof {
        crate::black_index::lemma_increment_len(black_indices@, black_dims@);
    }
    let ghost idx0 = black_indices@;
    let ghost dims = black_dims@;
    let black_rank = black_dims.len();
    let mut black_carry = true;
    let mut black_pos: usize = black_rank;
    proof {
        assert(idx0.take(black_rank as int) =~= idx0);
        assert(dims.take(black_rank as int) =~= dims);
        assert(idx0.take(black_rank as int) + black_zeros_seq(0) =~= idx0);
        assert(black_increment(idx0, dims) + black_zeros_seq(0) =~= black_increment(idx0, dims));
    }
    while black_pos > 0
        invariant
            idx0.len() == black_rank,
            dims == black_dims@,
            dims.len() == black_rank,
            forall|d: int| 0 <= d < black_rank ==> #[trigger] idx0[d] < dims[d],
            black_pos <= black_rank,
            black_indices@.len() == black_rank,
            black_carry ==> black_indices@ == idx0.take(black_pos as int) + black_zeros_seq(
                (black_rank - black_pos) as nat,
            ),
            black_carry ==> black_increment(idx0, dims) == black_increment(
                idx0.take(black_pos as int),
                dims.take(black_pos as int),
            ) + black_zeros_seq((black_rank - black_pos) as nat),
            !black_carry ==> black_indices@ == black_increment(idx0, dims),
        decreases black_pos,
    {
        let black_d = black_pos - 1;
        if black_carry {
            proof {
                lemma_increment_prefix(idx0, dims, black_d as int);
                assert(black_indices@[black_d as int] == idx0[black_d as int]);
            }
            let black_next = black_indices[black_d] + 1;
            black_indices.set(black_d, black_next);
            if black_indices[black_d] < black_dims[black_d] {
                black_carry = false;
                proof {
                    let z = black_zeros_seq((black_rank - black_pos) as nat);
                    assert(black_indices@ =~= idx0.take(black_d as int).push(black_next) + z);
                }
            } else {
                black_indices.set(black_d, 0);
                proof {
                    let z = black_zeros_seq((black_rank - black_pos) as nat);
                    let z1 = black_zeros_seq((black_rank - black_d) as nat);
                    assert(black_indices@ =~= idx0.take(black_d as int) + z1);
                    assert(black_increment(idx0.take(black_d as int), dims.take(black_d as int)).push(0usize) + z
                        =~= black_increment(idx0.take(black_d as int), dims.take(black_d as int)) + z1);
                }
            }
        }
        black_pos = black_d;
    }
    proof {
        if black_carry {
            assert(idx0.take(0) =~= Seq::<usize>::empty());
            assert(dims.take(0) =~= Seq::<usize>::empty());
            assert(black_indices@ =~= black_increment(idx0, dims));
        }
    }
}

/// `base + sum(indices[d] * strides[d])` over the first `n` axes, with every
/// running sum fitting in a `usize`.
pub open spec fn black_offset_sums_fit(base: int, indices: Seq<usize>, strides: Seq<usize>, n: int) -> bool {
    forall|k: int| 0 <= k <= n ==> base + #[trigger] black_dot(indices, strides, k) <= usize::MAX
}

/// The element offset of a multi-index: `black_base` plus each index times
/// its stride, summed over the axes of `black_indices`.
pub fn black_source_offset(black_base: usize, black_indices: &Vec<usize>, black_strides: &[usize]) -> (r: usize)
    requires
        black_strides@.len() >= black_indices@.len(),
        black_offset_sums_fit(black_base as int, black_indices@, black_strides@, black_indices@.len() as int),
    ensures
        r == black_base + black_dot(black_indices@, black_strides@, black_indices@.len() as int),
{
    let mut black_src_offset = black_base;
    let mut black_d: usize = 0;
    while black_d < black_indices.len()
        invariant
            black_strides@.len() >= black_indices@.len(),
            black_offset_sums_fit(black_base as int, black_indices@, black_strides@, black_indices@.len() as int),
            black_d <= black_indices@.len(),
            black_src_offset == black_base + black_dot(black_indices@, black_strides@, black_d as int),
        decreases black_indices@.len() - black_d,
    {
        proof {
            assert(black_base + black_dot(black_indices@, black_strides@, black_d as int + 1) <= usize::MAX);
            crate::black_strides::lemma_dot_nonneg(black_indices@, black_strides@, black_d as int);
            assert((black_indices@[black_d as int] as int) * (black_strides@[black_d as int] as int) >= 0) by (nonlinear_arith);
        }
        black_src_offset = black_src_offset + black_indices[black_d] * black_strides[black_d];
        black_d = black_d + 1;
    }
    black_src_offset
}

/// The element offset of a multi-index as [`black_source_offset`] forms it,
/// or `None` when a running sum passes `usize`.
pub fn black_source_offset_checked(black_base: usize, black_indices: &Vec<usize>, black_strides: &[usize]) -> (r: Option<usize>)
    requires
        black_strides@.len() >= black_indices@.len(),
    ensures
        r == (if black_offset_sums_fit(black_base as int, black_indices@, black_strides@, black_indices@.len() as int) {
            Some((black_base + black_dot(black_indices@, black_strides@, black_indices@.len() as int)) as usize)
        } else {
            None::<usize>
        }),
{
    let ghost idx = black_indices@;
    let ghost st = black_strides@;
    let mut black_acc = black_base;
    let mut black_d: usize = 0;
    while black_d < black_indices.len()
        invariant
            idx == black_indices@,
            st == black_strides@,
            st.len() >= idx.len(),
            black_d <= idx.len(),
            black_acc == black_base + black_dot(idx, st, black_d as int),
            forall|k: int| 0 <= k <= black_d ==> black_base + #[trigger] black_dot(idx, st, k) <= usize::MAX,
        decreases idx.len() - black_d,
    {
        proof {
            crate::black_strides::lemma_dot_nonneg(idx, st, black_d as int);
            assert((idx[black_d as int] as int) * (st[black_d as int] as int) >= 0) by (nonlinear_arith);
            assert(black_dot(idx, st, black_d + 1) == black_dot(idx, st, black_d as int) + (idx[black_d as int] as int) * (st[black_d as int] as int));
        }
        let black_next = match black_indices[black_d].checked_mul(black_strides[black_d]) {
            Some(black_p) => black_acc.checked_add(black_p),
            None => None,
        };
        match black_next {
            Some(black_v) => {
                black_acc = black_v;
            },
            None => {
                proof {
                    assert(black_base + black_dot(idx, st, black_d + 1) > usize::MAX);
                }
                return None;
            },
        }
        black_d = black_d + 1;
    }
    Some(black_acc)
}

} // verus!
