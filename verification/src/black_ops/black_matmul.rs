use vstd::prelude::*;
use crate::black_error::BlackError;
use crate::black_math::{black_product, black_prefix_products_fit};
use crate::black_msg::black_msg_matmul_inner;
use crate::black_shape::{black_product_of, black_products_fit};

verus! {

/// The leading (batch) extents of a matrix operand: all but the last two.
pub open spec fn black_batch_dims(dims: Seq<usize>) -> Seq<usize> {
    dims.subrange(0, dims.len() - 2)
}

/// The extents of a batched matrix product's result: the batch extents of
/// the operand of higher rank (of `b` on a tie), then `m` and `n`.
pub open spec fn black_matmul_out_dims(a: Seq<usize>, b: Seq<usize>) -> Seq<usize> {
    let batch = if a.len() > b.len() {
        black_batch_dims(a)
    } else {
        black_batch_dims(b)
    };
    batch.push(a[a.len() - 2]).push(b[b.len() - 1])
}

/// The batch counts broadcast: one of them is 1 or they agree.
pub open spec fn black_batches_compatible(ba: nat, bb: nat) -> bool {
    ba == 1 || bb == 1 || ba == bb
}

/// A batched product of `[.., m, k]` by `[.., k, n]`: `batch` products of
/// an `m x k` by a `k x n` matrix, an operand with a single batch being
/// reused by every product.
pub struct BlackMatmulLayout {
    pub black_m: usize,
    pub black_k: usize,
    pub black_n: usize,
    pub black_batch_a: usize,
    pub black_batch_b: usize,
    pub black_batch: usize,
    pub black_a_stride: usize,
    pub black_b_stride: usize,
    pub black_c_stride: usize,
    pub black_out_dims: Vec<usize>,
}

/// The products the layout forms fit in a `usize`: once both operands are
/// matrices with agreeing inner extents, the batch extents multiply out,
/// and once the batches are compatible, so do the matrix sizes.
pub open spec fn black_matmul_fits(a: Seq<usize>, b: Seq<usize>) -> bool {
    a.len() >= 2 && b.len() >= 2 && a[a.len() - 1] == b[b.len() - 2] ==> {
        &&& black_prefix_products_fit(black_batch_dims(a))
        &&& black_prefix_products_fit(black_batch_dims(b))
        &&& black_batches_compatible(
            black_product(black_batch_dims(a)),
            black_product(black_batch_dims(b)),
        ) ==> {
            &&& a[a.len() - 2] * a[a.len() - 1] <= usize::MAX
            &&& b[b.len() - 2] * b[b.len() - 1] <= usize::MAX
            &&& a[a.len() - 2] * b[b.len() - 1] <= usize::MAX
        }
    }
}

/// The layout describes the product of operands of extents `a` and `b`.
pub open spec fn black_matmul_layout_of(l: BlackMatmulLayout, a: Seq<usize>, b: Seq<usize>) -> bool {
    let ba = black_product(black_batch_dims(a));
    let bb = black_product(black_batch_dims(b));
    &&& l.black_m == a[a.len() - 2]
    &&& l.black_k == a[a.len() - 1]
    &&& l.black_n == b[b.len() - 1]
    &&& l.black_batch_a == ba
    &&& l.black_batch_b == bb
    &&& l.black_batch == (if ba >= bb {
        ba
    } else {
        bb
    })
    &&& l.black_a_stride == l.black_m * l.black_k
    &&& l.black_b_stride == l.black_k * l.black_n
    &&& l.black_c_stride == l.black_m * l.black_n
    &&& l.black_out_dims@ == black_matmul_out_dims(a, b)
}

/// The layout of the batched product of operands with extents `black_a` and
/// `black_b`: a shape error when either has rank below 2, when the inner
/// extents differ, or when the batch counts neither agree nor include 1.
pub fn black_matmul_layout(black_a: &[usize], black_b: &[usize]) -> (r: Result<BlackMatmulLayout, BlackError>)
    requires
        black_matmul_fits(black_a@, black_b@),
    ensures
        (black_a@.len() < 2 || black_b@.len() < 2) ==> r matches Err(BlackError::BlackShapeError { .. }),
        black_a@.len() >= 2 && black_b@.len() >= 2 && black_a@[black_a@.len() - 1] != black_b@[black_b@.len()
            - 2] ==> r matches Err(BlackError::BlackShapeError { .. }),
        black_a@.len() >= 2 && black_b@.len() >= 2 && black_a@[black_a@.len() - 1] == black_b@[black_b@.len()
            - 2] && !black_batches_compatible(
            black_product(black_batch_dims(black_a@)),
            black_product(black_batch_dims(black_b@)),
        ) ==> r matches Err(BlackError::BlackShapeError { .. }),
        black_a@.len() >= 2 && black_b@.len() >= 2 && black_a@[black_a@.len() - 1] == black_b@[black_b@.len()
            - 2] && black_batches_compatible(
            black_product(black_batch_dims(black_a@)),
            black_product(black_batch_dims(black_b@)),
        ) ==> (r matches Ok(l) && black_matmul_layout_of(l, black_a@, black_b@)),
{
    if black_a.len() < 2 || black_b.len() < 2 {
        return Err(BlackError::BlackShapeError {
            black_msg: "matmul requires at least 2D tensors".to_string(),
        });
    }
    let black_ra = black_a.len();
    let black_rb = black_b.len();
    let black_m = black_a[black_ra - 2];
    let black_k = black_a[black_ra - 1];
    let black_k2 = black_b[black_rb - 2];
    let black_n = black_b[black_rb - 1];
    if black_k != black_k2 {
        return Err(BlackError::BlackShapeError { black_msg: black_msg_matmul_inner(black_k, black_k2) });
    }
    let black_a_batch_dims = vstd::slice::slice_subrange(black_a, 0, black_ra - 2);
    let black_b_batch_dims = vstd::slice::slice_subrange(black_b, 0, black_rb - 2);
    let black_batch_a = black_product_of(black_a_batch_dims);
    let black_batch_b = black_product_of(black_b_batch_dims);
    let black_batch = if black_batch_a >= black_batch_b {
        black_batch_a
    } else {
        black_batch_b
    };
    if black_batch_a != 1 && black_batch_b != 1 && black_batch_a != black_batch_b {
        return Err(BlackError::BlackShapeError {
            black_msg: "batch dimensions not broadcastable".to_string(),
        });
    }
    let mut black_out_dims: Vec<usize> = if black_ra > black_rb {
        vstd::slice::slice_to_vec(black_a_batch_dims)
    } else {
        vstd::slice::slice_to_vec(black_b_batch_dims)
    };
    black_out_dims.push(black_m);
    black_out_dims.push(black_n);
    Ok(BlackMatmulLayout {
        black_m,
        black_k,
        black_n,
        black_batch_a,
        black_batch_b,
        black_batch,
        black_a_stride: black_m * black_k,
        black_b_stride: black_k * black_n,
        black_c_stride: black_m * black_n,
        black_out_dims,
    })
}

impl BlackMatmulLayout {
    /// The element offsets of the operands and of the result for product
    /// number `black_bat`: an operand with a single batch is read from 0.
    pub fn black_batch_offsets(&self, black_bat: usize) -> (r: (usize, usize, usize))
        requires
            self.black_batch_a != 1 ==> black_bat * self.black_a_stride <= usize::MAX,
            self.black_batch_b != 1 ==> black_bat * self.black_b_stride <= usize::MAX,
            black_bat * self.black_c_stride <= usize::MAX,
        ensures
            r.0 == (if self.black_batch_a == 1 {
                0
            } else {
                black_bat * self.black_a_stride
            }),
            r.1 == (if self.black_batch_b == 1 {
                0
            } else {
                black_bat * self.black_b_stride
            }),
            r.2 == black_bat * self.black_c_stride,
    {
        let black_a_off = if self.black_batch_a == 1 {
            0
        } else {
            black_bat * self.black_a_stride
        };
        let black_b_off = if self.black_batch_b == 1 {
            0
        } else {
            black_bat * self.black_b_stride
        };
        let black_c_off = black_bat * self.black_c_stride;
        (black_a_off, black_b_off, black_c_off)
    }
}

/// Whether the products [`black_matmul_layout`] forms fit: the test to make
/// before asking for the layout.
pub fn black_matmul_fits_check(black_a: &[usize], black_b: &[usize]) -> (r: bool)
    ensures
        r == black_matmul_fits(black_a@, black_b@),
{
    if black_a.len() < 2 || black_b.len() < 2 || black_a[black_a.len() - 1] != black_b[black_b.len() - 2] {
        return true;
    }
    let black_ra = black_a.len();
    let black_rb = black_b.len();
    let black_a_batch = vstd::slice::slice_subrange(black_a, 0, black_ra - 2);
    let black_b_batch = vstd::slice::slice_subrange(black_b, 0, black_rb - 2);
    if !black_products_fit(black_a_batch) || !black_products_fit(black_b_batch) {
        return false;
    }
    let black_pa = black_product_of(black_a_batch);
    let black_pb = black_product_of(black_b_batch);
    if !(black_pa == 1 || black_pb == 1 || black_pa == black_pb) {
        return true;
    }
    let black_m = black_a[black_ra - 2];
    let black_k = black_a[black_ra - 1];
    let black_n = black_b[black_rb - 1];
    black_m.checked_mul(black_k).is_some() && black_k.checked_mul(black_n).is_some() && black_m.checked_mul(
        black_n,
    ).is_some()
}

/// A batched product's result holds one `m x n` matrix per product: its
/// extents end in `m` and `n`, its rank is the larger operand rank, and its
/// element count is `batch * m * n`. This holds whenever the operand with
/// more axes (the second one at equal rank) carries at least as many
/// matrices as the other; otherwise the result keeps that operand's batch
/// extents, which then count fewer matrices than are computed.
pub proof fn lemma_matmul_out_count(l: BlackMatmulLayout, a: Seq<usize>, b: Seq<usize>)
    requires
        a.len() >= 2,
        b.len() >= 2,
        black_matmul_layout_of(l, a, b),
        a.len() > b.len() ==> black_product(black_batch_dims(a)) >= black_product(black_batch_dims(b)),
        a.len() <= b.len() ==> black_product(black_batch_dims(b)) >= black_product(black_batch_dims(a)),
    ensures
        l.black_out_dims@.len() == (if a.len() > b.len() { a.len() } else { b.len() }),
        l.black_out_dims@[l.black_out_dims@.len() - 2] == l.black_m,
        l.black_out_dims@[l.black_out_dims@.len() - 1] == l.black_n,
        black_product(l.black_out_dims@) == l.black_batch * l.black_m * l.black_n,
{
    let o = l.black_out_dims@;
    let n = o.len();
    let lead = o.subrange(0, n - 2);
    assert(lead =~= (if a.len() > b.len() { black_batch_dims(a) } else { black_batch_dims(b) }));
    assert(o.drop_last().drop_last() =~= lead);
    assert(black_product(o) == black_product(o.drop_last()) * (l.black_n as nat));
    assert(black_product(o.drop_last()) == black_product(lead) * (l.black_m as nat));
    let pl = black_product(lead) as int;
    assert(pl == l.black_batch);
    assert(black_product(o) == pl * l.black_m * l.black_n) by (nonlinear_arith)
        requires
            black_product(o) == black_product(o.drop_last()) * (l.black_n as nat),
            black_product(o.drop_last()) == pl * (l.black_m as nat),
    ;
}

} // verus!
