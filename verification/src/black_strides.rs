use vstd::prelude::*;
use crate::black_math::{black_product, lemma_product_prepend};
use crate::black_shape::{BlackShape, black_dims_equal};

verus! {

/// Every product of a proper suffix of `dims` fits in a `usize`: the
/// row-major strides of `dims` can be computed without overflow.
pub open spec fn black_suffix_products_fit(dims: Seq<usize>) -> bool {
    forall|k: int|
        1 <= k <= dims.len() ==> black_product(#[trigger] dims.subrange(k, dims.len() as int))
            <= usize::MAX
}

/// The row-major (C order) strides of `dims`: the stride of an axis is the
/// product of the extents to its right.
pub open spec fn black_contiguous_strides(dims: Seq<usize>) -> Seq<usize> {
    Seq::new(
        dims.len(),
        |i: int| black_product(dims.subrange(i + 1, dims.len() as int)) as usize,
    )
}

/// The sum of `idx[i] * strides[i]` over the first `n` axes.
pub open spec fn black_dot(idx: Seq<usize>, strides: Seq<usize>, n: int) -> int
    decreases n,
{
    if n <= 0 {
        0
    } else {
        black_dot(idx, strides, n - 1) + (idx[n - 1] as int) * (strides[n - 1] as int)
    }
}

/// The number of axes an index list and a stride list have in common.
pub open spec fn black_common_len(idx: Seq<usize>, strides: Seq<usize>) -> int {
    if idx.len() <= strides.len() {
        idx.len() as int
    } else {
        strides.len() as int
    }
}

/// The memory offset of a multi-index: the indices beyond the strides'
/// length (or strides beyond the indices') do not count.
pub open spec fn black_offset_of(idx: Seq<usize>, strides: Seq<usize>) -> int {
    black_dot(idx, strides, black_common_len(idx, strides))
}

/// The running sums of `black_offset_of` all fit in a `usize`.
pub open spec fn black_offset_fits(idx: Seq<usize>, strides: Seq<usize>) -> bool {
    forall|k: int|
        0 <= k <= black_common_len(idx, strides) ==> #[trigger] black_dot(idx, strides, k)
            <= usize::MAX
}

/// Per-axis steps, in elements, between neighbouring entries of a tensor.
#[derive(Debug)]
pub struct BlackStrides {
    black_data: Vec<usize>,
}

impl View for BlackStrides {
    type V = Seq<usize>;

    closed spec fn view(&self) -> Seq<usize> {
        self.black_data@
    }
}

impl Clone for BlackStrides {
    fn clone(&self) -> (r: Self)
        ensures
            r@ == self@,
    {
        BlackStrides { black_data: vstd::slice::slice_to_vec(self.black_data.as_slice()) }
    }
}

impl BlackStrides {
    /// The row-major strides of a shape; a rank-0 shape has none.
    pub fn black_from_shape(black_shape: &BlackShape) -> (r: Self)
        requires
            black_suffix_products_fit(black_shape@),
        ensures
            r@ == black_contiguous_strides(black_shape@),
    {
        let black_dims = black_shape.black_dims();
        let black_rank = black_dims.len();
        if black_rank == 0 {
            let r = BlackStrides { black_data: Vec::new() };
            assert(r@ =~= black_contiguous_strides(black_shape@));
            return r;
        }
        let ghost dims = black_dims@;
        let mut black_strides: Vec<usize> = vec![0usize; black_rank];
        black_strides.set(black_rank - 1, 1);
        proof {
            assert(dims.subrange(black_rank as int, black_rank as int) =~= Seq::<usize>::empty());
        }
        let mut black_i: usize = black_rank - 1;
        while black_i > 0
            invariant
                dims == black_dims@,
                black_rank == dims.len(),
                black_rank >= 1,
                black_suffix_products_fit(dims),
                black_i < black_rank,
                black_strides@.len() == black_rank,
                forall|j: int|
                    black_i <= j < black_rank ==> black_strides@[j] as int == black_product(
                        #[trigger] dims.subrange(j + 1, black_rank as int),
                    ),
            decreases black_i,
        {
            let black_k = black_i - 1;
            proof {
                lemma_product_prepend(dims, black_i as int);
                assert(black_product(dims.subrange(black_i as int, black_rank as int)) <= usize::MAX);
                assert(black_strides@[black_i as int] as int == black_product(
                    dims.subrange(black_i as int + 1, black_rank as int),
                ));
                assert((dims[black_i as int] as int) * black_product(
                    dims.subrange(black_i as int + 1, black_rank as int),
                ) == black_strides@[black_i as int] * black_dims@[black_i as int]) by (nonlinear_arith)
                    requires
                        black_strides@[black_i as int] as int == black_product(
                            dims.subrange(black_i as int + 1, black_rank as int),
                        ),
                        dims == black_dims@,
                ;
            }
            let black_s = black_strides[black_i] * black_dims[black_i];
            black_strides.set(black_k, black_s);
            black_i = black_k;
        }
        let r = BlackStrides { black_data: black_strides };
        assert(r@ =~= black_contiguous_strides(black_shape@));
        r
    }

    pub fn black_new(black_strides: Vec<usize>) -> (r: Self)
        ensures
            r@ == black_strides@,
    {
        BlackStrides { black_data: black_strides }
    }

    pub fn black_as_slice(&self) -> (r: &[usize])
        ensures
            r@ == self@,
    {
        self.black_data.as_slice()
    }

    /// Whether these are exactly the row-major strides of `black_shape`.
    pub fn black_is_contiguous(&self, black_shape: &BlackShape) -> (r: bool)
        requires
            black_suffix_products_fit(black_shape@),
        ensures
            r == (self@ == black_contiguous_strides(black_shape@)),
    {
        let black_expected = BlackStrides::black_from_shape(black_shape);
        black_dims_equal(self.black_data.as_slice(), black_expected.black_data.as_slice())
    }

    /// The offset of a multi-index: the sum of index times stride over the
    /// axes that both lists have.
    pub fn black_offset(&self, black_indices: &[usize]) -> (r: usize)
        requires
            black_offset_fits(black_indices@, self@),
        ensures
            r == black_offset_of(black_indices@, self@),
    {
        let mut black_offset: usize = 0;
        let mut black_i: usize = 0;
        let ghost n = black_common_len(black_indices@, self@);
        while black_i < black_indices.len()
            invariant
                n == black_common_len(black_indices@, self@),
                black_offset_fits(black_indices@, self@),
                black_i <= black_indices@.len(),
                black_offset == black_dot(black_indices@, self@, if black_i <= n { black_i as int } else { n }),
            decreases black_indices@.len() - black_i,
        {
            if black_i < self.black_data.len() {
                proof {
                    assert(black_dot(black_indices@, self@, black_i as int + 1) <= usize::MAX);
                    assert(black_dot(black_indices@, self@, black_i as int) >= 0) by {
                        lemma_dot_nonneg(black_indices@, self@, black_i as int);
                    }
                    assert((black_indices@[black_i as int] as int) * (self@[black_i as int] as int) >= 0) by (nonlinear_arith);
                }
                black_offset = black_offset + black_indices[black_i] * self.black_data[black_i];
            }
            black_i = black_i + 1;
        }
        black_offset
    }

    pub fn black_ndim(&self) -> (r: usize)
        ensures
            r == self@.len(),
    {
        self.black_data.len()
    }
}

/// Partial dot products of naturals are natural.
pub proof fn lemma_dot_nonneg(idx: Seq<usize>, strides: Seq<usize>, n: int)
    ensures
        black_dot(idx, strides, n) >= 0,
    decreases n,
{
    if n > 0 {
        lemma_dot_nonneg(idx, strides, n - 1);
        assert((idx[n - 1] as int) * (strides[n - 1] as int) >= 0) by (nonlinear_arith);
    }
}

/// Whether every product of a tail of `black_dims` (all but the first
/// extent, and shorter) fits in a `usize`: the test to make before forming
/// row-major strides.
pub fn black_suffixes_fit(black_dims: &[usize]) -> (r: bool)
    ensures
        r == black_suffix_products_fit(black_dims@),
{
    let ghost d = black_dims@;
    let n = black_dims.len();
    let mut black_acc: usize = 1;
    let mut black_k: usize = n;
    assert(black_product(d.subrange(n as int, n as int)) == 1) by {
        assert(d.subrange(n as int, n as int) =~= Seq::<usize>::empty());
    }
    while black_k > 1
        invariant
            d == black_dims@,
            n == d.len(),
            black_k <= n,
            n > 0 ==> black_k >= 1,
            black_acc == black_product(d.subrange(black_k as int, n as int)),
            forall|k: int| black_k <= k <= n && k >= 1 ==> black_product(#[trigger] d.subrange(k, n as int)) <= usize::MAX,
        decreases black_k,
    {
        proof {
            lemma_product_prepend(d, black_k - 1);
        }
        match black_dims[black_k - 1].checked_mul(black_acc) {
            Some(black_p) => {
                black_acc = black_p;
            },
            None => {
                assert(black_product(d.subrange(black_k - 1, n as int)) > usize::MAX);
                return false;
            },
        }
        black_k = black_k - 1;
    }
    true
}

} // verus!
