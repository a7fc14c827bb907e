use vstd::prelude::*;
use vstd::arithmetic::div_mod::{lemma_fundamental_div_mod, lemma_fundamental_div_mod_converse};
use crate::black_math::{black_product, black_prefix_products_fit, lemma_product_split, lemma_product_prepend};
use crate::black_shape::{black_product_of, black_products_fit};

verus! {

/// The extents of a reduction's result along axis `dim`: that axis becomes 1
/// (`keepdim`) or disappears; a result with no axes left has the single
/// extent 1.
pub open spec fn black_reduced_dims(dims: Seq<usize>, dim: int, keepdim: bool) -> Seq<usize> {
    let r = if keepdim {
        dims.update(dim, 1usize)
    } else {
        dims.remove(dim)
    };
    if r.len() == 0 {
        seq![1usize]
    } else {
        r
    }
}

/// A reduction along one axis of a row-major tensor, seen as a block of
/// `outer * dim_size * inner` elements: element `(o, k, i)` sits at
/// `o * dim_size * inner + k * inner + i` and folds into output element
/// `o * inner + i`.
pub struct BlackReduceLayout {
    pub black_out_dims: Vec<usize>,
    pub black_outer: usize,
    pub black_dim_size: usize,
    pub black_inner: usize,
}

/// The layout describes the reduction of `dims` along `dim`.
pub open spec fn black_reduce_layout_of(l: BlackReduceLayout, dims: Seq<usize>, dim: int, keepdim: bool) -> bool {
    &&& l.black_out_dims@ == black_reduced_dims(dims, dim, keepdim)
    &&& l.black_outer == black_product(dims.subrange(0, dim))
    &&& l.black_dim_size == dims[dim]
    &&& l.black_inner == black_product(dims.subrange(dim + 1, dims.len() as int))
}

/// The reduction of `dims` along `dim` can be laid out: the prefix and the
/// suffix around `dim` multiply out without overflow.
pub open spec fn black_reduce_fits(dims: Seq<usize>, dim: int) -> bool {
    &&& black_prefix_products_fit(dims)
    &&& black_prefix_products_fit(dims.subrange(dim + 1, dims.len() as int))
}

/// The layout of a reduction of `black_dims` along `black_dim`, or `None`
/// when that axis does not exist.
pub fn black_reduce_layout(black_dims: &[usize], black_dim: usize, black_keepdim: bool) -> (r: Option<BlackReduceLayout>)
    requires
        black_dim < black_dims@.len() ==> black_reduce_fits(black_dims@, black_dim as int),
    ensures
        black_dim >= black_dims@.len() ==> r is None,
        black_dim < black_dims@.len() ==> (r matches Some(l) && black_reduce_layout_of(
            l,
            black_dims@,
            black_dim as int,
            black_keepdim,
        )),
{
    if black_dim >= black_dims.len() {
        return None;
    }
    let ghost dims = black_dims@;
    let black_dim_size = black_dims[black_dim];
    let mut black_out_dims: Vec<usize> = vstd::slice::slice_to_vec(black_dims);
    if black_keepdim {
        black_out_dims.set(black_dim, 1);
    } else {
        black_out_dims.remove(black_dim);
    }
    if black_out_dims.len() == 0 {
        black_out_dims.push(1);
        assert(black_out_dims@ =~= seq![1usize]);
    }
    let black_prefix = vstd::slice::slice_subrange(black_dims, 0, black_dim);
    let black_suffix = vstd::slice::slice_subrange(black_dims, black_dim + 1, black_dims.len());
    proof {
        assert forall|k: int| 0 <= k <= black_prefix@.len() implies black_product(
            #[trigger] black_prefix@.take(k),
        ) <= usize::MAX by {
            assert(black_prefix@.take(k) =~= dims.take(k));
        }
    }
    let black_outer = black_product_of(black_prefix);
    let black_inner = black_product_of(black_suffix);
    assert(black_prefix@ =~= dims.subrange(0, black_dim as int));
    Some(BlackReduceLayout { black_out_dims, black_outer, black_dim_size, black_inner })
}

impl BlackReduceLayout {
    /// The position, in the input, of element `k` along the reduced axis
    /// for output position `(o, i)`.
    pub fn black_source_index(&self, black_o: usize, black_k: usize, black_i: usize) -> (r: usize)
        requires
            black_o < self.black_outer,
            black_k < self.black_dim_size,
            black_i < self.black_inner,
            self.black_outer * self.black_dim_size * self.black_inner <= usize::MAX,
        ensures
            r == black_o * self.black_dim_size * self.black_inner + black_k * self.black_inner + black_i,
            r < self.black_outer * self.black_dim_size * self.black_inner,
    {
        proof {
            lemma_block_index_bound(
                black_o as int,
                black_k as int,
                black_i as int,
                self.black_outer as int,
                self.black_dim_size as int,
                self.black_inner as int,
            );
        }
        black_o * self.black_dim_size * self.black_inner + black_k * self.black_inner + black_i
    }

    /// The position, in the output, of output element `(o, i)`.
    pub fn black_target_index(&self, black_o: usize, black_i: usize) -> (r: usize)
        requires
            black_o < self.black_outer,
            black_i < self.black_inner,
            self.black_outer * self.black_inner <= usize::MAX,
        ensures
            r == black_o * self.black_inner + black_i,
            r < self.black_outer * self.black_inner,
    {
        proof {
            assert(black_o * self.black_inner + black_i < self.black_outer * self.black_inner) by (nonlinear_arith)
                requires
                    black_o < self.black_outer,
                    black_i < self.black_inner,
            ;
        }
        black_o * self.black_inner + black_i
    }
}

/// A reduction visits the whole input: `outer * dim_size * inner` is the
/// input's element count.
pub proof fn lemma_reduce_covers_input(dims: Seq<usize>, dim: int)
    requires
        0 <= dim < dims.len(),
    ensures
        black_product(dims.subrange(0, dim)) * (dims[dim] as nat) * black_product(
            dims.subrange(dim + 1, dims.len() as int),
        ) == black_product(dims),
{
    lemma_product_split(dims, dim);
    lemma_product_prepend(dims, dim);
    vstd::arithmetic::mul::lemma_mul_is_associative(
        black_product(dims.subrange(0, dim)) as int,
        dims[dim] as int,
        black_product(dims.subrange(dim + 1, dims.len() as int)) as int,
    );
}

/// A reduction's result has `outer * inner` elements, with or without the
/// kept axis.
pub proof fn lemma_reduce_output_count(dims: Seq<usize>, dim: int, keepdim: bool)
    requires
        0 <= dim < dims.len(),
    ensures
        black_product(black_reduced_dims(dims, dim, keepdim)) == black_product(dims.subrange(0, dim))
            * black_product(dims.subrange(dim + 1, dims.len() as int)),
{
    let pre = dims.subrange(0, dim);
    let post = dims.subrange(dim + 1, dims.len() as int);
    let r = if keepdim {
        dims.update(dim, 1usize)
    } else {
        dims.remove(dim)
    };
    if keepdim {
        assert(r =~= pre + seq![1usize] + post);
        crate::black_math::lemma_product_concat(pre + seq![1usize], post);
        crate::black_math::lemma_product_concat(pre, seq![1usize]);
        crate::black_math::lemma_product_single(1usize);
    } else {
        assert(r =~= pre + post);
        crate::black_math::lemma_product_concat(pre, post);
    }
    if r.len() == 0 {
        crate::black_math::lemma_product_single(1usize);
        assert(pre.len() == 0 && post.len() == 0);
        assert(black_product(pre) == 1);
        assert(black_product(post) == 1);
    }
}

/// Every input position of a reduction block is reached, from exactly one
/// triple: `p` is the position of `(p / (d * inner), (p / inner) % d,
/// p % inner)`, and two triples in range reach the same position only if
/// they are equal.
pub proof fn lemma_block_index_bijective(
    p: int,
    o1: int,
    k1: int,
    i1: int,
    o2: int,
    k2: int,
    i2: int,
    outer: int,
    d: int,
    inner: int,
)
    requires
        0 <= p < outer * d * inner,
        0 <= o1 < outer,
        0 <= k1 < d,
        0 <= i1 < inner,
        0 <= o2 < outer,
        0 <= k2 < d,
        0 <= i2 < inner,
    ensures
        ({
            let o = p / (d * inner);
            let k = (p / inner) % d;
            let i = p % inner;
            &&& 0 <= o < outer
            &&& 0 <= k < d
            &&& 0 <= i < inner
            &&& o * d * inner + k * inner + i == p
        }),
        o1 * d * inner + k1 * inner + i1 == o2 * d * inner + k2 * inner + i2 ==> o1 == o2 && k1 == k2
            && i1 == i2,
{
    assert(inner > 0 && d > 0 && outer > 0) by (nonlinear_arith)
        requires
            0 <= p < outer * d * inner,
            0 <= k1 < d,
            0 <= i1 < inner,
            0 <= o1 < outer,
    ;
    let q = p / inner;
    let i = p % inner;
    lemma_fundamental_div_mod(p, inner);
    let k = q % d;
    let o = q / d;
    lemma_fundamental_div_mod(q, d);
    vstd::arithmetic::div_mod::lemma_div_denominator(p, inner, d);
    assert(p / (inner * d) == o);
    assert(d * inner == inner * d) by (nonlinear_arith);
    assert(o * d * inner + k * inner + i == p) by (nonlinear_arith)
        requires
            p == inner * q + i,
            q == d * o + k,
    ;
    assert(0 <= q) by (nonlinear_arith)
        requires
            0 <= p,
            inner > 0,
            q == p / inner,
    ;
    assert(0 <= o < outer) by (nonlinear_arith)
        requires
            p < outer * d * inner,
            o * d * inner + k * inner + i == p,
            0 <= k,
            0 <= i,
            0 <= q,
            q == d * o + k,
            0 <= k < d,
            d > 0,
            inner > 0,
    ;
    if o1 * d * inner + k1 * inner + i1 == o2 * d * inner + k2 * inner + i2 {
        let x = o1 * d * inner + k1 * inner + i1;
        assert(x == (o1 * d + k1) * inner + i1) by (nonlinear_arith)
            requires
                x == o1 * d * inner + k1 * inner + i1,
        ;
        assert(x == (o2 * d + k2) * inner + i2) by (nonlinear_arith)
            requires
                x == o2 * d * inner + k2 * inner + i2,
        ;
        lemma_fundamental_div_mod_converse(x, inner, o1 * d + k1, i1);
        lemma_fundamental_div_mod_converse(x, inner, o2 * d + k2, i2);
        lemma_fundamental_div_mod_converse(o1 * d + k1, d, o1, k1);
        lemma_fundamental_div_mod_converse(o2 * d + k2, d, o2, k2);
    }
}

/// Positions of a three-level block stay inside the block.
pub proof fn lemma_block_index_bound(o: int, k: int, i: int, outer: int, d: int, inner: int)
    requires
        0 <= o < outer,
        0 <= k < d,
        0 <= i < inner,
    ensures
        0 <= o * d * inner + k * inner + i < outer * d * inner,
        0 <= o * d <= o * d * inner,
        o * d * inner <= outer * d * inner,
        0 <= k * inner,
{
    assert(0 <= o * d <= o * d * inner) by (nonlinear_arith)
        requires
            0 <= o,
            0 <= k < d,
            0 <= i < inner,
    ;
    assert(o * d * inner <= outer * d * inner) by (nonlinear_arith)
        requires
            0 <= o < outer,
            0 <= d,
            0 <= inner,
    ;
    assert(0 <= k * inner) by (nonlinear_arith)
        requires
            0 <= k,
            0 <= inner,
    ;
    assert(0 <= o * d * inner + k * inner + i < outer * d * inner) by (nonlinear_arith)
        requires
            0 <= o < outer,
            0 <= k < d,
            0 <= i < inner,
    ;
}

/// Whether [`black_reduce_layout`] can run on these extents: the test to
/// make before asking for the layout.
pub fn black_reduce_fits_check(black_dims: &[usize], black_dim: usize) -> (r: bool)
    ensures
        r == (black_dim < black_dims@.len() ==> black_reduce_fits(black_dims@, black_dim as int)),
{
    if black_dim >= black_dims.len() {
        return true;
    }
    let black_tail = vstd::slice::slice_subrange(black_dims, black_dim + 1, black_dims.len());
    black_products_fit(black_dims) && black_products_fit(black_tail)
}

/// The axes of a reduction's result: with `keepdim` every axis stays in
/// place and the reduced one has extent 1; without it the reduced axis is
/// deleted and the others keep their order (a reduction of the only axis
/// leaves the single extent 1).
pub proof fn lemma_reduced_dims_axes(dims: Seq<usize>, dim: int, keepdim: bool)
    requires
        0 <= dim < dims.len(),
    ensures
        keepdim ==> {
            let o = black_reduced_dims(dims, dim, keepdim);
            &&& o.len() == dims.len()
            &&& o[dim] == 1
            &&& forall|i: int| 0 <= i < dims.len() && i != dim ==> #[trigger] o[i] == dims[i]
        },
        !keepdim && dims.len() > 1 ==> {
            let o = black_reduced_dims(dims, dim, keepdim);
            &&& o.len() == dims.len() - 1
            &&& forall|i: int| 0 <= i < dim ==> #[trigger] o[i] == dims[i]
            &&& forall|i: int| dim <= i < dims.len() - 1 ==> #[trigger] o[i] == dims[i + 1]
        },
        !keepdim && dims.len() == 1 ==> black_reduced_dims(dims, dim, keepdim) == seq![1usize],
{
}

} // verus!
