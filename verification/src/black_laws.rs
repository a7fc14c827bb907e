//! Laws of the layout algebra that relate several operations.
use vstd::prelude::*;
use vstd::arithmetic::div_mod::lemma_fundamental_div_mod;
use crate::black_index::{black_unravel, lemma_unravel_len};
use crate::black_math::{black_product, lemma_product_concat, lemma_product_single, lemma_product_swap};
use crate::black_shape::{
    black_broadcast_dims, black_broadcast_extent, black_broadcast_rank, black_broadcastable,
    black_dim_from_right, black_extents_compatible,
};
use crate::black_strides::{black_contiguous_strides, black_dot, black_suffix_products_fit};
use crate::black_tensor::{BlackTensor, black_is_contiguous_spec, black_source_lane, black_swap_seq};
use crate::black_memory::{black_align_up, lemma_align_up_power_of_two};
use vstd::arithmetic::power2::pow2;

verus! {

/// A dot product only looks at its first `k` entries.
proof fn lemma_dot_agree(x: Seq<usize>, s: Seq<usize>, y: Seq<usize>, t: Seq<usize>, k: int)
    requires
        forall|i: int| 0 <= i < k ==> x[i] == y[i] && s[i] == t[i],
    ensures
        black_dot(x, s, k) == black_dot(y, t, k),
    decreases k,
{
    if k > 0 {
        lemma_dot_agree(x, s, y, t, k - 1);
    }
}

/// Scaling every stride by `l` scales the dot product by `l`.
proof fn lemma_dot_scaled(x: Seq<usize>, s: Seq<usize>, t: Seq<usize>, l: int, k: int)
    requires
        forall|i: int| 0 <= i < k ==> t[i] as int == (s[i] as int) * l,
    ensures
        black_dot(x, t, k) == l * black_dot(x, s, k),
    decreases k,
{
    if k > 0 {
        lemma_dot_scaled(x, s, t, l, k - 1);
        let a = x[k - 1] as int;
        let b = s[k - 1] as int;
        let d = black_dot(x, s, k - 1);
        assert(l * d + a * (b * l) == l * (d + a * b)) by (nonlinear_arith);
    }
}

/// Row-major strides address the elements in order: the multi-index of
/// position `j` lies at offset `j`.
pub proof fn lemma_row_major_offset(dims: Seq<usize>, j: int)
    requires
        0 <= j < black_product(dims),
        black_suffix_products_fit(dims),
    ensures
        black_dot(black_unravel(dims, j), black_contiguous_strides(dims), dims.len() as int) == j,
    decreases dims.len(),
{
    let n = dims.len() as int;
    lemma_unravel_len(dims, j);
    if n == 0 {
        assert(black_product(dims) == 1);
    } else {
        let l = dims.last() as int;
        let dp = dims.drop_last();
        let p = black_product(dp) as int;
        assert(black_product(dims) == p * l);
        assert(l > 0 && p > 0) by (nonlinear_arith)
            requires
                0 <= j < p * l,
                p >= 0,
                l >= 0,
        ;
        let q = j / l;
        let r = j % l;
        lemma_fundamental_div_mod(j, l);
        assert(0 <= q < p) by (nonlinear_arith)
            requires
                j == l * q + r,
                0 <= r < l,
                0 <= j < p * l,
        ;
        assert forall|k: int| 1 <= k <= dp.len() implies black_product(
            #[trigger] dp.subrange(k, dp.len() as int),
        ) <= usize::MAX by {
            assert(dims.subrange(k, n) =~= dp.subrange(k, n - 1) + seq![dims[n - 1]]);
            lemma_product_concat(dp.subrange(k, n - 1), seq![dims[n - 1]]);
            lemma_product_single(dims[n - 1]);
            crate::black_math::lemma_factor_le(black_product(dp.subrange(k, n - 1)), l as nat);
        }
        lemma_row_major_offset(dp, q);
        let u = black_unravel(dims, j);
        let up = black_unravel(dp, q);
        lemma_unravel_len(dp, q);
        let cs = black_contiguous_strides(dims);
        let csp = black_contiguous_strides(dp);
        assert forall|i: int| 0 <= i < n - 1 implies cs[i] as int == (csp[i] as int) * l by {
            assert(dims.subrange(i + 1, n) =~= dp.subrange(i + 1, n - 1) + seq![dims[n - 1]]);
            lemma_product_concat(dp.subrange(i + 1, n - 1), seq![dims[n - 1]]);
            lemma_product_single(dims[n - 1]);
            assert(black_product(dims.subrange(i + 1, n)) <= usize::MAX);
            crate::black_math::lemma_factor_le(black_product(dp.subrange(i + 1, n - 1)), l as nat);
        }
        lemma_dot_agree(u, cs, up, cs, n - 1);
        lemma_dot_scaled(up, csp, cs, l, n - 1);
        assert(dims.subrange(n, n) =~= Seq::<usize>::empty());
        assert(cs[n - 1] == 1);
        assert(black_dot(u, cs, n) == l * q + r);
    }
}

/// A row-major tensor is read in order: the gather takes element `j` from
/// the lane `offset + j`, so gathering a row-major tensor copies its lanes
/// as they lie.
pub proof fn lemma_gather_row_major(t: BlackTensor, j: int)
    requires
        black_is_contiguous_spec(t),
        black_suffix_products_fit(t.black_shape@),
        0 <= j < black_product(t.black_shape@),
    ensures
        black_source_lane(t, j) == t.black_offset + j,
{
    lemma_row_major_offset(t.black_shape@, j);
}

/// Two blocks taken one after the other from a bump arena with
/// power-of-two alignments do not overlap: the second starts at or after
/// the end of the first, and each starts on its alignment.
pub proof fn lemma_arena_blocks_disjoint(
    used: usize,
    size1: usize,
    align1: usize,
    n1: nat,
    size2: usize,
    align2: usize,
    n2: nat,
)
    requires
        n1 < usize::BITS,
        n2 < usize::BITS,
        align1 == pow2(n1),
        align2 == pow2(n2),
        used + align1 <= usize::MAX,
        black_align_up(used, align1) + size1 + align2 <= usize::MAX,
    ensures
        ({
            let start1 = black_align_up(used, align1);
            let start2 = black_align_up((start1 + size1) as usize, align2);
            &&& used <= start1
            &&& start1 % align1 == 0
            &&& start1 + size1 <= start2
            &&& start2 % align2 == 0
        }),
{
    lemma_align_up_power_of_two(used, align1, n1);
    let start1 = black_align_up(used, align1);
    lemma_align_up_power_of_two((start1 + size1) as usize, align2, n2);
}

/// Broadcasting is symmetric: the operands broadcast in either order, to the
/// same shape.
pub proof fn lemma_broadcast_symmetric(a: Seq<usize>, b: Seq<usize>)
    ensures
        black_broadcastable(a, b) == black_broadcastable(b, a),
        black_broadcastable(a, b) ==> black_broadcast_dims(a, b) == black_broadcast_dims(b, a),
{
    assert(black_broadcast_rank(a, b) == black_broadcast_rank(b, a));
    if black_broadcastable(a, b) {
        assert forall|i: int| 0 <= i < black_broadcast_rank(b, a) implies black_extents_compatible(
            #[trigger] black_dim_from_right(b, i),
            black_dim_from_right(a, i),
        ) by {
            assert(black_extents_compatible(black_dim_from_right(a, i), black_dim_from_right(b, i)));
        }
        let r = black_broadcast_rank(a, b) as int;
        assert forall|j: int| 0 <= j < r implies black_broadcast_dims(a, b)[j] == black_broadcast_dims(b, a)[j] by {
            assert(black_extents_compatible(
                black_dim_from_right(a, r - 1 - j),
                black_dim_from_right(b, r - 1 - j),
            ));
        }
        assert(black_broadcast_dims(a, b) =~= black_broadcast_dims(b, a));
    }
    if black_broadcastable(b, a) {
        assert forall|i: int| 0 <= i < black_broadcast_rank(a, b) implies black_extents_compatible(
            #[trigger] black_dim_from_right(a, i),
            black_dim_from_right(b, i),
        ) by {
            assert(black_extents_compatible(black_dim_from_right(b, i), black_dim_from_right(a, i)));
        }
    }
}

/// A shape broadcasts with itself, to itself.
pub proof fn lemma_broadcast_self(a: Seq<usize>)
    ensures
        black_broadcastable(a, a),
        black_broadcast_dims(a, a) == a,
{
    let n = a.len() as int;
    assert forall|j: int| 0 <= j < n implies black_broadcast_dims(a, a)[j] == a[j] by {
        assert(black_dim_from_right(a, n - 1 - j) == a[j] as int);
    }
    assert(black_broadcast_dims(a, a) =~= a);
}

/// A rank-0 shape broadcasts with any shape, to that shape.
pub proof fn lemma_broadcast_scalar(a: Seq<usize>)
    ensures
        black_broadcastable(a, Seq::empty()),
        black_broadcast_dims(a, Seq::empty()) == a,
{
    let e = Seq::<usize>::empty();
    let n = a.len() as int;
    assert forall|i: int| 0 <= i < black_broadcast_rank(a, e) implies black_extents_compatible(
        #[trigger] black_dim_from_right(a, i),
        black_dim_from_right(e, i),
    ) by {}
    assert forall|j: int| 0 <= j < n implies black_broadcast_dims(a, e)[j] == a[j] by {
        assert(black_dim_from_right(a, n - 1 - j) == a[j] as int);
    }
    assert(black_broadcast_dims(a, e) =~= a);
}

/// Exchanging the same two axes twice restores the extents (and the
/// strides): transposing twice gives back the layout.
pub proof fn lemma_transpose_involution(s: Seq<usize>, i: int, j: int)
    requires
        0 <= i < s.len(),
        0 <= j < s.len(),
    ensures
        black_swap_seq(black_swap_seq(s, i, j), i, j) == s,
{
    assert(black_swap_seq(black_swap_seq(s, i, j), i, j) =~= s);
}

/// Exchanging two axes keeps the element count.
pub proof fn lemma_transpose_numel(dims: Seq<usize>, i: int, j: int)
    requires
        0 <= i < dims.len(),
        0 <= j < dims.len(),
    ensures
        black_product(black_swap_seq(dims, i, j)) == black_product(dims),
{
    lemma_product_swap(dims, i, j);
}

} // verus!
