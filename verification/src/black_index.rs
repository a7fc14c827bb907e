use vstd::prelude::*;
use vstd::arithmetic::div_mod::{lemma_fundamental_div_mod, lemma_fundamental_div_mod_converse};
use crate::black_math::black_product;

verus! {

/// The row-major multi-index of the flat position `i` in a tensor of extents
/// `dims`: the last axis varies fastest.
pub open spec fn black_unravel(dims: Seq<usize>, i: int) -> Seq<usize>
    decreases dims.len(),
{
    if dims.len() == 0 {
        Seq::empty()
    } else {
        let l = dims.last() as int;
        black_unravel(dims.drop_last(), i / l).push((i % l) as usize)
    }
}

/// One step of an odometer over `dims`: the last position that can grow
/// grows by one and every position to its right returns to 0. From the
/// largest multi-index it wraps around to all zeros.
pub open spec fn black_increment(idx: Seq<usize>, dims: Seq<usize>) -> Seq<usize>
    decreases idx.len(),
{
    if idx.len() == 0 {
        idx
    } else if idx.last() + 1 < dims[idx.len() - 1] {
        idx.drop_last().push((idx.last() + 1) as usize)
    } else {
        black_increment(idx.drop_last(), dims.drop_last()).push(0usize)
    }
}

/// `n` zeros.
pub open spec fn black_zeros_seq(n: nat) -> Seq<usize> {
    Seq::new(n, |i: int| 0usize)
}

/// An unravelled multi-index has one entry per axis.
pub proof fn lemma_unravel_len(dims: Seq<usize>, i: int)
    ensures
        black_unravel(dims, i).len() == dims.len(),
    decreases dims.len(),
{
    if dims.len() > 0 {
        lemma_unravel_len(dims.drop_last(), i / (dims.last() as int));
    }
}

/// The odometer step keeps the number of positions.
pub proof fn lemma_increment_len(idx: Seq<usize>, dims: Seq<usize>)
    ensures
        black_increment(idx, dims).len() == idx.len(),
    decreases idx.len(),
{
    if idx.len() > 0 {
        lemma_increment_len(idx.drop_last(), dims.drop_last());
    }
}

/// Position 0 unravels to all zeros when no extent is 0.
pub proof fn lemma_unravel_zero(dims: Seq<usize>)
    requires
        black_product(dims) > 0,
    ensures
        black_unravel(dims, 0) == black_zeros_seq(dims.len()),
    decreases dims.len(),
{
    if dims.len() > 0 {
        let l = dims.last() as int;
        assert(black_product(dims) == black_product(dims.drop_last()) * (l as nat));
        if l == 0 {
            assert(black_product(dims) == 0);
        }
        assert(black_product(dims.drop_last()) > 0) by (nonlinear_arith)
            requires
                black_product(dims) == black_product(dims.drop_last()) * (l as nat),
                black_product(dims) > 0,
        ;
        lemma_unravel_zero(dims.drop_last());
        assert(black_unravel(dims, 0) =~= black_zeros_seq(dims.len()));
    }
}

/// Unravelled entries stay below their extents.
pub proof fn lemma_unravel_bounds(dims: Seq<usize>, i: int)
    requires
        0 <= i < black_product(dims),
    ensures
        forall|d: int| 0 <= d < dims.len() ==> #[trigger] black_unravel(dims, i)[d] < dims[d],
    decreases dims.len(),
{
    lemma_unravel_len(dims, i);
    if dims.len() > 0 {
        let l = dims.last() as int;
        let p = black_product(dims.drop_last()) as int;
        assert(black_product(dims) == p * l);
        assert(l > 0) by (nonlinear_arith)
            requires
                0 <= i < p * l,
                p >= 0,
        ;
        lemma_fundamental_div_mod(i, l);
        assert(i / l < p) by (nonlinear_arith)
            requires
                i < p * l,
                l > 0,
                i == l * (i / l) + i % l,
                0 <= i % l,
        ;
        assert(i / l >= 0) by (nonlinear_arith)
            requires
                i >= 0,
                l > 0,
        ;
        lemma_unravel_bounds(dims.drop_last(), i / l);
        lemma_unravel_len(dims.drop_last(), i / l);
        assert forall|d: int| 0 <= d < dims.len() implies #[trigger] black_unravel(dims, i)[d] < dims[d] by {
            if d < dims.len() - 1 {
                assert(black_unravel(dims, i)[d] == black_unravel(dims.drop_last(), i / l)[d]);
            }
        }
    }
}

/// The odometer step turns the multi-index of position `i` into that of
/// position `i + 1`.
pub proof fn lemma_increment_unravel(dims: Seq<usize>, i: int)
    requires
        0 <= i,
        i + 1 < black_product(dims),
    ensures
        black_increment(black_unravel(dims, i), dims) == black_unravel(dims, i + 1),
    decreases dims.len(),
{
    lemma_unravel_len(dims, i);
    if dims.len() == 0 {
        assert(black_product(dims) == 1);
    } else {
        let l = dims.last() as int;
        let dp = dims.drop_last();
        let p = black_product(dp) as int;
        assert(black_product(dims) == p * l);
        assert(l > 0) by (nonlinear_arith)
            requires
                0 <= i + 1 < p * l,
                p >= 0,
        ;
        let q = i / l;
        let r = i % l;
        lemma_fundamental_div_mod(i, l);
        let u = black_unravel(dims, i);
        lemma_unravel_len(dp, q);
        assert(u.drop_last() =~= black_unravel(dp, q));
        assert(u.last() == r as usize);
        if r + 1 < l {
            lemma_fundamental_div_mod_converse(i + 1, l, q, r + 1);
            assert(black_increment(u, dims) =~= black_unravel(dims, i + 1));
        } else {
            assert(r == l - 1);
            assert(i + 1 == l * (q + 1)) by (nonlinear_arith)
                requires
                    i == l * q + r,
                    r == l - 1,
            ;
            assert(i + 1 == (q + 1) * l + 0) by (nonlinear_arith)
                requires
                    i + 1 == l * (q + 1),
            ;
            lemma_fundamental_div_mod_converse(i + 1, l, q + 1, 0);
            assert(q + 1 < p) by (nonlinear_arith)
                requires
                    i + 1 == l * (q + 1),
                    i + 1 < p * l,
                    l > 0,
            ;
            assert(q >= 0) by (nonlinear_arith)
                requires
                    i >= 0,
                    l > 0,
                    q == i / l,
            ;
            lemma_increment_unravel(dp, q);
            assert(black_increment(u, dims) =~= black_unravel(dims, i + 1));
        }
    }
}

/// One position of the odometer scan, from the right: when the carry reaches
/// position `p` the result below `p + 1` is decided by that position alone.
pub proof fn lemma_increment_prefix(idx: Seq<usize>, dims: Seq<usize>, p: int)
    requires
        idx.len() == dims.len(),
        0 <= p < idx.len(),
    ensures
        idx[p] + 1 < dims[p] ==> black_increment(idx.take(p + 1), dims.take(p + 1)) == idx.take(
            p,
        ).push((idx[p] + 1) as usize),
        !(idx[p] + 1 < dims[p]) ==> black_increment(idx.take(p + 1), dims.take(p + 1))
            == black_increment(idx.take(p), dims.take(p)).push(0usize),
{
    let t = idx.take(p + 1);
    assert(t.drop_last() =~= idx.take(p));
    assert(dims.take(p + 1).drop_last() =~= dims.take(p));
    assert(t.last() == idx[p]);
    assert(dims.take(p + 1)[t.len() - 1] == dims[p]);
}

/// The row-major position of the multi-index `idx` among extents `dims`:
/// each axis scales what lies to its left by its extent.
pub open spec fn black_flat(dims: Seq<usize>, idx: Seq<usize>) -> int
    decreases dims.len(),
{
    if dims.len() == 0 || idx.len() == 0 {
        0
    } else {
        black_flat(dims.drop_last(), idx.drop_last()) * (dims.last() as int) + idx.last() as int
    }
}

/// `idx` has one entry per axis, each below its extent.
pub open spec fn black_in_range(dims: Seq<usize>, idx: Seq<usize>) -> bool {
    &&& idx.len() == dims.len()
    &&& forall|i: int| 0 <= i < dims.len() ==> #[trigger] idx[i] < dims[i]
}

proof fn lemma_flat_nonneg(dims: Seq<usize>, idx: Seq<usize>)
    ensures
        black_flat(dims, idx) >= 0,
    decreases dims.len(),
{
    if dims.len() > 0 && idx.len() > 0 {
        lemma_flat_nonneg(dims.drop_last(), idx.drop_last());
        let a = black_flat(dims.drop_last(), idx.drop_last());
        let l = dims.last() as int;
        assert(a * l >= 0) by (nonlinear_arith)
            requires
                a >= 0,
                l >= 0,
        ;
    }
}

/// A position in range lies below the element count, and the positions of
/// the leading axes alone never exceed it.
pub proof fn lemma_flat_bound(dims: Seq<usize>, idx: Seq<usize>)
    requires
        black_in_range(dims, idx),
    ensures
        0 <= black_flat(dims, idx) < black_product(dims),
        forall|k: int| 0 <= k <= dims.len() ==> black_flat(dims.take(k), idx.take(k)) <= black_flat(dims, idx),
    decreases dims.len(),
{
    lemma_flat_nonneg(dims, idx);
    if dims.len() > 0 {
        let dl = dims.drop_last();
        let il = idx.drop_last();
        assert(black_in_range(dl, il));
        lemma_flat_bound(dl, il);
        let a = black_flat(dl, il);
        let p = black_product(dl) as int;
        let l = dims.last() as int;
        let x = idx.last() as int;
        assert(x < l);
        assert(a * l + x < p * l) by (nonlinear_arith)
            requires
                0 <= a < p,
                0 <= x < l,
        ;
        assert(a <= a * l + x) by (nonlinear_arith)
            requires
                a >= 0,
                0 <= x < l,
        ;
        assert forall|k: int| 0 <= k <= dims.len() implies black_flat(dims.take(k), idx.take(k)) <= black_flat(
            dims,
            idx,
        ) by {
            if k < dims.len() {
                assert(dims.take(k) =~= dl.take(k));
                assert(idx.take(k) =~= il.take(k));
            } else {
                assert(dims.take(k) =~= dims);
                assert(idx.take(k) =~= idx);
            }
        }
    } else {
        assert(dims.take(0) =~= dims);
    }
}

/// The row-major position of `black_idx` among extents `black_dims`, or
/// `None` when the index has the wrong length, an entry at or past its
/// extent, or a position past `usize`.
pub fn black_flat_index(black_dims: &[usize], black_idx: &[usize]) -> (r: Option<usize>)
    ensures
        r == (if black_in_range(black_dims@, black_idx@) && black_flat(black_dims@, black_idx@) <= usize::MAX {
            Some(black_flat(black_dims@, black_idx@) as usize)
        } else {
            None::<usize>
        }),
{
    let ghost d = black_dims@;
    let ghost x = black_idx@;
    if black_dims.len() != black_idx.len() {
        return None;
    }
    let mut black_acc: usize = 0;
    let mut black_k: usize = 0;
    while black_k < black_dims.len()
        invariant
            d == black_dims@,
            x == black_idx@,
            d.len() == x.len(),
            black_k <= d.len(),
            black_in_range(d.take(black_k as int), x.take(black_k as int)),
            black_acc == black_flat(d.take(black_k as int), x.take(black_k as int)),
        decreases d.len() - black_k,
    {
        let ghost dk = d.take(black_k + 1);
        let ghost xk = x.take(black_k + 1);
        assert(dk.drop_last() =~= d.take(black_k as int));
        assert(xk.drop_last() =~= x.take(black_k as int));
        if black_idx[black_k] >= black_dims[black_k] {
            assert(!black_in_range(d, x)) by {
                assert(x[black_k as int] >= d[black_k as int]);
            }
            return None;
        }
        let black_next = match black_acc.checked_mul(black_dims[black_k]) {
            Some(black_p) => black_p.checked_add(black_idx[black_k]),
            None => None,
        };
        match black_next {
            Some(black_v) => {
                black_acc = black_v;
            },
            None => {
                proof {
                    assert(black_flat(dk, xk) > usize::MAX);
                    if black_in_range(d, x) {
                        lemma_flat_bound(d, x);
                    }
                }
                return None;
            },
        }
        black_k = black_k + 1;
        proof {
            assert(black_in_range(dk, xk));
        }
    }
    proof {
        assert(d.take(d.len() as int) =~= d);
        assert(x.take(x.len() as int) =~= x);
    }
    Some(black_acc)
}

} // verus!
