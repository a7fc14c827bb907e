use vstd::prelude::*;
use vstd::arithmetic::mul::*;

verus! {

/// The product of a list of extents; the empty product is 1.
pub open spec fn black_product(dims: Seq<usize>) -> nat
    decreases dims.len(),
{
    if dims.len() == 0 {
        1
    } else {
        black_product(dims.drop_last()) * (dims.last() as nat)
    }
}

/// Every running product of `dims`, taken left to right, fits in a `usize`:
/// multiplying the extents out in order does not overflow.
pub open spec fn black_prefix_products_fit(dims: Seq<usize>) -> bool {
    forall|k: int| 0 <= k <= dims.len() ==> black_product(#[trigger] dims.take(k)) <= usize::MAX
}

/// The product of a concatenation is the product of the products.
pub proof fn lemma_product_concat(a: Seq<usize>, b: Seq<usize>)
    ensures
        black_product(a + b) == black_product(a) * black_product(b),
    decreases b.len(),
{
    if b.len() == 0 {
        assert(a + b =~= a);
        assert(black_product(b) == 1);
    } else {
        assert((a + b).drop_last() =~= a + b.drop_last());
        assert((a + b).last() == b.last());
        lemma_product_concat(a, b.drop_last());
        lemma_mul_is_associative(
            black_product(a) as int,
            black_product(b.drop_last()) as int,
            b.last() as int,
        );
    }
}

/// Splitting a list at `k` splits its product.
pub proof fn lemma_product_split(dims: Seq<usize>, k: int)
    requires
        0 <= k <= dims.len(),
    ensures
        black_product(dims) == black_product(dims.subrange(0, k)) * black_product(
            dims.subrange(k, dims.len() as int),
        ),
{
    assert(dims =~= dims.subrange(0, k) + dims.subrange(k, dims.len() as int));
    lemma_product_concat(dims.subrange(0, k), dims.subrange(k, dims.len() as int));
}

/// The product of one extent is that extent.
pub proof fn lemma_product_single(d: usize)
    ensures
        black_product(seq![d]) == d,
{
    assert(seq![d].drop_last() =~= Seq::<usize>::empty());
    assert(black_product(Seq::<usize>::empty()) == 1);
    assert(seq![d].last() == d);
    assert(seq![d].len() == 1);
    assert(black_product(seq![d]) == black_product(seq![d].drop_last()) * (d as nat));
}

/// Taking one more extent from the front multiplies the product by it.
pub proof fn lemma_product_prepend(dims: Seq<usize>, i: int)
    requires
        0 <= i < dims.len(),
    ensures
        black_product(dims.subrange(i, dims.len() as int)) == (dims[i] as nat) * black_product(
            dims.subrange(i + 1, dims.len() as int),
        ),
{
    let s = dims.subrange(i, dims.len() as int);
    assert(s =~= seq![dims[i]] + dims.subrange(i + 1, dims.len() as int));
    lemma_product_concat(seq![dims[i]], dims.subrange(i + 1, dims.len() as int));
    lemma_product_single(dims[i]);
}

/// A factor of a product of naturals is at most the product, when the
/// product is positive.
pub proof fn lemma_factor_le(a: nat, b: nat)
    requires
        b > 0,
    ensures
        a <= a * b,
{
    assert(a <= a * b) by (nonlinear_arith)
        requires
            b > 0,
    ;
}

/// Swapping two extents leaves the product unchanged.
pub proof fn lemma_product_swap(dims: Seq<usize>, i: int, j: int)
    requires
        0 <= i < dims.len(),
        0 <= j < dims.len(),
    ensures
        black_product(dims.update(i, dims[j]).update(j, dims[i])) == black_product(dims),
    decreases dims.len(),
{
    let s = dims.update(i, dims[j]).update(j, dims[i]);
    if i == j {
        assert(s =~= dims);
    } else if i == dims.len() - 1 || j == dims.len() - 1 {
        let (lo, hi) = if i < j { (i, j) } else { (j, i) };
        // hi is the last position; bring dims[lo] to the end by a split.
        let n = dims.len() as int;
        let pre = dims.subrange(0, lo);
        let mid = dims.subrange(lo + 1, n - 1);
        assert(dims =~= pre + seq![dims[lo]] + mid + seq![dims[n - 1]]);
        assert(s =~= pre + seq![dims[n - 1]] + mid + seq![dims[lo]]);
        lemma_product_concat(pre + seq![dims[lo]] + mid, seq![dims[n - 1]]);
        lemma_product_concat(pre + seq![dims[lo]], mid);
        lemma_product_concat(pre, seq![dims[lo]]);
        lemma_product_concat(pre + seq![dims[n - 1]] + mid, seq![dims[lo]]);
        lemma_product_concat(pre + seq![dims[n - 1]], mid);
        lemma_product_concat(pre, seq![dims[n - 1]]);
        lemma_product_single(dims[lo]);
        lemma_product_single(dims[n - 1]);
        let p = black_product(pre) as int;
        let m = black_product(mid) as int;
        let x = dims[lo] as int;
        let y = dims[n - 1] as int;
        assert(p * x * m * y == p * y * m * x) by (nonlinear_arith);
    } else {
        let n = dims.len() as int;
        assert(s.drop_last() =~= dims.drop_last().update(i, dims[j]).update(j, dims[i]));
        lemma_product_swap(dims.drop_last(), i, j);
        assert(s.last() == dims.last());
    }
}

} // verus!
