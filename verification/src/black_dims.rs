//! Reading a requested shape whose extents are signed, where one extent may
//! be given as `-1` and is then inferred from the number of elements.
use crate::black_math::black_product;
use vstd::prelude::*;

verus! {

/// Why a requested shape cannot be read.
#[derive(Debug, Clone, Copy, PartialEq, Eq, Structural)]
pub enum BlackDimsError {
    /// More than one extent is `-1`.
    BlackTwoInferred,
    /// An extent is below `-1`.
    BlackNegativeDim { black_dim: i64 },
    /// An extent is to be inferred but another extent is zero.
    BlackZeroInfer,
}

/// The `i`-th extent is refused: it is below `-1`, or it is a second `-1`.
pub open spec fn black_bad_at(d: Seq<i64>, i: int) -> bool {
    d[i] < -1 || (d[i] == -1 && exists|j: int| 0 <= j < i && d[j] == -1)
}

/// The `m`-th extent is the first one refused.
pub open spec fn black_first_bad(d: Seq<i64>, m: int) -> bool {
    &&& 0 <= m < d.len()
    &&& black_bad_at(d, m)
    &&& forall|j: int| 0 <= j < m ==> !black_bad_at(d, j)
}

/// The product of the extents that are not negative.
pub open spec fn black_known_product(d: Seq<i64>) -> int
    decreases d.len(),
{
    if d.len() == 0 {
        1
    } else {
        black_known_product(d.drop_last()) * (if d.last() >= 0 {
            d.last() as int
        } else {
            1
        })
    }
}

/// The extents are read in order; every running product of the extents
/// read before the first refused one fits in a `usize`, as does each
/// extent.
pub open spec fn black_dims_fit(d: Seq<i64>) -> bool {
    &&& forall|i: int| 0 <= i < d.len() && d[i] >= 0 ==> #[trigger] d[i] <= usize::MAX
    &&& forall|k: int|
        0 <= k <= d.len() && (forall|j: int| 0 <= j < k ==> !black_bad_at(d, j)) ==> #[trigger] black_known_product(
            d.take(k),
        ) <= usize::MAX
}

/// What a requested shape reads as, for `numel` elements: the first refused
/// extent decides the error; otherwise a `-1` extent becomes the number of
/// elements divided by the product of the others, which must not be zero.
pub open spec fn black_infer_result(d: Seq<i64>, numel: nat) -> Result<Seq<usize>, BlackDimsError> {
    if exists|m: int| black_first_bad(d, m) {
        let m = choose|m: int| black_first_bad(d, m);
        if d[m] == -1 {
            Err(BlackDimsError::BlackTwoInferred)
        } else {
            Err(BlackDimsError::BlackNegativeDim { black_dim: d[m] })
        }
    } else if exists|q: int| 0 <= q < d.len() && d[q] == -1 {
        let q = choose|q: int| 0 <= q < d.len() && d[q] == -1;
        let k = black_known_product(d);
        if k == 0 {
            Err(BlackDimsError::BlackZeroInfer)
        } else {
            Ok(Seq::new(d.len(), |i: int| if i == q { (numel / (k as nat)) as usize } else { d[i] as usize }))
        }
    } else {
        Ok(Seq::new(d.len(), |i: int| d[i] as usize))
    }
}

proof fn lemma_first_bad_unique(d: Seq<i64>, a: int, b: int)
    requires
        black_first_bad(d, a),
        black_first_bad(d, b),
    ensures
        a == b,
{
}

/// Reads a requested shape, with at most one extent given as `-1`, for a
/// tensor of `black_numel` elements.
pub fn black_infer_dims(black_dims: &Vec<i64>, black_numel: usize) -> (r: Result<Vec<usize>, BlackDimsError>)
    requires
        black_dims_fit(black_dims@),
    ensures
        match r {
            Ok(v) => black_infer_result(black_dims@, black_numel as nat) == Ok::<
                Seq<usize>,
                BlackDimsError,
            >(v@),
            Err(e) => black_infer_result(black_dims@, black_numel as nat) == Err::<
                Seq<usize>,
                BlackDimsError,
            >(e),
        },
{
    let ghost d = black_dims@;
    let mut black_inferred: Option<usize> = None;
    let mut black_known: usize = 1;
    let mut i: usize = 0;
    assert(d.take(0) =~= Seq::<i64>::empty());
    while i < black_dims.len()
        invariant
            d == black_dims@,
            black_dims_fit(d),
            0 <= i <= d.len(),
            forall|j: int| 0 <= j < i ==> !black_bad_at(d, j),
            black_known as int == black_known_product(d.take(i as int)),
            match black_inferred {
                Some(q) => q < i && d[q as int] == -1,
                None => forall|j: int| 0 <= j < i ==> d[j] != -1,
            },
        decreases d.len() - i,
    {
        let black_d = black_dims[i];
        if black_d == -1 {
            if black_inferred.is_some() {
                proof {
                    assert(black_bad_at(d, i as int));
                    assert(black_first_bad(d, i as int));
                    let m = choose|m: int| black_first_bad(d, m);
                    lemma_first_bad_unique(d, m, i as int);
                }
                return Err(BlackDimsError::BlackTwoInferred);
            }
            black_inferred = Some(i);
        } else if black_d < 0 {
            proof {
                assert(black_first_bad(d, i as int));
                let m = choose|m: int| black_first_bad(d, m);
                lemma_first_bad_unique(d, m, i as int);
            }
            return Err(BlackDimsError::BlackNegativeDim { black_dim: black_d });
        } else {
            proof {
                assert(!black_bad_at(d, i as int));
                assert(forall|j: int| 0 <= j < i + 1 ==> !black_bad_at(d, j));
                assert(black_known_product(d.take(i + 1)) <= usize::MAX);
                assert(d.take(i + 1).drop_last() =~= d.take(i as int));
                assert(d[i as int] <= usize::MAX);
            }
            black_known = black_known * (black_d as usize);
        }
        proof {
            assert(d.take(i + 1).drop_last() =~= d.take(i as int));
            assert(!black_bad_at(d, i as int));
        }
        i = i + 1;
    }
    assert(d.take(d.len() as int) =~= d);
    assert(!exists|m: int| black_first_bad(d, m));
    let mut r: Vec<usize> = Vec::new();
    match black_inferred {
        Some(q) => {
            if black_known == 0 {
                return Err(BlackDimsError::BlackZeroInfer);
            }
            let black_fill = black_numel / black_known;
            let mut t: usize = 0;
            while t < black_dims.len()
                invariant
                    d == black_dims@,
                    q < d.len(),
                    t <= d.len(),
                    black_known > 0,
                    black_fill == black_numel / black_known,
                    r@.len() == t,
                    forall|j: int|
                        0 <= j < t ==> #[trigger] r@[j] == (if j == q as int {
                            black_fill
                        } else {
                            d[j] as usize
                        }),
                decreases d.len() - t,
            {
                if t == q {
                    r.push(black_fill);
                } else {
                    r.push(black_dims[t] as usize);
                }
                t = t + 1;
            }
            proof {
                let qq = choose|qq: int| 0 <= qq < d.len() && d[qq] == -1;
                if qq != q as int {
                    let hi = if qq < q as int { q as int } else { qq };
                    assert(black_bad_at(d, hi));
                }
                assert(r@ =~= Seq::new(d.len(), |j: int| if j == qq { (black_numel as nat / (black_known as nat)) as usize } else { d[j] as usize }));
            }
        },
        None => {
            let mut t: usize = 0;
            while t < black_dims.len()
                invariant
                    d == black_dims@,
                    t <= d.len(),
                    r@.len() == t,
                    forall|j: int| 0 <= j < t ==> #[trigger] r@[j] == d[j] as usize,
                decreases d.len() - t,
            {
                r.push(black_dims[t] as usize);
                t = t + 1;
            }
            assert(r@ =~= Seq::new(d.len(), |j: int| d[j] as usize));
        },
    }
    Ok(r)
}

/// Whether a requested shape can be read without an overflowing product:
/// the test to make before [`black_infer_dims`].
pub fn black_known_fits(black_dims: &Vec<i64>) -> (r: bool)
    ensures
        r == black_dims_fit(black_dims@),
{
    let ghost d = black_dims@;
    let mut i: usize = 0;
    while i < black_dims.len()
        invariant
            d == black_dims@,
            i <= d.len(),
            forall|j: int| 0 <= j < i && d[j] >= 0 ==> #[trigger] d[j] <= usize::MAX,
        decreases d.len() - i,
    {
        if black_dims[i] >= 0 && (black_dims[i] as u64) > (usize::MAX as u64) {
            return false;
        }
        i = i + 1;
    }
    let mut black_known: usize = 1;
    let mut black_seen = false;
    let mut i: usize = 0;
    assert(d.take(0) =~= Seq::<i64>::empty());
    while i < black_dims.len()
        invariant
            d == black_dims@,
            i <= d.len(),
            forall|j: int| 0 <= j < d.len() && d[j] >= 0 ==> #[trigger] d[j] <= usize::MAX,
            forall|j: int| 0 <= j < i ==> !black_bad_at(d, j),
            black_known as int == black_known_product(d.take(i as int)),
            black_seen <==> exists|j: int| 0 <= j < i && d[j] == -1,
            forall|k: int| 0 <= k <= i ==> #[trigger] black_known_product(d.take(k)) <= usize::MAX,
        decreases d.len() - i,
    {
        let black_x = black_dims[i];
        if black_x < -1 || (black_x == -1 && black_seen) {
            proof {
                assert(black_bad_at(d, i as int));
                assert forall|k: int|
                    0 <= k <= d.len() && (forall|j: int| 0 <= j < k ==> !black_bad_at(d, j)) implies #[trigger] black_known_product(
                    d.take(k),
                ) <= usize::MAX by {
                    if k > i {
                        assert(!black_bad_at(d, i as int));
                    }
                }
            }
            return true;
        }
        proof {
            assert(!black_bad_at(d, i as int));
            assert(d.take(i + 1).drop_last() =~= d.take(i as int));
        }
        if black_x == -1 {
            black_seen = true;
        } else {
            match black_known.checked_mul(black_x as usize) {
                Some(black_p) => {
                    black_known = black_p;
                },
                None => {
                    proof {
                        assert(forall|j: int| 0 <= j < i + 1 ==> !black_bad_at(d, j));
                        assert(d.take(i + 1).last() == black_x);
                        assert(black_known_product(d.take(i + 1)) == black_known as int * black_x as int);
                        assert(black_known_product(d.take(i + 1)) > usize::MAX);
                    }
                    return false;
                },
            }
        }
        i = i + 1;
    }
    true
}

/// The extents with the `q`-th replaced by `x`: the known product times `x`.
proof fn lemma_product_with_fill(d: Seq<i64>, q: int, x: usize)
    requires
        0 <= q < d.len(),
        d[q] == -1,
        forall|i: int| 0 <= i < d.len() && i != q ==> 0 <= #[trigger] d[i] <= usize::MAX,
    ensures
        black_product(Seq::new(d.len(), |i: int| if i == q { x } else { d[i] as usize }))
            == black_known_product(d) * x,
    decreases d.len(),
{
    let v = Seq::new(d.len(), |i: int| if i == q { x } else { d[i] as usize });
    let n = d.len() - 1;
    if q == n {
        let dl = d.drop_last();
        let w = Seq::new(dl.len(), |i: int| dl[i] as usize);
        assert(v.drop_last() =~= w);
        lemma_product_plain(dl);
        assert(black_known_product(d) == black_known_product(dl));
        assert(black_product(v) == black_product(w) * x);
    } else {
        let dl = d.drop_last();
        assert(v.drop_last() =~= Seq::new(dl.len(), |i: int| if i == q { x } else { dl[i] as usize }));
        lemma_product_with_fill(dl, q, x);
        let a = black_known_product(dl);
        let l = d[n] as int;
        assert(black_product(v) == a * x * l);
        assert(black_known_product(d) == a * l);
        assert(a * x * l == a * l * x) by (nonlinear_arith);
    }
}

proof fn lemma_known_product_nonneg(d: Seq<i64>)
    ensures
        black_known_product(d) >= 0,
    decreases d.len(),
{
    if d.len() > 0 {
        lemma_known_product_nonneg(d.drop_last());
        let f: int = if d.last() >= 0 {
            d.last() as int
        } else {
            1
        };
        let p = black_known_product(d.drop_last());
        assert(p * f >= 0) by (nonlinear_arith)
            requires
                p >= 0,
                f >= 0,
        ;
    }
}

/// Extents that are none of them negative multiply out to their product.
proof fn lemma_product_plain(d: Seq<i64>)
    requires
        forall|i: int| 0 <= i < d.len() ==> 0 <= #[trigger] d[i] <= usize::MAX,
    ensures
        black_product(Seq::new(d.len(), |i: int| d[i] as usize)) == black_known_product(d),
    decreases d.len(),
{
    if d.len() > 0 {
        let dl = d.drop_last();
        assert(Seq::new(d.len(), |i: int| d[i] as usize).drop_last() =~= Seq::new(dl.len(), |i: int| dl[i] as usize));
        lemma_product_plain(dl);
    }
}

/// A shape read with one extent left to inference holds exactly the given
/// number of elements whenever the other extents divide it.
pub proof fn lemma_inferred_dims_count(d: Seq<i64>, numel: nat, q: int)
    requires
        black_dims_fit(d),
        0 <= q < d.len(),
        d[q] == -1,
        black_infer_result(d, numel) is Ok,
        numel <= usize::MAX,
        numel % (black_known_product(d) as nat) == 0,
    ensures
        black_product(black_infer_result(d, numel)->Ok_0) == numel,
{
    assert(!exists|m: int| black_first_bad(d, m));
    let qq = choose|qq: int| 0 <= qq < d.len() && d[qq] == -1;
    if qq != q {
        let hi = if qq < q { q } else { qq };
        assert(black_bad_at(d, hi));
        assert(black_first_bad(d, hi) || exists|m: int| black_first_bad(d, m)) by {
            assert(!black_first_bad(d, hi) ==> exists|j: int| 0 <= j < hi && black_bad_at(d, j));
            if !black_first_bad(d, hi) {
                let j0 = choose|j: int| 0 <= j < hi && black_bad_at(d, j);
                lemma_some_first_bad(d, j0);
            }
        }
    }
    let k = black_known_product(d);
    assert forall|i: int| 0 <= i < d.len() && i != q implies 0 <= #[trigger] d[i] <= usize::MAX by {
        if d[i] < 0 {
            if d[i] < -1 {
                lemma_some_first_bad(d, i);
            } else {
                let hi = if i < q { q } else { i };
                assert(black_bad_at(d, hi));
                lemma_some_first_bad(d, hi);
            }
        }
    }
    let x = (numel / (k as nat)) as usize;
    lemma_product_with_fill(d, q, x);
    lemma_known_product_nonneg(d);
    assert(k > 0);
    assert((numel / (k as nat)) * k == numel) by (nonlinear_arith)
        requires
            k > 0,
            numel % (k as nat) == 0,
    ;
    assert(k * x == numel) by (nonlinear_arith)
        requires
            x == numel / (k as nat),
            (numel / (k as nat)) * k == numel,
    ;
}

/// Some extent is refused, so there is a first one.
proof fn lemma_some_first_bad(d: Seq<i64>, i: int)
    requires
        0 <= i < d.len(),
        black_bad_at(d, i),
    ensures
        exists|m: int| black_first_bad(d, m),
    decreases i,
{
    if !black_first_bad(d, i) {
        let j = choose|j: int| 0 <= j < i && black_bad_at(d, j);
        lemma_some_first_bad(d, j);
    }
}

} // verus!
