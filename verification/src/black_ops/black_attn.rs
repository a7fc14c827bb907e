//! The causal mask of attention scores: which scores a query may not see.
use vstd::prelude::*;
use vstd::arithmetic::div_mod::lemma_fundamental_div_mod_converse;

verus! {

/// Score `p` of a stack of `batch` score matrices of `q` rows and `l`
/// columns, laid out row-major, lies above the diagonal: its column is past
/// its row.
pub open spec fn black_causal_masked(batch: int, q: int, l: int, p: int) -> bool {
    &&& q * l > 0
    &&& 0 <= p < batch * q * l
    &&& (p % (q * l)) % l > (p % (q * l)) / l
}

/// For each of the first `black_len` scores, whether the causal mask hides
/// it.
pub fn black_causal_mask(black_batch: usize, black_q: usize, black_l: usize, black_len: usize) -> (r: Vec<bool>)
    requires
        black_batch * black_q * black_l <= usize::MAX,
    ensures
        r@ == Seq::new(black_len as nat, |p: int| black_causal_masked(black_batch as int, black_q as int, black_l as int, p)),
{
    proof {
        assert(black_q * black_l <= black_batch * black_q * black_l || black_batch == 0) by (nonlinear_arith)
            requires
                black_batch * black_q * black_l <= usize::MAX,
        ;
    }
    let mut r: Vec<bool> = Vec::new();
    let mut black_p: usize = 0;
    if black_batch == 0 {
        assert(black_batch * black_q * black_l == 0) by (nonlinear_arith)
            requires
                black_batch == 0,
        ;
        while black_p < black_len
            invariant
                black_batch == 0,
                black_batch * black_q * black_l == 0,
                black_p <= black_len,
                r@ == Seq::new(black_p as nat, |p: int| black_causal_masked(black_batch as int, black_q as int, black_l as int, p)),
            decreases black_len - black_p,
        {
            r.push(false);
            black_p = black_p + 1;
            assert(r@ =~= Seq::new(black_p as nat, |p: int| black_causal_masked(black_batch as int, black_q as int, black_l as int, p)));
        }
        return r;
    }
    let black_per = black_q * black_l;
    proof {
        assert(black_batch * black_per == black_batch * black_q * black_l) by (nonlinear_arith)
            requires
                black_per == black_q * black_l,
        ;
    }
    let black_total = black_batch * black_per;
    while black_p < black_len
        invariant
            black_per == black_q * black_l,
            black_total == black_batch * black_q * black_l,
            black_p <= black_len,
            r@ == Seq::new(black_p as nat, |p: int| black_causal_masked(black_batch as int, black_q as int, black_l as int, p)),
        decreases black_len - black_p,
    {
        let black_m = if black_per == 0 || black_p >= black_total {
            false
        } else {
            let black_in = black_p % black_per;
            black_in % black_l > black_in / black_l
        };
        r.push(black_m);
        black_p = black_p + 1;
        assert(r@ =~= Seq::new(black_p as nat, |p: int| black_causal_masked(black_batch as int, black_q as int, black_l as int, p)));
    }
    r
}

/// The causal mask hides exactly the future keys: in matrix `b`, the score
/// of query `i` for key `j` is hidden if and only if `j > i`, however far
/// past `i` the key lies.
pub proof fn lemma_causal_mask_hides_future(batch: int, q: int, l: int, b: int, i: int, j: int)
    requires
        0 <= b < batch,
        0 <= i < q,
        0 <= j < l,
    ensures
        black_causal_masked(batch, q, l, b * (q * l) + i * l + j) == (j > i),
{
    let ql = q * l;
    assert(ql > 0 && i * l + j < ql) by (nonlinear_arith)
        requires
            0 <= i < q,
            0 <= j < l,
            ql == q * l,
    ;
    assert(0 <= i * l) by (nonlinear_arith)
        requires
            0 <= i,
            0 <= l,
    ;
    let p = b * ql + (i * l + j);
    lemma_fundamental_div_mod_converse(p, ql, b, i * l + j);
    lemma_fundamental_div_mod_converse(i * l + j, l, i, j);
    assert(0 <= p < batch * q * l) by (nonlinear_arith)
        requires
            0 <= b < batch,
            0 <= i * l + j < ql,
            ql == q * l,
            p == b * ql + (i * l + j),
    ;
    assert(b * (q * l) + i * l + j == p);
}

/// Scores past the last matrix are never hidden.
pub proof fn lemma_causal_mask_tail(batch: int, q: int, l: int, p: int)
    requires
        p >= batch * q * l,
    ensures
        !black_causal_masked(batch, q, l, p),
{
}

} // verus!
