//! The bookkeeping of the host memory pool: the blocks given back, held in
//! one list per size class, and which request reuses which block.
use crate::black_memory::{black_bucket_policy_ok, black_is_doubling, BlackBucketPolicy};
use vstd::arithmetic::power2::{lemma_pow2_strictly_increases, lemma_pow2_unfold, pow2};
use std::collections::HashMap;
use vstd::prelude::*;

verus! {

broadcast use vstd::std_specs::hash::group_hash_axioms;

/// A block of host memory: where it starts, and the size and alignment it
/// was allocated with. The address 0 is the empty block.
#[derive(Debug, Clone, Copy, PartialEq, Eq, Structural)]
pub struct BlackPoolBlock {
    pub black_addr: usize,
    pub black_size: usize,
    pub black_align: usize,
}

/// How the pool serves a request.
#[derive(Debug, Clone, Copy, PartialEq, Eq, Structural)]
pub enum BlackPoolGrant {
    /// A request of no bytes gets the empty block.
    BlackEmpty,
    /// A block given back earlier to the request's class is handed out again.
    BlackReuse { black_bucket: usize, black_block: BlackPoolBlock },
    /// The class holds no block: a fresh block of the class's size is due.
    BlackFresh { black_bucket: usize },
}

/// `b` is the size class of a request of `size` bytes: the smallest class
/// holding it, or the first class at or past the largest one.
pub open spec fn black_is_bucket_of(p: BlackBucketPolicy, size: usize, b: usize) -> bool {
    &&& black_is_doubling(p.black_min_bucket as nat, b as nat)
    &&& b >= p.black_min_bucket
    &&& (b >= size || b >= p.black_max_bucket)
    &&& (b > p.black_min_bucket ==> b / 2 < size && b / 2 < p.black_max_bucket)
}

/// The blocks a class holds, most recently given back last.
pub open spec fn black_bucket_list(held: Map<usize, Seq<BlackPoolBlock>>, b: usize) -> Seq<BlackPoolBlock> {
    if held.contains_key(b) {
        held[b]
    } else {
        Seq::empty()
    }
}

/// The lists after `blk` is given back to class `b`.
pub open spec fn black_after_release(
    held: Map<usize, Seq<BlackPoolBlock>>,
    b: usize,
    blk: BlackPoolBlock,
) -> Map<usize, Seq<BlackPoolBlock>> {
    held.insert(b, black_bucket_list(held, b).push(blk))
}

/// What a request of class `b` is granted, and the lists after it: the
/// block given back last to the class, or a fresh block.
pub open spec fn black_grant_from(held: Map<usize, Seq<BlackPoolBlock>>, b: usize) -> (
    BlackPoolGrant,
    Map<usize, Seq<BlackPoolBlock>>,
) {
    let l = black_bucket_list(held, b);
    if l.len() > 0 {
        (
            BlackPoolGrant::BlackReuse { black_bucket: b, black_block: l.last() },
            held.insert(b, l.drop_last()),
        )
    } else {
        (BlackPoolGrant::BlackFresh { black_bucket: b }, held)
    }
}

/// The blocks of the classes `ks`, class after class.
pub open spec fn black_flatten(held: Map<usize, Seq<BlackPoolBlock>>, ks: Seq<usize>) -> Seq<BlackPoolBlock>
    decreases ks.len(),
{
    if ks.len() == 0 {
        Seq::empty()
    } else {
        black_flatten(held, ks.drop_last()) + black_bucket_list(held, ks.last())
    }
}

/// The free lists of a pool with their size classes.
pub struct BlackPoolBook {
    black_lists: HashMap<usize, Vec<BlackPoolBlock>>,
    black_classes: Vec<usize>,
    black_policy: BlackBucketPolicy,
}

impl BlackPoolBook {
    #[verifier::type_invariant]
    spec fn black_wf(self) -> bool {
        &&& black_bucket_policy_ok(self.black_policy)
        &&& self.black_classes@.no_duplicates()
        &&& self.black_classes@.to_set() == self.black_lists@.dom()
    }

    /// The blocks held, per class.
    pub closed spec fn black_held(self) -> Map<usize, Seq<BlackPoolBlock>> {
        Map::new(|k: usize| self.black_lists@.contains_key(k), |k: usize| self.black_lists@[k]@)
    }

    /// The size classes.
    pub closed spec fn black_policy_of(self) -> BlackBucketPolicy {
        self.black_policy
    }

    /// An empty pool with classes from 64 bytes to 2 GiB.
    pub fn black_new() -> (r: Self)
        ensures
            r.black_held() == Map::<usize, Seq<BlackPoolBlock>>::empty(),
            r.black_policy_of().black_min_bucket == 64,
            r.black_policy_of().black_max_bucket == 2 * 1024 * 1024 * 1024,
    {
        let black_lists: HashMap<usize, Vec<BlackPoolBlock>> = HashMap::new();
        let black_classes: Vec<usize> = Vec::new();
        assert(black_classes@.to_set() =~= black_lists@.dom());
        let r = BlackPoolBook { black_lists, black_classes, black_policy: BlackBucketPolicy::black_new() };
        assert(r.black_held() =~= Map::<usize, Seq<BlackPoolBlock>>::empty());
        r
    }

    /// Takes the lists out, leaving an empty pool in their place.
    fn black_take_out(&mut self) -> (r: (HashMap<usize, Vec<BlackPoolBlock>>, Vec<usize>, BlackBucketPolicy))
        ensures
            black_bucket_policy_ok(r.2),
            r.1@.no_duplicates(),
            r.1@.to_set() == r.0@.dom(),
            r.2 == old(self).black_policy_of(),
            Map::new(|k: usize| r.0@.contains_key(k), |k: usize| r.0@[k]@) == old(self).black_held(),
    {
        let mut black_book = BlackPoolBook::black_new();
        std::mem::swap(&mut black_book, self);
        proof {
            use_type_invariant(&black_book);
        }
        let BlackPoolBook { black_lists, black_classes, black_policy } = black_book;
        (black_lists, black_classes, black_policy)
    }

    /// Serves a request of `black_size` bytes: nothing for no bytes; else
    /// the block given back last to the request's class, which leaves the
    /// class, or, when the class holds none, a fresh block of the class.
    pub fn black_grant(&mut self, black_size: usize) -> (r: BlackPoolGrant)
        ensures
            final(self).black_policy_of() == old(self).black_policy_of(),
            black_size == 0 ==> r == BlackPoolGrant::BlackEmpty && final(self).black_held() == old(
                self,
            ).black_held(),
            black_size > 0 ==> exists|b: usize|
                black_is_bucket_of(old(self).black_policy_of(), black_size, b) && (r, final(self).black_held())
                    == black_grant_from(old(self).black_held(), b),
    {
        if black_size == 0 {
            return BlackPoolGrant::BlackEmpty;
        }
        let ghost held0 = self.black_held();
        let (mut black_lists, black_classes, black_policy) = self.black_take_out();
        let ghost dom0 = black_lists@.dom();
        let black_b = black_policy.black_bucket_size(black_size);
        let r = match black_lists.remove(&black_b) {
            None => BlackPoolGrant::BlackFresh { black_bucket: black_b },
            Some(mut black_list) => {
                let black_popped = black_list.pop();
                black_lists.insert(black_b, black_list);
                match black_popped {
                    Some(black_blk) => BlackPoolGrant::BlackReuse { black_bucket: black_b, black_block: black_blk },
                    None => BlackPoolGrant::BlackFresh { black_bucket: black_b },
                }
            },
        };
        assert(black_lists@.dom() =~= dom0);
        *self = BlackPoolBook { black_lists, black_classes, black_policy };
        proof {
            let g = black_grant_from(held0, black_b);
            assert(self.black_held() =~= g.1);
        }
        r
    }

    /// Takes back a block: the empty block is ignored; any other joins the
    /// class of its size, to be handed out before the blocks given back to
    /// that class earlier.
    pub fn black_release(&mut self, black_block: BlackPoolBlock)
        ensures
            final(self).black_policy_of() == old(self).black_policy_of(),
            black_block.black_addr == 0 ==> final(self).black_held() == old(self).black_held(),
            black_block.black_addr != 0 ==> exists|b: usize|
                black_is_bucket_of(old(self).black_policy_of(), black_block.black_size, b)
                    && final(self).black_held() == black_after_release(old(self).black_held(), b, black_block),
    {
        if black_block.black_addr == 0 {
            return;
        }
        let ghost held0 = self.black_held();
        let (mut black_lists, mut black_classes, black_policy) = self.black_take_out();
        let black_b = black_policy.black_bucket_size(black_block.black_size);
        let ghost classes0 = black_classes@;
        let ghost dom0 = black_lists@.dom();
        let black_present = black_lists.contains_key(&black_b);
        let mut black_list = match black_lists.remove(&black_b) {
            Some(black_l) => black_l,
            None => Vec::new(),
        };
        if !black_present {
            black_classes.push(black_b);
        }
        black_list.push(black_block);
        black_lists.insert(black_b, black_list);
        proof {
            assert(black_lists@.dom() =~= dom0.insert(black_b));
            if !black_present {
                assert(black_classes@ == classes0.push(black_b));
                classes0.lemma_push_to_set_commute(black_b);
                assert(!classes0.contains(black_b)) by {
                    if classes0.contains(black_b) {
                        assert(classes0.to_set().contains(black_b));
                    }
                }
            } else {
                assert(classes0.to_set().contains(black_b));
                assert(black_classes@.to_set() =~= classes0.to_set().insert(black_b));
            }
            assert(black_classes@.no_duplicates());
        }
        *self = BlackPoolBook { black_lists, black_classes, black_policy };
        proof {
            assert(self.black_held() =~= black_after_release(held0, black_b, black_block));
        }
    }

    /// Hands over every block held, class after class in some order of the
    /// classes, and leaves the pool empty.
    pub fn black_drain(&mut self) -> (r: Vec<BlackPoolBlock>)
        ensures
            final(self).black_held() == Map::<usize, Seq<BlackPoolBlock>>::empty(),
            final(self).black_policy_of() == old(self).black_policy_of(),
            exists|ks: Seq<usize>|
                ks.no_duplicates() && ks.to_set() == old(self).black_held().dom() && r@ == black_flatten(
                    old(self).black_held(),
                    ks,
                ),
    {
        let ghost held0 = self.black_held();
        let (black_lists, black_classes, black_policy) = self.black_take_out();
        let ghost ks = black_classes@;
        assert(held0.dom() =~= black_lists@.dom());
        let mut r: Vec<BlackPoolBlock> = Vec::new();
        let mut i: usize = 0;
        while i < black_classes.len()
            invariant
                i <= black_classes.len(),
                ks == black_classes@,
                held0 == Map::new(|k: usize| black_lists@.contains_key(k), |k: usize| black_lists@[k]@),
                r@ == black_flatten(held0, ks.take(i as int)),
            decreases black_classes.len() - i,
        {
            let black_k = black_classes[i];
            proof {
                assert(ks.take(i + 1).drop_last() =~= ks.take(i as int));
            }
            match black_lists.get(&black_k) {
                Some(black_list) => {
                    let mut j: usize = 0;
                    let ghost r0 = r@;
                    while j < black_list.len()
                        invariant
                            j <= black_list.len(),
                            r@ == r0 + black_list@.take(j as int),
                        decreases black_list.len() - j,
                    {
                        r.push(black_list[j]);
                        proof {
                            assert(black_list@.take(j + 1) =~= black_list@.take(j as int).push(black_list@[j as int]));
                        }
                        j = j + 1;
                    }
                    proof {
                        assert(black_list@.take(black_list@.len() as int) =~= black_list@);
                    }
                },
                None => {
                    proof {
                        assert(r@ =~= r@ + Seq::<BlackPoolBlock>::empty());
                    }
                },
            }
            i = i + 1;
        }
        proof {
            assert(ks.take(ks.len() as int) =~= ks);
        }
        let black_empty_lists: HashMap<usize, Vec<BlackPoolBlock>> = HashMap::new();
        let black_empty_classes: Vec<usize> = Vec::new();
        assert(black_empty_classes@.to_set() =~= black_empty_lists@.dom());
        *self = BlackPoolBook { black_lists: black_empty_lists, black_classes: black_empty_classes, black_policy };
        assert(self.black_held() =~= Map::<usize, Seq<BlackPoolBlock>>::empty());
        r
    }
}

/// Of two doublings of `m`, the smaller is at most half the larger.
proof fn lemma_doubling_at_most_half(m: nat, lo: nat, hi: nat)
    requires
        black_is_doubling(m, lo),
        black_is_doubling(m, hi),
        lo < hi,
    ensures
        lo <= hi / 2,
{
    let i = choose|i: nat| lo == m * pow2(i);
    let j = choose|j: nat| hi == m * pow2(j);
    if i >= j {
        if i > j {
            lemma_pow2_strictly_increases(j, i);
        }
        assert(m * pow2(i) >= m * pow2(j)) by (nonlinear_arith)
            requires
                pow2(i) >= pow2(j),
        ;
    } else {
        lemma_pow2_unfold(j);
        let h = (j - 1) as nat;
        if i < h {
            lemma_pow2_strictly_increases(i, h);
        }
        assert(m * pow2(i) <= m * pow2(h)) by (nonlinear_arith)
            requires
                pow2(i) <= pow2(h),
        ;
        assert(m * pow2(j) == 2 * (m * pow2(h))) by (nonlinear_arith)
            requires
                pow2(j) == 2 * pow2(h),
        ;
    }
}

/// A request has one size class: the class that the pool's grant and
/// release speak of is determined by the request's size.
pub proof fn lemma_bucket_unique(p: BlackBucketPolicy, size: usize, b1: usize, b2: usize)
    requires
        black_is_bucket_of(p, size, b1),
        black_is_bucket_of(p, size, b2),
    ensures
        b1 == b2,
{
    if b1 < b2 {
        lemma_doubling_at_most_half(p.black_min_bucket as nat, b1 as nat, b2 as nat);
    } else if b2 < b1 {
        lemma_doubling_at_most_half(p.black_min_bucket as nat, b2 as nat, b1 as nat);
    }
}

/// A block given back is the next one handed out to a request of its
/// class, and handing it out leaves every class as it was before the block
/// came back.
pub proof fn lemma_release_then_grant(held: Map<usize, Seq<BlackPoolBlock>>, b: usize, blk: BlackPoolBlock)
    ensures
        black_grant_from(black_after_release(held, b, blk), b).0 == (BlackPoolGrant::BlackReuse {
            black_bucket: b,
            black_block: blk,
        }),
        forall|k: usize|
            black_bucket_list(black_grant_from(black_after_release(held, b, blk), b).1, k)
                == #[trigger] black_bucket_list(held, k),
{
    let after = black_after_release(held, b, blk);
    assert(black_bucket_list(after, b) == black_bucket_list(held, b).push(blk));
    assert(black_bucket_list(after, b).drop_last() =~= black_bucket_list(held, b));
}

} // verus!
