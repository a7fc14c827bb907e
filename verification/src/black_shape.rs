use vstd::prelude::*;
use crate::black_error::BlackError;
use crate::black_math::{black_product, black_prefix_products_fit};
use crate::black_msg::{black_msg_dim_index, black_msg_broadcast};

verus! {

/// Up to this many extents are held inline; longer shapes go to the heap.
pub const BLACK_MAX_STACK_RANK: usize = 8;

/// The extent of `dims` at position `i` counted from the right, padded with
/// 1 on the left: the alignment rule of broadcasting.
pub open spec fn black_dim_from_right(dims: Seq<usize>, i: int) -> int {
    if 0 <= i < dims.len() {
        dims[dims.len() - 1 - i] as int
    } else {
        1
    }
}

/// The larger of the two ranks.
pub open spec fn black_broadcast_rank(a: Seq<usize>, b: Seq<usize>) -> nat {
    if a.len() >= b.len() {
        a.len()
    } else {
        b.len()
    }
}

/// Two aligned extents broadcast when they agree or one of them is 1.
pub open spec fn black_extents_compatible(da: int, db: int) -> bool {
    da == db || da == 1 || db == 1
}

/// The extent two compatible aligned extents broadcast to.
pub open spec fn black_broadcast_extent(da: int, db: int) -> int {
    if da == 1 {
        db
    } else {
        da
    }
}

/// `a` and `b` broadcast: every right-aligned pair of extents is compatible.
pub open spec fn black_broadcastable(a: Seq<usize>, b: Seq<usize>) -> bool {
    forall|i: int|
        0 <= i < black_broadcast_rank(a, b) ==> black_extents_compatible(
            #[trigger] black_dim_from_right(a, i),
            black_dim_from_right(b, i),
        )
}

/// The broadcast shape of `a` and `b` (meaningful when they broadcast).
pub open spec fn black_broadcast_dims(a: Seq<usize>, b: Seq<usize>) -> Seq<usize> {
    let r = black_broadcast_rank(a, b) as int;
    Seq::new(
        r as nat,
        |j: int|
            black_broadcast_extent(
                black_dim_from_right(a, r - 1 - j),
                black_dim_from_right(b, r - 1 - j),
            ) as usize,
    )
}

/// A tensor shape: its extents, inline for small ranks and on the heap
/// beyond `BLACK_MAX_STACK_RANK`.
#[derive(Debug)]
pub struct BlackShape {
    black_dims_stack: [usize; BLACK_MAX_STACK_RANK],
    black_dims_heap: Option<Vec<usize>>,
    black_rank: usize,
}

impl View for BlackShape {
    type V = Seq<usize>;

    closed spec fn view(&self) -> Seq<usize> {
        match self.black_dims_heap {
            Some(h) => h@,
            None => self.black_dims_stack@.take(self.black_rank as int),
        }
    }
}

impl BlackShape {
    /// Small shapes live inline with zeros past the rank; large ones live on
    /// the heap with an all-zero inline part.
    #[verifier::type_invariant]
    spec fn black_wf(self) -> bool {
        match self.black_dims_heap {
            None => {
                &&& self.black_rank <= BLACK_MAX_STACK_RANK
                &&& forall|i: int|
                    self.black_rank <= i < BLACK_MAX_STACK_RANK ==> self.black_dims_stack[i] == 0
            },
            Some(h) => {
                &&& self.black_rank > BLACK_MAX_STACK_RANK
                &&& h.len() == self.black_rank
                &&& forall|i: int| 0 <= i < BLACK_MAX_STACK_RANK ==> self.black_dims_stack[i] == 0
            },
        }
    }

    /// The shape with the extents `black_dims`.
    pub fn black_new(black_dims: &[usize]) -> (r: Self)
        ensures
            r@ == black_dims@,
    {
        let black_rank = black_dims.len();
        if black_rank <= BLACK_MAX_STACK_RANK {
            let mut black_dims_stack = [0usize; BLACK_MAX_STACK_RANK];
            let mut black_i: usize = 0;
            while black_i < black_rank
                invariant
                    black_rank == black_dims@.len(),
                    black_rank <= BLACK_MAX_STACK_RANK,
                    black_i <= black_rank,
                    forall|j: int| 0 <= j < black_i ==> black_dims_stack[j] == black_dims@[j],
                    forall|j: int| black_i <= j < BLACK_MAX_STACK_RANK ==> black_dims_stack[j] == 0,
                decreases black_rank - black_i,
            {
                black_dims_stack[black_i] = black_dims[black_i];
                black_i = black_i + 1;
            }
            let r = BlackShape { black_dims_stack, black_dims_heap: None, black_rank };
            assert(r@ =~= black_dims@);
            r
        } else {
            BlackShape {
                black_dims_stack: [0usize; BLACK_MAX_STACK_RANK],
                black_dims_heap: Some(vstd::slice::slice_to_vec(black_dims)),
                black_rank,
            }
        }
    }

    /// The shape of rank 0.
    pub fn black_scalar() -> (r: Self)
        ensures
            r@ == Seq::<usize>::empty(),
    {
        let r = BlackShape {
            black_dims_stack: [0usize; BLACK_MAX_STACK_RANK],
            black_dims_heap: None,
            black_rank: 0,
        };
        assert(r@ =~= Seq::<usize>::empty());
        r
    }

    pub fn black_ndim(&self) -> (r: usize)
        ensures
            r == self@.len(),
    {
        proof {
            use_type_invariant(self);
        }
        self.black_rank
    }

    pub fn black_dims(&self) -> (r: &[usize])
        ensures
            r@ == self@,
    {
        proof {
            use_type_invariant(self);
        }
        if let Some(ref black_heap) = self.black_dims_heap {
            black_heap.as_slice()
        } else {
            vstd::slice::slice_subrange(self.black_dims_stack.as_slice(), 0, self.black_rank)
        }
    }

    /// The extent at `black_idx`, or an index error past the rank.
    pub fn black_dim(&self, black_idx: usize) -> (r: Result<usize, BlackError>)
        ensures
            black_idx < self@.len() ==> r == Ok::<usize, BlackError>(self@[black_idx as int]),
            black_idx >= self@.len() ==> r matches Err(BlackError::BlackIndexError { .. }),
    {
        let black_dims = self.black_dims();
        let black_rank = self.black_ndim();
        if black_idx >= black_rank {
            return Err(BlackError::BlackIndexError {
                black_msg: black_msg_dim_index(black_idx, black_rank),
            });
        }
        Ok(black_dims[black_idx])
    }

    /// The number of elements: the product of the extents (1 at rank 0).
    pub fn black_numel(&self) -> (r: usize)
        requires
            black_prefix_products_fit(self@),
        ensures
            r == black_product(self@),
    {
        let black_dims = self.black_dims();
        if self.black_ndim() == 0 {
            return 1;
        }
        black_product_of(black_dims)
    }

    /// The shape both operands broadcast to, or a shape error when some
    /// right-aligned pair of extents differs with neither being 1.
    pub fn black_broadcast_with(&self, black_other: &BlackShape) -> (r: Result<BlackShape, BlackError>)
        ensures
            black_broadcastable(self@, black_other@) ==> (r matches Ok(s) && s@ == black_broadcast_dims(self@, black_other@)),
            !black_broadcastable(self@, black_other@) ==> r matches Err(BlackError::BlackShapeError { .. }),
    {
        let black_a = self.black_dims();
        let black_b = black_other.black_dims();
        let black_ra = black_a.len();
        let black_rb = black_b.len();
        let black_max_rank = if black_ra >= black_rb { black_ra } else { black_rb };
        let mut black_result_dims: Vec<usize> = vec![0usize; black_max_rank];
        let ghost a = self@;
        let ghost b = black_other@;
        let mut black_i: usize = 0;
        while black_i < black_max_rank
            invariant
                a == black_a@,
                b == black_b@,
                a == self@,
                b == black_other@,
                black_ra == a.len(),
                black_rb == b.len(),
                black_max_rank == black_broadcast_rank(a, b),
                black_i <= black_max_rank,
                black_result_dims@.len() == black_max_rank,
                forall|j: int|
                    0 <= j < black_i ==> black_extents_compatible(
                        #[trigger] black_dim_from_right(a, j),
                        black_dim_from_right(b, j),
                    ),
                forall|j: int|
                    0 <= j < black_i ==> black_result_dims@[black_max_rank - 1 - j]
                        == black_broadcast_extent(
                        #[trigger] black_dim_from_right(a, j),
                        black_dim_from_right(b, j),
                    ),
            decreases black_max_rank - black_i,
        {
            let black_da = if black_i < black_ra {
                black_a[black_ra - 1 - black_i]
            } else {
                1
            };
            let black_db = if black_i < black_rb {
                black_b[black_rb - 1 - black_i]
            } else {
                1
            };
            assert(black_da == black_dim_from_right(a, black_i as int));
            assert(black_db == black_dim_from_right(b, black_i as int));
            if black_da == black_db {
                black_result_dims.set(black_max_rank - 1 - black_i, black_da);
            } else if black_da == 1 {
                black_result_dims.set(black_max_rank - 1 - black_i, black_db);
            } else if black_db == 1 {
                black_result_dims.set(black_max_rank - 1 - black_i, black_da);
            } else {
                assert(!black_extents_compatible(
                    black_dim_from_right(a, black_i as int),
                    black_dim_from_right(b, black_i as int),
                ));
                assert(!black_broadcastable(a, b));
                return Err(BlackError::BlackShapeError {
                    black_msg: black_msg_broadcast(black_a, black_b),
                });
            }
            black_i = black_i + 1;
        }
        assert(black_result_dims@ =~= black_broadcast_dims(a, b)) by {
            assert forall|j: int| 0 <= j < black_max_rank implies black_result_dims@[j]
                == black_broadcast_dims(a, b)[j] by {
                let k = black_max_rank - 1 - j;
                assert(black_result_dims@[black_max_rank - 1 - k] == black_broadcast_extent(
                    black_dim_from_right(a, k),
                    black_dim_from_right(b, k),
                ));
            }
        }
        Ok(BlackShape::black_new(black_result_dims.as_slice()))
    }
}

impl Clone for BlackShape {
    fn clone(&self) -> (r: Self)
        ensures
            r@ == self@,
    {
        BlackShape::black_new(self.black_dims())
    }
}

/// Whether two extent lists are equal, compared element by element.
pub fn black_dims_equal(black_a: &[usize], black_b: &[usize]) -> (r: bool)
    ensures
        r == (black_a@ == black_b@),
{
    if black_a.len() != black_b.len() {
        return false;
    }
    let mut black_i: usize = 0;
    while black_i < black_a.len()
        invariant
            black_a@.len() == black_b@.len(),
            black_i <= black_a@.len(),
            forall|j: int| 0 <= j < black_i ==> black_a@[j] == black_b@[j],
        decreases black_a@.len() - black_i,
    {
        if black_a[black_i] != black_b[black_i] {
            return false;
        }
        black_i = black_i + 1;
    }
    assert(black_a@ =~= black_b@);
    true
}

impl PartialEq for BlackShape {
    fn eq(&self, black_other: &Self) -> (r: bool) {
        black_dims_equal(self.black_dims(), black_other.black_dims())
    }
}

impl vstd::std_specs::cmp::PartialEqSpecImpl for BlackShape {
    open spec fn obeys_eq_spec() -> bool {
        true
    }

    open spec fn eq_spec(&self, other: &BlackShape) -> bool {
        self@ == other@
    }
}

impl Eq for BlackShape {}

/// The product of the extents of a slice, computed left to right.
pub fn black_product_of(black_dims: &[usize]) -> (r: usize)
    requires
        black_prefix_products_fit(black_dims@),
    ensures
        r == black_product(black_dims@),
{
    let mut black_acc: usize = 1;
    let mut black_i: usize = 0;
    while black_i < black_dims.len()
        invariant
            black_i <= black_dims@.len(),
            black_prefix_products_fit(black_dims@),
            black_acc == black_product(black_dims@.take(black_i as int)),
        decreases black_dims@.len() - black_i,
    {
        proof {
            let t = black_dims@.take(black_i as int + 1);
            assert(t.drop_last() =~= black_dims@.take(black_i as int));
            assert(black_product(t) <= usize::MAX);
        }
        black_acc = black_acc * black_dims[black_i];
        black_i = black_i + 1;
    }
    assert(black_dims@.take(black_i as int) =~= black_dims@);
    black_acc
}

/// Whether every running product of `black_dims` fits in a `usize`: the
/// test to make before multiplying the extents out.
pub fn black_products_fit(black_dims: &[usize]) -> (r: bool)
    ensures
        r == black_prefix_products_fit(black_dims@),
{
    let ghost d = black_dims@;
    let mut black_acc: usize = 1;
    let mut black_i: usize = 0;
    assert(d.take(0) =~= Seq::<usize>::empty());
    while black_i < black_dims.len()
        invariant
            d == black_dims@,
            black_i <= d.len(),
            black_acc == black_product(d.take(black_i as int)),
            forall|k: int| 0 <= k <= black_i ==> black_product(#[trigger] d.take(k)) <= usize::MAX,
        decreases d.len() - black_i,
    {
        proof {
            assert(d.take(black_i + 1).drop_last() =~= d.take(black_i as int));
        }
        match black_acc.checked_mul(black_dims[black_i]) {
            Some(black_p) => {
                black_acc = black_p;
            },
            None => {
                assert(black_product(d.take(black_i + 1)) > usize::MAX);
                return false;
            },
        }
        black_i = black_i + 1;
    }
    true
}

} // verus!
