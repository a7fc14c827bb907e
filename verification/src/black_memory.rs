//! The arithmetic of the memory pool and of the bump arena: which size
//! class a request falls in, and where in an arena the next block starts.
use vstd::prelude::*;
use vstd::arithmetic::power2::{pow2, lemma_pow2_unfold, lemma_pow2_pos};
use crate::black_error::BlackError;

verus! {

/// The size classes of a memory pool: powers of two times the smallest
/// class, growing until a request fits or the largest class is reached.
#[derive(Debug, Clone, Copy)]
pub struct BlackBucketPolicy {
    pub black_min_bucket: usize,
    pub black_max_bucket: usize,
}

/// `b` is `min` doubled some number of times.
pub open spec fn black_is_doubling(min: nat, b: nat) -> bool {
    exists|j: nat| b == min * pow2(j)
}

/// The classes are well formed: a positive smallest class, and doubling a
/// class below the largest one cannot overflow.
pub open spec fn black_bucket_policy_ok(p: BlackBucketPolicy) -> bool {
    &&& p.black_min_bucket >= 1
    &&& p.black_max_bucket >= 1
    &&& p.black_max_bucket - 1 <= usize::MAX / 2
}

impl BlackBucketPolicy {
    /// The pool's classes: 64 bytes up to 2 GiB.
    pub fn black_new() -> (r: Self)
        ensures
            r.black_min_bucket == 64,
            r.black_max_bucket == 2 * 1024 * 1024 * 1024,
            black_bucket_policy_ok(r),
    {
        BlackBucketPolicy { black_min_bucket: 64, black_max_bucket: 2 * 1024 * 1024 * 1024 }
    }

    /// The size class of a request of `black_size` bytes: the smallest class
    /// holding it, or the first class at or past the largest one.
    pub fn black_bucket_size(&self, black_size: usize) -> (r: usize)
        requires
            black_bucket_policy_ok(*self),
        ensures
            black_is_doubling(self.black_min_bucket as nat, r as nat),
            r >= self.black_min_bucket,
            r >= black_size || r >= self.black_max_bucket,
            r > self.black_min_bucket ==> r / 2 < black_size && r / 2 < self.black_max_bucket,
            r <= self.black_min_bucket || r < 2 * black_size,
    {
        let mut black_bucket = self.black_min_bucket;
        let ghost mut j: nat = 0;
        proof {
            vstd::arithmetic::power2::lemma2_to64();
            assert(black_bucket == self.black_min_bucket * pow2(0));
        }
        while black_bucket < black_size && black_bucket < self.black_max_bucket
            invariant
                black_bucket_policy_ok(*self),
                black_bucket == self.black_min_bucket * pow2(j),
                black_bucket >= self.black_min_bucket,
                black_bucket > self.black_min_bucket ==> black_bucket / 2 < black_size && black_bucket / 2
                    < self.black_max_bucket,
            decreases usize::MAX - black_bucket,
        {
            proof {
                lemma_pow2_unfold(j + 1);
                vstd::arithmetic::mul::lemma_mul_is_associative(
                    self.black_min_bucket as int,
                    2,
                    pow2(j) as int,
                );
                lemma_pow2_pos(j);
                assert(self.black_min_bucket * pow2(j + 1) == 2 * (self.black_min_bucket * pow2(j))) by (nonlinear_arith)
                    requires
                        pow2(j + 1) == 2 * pow2(j),
                ;
            }
            black_bucket = black_bucket * 2;
            proof {
                j = j + 1;
            }
        }
        proof {
            assert(black_is_doubling(self.black_min_bucket as nat, black_bucket as nat));
        }
        black_bucket
    }
}

/// The bookkeeping of a bump arena of `black_capacity` bytes: the offset at
/// which the next block may start.
#[derive(Debug)]
pub struct BlackArenaCursor {
    black_capacity: usize,
    black_offset: usize,
}

/// `x` rounded up by the mask rule of the arena: `(x + align - 1)` with the
/// bits of `align - 1` cleared.
pub open spec fn black_align_up(x: usize, align: usize) -> usize {
    ((x + align - 1) as usize) & !((align - 1) as usize)
}

impl BlackArenaCursor {
    /// The offset never passes the capacity.
    #[verifier::type_invariant]
    spec fn black_wf(self) -> bool {
        self.black_offset <= self.black_capacity
    }

    /// The bytes handed out so far.
    pub closed spec fn black_used_spec(self) -> usize {
        self.black_offset
    }

    /// The size of the arena.
    pub closed spec fn black_capacity_spec(self) -> usize {
        self.black_capacity
    }

    /// An empty arena of `black_capacity` bytes.
    pub fn black_new(black_capacity: usize) -> (r: Self)
        ensures
            r.black_used_spec() == 0,
            r.black_capacity_spec() == black_capacity,
    {
        BlackArenaCursor { black_capacity, black_offset: 0 }
    }

    /// Reserves `black_size` bytes aligned by the mask rule: the block
    /// starts at the current offset rounded up, and the offset moves past
    /// it. A block that would end past the capacity is refused with a memory
    /// error and changes nothing. The offset plus the alignment is formed
    /// before 1 is taken off, so that sum must fit in a `usize`.
    pub fn black_alloc(&mut self, black_size: usize, black_align: usize) -> (r: Result<usize, BlackError>)
        requires
            black_align >= 1,
            old(self).black_used_spec() + black_align <= usize::MAX,
            black_align_up(old(self).black_used_spec(), black_align) + black_size <= usize::MAX,
        ensures
            final(self).black_capacity_spec() == old(self).black_capacity_spec(),
            black_align_up(old(self).black_used_spec(), black_align) + black_size
                > old(self).black_capacity_spec() ==> (r matches Err(BlackError::BlackMemoryError { .. })
                && final(self).black_used_spec() == old(self).black_used_spec()),
            black_align_up(old(self).black_used_spec(), black_align) + black_size
                <= old(self).black_capacity_spec() ==> (r == Ok::<usize, BlackError>(
                black_align_up(old(self).black_used_spec(), black_align),
            ) && final(self).black_used_spec() == black_align_up(old(self).black_used_spec(), black_align)
                + black_size),
    {
        let black_aligned = (self.black_offset + black_align - 1) & !(black_align - 1);
        if black_aligned + black_size > self.black_capacity {
            return Err(BlackError::BlackMemoryError { black_msg: "arena out of memory".to_string() });
        }
        self.black_offset = black_aligned + black_size;
        Ok(black_aligned)
    }

    /// Whether [`Self::black_alloc`] can compute its block without an
    /// overflow (the offset plus the alignment is formed before 1 is taken
    /// off): the test to make before asking for one.
    pub fn black_alloc_fits(&self, black_size: usize, black_align: usize) -> (r: bool)
        ensures
            r == (black_align >= 1 && self.black_used_spec() + black_align <= usize::MAX
                && black_align_up(self.black_used_spec(), black_align) + black_size <= usize::MAX),
    {
        if black_align == 0 {
            return false;
        }
        match self.black_offset.checked_add(black_align) {
            None => false,
            Some(black_bumped) => {
                let black_aligned = (black_bumped - 1) & !(black_align - 1);
                black_aligned.checked_add(black_size).is_some()
            },
        }
    }

    /// Forgets every block: the whole arena is free again.
    pub fn black_reset(&mut self)
        ensures
            final(self).black_used_spec() == 0,
            final(self).black_capacity_spec() == old(self).black_capacity_spec(),
    {
        self.black_offset = 0;
    }

    pub fn black_used(&self) -> (r: usize)
        ensures
            r == self.black_used_spec(),
            r <= self.black_capacity_spec(),
    {
        proof {
            use_type_invariant(self);
        }
        self.black_offset
    }

    pub fn black_capacity(&self) -> (r: usize)
        ensures
            r == self.black_capacity_spec(),
    {
        self.black_capacity
    }
}

/// With a power-of-two alignment the mask rule rounds up to the next
/// multiple: the result is a multiple of `align`, at least `x` and less than
/// `x + align`.
pub proof fn lemma_align_up_power_of_two(x: usize, align: usize, n: nat)
    requires
        n < usize::BITS,
        align == pow2(n),
        x + align - 1 <= usize::MAX,
    ensures
        black_align_up(x, align) % align == 0,
        x <= black_align_up(x, align) < x + align,
{
    lemma_pow2_pos(n);
    vstd::bits::lemma_usize_pow2_no_overflow(n);
    let y = (x + align - 1) as usize;
    let m = (align - 1) as usize;
    assert(y & !m == (y - (y & m)) as usize) by (bit_vector);
    assert(y & m <= y) by (bit_vector);
    assert(m == vstd::bits::low_bits_mask(n) as usize);
    vstd::bits::lemma_usize_low_bits_mask_is_mod(y, n);
    assert(y & m == y % align);
    vstd::arithmetic::div_mod::lemma_fundamental_div_mod(y as int, align as int);
    vstd::arithmetic::div_mod::lemma_mod_multiples_basic(y as int / align as int, align as int);
    assert((y - y % align) as int == align * (y as int / align as int));
    assert(((align * (y as int / align as int)) % (align as int)) == 0) by {
        vstd::arithmetic::mul::lemma_mul_is_commutative(align as int, y as int / align as int);
    }
}

} // verus!
