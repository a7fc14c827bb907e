use vstd::prelude::*;
use std::sync::Arc;
use crate::black_buffer::{BlackBuffer, black_machine_big_endian, black_alloc_verdict, black_layout_ok, black_words32_bytes, black_words64_bytes, black_zero_bytes};
use crate::black_device::BlackDevice;
use crate::black_dtype::{BlackDType, black_dtype_size};
use crate::black_error::BlackError;
use crate::black_math::{black_product, black_prefix_products_fit};
use crate::black_msg::{black_msg_view, black_msg_transpose, black_msg_permute};
use crate::black_shape::{BlackShape, black_products_fit, black_product_of};
use crate::black_strides::{BlackStrides, black_contiguous_strides, black_dot, black_suffix_products_fit, black_suffixes_fit};
use crate::black_index::{black_unravel, black_zeros_seq, lemma_increment_unravel, lemma_unravel_bounds, lemma_unravel_len, lemma_unravel_zero};
use crate::black_gather::{black_odometer_step, black_offset_sums_fit, black_source_offset, black_source_offset_checked};

verus! {

/// Shares an `Arc` by calling `Arc::clone`; the copy points at the same value.
#[verifier::external_body]
fn black_share<T>(black_arc: &Arc<T>) -> (r: Arc<T>)
    ensures
        r == *black_arc,
{
    Arc::clone(black_arc)
}

/// The 32-bit pattern of the single-precision value 1.
pub const BLACK_ONE_BITS32: u32 = 0x3f80_0000;

/// The 64-bit pattern of the double-precision value 1.
pub const BLACK_ONE_BITS64: u64 = 0x3ff0_0000_0000_0000;

/// A strided view of a buffer: element `idx` (a multi-index within the
/// shape) lives at element offset `black_offset + sum(idx[d] * strides[d])`.
#[derive(Debug)]
pub struct BlackTensor {
    pub black_buffer: Arc<BlackBuffer>,
    pub black_shape: BlackShape,
    pub black_strides: BlackStrides,
    pub black_dtype: BlackDType,
    pub black_device: BlackDevice,
    pub black_offset: usize,
}

/// The bytes of the buffer a tensor views.
pub open spec fn black_bytes_of(t: BlackTensor) -> Seq<u8> {
    (*t.black_buffer)@
}

/// The strides are the row-major strides of the shape.
pub open spec fn black_is_contiguous_spec(t: BlackTensor) -> bool {
    t.black_strides@ == black_contiguous_strides(t.black_shape@)
}

/// `r` is `t` with another shape, other strides and another buffer; the
/// rest is kept.
pub open spec fn black_same_meta(r: BlackTensor, t: BlackTensor) -> bool {
    &&& r.black_dtype == t.black_dtype
    &&& r.black_device == t.black_device
}

/// `r` views the same buffer as `t`, from the same offset.
pub open spec fn black_same_storage(r: BlackTensor, t: BlackTensor) -> bool {
    &&& black_bytes_of(r) == black_bytes_of(t)
    &&& r.black_buffer.black_device_of() == t.black_buffer.black_device_of()
    &&& r.black_offset == t.black_offset
}

/// `r` is a copy of `t`: same storage, shape, strides and tags.
pub open spec fn black_same_tensor(r: BlackTensor, t: BlackTensor) -> bool {
    &&& black_same_storage(r, t)
    &&& black_same_meta(r, t)
    &&& r.black_shape@ == t.black_shape@
    &&& r.black_strides@ == t.black_strides@
}

/// The shape can be multiplied out and given row-major strides without
/// overflow.
pub open spec fn black_shape_fits(dims: Seq<usize>) -> bool {
    &&& black_prefix_products_fit(dims)
    &&& black_suffix_products_fit(dims)
}

/// How many 4-byte lanes a gather writes: one per element, capped by the
/// lanes that a buffer of the tensor's byte size holds.
pub open spec fn black_gather_count(t: BlackTensor) -> int {
    let n = black_product(t.black_shape@) as int;
    let lanes = (n * black_dtype_size(t.black_dtype)) / 4;
    if n <= lanes {
        n
    } else {
        lanes
    }
}

/// The lane (4-byte unit of the buffer) that holds element `j` of `t` in
/// row-major order: the offset plus the strided position of its multi-index.
pub open spec fn black_source_lane(t: BlackTensor, j: int) -> int {
    t.black_offset + black_dot(
        black_unravel(t.black_shape@, j),
        t.black_strides@,
        t.black_shape@.len() as int,
    )
}

/// Element `j` can be read: its offset sums fit and its lane lies inside the
/// buffer.
pub open spec fn black_lane_readable(t: BlackTensor, j: int) -> bool {
    &&& black_offset_sums_fit(
        t.black_offset as int,
        black_unravel(t.black_shape@, j),
        t.black_strides@,
        t.black_shape@.len() as int,
    )
    &&& black_source_lane(t, j) < black_bytes_of(t).len() / 4
}

/// Every element a gather reads can be read, and there is a stride per axis.
pub open spec fn black_gather_ok(t: BlackTensor) -> bool {
    &&& t.black_strides@.len() >= t.black_shape@.len()
    &&& forall|j: int| 0 <= j < black_gather_count(t) ==> #[trigger] black_lane_readable(t, j)
}

/// The bytes of the row-major copy of `t`: lane `j` (below the gather
/// count) is the lane of element `j`; the rest is zero.
pub open spec fn black_gathered_bytes(t: BlackTensor) -> Seq<u8> {
    Seq::new(
        black_product(t.black_shape@) * black_dtype_size(t.black_dtype),
        |b: int|
            if b / 4 < black_gather_count(t) {
                black_bytes_of(t)[4 * black_source_lane(t, b / 4) + b % 4]
            } else {
                0u8
            },
    )
}

/// `r` is the fresh row-major copy of `t`.
pub open spec fn black_is_gathered(r: BlackTensor, t: BlackTensor) -> bool {
    &&& black_bytes_of(r) == black_gathered_bytes(t)
    &&& r.black_buffer.black_device_of() == t.black_device
    &&& r.black_shape@ == t.black_shape@
    &&& r.black_strides@ == black_contiguous_strides(t.black_shape@)
    &&& black_same_meta(r, t)
    &&& r.black_offset == 0
}

/// The 32-bit word held in lane `i` of `bytes`, in the given byte order
/// (least significant byte first unless `big`).
pub open spec fn black_lane_word(big: bool, bytes: Seq<u8>, i: int) -> u32 {
    if big {
        (bytes[4 * i + 3] as u32) | ((bytes[4 * i + 2] as u32) << 8u32) | ((bytes[4 * i + 1] as u32)
            << 16u32) | ((bytes[4 * i] as u32) << 24u32)
    } else {
        (bytes[4 * i] as u32) | ((bytes[4 * i + 1] as u32) << 8u32) | ((bytes[4 * i + 2] as u32)
            << 16u32) | ((bytes[4 * i + 3] as u32) << 24u32)
    }
}

/// The row-major words of `t` in the byte order `big`, as its row-major
/// form holds them: read from
/// the tensor's own offset when it is row-major already, else from the
/// gathered copy.
pub open spec fn black_row_major_words(big: bool, t: BlackTensor) -> Seq<u32> {
    let n = black_product(t.black_shape@);
    if black_is_contiguous_spec(t) {
        Seq::new(n, |i: int| black_lane_word(big, black_bytes_of(t), t.black_offset + i))
    } else {
        Seq::new(n, |i: int| black_lane_word(big, black_gathered_bytes(t), i))
    }
}

/// A single-precision word is finite: its exponent bits are not all ones.
pub open spec fn black_word_is_finite(w: u32) -> bool {
    (w >> 23u32) & 0xff != 0xff
}

/// What the row-major form of `t` requires: it can be built, and for
/// single-precision data its words can be read.
pub open spec fn black_row_major_ok(t: BlackTensor) -> bool {
    &&& black_shape_fits(t.black_shape@)
    &&& !black_is_contiguous_spec(t) ==> black_product(t.black_shape@) * black_dtype_size(t.black_dtype)
        <= usize::MAX
    &&& !black_is_contiguous_spec(t) && t.black_device is BlackCpu ==> black_gather_ok(t)
    &&& black_is_contiguous_spec(t) && t.black_dtype is BlackF32 ==> t.black_offset + black_product(
        t.black_shape@,
    ) <= black_bytes_of(t).len() / 4
}

/// `dims` with the extents at `i` and `j` exchanged.
pub open spec fn black_swap_seq(dims: Seq<usize>, i: int, j: int) -> Seq<usize> {
    dims.update(i, dims[j]).update(j, dims[i])
}

/// Exchanges two entries of a vector.
fn black_swap_vec(v: &mut Vec<usize>, i: usize, j: usize)
    requires
        i < old(v)@.len(),
        j < old(v)@.len(),
    ensures
        final(v)@ == black_swap_seq(old(v)@, i as int, j as int),
{
    let a = v[i];
    let b = v[j];
    v.set(i, b);
    v.set(j, a);
}

impl Clone for BlackTensor {
    fn clone(&self) -> (r: Self)
        ensures
            black_same_tensor(r, *self),
    {
        BlackTensor {
            black_buffer: black_share(&self.black_buffer),
            black_shape: self.black_shape.clone(),
            black_strides: self.black_strides.clone(),
            black_dtype: self.black_dtype,
            black_device: self.black_device,
            black_offset: self.black_offset,
        }
    }
}

impl BlackTensor {
    /// A tensor over the whole of `black_buffer`, row-major, from offset 0.
    pub fn black_new(
        black_buffer: BlackBuffer,
        black_shape: BlackShape,
        black_dtype: BlackDType,
        black_device: BlackDevice,
    ) -> (r: Self)
        requires
            black_suffix_products_fit(black_shape@),
        ensures
            black_bytes_of(r) == black_buffer@,
            r.black_buffer.black_device_of() == black_buffer.black_device_of(),
            r.black_shape@ == black_shape@,
            r.black_strides@ == black_contiguous_strides(black_shape@),
            r.black_dtype == black_dtype,
            r.black_device == black_device,
            r.black_offset == 0,
    {
        let black_strides = BlackStrides::black_from_shape(&black_shape);
        BlackTensor {
            black_buffer: Arc::new(black_buffer),
            black_shape,
            black_strides,
            black_dtype,
            black_device,
            black_offset: 0,
        }
    }

    /// A zero-filled host tensor of the given shape and element type.
    pub fn black_zeros(black_shape: &[usize], black_dtype: BlackDType) -> (r: Result<Self, BlackError>)
        requires
            black_shape_fits(black_shape@),
            black_product(black_shape@) * black_dtype_size(black_dtype) <= usize::MAX,
        ensures
            r matches Ok(t) ==> {
                &&& black_bytes_of(t) == black_zero_bytes(
                    black_product(black_shape@) * black_dtype_size(black_dtype),
                )
                &&& t.black_buffer.black_device_of() is BlackCpu
                &&& t.black_shape@ == black_shape@
                &&& t.black_strides@ == black_contiguous_strides(black_shape@)
                &&& t.black_dtype == black_dtype
                &&& t.black_device is BlackCpu
                &&& t.black_offset == 0
            },
            black_alloc_verdict(
                (black_product(black_shape@) * black_dtype_size(black_dtype)) as int,
                BlackDevice::BlackCpu,
                r,
            ),
    {
        let black_s = BlackShape::black_new(black_shape);
        let black_numel = black_s.black_numel();
        let black_byte_len = black_numel * black_dtype.black_size_in_bytes();
        let black_buf = BlackBuffer::black_alloc(black_byte_len, BlackDevice::BlackCpu)?;
        Ok(Self::black_new(black_buf, black_s, black_dtype, BlackDevice::BlackCpu))
    }

    /// A host tensor of ones. Single- and double-precision elements hold the
    /// value 1 and 32-bit integers hold 1; every other element type has each
    /// of its bytes set to 1.
    pub fn black_ones(black_shape: &[usize], black_dtype: BlackDType) -> (r: Result<Self, BlackError>)
        requires
            black_shape_fits(black_shape@),
            black_product(black_shape@) * black_dtype_size(black_dtype) <= usize::MAX,
        ensures
            r matches Ok(t) ==> {
                &&& exists|big: bool| black_bytes_of(t) == black_ones_bytes(big, black_dtype, black_product(black_shape@))
                &&& t.black_buffer.black_device_of() is BlackCpu
                &&& t.black_shape@ == black_shape@
                &&& t.black_strides@ == black_contiguous_strides(black_shape@)
                &&& t.black_dtype == black_dtype
                &&& t.black_device is BlackCpu
                &&& t.black_offset == 0
            },
            black_alloc_verdict(
                (black_product(black_shape@) * black_dtype_size(black_dtype)) as int,
                BlackDevice::BlackCpu,
                r,
            ),
    {
        let black_s = BlackShape::black_new(black_shape);
        let black_numel = black_s.black_numel();
        match black_dtype {
            BlackDType::BlackF32 => {
                let black_data = black_repeat_u32(BLACK_ONE_BITS32, black_numel);
                let black_buf = BlackBuffer::black_from_vec_u32(black_data)?;
                proof {
                    let big = choose|big: bool| black_buf@ == black_words32_bytes(big, black_data@);
                    assert(black_buf@ == black_ones_bytes(big, black_dtype, black_product(black_shape@)));
                }
                Ok(Self::black_new(black_buf, black_s, black_dtype, BlackDevice::BlackCpu))
            },
            BlackDType::BlackF64 => {
                let black_data = black_repeat_u64(BLACK_ONE_BITS64, black_numel);
                let black_buf = BlackBuffer::black_from_vec_u64(black_data)?;
                proof {
                    let big = choose|big: bool| black_buf@ == black_words64_bytes(big, black_data@);
                    assert(black_buf@ == black_ones_bytes(big, black_dtype, black_product(black_shape@)));
                }
                Ok(Self::black_new(black_buf, black_s, black_dtype, BlackDevice::BlackCpu))
            },
            BlackDType::BlackI32 => {
                let black_data = black_repeat_u32(1u32, black_numel);
                let black_buf = BlackBuffer::black_from_vec_u32(black_data)?;
                proof {
                    let big = choose|big: bool| black_buf@ == black_words32_bytes(big, black_data@);
                    assert(black_buf@ == black_ones_bytes(big, black_dtype, black_product(black_shape@)));
                }
                Ok(Self::black_new(black_buf, black_s, black_dtype, BlackDevice::BlackCpu))
            },
            _ => {
                let black_byte_len = black_numel * black_dtype.black_size_in_bytes();
                let mut black_buf = BlackBuffer::black_alloc(black_byte_len, BlackDevice::BlackCpu)?;
                let black_slice = black_buf.black_as_mut_slice();
                let mut black_i: usize = 0;
                while black_i < black_byte_len
                    invariant
                        black_slice@.len() == black_byte_len,
                        black_i <= black_byte_len,
                        forall|j: int| 0 <= j < black_i ==> black_slice@[j] == 1u8,
                    decreases black_byte_len - black_i,
                {
                    black_slice[black_i] = 1u8;
                    black_i = black_i + 1;
                }
                assert(black_slice@ =~= Seq::new(black_byte_len as nat, |i: int| 1u8));
                assert(black_slice@ == black_ones_bytes(false, black_dtype, black_product(black_shape@)));
                Ok(Self::black_new(black_buf, black_s, black_dtype, BlackDevice::BlackCpu))
            },
        }
    }

    pub fn black_numel(&self) -> (r: usize)
        requires
            black_prefix_products_fit(self.black_shape@),
        ensures
            r == black_product(self.black_shape@),
    {
        self.black_shape.black_numel()
    }

    pub fn black_ndim(&self) -> (r: usize)
        ensures
            r == self.black_shape@.len(),
    {
        self.black_shape.black_ndim()
    }

    /// Whether the strides are the row-major strides of the shape.
    pub fn black_is_contiguous(&self) -> (r: bool)
        requires
            black_suffix_products_fit(self.black_shape@),
        ensures
            r == black_is_contiguous_spec(*self),
    {
        self.black_strides.black_is_contiguous(&self.black_shape)
    }

    /// A row-major tensor with the same elements: this tensor itself (sharing
    /// the buffer) when already row-major, else a fresh buffer on the same
    /// device into which each element's 4-byte lane is gathered in row-major
    /// order.
    pub fn black_contiguous(&self) -> (r: Result<Self, BlackError>)
        requires
            black_shape_fits(self.black_shape@),
            !black_is_contiguous_spec(*self) ==> black_product(self.black_shape@) * black_dtype_size(
                self.black_dtype,
            ) <= usize::MAX,
            !black_is_contiguous_spec(*self) && self.black_device is BlackCpu ==> black_gather_ok(*self),
        ensures
            black_is_contiguous_spec(*self) ==> (r matches Ok(t) && black_same_tensor(t, *self)),
            !black_is_contiguous_spec(*self) ==> black_alloc_verdict(
                (black_product(self.black_shape@) * black_dtype_size(self.black_dtype)) as int,
                self.black_device,
                r,
            ),
            !black_is_contiguous_spec(*self) ==> (r matches Ok(t) ==> black_is_gathered(t, *self)),
    {
        if self.black_is_contiguous() {
            return Ok(self.clone());
        }
        let black_numel = self.black_numel();
        let black_byte_len = black_numel * self.black_dtype.black_size_in_bytes();
        let mut black_new_buf = BlackBuffer::black_alloc(black_byte_len, self.black_device)?;
        let black_src = (*self.black_buffer).black_as_slice();
        let black_src_len = black_src.len();
        let black_dims = self.black_shape.black_dims();
        let black_strides_sl = self.black_strides.black_as_slice();
        let black_rank = black_dims.len();
        let black_count = if black_numel <= black_byte_len / 4 {
            black_numel
        } else {
            black_byte_len / 4
        };
        let ghost t = *self;
        let ghost dims = self.black_shape@;
        assert(black_count == black_gather_count(t));
        assert(black_count > 0 ==> self.black_device is BlackCpu);
        let mut black_indices: Vec<usize> = Vec::new();
        let mut black_z: usize = 0;
        while black_z < black_rank
            invariant
                black_z <= black_rank,
                black_indices@ == black_zeros_seq(black_z as nat),
            decreases black_rank - black_z,
        {
            black_indices.push(0usize);
            black_z = black_z + 1;
            assert(black_indices@ =~= black_zeros_seq(black_z as nat));
        }
        proof {
            if black_count > 0 {
                lemma_unravel_zero(dims);
            }
        }
        let black_dst = black_new_buf.black_as_mut_slice();
        let mut black_j: usize = 0;
        while black_j < black_count
            invariant
                t == *self,
                dims == self.black_shape@,
                black_dims@ == dims,
                black_rank == dims.len(),
                black_strides_sl@ == self.black_strides@,
                black_src@ == black_bytes_of(t),
                black_src_len == black_src@.len(),
                black_count == black_gather_count(t),
                black_count <= black_numel,
                black_numel == black_product(dims),
                black_count <= black_byte_len / 4,
                black_count > 0 ==> black_gather_ok(t),
                black_dst@.len() == black_byte_len,
                black_byte_len == black_product(dims) * black_dtype_size(t.black_dtype),
                black_j <= black_count,
                black_indices@.len() == black_rank,
                black_j < black_count ==> black_indices@ == black_unravel(dims, black_j as int),
                forall|b: int|
                    0 <= b < 4 * black_j ==> #[trigger] black_dst@[b] == black_gathered_bytes(t)[b],
                forall|b: int| 4 * black_j <= b < black_byte_len ==> #[trigger] black_dst@[b] == 0u8,
            decreases black_count - black_j,
        {
            proof {
                assert(black_lane_readable(t, black_j as int));
                lemma_unravel_len(dims, black_j as int);
            }
            let black_src_offset = black_source_offset(self.black_offset, &black_indices, black_strides_sl);
            proof {
                assert(black_src_offset == black_source_lane(t, black_j as int));
                assert(black_src_offset < black_src@.len() / 4);
                assert(4 * black_src_offset + 3 < black_src@.len()) by (nonlinear_arith)
                    requires
                        black_src_offset < black_src@.len() / 4,
                ;
                assert(4 * black_j + 3 < black_byte_len) by (nonlinear_arith)
                    requires
                        black_j < black_count,
                        black_count <= black_byte_len / 4,
                ;
            }
            let black_at = 4 * black_j;
            let black_from = 4 * black_src_offset;
            black_dst[black_at] = black_src[black_from];
            black_dst[black_at + 1] = black_src[black_from + 1];
            black_dst[black_at + 2] = black_src[black_from + 2];
            black_dst[black_at + 3] = black_src[black_from + 3];
            proof {
                lemma_unravel_bounds(dims, black_j as int);
                assert forall|b: int| 0 <= b < 4 * (black_j + 1) implies #[trigger] black_dst@[b]
                    == black_gathered_bytes(t)[b] by {
                    if b >= 4 * black_j {
                        assert(b / 4 == black_j as int) by (nonlinear_arith)
                            requires
                                4 * black_j <= b < 4 * black_j + 4,
                        ;
                        assert(b % 4 == b - 4 * black_j) by (nonlinear_arith)
                            requires
                                4 * black_j <= b < 4 * black_j + 4,
                        ;
                    }
                }
            }
            black_odometer_step(&mut black_indices, black_dims);
            proof {
                if black_j + 1 < black_count {
                    lemma_increment_unravel(dims, black_j as int);
                }
            }
            black_j = black_j + 1;
        }
        proof {
            assert forall|b: int| 0 <= b < black_byte_len implies #[trigger] black_dst@[b]
                == black_gathered_bytes(t)[b] by {
                if b >= 4 * black_count {
                    assert(b / 4 >= black_count) by (nonlinear_arith)
                        requires
                            b >= 4 * black_count,
                    ;
                }
            }
            assert(black_dst@ =~= black_gathered_bytes(t));
        }
        let black_new_strides = BlackStrides::black_from_shape(&self.black_shape);
        Ok(BlackTensor {
            black_buffer: Arc::new(black_new_buf),
            black_shape: self.black_shape.clone(),
            black_strides: black_new_strides,
            black_dtype: self.black_dtype,
            black_device: self.black_device,
            black_offset: 0,
        })
    }

    /// Whether every element of this tensor can be read: there is a stride
    /// per axis, and for each element that a gather visits, its offset sums
    /// fit and its lane lies inside the buffer.
    pub fn black_gather_check(&self) -> (r: bool)
        requires
            black_shape_fits(self.black_shape@),
            black_product(self.black_shape@) * black_dtype_size(self.black_dtype) <= usize::MAX,
        ensures
            r == black_gather_ok(*self),
    {
        let ghost t = *self;
        let ghost dims = self.black_shape@;
        let black_dims = self.black_shape.black_dims();
        let black_strides_sl = self.black_strides.black_as_slice();
        let black_rank = black_dims.len();
        if black_strides_sl.len() < black_rank {
            return false;
        }
        let black_numel = self.black_numel();
        let black_byte_len = black_numel * self.black_dtype.black_size_in_bytes();
        let black_count = if black_numel <= black_byte_len / 4 {
            black_numel
        } else {
            black_byte_len / 4
        };
        assert(black_count == black_gather_count(t));
        let black_src_len = (*self.black_buffer).black_len();
        assert(black_src_len == black_bytes_of(t).len());
        let mut black_indices: Vec<usize> = Vec::new();
        let mut black_z: usize = 0;
        while black_z < black_rank
            invariant
                black_z <= black_rank,
                black_indices@ == black_zeros_seq(black_z as nat),
            decreases black_rank - black_z,
        {
            black_indices.push(0usize);
            black_z = black_z + 1;
            assert(black_indices@ =~= black_zeros_seq(black_z as nat));
        }
        proof {
            if black_count > 0 {
                lemma_unravel_zero(dims);
            }
        }
        let mut black_j: usize = 0;
        while black_j < black_count
            invariant
                t == *self,
                dims == self.black_shape@,
                black_dims@ == dims,
                black_rank == dims.len(),
                black_strides_sl@ == self.black_strides@,
                black_strides_sl@.len() >= black_rank,
                black_src_len == black_bytes_of(t).len(),
                black_count == black_gather_count(t),
                black_count <= black_numel,
                black_numel == black_product(dims),
                black_j <= black_count,
                black_indices@.len() == black_rank,
                black_j < black_count ==> black_indices@ == black_unravel(dims, black_j as int),
                forall|i: int| 0 <= i < black_j ==> #[trigger] black_lane_readable(t, i),
            decreases black_count - black_j,
        {
            proof {
                lemma_unravel_len(dims, black_j as int);
            }
            match black_source_offset_checked(self.black_offset, &black_indices, black_strides_sl) {
                None => {
                    assert(!black_lane_readable(t, black_j as int));
                    return false;
                },
                Some(black_off) => {
                    assert(black_offset_sums_fit(
                        self.black_offset as int,
                        black_indices@,
                        self.black_strides@,
                        black_rank as int,
                    ));
                    proof {
                        crate::black_strides::lemma_dot_nonneg(black_indices@, self.black_strides@, black_rank as int);
                        assert(black_offset_sums_fit(self.black_offset as int, black_indices@, self.black_strides@, black_rank as int));
                        assert(self.black_offset + black_dot(black_indices@, self.black_strides@, black_rank as int) <= usize::MAX);
                    }
                    assert(black_off == black_source_lane(t, black_j as int));
                    if black_off >= black_src_len / 4 {
                        assert(!black_lane_readable(t, black_j as int));
                        return false;
                    }
                    assert(black_lane_readable(t, black_j as int));
                },
            }
            proof {
                lemma_unravel_bounds(dims, black_j as int);
            }
            black_odometer_step(&mut black_indices, black_dims);
            proof {
                if black_j + 1 < black_count {
                    lemma_increment_unravel(dims, black_j as int);
                }
            }
            black_j = black_j + 1;
        }
        true
    }

    /// Whether [`Self::black_contiguous`] can run: the shape multiplies out,
    /// a copy's byte size fits, and a host copy can read every element.
    pub fn black_contiguous_check(&self) -> (r: bool)
        ensures
            r == (black_shape_fits(self.black_shape@) && (!black_is_contiguous_spec(*self) ==> black_product(
                self.black_shape@,
            ) * black_dtype_size(self.black_dtype) <= usize::MAX) && (!black_is_contiguous_spec(*self)
                && self.black_device is BlackCpu ==> black_gather_ok(*self))),
    {
        let black_dims = self.black_shape.black_dims();
        if !black_products_fit(black_dims) || !black_suffixes_fit(black_dims) {
            return false;
        }
        if self.black_is_contiguous() {
            return true;
        }
        let black_numel = black_product_of(black_dims);
        match black_numel.checked_mul(self.black_dtype.black_size_in_bytes()) {
            None => false,
            Some(_) => match self.black_device {
                BlackDevice::BlackCpu => self.black_gather_check(),
                _ => true,
            },
        }
    }

    /// The elements, in row-major order, as 32-bit words; only
    /// single-precision tensors can be read this way.
    pub fn black_to_lane_vec(&self) -> (r: Result<Vec<u32>, BlackError>)
        requires
            black_row_major_ok(*self),
        ensures
            black_is_contiguous_spec(*self) && !(self.black_dtype is BlackF32) ==> r matches Err(
                BlackError::BlackDTypeError { .. },
            ),
            black_is_contiguous_spec(*self) && self.black_dtype is BlackF32 ==> r is Ok,
            !black_is_contiguous_spec(*self) ==> black_alloc_verdict(
                (black_product(self.black_shape@) * black_dtype_size(self.black_dtype)) as int,
                self.black_device,
                r,
            ) || (!(self.black_dtype is BlackF32) && r matches Err(BlackError::BlackDTypeError { .. })),
            r is Err ==> (r matches Err(BlackError::BlackDTypeError { .. }) || r matches Err(
                BlackError::BlackMemoryError { .. },
            ) || r matches Err(BlackError::BlackDeviceError { .. })),
            r matches Ok(v) ==> self.black_dtype is BlackF32 && exists|big: bool| v@ == black_row_major_words(big, *self),
    {
        let black_contig = self.black_contiguous()?;
        let black_big = black_machine_big_endian();
        match black_contig.black_dtype {
            BlackDType::BlackF32 => {
                let black_bytes = (*black_contig.black_buffer).black_as_slice();
                let black_n = black_contig.black_numel();
                let black_start = black_contig.black_offset;
                let black_bytes_len = black_bytes.len();
                let ghost c = black_contig;
                proof {
                    if !black_is_contiguous_spec(*self) {
                        assert(black_product(self.black_shape@) <= black_product(self.black_shape@) * 4 / 4);
                    }
                }
                let mut black_out: Vec<u32> = Vec::new();
                let mut black_i: usize = 0;
                while black_i < black_n
                    invariant
                        black_bytes@ == black_bytes_of(c),
                        black_bytes_len == black_bytes@.len(),
                        black_start == c.black_offset,
                        black_start + black_n <= black_bytes@.len() / 4,
                        black_i <= black_n,
                        black_out@ == Seq::new(black_i as nat, |i: int| black_lane_word(black_big, black_bytes@, black_start + i)),
                    decreases black_n - black_i,
                {
                    let black_at = black_start + black_i;
                    proof {
                        assert(4 * black_at + 3 < black_bytes@.len()) by (nonlinear_arith)
                            requires
                                black_at < black_bytes@.len() / 4,
                        ;
                    }
                    let black_b = 4 * black_at;
                    let black_w = if black_big {
                        (black_bytes[black_b + 3] as u32) | ((black_bytes[black_b + 2] as u32) << 8u32)
                            | ((black_bytes[black_b + 1] as u32) << 16u32) | ((black_bytes[black_b] as u32) << 24u32)
                    } else {
                        (black_bytes[black_b] as u32) | ((black_bytes[black_b + 1] as u32) << 8u32)
                            | ((black_bytes[black_b + 2] as u32) << 16u32) | ((black_bytes[black_b + 3] as u32) << 24u32)
                    };
                    black_out.push(black_w);
                    black_i = black_i + 1;
                    assert(black_out@ =~= Seq::new(black_i as nat, |i: int| black_lane_word(black_big, black_bytes@, black_start + i)));
                }
                assert(black_out@ =~= black_row_major_words(black_big, *self));
                Ok(black_out)
            },
            _ => Err(BlackError::BlackDTypeError {
                black_msg: "cannot convert non-f32 tensor to Vec<f32>".to_string(),
            }),
        }
    }

    /// Whether every element of a single-precision tensor is finite (neither
    /// infinite nor NaN).
    pub fn black_is_finite(&self) -> (r: Result<bool, BlackError>)
        requires
            black_row_major_ok(*self),
        ensures
            black_is_contiguous_spec(*self) && !(self.black_dtype is BlackF32) ==> r matches Err(
                BlackError::BlackDTypeError { .. },
            ),
            black_is_contiguous_spec(*self) && self.black_dtype is BlackF32 ==> r is Ok,
            r is Err ==> (r matches Err(BlackError::BlackDTypeError { .. }) || r matches Err(
                BlackError::BlackMemoryError { .. },
            ) || r matches Err(BlackError::BlackDeviceError { .. })),
            r matches Ok(b) ==> self.black_dtype is BlackF32 && exists|big: bool|
                #![trigger black_row_major_words(big, *self)]
                b == (forall|i: int|
                0 <= i < black_product(self.black_shape@) ==> #[trigger] black_word_is_finite(
                    black_row_major_words(big, *self)[i],
                )),
    {
        let black_data = self.black_to_lane_vec()?;
        let ghost big = choose|big: bool| black_data@ == black_row_major_words(big, *self);
        let mut black_i: usize = 0;
        while black_i < black_data.len()
            invariant
                black_data@ == black_row_major_words(big, *self),
                self.black_dtype is BlackF32,
                black_i <= black_data@.len(),
                forall|j: int| 0 <= j < black_i ==> #[trigger] black_word_is_finite(black_data@[j]),
            decreases black_data@.len() - black_i,
        {
            if (black_data[black_i] >> 23u32) & 0xff == 0xff {
                proof {
                    assert(black_data@.len() == black_product(self.black_shape@));
                    assert(!black_word_is_finite(black_row_major_words(big, *self)[black_i as int]));
                }
                return Ok(false);
            }
            black_i = black_i + 1;
        }
        Ok(true)
    }

    /// The same elements under another shape of equal element count, sharing
    /// the buffer; only a contiguous tensor can be viewed.
    pub fn black_view(&self, black_new_shape: &[usize]) -> (r: Result<Self, BlackError>)
        requires
            black_shape_fits(self.black_shape@),
            black_shape_fits(black_new_shape@),
        ensures
            black_product(black_new_shape@) != black_product(self.black_shape@) ==> r matches Err(
                BlackError::BlackShapeError { .. },
            ),
            black_product(black_new_shape@) == black_product(self.black_shape@)
                && !black_is_contiguous_spec(*self) ==> r matches Err(
                BlackError::BlackShapeError { .. },
            ),
            black_product(black_new_shape@) == black_product(self.black_shape@)
                && black_is_contiguous_spec(*self) ==> (r matches Ok(t) && {
                &&& black_same_storage(t, *self)
                &&& black_same_meta(t, *self)
                &&& t.black_shape@ == black_new_shape@
                &&& t.black_strides@ == black_contiguous_strides(black_new_shape@)
            }),
    {
        let black_new_s = BlackShape::black_new(black_new_shape);
        if black_new_s.black_numel() != self.black_numel() {
            return Err(BlackError::BlackShapeError {
                black_msg: black_msg_view(self.black_numel(), black_new_shape),
            });
        }
        if !self.black_is_contiguous() {
            return Err(BlackError::BlackShapeError {
                black_msg: "cannot view non-contiguous tensor".to_string(),
            });
        }
        let black_new_strides = BlackStrides::black_from_shape(&black_new_s);
        Ok(BlackTensor {
            black_buffer: black_share(&self.black_buffer),
            black_shape: black_new_s,
            black_strides: black_new_strides,
            black_dtype: self.black_dtype,
            black_device: self.black_device,
            black_offset: self.black_offset,
        })
    }

    /// The same elements under another shape of equal element count: a view
    /// of this tensor when it is row-major, else a view of its row-major
    /// copy.
    pub fn black_reshape(&self, black_new_shape: &[usize]) -> (r: Result<Self, BlackError>)
        requires
            black_shape_fits(self.black_shape@),
            black_shape_fits(black_new_shape@),
            !black_is_contiguous_spec(*self) ==> black_product(self.black_shape@) * black_dtype_size(
                self.black_dtype,
            ) <= usize::MAX,
            !black_is_contiguous_spec(*self) && self.black_device is BlackCpu ==> black_gather_ok(*self),
        ensures
            black_product(black_new_shape@) != black_product(self.black_shape@) ==> r is Err,
            black_is_contiguous_spec(*self) && black_product(black_new_shape@) != black_product(
                self.black_shape@,
            ) ==> r matches Err(BlackError::BlackShapeError { .. }),
            black_is_contiguous_spec(*self) && black_product(black_new_shape@) == black_product(
                self.black_shape@,
            ) ==> (r matches Ok(t) && {
                &&& black_same_storage(t, *self)
                &&& black_same_meta(t, *self)
                &&& t.black_shape@ == black_new_shape@
                &&& t.black_strides@ == black_contiguous_strides(black_new_shape@)
            }),
            !black_is_contiguous_spec(*self) && black_product(black_new_shape@) == black_product(
                self.black_shape@,
            ) ==> black_alloc_verdict(
                (black_product(self.black_shape@) * black_dtype_size(self.black_dtype)) as int,
                self.black_device,
                r,
            ),
            !black_is_contiguous_spec(*self) ==> (r matches Ok(t) ==> {
                &&& black_bytes_of(t) == black_gathered_bytes(*self)
                &&& t.black_buffer.black_device_of() == self.black_device
                &&& black_same_meta(t, *self)
                &&& t.black_offset == 0
                &&& t.black_shape@ == black_new_shape@
                &&& t.black_strides@ == black_contiguous_strides(black_new_shape@)
            }),
            !black_is_contiguous_spec(*self) && black_product(black_new_shape@) != black_product(
                self.black_shape@,
            ) ==> (r matches Err(BlackError::BlackShapeError { .. }) || black_alloc_verdict(
                (black_product(self.black_shape@) * black_dtype_size(self.black_dtype)) as int,
                self.black_device,
                r,
            )),
            r is Err ==> (r matches Err(BlackError::BlackShapeError { .. }) || r matches Err(
                BlackError::BlackMemoryError { .. },
            ) || r matches Err(BlackError::BlackDeviceError { .. })),
    {
        if self.black_is_contiguous() {
            self.black_view(black_new_shape)
        } else {
            let black_contig = self.black_contiguous()?;
            proof {
                assert(black_is_contiguous_spec(black_contig));
            }
            black_contig.black_view(black_new_shape)
        }
    }

    /// Exchanges two axes (extents and strides), sharing the buffer.
    pub fn black_transpose(&self, black_dim0: usize, black_dim1: usize) -> (r: Result<Self, BlackError>)
        requires
            black_dim0 < self.black_shape@.len() && black_dim1 < self.black_shape@.len() ==> black_dim0
                < self.black_strides@.len() && black_dim1 < self.black_strides@.len(),
        ensures
            (black_dim0 >= self.black_shape@.len() || black_dim1 >= self.black_shape@.len())
                ==> r matches Err(BlackError::BlackIndexError { .. }),
            (black_dim0 < self.black_shape@.len() && black_dim1 < self.black_shape@.len()) ==> (
            r matches Ok(t) && {
                &&& black_same_storage(t, *self)
                &&& black_same_meta(t, *self)
                &&& t.black_shape@ == black_swap_seq(self.black_shape@, black_dim0 as int, black_dim1 as int)
                &&& t.black_strides@ == black_swap_seq(self.black_strides@, black_dim0 as int, black_dim1 as int)
            }),
    {
        let black_ndim = self.black_ndim();
        if black_dim0 >= black_ndim || black_dim1 >= black_ndim {
            return Err(BlackError::BlackIndexError {
                black_msg: black_msg_transpose(black_dim0, black_dim1, black_ndim),
            });
        }
        let mut black_new_dims: Vec<usize> = vstd::slice::slice_to_vec(self.black_shape.black_dims());
        black_swap_vec(&mut black_new_dims, black_dim0, black_dim1);
        let mut black_new_strides: Vec<usize> = vstd::slice::slice_to_vec(self.black_strides.black_as_slice());
        black_swap_vec(&mut black_new_strides, black_dim0, black_dim1);
        Ok(BlackTensor {
            black_buffer: black_share(&self.black_buffer),
            black_shape: BlackShape::black_new(black_new_dims.as_slice()),
            black_strides: BlackStrides::black_new(black_new_strides),
            black_dtype: self.black_dtype,
            black_device: self.black_device,
            black_offset: self.black_offset,
        })
    }

    /// Exchanges the last two axes; needs at least two.
    pub fn black_t(&self) -> (r: Result<Self, BlackError>)
        requires
            self.black_shape@.len() >= 2 ==> self.black_strides@.len() >= self.black_shape@.len(),
        ensures
            self.black_shape@.len() < 2 ==> r matches Err(BlackError::BlackShapeError { .. }),
            self.black_shape@.len() >= 2 ==> (r matches Ok(t) && {
                let n = self.black_shape@.len() as int;
                &&& black_same_storage(t, *self)
                &&& black_same_meta(t, *self)
                &&& t.black_shape@ == black_swap_seq(self.black_shape@, n - 2, n - 1)
                &&& t.black_strides@ == black_swap_seq(self.black_strides@, n - 2, n - 1)
            }),
    {
        let black_ndim = self.black_ndim();
        if black_ndim < 2 {
            return Err(BlackError::BlackShapeError {
                black_msg: "cannot transpose tensor with fewer than 2 dimensions".to_string(),
            });
        }
        self.black_transpose(black_ndim - 2, black_ndim - 1)
    }

    /// Reorders the axes: axis `i` of the result is axis `black_dims[i]` of
    /// this tensor. The list must have one entry per axis; it is not checked
    /// to be a permutation.
    pub fn black_permute(&self, black_dims: &[usize]) -> (r: Result<Self, BlackError>)
        requires
            black_dims@.len() == self.black_shape@.len() ==> forall|i: int|
                0 <= i < black_dims@.len() ==> #[trigger] black_dims@[i] < self.black_shape@.len()
                    && black_dims@[i] < self.black_strides@.len(),
        ensures
            black_dims@.len() != self.black_shape@.len() ==> r matches Err(
                BlackError::BlackShapeError { .. },
            ),
            black_dims@.len() == self.black_shape@.len() ==> (r matches Ok(t) && {
                &&& black_same_storage(t, *self)
                &&& black_same_meta(t, *self)
                &&& t.black_shape@ == black_dims@.map_values(|a: usize| self.black_shape@[a as int])
                &&& t.black_strides@ == black_dims@.map_values(|a: usize| self.black_strides@[a as int])
            }),
    {
        let black_ndim = self.black_ndim();
        if black_dims.len() != black_ndim {
            return Err(BlackError::BlackShapeError {
                black_msg: black_msg_permute(black_dims.len(), black_ndim),
            });
        }
        let black_old_dims = self.black_shape.black_dims();
        let black_old_strides = self.black_strides.black_as_slice();
        let mut black_new_dims: Vec<usize> = vec![0usize; black_ndim];
        let mut black_new_strides: Vec<usize> = vec![0usize; black_ndim];
        let mut black_i: usize = 0;
        while black_i < black_ndim
            invariant
                black_ndim == black_dims@.len(),
                black_ndim == black_old_dims@.len(),
                black_old_dims@ == self.black_shape@,
                black_old_strides@ == self.black_strides@,
                forall|i: int| 0 <= i < black_dims@.len() ==> #[trigger] black_dims@[i] < black_ndim
                    && black_dims@[i] < black_old_strides@.len(),
                black_i <= black_ndim,
                black_new_dims@.len() == black_ndim,
                black_new_strides@.len() == black_ndim,
                forall|j: int| 0 <= j < black_i ==> black_new_dims@[j] == black_old_dims@[black_dims@[j] as int],
                forall|j: int| 0 <= j < black_i ==> black_new_strides@[j] == black_old_strides@[black_dims@[j] as int],
            decreases black_ndim - black_i,
        {
            let black_a = black_dims[black_i];
            black_new_dims.set(black_i, black_old_dims[black_a]);
            black_new_strides.set(black_i, black_old_strides[black_a]);
            black_i = black_i + 1;
        }
        assert(black_new_dims@ =~= black_dims@.map_values(|a: usize| self.black_shape@[a as int]));
        assert(black_new_strides@ =~= black_dims@.map_values(|a: usize| self.black_strides@[a as int]));
        Ok(BlackTensor {
            black_buffer: black_share(&self.black_buffer),
            black_shape: BlackShape::black_new(black_new_dims.as_slice()),
            black_strides: BlackStrides::black_new(black_new_strides),
            black_dtype: self.black_dtype,
            black_device: self.black_device,
            black_offset: self.black_offset,
        })
    }
}

/// The bytes of a tensor of `n` ones of element type `dtype`, with words
/// in the byte order `big`.
pub open spec fn black_ones_bytes(big: bool, dtype: BlackDType, n: nat) -> Seq<u8> {
    match dtype {
        BlackDType::BlackF32 => black_words32_bytes(big, Seq::new(n, |i: int| BLACK_ONE_BITS32)),
        BlackDType::BlackF64 => black_words64_bytes(big, Seq::new(n, |i: int| BLACK_ONE_BITS64)),
        BlackDType::BlackI32 => black_words32_bytes(big, Seq::new(n, |i: int| 1u32)),
        _ => Seq::new(n * black_dtype_size(dtype), |i: int| 1u8),
    }
}

/// `n` copies of a 32-bit word.
fn black_repeat_u32(black_w: u32, black_n: usize) -> (r: Vec<u32>)
    ensures
        r@ == Seq::new(black_n as nat, |i: int| black_w),
{
    let mut r: Vec<u32> = Vec::new();
    let mut black_i: usize = 0;
    while black_i < black_n
        invariant
            black_i <= black_n,
            r@ == Seq::new(black_i as nat, |i: int| black_w),
        decreases black_n - black_i,
    {
        r.push(black_w);
        black_i = black_i + 1;
        assert(r@ =~= Seq::new(black_i as nat, |i: int| black_w));
    }
    r
}

/// `n` copies of a 64-bit word.
fn black_repeat_u64(black_w: u64, black_n: usize) -> (r: Vec<u64>)
    ensures
        r@ == Seq::new(black_n as nat, |i: int| black_w),
{
    let mut r: Vec<u64> = Vec::new();
    let mut black_i: usize = 0;
    while black_i < black_n
        invariant
            black_i <= black_n,
            r@ == Seq::new(black_i as nat, |i: int| black_w),
        decreases black_n - black_i,
    {
        r.push(black_w);
        black_i = black_i + 1;
        assert(r@ =~= Seq::new(black_i as nat, |i: int| black_w));
    }
    r
}

} // verus!
