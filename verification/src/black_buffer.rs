use vstd::prelude::*;
use crate::black_device::BlackDevice;
use crate::black_error::BlackError;
use crate::black_msg::black_msg_alloc_failed;

verus! {

/// The alignment, in bytes, of every non-empty buffer.
pub const BLACK_BUFFER_ALIGN: usize = 64;

/// A request of `size` bytes at the buffer alignment is a valid memory
/// layout: rounded up to a multiple of the alignment it stays within
/// `isize::MAX`. An empty request is always valid.
pub open spec fn black_layout_ok(size: usize) -> bool {
    let align = BLACK_BUFFER_ALIGN as int;
    let s = size as int;
    s == 0 || s + (align - s % align) % align <= isize::MAX
}

/// Byte `k` (0 = least significant) of a 32-bit word.
pub open spec fn black_byte_of_u32(x: u32, k: int) -> u8 {
    if k == 0 {
        (x & 0xff) as u8
    } else if k == 1 {
        ((x >> 8u32) & 0xff) as u8
    } else if k == 2 {
        ((x >> 16u32) & 0xff) as u8
    } else {
        ((x >> 24u32) & 0xff) as u8
    }
}

/// Byte `k` (0 = least significant) of a 64-bit word.
pub open spec fn black_byte_of_u64(x: u64, k: int) -> u8 {
    if k < 4 {
        black_byte_of_u32((x & 0xffff_ffff) as u32, k)
    } else {
        black_byte_of_u32((x >> 32u64) as u32, k - 4)
    }
}

/// Byte `j` of a word of `width` bytes stored in the given byte order: the
/// byte of significance `j` (least significant first), or of `width - 1 -
/// j` when the order is big-endian.
pub open spec fn black_order_pos(big: bool, width: int, j: int) -> int {
    if big {
        width - 1 - j
    } else {
        j
    }
}

/// 32-bit words laid out one after the other, each in the given byte order.
pub open spec fn black_words32_bytes(big: bool, words: Seq<u32>) -> Seq<u8> {
    Seq::new(4 * words.len(), |j: int| black_byte_of_u32(words[j / 4], black_order_pos(big, 4, j % 4)))
}

/// 64-bit words laid out one after the other, each in the given byte order.
pub open spec fn black_words64_bytes(big: bool, words: Seq<u64>) -> Seq<u8> {
    Seq::new(8 * words.len(), |j: int| black_byte_of_u64(words[j / 8], black_order_pos(big, 8, j % 8)))
}

/// Signed 32-bit values as the words of their two's complement.
pub open spec fn black_i32_words(data: Seq<i32>) -> Seq<u32> {
    data.map_values(|v: i32| v as u32)
}

/// Signed 64-bit values as the words of their two's complement.
pub open spec fn black_i64_words(data: Seq<i64>) -> Seq<u64> {
    data.map_values(|v: i64| v as u64)
}

/// The bytes of `u32::to_ne_bytes`: the word in the machine's byte order,
/// which is least significant byte first or most significant byte first.
#[verifier::external_body]
fn black_ne_bytes_u32(black_w: u32) -> (r: [u8; 4])
    ensures
        r@ == seq![black_byte_of_u32(black_w, 0), black_byte_of_u32(black_w, 1), black_byte_of_u32(black_w, 2), black_byte_of_u32(black_w, 3)]
            || r@ == seq![black_byte_of_u32(black_w, 3), black_byte_of_u32(black_w, 2), black_byte_of_u32(black_w, 1), black_byte_of_u32(black_w, 0)],
{
    black_w.to_ne_bytes()
}

/// Whether this machine stores words most significant byte first, read off
/// the native bytes of the word 1.
pub(crate) fn black_machine_big_endian() -> bool {
    let black_b = black_ne_bytes_u32(1);
    black_b[0] == 0
}

/// `n` zero bytes.
pub open spec fn black_zero_bytes(n: nat) -> Seq<u8> {
    Seq::new(n, |i: int| 0u8)
}

/// What an allocation of `size` bytes on `device` may answer: an empty
/// request always succeeds; an invalid layout is a memory error; only the
/// host holds memory; the host may still refuse, with a memory error.
pub open spec fn black_alloc_verdict<T>(size: int, device: BlackDevice, r: Result<T, BlackError>) -> bool {
    &&& (size == 0 ==> r is Ok)
    &&& (size > 0 && !black_layout_ok(size as usize) ==> (r matches Err(
        BlackError::BlackMemoryError { .. },
    )))
    &&& (size > 0 && black_layout_ok(size as usize) && !(device is BlackCpu) ==> (r matches Err(
        BlackError::BlackDeviceError { .. },
    )))
    &&& (size > 0 && device is BlackCpu ==> (r is Ok || r matches Err(
        BlackError::BlackMemoryError { .. },
    )))
}

/// A block of bytes tied to the device that holds it.
#[derive(Debug)]
pub struct BlackBuffer {
    black_data: Vec<u8>,
    black_device: BlackDevice,
}

impl View for BlackBuffer {
    type V = Seq<u8>;

    closed spec fn view(&self) -> Seq<u8> {
        self.black_data@
    }
}

impl Clone for BlackBuffer {
    fn clone(&self) -> (r: Self)
        ensures
            r@ == self@,
            r.black_device_of() == self.black_device_of(),
    {
        BlackBuffer {
            black_data: vstd::slice::slice_to_vec(self.black_data.as_slice()),
            black_device: self.black_device,
        }
    }
}

impl BlackBuffer {
    /// The device the buffer belongs to.
    pub closed spec fn black_device_of(&self) -> BlackDevice {
        self.black_device
    }

    /// A zeroed buffer of `black_size` bytes on `black_device`.
    ///
    /// An empty buffer is granted on any device. Otherwise a size that does
    /// not form a valid layout is a memory error; only the host can hold
    /// memory (the accelerators give a device error); and the host's refusal
    /// of the allocation is a memory error.
    pub fn black_alloc(black_size: usize, black_device: BlackDevice) -> (r: Result<Self, BlackError>)
        ensures
            r matches Ok(b) ==> b@ == black_zero_bytes(black_size as nat) && b.black_device_of()
                == black_device,
            black_alloc_verdict(black_size as int, black_device, r),
    {
        if black_size == 0 {
            let r = BlackBuffer { black_data: Vec::new(), black_device };
            assert(r@ =~= black_zero_bytes(0));
            return Ok(r);
        }
        proof {
            lemma_layout_ok_bound(black_size);
        }
        if black_size > (isize::MAX as usize) - (BLACK_BUFFER_ALIGN - 1) {
            return Err(BlackError::BlackMemoryError {
                black_msg: "invalid parameters to Layout::from_size_align".to_string(),
            });
        }
        match black_device {
            BlackDevice::BlackCpu => {},
            BlackDevice::BlackCuda(_) => {
                return Err(BlackError::BlackDeviceError {
                    black_msg: "CUDA allocation requires black_cuda feature".to_string(),
                });
            },
            BlackDevice::BlackMetal(_) => {
                return Err(BlackError::BlackDeviceError {
                    black_msg: "Metal allocation not yet supported".to_string(),
                });
            },
        }
        let mut black_data: Vec<u8> = Vec::new();
        match black_data.try_reserve(black_size) {
            Ok(()) => {},
            Err(_) => {
                return Err(BlackError::BlackMemoryError {
                    black_msg: black_msg_alloc_failed(black_size),
                });
            },
        }
        let mut black_i: usize = 0;
        while black_i < black_size
            invariant
                black_i <= black_size,
                black_data@ == black_zero_bytes(black_i as nat),
            decreases black_size - black_i,
        {
            black_data.push(0u8);
            black_i = black_i + 1;
            assert(black_data@ =~= black_zero_bytes(black_i as nat));
        }
        Ok(BlackBuffer { black_data, black_device })
    }

    /// A host buffer holding the 32-bit words `black_words`, each in the
    /// machine's byte order.
    pub fn black_from_vec_u32(black_words: Vec<u32>) -> (r: Result<Self, BlackError>)
        requires
            4 * black_words@.len() <= usize::MAX,
        ensures
            r matches Ok(b) ==> (exists|big: bool| b@ == black_words32_bytes(big, black_words@))
                && b.black_device_of() is BlackCpu,
            black_alloc_verdict((4 * black_words@.len()) as int, BlackDevice::BlackCpu, r),
    {
        let black_byte_len = black_words.len() * 4;
        let mut black_buf = BlackBuffer::black_alloc(black_byte_len, BlackDevice::BlackCpu)?;
        let black_big = black_machine_big_endian();
        let mut black_i: usize = 0;
        while black_i < black_words.len()
            invariant
                black_byte_len == 4 * black_words@.len(),
                black_i <= black_words@.len(),
                black_buf.black_data@.len() == black_byte_len,
                black_buf.black_device is BlackCpu,
                forall|j: int|
                    0 <= j < 4 * black_i ==> #[trigger] black_buf.black_data@[j] == black_byte_of_u32(
                        black_words@[j / 4],
                        black_order_pos(black_big, 4, j % 4),
                    ),
            decreases black_words@.len() - black_i,
        {
            let black_w = black_words[black_i];
            let black_at = 4 * black_i;
            let black_b0 = (black_w & 0xff) as u8;
            let black_b1 = ((black_w >> 8u32) & 0xff) as u8;
            let black_b2 = ((black_w >> 16u32) & 0xff) as u8;
            let black_b3 = ((black_w >> 24u32) & 0xff) as u8;
            if black_big {
                black_buf.black_data.set(black_at, black_b3);
                black_buf.black_data.set(black_at + 1, black_b2);
                black_buf.black_data.set(black_at + 2, black_b1);
                black_buf.black_data.set(black_at + 3, black_b0);
            } else {
                black_buf.black_data.set(black_at, black_b0);
                black_buf.black_data.set(black_at + 1, black_b1);
                black_buf.black_data.set(black_at + 2, black_b2);
                black_buf.black_data.set(black_at + 3, black_b3);
            }
            black_i = black_i + 1;
        }
        assert(black_buf.black_data@ =~= black_words32_bytes(black_big, black_words@));
        Ok(black_buf)
    }

    /// A host buffer holding the 64-bit words `black_words`, each in the
    /// machine's byte order.
    pub fn black_from_vec_u64(black_words: Vec<u64>) -> (r: Result<Self, BlackError>)
        requires
            8 * black_words@.len() <= usize::MAX,
        ensures
            r matches Ok(b) ==> (exists|big: bool| b@ == black_words64_bytes(big, black_words@))
                && b.black_device_of() is BlackCpu,
            black_alloc_verdict((8 * black_words@.len()) as int, BlackDevice::BlackCpu, r),
    {
        let black_byte_len = black_words.len() * 8;
        let mut black_buf = BlackBuffer::black_alloc(black_byte_len, BlackDevice::BlackCpu)?;
        let black_big = black_machine_big_endian();
        let mut black_i: usize = 0;
        while black_i < black_words.len()
            invariant
                black_byte_len == 8 * black_words@.len(),
                black_i <= black_words@.len(),
                black_buf.black_data@.len() == black_byte_len,
                black_buf.black_device is BlackCpu,
                forall|j: int|
                    0 <= j < 8 * black_i ==> #[trigger] black_buf.black_data@[j] == black_byte_of_u64(
                        black_words@[j / 8],
                        black_order_pos(black_big, 8, j % 8),
                    ),
            decreases black_words@.len() - black_i,
        {
            let black_w = black_words[black_i];
            let black_lo = (black_w & 0xffff_ffff) as u32;
            let black_hi = (black_w >> 32u64) as u32;
            let black_at = 8 * black_i;
            let black_bytes: [u8; 8] = [
                (black_lo & 0xff) as u8,
                ((black_lo >> 8u32) & 0xff) as u8,
                ((black_lo >> 16u32) & 0xff) as u8,
                ((black_lo >> 24u32) & 0xff) as u8,
                (black_hi & 0xff) as u8,
                ((black_hi >> 8u32) & 0xff) as u8,
                ((black_hi >> 16u32) & 0xff) as u8,
                ((black_hi >> 24u32) & 0xff) as u8,
            ];
            let mut black_k: usize = 0;
            while black_k < 8
                invariant
                    black_k <= 8,
                    black_at == 8 * black_i,
                    black_i < black_words@.len(),
                    black_byte_len == 8 * black_words@.len(),
                    black_buf.black_data@.len() == black_byte_len,
                    black_buf.black_device is BlackCpu,
                    black_w == black_words@[black_i as int],
                    forall|q: int| 0 <= q < 8 ==> #[trigger] black_bytes@[q] == black_byte_of_u64(black_w, q),
                    forall|j: int|
                        0 <= j < 8 * black_i ==> #[trigger] black_buf.black_data@[j] == black_byte_of_u64(
                            black_words@[j / 8],
                            black_order_pos(black_big, 8, j % 8),
                        ),
                    forall|j: int|
                        8 * black_i <= j < 8 * black_i + black_k ==> #[trigger] black_buf.black_data@[j] == black_byte_of_u64(
                            black_words@[j / 8],
                            black_order_pos(black_big, 8, j % 8),
                        ),
                decreases 8 - black_k,
            {
                let black_src = if black_big { 7 - black_k } else { black_k };
                black_buf.black_data.set(black_at + black_k, black_bytes[black_src]);
                proof {
                    let j = black_at + black_k;
                    assert(j / 8 == black_i as int);
                    assert(j % 8 == black_k as int);
                }
                black_k = black_k + 1;
            }
            black_i = black_i + 1;
        }
        assert(black_buf.black_data@ =~= black_words64_bytes(black_big, black_words@));
        Ok(black_buf)
    }

    /// A host buffer holding `black_data`, each value in two's complement,
    /// in the machine's byte order.
    pub fn black_from_vec_i32(black_data: Vec<i32>) -> (r: Result<Self, BlackError>)
        requires
            4 * black_data@.len() <= usize::MAX,
        ensures
            r matches Ok(b) ==> (exists|big: bool| b@ == #[trigger] black_words32_bytes(big, black_i32_words(black_data@)))
                && b.black_device_of() is BlackCpu,
            black_alloc_verdict((4 * black_data@.len()) as int, BlackDevice::BlackCpu, r),
    {
        let mut black_words: Vec<u32> = Vec::new();
        let mut black_i: usize = 0;
        while black_i < black_data.len()
            invariant
                black_i <= black_data@.len(),
                black_words@ == black_data@.take(black_i as int).map_values(|v: i32| v as u32),
            decreases black_data@.len() - black_i,
        {
            black_words.push(black_data[black_i] as u32);
            black_i = black_i + 1;
            assert(black_words@ =~= black_data@.take(black_i as int).map_values(|v: i32| v as u32));
        }
        assert(black_data@.take(black_i as int) =~= black_data@);
        let ghost w = black_words@;
        assert(w == black_i32_words(black_data@));
        let r = BlackBuffer::black_from_vec_u32(black_words);
        proof {
            if r is Ok {
                let b = r->Ok_0;
                let big = choose|big: bool| b@ == black_words32_bytes(big, w);
                assert(b@ == black_words32_bytes(big, black_i32_words(black_data@)));
            }
        }
        r
    }

    /// A host buffer holding `black_data`, each value in two's complement,
    /// in the machine's byte order.
    pub fn black_from_vec_i64(black_data: Vec<i64>) -> (r: Result<Self, BlackError>)
        requires
            8 * black_data@.len() <= usize::MAX,
        ensures
            r matches Ok(b) ==> (exists|big: bool| b@ == #[trigger] black_words64_bytes(big, black_i64_words(black_data@)))
                && b.black_device_of() is BlackCpu,
            black_alloc_verdict((8 * black_data@.len()) as int, BlackDevice::BlackCpu, r),
    {
        let mut black_words: Vec<u64> = Vec::new();
        let mut black_i: usize = 0;
        while black_i < black_data.len()
            invariant
                black_i <= black_data@.len(),
                black_words@ == black_data@.take(black_i as int).map_values(|v: i64| v as u64),
            decreases black_data@.len() - black_i,
        {
            black_words.push(black_data[black_i] as u64);
            black_i = black_i + 1;
            assert(black_words@ =~= black_data@.take(black_i as int).map_values(|v: i64| v as u64));
        }
        assert(black_data@.take(black_i as int) =~= black_data@);
        let ghost w = black_words@;
        assert(w == black_i64_words(black_data@));
        let r = BlackBuffer::black_from_vec_u64(black_words);
        proof {
            if r is Ok {
                let b = r->Ok_0;
                let big = choose|big: bool| b@ == black_words64_bytes(big, w);
                assert(b@ == black_words64_bytes(big, black_i64_words(black_data@)));
            }
        }
        r
    }

    pub fn black_len(&self) -> (r: usize)
        ensures
            r == self@.len(),
    {
        self.black_data.len()
    }

    pub fn black_device(&self) -> (r: &BlackDevice)
        ensures
            *r == self.black_device_of(),
    {
        &self.black_device
    }

    pub fn black_as_slice(&self) -> (r: &[u8])
        ensures
            r@ == self@,
    {
        self.black_data.as_slice()
    }

    pub fn black_as_mut_slice(&mut self) -> (r: &mut [u8])
        ensures
            r@ == old(self)@,
            final(r)@ == final(self)@,
            final(self).black_device_of() == old(self).black_device_of(),
    {
        self.black_data.as_mut_slice()
    }

    /// Copies the bytes of `black_other` into this buffer; the sizes must
    /// agree, else a memory error leaves this buffer as it was.
    pub fn black_copy_from(&mut self, black_other: &BlackBuffer) -> (r: Result<(), BlackError>)
        ensures
            final(self).black_device_of() == old(self).black_device_of(),
            old(self)@.len() == black_other@.len() ==> r is Ok && final(self)@ == black_other@,
            old(self)@.len() != black_other@.len() ==> (r matches Err(BlackError::BlackMemoryError { .. })
                && final(self)@ == old(self)@),
    {
        if self.black_data.len() != black_other.black_data.len() {
            return Err(BlackError::BlackMemoryError {
                black_msg: "buffer size mismatch in copy".to_string(),
            });
        }
        let mut black_i: usize = 0;
        while black_i < self.black_data.len()
            invariant
                self.black_data@.len() == black_other.black_data@.len(),
                black_i <= self.black_data@.len(),
                self.black_device == old(self).black_device,
                forall|j: int| 0 <= j < black_i ==> self.black_data@[j] == black_other.black_data@[j],
            decreases self.black_data@.len() - black_i,
        {
            self.black_data.set(black_i, black_other.black_data[black_i]);
            black_i = black_i + 1;
        }
        assert(self.black_data@ =~= black_other.black_data@);
        Ok(())
    }

    /// Sets every byte to zero.
    pub fn black_zero(&mut self)
        ensures
            final(self)@ == black_zero_bytes(old(self)@.len()),
            final(self).black_device_of() == old(self).black_device_of(),
    {
        let mut black_i: usize = 0;
        while black_i < self.black_data.len()
            invariant
                black_i <= self.black_data@.len(),
                self.black_data@.len() == old(self).black_data@.len(),
                self.black_device == old(self).black_device,
                forall|j: int| 0 <= j < black_i ==> self.black_data@[j] == 0,
            decreases self.black_data@.len() - black_i,
        {
            self.black_data.set(black_i, 0u8);
            black_i = black_i + 1;
        }
        assert(self.black_data@ =~= black_zero_bytes(old(self)@.len()));
    }
}

/// The valid-layout condition is the bound that the allocator checks.
pub proof fn lemma_layout_ok_bound(size: usize)
    requires
        size > 0,
    ensures
        black_layout_ok(size) <==> size <= (isize::MAX as usize) - (BLACK_BUFFER_ALIGN - 1),
{
    assert(isize::MAX % 64 == 63);
    assert(size % 64 < 64);
}

} // verus!
