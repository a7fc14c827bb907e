use vstd::prelude::*;
use vstd::arithmetic::div_mod::lemma_fundamental_div_mod_converse;
use crate::black_error::BlackError;
use crate::black_index::{black_flat, black_flat_index, black_in_range, lemma_flat_bound};
use crate::black_math::{black_product, black_prefix_products_fit};

verus! {

/// The output length of a convolution along one axis: the number of
/// window positions, `(len + 2 * pad - dilation * (kernel - 1) - 1) / stride + 1`.
pub open spec fn black_conv_out_len_spec(len: int, kernel: int, stride: int, pad: int, dilation: int) -> int {
    (len + 2 * pad - dilation * (kernel - 1) - 1) / stride + 1
}

/// A convolution window fits along an axis: a kernel of at least one tap,
/// a positive stride, a padded input at least as long as the dilated
/// kernel, and intermediate values within `usize`.
pub open spec fn black_conv_axis_ok(len: int, kernel: int, stride: int, pad: int, dilation: int) -> bool {
    &&& kernel >= 1
    &&& stride >= 1
    &&& len + 2 * pad <= usize::MAX
    &&& dilation * (kernel - 1) <= usize::MAX
    &&& len + 2 * pad >= dilation * (kernel - 1) + 1
}

/// The number of output positions of a convolution along one axis.
pub fn black_conv_out_len(
    black_len: usize,
    black_kernel: usize,
    black_stride: usize,
    black_pad: usize,
    black_dilation: usize,
) -> (r: usize)
    requires
        black_conv_axis_ok(black_len as int, black_kernel as int, black_stride as int, black_pad as int, black_dilation as int),
    ensures
        r == black_conv_out_len_spec(black_len as int, black_kernel as int, black_stride as int, black_pad as int, black_dilation as int),
        r >= 1,
{
    proof {
        assert(0 <= black_dilation * (black_kernel - 1)) by (nonlinear_arith)
            requires
                black_kernel >= 1,
        ;
        let x = (black_len + 2 * black_pad - black_dilation * (black_kernel - 1) - 1) as int;
        assert(x / (black_stride as int) >= 0) by (nonlinear_arith)
            requires
                x >= 0,
                black_stride >= 1,
        ;
        assert(x / (black_stride as int) <= x) by (nonlinear_arith)
            requires
                x >= 0,
                black_stride >= 1,
        ;
    }
    (black_len + 2 * black_pad - black_dilation * (black_kernel - 1) - 1) / black_stride + 1
}

/// The input position a kernel tap reads, measured without padding:
/// `out * stride + tap * dilation - pad`, or nothing when that falls in the
/// zero padding (before 0 or at `len` and beyond).
pub open spec fn black_conv_tap_spec(out: int, tap: int, stride: int, pad: int, dilation: int, len: int) -> Option<int> {
    let pos = out * stride + tap * dilation;
    if pad <= pos < pad + len {
        Some(pos - pad)
    } else {
        None
    }
}

/// The input position read by tap `black_tap` of output position
/// `black_out`, or `None` inside the padding.
pub fn black_conv_tap(
    black_out: usize,
    black_tap: usize,
    black_stride: usize,
    black_pad: usize,
    black_dilation: usize,
    black_len: usize,
) -> (r: Option<usize>)
    requires
        black_out * black_stride + black_tap * black_dilation <= isize::MAX,
        black_pad <= isize::MAX,
        black_len <= isize::MAX,
    ensures
        r == (match black_conv_tap_spec(
            black_out as int,
            black_tap as int,
            black_stride as int,
            black_pad as int,
            black_dilation as int,
            black_len as int,
        ) {
            Some(p) => Some(p as usize),
            None => None::<usize>,
        }),
{
    proof {
        assert(0 <= black_out * black_stride) by (nonlinear_arith);
        assert(0 <= black_tap * black_dilation) by (nonlinear_arith);
    }
    let black_pos = black_out * black_stride + black_tap * black_dilation;
    if black_pos >= black_pad && black_pos - black_pad < black_len {
        Some(black_pos - black_pad)
    } else {
        None
    }
}

/// The output length of a transposed convolution along one axis:
/// `(len - 1) * stride - 2 * pad + kernel + output_pad`.
pub fn black_conv_transpose_out_len(
    black_len: usize,
    black_kernel: usize,
    black_stride: usize,
    black_pad: usize,
    black_output_pad: usize,
) -> (r: usize)
    requires
        black_len >= 1,
        (black_len - 1) * black_stride <= usize::MAX,
        2 * black_pad <= (black_len - 1) * black_stride,
        (black_len - 1) * black_stride - 2 * black_pad + black_kernel + black_output_pad <= usize::MAX,
    ensures
        r == (black_len - 1) * black_stride - 2 * black_pad + black_kernel + black_output_pad,
{
    (black_len - 1) * black_stride - 2 * black_pad + black_kernel + black_output_pad
}

/// The geometry of an unfolding of a batch of images into columns: the
/// input's extents, the kernel's, and the stride, padding and dilation of
/// each spatial axis.
#[derive(Debug, Clone, Copy)]
pub struct BlackIm2colGeometry {
    pub black_batch: usize,
    pub black_channels: usize,
    pub black_h: usize,
    pub black_w: usize,
    pub black_kh: usize,
    pub black_kw: usize,
    pub black_stride_h: usize,
    pub black_stride_w: usize,
    pub black_pad_h: usize,
    pub black_pad_w: usize,
    pub black_dilation_h: usize,
    pub black_dilation_w: usize,
}

/// The output height of the geometry.
pub open spec fn black_geom_oh(g: BlackIm2colGeometry) -> int {
    black_conv_out_len_spec(g.black_h as int, g.black_kh as int, g.black_stride_h as int, g.black_pad_h as int, g.black_dilation_h as int)
}

/// The output width of the geometry.
pub open spec fn black_geom_ow(g: BlackIm2colGeometry) -> int {
    black_conv_out_len_spec(g.black_w as int, g.black_kw as int, g.black_stride_w as int, g.black_pad_w as int, g.black_dilation_w as int)
}

/// The rows of the column matrix of one image: one per channel and tap.
pub open spec fn black_geom_rows(g: BlackIm2colGeometry) -> int {
    g.black_channels * g.black_kh * g.black_kw
}

/// The columns of the column matrix of one image: one per output position.
pub open spec fn black_geom_cols(g: BlackIm2colGeometry) -> int {
    black_geom_oh(g) * black_geom_ow(g)
}

/// The position, in the input, of pixel `(ih, iw)` of channel `c` of image `b`.
pub open spec fn black_image_index(g: BlackIm2colGeometry, b: int, c: int, ih: int, iw: int) -> int {
    b * g.black_channels * g.black_h * g.black_w + c * g.black_h * g.black_w + ih * g.black_w + iw
}

/// The word that tap `(ki, kj)` of channel `c` contributes at output
/// position `(oi, oj)` of image `b`: the input pixel under the tap, or 0 in
/// the padding.
pub open spec fn black_im2col_value(
    input: Seq<u32>,
    g: BlackIm2colGeometry,
    b: int,
    c: int,
    ki: int,
    kj: int,
    oi: int,
    oj: int,
) -> u32 {
    match (
        black_conv_tap_spec(oi, ki, g.black_stride_h as int, g.black_pad_h as int, g.black_dilation_h as int, g.black_h as int),
        black_conv_tap_spec(oj, kj, g.black_stride_w as int, g.black_pad_w as int, g.black_dilation_w as int, g.black_w as int),
    ) {
        (Some(ih), Some(iw)) => input[black_image_index(g, b, c, ih, iw)],
        _ => 0u32,
    }
}

/// Entry `q` of the column matrices laid out image after image, row after
/// row: row `c * kh * kw + ki * kw + kj`, column `oi * ow + oj`.
pub open spec fn black_im2col_word(input: Seq<u32>, g: BlackIm2colGeometry, q: int) -> u32 {
    let rows = black_geom_rows(g);
    let cols = black_geom_cols(g);
    let b = q / (rows * cols);
    let rest = q % (rows * cols);
    let row = rest / cols;
    let p = rest % cols;
    let kk = g.black_kh * g.black_kw;
    let c = row / kk;
    let r2 = row % kk;
    let ki = r2 / (g.black_kw as int);
    let kj = r2 % (g.black_kw as int);
    let oi = p / black_geom_ow(g);
    let oj = p % black_geom_ow(g);
    black_im2col_value(input, g, b, c, ki, kj, oi, oj)
}

/// Tap `(ki, kj)` of channel `c` at output `(oi, oj)` of image `b` reads
/// inside the input when it reads at all.
pub open spec fn black_im2col_read_ok(
    input: Seq<u32>,
    g: BlackIm2colGeometry,
    b: int,
    c: int,
    ki: int,
    kj: int,
    oi: int,
    oj: int,
) -> bool {
    match (
        black_conv_tap_spec(oi, ki, g.black_stride_h as int, g.black_pad_h as int, g.black_dilation_h as int, g.black_h as int),
        black_conv_tap_spec(oj, kj, g.black_stride_w as int, g.black_pad_w as int, g.black_dilation_w as int, g.black_w as int),
    ) {
        (Some(ih), Some(iw)) => black_image_index(g, b, c, ih, iw) < input.len(),
        _ => true,
    }
}

/// The unfolding can run: both axes have a fitting window, the positions
/// stay within `isize`, the column matrices fit in memory, and every tap
/// that reads, reads inside the input.
pub open spec fn black_im2col_ok(input: Seq<u32>, g: BlackIm2colGeometry) -> bool {
    &&& black_conv_axis_ok(g.black_h as int, g.black_kh as int, g.black_stride_h as int, g.black_pad_h as int, g.black_dilation_h as int)
    &&& black_conv_axis_ok(g.black_w as int, g.black_kw as int, g.black_stride_w as int, g.black_pad_w as int, g.black_dilation_w as int)
    &&& g.black_h + 2 * g.black_pad_h <= isize::MAX
    &&& g.black_w + 2 * g.black_pad_w <= isize::MAX
    &&& black_geom_oh(g) * black_geom_ow(g) <= usize::MAX
    &&& black_geom_rows(g) <= usize::MAX
    &&& g.black_batch * black_geom_rows(g) * black_geom_cols(g) <= usize::MAX
    &&& forall|b: int, c: int, ki: int, kj: int, oi: int, oj: int|
        0 <= b < g.black_batch && 0 <= c < g.black_channels && 0 <= ki < g.black_kh && 0 <= kj
            < g.black_kw && 0 <= oi < black_geom_oh(g) && 0 <= oj < black_geom_ow(g)
            ==> #[trigger] black_im2col_read_ok(input, g, b, c, ki, kj, oi, oj)
}

/// A window position along an axis stays inside the padded input.
proof fn lemma_tap_position_bound(oi: int, ki: int, len: int, kernel: int, stride: int, pad: int, dilation: int)
    requires
        black_conv_axis_ok(len, kernel, stride, pad, dilation),
        0 <= oi < black_conv_out_len_spec(len, kernel, stride, pad, dilation),
        0 <= ki < kernel,
        dilation >= 0,
    ensures
        0 <= oi * stride + ki * dilation <= len + 2 * pad - 1,
{
    let x = len + 2 * pad - dilation * (kernel - 1) - 1;
    assert(x >= 0);
    vstd::arithmetic::div_mod::lemma_fundamental_div_mod(x, stride);
    assert(oi <= x / stride);
    assert(oi * stride <= (x / stride) * stride) by (nonlinear_arith)
        requires
            oi <= x / stride,
            stride >= 1,
    ;
    assert((x / stride) * stride <= x) by (nonlinear_arith)
        requires
            x == stride * (x / stride) + x % stride,
            0 <= x % stride,
    ;
    assert(ki * dilation <= (kernel - 1) * dilation) by (nonlinear_arith)
        requires
            0 <= ki <= kernel - 1,
            dilation >= 0,
    ;
    assert(0 <= oi * stride) by (nonlinear_arith)
        requires
            0 <= oi,
            stride >= 1,
    ;
    assert(0 <= ki * dilation) by (nonlinear_arith)
        requires
            0 <= ki,
            dilation >= 0,
    ;
    assert((kernel - 1) * dilation == dilation * (kernel - 1)) by (nonlinear_arith);
}

/// `q = a * x + r` with `0 <= r < x` splits `q` into quotient `a` and
/// remainder `r`.
proof fn lemma_split(q: int, x: int, a: int, r: int)
    requires
        0 <= r < x,
        q == a * x + r,
    ensures
        q / x == a,
        q % x == r,
{
    lemma_fundamental_div_mod_converse(q, x, a, r);
}

/// The word at the position of a tap is that tap's value.
proof fn lemma_im2col_word_at(input: Seq<u32>, g: BlackIm2colGeometry, b: int, c: int, ki: int, kj: int, oi: int, oj: int)
    requires
        0 <= b,
        0 <= c < g.black_channels,
        0 <= ki < g.black_kh,
        0 <= kj < g.black_kw,
        0 <= oi < black_geom_oh(g),
        0 <= oj < black_geom_ow(g),
    ensures
        black_im2col_word(
            input,
            g,
            b * black_geom_rows(g) * black_geom_cols(g) + (c * g.black_kh * g.black_kw + ki * g.black_kw + kj)
                * black_geom_cols(g) + oi * black_geom_ow(g) + oj,
        ) == black_im2col_value(input, g, b, c, ki, kj, oi, oj),
{
    let rows = black_geom_rows(g);
    let cols = black_geom_cols(g);
    let ow = black_geom_ow(g);
    let oh = black_geom_oh(g);
    let kw = g.black_kw as int;
    let kh = g.black_kh as int;
    let kk = kh * kw;
    let row = c * kh * kw + ki * kw + kj;
    let p = oi * ow + oj;
    let q = b * rows * cols + row * cols + p;
    // p within a row of columns
    lemma_split(p, ow, oi, oj);
    assert(p < cols) by (nonlinear_arith)
        requires
            cols == oh * ow,
            p == oi * ow + oj,
            0 <= oi < oh,
            0 <= oj < ow,
    ;
    assert(0 <= p) by (nonlinear_arith)
        requires
            p == oi * ow + oj,
            0 <= oi,
            0 <= oj < ow,
    ;
    // row within the rows
    let r2 = ki * kw + kj;
    lemma_split(r2, kw, ki, kj);
    assert(r2 < kk) by (nonlinear_arith)
        requires
            kk == kh * kw,
            r2 == ki * kw + kj,
            0 <= ki < kh,
            0 <= kj < kw,
    ;
    assert(0 <= r2) by (nonlinear_arith)
        requires
            r2 == ki * kw + kj,
            0 <= ki,
            0 <= kj < kw,
    ;
    assert(row == c * kk + r2) by (nonlinear_arith)
        requires
            row == c * kh * kw + ki * kw + kj,
            kk == kh * kw,
            r2 == ki * kw + kj,
    ;
    lemma_split(row, kk, c, r2);
    assert(row < rows && 0 <= row) by (nonlinear_arith)
        requires
            rows == g.black_channels * kh * kw,
            row == c * kk + r2,
            kk == kh * kw,
            0 <= c < g.black_channels,
            0 <= r2 < kk,
    ;
    let rest = row * cols + p;
    lemma_split(rest, cols, row, p);
    assert(rest < rows * cols && 0 <= rest) by (nonlinear_arith)
        requires
            rest == row * cols + p,
            0 <= row < rows,
            0 <= p < cols,
    ;
    assert(q == b * (rows * cols) + rest) by (nonlinear_arith)
        requires
            q == b * rows * cols + row * cols + p,
            rest == row * cols + p,
    ;
    lemma_split(q, rows * cols, b, rest);
}

/// Unfolds a batch of images (32-bit words, laid out image, channel, row,
/// column) into column matrices: for each image, one row per channel and
/// kernel tap and one column per output position, holding the input pixel
/// under the tap or 0 in the padding. Returns the matrices with the output
/// height and width.
#[verifier::loop_isolation(false)]
pub fn black_im2col(
    black_input: &[u32],
    black_batch: usize,
    black_channels: usize,
    black_h: usize,
    black_w: usize,
    black_kh: usize,
    black_kw: usize,
    black_stride_h: usize,
    black_stride_w: usize,
    black_pad_h: usize,
    black_pad_w: usize,
    black_dilation_h: usize,
    black_dilation_w: usize,
) -> (r: (Vec<u32>, usize, usize))
    requires
        black_im2col_ok(
            black_input@,
            BlackIm2colGeometry {
                black_batch,
                black_channels,
                black_h,
                black_w,
                black_kh,
                black_kw,
                black_stride_h,
                black_stride_w,
                black_pad_h,
                black_pad_w,
                black_dilation_h,
                black_dilation_w,
            },
        ),
    ensures
        ({
            let g = BlackIm2colGeometry {
                black_batch,
                black_channels,
                black_h,
                black_w,
                black_kh,
                black_kw,
                black_stride_h,
                black_stride_w,
                black_pad_h,
                black_pad_w,
                black_dilation_h,
                black_dilation_w,
            };
            &&& r.1 == black_geom_oh(g)
            &&& r.2 == black_geom_ow(g)
            &&& r.0@.len() == black_batch * black_geom_rows(g) * black_geom_cols(g)
            &&& forall|q: int| 0 <= q < r.0@.len() ==> #[trigger] r.0@[q] == black_im2col_word(black_input@, g, q)
        }),
{
    let ghost g = BlackIm2colGeometry {
        black_batch,
        black_channels,
        black_h,
        black_w,
        black_kh,
        black_kw,
        black_stride_h,
        black_stride_w,
        black_pad_h,
        black_pad_w,
        black_dilation_h,
        black_dilation_w,
    };
    let black_input_len = black_input.len();
    let black_oh = black_conv_out_len(black_h, black_kh, black_stride_h, black_pad_h, black_dilation_h);
    let black_ow = black_conv_out_len(black_w, black_kw, black_stride_w, black_pad_w, black_dilation_w);
    proof {
        assert(black_channels * black_kh <= black_channels * black_kh * black_kw) by (nonlinear_arith)
            requires
                black_kw >= 1,
        ;
        assert(black_geom_cols(g) >= 1) by (nonlinear_arith)
            requires
                black_oh >= 1,
                black_ow >= 1,
                black_geom_cols(g) == black_oh * black_ow,
        ;
        assert(black_batch * (black_geom_rows(g)) <= black_batch * black_geom_rows(g) * black_geom_cols(g))
            by (nonlinear_arith)
            requires
                black_geom_cols(g) >= 1,
                black_geom_rows(g) >= 0,
        ;
    }
    let black_col_h = black_channels * black_kh * black_kw;
    let black_col_w = black_oh * black_ow;
    let black_total = black_batch * black_col_h * black_col_w;
    let mut black_col: Vec<u32> = Vec::new();
    let mut black_z: usize = 0;
    while black_z < black_total
        invariant
            black_z <= black_total,
            black_col@.len() == black_z,
        decreases black_total - black_z,
    {
        black_col.push(0u32);
        black_z = black_z + 1;
    }
    let ghost mut pos: int = 0;
    let mut black_b: usize = 0;
    assert(pos == black_b * black_col_h * black_col_w) by (nonlinear_arith)
        requires
            pos == 0,
            black_b == 0,
    ;
    while black_b < black_batch
        invariant
            black_col@.len() == black_total,
            black_b <= black_batch,
            pos == black_b * black_col_h * black_col_w,
            forall|q: int| 0 <= q < pos ==> #[trigger] black_col@[q] == black_im2col_word(black_input@, g, q),
        decreases black_batch - black_b,
    {
        let mut black_c: usize = 0;
        assert(pos == black_b * black_col_h * black_col_w + black_c * black_kh * black_kw * black_col_w) by (nonlinear_arith)
            requires
                pos == black_b * black_col_h * black_col_w,
                black_c == 0,
        ;
        while black_c < black_channels
            invariant
                black_col@.len() == black_total,
                black_b < black_batch,
                black_c <= black_channels,
                pos == black_b * black_col_h * black_col_w + black_c * black_kh * black_kw * black_col_w,
                forall|q: int| 0 <= q < pos ==> #[trigger] black_col@[q] == black_im2col_word(black_input@, g, q),
            decreases black_channels - black_c,
        {
            let mut black_kh_i: usize = 0;
            assert(pos == black_b * black_col_h * black_col_w + (black_c * black_kh * black_kw + black_kh_i
                * black_kw) * black_col_w) by (nonlinear_arith)
                requires
                    pos == black_b * black_col_h * black_col_w + black_c * black_kh * black_kw * black_col_w,
                    black_kh_i == 0,
            ;
            while black_kh_i < black_kh
                invariant
                    black_col@.len() == black_total,
                    black_b < black_batch,
                    black_c < black_channels,
                    black_kh_i <= black_kh,
                    pos == black_b * black_col_h * black_col_w + (black_c * black_kh * black_kw + black_kh_i
                        * black_kw) * black_col_w,
                    forall|q: int| 0 <= q < pos ==> #[trigger] black_col@[q] == black_im2col_word(black_input@, g, q),
                decreases black_kh - black_kh_i,
            {
                let mut black_kw_i: usize = 0;
                while black_kw_i < black_kw
                    invariant
                        black_col@.len() == black_total,
                        black_b < black_batch,
                        black_c < black_channels,
                        black_kh_i < black_kh,
                        black_kw_i <= black_kw,
                        pos == black_b * black_col_h * black_col_w + (black_c * black_kh * black_kw + black_kh_i
                            * black_kw + black_kw_i) * black_col_w,
                        forall|q: int| 0 <= q < pos ==> #[trigger] black_col@[q] == black_im2col_word(black_input@, g, q),
                    decreases black_kw - black_kw_i,
                {
                    proof {
                        assert(black_c * black_kh * black_kw + black_kh_i * black_kw + black_kw_i < black_col_h)
                            by (nonlinear_arith)
                            requires
                                black_col_h == black_channels * black_kh * black_kw,
                                black_c < black_channels,
                                black_kh_i < black_kh,
                                black_kw_i < black_kw,
                        ;
                        assert(0 <= black_kh_i * black_kw) by (nonlinear_arith);
                        assert(black_c * black_kh * black_kw <= black_col_h) by (nonlinear_arith)
                            requires
                                black_col_h == black_channels * black_kh * black_kw,
                                black_c < black_channels,
                        ;
                        assert(black_c * black_kh <= black_c * black_kh * black_kw) by (nonlinear_arith)
                            requires
                                black_kw >= 1,
                        ;
                        assert(black_kh_i * black_kw <= black_col_h) by (nonlinear_arith)
                            requires
                                black_col_h == black_channels * black_kh * black_kw,
                                black_c < black_channels,
                                black_kh_i < black_kh,
                        ;
                    }
                    let black_col_row = black_c * black_kh * black_kw + black_kh_i * black_kw + black_kw_i;
                    let mut black_oh_i: usize = 0;
                    assert(pos == black_b * black_col_h * black_col_w + black_col_row * black_col_w + black_oh_i
                        * black_ow) by (nonlinear_arith)
                        requires
                            pos == black_b * black_col_h * black_col_w + (black_c * black_kh * black_kw + black_kh_i
                                * black_kw + black_kw_i) * black_col_w,
                            black_col_row == black_c * black_kh * black_kw + black_kh_i * black_kw + black_kw_i,
                            black_oh_i == 0,
                    ;
                    while black_oh_i < black_oh
                        invariant
                            black_col@.len() == black_total,
                            black_b < black_batch,
                            black_c < black_channels,
                            black_kh_i < black_kh,
                            black_kw_i < black_kw,
                            black_col_row < black_col_h,
                            black_oh_i <= black_oh,
                            pos == black_b * black_col_h * black_col_w + black_col_row * black_col_w + black_oh_i
                                * black_ow,
                            forall|q: int| 0 <= q < pos ==> #[trigger] black_col@[q] == black_im2col_word(black_input@, g, q),
                        decreases black_oh - black_oh_i,
                    {
                        let mut black_ow_i: usize = 0;
                        while black_ow_i < black_ow
                            invariant
                                black_col@.len() == black_total,
                                black_b < black_batch,
                                black_c < black_channels,
                                black_kh_i < black_kh,
                                black_kw_i < black_kw,
                                black_col_row < black_col_h,
                                black_oh_i < black_oh,
                                black_ow_i <= black_ow,
                                pos == black_b * black_col_h * black_col_w + black_col_row * black_col_w
                                    + black_oh_i * black_ow + black_ow_i,
                                forall|q: int| 0 <= q < pos ==> #[trigger] black_col@[q] == black_im2col_word(black_input@, g, q),
                            decreases black_ow - black_ow_i,
                        {
                            proof {
                                lemma_tap_position_bound(black_oh_i as int, black_kh_i as int, black_h as int, black_kh as int, black_stride_h as int, black_pad_h as int, black_dilation_h as int);
                                lemma_tap_position_bound(black_ow_i as int, black_kw_i as int, black_w as int, black_kw as int, black_stride_w as int, black_pad_w as int, black_dilation_w as int);
                                assert(black_im2col_read_ok(black_input@, g, black_b as int, black_c as int, black_kh_i as int, black_kw_i as int, black_oh_i as int, black_ow_i as int));
                                lemma_im2col_word_at(black_input@, g, black_b as int, black_c as int, black_kh_i as int, black_kw_i as int, black_oh_i as int, black_ow_i as int);
                                lemma_col_index_bound(black_b as int, black_col_row as int, black_oh_i as int, black_ow_i as int, black_batch as int, black_col_h as int, black_col_w as int, black_oh as int, black_ow as int);
                            }
                            let black_ih = black_conv_tap(black_oh_i, black_kh_i, black_stride_h, black_pad_h, black_dilation_h, black_h);
                            let black_iw = black_conv_tap(black_ow_i, black_kw_i, black_stride_w, black_pad_w, black_dilation_w, black_w);
                            let black_val = match (black_ih, black_iw) {
                                (Some(black_ih_actual), Some(black_iw_actual)) => {
                                    proof {
                                        lemma_image_index_parts(black_b as int, black_c as int, black_ih_actual as int, black_iw_actual as int, black_channels as int, black_h as int, black_w as int, black_input@.len() as int);
                                    }
                                    let black_idx = black_b * black_channels * black_h * black_w + black_c * black_h * black_w
                                        + black_ih_actual * black_w + black_iw_actual;
                                    black_input[black_idx]
                                },
                                _ => 0u32,
                            };
                            let black_col_idx = black_b * black_col_h * black_col_w + black_col_row * black_col_w
                                + black_oh_i * black_ow + black_ow_i;
                            black_col.set(black_col_idx, black_val);
                            proof {
                                pos = pos + 1;
                            }
                            black_ow_i = black_ow_i + 1;
                        }
                        proof {
                            assert(pos == black_b * black_col_h * black_col_w + black_col_row * black_col_w
                                + (black_oh_i + 1) * black_ow) by (nonlinear_arith)
                                requires
                                    pos == black_b * black_col_h * black_col_w + black_col_row * black_col_w
                                        + black_oh_i * black_ow + black_ow,
                            ;
                        }
                        black_oh_i = black_oh_i + 1;
                    }
                    proof {
                        assert(pos == black_b * black_col_h * black_col_w + (black_col_row + 1) * black_col_w) by (nonlinear_arith)
                            requires
                                pos == black_b * black_col_h * black_col_w + black_col_row * black_col_w + black_oh * black_ow,
                                black_col_w == black_oh * black_ow,
                        ;
                    }
                    black_kw_i = black_kw_i + 1;
                }
                proof {
                    assert(pos == black_b * black_col_h * black_col_w + (black_c * black_kh * black_kw + (black_kh_i + 1)
                        * black_kw) * black_col_w) by (nonlinear_arith)
                        requires
                            pos == black_b * black_col_h * black_col_w + (black_c * black_kh * black_kw + black_kh_i
                                * black_kw + black_kw) * black_col_w,
                    ;
                }
                black_kh_i = black_kh_i + 1;
            }
            proof {
                assert(pos == black_b * black_col_h * black_col_w + (black_c + 1) * black_kh * black_kw * black_col_w) by (nonlinear_arith)
                    requires
                        pos == black_b * black_col_h * black_col_w + (black_c * black_kh * black_kw + black_kh
                            * black_kw) * black_col_w,
                ;
            }
            black_c = black_c + 1;
        }
        proof {
            assert(pos == (black_b + 1) * black_col_h * black_col_w) by (nonlinear_arith)
                requires
                    pos == black_b * black_col_h * black_col_w + black_channels * black_kh * black_kw * black_col_w,
                    black_col_h == black_channels * black_kh * black_kw,
            ;
        }
        black_b = black_b + 1;
    }
    (black_col, black_oh, black_ow)
}

/// The position of an entry of the column matrices stays inside them, and
/// so do the partial sums that compute it.
proof fn lemma_col_index_bound(b: int, row: int, oi: int, oj: int, batch: int, rows: int, cols: int, oh: int, ow: int)
    requires
        0 <= b < batch,
        0 <= row < rows,
        0 <= oi < oh,
        0 <= oj < ow,
        cols == oh * ow,
    ensures
        0 <= b * rows <= b * rows * cols,
        0 <= row * cols,
        0 <= oi * ow,
        b * rows * cols + row * cols + oi * ow + oj < batch * rows * cols,
        b * rows * cols + row * cols <= b * rows * cols + row * cols + oi * ow,
{
    assert(oi * ow + oj < cols && 0 <= oi * ow) by (nonlinear_arith)
        requires
            0 <= oi < oh,
            0 <= oj < ow,
            cols == oh * ow,
    ;
    assert(b * rows * cols + row * cols + oi * ow + oj < batch * rows * cols) by (nonlinear_arith)
        requires
            0 <= b < batch,
            0 <= row < rows,
            0 <= oi * ow + oj < cols,
    ;
    assert(0 <= b * rows <= b * rows * cols) by (nonlinear_arith)
        requires
            0 <= b,
            0 <= row < rows,
            cols >= 1,
    ;
    assert(0 <= row * cols) by (nonlinear_arith)
        requires
            0 <= row,
            cols >= 0,
    ;
}

/// The position of an input pixel, and the partial products that compute
/// it, stay within the input when the pixel lies in it.
proof fn lemma_image_index_parts(b: int, c: int, ih: int, iw: int, channels: int, h: int, w: int, len: int)
    requires
        0 <= b,
        0 <= c,
        0 <= ih < h,
        0 <= iw < w,
        b * channels * h * w + c * h * w + ih * w + iw < len,
        channels >= 0,
    ensures
        0 <= b * channels <= b * channels * h <= b * channels * h * w,
        0 <= c * h <= c * h * w,
        0 <= ih * w,
        b * channels * h * w + c * h * w + ih * w + iw < len,
        b * channels * h * w <= b * channels * h * w + c * h * w,
        b * channels * h * w + c * h * w <= b * channels * h * w + c * h * w + ih * w,
{
    assert(0 <= b * channels <= b * channels * h <= b * channels * h * w) by (nonlinear_arith)
        requires
            0 <= b,
            channels >= 0,
            h >= 1,
            w >= 1,
    ;
    assert(0 <= c * h <= c * h * w) by (nonlinear_arith)
        requires
            0 <= c,
            h >= 1,
            w >= 1,
    ;
    assert(0 <= ih * w) by (nonlinear_arith)
        requires
            0 <= ih,
            w >= 1,
    ;
}

/// Whether a window fits along an axis with every tap position inside
/// `isize`: the test to make before computing the axis's output length and
/// taps.
pub fn black_conv_axis_check(
    black_len: usize,
    black_kernel: usize,
    black_stride: usize,
    black_pad: usize,
    black_dilation: usize,
) -> (r: bool)
    ensures
        r == (black_conv_axis_ok(black_len as int, black_kernel as int, black_stride as int, black_pad as int, black_dilation as int)
            && black_len + 2 * black_pad <= isize::MAX),
        r ==> forall|o: int, t: int|
            0 <= o < black_conv_out_len_spec(black_len as int, black_kernel as int, black_stride as int, black_pad as int, black_dilation as int)
                && 0 <= t < black_kernel ==> 0 <= #[trigger] (o * black_stride + t * black_dilation) <= isize::MAX,
{
    if black_kernel == 0 || black_stride == 0 {
        return false;
    }
    let black_two_pad = match black_pad.checked_mul(2) {
        Some(v) => v,
        None => return false,
    };
    let black_padded = match black_len.checked_add(black_two_pad) {
        Some(v) => v,
        None => return false,
    };
    let black_span = match black_dilation.checked_mul(black_kernel - 1) {
        Some(v) => v,
        None => return false,
    };
    if black_padded <= black_span || black_padded > (isize::MAX as usize) {
        return false;
    }
    proof {
        assert forall|o: int, t: int|
            0 <= o < black_conv_out_len_spec(black_len as int, black_kernel as int, black_stride as int, black_pad as int, black_dilation as int)
                && 0 <= t < black_kernel implies 0 <= #[trigger] (o * black_stride + t * black_dilation) <= isize::MAX by {
            lemma_tap_position_bound(o, t, black_len as int, black_kernel as int, black_stride as int, black_pad as int, black_dilation as int);
        }
    }
    true
}

/// The output length of a transposed convolution can be formed along an
/// axis: a non-empty input, no step going below zero or past `usize`.
pub open spec fn black_conv_transpose_axis_ok(len: int, kernel: int, stride: int, pad: int, output_pad: int) -> bool {
    &&& len >= 1
    &&& (len - 1) * stride <= usize::MAX
    &&& 2 * pad <= (len - 1) * stride
    &&& (len - 1) * stride - 2 * pad + kernel + output_pad <= usize::MAX
}

/// Whether a transposed convolution's output length can be formed along an
/// axis, with every tap position and the output length inside `isize`: the
/// test to make before computing the length and the taps.
pub fn black_conv_transpose_axis_check(
    black_len: usize,
    black_kernel: usize,
    black_stride: usize,
    black_pad: usize,
    black_output_pad: usize,
) -> (r: bool)
    ensures
        r == (black_conv_transpose_axis_ok(black_len as int, black_kernel as int, black_stride as int, black_pad as int, black_output_pad as int)
            && (black_len - 1) * black_stride + black_kernel <= isize::MAX
            && (black_len - 1) * black_stride - 2 * black_pad + black_kernel + black_output_pad <= isize::MAX),
        r ==> forall|i: int, t: int|
            0 <= i < black_len && 0 <= t < black_kernel ==> 0 <= #[trigger] (i * black_stride + t) <= isize::MAX,
{
    if black_len == 0 {
        return false;
    }
    let black_base = match (black_len - 1).checked_mul(black_stride) {
        Some(v) => v,
        None => return false,
    };
    let black_two_pad = match black_pad.checked_mul(2) {
        Some(v) => v,
        None => return false,
    };
    if black_two_pad > black_base {
        return false;
    }
    let black_out = match (black_base - black_two_pad).checked_add(black_kernel) {
        Some(v) => match v.checked_add(black_output_pad) {
            Some(w) => w,
            None => return false,
        },
        None => return false,
    };
    let black_reach = match black_base.checked_add(black_kernel) {
        Some(v) => v,
        None => return false,
    };
    if black_reach > (isize::MAX as usize) || black_out > (isize::MAX as usize) {
        return false;
    }
    proof {
        assert forall|i: int, t: int| 0 <= i < black_len && 0 <= t < black_kernel implies 0 <= #[trigger] (i
            * black_stride + t) <= isize::MAX by {
            assert(i * black_stride <= (black_len - 1) * black_stride) by (nonlinear_arith)
                requires
                    0 <= i <= black_len - 1,
                    black_stride >= 0,
            ;
            assert(0 <= i * black_stride) by (nonlinear_arith)
                requires
                    0 <= i,
                    black_stride >= 0,
            ;
        }
    }
    true
}

/// The result extents of a 2-D convolution: `[batch, out_channels, oh,
/// ow]`, for a 4-D input `[batch, channels, h, w]` and a 4-D weight
/// `[out_channels, _, kh, kw]`; other ranks are a shape error.
pub fn black_conv2d_out_dims(
    black_in_dims: &[usize],
    black_w_dims: &[usize],
    black_stride_h: usize,
    black_stride_w: usize,
    black_pad_h: usize,
    black_pad_w: usize,
    black_dilation_h: usize,
    black_dilation_w: usize,
) -> (r: Result<Vec<usize>, BlackError>)
    requires
        black_in_dims@.len() == 4 && black_w_dims@.len() == 4 ==> {
            &&& black_conv_axis_ok(black_in_dims@[2] as int, black_w_dims@[2] as int, black_stride_h as int, black_pad_h as int, black_dilation_h as int)
            &&& black_conv_axis_ok(black_in_dims@[3] as int, black_w_dims@[3] as int, black_stride_w as int, black_pad_w as int, black_dilation_w as int)
        },
    ensures
        black_in_dims@.len() != 4 || black_w_dims@.len() != 4 ==> r matches Err(BlackError::BlackShapeError { .. }),
        black_in_dims@.len() == 4 && black_w_dims@.len() == 4 ==> (r matches Ok(v) && v@ == seq![
            black_in_dims@[0],
            black_w_dims@[0],
            black_conv_out_len_spec(black_in_dims@[2] as int, black_w_dims@[2] as int, black_stride_h as int, black_pad_h as int, black_dilation_h as int) as usize,
            black_conv_out_len_spec(black_in_dims@[3] as int, black_w_dims@[3] as int, black_stride_w as int, black_pad_w as int, black_dilation_w as int) as usize,
        ]),
{
    if black_in_dims.len() != 4 || black_w_dims.len() != 4 {
        return Err(BlackError::BlackShapeError { black_msg: "conv2d requires 4D input and weight".to_string() });
    }
    let black_oh = black_conv_out_len(black_in_dims[2], black_w_dims[2], black_stride_h, black_pad_h, black_dilation_h);
    let black_ow = black_conv_out_len(black_in_dims[3], black_w_dims[3], black_stride_w, black_pad_w, black_dilation_w);
    let r = vec![black_in_dims[0], black_w_dims[0], black_oh, black_ow];
    assert(r@ =~= seq![black_in_dims@[0], black_w_dims@[0], black_oh, black_ow]);
    Ok(r)
}

/// The result extents of a 3-D convolution: `[batch, out_channels, od, oh,
/// ow]`, for a 5-D input `[batch, channels, d, h, w]` and a weight
/// `[out_channels, _, kd, kh, kw, ..]`; an input of another rank is a shape
/// error.
pub fn black_conv3d_out_dims(
    black_in_dims: &[usize],
    black_w_dims: &[usize],
    black_stride: &[usize; 3],
    black_pad: &[usize; 3],
    black_dilation: &[usize; 3],
) -> (r: Result<Vec<usize>, BlackError>)
    requires
        black_in_dims@.len() == 5 ==> {
            &&& black_w_dims@.len() >= 5
            &&& forall|a: int| 0 <= a < 3 ==> #[trigger] black_conv_axis_ok(black_in_dims@[a + 2] as int, black_w_dims@[a + 2] as int, black_stride@[a] as int, black_pad@[a] as int, black_dilation@[a] as int)
        },
    ensures
        black_in_dims@.len() != 5 ==> r matches Err(BlackError::BlackShapeError { .. }),
        black_in_dims@.len() == 5 ==> (r matches Ok(v) && v@.len() == 5 && v@[0] == black_in_dims@[0] && v@[1] == black_w_dims@[0]
            && forall|a: int| 0 <= a < 3 ==> #[trigger] v@[a + 2] == black_conv_out_len_spec(black_in_dims@[a + 2] as int, black_w_dims@[a + 2] as int, black_stride@[a] as int, black_pad@[a] as int, black_dilation@[a] as int)),
{
    if black_in_dims.len() != 5 {
        return Err(BlackError::BlackShapeError { black_msg: "conv3d requires 5D input [N, C, D, H, W]".to_string() });
    }
    let mut r = vec![black_in_dims[0], black_w_dims[0]];
    let mut black_a: usize = 0;
    while black_a < 3
        invariant
            black_a <= 3,
            black_in_dims@.len() == 5,
            black_w_dims@.len() >= 5,
            forall|a: int| 0 <= a < 3 ==> #[trigger] black_conv_axis_ok(black_in_dims@[a + 2] as int, black_w_dims@[a + 2] as int, black_stride@[a] as int, black_pad@[a] as int, black_dilation@[a] as int),
            r@.len() == black_a + 2,
            r@[0] == black_in_dims@[0],
            r@[1] == black_w_dims@[0],
            forall|a: int| 0 <= a < black_a ==> #[trigger] r@[a + 2] == black_conv_out_len_spec(black_in_dims@[a + 2] as int, black_w_dims@[a + 2] as int, black_stride@[a] as int, black_pad@[a] as int, black_dilation@[a] as int),
        decreases 3 - black_a,
    {
        assert(black_conv_axis_ok(black_in_dims@[black_a + 2] as int, black_w_dims@[black_a + 2] as int, black_stride@[black_a as int] as int, black_pad@[black_a as int] as int, black_dilation@[black_a as int] as int));
        let black_len = black_conv_out_len(black_in_dims[black_a + 2], black_w_dims[black_a + 2], black_stride[black_a], black_pad[black_a], black_dilation[black_a]);
        r.push(black_len);
        black_a = black_a + 1;
    }
    Ok(r)
}

/// The result extents of a 2-D transposed convolution: `[batch,
/// out_channels, oh, ow]`, for a 4-D input `[batch, channels, h, w]` and a
/// 4-D weight `[_, out_channels, kh, kw]`; other ranks are a shape error.
pub fn black_conv_transpose2d_out_dims(
    black_in_dims: &[usize],
    black_w_dims: &[usize],
    black_stride_h: usize,
    black_stride_w: usize,
    black_pad_h: usize,
    black_pad_w: usize,
    black_output_pad_h: usize,
    black_output_pad_w: usize,
) -> (r: Result<Vec<usize>, BlackError>)
    requires
        black_in_dims@.len() == 4 && black_w_dims@.len() == 4 ==> {
            &&& black_conv_transpose_axis_ok(black_in_dims@[2] as int, black_w_dims@[2] as int, black_stride_h as int, black_pad_h as int, black_output_pad_h as int)
            &&& black_conv_transpose_axis_ok(black_in_dims@[3] as int, black_w_dims@[3] as int, black_stride_w as int, black_pad_w as int, black_output_pad_w as int)
        },
    ensures
        black_in_dims@.len() != 4 || black_w_dims@.len() != 4 ==> r matches Err(BlackError::BlackShapeError { .. }),
        black_in_dims@.len() == 4 && black_w_dims@.len() == 4 ==> (r matches Ok(v) && v@ == seq![
            black_in_dims@[0],
            black_w_dims@[1],
            ((black_in_dims@[2] - 1) * black_stride_h - 2 * black_pad_h + black_w_dims@[2] + black_output_pad_h) as usize,
            ((black_in_dims@[3] - 1) * black_stride_w - 2 * black_pad_w + black_w_dims@[3] + black_output_pad_w) as usize,
        ]),
{
    if black_in_dims.len() != 4 || black_w_dims.len() != 4 {
        return Err(BlackError::BlackShapeError { black_msg: "conv_transpose2d requires 4D tensors".to_string() });
    }
    let black_oh = black_conv_transpose_out_len(black_in_dims[2], black_w_dims[2], black_stride_h, black_pad_h, black_output_pad_h);
    let black_ow = black_conv_transpose_out_len(black_in_dims[3], black_w_dims[3], black_stride_w, black_pad_w, black_output_pad_w);
    let r = vec![black_in_dims[0], black_w_dims[1], black_oh, black_ow];
    assert(r@ =~= seq![black_in_dims@[0], black_w_dims@[1], black_oh, black_ow]);
    Ok(r)
}

/// A position in range of a `[batch, channels, h, w]` image stack lies
/// below its element count.
proof fn lemma_image_index_below(b: int, c: int, ih: int, iw: int, nb: int, nc: int, h: int, w: int)
    requires
        0 <= b < nb,
        0 <= c < nc,
        0 <= ih < h,
        0 <= iw < w,
    ensures
        b * nc * h * w + c * h * w + ih * w + iw < nb * nc * h * w,
{
    let x = h * w;
    assert(ih * w + iw < x) by (nonlinear_arith)
        requires
            0 <= ih < h,
            0 <= iw < w,
            x == h * w,
    ;
    let y = nc * x;
    assert(c * x + (ih * w + iw) < y) by (nonlinear_arith)
        requires
            0 <= c < nc,
            0 <= ih * w + iw < x,
            y == nc * x,
    ;
    assert(b * y + (c * x + ih * w + iw) < nb * y) by (nonlinear_arith)
        requires
            0 <= b < nb,
            0 <= c * x + ih * w + iw < y,
    ;
    assert(b * nc * h * w == b * y && c * h * w == c * x && nb * nc * h * w == nb * y) by (nonlinear_arith)
        requires
            x == h * w,
            y == nc * x,
    ;
}

/// Whether [`black_im2col`] can run on `black_input` with geometry
/// `black_g`: both windows fit with positions inside `isize`, the column
/// matrices fit in a `usize`, and the input holds at least `batch *
/// channels * h * w` words. It answers `false` otherwise, though an input
/// whose missing words no tap reads would also do.
pub fn black_im2col_check(black_input: &[u32], black_g: &BlackIm2colGeometry) -> (r: bool)
    ensures
        r ==> black_im2col_ok(black_input@, *black_g),
{
    let g = *black_g;
    if !black_conv_axis_check(g.black_h, g.black_kh, g.black_stride_h, g.black_pad_h, g.black_dilation_h)
        || !black_conv_axis_check(g.black_w, g.black_kw, g.black_stride_w, g.black_pad_w, g.black_dilation_w) {
        return false;
    }
    let black_oh = black_conv_out_len(g.black_h, g.black_kh, g.black_stride_h, g.black_pad_h, g.black_dilation_h);
    let black_ow = black_conv_out_len(g.black_w, g.black_kw, g.black_stride_w, g.black_pad_w, g.black_dilation_w);
    let black_cols = match black_oh.checked_mul(black_ow) {
        Some(v) => v,
        None => return false,
    };
    let black_rows = match g.black_channels.checked_mul(g.black_kh) {
        Some(v) => match v.checked_mul(g.black_kw) {
            Some(w) => w,
            None => return false,
        },
        None => return false,
    };
    let black_total = match g.black_batch.checked_mul(black_rows) {
        Some(v) => match v.checked_mul(black_cols) {
            Some(w) => w,
            None => return false,
        },
        None => return false,
    };
    let black_image = match g.black_batch.checked_mul(g.black_channels) {
        Some(v) => match v.checked_mul(g.black_h) {
            Some(w) => match w.checked_mul(g.black_w) {
                Some(z) => z,
                None => return false,
            },
            None => return false,
        },
        None => return false,
    };
    if black_input.len() < black_image {
        return false;
    }
    proof {
        assert forall|b: int, c: int, ki: int, kj: int, oi: int, oj: int|
            0 <= b < g.black_batch && 0 <= c < g.black_channels && 0 <= ki < g.black_kh && 0 <= kj
                < g.black_kw && 0 <= oi < black_geom_oh(g) && 0 <= oj < black_geom_ow(g)
                implies #[trigger] black_im2col_read_ok(black_input@, g, b, c, ki, kj, oi, oj) by {
            match (
                black_conv_tap_spec(oi, ki, g.black_stride_h as int, g.black_pad_h as int, g.black_dilation_h as int, g.black_h as int),
                black_conv_tap_spec(oj, kj, g.black_stride_w as int, g.black_pad_w as int, g.black_dilation_w as int, g.black_w as int),
            ) {
                (Some(ih), Some(iw)) => {
                    lemma_image_index_below(b, c, ih, iw, g.black_batch as int, g.black_channels as int, g.black_h as int, g.black_w as int);
                },
                _ => {},
            }
        }
    }
    true
}

/// The extents, kernel and window of a grouped 2-D convolution.
#[derive(Debug, Clone, Copy)]
pub struct BlackGroupGeometry {
    pub black_batch: usize,
    pub black_in_channels: usize,
    pub black_h: usize,
    pub black_w: usize,
    pub black_out_channels: usize,
    pub black_groups: usize,
    pub black_kh: usize,
    pub black_kw: usize,
    pub black_stride_h: usize,
    pub black_stride_w: usize,
    pub black_pad_h: usize,
    pub black_pad_w: usize,
    pub black_dilation_h: usize,
    pub black_dilation_w: usize,
}

/// Input channels per group.
pub open spec fn black_in_per_group(g: BlackGroupGeometry) -> int {
    g.black_in_channels as int / g.black_groups as int
}

/// Output channels per group.
pub open spec fn black_out_per_group(g: BlackGroupGeometry) -> int {
    g.black_out_channels as int / g.black_groups as int
}

/// The input extents `[batch, in_channels, h, w]`.
pub open spec fn black_group_in_dims(g: BlackGroupGeometry) -> Seq<usize> {
    seq![g.black_batch, g.black_in_channels, g.black_h, g.black_w]
}

/// The weight extents `[out_channels, in_per_group, kh, kw]`.
pub open spec fn black_group_w_dims(g: BlackGroupGeometry) -> Seq<usize> {
    seq![g.black_out_channels, black_in_per_group(g) as usize, g.black_kh, g.black_kw]
}

/// Tap `t` (input channel of the group, then kernel row, then kernel
/// column) of output channel `oc` of group `grp` at output position `(oi,
/// oj)` of image `b`: the input and weight positions it multiplies, or
/// nothing when it falls in the padding.
pub open spec fn black_group_feed(g: BlackGroupGeometry, b: int, grp: int, oc: int, oi: int, oj: int, t: int) -> Option<(usize, usize)> {
    let kk = g.black_kh * g.black_kw;
    let ic = t / kk;
    let ki = (t % kk) / (g.black_kw as int);
    let kj = t % (g.black_kw as int);
    let ic_abs = grp * black_in_per_group(g) + ic;
    let oc_abs = grp * black_out_per_group(g) + oc;
    match (
        black_conv_tap_spec(oi, ki, g.black_stride_h as int, g.black_pad_h as int, g.black_dilation_h as int, g.black_h as int),
        black_conv_tap_spec(oj, kj, g.black_stride_w as int, g.black_pad_w as int, g.black_dilation_w as int, g.black_w as int),
    ) {
        (Some(ih), Some(iw)) => Some((
            black_flat(black_group_in_dims(g), seq![b as usize, ic_abs as usize, ih as usize, iw as usize]) as usize,
            black_flat(black_group_w_dims(g), seq![oc_abs as usize, ic as usize, ki as usize, kj as usize]) as usize,
        )),
        _ => None,
    }
}

/// The grouped convolution can be planned: at least one group, windows
/// that fit with positions inside `isize`, and input and weight extents
/// that multiply out.
pub open spec fn black_group_ok(g: BlackGroupGeometry) -> bool {
    &&& g.black_groups >= 1
    &&& black_conv_axis_ok(g.black_h as int, g.black_kh as int, g.black_stride_h as int, g.black_pad_h as int, g.black_dilation_h as int)
    &&& black_conv_axis_ok(g.black_w as int, g.black_kw as int, g.black_stride_w as int, g.black_pad_w as int, g.black_dilation_w as int)
    &&& g.black_h + 2 * g.black_pad_h <= isize::MAX
    &&& g.black_w + 2 * g.black_pad_w <= isize::MAX
    &&& black_prefix_products_fit(black_group_in_dims(g))
    &&& black_prefix_products_fit(black_group_w_dims(g))
    &&& black_in_per_group(g) * g.black_kh * g.black_kw <= usize::MAX
}

/// Whether a grouped convolution can be planned: the test to make before
/// asking for its taps.
pub fn black_group_check(black_g: &BlackGroupGeometry) -> (r: bool)
    ensures
        r == black_group_ok(*black_g),
{
    let g = *black_g;
    if g.black_groups == 0 {
        return false;
    }
    if !black_conv_axis_check(g.black_h, g.black_kh, g.black_stride_h, g.black_pad_h, g.black_dilation_h)
        || !black_conv_axis_check(g.black_w, g.black_kw, g.black_stride_w, g.black_pad_w, g.black_dilation_w) {
        return false;
    }
    let black_ipg = g.black_in_channels / g.black_groups;
    let black_in_dims = [g.black_batch, g.black_in_channels, g.black_h, g.black_w];
    let black_w_dims = [g.black_out_channels, black_ipg, g.black_kh, g.black_kw];
    assert(black_in_dims@ == black_group_in_dims(g));
    assert(black_w_dims@ == black_group_w_dims(g));
    if !crate::black_shape::black_products_fit(&black_in_dims) || !crate::black_shape::black_products_fit(&black_w_dims) {
        return false;
    }
    match black_ipg.checked_mul(g.black_kh) {
        None => {
            proof {
                assert(black_ipg * g.black_kh <= black_ipg * g.black_kh * g.black_kw) by (nonlinear_arith)
                    requires
                        g.black_kw >= 1,
                ;
            }
            false
        },
        Some(black_p) => black_p.checked_mul(g.black_kw).is_some(),
    }
}

/// Every tap feeding one output of a grouped 2-D convolution, in order of
/// input channel, kernel row and kernel column: for each, the input and
/// weight positions it multiplies, or `None` inside the padding.
pub fn black_group_taps(
    black_g: &BlackGroupGeometry,
    black_b: usize,
    black_grp: usize,
    black_oc: usize,
    black_oi: usize,
    black_oj: usize,
) -> (r: Vec<Option<(usize, usize)>>)
    requires
        black_group_ok(*black_g),
        black_b < black_g.black_batch,
        black_grp < black_g.black_groups,
        black_oc < black_out_per_group(*black_g),
        black_oi < black_conv_out_len_spec(black_g.black_h as int, black_g.black_kh as int, black_g.black_stride_h as int, black_g.black_pad_h as int, black_g.black_dilation_h as int),
        black_oj < black_conv_out_len_spec(black_g.black_w as int, black_g.black_kw as int, black_g.black_stride_w as int, black_g.black_pad_w as int, black_g.black_dilation_w as int),
    ensures
        r@ == Seq::new(
            (black_in_per_group(*black_g) * black_g.black_kh * black_g.black_kw) as nat,
            |t: int| black_group_feed(*black_g, black_b as int, black_grp as int, black_oc as int, black_oi as int, black_oj as int, t),
        ),
{
    let g = *black_g;
    let black_ipg = g.black_in_channels / g.black_groups;
    let black_opg = g.black_out_channels / g.black_groups;
    let ghost kk: int = g.black_kh * g.black_kw;
    proof {
        assert(black_grp * black_ipg + black_ipg <= g.black_in_channels) by (nonlinear_arith)
            requires
                black_grp < g.black_groups,
                black_ipg == g.black_in_channels / g.black_groups,
                g.black_groups >= 1,
        ;
        assert(black_grp * black_opg + black_oc < g.black_out_channels) by (nonlinear_arith)
            requires
                black_grp < g.black_groups,
                black_oc < black_opg,
                black_opg == g.black_out_channels / g.black_groups,
                g.black_groups >= 1,
        ;
        assert(0 <= black_ipg * g.black_kh <= black_ipg * g.black_kh * g.black_kw) by (nonlinear_arith)
            requires
                g.black_kw >= 1,
        ;
    }
    let black_ic_base = black_grp * black_ipg;
    let black_oc_abs = black_grp * black_opg + black_oc;
    let black_in_dims = [g.black_batch, g.black_in_channels, g.black_h, g.black_w];
    let black_w_dims = [g.black_out_channels, black_ipg, g.black_kh, g.black_kw];
    assert(black_in_dims@ == black_group_in_dims(g));
    assert(black_w_dims@ == black_group_w_dims(g));
    assert(black_in_dims@.take(4) =~= black_in_dims@);
    assert(black_w_dims@.take(4) =~= black_w_dims@);
    assert(black_product(black_in_dims@) <= usize::MAX);
    assert(black_product(black_w_dims@) <= usize::MAX);
    let mut r: Vec<Option<(usize, usize)>> = Vec::new();
    let mut black_ic: usize = 0;
    while black_ic < black_ipg
        invariant
            g == *black_g,
            black_group_ok(g),
            black_ipg == g.black_in_channels / g.black_groups,
            black_opg == g.black_out_channels / g.black_groups,
            black_ic_base == black_grp * black_ipg,
            black_ic_base + black_ipg <= g.black_in_channels,
            black_oc_abs == black_grp * black_opg + black_oc,
            black_oc_abs < g.black_out_channels,
            black_b < g.black_batch,
            kk == g.black_kh * g.black_kw,
            black_oi < black_conv_out_len_spec(g.black_h as int, g.black_kh as int, g.black_stride_h as int, g.black_pad_h as int, g.black_dilation_h as int),
            black_oj < black_conv_out_len_spec(g.black_w as int, g.black_kw as int, g.black_stride_w as int, g.black_pad_w as int, g.black_dilation_w as int),
            black_in_dims@ == black_group_in_dims(g),
            black_w_dims@ == black_group_w_dims(g),
            black_product(black_in_dims@) <= usize::MAX,
            black_product(black_w_dims@) <= usize::MAX,
            black_ic <= black_ipg,
            r@.len() == black_ic * kk,
            forall|t: int| 0 <= t < r@.len() ==> #[trigger] r@[t] == black_group_feed(g, black_b as int, black_grp as int, black_oc as int, black_oi as int, black_oj as int, t),
        decreases black_ipg - black_ic,
    {
        let mut black_ki: usize = 0;
        while black_ki < g.black_kh
            invariant
                g == *black_g,
                black_group_ok(g),
                black_ipg == g.black_in_channels / g.black_groups,
                black_opg == g.black_out_channels / g.black_groups,
                black_ic_base == black_grp * black_ipg,
                black_ic_base + black_ipg <= g.black_in_channels,
                black_oc_abs == black_grp * black_opg + black_oc,
                black_oc_abs < g.black_out_channels,
                black_b < g.black_batch,
                kk == g.black_kh * g.black_kw,
                black_oi < black_conv_out_len_spec(g.black_h as int, g.black_kh as int, g.black_stride_h as int, g.black_pad_h as int, g.black_dilation_h as int),
                black_oj < black_conv_out_len_spec(g.black_w as int, g.black_kw as int, g.black_stride_w as int, g.black_pad_w as int, g.black_dilation_w as int),
                black_in_dims@ == black_group_in_dims(g),
                black_w_dims@ == black_group_w_dims(g),
                black_product(black_in_dims@) <= usize::MAX,
                black_product(black_w_dims@) <= usize::MAX,
                black_ic < black_ipg,
                black_ki <= g.black_kh,
                r@.len() == black_ic * kk + black_ki * g.black_kw,
                forall|t: int| 0 <= t < r@.len() ==> #[trigger] r@[t] == black_group_feed(g, black_b as int, black_grp as int, black_oc as int, black_oi as int, black_oj as int, t),
            decreases g.black_kh - black_ki,
        {
            let mut black_kj: usize = 0;
            while black_kj < g.black_kw
                invariant
                    g == *black_g,
                    black_group_ok(g),
                    black_ipg == g.black_in_channels / g.black_groups,
                    black_opg == g.black_out_channels / g.black_groups,
                    black_ic_base == black_grp * black_ipg,
                    black_ic_base + black_ipg <= g.black_in_channels,
                    black_oc_abs == black_grp * black_opg + black_oc,
                    black_oc_abs < g.black_out_channels,
                    black_b < g.black_batch,
                    kk == g.black_kh * g.black_kw,
                    black_oi < black_conv_out_len_spec(g.black_h as int, g.black_kh as int, g.black_stride_h as int, g.black_pad_h as int, g.black_dilation_h as int),
                    black_oj < black_conv_out_len_spec(g.black_w as int, g.black_kw as int, g.black_stride_w as int, g.black_pad_w as int, g.black_dilation_w as int),
                    black_in_dims@ == black_group_in_dims(g),
                    black_w_dims@ == black_group_w_dims(g),
                    black_product(black_in_dims@) <= usize::MAX,
                    black_product(black_w_dims@) <= usize::MAX,
                    black_ic < black_ipg,
                    black_ki < g.black_kh,
                    black_kj <= g.black_kw,
                    r@.len() == black_ic * kk + black_ki * g.black_kw + black_kj,
                    forall|t: int| 0 <= t < r@.len() ==> #[trigger] r@[t] == black_group_feed(g, black_b as int, black_grp as int, black_oc as int, black_oi as int, black_oj as int, t),
                decreases g.black_kw - black_kj,
            {
                let ghost t: int = r@.len() as int;
                proof {
                    lemma_group_tap_split(t, black_ic as int, black_ki as int, black_kj as int, g.black_kh as int, g.black_kw as int);
                    lemma_tap_position_bound(black_oi as int, black_ki as int, g.black_h as int, g.black_kh as int, g.black_stride_h as int, g.black_pad_h as int, g.black_dilation_h as int);
                    lemma_tap_position_bound(black_oj as int, black_kj as int, g.black_w as int, g.black_kw as int, g.black_stride_w as int, g.black_pad_w as int, g.black_dilation_w as int);
                }
                let black_ih = black_conv_tap(black_oi, black_ki, g.black_stride_h, g.black_pad_h, g.black_dilation_h, g.black_h);
                let black_iw = black_conv_tap(black_oj, black_kj, g.black_stride_w, g.black_pad_w, g.black_dilation_w, g.black_w);
                let black_entry = match (black_ih, black_iw) {
                    (Some(black_ih_a), Some(black_iw_a)) => {
                        let black_in_idx = [black_b, black_ic_base + black_ic, black_ih_a, black_iw_a];
                        let black_w_idx = [black_oc_abs, black_ic, black_ki, black_kj];
                        proof {
                            assert(black_in_range(black_in_dims@, black_in_idx@));
                            assert(black_in_range(black_w_dims@, black_w_idx@));
                            lemma_flat_bound(black_in_dims@, black_in_idx@);
                            lemma_flat_bound(black_w_dims@, black_w_idx@);
                        }
                        let black_p = black_flat_index(&black_in_dims, &black_in_idx).unwrap();
                        let black_q = black_flat_index(&black_w_dims, &black_w_idx).unwrap();
                        Some((black_p, black_q))
                    },
                    _ => None,
                };
                r.push(black_entry);
                proof {
                    assert(r@[t] == black_group_feed(g, black_b as int, black_grp as int, black_oc as int, black_oi as int, black_oj as int, t));
                }
                black_kj = black_kj + 1;
            }
            black_ki = black_ki + 1;
            proof {
                assert(black_ki * g.black_kw == (black_ki - 1) * g.black_kw + g.black_kw) by (nonlinear_arith);
            }
        }
        black_ic = black_ic + 1;
        proof {
            assert(black_ic * kk == (black_ic - 1) * kk + g.black_kh * g.black_kw) by (nonlinear_arith)
                requires
                    kk == g.black_kh * g.black_kw,
            ;
            assert(g.black_kh * g.black_kw == kk);
        }
    }
    proof {
        assert(black_ipg * kk == black_ipg * g.black_kh * g.black_kw) by (nonlinear_arith)
            requires
                kk == g.black_kh * g.black_kw,
        ;
    }
    assert(r@ =~= Seq::new(
        (black_in_per_group(*black_g) * black_g.black_kh * black_g.black_kw) as nat,
        |t: int| black_group_feed(*black_g, black_b as int, black_grp as int, black_oc as int, black_oi as int, black_oj as int, t),
    ));
    r
}

/// Tap number `t = (ic * kh + ki) * kw + kj` splits back into its parts.
proof fn lemma_group_tap_split(t: int, ic: int, ki: int, kj: int, kh: int, kw: int)
    requires
        0 <= ki < kh,
        0 <= kj < kw,
        0 <= ic,
        t == ic * (kh * kw) + ki * kw + kj,
    ensures
        t / (kh * kw) == ic,
        (t % (kh * kw)) / kw == ki,
        t % kw == kj,
{
    assert(0 <= ki * kw + kj < kh * kw) by (nonlinear_arith)
        requires
            0 <= ki < kh,
            0 <= kj < kw,
    ;
    lemma_split(t, kh * kw, ic, ki * kw + kj);
    lemma_split(ki * kw + kj, kw, ki, kj);
    assert(t == (ic * kh + ki) * kw + kj) by (nonlinear_arith)
        requires
            t == ic * (kh * kw) + ki * kw + kj,
    ;
    lemma_split(t, kw, ic * kh + ki, kj);
}

/// Below `n * m`, the quotient by `m` stays below `n`.
proof fn lemma_quot_below(t: int, m: int, n: int)
    requires
        0 <= t < n * m,
        m > 0,
    ensures
        0 <= t / m < n,
        0 <= t % m < m,
{
    vstd::arithmetic::div_mod::lemma_fundamental_div_mod(t, m);
    assert(0 <= t / m) by (nonlinear_arith)
        requires
            t >= 0,
            m > 0,
    ;
    assert(t / m < n) by (nonlinear_arith)
        requires
            t == m * (t / m) + t % m,
            0 <= t % m,
            t < n * m,
            m > 0,
    ;
}

/// The extents, kernel and window of a 3-D convolution.
#[derive(Debug, Clone, Copy)]
pub struct Black3dGeometry {
    pub black_batch: usize,
    pub black_in_channels: usize,
    pub black_d: usize,
    pub black_h: usize,
    pub black_w: usize,
    pub black_out_channels: usize,
    pub black_kd: usize,
    pub black_kh: usize,
    pub black_kw: usize,
    pub black_stride: [usize; 3],
    pub black_pad: [usize; 3],
    pub black_dilation: [usize; 3],
}

/// The input extents `[batch, in_channels, d, h, w]`.
pub open spec fn black_3d_in_dims(g: Black3dGeometry) -> Seq<usize> {
    seq![g.black_batch, g.black_in_channels, g.black_d, g.black_h, g.black_w]
}

/// The weight extents `[out_channels, in_channels, kd, kh, kw]`.
pub open spec fn black_3d_w_dims(g: Black3dGeometry) -> Seq<usize> {
    seq![g.black_out_channels, g.black_in_channels, g.black_kd, g.black_kh, g.black_kw]
}

/// The input extent, kernel extent and window of spatial axis `a` (depth,
/// height, width).
pub open spec fn black_3d_axis(g: Black3dGeometry, a: int) -> (int, int, int, int, int) {
    let len = if a == 0 { g.black_d } else if a == 1 { g.black_h } else { g.black_w };
    let k = if a == 0 { g.black_kd } else if a == 1 { g.black_kh } else { g.black_kw };
    (len as int, k as int, g.black_stride@[a] as int, g.black_pad@[a] as int, g.black_dilation@[a] as int)
}

/// The input position tap `k` of output position `o` reads along axis `a`.
pub open spec fn black_3d_tap(g: Black3dGeometry, a: int, o: int, k: int) -> Option<int> {
    let x = black_3d_axis(g, a);
    black_conv_tap_spec(o, k, x.2, x.3, x.4, x.0)
}

/// The output length along axis `a`.
pub open spec fn black_3d_out_len(g: Black3dGeometry, a: int) -> int {
    let x = black_3d_axis(g, a);
    black_conv_out_len_spec(x.0, x.1, x.2, x.3, x.4)
}

/// Tap `t` (input channel, then kernel depth, row and column) of output
/// channel `oc` at output position `(od, oh, ow)` of image `b`: the input
/// and weight positions it multiplies, or nothing in the padding.
pub open spec fn black_3d_feed(g: Black3dGeometry, b: int, oc: int, od: int, oh: int, ow: int, t: int) -> Option<(usize, usize)> {
    let hw = g.black_kh * g.black_kw;
    let kkk = g.black_kd * hw;
    let ic = t / kkk;
    let r = t % kkk;
    let kdi = r / hw;
    let r2 = r % hw;
    let khi = r2 / (g.black_kw as int);
    let kwi = r2 % (g.black_kw as int);
    match (black_3d_tap(g, 0, od, kdi), black_3d_tap(g, 1, oh, khi), black_3d_tap(g, 2, ow, kwi)) {
        (Some(id), Some(ih), Some(iw)) => Some((
            black_flat(black_3d_in_dims(g), seq![b as usize, ic as usize, id as usize, ih as usize, iw as usize]) as usize,
            black_flat(black_3d_w_dims(g), seq![oc as usize, ic as usize, kdi as usize, khi as usize, kwi as usize]) as usize,
        )),
        _ => None,
    }
}

/// The 3-D convolution can be planned: windows that fit with positions
/// inside `isize` along every axis, and extents that multiply out.
pub open spec fn black_3d_ok(g: Black3dGeometry) -> bool {
    &&& forall|a: int| 0 <= a < 3 ==> {
        let x = #[trigger] black_3d_axis(g, a);
        black_conv_axis_ok(x.0, x.1, x.2, x.3, x.4) && x.0 + 2 * x.3 <= isize::MAX
    }
    &&& black_prefix_products_fit(black_3d_in_dims(g))
    &&& black_prefix_products_fit(black_3d_w_dims(g))
    &&& g.black_in_channels * (g.black_kd * (g.black_kh * g.black_kw)) <= usize::MAX
}

/// Whether a 3-D convolution can be planned: the test to make before asking
/// for its taps.
pub fn black_3d_check(black_g: &Black3dGeometry) -> (r: bool)
    ensures
        r == black_3d_ok(*black_g),
{
    let g = *black_g;
    let black_lens = [g.black_d, g.black_h, g.black_w];
    let black_ks = [g.black_kd, g.black_kh, g.black_kw];
    let mut black_a: usize = 0;
    while black_a < 3
        invariant
            g == *black_g,
            black_a <= 3,
            black_lens@ == seq![g.black_d, g.black_h, g.black_w],
            black_ks@ == seq![g.black_kd, g.black_kh, g.black_kw],
            forall|a: int| 0 <= a < black_a ==> {
                let x = #[trigger] black_3d_axis(g, a);
                black_conv_axis_ok(x.0, x.1, x.2, x.3, x.4) && x.0 + 2 * x.3 <= isize::MAX
            },
        decreases 3 - black_a,
    {
        let ghost x = black_3d_axis(g, black_a as int);
        assert(x.0 == black_lens@[black_a as int] && x.1 == black_ks@[black_a as int]);
        if !black_conv_axis_check(black_lens[black_a], black_ks[black_a], g.black_stride[black_a], g.black_pad[black_a], g.black_dilation[black_a]) {
            return false;
        }
        black_a = black_a + 1;
    }
    let ghost y0 = black_3d_axis(g, 0);
    let ghost y1 = black_3d_axis(g, 1);
    let ghost y2 = black_3d_axis(g, 2);
    assert(y0.1 >= 1 && y1.1 >= 1 && y2.1 >= 1);
    assert(g.black_kd >= 1 && g.black_kh >= 1 && g.black_kw >= 1);
    let black_in_dims = [g.black_batch, g.black_in_channels, g.black_d, g.black_h, g.black_w];
    let black_w_dims = [g.black_out_channels, g.black_in_channels, g.black_kd, g.black_kh, g.black_kw];
    assert(black_in_dims@ == black_3d_in_dims(g));
    assert(black_w_dims@ == black_3d_w_dims(g));
    if !crate::black_shape::black_products_fit(&black_in_dims) || !crate::black_shape::black_products_fit(&black_w_dims) {
        return false;
    }
    if g.black_in_channels == 0 {
        assert(g.black_in_channels * (g.black_kd * (g.black_kh * g.black_kw)) == 0) by (nonlinear_arith)
            requires
                g.black_in_channels == 0,
        ;
        return true;
    }
    let black_hw = match g.black_kh.checked_mul(g.black_kw) {
        Some(v) => v,
        None => {
            proof {
                lemma_kernel_product_grows(g.black_in_channels as int, g.black_kd as int, g.black_kh as int, g.black_kw as int);
            }
            return false;
        },
    };
    let black_kkk = match g.black_kd.checked_mul(black_hw) {
        Some(v) => v,
        None => {
            proof {
                lemma_kernel_product_grows(g.black_in_channels as int, g.black_kd as int, g.black_kh as int, g.black_kw as int);
            }
            return false;
        },
    };
    g.black_in_channels.checked_mul(black_kkk).is_some()
}

/// With every kernel extent positive and some input channel, the partial
/// kernel products stay below the whole.
proof fn lemma_kernel_product_grows(c: int, kd: int, kh: int, kw: int)
    requires
        c >= 1 || c == 0,
        kd >= 1,
        kh >= 1,
        kw >= 1,
    ensures
        c >= 1 ==> kh * kw <= c * (kd * (kh * kw)),
        c >= 1 ==> kd * (kh * kw) <= c * (kd * (kh * kw)),
{
    assert(c >= 1 ==> kh * kw <= kd * (kh * kw) <= c * (kd * (kh * kw))) by (nonlinear_arith)
        requires
            kd >= 1,
            kh >= 1,
            kw >= 1,
    ;
}

/// Every tap feeding one output of a 3-D convolution, in order of input
/// channel, kernel depth, row and column: for each, the input and weight
/// positions it multiplies, or `None` inside the padding.
pub fn black_3d_taps(
    black_g: &Black3dGeometry,
    black_b: usize,
    black_oc: usize,
    black_od: usize,
    black_oh: usize,
    black_ow: usize,
) -> (r: Vec<Option<(usize, usize)>>)
    requires
        black_3d_ok(*black_g),
        black_b < black_g.black_batch,
        black_oc < black_g.black_out_channels,
        black_od < black_3d_out_len(*black_g, 0),
        black_oh < black_3d_out_len(*black_g, 1),
        black_ow < black_3d_out_len(*black_g, 2),
    ensures
        r@ == Seq::new(
            (black_g.black_in_channels * (black_g.black_kd * (black_g.black_kh * black_g.black_kw))) as nat,
            |t: int| black_3d_feed(*black_g, black_b as int, black_oc as int, black_od as int, black_oh as int, black_ow as int, t),
        ),
{
    let g = *black_g;
    let ghost x0 = black_3d_axis(g, 0);
    let ghost x1 = black_3d_axis(g, 1);
    let ghost x2 = black_3d_axis(g, 2);
    assert(black_conv_axis_ok(x0.0, x0.1, x0.2, x0.3, x0.4) && x0.0 + 2 * x0.3 <= isize::MAX);
    assert(black_conv_axis_ok(x1.0, x1.1, x1.2, x1.3, x1.4) && x1.0 + 2 * x1.3 <= isize::MAX);
    assert(black_conv_axis_ok(x2.0, x2.1, x2.2, x2.3, x2.4) && x2.0 + 2 * x2.3 <= isize::MAX);
    proof {
        lemma_kernel_product_grows(g.black_in_channels as int, g.black_kd as int, g.black_kh as int, g.black_kw as int);
        assert(0 <= g.black_kh * g.black_kw) by (nonlinear_arith);
        assert(g.black_kh * g.black_kw <= g.black_kd * (g.black_kh * g.black_kw)) by (nonlinear_arith)
            requires
                g.black_kd >= 1,
        ;
        assert(0 <= g.black_kd * (g.black_kh * g.black_kw) <= g.black_in_channels * (g.black_kd * (g.black_kh * g.black_kw)) || g.black_in_channels == 0) by (nonlinear_arith)
            requires
                g.black_kd >= 1,
                g.black_kh >= 1,
                g.black_kw >= 1,
        ;
    }
    let black_in_dims = [g.black_batch, g.black_in_channels, g.black_d, g.black_h, g.black_w];
    let black_w_dims = [g.black_out_channels, g.black_in_channels, g.black_kd, g.black_kh, g.black_kw];
    assert(black_in_dims@ == black_3d_in_dims(g));
    assert(black_w_dims@ == black_3d_w_dims(g));
    assert(black_in_dims@.take(5) =~= black_in_dims@);
    assert(black_w_dims@.take(5) =~= black_w_dims@);
    let mut r: Vec<Option<(usize, usize)>> = Vec::new();
    if g.black_in_channels == 0 {
        proof {
            assert(g.black_in_channels * (g.black_kd * (g.black_kh * g.black_kw)) == 0) by (nonlinear_arith)
                requires
                    g.black_in_channels == 0,
            ;
        }
        assert(r@ =~= Seq::new(
            (black_g.black_in_channels * (black_g.black_kd * (black_g.black_kh * black_g.black_kw))) as nat,
            |t: int| black_3d_feed(*black_g, black_b as int, black_oc as int, black_od as int, black_oh as int, black_ow as int, t),
        ));
        return r;
    }
    assert(g.black_kd >= 1 && g.black_kh >= 1 && g.black_kw >= 1);
    let black_hw = g.black_kh * g.black_kw;
    let black_kkk = g.black_kd * black_hw;
    let black_total = g.black_in_channels * black_kkk;
    proof {
        assert(black_hw >= 1 && black_kkk >= 1) by (nonlinear_arith)
            requires
                black_hw == g.black_kh * g.black_kw,
                black_kkk == g.black_kd * black_hw,
                g.black_kd >= 1,
                g.black_kh >= 1,
                g.black_kw >= 1,
        ;
    }
    let mut black_t: usize = 0;
    while black_t < black_total
        invariant
            g == *black_g,
            black_3d_ok(g),
            black_hw == g.black_kh * g.black_kw,
            black_kkk == g.black_kd * black_hw,
            black_total == g.black_in_channels * black_kkk,
            black_hw >= 1,
            black_kkk >= 1,
            g.black_kw >= 1,
            black_b < g.black_batch,
            black_oc < g.black_out_channels,
            x0 == black_3d_axis(g, 0),
            x1 == black_3d_axis(g, 1),
            x2 == black_3d_axis(g, 2),
            black_conv_axis_ok(x0.0, x0.1, x0.2, x0.3, x0.4) && x0.0 + 2 * x0.3 <= isize::MAX,
            black_conv_axis_ok(x1.0, x1.1, x1.2, x1.3, x1.4) && x1.0 + 2 * x1.3 <= isize::MAX,
            black_conv_axis_ok(x2.0, x2.1, x2.2, x2.3, x2.4) && x2.0 + 2 * x2.3 <= isize::MAX,
            black_od < black_3d_out_len(g, 0),
            black_oh < black_3d_out_len(g, 1),
            black_ow < black_3d_out_len(g, 2),
            black_in_dims@ == black_3d_in_dims(g),
            black_w_dims@ == black_3d_w_dims(g),
            black_product(black_in_dims@) <= usize::MAX,
            black_product(black_w_dims@) <= usize::MAX,
            black_t <= black_total,
            r@ == Seq::new(black_t as nat, |t: int| black_3d_feed(g, black_b as int, black_oc as int, black_od as int, black_oh as int, black_ow as int, t)),
        decreases black_total - black_t,
    {
        let black_ic = black_t / black_kkk;
        let black_rest = black_t % black_kkk;
        let black_kdi = black_rest / black_hw;
        let black_rest2 = black_rest % black_hw;
        let black_khi = black_rest2 / g.black_kw;
        let black_kwi = black_rest2 % g.black_kw;
        proof {
            lemma_quot_below(black_t as int, black_kkk as int, g.black_in_channels as int);
            lemma_quot_below(black_rest as int, black_hw as int, g.black_kd as int);
            lemma_quot_below(black_rest2 as int, g.black_kw as int, g.black_kh as int);
            lemma_tap_position_bound(black_od as int, black_kdi as int, x0.0, x0.1, x0.2, x0.3, x0.4);
            lemma_tap_position_bound(black_oh as int, black_khi as int, x1.0, x1.1, x1.2, x1.3, x1.4);
            lemma_tap_position_bound(black_ow as int, black_kwi as int, x2.0, x2.1, x2.2, x2.3, x2.4);
        }
        let black_id = black_conv_tap(black_od, black_kdi, g.black_stride[0], g.black_pad[0], g.black_dilation[0], g.black_d);
        let black_ih = black_conv_tap(black_oh, black_khi, g.black_stride[1], g.black_pad[1], g.black_dilation[1], g.black_h);
        let black_iw = black_conv_tap(black_ow, black_kwi, g.black_stride[2], g.black_pad[2], g.black_dilation[2], g.black_w);
        let black_entry = match (black_id, black_ih, black_iw) {
            (Some(black_id_a), Some(black_ih_a), Some(black_iw_a)) => {
                let black_in_idx = [black_b, black_ic, black_id_a, black_ih_a, black_iw_a];
                let black_w_idx = [black_oc, black_ic, black_kdi, black_khi, black_kwi];
                proof {
                    assert(black_in_range(black_in_dims@, black_in_idx@));
                    assert(black_in_range(black_w_dims@, black_w_idx@));
                    lemma_flat_bound(black_in_dims@, black_in_idx@);
                    lemma_flat_bound(black_w_dims@, black_w_idx@);
                }
                let black_p = black_flat_index(&black_in_dims, &black_in_idx).unwrap();
                let black_q = black_flat_index(&black_w_dims, &black_w_idx).unwrap();
                Some((black_p, black_q))
            },
            _ => None,
        };
        r.push(black_entry);
        black_t = black_t + 1;
        assert(r@ =~= Seq::new(black_t as nat, |t: int| black_3d_feed(g, black_b as int, black_oc as int, black_od as int, black_oh as int, black_ow as int, t)));
    }
    r
}

/// The extents, kernel and stride of a 2-D transposed convolution.
#[derive(Debug, Clone, Copy)]
pub struct BlackTransposeGeometry {
    pub black_batch: usize,
    pub black_in_channels: usize,
    pub black_ih: usize,
    pub black_iw: usize,
    pub black_out_channels: usize,
    pub black_kh: usize,
    pub black_kw: usize,
    pub black_stride_h: usize,
    pub black_stride_w: usize,
    pub black_pad_h: usize,
    pub black_pad_w: usize,
    pub black_output_pad_h: usize,
    pub black_output_pad_w: usize,
}

/// The output length of a transposed convolution along one axis.
pub open spec fn black_transpose_out_len_spec(len: int, kernel: int, stride: int, pad: int, output_pad: int) -> int {
    (len - 1) * stride - 2 * pad + kernel + output_pad
}

/// The output length along an axis can be formed, and every tap position
/// and the output length lie inside `isize`.
pub open spec fn black_transpose_axis_fits(len: int, kernel: int, stride: int, pad: int, output_pad: int) -> bool {
    &&& black_conv_transpose_axis_ok(len, kernel, stride, pad, output_pad)
    &&& (len - 1) * stride + kernel <= isize::MAX
    &&& black_transpose_out_len_spec(len, kernel, stride, pad, output_pad) <= isize::MAX
}

/// The output height of the geometry.
pub open spec fn black_tr_oh(g: BlackTransposeGeometry) -> int {
    black_transpose_out_len_spec(g.black_ih as int, g.black_kh as int, g.black_stride_h as int, g.black_pad_h as int, g.black_output_pad_h as int)
}

/// The output width of the geometry.
pub open spec fn black_tr_ow(g: BlackTransposeGeometry) -> int {
    black_transpose_out_len_spec(g.black_iw as int, g.black_kw as int, g.black_stride_w as int, g.black_pad_w as int, g.black_output_pad_w as int)
}

/// The output extents `[batch, out_channels, oh, ow]`.
pub open spec fn black_tr_out_dims(g: BlackTransposeGeometry) -> Seq<usize> {
    seq![g.black_batch, g.black_out_channels, black_tr_oh(g) as usize, black_tr_ow(g) as usize]
}

/// The weight extents `[in_channels, out_channels, kh, kw]`.
pub open spec fn black_tr_w_dims(g: BlackTransposeGeometry) -> Seq<usize> {
    seq![g.black_in_channels, g.black_out_channels, g.black_kh, g.black_kw]
}

/// Tap `t` (output channel, then kernel row and column) of input position
/// `(ii, ij)` of channel `ic` of image `b`: the output and weight positions
/// that the input value is scattered to and multiplied by, or nothing when
/// the output position falls outside the result.
pub open spec fn black_tr_feed(g: BlackTransposeGeometry, b: int, ic: int, ii: int, ij: int, t: int) -> Option<(usize, usize)> {
    let kk = g.black_kh * g.black_kw;
    let oc = t / kk;
    let ki = (t % kk) / (g.black_kw as int);
    let kj = t % (g.black_kw as int);
    match (
        black_conv_tap_spec(ii, ki, g.black_stride_h as int, g.black_pad_h as int, 1, black_tr_oh(g)),
        black_conv_tap_spec(ij, kj, g.black_stride_w as int, g.black_pad_w as int, 1, black_tr_ow(g)),
    ) {
        (Some(oh), Some(ow)) => Some((
            black_flat(black_tr_out_dims(g), seq![b as usize, oc as usize, oh as usize, ow as usize]) as usize,
            black_flat(black_tr_w_dims(g), seq![ic as usize, oc as usize, ki as usize, kj as usize]) as usize,
        )),
        _ => None,
    }
}

/// The transposed convolution can be planned: both axes fit, and the
/// output and weight extents multiply out.
pub open spec fn black_tr_ok(g: BlackTransposeGeometry) -> bool {
    &&& black_transpose_axis_fits(g.black_ih as int, g.black_kh as int, g.black_stride_h as int, g.black_pad_h as int, g.black_output_pad_h as int)
    &&& black_transpose_axis_fits(g.black_iw as int, g.black_kw as int, g.black_stride_w as int, g.black_pad_w as int, g.black_output_pad_w as int)
    &&& black_prefix_products_fit(black_tr_out_dims(g))
    &&& black_prefix_products_fit(black_tr_w_dims(g))
    &&& g.black_out_channels * (g.black_kh * g.black_kw) <= usize::MAX
}

/// Whether a transposed convolution can be planned: the test to make before
/// asking for its taps.
pub fn black_tr_check(black_g: &BlackTransposeGeometry) -> (r: bool)
    ensures
        r == black_tr_ok(*black_g),
{
    let g = *black_g;
    if !black_conv_transpose_axis_check(g.black_ih, g.black_kh, g.black_stride_h, g.black_pad_h, g.black_output_pad_h)
        || !black_conv_transpose_axis_check(g.black_iw, g.black_kw, g.black_stride_w, g.black_pad_w, g.black_output_pad_w) {
        return false;
    }
    let black_oh = black_conv_transpose_out_len(g.black_ih, g.black_kh, g.black_stride_h, g.black_pad_h, g.black_output_pad_h);
    let black_ow = black_conv_transpose_out_len(g.black_iw, g.black_kw, g.black_stride_w, g.black_pad_w, g.black_output_pad_w);
    let black_out_dims = [g.black_batch, g.black_out_channels, black_oh, black_ow];
    let black_w_dims = [g.black_in_channels, g.black_out_channels, g.black_kh, g.black_kw];
    assert(black_out_dims@ == black_tr_out_dims(g));
    assert(black_w_dims@ == black_tr_w_dims(g));
    if !crate::black_shape::black_products_fit(&black_out_dims) || !crate::black_shape::black_products_fit(&black_w_dims) {
        return false;
    }
    if g.black_out_channels == 0 {
        assert(g.black_out_channels * (g.black_kh * g.black_kw) == 0) by (nonlinear_arith)
            requires
                g.black_out_channels == 0,
        ;
        return true;
    }
    match g.black_kh.checked_mul(g.black_kw) {
        None => {
            assert(g.black_kh * g.black_kw <= g.black_out_channels * (g.black_kh * g.black_kw)) by (nonlinear_arith)
                requires
                    g.black_out_channels >= 1,
            ;
            false
        },
        Some(black_kk) => g.black_out_channels.checked_mul(black_kk).is_some(),
    }
}

/// Every output a value of a transposed convolution's input is scattered
/// to, in order of output channel, kernel row and column: for each, the
/// output and weight positions, or `None` outside the result.
pub fn black_tr_taps(
    black_g: &BlackTransposeGeometry,
    black_b: usize,
    black_ic: usize,
    black_ii: usize,
    black_ij: usize,
) -> (r: Vec<Option<(usize, usize)>>)
    requires
        black_tr_ok(*black_g),
        black_b < black_g.black_batch,
        black_ic < black_g.black_in_channels,
        black_ii < black_g.black_ih,
        black_ij < black_g.black_iw,
    ensures
        r@ == Seq::new(
            (black_g.black_out_channels * (black_g.black_kh * black_g.black_kw)) as nat,
            |t: int| black_tr_feed(*black_g, black_b as int, black_ic as int, black_ii as int, black_ij as int, t),
        ),
{
    let g = *black_g;
    let black_oh = black_conv_transpose_out_len(g.black_ih, g.black_kh, g.black_stride_h, g.black_pad_h, g.black_output_pad_h);
    let black_ow = black_conv_transpose_out_len(g.black_iw, g.black_kw, g.black_stride_w, g.black_pad_w, g.black_output_pad_w);
    let black_out_dims = [g.black_batch, g.black_out_channels, black_oh, black_ow];
    let black_w_dims = [g.black_in_channels, g.black_out_channels, g.black_kh, g.black_kw];
    assert(black_out_dims@ == black_tr_out_dims(g));
    assert(black_w_dims@ == black_tr_w_dims(g));
    assert(black_out_dims@.take(4) =~= black_out_dims@);
    assert(black_w_dims@.take(4) =~= black_w_dims@);
    let mut r: Vec<Option<(usize, usize)>> = Vec::new();
    if g.black_out_channels == 0 || g.black_kh == 0 || g.black_kw == 0 {
        proof {
            assert(g.black_out_channels * (g.black_kh * g.black_kw) == 0) by (nonlinear_arith)
                requires
                    g.black_out_channels == 0 || g.black_kh == 0 || g.black_kw == 0,
            ;
        }
        assert(r@ =~= Seq::new(
            (black_g.black_out_channels * (black_g.black_kh * black_g.black_kw)) as nat,
            |t: int| black_tr_feed(*black_g, black_b as int, black_ic as int, black_ii as int, black_ij as int, t),
        ));
        return r;
    }
    proof {
        assert(g.black_kh * g.black_kw <= g.black_out_channels * (g.black_kh * g.black_kw)) by (nonlinear_arith)
            requires
                g.black_out_channels >= 1,
        ;
        assert(g.black_kh * g.black_kw >= 1) by (nonlinear_arith)
            requires
                g.black_kh >= 1,
                g.black_kw >= 1,
        ;
        assert(black_ii * g.black_stride_h <= (g.black_ih - 1) * g.black_stride_h) by (nonlinear_arith)
            requires
                black_ii <= g.black_ih - 1,
        ;
        assert(black_ij * g.black_stride_w <= (g.black_iw - 1) * g.black_stride_w) by (nonlinear_arith)
            requires
                black_ij <= g.black_iw - 1,
        ;
    }
    let black_kk = g.black_kh * g.black_kw;
    let black_total = g.black_out_channels * black_kk;
    let mut black_t: usize = 0;
    while black_t < black_total
        invariant
            g == *black_g,
            black_tr_ok(g),
            black_kk == g.black_kh * g.black_kw,
            black_kk >= 1,
            g.black_kw >= 1,
            black_total == g.black_out_channels * black_kk,
            black_b < g.black_batch,
            black_ic < g.black_in_channels,
            black_oh == black_tr_oh(g),
            black_ow == black_tr_ow(g),
            black_ii * g.black_stride_h <= (g.black_ih - 1) * g.black_stride_h,
            black_ij * g.black_stride_w <= (g.black_iw - 1) * g.black_stride_w,
            black_ii < g.black_ih,
            black_ij < g.black_iw,
            black_out_dims@ == black_tr_out_dims(g),
            black_w_dims@ == black_tr_w_dims(g),
            black_product(black_out_dims@) <= usize::MAX,
            black_product(black_w_dims@) <= usize::MAX,
            black_t <= black_total,
            r@ == Seq::new(black_t as nat, |t: int| black_tr_feed(g, black_b as int, black_ic as int, black_ii as int, black_ij as int, t)),
        decreases black_total - black_t,
    {
        let black_oc = black_t / black_kk;
        let black_rest = black_t % black_kk;
        let black_ki = black_rest / g.black_kw;
        let black_kj = black_rest % g.black_kw;
        proof {
            lemma_quot_below(black_t as int, black_kk as int, g.black_out_channels as int);
            lemma_quot_below(black_rest as int, g.black_kw as int, g.black_kh as int);
        }
        let black_oh_i = black_conv_tap(black_ii, black_ki, g.black_stride_h, g.black_pad_h, 1, black_oh);
        let black_ow_i = black_conv_tap(black_ij, black_kj, g.black_stride_w, g.black_pad_w, 1, black_ow);
        let black_entry = match (black_oh_i, black_ow_i) {
            (Some(black_oh_a), Some(black_ow_a)) => {
                let black_out_idx = [black_b, black_oc, black_oh_a, black_ow_a];
                let black_w_idx = [black_ic, black_oc, black_ki, black_kj];
                proof {
                    assert(black_in_range(black_out_dims@, black_out_idx@));
                    assert(black_in_range(black_w_dims@, black_w_idx@));
                    lemma_flat_bound(black_out_dims@, black_out_idx@);
                    lemma_flat_bound(black_w_dims@, black_w_idx@);
                }
                let black_p = black_flat_index(&black_out_dims, &black_out_idx).unwrap();
                let black_q = black_flat_index(&black_w_dims, &black_w_idx).unwrap();
                Some((black_p, black_q))
            },
            _ => None,
        };
        proof {
            let t = black_t as int;
            assert(t / (g.black_kh * g.black_kw) == black_oc as int);
            assert((t % (g.black_kh * g.black_kw)) / (g.black_kw as int) == black_ki as int);
            assert(t % (g.black_kw as int) == black_kj as int) by {
                vstd::arithmetic::div_mod::lemma_mod_mod(t, g.black_kw as int, g.black_kh as int);
                assert((g.black_kw as int) * (g.black_kh as int) == g.black_kh * g.black_kw) by (nonlinear_arith);
            }
            assert(black_entry == black_tr_feed(g, black_b as int, black_ic as int, black_ii as int, black_ij as int, t));
        }
        r.push(black_entry);
        black_t = black_t + 1;
        assert(r@ =~= Seq::new(black_t as nat, |t: int| black_tr_feed(g, black_b as int, black_ic as int, black_ii as int, black_ij as int, t)));
    }
    r
}

} // verus!
