use black_ferox::black_ops::black_conv::{black_3d_check, black_3d_taps, black_tr_check, black_tr_taps, Black3dGeometry, BlackTransposeGeometry};
use black_ferox::black_ops::black_attn::black_causal_mask;
use black_ferox::black_ops::black_conv::{black_group_check, black_group_taps, BlackGroupGeometry};
use black_ferox::black_index::black_flat_index;
use black_ferox::black_ops::black_conv::{
    black_conv2d_out_dims, black_conv3d_out_dims, black_conv_axis_check, black_conv_transpose2d_out_dims,
    black_conv_transpose_axis_check, black_im2col_check, BlackIm2colGeometry,
};
use black_ferox::black_ops::black_matmul::black_matmul_fits_check;
use black_ferox::black_ops::black_reduce::black_reduce_fits_check;
use black_ferox::black_shape::black_products_fit;
use black_ferox::black_strides::black_suffixes_fit;
use black_ferox::black_error::BlackError;

#[test]
fn black_flat_index_row_major() {
    assert_eq!(black_flat_index(&[2, 3, 4], &[1, 2, 3]), Some(23));
    assert_eq!(black_flat_index(&[2, 3, 4], &[0, 0, 0]), Some(0));
    assert_eq!(black_flat_index(&[], &[]), Some(0));
}

#[test]
fn black_flat_index_refuses_out_of_range() {
    assert_eq!(black_flat_index(&[2, 3], &[2, 0]), None);
    assert_eq!(black_flat_index(&[2, 3], &[0, 3]), None);
    assert_eq!(black_flat_index(&[2, 3], &[0]), None);
}

#[test]
fn black_flat_index_refuses_overflow() {
    let black_big = usize::MAX / 2;
    assert_eq!(black_flat_index(&[black_big, black_big], &[black_big - 1, 0]), None);
}

#[test]
fn black_flat_index_group_channels() {
    // channel `ic` of group `g` with 3 channels per group
    assert_eq!(black_flat_index(&[4, 3], &[2, 1]), Some(7));
}

#[test]
fn black_products_and_suffixes_fit() {
    assert!(black_products_fit(&[2, 3, 4]));
    assert!(!black_products_fit(&[usize::MAX, 2]));
    assert!(black_products_fit(&[0, usize::MAX, 2]));
    assert!(black_suffixes_fit(&[usize::MAX, 2, 2]));
    assert!(!black_suffixes_fit(&[1, usize::MAX, 2]));
}

#[test]
fn black_matmul_fits_check_cases() {
    assert!(black_matmul_fits_check(&[2, 3, 4], &[4, 5]));
    // inner extents differ: the layout rejects before multiplying
    assert!(black_matmul_fits_check(&[usize::MAX, 2, 3, 4], &[usize::MAX, 2, 5, 5]));
    assert!(!black_matmul_fits_check(&[usize::MAX, 2, 3, 4], &[4, 5]));
    assert!(!black_matmul_fits_check(&[usize::MAX, 4], &[4, usize::MAX]));
}

#[test]
fn black_reduce_fits_check_cases() {
    assert!(black_reduce_fits_check(&[2, 3], 5));
    assert!(black_reduce_fits_check(&[2, 3], 1));
    assert!(!black_reduce_fits_check(&[usize::MAX, 3], 0));
}

#[test]
fn black_conv_axis_check_cases() {
    assert!(black_conv_axis_check(5, 3, 1, 0, 1));
    assert!(!black_conv_axis_check(2, 3, 1, 0, 1));
    assert!(!black_conv_axis_check(5, 3, 0, 0, 1));
    assert!(!black_conv_axis_check(5, 0, 1, 0, 1));
    assert!(black_conv_axis_check(2, 3, 1, 1, 1));
}

#[test]
fn black_conv_transpose_axis_check_cases() {
    assert!(black_conv_transpose_axis_check(3, 3, 2, 1, 0));
    assert!(!black_conv_transpose_axis_check(0, 3, 2, 0, 0));
    assert!(!black_conv_transpose_axis_check(2, 3, 1, 1, 0));
}

#[test]
fn black_conv2d_out_dims_cases() {
    assert_eq!(black_conv2d_out_dims(&[1, 3, 5, 5], &[8, 3, 3, 3], 1, 1, 0, 0, 1, 1).unwrap(), vec![1, 8, 3, 3]);
    assert_eq!(black_conv2d_out_dims(&[2, 3, 7, 9], &[4, 3, 3, 3], 2, 2, 1, 1, 1, 1).unwrap(), vec![2, 4, 4, 5]);
    assert!(matches!(
        black_conv2d_out_dims(&[3, 5, 5], &[8, 3, 3, 3], 1, 1, 0, 0, 1, 1),
        Err(BlackError::BlackShapeError { .. })
    ));
}

#[test]
fn black_conv3d_out_dims_cases() {
    assert_eq!(
        black_conv3d_out_dims(&[1, 2, 4, 5, 6], &[3, 2, 2, 2, 2], &[1, 1, 1], &[0, 0, 0], &[1, 1, 1]).unwrap(),
        vec![1, 3, 3, 4, 5]
    );
    assert!(matches!(
        black_conv3d_out_dims(&[1, 2, 4, 5], &[3, 2, 2, 2, 2], &[1, 1, 1], &[0, 0, 0], &[1, 1, 1]),
        Err(BlackError::BlackShapeError { .. })
    ));
}

#[test]
fn black_conv_transpose2d_out_dims_cases() {
    assert_eq!(
        black_conv_transpose2d_out_dims(&[1, 4, 3, 3], &[4, 2, 3, 3], 2, 2, 1, 1, 1, 0).unwrap(),
        vec![1, 2, 6, 5]
    );
    assert!(matches!(
        black_conv_transpose2d_out_dims(&[1, 4, 3], &[4, 2, 3, 3], 2, 2, 1, 1, 0, 0),
        Err(BlackError::BlackShapeError { .. })
    ));
}

fn black_geom(black_h: usize) -> BlackIm2colGeometry {
    BlackIm2colGeometry {
        black_batch: 1,
        black_channels: 1,
        black_h,
        black_w: 3,
        black_kh: 2,
        black_kw: 2,
        black_stride_h: 1,
        black_stride_w: 1,
        black_pad_h: 0,
        black_pad_w: 0,
        black_dilation_h: 1,
        black_dilation_w: 1,
    }
}

#[test]
fn black_im2col_check_cases() {
    let black_input: Vec<u32> = (0..9).collect();
    assert!(black_im2col_check(&black_input, &black_geom(3)));
    assert!(!black_im2col_check(&black_input[..8], &black_geom(3)));
    assert!(!black_im2col_check(&black_input, &black_geom(1)));
}

#[test]
fn black_group_taps_two_groups() {
    let black_g = BlackGroupGeometry {
        black_batch: 1,
        black_in_channels: 4,
        black_h: 3,
        black_w: 3,
        black_out_channels: 2,
        black_groups: 2,
        black_kh: 2,
        black_kw: 2,
        black_stride_h: 1,
        black_stride_w: 1,
        black_pad_h: 1,
        black_pad_w: 0,
        black_dilation_h: 1,
        black_dilation_w: 1,
    };
    assert!(black_group_check(&black_g));
    // group 1, its only output channel, output row 0, column 1
    let black_taps = black_group_taps(&black_g, 0, 1, 0, 0, 1);
    assert_eq!(black_taps.len(), 2 * 2 * 2);
    // channel 2 of the input (first of group 1), kernel row 0 lies in the padding
    assert_eq!(black_taps[0], None);
    assert_eq!(black_taps[1], None);
    // kernel row 1, column 0: input row 0, column 1 of channel 2; weight [1, 0, 1, 0]
    assert_eq!(black_taps[2], Some((2 * 9 + 0 * 3 + 1, 1 * 8 + 0 * 4 + 1 * 2 + 0)));
    assert_eq!(black_taps[7], Some((3 * 9 + 0 * 3 + 2, 1 * 8 + 1 * 4 + 1 * 2 + 1)));
    let black_bad = BlackGroupGeometry { black_groups: 0, ..black_g };
    assert!(!black_group_check(&black_bad));
}

#[test]
fn black_causal_mask_hides_upper_triangle() {
    let black_m = black_causal_mask(2, 2, 3, 12);
    assert_eq!(
        black_m,
        vec![false, true, true, false, false, true, false, true, true, false, false, true]
    );
    assert_eq!(black_causal_mask(1, 2, 2, 6), vec![false, true, false, false, false, false]);
    assert_eq!(black_causal_mask(0, 2, 2, 3), vec![false, false, false]);
}

#[test]
fn black_3d_taps_small() {
    let black_g = Black3dGeometry {
        black_batch: 1,
        black_in_channels: 1,
        black_d: 2,
        black_h: 2,
        black_w: 2,
        black_out_channels: 1,
        black_kd: 1,
        black_kh: 2,
        black_kw: 1,
        black_stride: [1, 1, 1],
        black_pad: [0, 1, 0],
        black_dilation: [1, 1, 1],
    };
    assert!(black_3d_check(&black_g));
    // output (0, 0, 1): taps kh = 0 (padding), kh = 1 (input row 0)
    let black_taps = black_3d_taps(&black_g, 0, 0, 0, 0, 1);
    assert_eq!(black_taps, vec![None, Some((1, 1))]);
    let black_taps = black_3d_taps(&black_g, 0, 0, 1, 1, 0);
    assert_eq!(black_taps, vec![Some((4, 0)), Some((6, 1))]);
}

#[test]
fn black_tr_taps_small() {
    let black_g = BlackTransposeGeometry {
        black_batch: 1,
        black_in_channels: 1,
        black_ih: 2,
        black_iw: 1,
        black_out_channels: 2,
        black_kh: 2,
        black_kw: 1,
        black_stride_h: 2,
        black_stride_w: 1,
        black_pad_h: 0,
        black_pad_w: 0,
        black_output_pad_h: 0,
        black_output_pad_w: 0,
    };
    assert!(black_tr_check(&black_g));
    // output is [1, 2, 4, 1]; input row 1 lands on output rows 2 and 3
    let black_taps = black_tr_taps(&black_g, 0, 0, 1, 0);
    assert_eq!(black_taps, vec![Some((2, 0)), Some((3, 1)), Some((6, 2)), Some((7, 3))]);
}
