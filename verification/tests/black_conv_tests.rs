use black_ferox::black_ops::black_conv::black_im2col;

#[test]
fn black_im2col_no_padding() {
    // one image, one channel, 3x3 input, 2x2 kernel, stride 1
    let input: Vec<u32> = (1..=9).collect();
    let (col, oh, ow) = black_im2col(&input, 1, 1, 3, 3, 2, 2, 1, 1, 0, 0, 1, 1);
    assert_eq!((oh, ow), (2, 2));
    assert_eq!(col.len(), 4 * 4);
    // row 0 = tap (0,0): pixels at the top-left of each window
    assert_eq!(&col[0..4], &[1, 2, 4, 5]);
    // row 3 = tap (1,1)
    assert_eq!(&col[12..16], &[5, 6, 8, 9]);
}

#[test]
fn black_im2col_with_padding() {
    let input: Vec<u32> = vec![1, 2, 3, 4];
    let (col, oh, ow) = black_im2col(&input, 1, 1, 2, 2, 3, 3, 1, 1, 1, 1, 1, 1);
    assert_eq!((oh, ow), (2, 2));
    assert_eq!(col.len(), 9 * 4);
    // tap (0,0) reads the padding except at output (1,1)
    assert_eq!(&col[0..4], &[0, 0, 0, 1]);
    // centre tap (1,1) reads every pixel
    assert_eq!(&col[16..20], &[1, 2, 3, 4]);
}

#[test]
fn black_im2col_batches_and_channels() {
    let input: Vec<u32> = (0..16).collect();
    // two images, two channels, 2x2, 1x1 kernel, stride 2
    let (col, oh, ow) = black_im2col(&input, 2, 2, 2, 2, 1, 1, 2, 2, 0, 0, 1, 1);
    assert_eq!((oh, ow), (1, 1));
    assert_eq!(col, vec![0, 4, 8, 12]);
}

#[test]
fn black_im2col_dilation() {
    let input: Vec<u32> = (0..25).collect();
    let (col, oh, ow) = black_im2col(&input, 1, 1, 5, 5, 2, 2, 1, 1, 0, 0, 2, 2);
    assert_eq!((oh, ow), (3, 3));
    assert_eq!(col[0], 0);
    assert_eq!(col[9 * 3], 12);
}
