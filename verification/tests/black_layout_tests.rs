use black_ferox::black_error::BlackError;
use black_ferox::black_shape::BlackShape;
use black_ferox::black_strides::BlackStrides;

#[test]
fn black_shape_new_and_dims() {
    let s = BlackShape::black_new(&[2, 3, 4]);
    assert_eq!(s.black_dims(), &[2, 3, 4]);
    assert_eq!(s.black_ndim(), 3);
    assert_eq!(s.black_numel(), 24);
    assert_eq!(s.black_dim(1).unwrap(), 3);
    assert!(matches!(s.black_dim(3), Err(BlackError::BlackIndexError { .. })));
}

#[test]
fn black_shape_scalar_has_one_element() {
    let s = BlackShape::black_scalar();
    assert_eq!(s.black_ndim(), 0);
    assert_eq!(s.black_numel(), 1);
    assert!(s.black_dims().is_empty());
}

#[test]
fn black_shape_beyond_inline_rank() {
    let dims = [1usize, 2, 1, 2, 1, 2, 1, 2, 3, 1];
    let s = BlackShape::black_new(&dims);
    assert_eq!(s.black_dims(), &dims);
    assert_eq!(s.black_ndim(), 10);
    assert_eq!(s.black_numel(), 48);
    let c = s.clone();
    assert!(c == s);
}

#[test]
fn black_shape_zero_extent() {
    let s = BlackShape::black_new(&[3, 0, 5]);
    assert_eq!(s.black_numel(), 0);
}

#[test]
fn black_shape_equality_by_extents() {
    assert!(BlackShape::black_new(&[2, 3]) == BlackShape::black_new(&[2, 3]));
    assert!(BlackShape::black_new(&[2, 3]) != BlackShape::black_new(&[3, 2]));
    assert!(BlackShape::black_new(&[2, 3]) != BlackShape::black_new(&[2, 3, 1]));
}

#[test]
fn black_broadcast_expands_ones() {
    let a = BlackShape::black_new(&[3, 1]);
    let b = BlackShape::black_new(&[1, 4]);
    let r = a.black_broadcast_with(&b).unwrap();
    assert_eq!(r.black_dims(), &[3, 4]);
}

#[test]
fn black_broadcast_aligns_right() {
    let a = BlackShape::black_new(&[2, 3]);
    let b = BlackShape::black_new(&[3]);
    assert_eq!(a.black_broadcast_with(&b).unwrap().black_dims(), &[2, 3]);
    assert_eq!(b.black_broadcast_with(&a).unwrap().black_dims(), &[2, 3]);
}

#[test]
fn black_broadcast_with_scalar_is_identity() {
    let a = BlackShape::black_new(&[5, 1, 7]);
    let s = BlackShape::black_scalar();
    assert_eq!(a.black_broadcast_with(&s).unwrap().black_dims(), &[5, 1, 7]);
}

#[test]
fn black_broadcast_rejects_mismatch() {
    let a = BlackShape::black_new(&[2, 3]);
    let b = BlackShape::black_new(&[4]);
    assert!(matches!(a.black_broadcast_with(&b), Err(BlackError::BlackShapeError { .. })));
}

#[test]
fn black_broadcast_zero_extent() {
    let a = BlackShape::black_new(&[0, 3]);
    let b = BlackShape::black_new(&[1, 3]);
    assert_eq!(a.black_broadcast_with(&b).unwrap().black_dims(), &[0, 3]);
}

#[test]
fn black_strides_row_major() {
    let s = BlackShape::black_new(&[2, 3, 4]);
    let st = BlackStrides::black_from_shape(&s);
    assert_eq!(st.black_as_slice(), &[12, 4, 1]);
    assert_eq!(st.black_ndim(), 3);
    assert!(st.black_is_contiguous(&s));
    assert_eq!(BlackStrides::black_from_shape(&BlackShape::black_scalar()).black_ndim(), 0);
}

#[test]
fn black_strides_offset() {
    let st = BlackStrides::black_new(vec![12, 4, 1]);
    assert_eq!(st.black_offset(&[1, 2, 3]), 23);
    assert_eq!(st.black_offset(&[1, 2]), 20);
    assert_eq!(st.black_offset(&[1, 2, 3, 9]), 23);
    assert_eq!(st.black_offset(&[]), 0);
}

#[test]
fn black_strides_not_contiguous_after_swap() {
    let s = BlackShape::black_new(&[2, 3]);
    let st = BlackStrides::black_new(vec![1, 2]);
    assert!(!st.black_is_contiguous(&s));
    let st2 = BlackStrides::black_new(vec![3]);
    assert!(!st2.black_is_contiguous(&s));
}
