use black_ferox::black_buffer::BlackBuffer;
use black_ferox::black_device::BlackDevice;
use black_ferox::black_dtype::BlackDType;
use black_ferox::black_error::BlackError;
use black_ferox::black_shape::BlackShape;
use black_ferox::black_strides::BlackStrides;
use black_ferox::black_tensor::BlackTensor;

fn black_tensor_of(values: &[f32], dims: &[usize]) -> BlackTensor {
    let words: Vec<u32> = values.iter().map(|v| v.to_bits()).collect();
    let buf = BlackBuffer::black_from_vec_u32(words).unwrap();
    BlackTensor::black_new(buf, BlackShape::black_new(dims), BlackDType::BlackF32, BlackDevice::BlackCpu)
}

fn black_values(t: &BlackTensor) -> Vec<f32> {
    t.black_to_lane_vec().unwrap().into_iter().map(f32::from_bits).collect()
}

#[test]
fn black_new_is_row_major() {
    let t = black_tensor_of(&[1.0, 2.0, 3.0, 4.0, 5.0, 6.0], &[2, 3]);
    assert_eq!(t.black_strides.black_as_slice(), &[3, 1]);
    assert_eq!(t.black_offset, 0);
    assert_eq!(t.black_numel(), 6);
    assert_eq!(t.black_ndim(), 2);
    assert!(t.black_is_contiguous());
}

#[test]
fn black_zeros_bytes() {
    let t = BlackTensor::black_zeros(&[2, 3], BlackDType::BlackF64).unwrap();
    assert_eq!(t.black_buffer.black_len(), 48);
    assert!(t.black_buffer.black_as_slice().iter().all(|b| *b == 0));
    assert_eq!(t.black_dtype, BlackDType::BlackF64);
    assert_eq!(t.black_device, BlackDevice::BlackCpu);
}

#[test]
fn black_ones_per_dtype() {
    let t = BlackTensor::black_ones(&[3], BlackDType::BlackF32).unwrap();
    assert_eq!(black_values(&t), vec![1.0, 1.0, 1.0]);
    let t = BlackTensor::black_ones(&[2], BlackDType::BlackF64).unwrap();
    assert_eq!(t.black_buffer.black_as_slice(), &[1.0f64.to_ne_bytes(), 1.0f64.to_ne_bytes()].concat()[..]);
    let t = BlackTensor::black_ones(&[2], BlackDType::BlackI32).unwrap();
    assert_eq!(t.black_buffer.black_as_slice(), &[1i32.to_ne_bytes(), 1i32.to_ne_bytes()].concat()[..]);
    let t = BlackTensor::black_ones(&[2], BlackDType::BlackI16).unwrap();
    assert_eq!(t.black_buffer.black_as_slice(), &[1, 1, 1, 1]);
    let t = BlackTensor::black_ones(&[], BlackDType::BlackF32).unwrap();
    assert_eq!(black_values(&t), vec![1.0]);
}

#[test]
fn black_transpose_swaps_axes() {
    let t = black_tensor_of(&[1.0, 2.0, 3.0, 4.0, 5.0, 6.0], &[2, 3]);
    let tt = t.black_transpose(0, 1).unwrap();
    assert_eq!(tt.black_shape.black_dims(), &[3, 2]);
    assert_eq!(tt.black_strides.black_as_slice(), &[1, 3]);
    assert!(!tt.black_is_contiguous());
    assert!(matches!(t.black_transpose(0, 2), Err(BlackError::BlackIndexError { .. })));
}

#[test]
fn black_t_needs_two_axes() {
    let v = black_tensor_of(&[1.0, 2.0], &[2]);
    assert!(matches!(v.black_t(), Err(BlackError::BlackShapeError { .. })));
    let m = black_tensor_of(&[0.0; 24], &[2, 3, 4]);
    assert_eq!(m.black_t().unwrap().black_shape.black_dims(), &[2, 4, 3]);
}

#[test]
fn black_contiguous_gathers_transpose() {
    let t = black_tensor_of(&[1.0, 2.0, 3.0, 4.0, 5.0, 6.0], &[2, 3]);
    let tt = t.black_transpose(0, 1).unwrap();
    let c = tt.black_contiguous().unwrap();
    assert!(c.black_is_contiguous());
    assert_eq!(c.black_shape.black_dims(), &[3, 2]);
    assert_eq!(black_values(&c), vec![1.0, 4.0, 2.0, 5.0, 3.0, 6.0]);
    assert_eq!(black_values(&tt), vec![1.0, 4.0, 2.0, 5.0, 3.0, 6.0]);
}

#[test]
fn black_contiguous_of_contiguous_shares() {
    let t = black_tensor_of(&[1.0, 2.0], &[2]);
    let c = t.black_contiguous().unwrap();
    assert!(std::sync::Arc::ptr_eq(&t.black_buffer, &c.black_buffer));
}

#[test]
fn black_permute_reorders() {
    let vals: Vec<f32> = (0..24).map(|v| v as f32).collect();
    let t = black_tensor_of(&vals, &[2, 3, 4]);
    let p = t.black_permute(&[2, 0, 1]).unwrap();
    assert_eq!(p.black_shape.black_dims(), &[4, 2, 3]);
    assert_eq!(p.black_strides.black_as_slice(), &[1, 12, 4]);
    let c = p.black_contiguous().unwrap();
    let got = black_values(&c);
    assert_eq!(&got[..6], &[0.0, 4.0, 8.0, 12.0, 16.0, 20.0]);
    assert!(matches!(t.black_permute(&[0, 1]), Err(BlackError::BlackShapeError { .. })));
}

#[test]
fn black_view_and_reshape() {
    let t = black_tensor_of(&[1.0, 2.0, 3.0, 4.0, 5.0, 6.0], &[2, 3]);
    let v = t.black_view(&[3, 2]).unwrap();
    assert_eq!(v.black_strides.black_as_slice(), &[2, 1]);
    assert!(matches!(t.black_view(&[4]), Err(BlackError::BlackShapeError { .. })));
    let tt = t.black_transpose(0, 1).unwrap();
    assert!(matches!(tt.black_view(&[6]), Err(BlackError::BlackShapeError { .. })));
    let r = tt.black_reshape(&[6]).unwrap();
    assert_eq!(black_values(&r), vec![1.0, 4.0, 2.0, 5.0, 3.0, 6.0]);
    assert!(matches!(tt.black_reshape(&[5]), Err(BlackError::BlackShapeError { .. })));
}

#[test]
fn black_offset_view_reads_from_offset() {
    let mut t = black_tensor_of(&[1.0, 2.0, 3.0, 4.0], &[4]);
    t.black_shape = BlackShape::black_new(&[2]);
    t.black_strides = BlackStrides::black_new(vec![1]);
    t.black_offset = 2;
    assert_eq!(black_values(&t), vec![3.0, 4.0]);
}

#[test]
fn black_is_finite_detects_inf_and_nan() {
    let t = black_tensor_of(&[1.0, -2.0, 0.0], &[3]);
    assert!(t.black_is_finite().unwrap());
    let t = black_tensor_of(&[1.0, f32::INFINITY], &[2]);
    assert!(!t.black_is_finite().unwrap());
    let t = black_tensor_of(&[f32::NAN], &[1]);
    assert!(!t.black_is_finite().unwrap());
}

#[test]
fn black_lanes_need_single_precision() {
    let t = BlackTensor::black_zeros(&[2], BlackDType::BlackI32).unwrap();
    assert!(matches!(t.black_to_lane_vec(), Err(BlackError::BlackDTypeError { .. })));
    assert!(matches!(t.black_is_finite(), Err(BlackError::BlackDTypeError { .. })));
}

#[test]
fn black_contiguous_on_accelerator_fails() {
    let t = black_tensor_of(&[1.0, 2.0, 3.0, 4.0], &[2, 2]);
    let mut tt = t.black_transpose(0, 1).unwrap();
    tt.black_device = BlackDevice::BlackCuda(0);
    assert!(matches!(tt.black_contiguous(), Err(BlackError::BlackDeviceError { .. })));
}

#[test]
fn black_contiguous_check_on_library_tensors() {
    let black_t = black_ferox::black_tensor::BlackTensor::black_zeros(&[2, 3], black_ferox::black_dtype::BlackDType::BlackF32).unwrap();
    assert!(black_t.black_contiguous_check());
    let black_tt = black_t.black_transpose(0, 1).unwrap();
    assert!(black_tt.black_contiguous_check());
    assert!(black_tt.black_gather_check());
}
