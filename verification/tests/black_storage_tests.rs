use black_ferox::black_buffer::BlackBuffer;
use black_ferox::black_device::BlackDevice;
use black_ferox::black_dtype::BlackDType;
use black_ferox::black_error::BlackError;

#[test]
fn black_device_queries() {
    assert!(BlackDevice::BlackCpu.black_is_cpu());
    assert!(!BlackDevice::BlackCpu.black_is_cuda());
    assert!(BlackDevice::BlackCuda(1).black_is_cuda());
    assert!(BlackDevice::BlackMetal(2).black_is_metal());
    assert_eq!(BlackDevice::BlackCpu.black_ordinal(), None);
    assert_eq!(BlackDevice::BlackCuda(3).black_ordinal(), Some(3));
    assert_eq!(BlackDevice::BlackMetal(7).black_ordinal(), Some(7));
}

#[test]
fn black_dtype_sizes_and_kinds() {
    assert_eq!(BlackDType::BlackF16.black_size_in_bytes(), 2);
    assert_eq!(BlackDType::BlackBF16.black_size_in_bytes(), 2);
    assert_eq!(BlackDType::BlackF32.black_size_in_bytes(), 4);
    assert_eq!(BlackDType::BlackF64.black_size_in_bytes(), 8);
    assert_eq!(BlackDType::BlackI8.black_size_in_bytes(), 1);
    assert_eq!(BlackDType::BlackI16.black_size_in_bytes(), 2);
    assert_eq!(BlackDType::BlackI32.black_size_in_bytes(), 4);
    assert_eq!(BlackDType::BlackI64.black_size_in_bytes(), 8);
    assert_eq!(BlackDType::BlackU8.black_size_in_bytes(), 1);
    assert_eq!(BlackDType::BlackBool.black_size_in_bytes(), 1);
    assert!(BlackDType::BlackBF16.black_is_float());
    assert!(!BlackDType::BlackI8.black_is_float());
    assert!(BlackDType::BlackU8.black_is_int());
    assert!(!BlackDType::BlackBool.black_is_int());
    assert!(!BlackDType::BlackBool.black_is_float());
}

#[test]
fn black_alloc_zeroed() {
    let b = BlackBuffer::black_alloc(10, BlackDevice::BlackCpu).unwrap();
    assert_eq!(b.black_len(), 10);
    assert_eq!(b.black_as_slice(), &[0u8; 10]);
    assert_eq!(*b.black_device(), BlackDevice::BlackCpu);
}

#[test]
fn black_alloc_empty_on_any_device() {
    let b = BlackBuffer::black_alloc(0, BlackDevice::BlackCuda(0)).unwrap();
    assert_eq!(b.black_len(), 0);
    assert_eq!(*b.black_device(), BlackDevice::BlackCuda(0));
}

#[test]
fn black_alloc_accelerators_refused() {
    assert!(matches!(
        BlackBuffer::black_alloc(16, BlackDevice::BlackCuda(0)),
        Err(BlackError::BlackDeviceError { .. })
    ));
    assert!(matches!(
        BlackBuffer::black_alloc(16, BlackDevice::BlackMetal(0)),
        Err(BlackError::BlackDeviceError { .. })
    ));
}

#[test]
fn black_alloc_invalid_layout() {
    assert!(matches!(
        BlackBuffer::black_alloc(usize::MAX, BlackDevice::BlackCpu),
        Err(BlackError::BlackMemoryError { .. })
    ));
    assert!(matches!(
        BlackBuffer::black_alloc(usize::MAX, BlackDevice::BlackCuda(0)),
        Err(BlackError::BlackMemoryError { .. })
    ));
}

#[test]
fn black_from_vec_i32_native_order() {
    let b = BlackBuffer::black_from_vec_i32(vec![1, -2, 0x01020304]).unwrap();
    assert_eq!(
        b.black_as_slice(),
        &[1i32.to_ne_bytes(), (-2i32).to_ne_bytes(), 0x01020304i32.to_ne_bytes()].concat()[..]
    );
    assert_eq!(*b.black_device(), BlackDevice::BlackCpu);
}

#[test]
fn black_from_vec_i64_native_order() {
    let b = BlackBuffer::black_from_vec_i64(vec![-1, 0x0102030405060708]).unwrap();
    assert_eq!(
        b.black_as_slice(),
        &[(-1i64).to_ne_bytes(), 0x0102030405060708i64.to_ne_bytes()].concat()[..]
    );
}

#[test]
fn black_from_vec_words() {
    let b = BlackBuffer::black_from_vec_u32(vec![0x3f80_0000]).unwrap();
    assert_eq!(b.black_as_slice(), &1.0f32.to_ne_bytes());
    let b = BlackBuffer::black_from_vec_u64(vec![2.5f64.to_bits()]).unwrap();
    assert_eq!(b.black_as_slice(), &2.5f64.to_ne_bytes());
    let e = BlackBuffer::black_from_vec_u32(vec![]).unwrap();
    assert_eq!(e.black_len(), 0);
}

#[test]
fn black_copy_from_and_zero() {
    let mut a = BlackBuffer::black_alloc(4, BlackDevice::BlackCpu).unwrap();
    let b = BlackBuffer::black_from_vec_i32(vec![0x0a0b0c0d]).unwrap();
    a.black_copy_from(&b).unwrap();
    assert_eq!(a.black_as_slice(), &[0x0d, 0x0c, 0x0b, 0x0a]);
    let c = BlackBuffer::black_alloc(8, BlackDevice::BlackCpu).unwrap();
    assert!(matches!(a.black_copy_from(&c), Err(BlackError::BlackMemoryError { .. })));
    assert_eq!(a.black_as_slice(), &[0x0d, 0x0c, 0x0b, 0x0a]);
    a.black_zero();
    assert_eq!(a.black_as_slice(), &[0, 0, 0, 0]);
}

#[test]
fn black_buffer_mut_slice_and_clone() {
    let mut a = BlackBuffer::black_alloc(3, BlackDevice::BlackCpu).unwrap();
    a.black_as_mut_slice()[1] = 9;
    let c = a.clone();
    assert_eq!(c.black_as_slice(), &[0, 9, 0]);
    assert_eq!(*c.black_device(), BlackDevice::BlackCpu);
}
