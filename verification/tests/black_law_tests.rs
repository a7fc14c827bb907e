use black_ferox::black_buffer::BlackBuffer;
use black_ferox::black_device::BlackDevice;
use black_ferox::black_dtype::BlackDType;
use black_ferox::black_memory::{BlackArenaCursor, BlackBucketPolicy};
use black_ferox::black_ops::black_reduce::black_reduce_layout;
use black_ferox::black_shape::BlackShape;
use black_ferox::black_strides::BlackStrides;
use black_ferox::black_tensor::BlackTensor;

fn black_tensor_of(values: &[u32], dims: &[usize]) -> BlackTensor {
    let buf = BlackBuffer::black_from_vec_u32(values.to_vec()).unwrap();
    BlackTensor::black_new(buf, BlackShape::black_new(dims), BlackDType::BlackF32, BlackDevice::BlackCpu)
}

#[test]
fn black_law_broadcast_symmetric() {
    let pairs: Vec<(Vec<usize>, Vec<usize>)> = vec![
        (vec![3, 1], vec![1, 4]),
        (vec![2, 3], vec![3]),
        (vec![2, 3], vec![4]),
        (vec![], vec![5, 2]),
    ];
    for (a, b) in pairs {
        let sa = BlackShape::black_new(&a);
        let sb = BlackShape::black_new(&b);
        match (sa.black_broadcast_with(&sb), sb.black_broadcast_with(&sa)) {
            (Ok(x), Ok(y)) => assert_eq!(x.black_dims(), y.black_dims()),
            (Err(_), Err(_)) => {}
            _ => panic!("asymmetric broadcast"),
        }
    }
}

#[test]
fn black_law_row_major_offset_is_position() {
    let dims = [2usize, 3, 4];
    let st = BlackStrides::black_from_shape(&BlackShape::black_new(&dims));
    let mut j = 0usize;
    for a in 0..2 {
        for b in 0..3 {
            for c in 0..4 {
                assert_eq!(st.black_offset(&[a, b, c]), j);
                j += 1;
            }
        }
    }
}

#[test]
fn black_law_transpose_twice_restores() {
    let t = black_tensor_of(&[1, 2, 3, 4, 5, 6], &[2, 3]);
    let back = t.black_transpose(0, 1).unwrap().black_transpose(0, 1).unwrap();
    assert_eq!(back.black_shape.black_dims(), t.black_shape.black_dims());
    assert_eq!(back.black_strides.black_as_slice(), t.black_strides.black_as_slice());
    assert!(back.black_is_contiguous());
}

#[test]
fn black_law_gather_places_element_j() {
    let t = black_tensor_of(&[10, 11, 12, 13, 14, 15], &[2, 3]);
    let tt = t.black_transpose(0, 1).unwrap();
    let c = tt.black_contiguous().unwrap();
    let lanes = c.black_to_lane_vec().unwrap();
    // element (i, j) of the transpose is element (j, i) of the untransposed tensor
    for i in 0..3 {
        for j in 0..2 {
            assert_eq!(lanes[i * 2 + j], 10 + (j * 3 + i) as u32);
        }
    }
}

#[test]
fn black_law_contiguous_is_idempotent() {
    let t = black_tensor_of(&[1, 2, 3, 4], &[2, 2]).black_transpose(0, 1).unwrap();
    let c1 = t.black_contiguous().unwrap();
    let c2 = c1.black_contiguous().unwrap();
    assert_eq!(c1.black_to_lane_vec().unwrap(), c2.black_to_lane_vec().unwrap());
    assert!(std::sync::Arc::ptr_eq(&c1.black_buffer, &c2.black_buffer));
}

#[test]
fn black_law_reduce_visits_each_input_once() {
    let l = black_reduce_layout(&[2, 3, 4], 1, false).unwrap();
    let mut seen = vec![0u32; 24];
    for o in 0..l.black_outer {
        for k in 0..l.black_dim_size {
            for i in 0..l.black_inner {
                seen[l.black_source_index(o, k, i)] += 1;
            }
        }
    }
    assert!(seen.iter().all(|n| *n == 1));
}

#[test]
fn black_law_arena_blocks_disjoint() {
    let mut a = BlackArenaCursor::black_new(1000);
    let mut end = 0usize;
    for (size, align) in [(3usize, 1usize), (10, 8), (1, 64), (7, 4)] {
        let start = a.black_alloc(size, align).unwrap();
        assert!(start >= end);
        assert_eq!(start % align, 0);
        end = start + size;
        assert_eq!(a.black_used(), end);
    }
}

#[test]
fn black_law_bucket_holds_request() {
    let p = BlackBucketPolicy::black_new();
    for size in [1usize, 63, 64, 65, 4095, 4096, 1 << 20, (1 << 20) + 1] {
        let b = p.black_bucket_size(size);
        assert!(b >= size);
        assert!(b.is_power_of_two());
        assert!(b == 64 || b / 2 < size);
    }
}
