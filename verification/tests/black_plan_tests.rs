use black_ferox::black_error::BlackError;
use black_ferox::black_memory::{BlackArenaCursor, BlackBucketPolicy};
use black_ferox::black_ops::black_conv::{
    black_conv_out_len, black_conv_tap, black_conv_transpose_out_len,
};
use black_ferox::black_ops::black_matmul::black_matmul_layout;
use black_ferox::black_ops::black_reduce::black_reduce_layout;
use black_ferox::black_train::{
    black_train_step_plan, BlackPlateauCounter, BlackScaleAction, BlackScalerCounter,
};

#[test]
fn black_reduce_layout_middle_axis() {
    let l = black_reduce_layout(&[2, 3, 4], 1, false).unwrap();
    assert_eq!(l.black_out_dims, vec![2, 4]);
    assert_eq!((l.black_outer, l.black_dim_size, l.black_inner), (2, 3, 4));
    assert_eq!(l.black_source_index(1, 2, 3), 12 + 8 + 3);
    assert_eq!(l.black_target_index(1, 3), 7);
    let k = black_reduce_layout(&[2, 3, 4], 1, true).unwrap();
    assert_eq!(k.black_out_dims, vec![2, 1, 4]);
}

#[test]
fn black_reduce_layout_edges() {
    let l = black_reduce_layout(&[5], 0, false).unwrap();
    assert_eq!(l.black_out_dims, vec![1]);
    assert_eq!((l.black_outer, l.black_inner), (1, 1));
    assert!(black_reduce_layout(&[5], 1, false).is_none());
}

#[test]
fn black_matmul_layout_shapes() {
    let l = black_matmul_layout(&[2, 3, 4], &[4, 5]).unwrap();
    assert_eq!(l.black_out_dims, vec![2, 3, 5]);
    assert_eq!((l.black_m, l.black_k, l.black_n), (3, 4, 5));
    assert_eq!((l.black_batch_a, l.black_batch_b, l.black_batch), (2, 1, 2));
    assert_eq!(l.black_batch_offsets(1), (12, 0, 15));
    assert!(matches!(black_matmul_layout(&[3], &[3, 2]), Err(BlackError::BlackShapeError { .. })));
    assert!(matches!(black_matmul_layout(&[2, 3], &[4, 2]), Err(BlackError::BlackShapeError { .. })));
    assert!(matches!(
        black_matmul_layout(&[2, 2, 3], &[3, 3, 2]),
        Err(BlackError::BlackShapeError { .. })
    ));
}

#[test]
fn black_conv_lengths_and_taps() {
    assert_eq!(black_conv_out_len(5, 3, 1, 0, 1), 3);
    assert_eq!(black_conv_out_len(5, 3, 1, 1, 1), 5);
    assert_eq!(black_conv_out_len(7, 3, 2, 1, 2), 3);
    assert_eq!(black_conv_tap(0, 0, 1, 1, 1, 5), None);
    assert_eq!(black_conv_tap(0, 1, 1, 1, 1, 5), Some(0));
    assert_eq!(black_conv_tap(4, 2, 1, 1, 1, 5), None);
    assert_eq!(black_conv_transpose_out_len(3, 3, 2, 1, 1), 6);
}

#[test]
fn black_bucket_sizes() {
    let p = BlackBucketPolicy::black_new();
    assert_eq!(p.black_bucket_size(1), 64);
    assert_eq!(p.black_bucket_size(64), 64);
    assert_eq!(p.black_bucket_size(65), 128);
    assert_eq!(p.black_bucket_size(1000), 1024);
    assert_eq!(p.black_bucket_size(usize::MAX / 4), 2 * 1024 * 1024 * 1024);
}

#[test]
fn black_arena_bumps_and_resets() {
    let mut a = BlackArenaCursor::black_new(100);
    assert_eq!(a.black_alloc(10, 1).unwrap(), 0);
    assert_eq!(a.black_alloc(8, 16).unwrap(), 16);
    assert_eq!(a.black_used(), 24);
    assert!(matches!(a.black_alloc(80, 8), Err(BlackError::BlackMemoryError { .. })));
    assert_eq!(a.black_used(), 24);
    a.black_reset();
    assert_eq!(a.black_used(), 0);
    assert_eq!(a.black_capacity(), 100);
}

#[test]
fn black_plateau_counting() {
    let mut c = BlackPlateauCounter::black_new(2);
    assert!(!c.black_record(false));
    assert!(!c.black_record(false));
    assert!(c.black_record(false));
    assert_eq!(c.black_num_bad_epochs(), 0);
    assert!(!c.black_record(false));
    assert!(!c.black_record(true));
    assert_eq!(c.black_num_bad_epochs(), 0);
}

#[test]
fn black_scaler_counting() {
    let mut c = BlackScalerCounter::black_new();
    c.black_growth_interval = 2;
    assert_eq!(c.black_record(true), BlackScaleAction::BlackKeep);
    assert_eq!(c.black_record(true), BlackScaleAction::BlackGrow);
    assert_eq!(c.black_consecutive_clean, 0);
    assert_eq!(c.black_record(true), BlackScaleAction::BlackKeep);
    assert_eq!(c.black_record(false), BlackScaleAction::BlackBackoff);
    assert_eq!(c.black_consecutive_clean, 0);
    assert_eq!(c.black_step_count, 4);
}

#[test]
fn black_train_plan_cycles_samples() {
    assert_eq!(black_train_step_plan(0, 2, 3), (0, false));
    assert_eq!(black_train_step_plan(1, 2, 3), (1, true));
    assert_eq!(black_train_step_plan(4, 2, 3), (1, false));
    assert_eq!(black_train_step_plan(5, 1, 3), (2, true));
}
