use black_ferox::black_dims::{black_infer_dims, black_known_fits, BlackDimsError};
use black_ferox::black_graph::black_topo_order;

#[test]
fn black_topo_chain_lists_output_first() {
    let black_g: Vec<Vec<usize>> = vec![vec![1, 2], vec![2], vec![]];
    assert_eq!(black_topo_order(&black_g, 0), vec![0, 1, 2]);
}

#[test]
fn black_topo_diamond_follows_finishing_order() {
    let black_g: Vec<Vec<usize>> = vec![vec![1, 2], vec![3], vec![3], vec![]];
    assert_eq!(black_topo_order(&black_g, 0), vec![0, 2, 1, 3]);
}

#[test]
fn black_topo_skips_unreached_nodes() {
    let black_g: Vec<Vec<usize>> = vec![vec![], vec![0], vec![1], vec![2]];
    assert_eq!(black_topo_order(&black_g, 2), vec![2, 1, 0]);
}

#[test]
fn black_topo_repeated_input_appears_once() {
    // A product of a value with itself lists that value twice as an input.
    let black_g: Vec<Vec<usize>> = vec![vec![1, 1], vec![]];
    assert_eq!(black_topo_order(&black_g, 0), vec![0, 1]);
}

#[test]
fn black_topo_single_leaf() {
    let black_g: Vec<Vec<usize>> = vec![vec![]];
    assert_eq!(black_topo_order(&black_g, 0), vec![0]);
}

#[test]
fn black_topo_cycle_still_ends() {
    let black_g: Vec<Vec<usize>> = vec![vec![1], vec![0]];
    assert_eq!(black_topo_order(&black_g, 0), vec![0, 1]);
}

#[test]
fn black_topo_inputs_come_after_their_users() {
    let black_g: Vec<Vec<usize>> =
        vec![vec![1, 4], vec![2, 3], vec![5], vec![5], vec![3], vec![]];
    let black_order = black_topo_order(&black_g, 0);
    assert_eq!(black_order.len(), 6);
    for (black_i, &black_node) in black_order.iter().enumerate() {
        for &black_input in &black_g[black_node] {
            let black_j = black_order.iter().position(|&x| x == black_input).unwrap();
            assert!(black_i < black_j);
        }
    }
}

#[test]
fn black_infer_plain_dims() {
    assert_eq!(black_infer_dims(&vec![2, 3, 4], 24), Ok(vec![2, 3, 4]));
}

#[test]
fn black_infer_one_extent() {
    assert_eq!(black_infer_dims(&vec![2, -1], 6), Ok(vec![2, 3]));
    assert_eq!(black_infer_dims(&vec![-1, 4, 2], 24), Ok(vec![3, 4, 2]));
}

#[test]
fn black_infer_divides_down() {
    // The inferred extent is the quotient; a mismatch is left to the reshape.
    assert_eq!(black_infer_dims(&vec![4, -1], 10), Ok(vec![4, 2]));
}

#[test]
fn black_infer_refuses_two_inferred() {
    assert_eq!(black_infer_dims(&vec![-1, 2, -1], 8), Err(BlackDimsError::BlackTwoInferred));
}

#[test]
fn black_infer_refuses_negative_extent() {
    assert_eq!(
        black_infer_dims(&vec![3, -4], 12),
        Err(BlackDimsError::BlackNegativeDim { black_dim: -4 })
    );
}

#[test]
fn black_infer_first_refusal_wins() {
    assert_eq!(
        black_infer_dims(&vec![-7, -1, -1], 4),
        Err(BlackDimsError::BlackNegativeDim { black_dim: -7 })
    );
    assert_eq!(black_infer_dims(&vec![-1, -1, -7], 4), Err(BlackDimsError::BlackTwoInferred));
}

#[test]
fn black_infer_refuses_zero_with_inference() {
    assert_eq!(black_infer_dims(&vec![0, -1], 0), Err(BlackDimsError::BlackZeroInfer));
}

#[test]
fn black_infer_zero_extent_without_inference() {
    assert_eq!(black_infer_dims(&vec![0, 5], 0), Ok(vec![0, 5]));
}

#[test]
fn black_known_fits_small_dims() {
    assert!(black_known_fits(&vec![2, -1, 3]));
    assert!(black_known_fits(&vec![]));
}

#[test]
fn black_known_fits_refuses_overflow() {
    let black_big = 1i64 << 40;
    assert!(!black_known_fits(&vec![black_big, black_big]));
}

#[test]
fn black_known_fits_stops_at_refused_extent() {
    // The product is not formed past the first refused extent.
    let black_big = 1i64 << 40;
    assert!(black_known_fits(&vec![-2, black_big, black_big]));
}

#[test]
fn black_inferred_shape_holds_every_element() {
    let black_dims = black_infer_dims(&vec![3, -1, 2], 24).unwrap();
    assert_eq!(black_dims, vec![3, 4, 2]);
    assert_eq!(black_dims.iter().product::<usize>(), 24);
}
