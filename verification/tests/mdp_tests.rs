use stok_core::mdp::task_mdp::{check_sublimated_shapes, check_task_shapes, chain_next_state, flat_index3};
use stok_core::types::{MDPDimensions, StokError};

#[test]
fn task_shapes_accepted() {
    let d = check_task_shapes([10, 3, 10], [10, 3], [10, 3], 20).unwrap();
    assert_eq!(d, MDPDimensions::new(10, 3, 20));
}

#[test]
fn task_shapes_errors_in_order() {
    match check_task_shapes([10, 3, 9], [10, 2], [10, 3], 20) {
        Err(StokError::DimensionMismatch { expected, got }) => {
            assert_eq!(expected, vec![10, 3, 10]);
            assert_eq!(got, vec![10, 3, 9]);
        }
        _ => panic!("expected a mismatch"),
    }
    match check_task_shapes([10, 3, 10], [10, 2], [9, 3], 20) {
        Err(StokError::DimensionMismatch { expected, got }) => {
            assert_eq!(expected, vec![10, 3]);
            assert_eq!(got, vec![10, 2]);
        }
        _ => panic!("expected a mismatch"),
    }
    match check_task_shapes([10, 3, 10], [10, 3], [9, 3], 20) {
        Err(StokError::DimensionMismatch { got, .. }) => assert_eq!(got, vec![9, 3]),
        _ => panic!("expected a mismatch"),
    }
    match check_task_shapes([10, 3, 10], [10, 3], [10, 3], 0) {
        Err(StokError::InvalidDimension { name, .. }) => assert_eq!(name, "max_time"),
        _ => panic!("expected an invalid dimension"),
    }
}

#[test]
fn sublimated_shapes() {
    assert_eq!(check_sublimated_shapes([8, 2, 8], [8, 2], [8, 2]).unwrap(), (8, 2));
    assert!(check_sublimated_shapes([8, 2, 7], [8, 2], [8, 2]).is_err());
    assert!(check_sublimated_shapes([8, 2, 8], [8, 3], [8, 2]).is_err());
}

#[test]
fn chain_dynamics() {
    assert_eq!(chain_next_state(0, 0, 5), 0);
    assert_eq!(chain_next_state(3, 0, 5), 2);
    assert_eq!(chain_next_state(3, 1, 5), 4);
    assert_eq!(chain_next_state(4, 1, 5), 4);
    assert_eq!(chain_next_state(2, 2, 5), 2);
    assert_eq!(chain_next_state(0, 1, 1), 0);
}

#[test]
fn row_major_positions() {
    // [S=4, A=3, S=4]: entry [2, 1, 3] sits at (2*3 + 1)*4 + 3.
    assert_eq!(flat_index3(2, 1, 3, 4, 3, 4), 31);
    assert_eq!(flat_index3(3, 2, 3, 4, 3, 4), 47);
}
