use stok_core::composition::chapman_kolmogorov::{check_same_states, check_sequence_states, composed_time_horizon};
use stok_core::types::StokError;

#[test]
fn test_composed_time_horizon() {
    assert_eq!(composed_time_horizon(5, 3), 7);
    assert_eq!(composed_time_horizon(1, 1), 1);
    assert_eq!(composed_time_horizon(10, 10), 19);
    assert_eq!(composed_time_horizon(1, 5), 5);
}

#[test]
fn composed_horizon_is_associative() {
    let (a, b, c) = (4, 7, 3);
    assert_eq!(
        composed_time_horizon(composed_time_horizon(a, b), c),
        composed_time_horizon(a, composed_time_horizon(b, c))
    );
}

#[test]
fn same_states_check() {
    assert!(check_same_states(5, 5).is_ok());
    match check_same_states(5, 4) {
        Err(StokError::DimensionMismatch { expected, got }) => {
            assert_eq!(expected, vec![5]);
            assert_eq!(got, vec![4]);
        }
        _ => panic!("expected a mismatch"),
    }
}

#[test]
fn sequence_states_check() {
    assert!(matches!(check_sequence_states(&vec![]), Err(StokError::EmptySequence)));
    assert_eq!(check_sequence_states(&vec![3]).unwrap(), 3);
    assert_eq!(check_sequence_states(&vec![3, 3, 3]).unwrap(), 3);
    match check_sequence_states(&vec![3, 3, 2, 4]) {
        Err(StokError::DimensionMismatch { expected, got }) => {
            assert_eq!(expected, vec![3]);
            assert_eq!(got, vec![2]);
        }
        _ => panic!("expected a mismatch"),
    }
}
