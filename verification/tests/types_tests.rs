use stok_core::types::{
    ActionIdx, GoalId, MDPDimensions, STOKDimensions, StateIdx, StokError, TimeIdx,
};

#[test]
fn test_state_idx_conversion() {
    let idx = StateIdx::from(42);
    assert_eq!(usize::from(idx), 42);
}

#[test]
fn test_state_idx_display() {
    let idx = StateIdx(7);
    assert_eq!(idx.to_string(), "S7");
}

#[test]
fn test_state_idx_ordering() {
    let s1 = StateIdx(5);
    let s2 = StateIdx(10);
    assert!(s1 < s2);
}

#[test]
fn test_action_idx_conversion() {
    let idx = ActionIdx::from(3);
    assert_eq!(usize::from(idx), 3);
}

#[test]
fn test_action_idx_display() {
    let idx = ActionIdx(2);
    assert_eq!(idx.to_string(), "A2");
}

#[test]
fn test_time_idx_saturating_sub() {
    let t = TimeIdx(5);
    assert_eq!(t.saturating_sub(3), TimeIdx(2));
    assert_eq!(t.saturating_sub(10), TimeIdx(0));
}

#[test]
fn test_time_idx_checked_add() {
    let t = TimeIdx(5);
    assert_eq!(t.checked_add(3), Some(TimeIdx(8)));
    assert_eq!(TimeIdx(usize::MAX).checked_add(1), None);
}

#[test]
fn test_time_idx_display() {
    let t = TimeIdx(10);
    assert_eq!(t.to_string(), "t=10");
}

#[test]
fn test_goal_id_display() {
    let g = GoalId::new(7);
    assert_eq!(g.to_string(), "Goal(7)");
}

#[test]
fn test_goal_id_as_u32() {
    let g = GoalId::new(42);
    assert_eq!(g.as_u32(), 42);
}

#[test]
fn test_dimensions_validation_valid() {
    let valid = MDPDimensions::new(10, 4, 20);
    assert!(valid.validate().is_ok());
}

#[test]
fn test_dimensions_validation_zero_states() {
    let invalid = MDPDimensions::new(0, 4, 20);
    let err = invalid.validate().unwrap_err();
    match err {
        StokError::InvalidDimension { name, .. } => {
            assert_eq!(name, "n_states");
        }
        _ => panic!("Expected InvalidDimension error"),
    }
}

#[test]
fn test_dimensions_validation_zero_actions() {
    let invalid = MDPDimensions::new(10, 0, 20);
    let err = invalid.validate().unwrap_err();
    match err {
        StokError::InvalidDimension { name, .. } => {
            assert_eq!(name, "n_actions");
        }
        _ => panic!("Expected InvalidDimension error"),
    }
}

#[test]
fn test_dimensions_validation_zero_time() {
    let invalid = MDPDimensions::new(10, 4, 0);
    let err = invalid.validate().unwrap_err();
    match err {
        StokError::InvalidDimension { name, .. } => {
            assert_eq!(name, "max_time");
        }
        _ => panic!("Expected InvalidDimension error"),
    }
}

#[test]
fn test_dimensions_sizes() {
    let dims = MDPDimensions::new(10, 4, 20);
    assert_eq!(dims.state_time_size(), 200);
    assert_eq!(dims.transition_size(), 400);
    assert_eq!(dims.stok_size(), 2000);
}

#[test]
fn test_stok_dimensions_new() {
    let dims = STOKDimensions::new(10, 5);
    assert_eq!(dims.n_states, 10);
    assert_eq!(dims.max_time, 5);
}

#[test]
fn test_stok_dimensions_validate_valid() {
    let dims = STOKDimensions::new(10, 5);
    assert!(dims.validate().is_ok());
}

#[test]
fn test_stok_dimensions_validate_zero_states() {
    let dims = STOKDimensions::new(0, 5);
    assert!(dims.validate().is_err());
}

#[test]
fn test_stok_dimensions_validate_zero_time() {
    let dims = STOKDimensions::new(10, 0);
    assert!(dims.validate().is_err());
}

#[test]
fn test_stok_dimensions_from_mdp() {
    let mdp_dims = MDPDimensions::new(10, 3, 5);
    let stok_dims = STOKDimensions::from_mdp(&mdp_dims);
    assert_eq!(stok_dims.n_states, 10);
    assert_eq!(stok_dims.max_time, 5);
}

#[test]
fn test_stok_dimensions_sizes() {
    let dims = STOKDimensions::new(4, 3);
    assert_eq!(dims.stok_size(), 4 * 4 * 3);
    assert_eq!(dims.state_time_size(), 4 * 3);
}

#[test]
fn zero_dimension_error_carries_reason_and_value() {
    let err = STOKDimensions::new(0, 0).validate().unwrap_err();
    match err {
        StokError::InvalidDimension { name, value, reason } => {
            assert_eq!(name, "n_states");
            assert_eq!(value, 0);
            assert_eq!(reason, "must be > 0");
        }
        _ => panic!("Expected InvalidDimension error"),
    }
    let err = STOKDimensions::new(3, 0).validate().unwrap_err();
    match err {
        StokError::InvalidDimension { name, .. } => assert_eq!(name, "max_time"),
        _ => panic!("Expected InvalidDimension error"),
    }
}

#[test]
fn decimal_names_of_large_and_zero_indices() {
    assert_eq!(StateIdx(0).to_string(), "S0");
    assert_eq!(ActionIdx(1203).to_string(), "A1203");
    assert_eq!(TimeIdx(usize::MAX).to_string(), format!("t={}", usize::MAX));
    assert_eq!(GoalId::new(u32::MAX).to_string(), format!("Goal({})", u32::MAX));
}

#[test]
fn index_conversions_round_trip() {
    for v in [0usize, 1, 17, usize::MAX] {
        assert_eq!(usize::from(StateIdx::from(v)), v);
        assert_eq!(usize::from(ActionIdx::from(v)), v);
        assert_eq!(usize::from(TimeIdx::from(v)), v);
    }
    assert_eq!(GoalId::from(9u32), GoalId(9));
}

#[test]
fn time_idx_saturating_sub_at_zero_and_checked_add_at_limit() {
    assert_eq!(TimeIdx(0).saturating_sub(0), TimeIdx(0));
    assert_eq!(TimeIdx(3).saturating_sub(3), TimeIdx(0));
    assert_eq!(TimeIdx(usize::MAX - 1).checked_add(1), Some(TimeIdx(usize::MAX)));
}
