use stok_core::hierarchy::modes::{
    check_mode_kernel_shapes, KeyDoorMode, ModeFunction, MultiBitMode, NoMode, MODE_CLOSED, MODE_OPEN,
};
use stok_core::hierarchy::product_space::HLState;
use stok_core::types::StokError;

#[test]
fn test_no_mode() {
    let no_mode = NoMode;
    let hl_states = vec![HLState::Discrete(5)];
    assert_eq!(no_mode.mode(&hl_states), 0);
    assert_eq!(no_mode.n_modes(), 1);
}

#[test]
fn test_key_door_mode_closed() {
    let door_mode = KeyDoorMode::new(0, 2);
    let hl_states = vec![HLState::BinaryVector(vec![true, false, false])];
    assert_eq!(door_mode.mode(&hl_states), MODE_CLOSED);
}

#[test]
fn test_key_door_mode_open() {
    let door_mode = KeyDoorMode::new(0, 2);
    let hl_states = vec![HLState::BinaryVector(vec![true, false, true])];
    assert_eq!(door_mode.mode(&hl_states), MODE_OPEN);
}

#[test]
fn test_key_door_mode_names() {
    let door_mode = KeyDoorMode::new(0, 0);

    assert_eq!(door_mode.mode_name(MODE_CLOSED), "DoorClosed");
    assert_eq!(door_mode.mode_name(MODE_OPEN), "DoorOpen");
    assert_eq!(door_mode.n_modes(), 2);
}

#[test]
fn test_multi_bit_mode_single_bit() {
    let mode_fn = MultiBitMode::new(0, vec![1]);

    let closed = vec![HLState::BinaryVector(vec![false, false])];
    assert_eq!(mode_fn.mode(&closed), 0);

    let open = vec![HLState::BinaryVector(vec![false, true])];
    assert_eq!(mode_fn.mode(&open), 1);

    assert_eq!(mode_fn.n_modes(), 2);
}

#[test]
fn test_multi_bit_mode_two_bits() {
    let mode_fn = MultiBitMode::new(0, vec![2, 3]);

    let mode_00 = vec![HLState::BinaryVector(vec![false, false, false, false])];
    assert_eq!(mode_fn.mode(&mode_00), 0b00);

    let mode_01 = vec![HLState::BinaryVector(vec![false, false, true, false])];
    assert_eq!(mode_fn.mode(&mode_01), 0b01);

    let mode_10 = vec![HLState::BinaryVector(vec![false, false, false, true])];
    assert_eq!(mode_fn.mode(&mode_10), 0b10);

    let mode_11 = vec![HLState::BinaryVector(vec![false, false, true, true])];
    assert_eq!(mode_fn.mode(&mode_11), 0b11);

    assert_eq!(mode_fn.n_modes(), 4);
}

#[test]
fn test_mode_function_with_multiple_hl_spaces() {
    let door_mode = KeyDoorMode::new(1, 0);

    let hl_states = vec![
        HLState::Discrete(5),
        HLState::BinaryVector(vec![true, false]),
        HLState::Continuous { index: 3, value_bits: 0.7f32.to_bits() },
    ];

    assert_eq!(door_mode.mode(&hl_states), MODE_OPEN);
}

#[test]
fn mode_names_of_other_modes() {
    assert_eq!(KeyDoorMode::new(0, 0).mode_name(7), "UnknownMode(7)");
    assert_eq!(NoMode.mode_name(3), "NoMode");
    assert_eq!(MultiBitMode::new(0, vec![0, 1]).mode_name(3), "Mode 3");
}

#[test]
fn multi_bit_mode_without_bits_has_one_mode() {
    let mode_fn = MultiBitMode::new(0, vec![]);
    assert_eq!(mode_fn.n_modes(), 1);
    assert_eq!(mode_fn.mode(&[HLState::BinaryVector(vec![true])]), 0);
}

#[test]
fn multi_bit_mode_reads_bits_in_given_order() {
    // Bit 3 is the least significant, bit 0 the most significant.
    let mode_fn = MultiBitMode::new(1, vec![3, 0]);
    let hl = vec![
        HLState::Discrete(0),
        HLState::BinaryVector(vec![true, false, false, false]),
    ];
    assert_eq!(mode_fn.mode(&hl), 2);
}

#[test]
fn mode_kernel_shapes_accepted() {
    let r = check_mode_kernel_shapes(2, &vec![[3, 2, 3], [3, 2, 3]], [3, 2], [3, 2]);
    assert_eq!(r.unwrap(), (3, 2));
}

#[test]
fn mode_kernel_shapes_wrong_number_of_modes() {
    match check_mode_kernel_shapes(2, &vec![[3, 2, 3]], [3, 2], [3, 2]) {
        Err(StokError::DimensionMismatch { expected, got }) => {
            assert_eq!(expected, vec![2]);
            assert_eq!(got, vec![1]);
        }
        _ => panic!("expected a mismatch"),
    }
}

#[test]
fn mode_kernel_shapes_no_kernels() {
    match check_mode_kernel_shapes(0, &vec![], [3, 2], [3, 2]) {
        Err(StokError::DimensionMismatch { expected, got }) => {
            assert_eq!(expected, vec![1]);
            assert_eq!(got, vec![0]);
        }
        _ => panic!("expected a mismatch"),
    }
}

#[test]
fn mode_kernel_shapes_inconsistent_kernels() {
    match check_mode_kernel_shapes(3, &vec![[3, 2, 3], [3, 2, 3], [4, 2, 4]], [3, 2], [3, 2]) {
        Err(StokError::DimensionMismatch { expected, got }) => {
            assert_eq!(expected, vec![3, 2, 3]);
            assert_eq!(got, vec![4, 2, 4]);
        }
        _ => panic!("expected a mismatch"),
    }
}

#[test]
fn mode_kernel_shapes_not_square() {
    match check_mode_kernel_shapes(1, &vec![[3, 2, 4]], [3, 2], [3, 2]) {
        Err(StokError::DimensionMismatch { expected, got }) => {
            assert_eq!(expected, vec![3, 2, 3]);
            assert_eq!(got, vec![3, 2, 4]);
        }
        _ => panic!("expected a mismatch"),
    }
}

#[test]
fn mode_kernel_shapes_bad_goal_then_constraint() {
    match check_mode_kernel_shapes(1, &vec![[3, 2, 3]], [3, 1], [2, 2]) {
        Err(StokError::DimensionMismatch { expected, got }) => {
            assert_eq!(expected, vec![3, 2]);
            assert_eq!(got, vec![3, 1]);
        }
        _ => panic!("expected a mismatch"),
    }
    match check_mode_kernel_shapes(1, &vec![[3, 2, 3]], [3, 2], [2, 2]) {
        Err(StokError::DimensionMismatch { expected, got }) => {
            assert_eq!(expected, vec![3, 2]);
            assert_eq!(got, vec![2, 2]);
        }
        _ => panic!("expected a mismatch"),
    }
}

#[test]
fn mode_domains() {
    let key = KeyDoorMode::new(1, 2);
    let good = vec![HLState::Discrete(0), HLState::BinaryVector(vec![false, false, true])];
    assert!(key.accepts_states(&good));
    assert_eq!(key.mode(&good), MODE_OPEN);
    assert!(!key.accepts_states(&[HLState::Discrete(0)]));
    assert!(!key.accepts_states(&[HLState::Discrete(0), HLState::Discrete(3)]));
    assert!(!key.accepts_states(&[HLState::Discrete(0), HLState::BinaryVector(vec![true, true])]));

    let multi = MultiBitMode::new(0, vec![0, 3]);
    assert!(multi.accepts_states(&[HLState::BinaryVector(vec![true, false, false, true])]));
    assert!(!multi.accepts_states(&[HLState::BinaryVector(vec![true, false, false])]));
    assert!(NoMode.accepts_states(&[]));
}
