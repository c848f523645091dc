use stok_core::hierarchy::product_space::{
    binary_vec_to_index, index_to_binary_vec, HLState, ProductSpaceDims, ProductState,
};

#[test]
fn test_binary_vec_conversion() {
    let bits = vec![true, false, true];
    let index = binary_vec_to_index(&bits);
    assert_eq!(index, 5);

    let recovered = index_to_binary_vec(index, 3);
    assert_eq!(recovered, bits);
}

#[test]
fn test_binary_vec_all_combinations() {
    for n_bits in 1..=4 {
        let max_index = 1 << n_bits;
        for index in 0..max_index {
            let bits = index_to_binary_vec(index, n_bits);
            let recovered = binary_vec_to_index(&bits);
            assert_eq!(recovered, index);
        }
    }
}

#[test]
fn test_product_state_creation() {
    let state = ProductState::new(5);
    assert_eq!(state.base, 5);
    assert_eq!(state.n_hl_components(), 0);
}

#[test]
fn test_product_state_with_hl() {
    let state = ProductState::new(10)
        .with_hl_discrete(3)
        .with_hl_binary_vector(vec![true, false, true]);

    assert_eq!(state.base, 10);
    assert_eq!(state.n_hl_components(), 2);
    assert_eq!(state.hl_states[0].as_discrete(), 3);
    assert_eq!(state.hl_states[1].as_discrete(), 5);
}

#[test]
fn test_product_dims_creation() {
    let dims = ProductSpaceDims::new(25, vec![8, 10]);

    assert_eq!(dims.base_size, 25);
    assert_eq!(dims.n_hl_spaces(), 2);
    assert_eq!(dims.total_size, 25 * 8 * 10);
}

#[test]
fn test_product_dims_base_only() {
    let dims = ProductSpaceDims::new(100, vec![]);

    assert!(dims.is_base_only());
    assert_eq!(dims.total_size, 100);
    assert_eq!(dims.hl_product_size(), 1);
}

#[test]
fn test_flat_index_conversion_simple() {
    let dims = ProductSpaceDims::new(2, vec![3]);

    let s00 = ProductState::new(0).with_hl_discrete(0);
    assert_eq!(s00.to_flat_index(&dims), 0);

    let s10 = ProductState::new(1).with_hl_discrete(0);
    assert_eq!(s10.to_flat_index(&dims), 1);

    let s01 = ProductState::new(0).with_hl_discrete(1);
    assert_eq!(s01.to_flat_index(&dims), 2);

    let s12 = ProductState::new(1).with_hl_discrete(2);
    assert_eq!(s12.to_flat_index(&dims), 5);
}

#[test]
fn test_flat_index_conversion_round_trip() {
    let dims = ProductSpaceDims::new(5, vec![3, 4]);

    for index in 0..dims.total_size {
        let state = ProductState::from_flat_index(index, &dims);
        let recovered = state.to_flat_index(&dims);
        assert_eq!(recovered, index, "Round-trip failed for index {}", index);
    }
}

#[test]
fn test_flat_index_honey_badger_example() {
    let dims = ProductSpaceDims::new(100, vec![8, 10]);

    let state = ProductState::new(34).with_hl_discrete(5).with_hl_discrete(7);

    let flat_index = state.to_flat_index(&dims);
    assert_eq!(flat_index, 6134);

    let recovered = ProductState::from_flat_index(flat_index, &dims);
    assert_eq!(recovered.base, 34);
    assert_eq!(recovered.hl_states[0].as_discrete(), 5);
    assert_eq!(recovered.hl_states[1].as_discrete(), 7);
}

#[test]
fn test_hl_state_space_size() {
    let discrete = HLState::Discrete(5);
    assert_eq!(discrete.space_size(), 6);

    let binary = HLState::BinaryVector(vec![false, false, false]);
    assert_eq!(binary.space_size(), 8);
}

#[test]
fn binary_vector_and_continuous_components_index_the_product() {
    // 3 flags give 8 logic states; a continuous component is indexed by its bin.
    let dims = ProductSpaceDims::new(4, vec![8, 10]);
    let state = ProductState::new(3)
        .with_hl_binary_vector(vec![false, true, true])
        .with_hl_continuous(0.7f32.to_bits(), 9);
    // 3 + 4 * (6 + 8 * 9)
    assert_eq!(state.to_flat_index(&dims), 3 + 4 * (6 + 8 * 9));
    assert_eq!(state.hl_states[1], HLState::Continuous { index: 9, value_bits: 0.7f32.to_bits() });
}

#[test]
fn state_round_trip_through_flat_index() {
    let dims = ProductSpaceDims::new(3, vec![2, 5, 4]);
    let state = ProductState::new(2).with_hl_discrete(1).with_hl_discrete(4).with_hl_discrete(3);
    let idx = state.to_flat_index(&dims);
    let back = ProductState::from_flat_index(idx, &dims);
    assert_eq!(back, state);
}

#[test]
fn empty_and_full_bit_vectors() {
    assert_eq!(binary_vec_to_index(&[]), 0);
    assert_eq!(index_to_binary_vec(5, 0), Vec::<bool>::new());
    let all = vec![true; 64];
    assert_eq!(binary_vec_to_index(&all), usize::MAX);
    assert_eq!(index_to_binary_vec(usize::MAX, 64), all);
    // Only the lowest bits are kept.
    assert_eq!(index_to_binary_vec(13, 2), vec![true, false]);
}

#[test]
fn copies_with_changed_components() {
    let state = ProductState::new(1).with_hl_discrete(2).with_hl_discrete(3);
    let moved = state.with_base(7);
    assert_eq!(moved.base, 7);
    assert_eq!(moved.hl_states, state.hl_states);
    let changed = state.with_hl_component(1, HLState::BinaryVector(vec![true]));
    assert_eq!(changed.hl_states[0], HLState::Discrete(2));
    assert_eq!(changed.hl_states[1], HLState::BinaryVector(vec![true]));
    assert_eq!(changed.base, 1);
}

#[test]
fn hl_sizes_and_products() {
    let dims = ProductSpaceDims::new(2, vec![3, 4, 5]);
    assert_eq!(dims.hl_size(2), 5);
    assert_eq!(dims.hl_product_size(), 60);
    assert_eq!(dims.total_size, 120);
    assert!(!dims.is_base_only());
    assert_eq!(HLState::BinaryVector(vec![true, true]).as_binary_vec(), &[true, true]);
}

#[test]
fn product_dims_printed_form() {
    let dims = ProductSpaceDims::new(10, vec![2, 3]);
    assert_eq!(dims.to_string(), "ProductSpace(X:10, Z1:2, Z2:3 | total:60)");
    let base_only = ProductSpaceDims::new(7, vec![]);
    assert_eq!(base_only.to_string(), "ProductSpace(X:7 | total:7)");
}

#[test]
fn product_state_hl_indices() {
    let s = ProductState::new(4)
        .with_hl_discrete(2)
        .with_hl_binary_vector(vec![true, true, false])
        .with_hl_continuous(0x3f800000, 5);
    assert_eq!(s.hl_indices(), vec![2, 3, 5]);
    assert_eq!(ProductState::new(1).hl_indices(), Vec::<usize>::new());
}
