use stok_core::hierarchy::affordance::{affordance_dims, cartesian_product_actions, HLAction, HLActionSet};

#[test]
fn test_hl_action_single() {
    let action = HLAction::single(0, 1);
    assert_eq!(action.action_for_space(0), Some(1));
    assert_eq!(action.action_for_space(1), None);
}

#[test]
fn test_hl_action_vector() {
    let action = HLAction::vector(vec![1, 2, 3]);
    assert_eq!(action.action_for_space(0), Some(1));
    assert_eq!(action.action_for_space(1), Some(2));
    assert_eq!(action.action_for_space(2), Some(3));
}

#[test]
fn test_hl_action_to_vector() {
    let single = HLAction::single(1, 5);
    let vec = single.to_vector(3, 0);
    assert_eq!(vec, vec![0, 5, 0]);
}

#[test]
fn test_hl_action_set() {
    let action_set = HLActionSet::new(vec![2, 3]);
    assert_eq!(action_set.total_actions(), 6);

    let all_actions = action_set.enumerate();
    assert_eq!(all_actions.len(), 6);
}

#[test]
fn test_cartesian_product() {
    let supports = vec![vec![0, 1], vec![0, 2]];
    let product = cartesian_product_actions(&supports);

    assert_eq!(product.len(), 4);
    assert!(product.contains(&HLAction::vector(vec![0, 0])));
    assert!(product.contains(&HLAction::vector(vec![0, 2])));
    assert!(product.contains(&HLAction::vector(vec![1, 0])));
    assert!(product.contains(&HLAction::vector(vec![1, 2])));
}

#[test]
fn enumeration_order_has_first_space_fastest() {
    let all = HLActionSet::new(vec![2, 3]).enumerate();
    let expected: Vec<HLAction> = vec![
        vec![0, 0], vec![1, 0], vec![0, 1], vec![1, 1], vec![0, 2], vec![1, 2],
    ]
    .into_iter()
    .map(HLAction::vector)
    .collect();
    assert_eq!(all, expected);
}

#[test]
fn empty_action_spaces() {
    assert_eq!(HLActionSet::new(vec![]).enumerate(), vec![HLAction::vector(vec![])]);
    assert_eq!(HLActionSet::new(vec![3, 0]).enumerate(), Vec::<HLAction>::new());
}

#[test]
fn cartesian_product_order_and_edge_cases() {
    let product = cartesian_product_actions(&[vec![0, 1], vec![0, 2]]);
    assert_eq!(
        product,
        vec![
            HLAction::vector(vec![0, 0]),
            HLAction::vector(vec![0, 2]),
            HLAction::vector(vec![1, 0]),
            HLAction::vector(vec![1, 2]),
        ]
    );
    assert!(cartesian_product_actions(&[]).is_empty());
    assert_eq!(cartesian_product_actions(&[vec![4, 7]]), vec![HLAction::vector(vec![4]), HLAction::vector(vec![7])]);
    assert!(cartesian_product_actions(&[vec![1], vec![]]).is_empty());
    assert_eq!(cartesian_product_actions(&[vec![1], vec![2], vec![3, 4]]).len(), 2);
}

#[test]
fn vector_actions_keep_their_entries() {
    let action = HLAction::vector(vec![2, 9]);
    assert_eq!(action.to_vector(5, 1), vec![2, 9]);
    assert_eq!(action.action_for_space(7), None);
}

#[test]
fn affordance_dims_of_components() {
    let (base, sizes) = affordance_dims(&vec![[25, 4, 2], [25, 4, 3]]);
    assert_eq!(base, (25, 4));
    assert_eq!(sizes, vec![2, 3]);
}
