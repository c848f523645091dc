use stok_core::solver::absorption::check_policy_absorption;
use stok_core::solver::graph::reachable_from;

#[test]
fn reachability_in_a_chain() {
    // 0 -> 1 -> 2, 3 -> 3
    let adj = vec![vec![1], vec![2], vec![], vec![3]];
    assert_eq!(reachable_from(&adj, 0), vec![true, true, true, false]);
    assert_eq!(reachable_from(&adj, 2), vec![false, false, true, false]);
    assert_eq!(reachable_from(&adj, 3), vec![false, false, false, true]);
}

#[test]
fn absorbing_chain_passes() {
    // Every state moves towards state 2, where the option terminates.
    let adj = vec![vec![1], vec![2], vec![2]];
    let never_terminates = vec![true, true, false];
    assert!(check_policy_absorption(&adj, &never_terminates).is_ok());
}

#[test]
fn closed_non_terminating_class_is_reported() {
    // 0 -> {1, 3}; 1 <-> 2 never terminate; 3 terminates.
    let adj = vec![vec![1, 3], vec![2], vec![1], vec![3]];
    let never_terminates = vec![true, true, true, false];
    let class = check_policy_absorption(&adj, &never_terminates).unwrap_err();
    let mut sorted = class.clone();
    sorted.sort();
    assert_eq!(sorted, vec![1, 2]);
}

#[test]
fn self_loop_without_termination_is_reported() {
    let adj = vec![vec![0]];
    assert_eq!(check_policy_absorption(&adj, &vec![true]).unwrap_err(), vec![0]);
    assert!(check_policy_absorption(&adj, &vec![false]).is_ok());
}

#[test]
fn bottom_class_below_a_transient_cycle() {
    // 0 <-> 1 is a cycle that leaks into the closed cycle 2 <-> 3.
    let adj = vec![vec![1], vec![0, 2], vec![3], vec![2]];
    let class = check_policy_absorption(&adj, &vec![true; 4]).unwrap_err();
    let mut sorted = class.clone();
    sorted.sort();
    assert_eq!(sorted, vec![2, 3]);
}

#[test]
fn empty_graph_is_absorbing() {
    assert!(check_policy_absorption(&vec![], &vec![]).is_ok());
}
