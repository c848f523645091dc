use stok_core::hierarchy::product_space::ProductSpaceDims;
use stok_core::planning::goal_kernel::{check_same_product_dims, GoalInfo};
use stok_core::planning::plan::{count_successes, PlanError, SimulatedTrajectory, StepOutcome};
use stok_core::planning::sampling::{split_state_time, TerminationOutcome};
use stok_core::types::{GoalId, StateIdx, StokError};

#[test]
fn plan_error_messages() {
    assert_eq!(PlanError::EmptyPlan.to_string(), "Plan has no options");
    assert_eq!(PlanError::UnknownGoal(GoalId(3)).to_string(), "Unknown goal: Goal(3)");
    assert_eq!(
        PlanError::InfeasibleStep { goal: GoalId(1), state: StateIdx(4) }.to_string(),
        "Infeasible step: goal Goal(1) from state StateIdx(4)"
    );
}

#[test]
fn trajectory_records_successful_steps() {
    let mut t = SimulatedTrajectory::start(2);
    assert!(t.step(StepOutcome::Success { next_state: 5, duration: 3 }));
    assert!(t.step(StepOutcome::Success { next_state: 7, duration: 4 }));
    assert_eq!(t.states, vec![2, 5, 7]);
    assert_eq!(t.times, vec![0, 3, 7]);
    assert!(t.success);
    assert_eq!(t.current_state(), 7);
    assert_eq!(t.current_time(), 7);
}

#[test]
fn trajectory_stops_on_failure_and_unknown_goal() {
    let mut t = SimulatedTrajectory::start(0);
    assert!(t.step(StepOutcome::Success { next_state: 1, duration: 1 }));
    assert!(!t.step(StepOutcome::Failure));
    assert!(!t.success);
    assert_eq!(t.states, vec![0, 1]);

    let mut u = SimulatedTrajectory::start(9);
    assert!(!u.step(StepOutcome::UnknownGoal));
    assert_eq!(u.states, vec![9]);
    assert_eq!(u.times, vec![0]);
    assert!(!u.success);
}

#[test]
fn successes_are_counted() {
    let mut a = SimulatedTrajectory::start(0);
    a.step(StepOutcome::Failure);
    let b = SimulatedTrajectory::start(1);
    let c = SimulatedTrajectory::start(2);
    assert_eq!(count_successes(&vec![a, b, c]), 2);
    assert_eq!(count_successes(&vec![]), 0);
}

#[test]
fn state_time_split() {
    // Row of 4 states x 5 times: position 13 is state 2 at time 3.
    assert_eq!(split_state_time(13, 5), (2, 3));
    assert_eq!(split_state_time(0, 5), (0, 0));
    assert_eq!(split_state_time(19, 5), (3, 4));
    assert_ne!(TerminationOutcome::Success, TerminationOutcome::Failure);
}

#[test]
fn product_dims_comparison() {
    let a = ProductSpaceDims::new(25, vec![8, 10]);
    let b = ProductSpaceDims::new(25, vec![8, 10]);
    let c = ProductSpaceDims::new(25, vec![8]);
    assert!(check_same_product_dims(&a, &b).is_ok());
    match check_same_product_dims(&a, &c) {
        Err(StokError::DimensionMismatch { expected, got }) => {
            assert_eq!(expected, vec![25, 8, 10]);
            assert_eq!(got, vec![25, 8]);
        }
        _ => panic!("expected a mismatch"),
    }
    let info = GoalInfo { id: GoalId(0), name: "goal".to_string(), target_state: Some(4), max_time: 10 };
    assert_eq!(info.id, GoalId(0));
}
