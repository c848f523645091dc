use stok_core::solver::convergence::{
    should_check_convergence, ConvergenceConfig, ConvergenceReason, ConvergenceState,
    FeasibilityIterationConfig, DEFAULT_CONVERGENCE_TOLERANCE_BITS, DEFAULT_MAX_ITERATIONS,
};

fn update(state: &mut ConvergenceState, delta: f32, config: &ConvergenceConfig) {
    let below = delta < f32::from_bits(config.epsilon_bits);
    state.update(delta.to_bits(), below, config);
}

#[test]
fn test_convergence_config_default() {
    let config = ConvergenceConfig::default();
    assert_eq!(config.max_iterations, DEFAULT_MAX_ITERATIONS);
    assert_eq!(f32::from_bits(config.epsilon_bits), 1e-6);
    assert_eq!(config.epsilon_bits, DEFAULT_CONVERGENCE_TOLERANCE_BITS);
    assert_eq!(config.check_interval, 1);
    assert!(config.early_stop);
}

#[test]
fn test_convergence_config_builder() {
    let config = ConvergenceConfig::default()
        .with_max_iterations(500)
        .with_epsilon_bits(1e-4f32.to_bits())
        .with_check_interval(5);

    assert_eq!(config.max_iterations, 500);
    assert_eq!(f32::from_bits(config.epsilon_bits), 1e-4);
    assert_eq!(config.check_interval, 5);
}

#[test]
fn test_convergence_state_new() {
    let state = ConvergenceState::new();
    assert_eq!(state.iteration, 0);
    assert_eq!(f32::from_bits(state.delta_bits), f32::INFINITY);
    assert!(!state.converged);
    assert_eq!(state.reason, ConvergenceReason::NotConverged);
}

#[test]
fn test_convergence_state_update_converged() {
    let mut state = ConvergenceState::new();
    let config = ConvergenceConfig::default().with_epsilon_bits(1e-4f32.to_bits());

    update(&mut state, 1e-5, &config);

    assert_eq!(state.iteration, 1);
    assert!(state.converged);
    assert_eq!(state.reason, ConvergenceReason::ToleranceReached);
}

#[test]
fn test_convergence_state_update_not_converged() {
    let mut state = ConvergenceState::new();
    let config = ConvergenceConfig::default().with_epsilon_bits(1e-4f32.to_bits());

    update(&mut state, 1e-3, &config);

    assert_eq!(state.iteration, 1);
    assert!(!state.converged);
    assert_eq!(state.reason, ConvergenceReason::NotConverged);
}

#[test]
fn test_convergence_state_max_iterations() {
    let mut state = ConvergenceState::new();
    let config = ConvergenceConfig::default()
        .with_max_iterations(5)
        .with_epsilon_bits(1e-10f32.to_bits());

    for i in 0..5 {
        update(&mut state, 0.1, &config);
        if i < 4 {
            assert!(!state.should_terminate(&config), "Should not terminate at iteration {}", i);
        }
    }

    assert!(state.should_terminate(&config));
    assert_eq!(state.reason, ConvergenceReason::MaxIterationsReached);
}

#[test]
fn test_should_check_convergence() {
    let config = ConvergenceConfig::default().with_check_interval(5);

    assert!(should_check_convergence(0, &config));
    assert!(!should_check_convergence(1, &config));
    assert!(!should_check_convergence(4, &config));
    assert!(should_check_convergence(5, &config));
    assert!(should_check_convergence(10, &config));
}

#[test]
fn test_convergence_state_history() {
    let mut state = ConvergenceState::with_history();
    let config = ConvergenceConfig::default();

    update(&mut state, 1.0, &config);
    update(&mut state, 0.5, &config);
    update(&mut state, 0.25, &config);

    assert_eq!(state.delta_history.len(), 3);
    assert_eq!(f32::from_bits(state.delta_history[2]), 0.25);
}

#[test]
fn check_interval_never_below_one() {
    let config = ConvergenceConfig::default().with_check_interval(0);
    assert_eq!(config.check_interval, 1);
    assert!(should_check_convergence(3, &config));
}

#[test]
fn early_stop_and_increment() {
    let config = ConvergenceConfig::default().without_early_stop();
    let mut state = ConvergenceState::new();
    update(&mut state, 0.0, &config);
    assert!(state.converged && state.is_converged());
    assert!(!state.should_terminate(&config));
    state.increment();
    assert_eq!(state.iteration, 2);
    assert!(ConvergenceState::new().delta_history.is_empty());
}

#[test]
fn reason_names() {
    assert_eq!(ConvergenceReason::NotConverged.to_string(), "not converged");
    assert_eq!(ConvergenceReason::ToleranceReached.to_string(), "tolerance reached");
    assert_eq!(ConvergenceReason::MaxIterationsReached.to_string(), "max iterations reached");
}

#[test]
fn preset_configurations() {
    let strict = ConvergenceConfig::strict();
    assert_eq!(strict.max_iterations, 10000);
    assert_eq!(f32::from_bits(strict.epsilon_bits), 1e-8);
    let fast = ConvergenceConfig::fast();
    assert_eq!(fast.max_iterations, 500);
    assert_eq!(f32::from_bits(fast.epsilon_bits), 1e-4);
    assert_eq!(fast.check_interval, 5);
    let d = FeasibilityIterationConfig::default();
    assert_eq!(d.max_time, 20);
    assert!(d.compute_full_stok);
    let f = FeasibilityIterationConfig::fast().with_max_time(7).without_stok();
    assert_eq!(f.max_time, 7);
    assert!(!f.compute_full_stok);
    let dbg = FeasibilityIterationConfig::debug();
    assert_eq!(dbg.max_time, 30);
    assert!(dbg.record_history && dbg.check_monotonicity && dbg.validate_intermediate);
}
