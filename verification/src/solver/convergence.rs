//! Convergence bookkeeping of feasibility iteration.
//!
//! Tolerances and deltas are 32-bit floats; this module keeps them as their
//! IEEE-754 bit patterns and receives the outcome of the float comparison
//! `delta < epsilon` from the caller, so it decides from iteration counts and
//! that outcome alone.

use vstd::prelude::*;
use vstd::string::*;

verus! {

/// Bit pattern of the default convergence tolerance, 1e-6.
pub const DEFAULT_CONVERGENCE_TOLERANCE_BITS: u32 = 0x358637bd;

/// Default iteration budget of feasibility iteration.
pub const DEFAULT_MAX_ITERATIONS: usize = 1000;

/// Default number of iterations between convergence checks.
pub const DEFAULT_CHECK_INTERVAL: usize = 1;

/// Bit pattern of positive infinity, the delta before any check.
pub const INFINITY_BITS: u32 = 0x7f800000;

/// When to stop feasibility iteration.
#[derive(Debug, Clone)]
pub struct ConvergenceConfig {
    /// Iteration budget.
    pub max_iterations: usize,
    /// Tolerance ε on ‖κ_new − κ_old‖_∞, as an f32 bit pattern.
    pub epsilon_bits: u32,
    /// Check convergence every this many iterations (at least 1).
    pub check_interval: usize,
    /// Stop as soon as the tolerance is reached.
    pub early_stop: bool,
}

impl Default for ConvergenceConfig {
    fn default() -> (c: Self)
        ensures
            c.max_iterations == DEFAULT_MAX_ITERATIONS,
            c.epsilon_bits == DEFAULT_CONVERGENCE_TOLERANCE_BITS,
            c.check_interval == DEFAULT_CHECK_INTERVAL,
            c.early_stop,
    {
        ConvergenceConfig {
            max_iterations: DEFAULT_MAX_ITERATIONS,
            epsilon_bits: DEFAULT_CONVERGENCE_TOLERANCE_BITS,
            check_interval: DEFAULT_CHECK_INTERVAL,
            early_stop: true,
        }
    }
}

impl ConvergenceConfig {
    /// This configuration with iteration budget `n`.
    pub fn with_max_iterations(self, n: usize) -> (c: Self)
        ensures
            c == (ConvergenceConfig { max_iterations: n, ..self }),
    {
        ConvergenceConfig { max_iterations: n, ..self }
    }

    /// This configuration with tolerance `eps_bits` (an f32 bit pattern).
    pub fn with_epsilon_bits(self, eps_bits: u32) -> (c: Self)
        ensures
            c == (ConvergenceConfig { epsilon_bits: eps_bits, ..self }),
    {
        ConvergenceConfig { epsilon_bits: eps_bits, ..self }
    }

    /// This configuration checking every `n` iterations, at least every one.
    pub fn with_check_interval(self, n: usize) -> (c: Self)
        ensures
            c == (ConvergenceConfig { check_interval: if n > 1 { n } else { 1 }, ..self }),
    {
        let interval = if n > 1 { n } else { 1 };
        ConvergenceConfig { check_interval: interval, ..self }
    }

    /// This configuration without early stopping.
    pub fn without_early_stop(self) -> (c: Self)
        ensures
            c == (ConvergenceConfig { early_stop: false, ..self }),
    {
        ConvergenceConfig { early_stop: false, ..self }
    }

    /// Many iterations, tight tolerance (1e-8), checked every iteration.
    pub fn strict() -> (c: Self)
        ensures
            c == (ConvergenceConfig {
                max_iterations: 10000,
                epsilon_bits: 0x322bcc77,
                check_interval: 1,
                early_stop: true,
            }),
    {
        ConvergenceConfig { max_iterations: 10000, epsilon_bits: 0x322bcc77, check_interval: 1, early_stop: true }
    }

    /// Few iterations, loose tolerance (1e-4), checked every fifth iteration.
    pub fn fast() -> (c: Self)
        ensures
            c == (ConvergenceConfig {
                max_iterations: 500,
                epsilon_bits: 0x38d1b717,
                check_interval: 5,
                early_stop: true,
            }),
    {
        ConvergenceConfig { max_iterations: 500, epsilon_bits: 0x38d1b717, check_interval: 5, early_stop: true }
    }
}

/// Why iteration stopped, or that it has not.
#[derive(Debug, Clone, Copy, PartialEq, Eq)]
pub enum ConvergenceReason {
    /// Still iterating.
    NotConverged,
    /// The delta fell below the tolerance.
    ToleranceReached,
    /// The iteration budget ran out.
    MaxIterationsReached,
}

impl ConvergenceReason {
    /// The readable form of the reason.
    pub fn to_string(&self) -> (s: String)
        ensures
            s@ == match *self {
                ConvergenceReason::NotConverged => "not converged"@,
                ConvergenceReason::ToleranceReached => "tolerance reached"@,
                ConvergenceReason::MaxIterationsReached => "max iterations reached"@,
            },
    {
        match self {
            ConvergenceReason::NotConverged => String::from_str("not converged"),
            ConvergenceReason::ToleranceReached => String::from_str("tolerance reached"),
            ConvergenceReason::MaxIterationsReached => String::from_str("max iterations reached"),
        }
    }
}

/// Progress of feasibility iteration.
#[derive(Debug, Clone)]
pub struct ConvergenceState {
    /// Iterations done.
    pub iteration: usize,
    /// Last convergence delta, as an f32 bit pattern.
    pub delta_bits: u32,
    /// Whether the tolerance has been reached.
    pub converged: bool,
    /// Why iteration stopped, if it did.
    pub reason: ConvergenceReason,
    /// Recorded deltas (f32 bit patterns), when recording is on.
    pub delta_history: Vec<u32>,
    /// Whether `update` records deltas.
    pub record_history: bool,
}

impl ConvergenceState {
    /// Whether deltas are recorded.
    pub open spec fn records(&self) -> bool {
        self.record_history
    }

    /// The state before any iteration: delta infinite, not converged.
    pub fn new() -> (s: Self)
        ensures
            s.iteration == 0,
            s.delta_bits == INFINITY_BITS,
            !s.converged,
            s.reason == ConvergenceReason::NotConverged,
            s.delta_history@.len() == 0,
            !s.records(),
    {
        ConvergenceState {
            iteration: 0,
            delta_bits: INFINITY_BITS,
            converged: false,
            reason: ConvergenceReason::NotConverged,
            delta_history: Vec::new(),
            record_history: false,
        }
    }

    /// Like `new`, but recording every delta.
    pub fn with_history() -> (s: Self)
        ensures
            s.iteration == 0,
            s.delta_bits == INFINITY_BITS,
            !s.converged,
            s.reason == ConvergenceReason::NotConverged,
            s.delta_history@.len() == 0,
            s.records(),
    {
        ConvergenceState {
            iteration: 0,
            delta_bits: INFINITY_BITS,
            converged: false,
            reason: ConvergenceReason::NotConverged,
            delta_history: Vec::new(),
            record_history: true,
        }
    }

    /// Records one checked iteration with delta `new_delta_bits`;
    /// `below_tolerance` is the outcome of `delta < epsilon` on the floats.
    /// Reaching the tolerance takes precedence over running out of budget.
    pub fn update(&mut self, new_delta_bits: u32, below_tolerance: bool, config: &ConvergenceConfig)
        requires
            old(self).iteration < usize::MAX,
        ensures
            final(self).iteration == old(self).iteration + 1,
            final(self).delta_bits == new_delta_bits,
            final(self).records() == old(self).records(),
            final(self).delta_history@ == if old(self).records() {
                old(self).delta_history@.push(new_delta_bits)
            } else {
                old(self).delta_history@
            },
            below_tolerance ==> final(self).converged && final(self).reason
                == ConvergenceReason::ToleranceReached,
            !below_tolerance ==> final(self).converged == old(self).converged,
            !below_tolerance && final(self).iteration >= config.max_iterations ==> final(self).reason
                == ConvergenceReason::MaxIterationsReached,
            !below_tolerance && final(self).iteration < config.max_iterations ==> final(self).reason
                == old(self).reason,
    {
        self.iteration = self.iteration + 1;
        self.delta_bits = new_delta_bits;
        if self.record_history {
            self.delta_history.push(new_delta_bits);
        }
        if below_tolerance {
            self.converged = true;
            self.reason = ConvergenceReason::ToleranceReached;
        } else if self.iteration >= config.max_iterations {
            self.reason = ConvergenceReason::MaxIterationsReached;
        }
    }

    /// Counts an iteration without a convergence check.
    pub fn increment(&mut self)
        requires
            old(self).iteration < usize::MAX,
        ensures
            *final(self) == (ConvergenceState { iteration: (old(self).iteration + 1) as usize, ..*old(self) }),
    {
        self.iteration = self.iteration + 1;
    }

    /// Stop when the budget is used up, or when converged and early
    /// stopping is on.
    pub fn should_terminate(&self, config: &ConvergenceConfig) -> (b: bool)
        ensures
            b == (self.iteration >= config.max_iterations || (self.converged && config.early_stop)),
    {
        if self.iteration >= config.max_iterations {
            return true;
        }
        if self.converged && config.early_stop {
            return true;
        }
        false
    }

    /// Whether iteration stopped because the tolerance was reached.
    pub fn is_converged(&self) -> (b: bool)
        ensures
            b == (self.reason == ConvergenceReason::ToleranceReached),
    {
        match self.reason {
            ConvergenceReason::ToleranceReached => true,
            _ => false,
        }
    }
}

/// Whether iteration `iteration` is one at which convergence is checked:
/// the first, and every `check_interval`-th.
pub fn should_check_convergence(iteration: usize, config: &ConvergenceConfig) -> (b: bool)
    requires
        config.check_interval > 0,
    ensures
        b == (iteration % config.check_interval == 0 || iteration == 0),
{
    iteration % config.check_interval == 0 || iteration == 0
}

/// Configuration of feasibility iteration.
#[derive(Debug, Clone)]
pub struct FeasibilityIterationConfig {
    /// Convergence criteria.
    pub convergence: ConvergenceConfig,
    /// Time horizon T of the STOK that is built.
    pub max_time: usize,
    /// Build the full STOK (else only κ and π).
    pub compute_full_stok: bool,
    /// Validate intermediate results.
    pub validate_intermediate: bool,
    /// Check that κ never decreases.
    pub check_monotonicity: bool,
    /// Record κ and deltas at every iteration.
    pub record_history: bool,
}

impl Default for FeasibilityIterationConfig {
    fn default() -> (c: Self)
        ensures
            c.convergence.max_iterations == DEFAULT_MAX_ITERATIONS,
            c.convergence.epsilon_bits == DEFAULT_CONVERGENCE_TOLERANCE_BITS,
            c.convergence.check_interval == DEFAULT_CHECK_INTERVAL,
            c.convergence.early_stop,
            c.max_time == 20,
            c.compute_full_stok,
            !c.validate_intermediate,
            !c.check_monotonicity,
            !c.record_history,
    {
        FeasibilityIterationConfig {
            convergence: ConvergenceConfig::default(),
            max_time: 20,
            compute_full_stok: true,
            validate_intermediate: false,
            check_monotonicity: false,
            record_history: false,
        }
    }
}

impl FeasibilityIterationConfig {
    /// Fast convergence criteria and a horizon of 10.
    pub fn fast() -> (c: Self)
        ensures
            c.convergence == ConvergenceConfig::fast_spec(),
            c.max_time == 10,
            c.compute_full_stok,
            !c.validate_intermediate,
            !c.check_monotonicity,
            !c.record_history,
    {
        FeasibilityIterationConfig {
            convergence: ConvergenceConfig::fast(),
            max_time: 10,
            compute_full_stok: true,
            validate_intermediate: false,
            check_monotonicity: false,
            record_history: false,
        }
    }

    /// Strict convergence criteria, a horizon of 30, every check and record on.
    pub fn debug() -> (c: Self)
        ensures
            c.convergence == ConvergenceConfig::strict_spec(),
            c.max_time == 30,
            c.compute_full_stok,
            c.validate_intermediate,
            c.check_monotonicity,
            c.record_history,
    {
        FeasibilityIterationConfig {
            convergence: ConvergenceConfig::strict(),
            max_time: 30,
            compute_full_stok: true,
            validate_intermediate: true,
            check_monotonicity: true,
            record_history: true,
        }
    }

    /// This configuration with STOK horizon `max_time`.
    pub fn with_max_time(self, max_time: usize) -> (c: Self)
        ensures
            c == (FeasibilityIterationConfig { max_time, ..self }),
    {
        FeasibilityIterationConfig { max_time, ..self }
    }

    /// This configuration computing κ and π only, without the full STOK.
    pub fn without_stok(self) -> (c: Self)
        ensures
            c == (FeasibilityIterationConfig { compute_full_stok: false, ..self }),
    {
        FeasibilityIterationConfig { compute_full_stok: false, ..self }
    }
}

impl ConvergenceConfig {
    /// The fast configuration.
    pub open spec fn fast_spec() -> Self {
        ConvergenceConfig { max_iterations: 500, epsilon_bits: 0x38d1b717, check_interval: 5, early_stop: true }
    }

    /// The strict configuration.
    pub open spec fn strict_spec() -> Self {
        ConvergenceConfig {
            max_iterations: 10000,
            epsilon_bits: 0x322bcc77,
            check_interval: 1,
            early_stop: true,
        }
    }
}

} // verus!
