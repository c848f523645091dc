//! Plans, their errors, and the bookkeeping of simulated executions.

pub mod plan;
pub mod sampling;
pub mod goal_kernel;
