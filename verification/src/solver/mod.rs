//! Structural checks used by the feasibility solver.

pub mod graph;
pub mod absorption;
pub mod convergence;
