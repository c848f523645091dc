//! Shapes and deterministic structure of task MDPs.

pub mod task_mdp;
