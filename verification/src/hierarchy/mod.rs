//! Product-space states, high-level actions and mode functions.

pub mod bits;
pub mod product_space;
pub mod modes;
pub mod affordance;
