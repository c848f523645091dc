//! Verified core of the STOK (State-Time Option Kernel) planning library.
//!
//! This crate holds the index, dimension, combinatorial and graph logic of the
//! framework, each function with a contract proved by Verus. Tensor arithmetic
//! over probabilities lives outside this crate.

pub mod text;
pub mod types;
pub mod hierarchy;

pub mod solver;
pub mod mdp;
pub mod composition;
pub mod planning;
pub mod backend;
