//! Dimension bookkeeping of Chapman-Kolmogorov composition of option kernels.

pub mod chapman_kolmogorov;
