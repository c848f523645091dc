//! Choice of compute device.

pub mod device;
