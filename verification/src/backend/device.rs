//! Device configuration.

use vstd::prelude::*;

verus! {

/// Which backend device runs tensor operations.
#[derive(Debug, Clone)]
pub enum DeviceConfig {
    /// A GPU through WGPU; index 0 is the default adapter.
    Wgpu { device_index: usize },
    /// Software execution on the CPU.
    Cpu,
}

impl Default for DeviceConfig {
    fn default() -> (c: Self)
        ensures
            c == (DeviceConfig::Wgpu { device_index: 0 }),
    {
        DeviceConfig::Wgpu { device_index: 0 }
    }
}

impl DeviceConfig {
    /// Whether this configuration runs on a GPU (anything but the CPU).
    pub fn is_gpu(&self) -> (b: bool)
        ensures
            b == !(*self is Cpu),
    {
        match self {
            DeviceConfig::Cpu => false,
            _ => true,
        }
    }

    /// The GPU adapter to use: `None` for the default adapter (index 0) or
    /// the CPU, `Some(i)` for discrete GPU `i`.
    pub fn discrete_gpu_index(&self) -> (r: Option<usize>)
        ensures
            r == match *self {
                DeviceConfig::Wgpu { device_index } => if device_index == 0 {
                    None
                } else {
                    Some(device_index)
                },
                DeviceConfig::Cpu => None,
            },
    {
        match self {
            DeviceConfig::Wgpu { device_index } => {
                if *device_index == 0 {
                    None
                } else {
                    Some(*device_index)
                }
            },
            DeviceConfig::Cpu => None,
        }
    }
}

} // verus!
