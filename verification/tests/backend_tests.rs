use stok_core::backend::device::DeviceConfig;

#[test]
fn test_device_config_default() {
    let config = DeviceConfig::default();
    match config {
        DeviceConfig::Wgpu { device_index } => {
            assert_eq!(device_index, 0);
        }
        _ => panic!("Default should be WGPU"),
    }
}

#[test]
fn gpu_and_adapter_choice() {
    assert!(DeviceConfig::default().is_gpu());
    assert!(!DeviceConfig::Cpu.is_gpu());
    assert_eq!(DeviceConfig::Wgpu { device_index: 0 }.discrete_gpu_index(), None);
    assert_eq!(DeviceConfig::Wgpu { device_index: 2 }.discrete_gpu_index(), Some(2));
    assert_eq!(DeviceConfig::Cpu.discrete_gpu_index(), None);
}
