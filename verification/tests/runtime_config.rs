use ramforge_runtime::runtime_config::{
    validate_runtime_config_for_host, RuntimeConfig, RuntimeConfigError, RuntimeExecutionDevice,
};

#[test]
fn test_runtime_config_construction_preserves_explicit_values() {
    let config = RuntimeConfig::new(3, 10_000, true, 2_000, true, false).unwrap();
    assert_eq!(config.cpu_thread_count, 3);
    assert_eq!(config.ram_budget_bytes, 10_000);
    assert!(config.layer_cache_enabled);
    assert_eq!(config.layer_cache_capacity_bytes, 2_000);
    assert!(config.read_coalescing_enabled);
    assert!(!config.grouped_read_buffer_reuse_enabled);
    assert_eq!(config.execution_device, RuntimeExecutionDevice::Cpu);
}

#[test]
fn test_runtime_config_current_defaults_match_legacy_policies() {
    let config = RuntimeConfig::current_defaults_with_thread_count(4, 10_000, 4_000).unwrap();
    assert!(config.cpu_thread_count > 0);
    assert_eq!(config.ram_budget_bytes, 10_000);
    assert!(config.layer_cache_enabled);
    assert_eq!(config.layer_cache_capacity_bytes, 4_000);
    assert!(config.read_coalescing_enabled);
    assert!(config.grouped_read_buffer_reuse_enabled);
    assert_eq!(config.execution_device, RuntimeExecutionDevice::Cpu);

    let uncached = RuntimeConfig::current_defaults_with_thread_count(4, 10_000, 0).unwrap();
    assert!(!uncached.layer_cache_enabled);
    assert_eq!(uncached.layer_cache_capacity_bytes, 0);
}

#[test]
fn test_runtime_config_rejects_zero_execution_limits() {
    assert_eq!(
        RuntimeConfig::new(0, 10_000, false, 0, true, false).unwrap_err(),
        RuntimeConfigError::ZeroThreadCount
    );
    assert_eq!(
        RuntimeConfig::new(1, 0, false, 0, true, false).unwrap_err(),
        RuntimeConfigError::ZeroRamBudget
    );
}

#[test]
fn test_runtime_config_rejects_inconsistent_cache_state() {
    assert_eq!(
        RuntimeConfig::new(1, 10_000, true, 0, true, false).unwrap_err(),
        RuntimeConfigError::LayerCacheEnabledWithoutCapacity
    );
    assert_eq!(
        RuntimeConfig::new(1, 10_000, false, 1, true, false).unwrap_err(),
        RuntimeConfigError::LayerCacheDisabledWithCapacity
    );
}

#[test]
fn test_runtime_config_preserves_independent_io_permissions() {
    let config = RuntimeConfig::new(1, 10_000, false, 0, false, true).unwrap();
    assert!(!config.read_coalescing_enabled);
    assert!(config.grouped_read_buffer_reuse_enabled);
}

#[test]
fn a_cache_larger_than_the_budget_is_refused() {
    assert_eq!(
        RuntimeConfig::new(1, 10, true, 11, true, true).unwrap_err(),
        RuntimeConfigError::LayerCacheCapacityExceedsRamBudget {
            capacity_bytes: 11,
            ram_budget_bytes: 10
        }
    );
}

#[test]
fn the_host_limits_the_threads() {
    let config = RuntimeConfig::new(8, 10_000, false, 0, true, false).unwrap();
    assert_eq!(validate_runtime_config_for_host(&config, 8), Ok(()));
    assert_eq!(
        validate_runtime_config_for_host(&config, 4).unwrap_err(),
        "runtime configuration requests 8 CPU threads but only 4 are available"
    );
    let mut broken = config;
    broken.ram_budget_bytes = 0;
    assert!(validate_runtime_config_for_host(&broken, 8)
        .unwrap_err()
        .starts_with("invalid runtime configuration: "));
}
