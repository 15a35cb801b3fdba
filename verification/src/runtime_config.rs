//! Concrete configuration consumed by the inference runtime.
//!
//! This module intentionally contains no planner profiles, policies, reason
//! codes, calibration data, or fingerprints. `RuntimeConfig` is the execution
//! contract produced after planning and validation are complete.

use vstd::prelude::*;
use vstd::string::*;

use crate::text;

verus! {

#[derive(Debug, Clone, Copy, PartialEq, Eq, Structural)]
pub enum RuntimeExecutionDevice {
    Cpu,
}

#[derive(Debug, Clone, Copy, PartialEq, Eq, Structural)]
pub struct RuntimeConfig {
    pub cpu_thread_count: usize,
    pub ram_budget_bytes: u64,
    pub layer_cache_enabled: bool,
    pub layer_cache_capacity_bytes: u64,
    pub read_coalescing_enabled: bool,
    pub grouped_read_buffer_reuse_enabled: bool,
    pub execution_device: RuntimeExecutionDevice,
}

#[derive(Debug, Clone, Copy, PartialEq, Eq, Structural)]
pub enum RuntimeConfigError {
    ZeroThreadCount,
    ZeroRamBudget,
    LayerCacheEnabledWithoutCapacity,
    LayerCacheDisabledWithCapacity,
    LayerCacheCapacityExceedsRamBudget { capacity_bytes: u64, ram_budget_bytes: u64 },
}

impl RuntimeConfigError {
    pub open spec fn spec_message(self) -> Seq<char> {
        match self {
            RuntimeConfigError::ZeroThreadCount => "CPU thread count must be greater than zero"@,
            RuntimeConfigError::ZeroRamBudget => "RAM budget must be greater than zero"@,
            RuntimeConfigError::LayerCacheEnabledWithoutCapacity =>
                "enabled layer cache must have non-zero capacity"@,
            RuntimeConfigError::LayerCacheDisabledWithCapacity =>
                "disabled layer cache must have zero capacity"@,
            RuntimeConfigError::LayerCacheCapacityExceedsRamBudget {
                capacity_bytes,
                ram_budget_bytes,
            } => "layer cache capacity "@ + text::decimal(capacity_bytes as nat)
                + " exceeds RAM budget "@ + text::decimal(ram_budget_bytes as nat),
        }
    }

    pub fn message(&self) -> (message: String)
        ensures
            message@ == self.spec_message(),
    {
        match self {
            RuntimeConfigError::ZeroThreadCount =>
                "CPU thread count must be greater than zero".to_owned(),
            RuntimeConfigError::ZeroRamBudget => "RAM budget must be greater than zero".to_owned(),
            RuntimeConfigError::LayerCacheEnabledWithoutCapacity =>
                "enabled layer cache must have non-zero capacity".to_owned(),
            RuntimeConfigError::LayerCacheDisabledWithCapacity =>
                "disabled layer cache must have zero capacity".to_owned(),
            RuntimeConfigError::LayerCacheCapacityExceedsRamBudget {
                capacity_bytes,
                ram_budget_bytes,
            } => {
                let mut message = "layer cache capacity ".to_owned();
                text::push_decimal(&mut message, *capacity_bytes);
                message.append(" exceeds RAM budget ");
                text::push_decimal(&mut message, *ram_budget_bytes);
                message
            },
        }
    }
}

/// Both grouped-read optimizations are permitted by default.
pub const CURRENT_READ_COALESCING_ENABLED: bool = true;

pub const CURRENT_GROUPED_READ_BUFFER_REUSE_ENABLED: bool = true;

/// A configuration that can be executed: threads and memory are not zero, and
/// the layer cache is on exactly where it has a capacity, within the budget.
pub open spec fn config_check(config: RuntimeConfig) -> Result<(), RuntimeConfigError> {
    if config.cpu_thread_count == 0 {
        Err(RuntimeConfigError::ZeroThreadCount)
    } else if config.ram_budget_bytes == 0 {
        Err(RuntimeConfigError::ZeroRamBudget)
    } else if config.layer_cache_enabled && config.layer_cache_capacity_bytes == 0 {
        Err(RuntimeConfigError::LayerCacheEnabledWithoutCapacity)
    } else if !config.layer_cache_enabled && config.layer_cache_capacity_bytes != 0 {
        Err(RuntimeConfigError::LayerCacheDisabledWithCapacity)
    } else if config.layer_cache_capacity_bytes > config.ram_budget_bytes {
        Err(
            RuntimeConfigError::LayerCacheCapacityExceedsRamBudget {
                capacity_bytes: config.layer_cache_capacity_bytes,
                ram_budget_bytes: config.ram_budget_bytes,
            },
        )
    } else {
        Ok(())
    }
}

pub open spec fn checked_config(config: RuntimeConfig) -> Result<
    RuntimeConfig,
    RuntimeConfigError,
> {
    match config_check(config) {
        Ok(_) => Ok(config),
        Err(error) => Err(error),
    }
}

impl RuntimeConfig {
    pub fn new(
        cpu_thread_count: usize,
        ram_budget_bytes: u64,
        layer_cache_enabled: bool,
        layer_cache_capacity_bytes: u64,
        read_coalescing_enabled: bool,
        grouped_read_buffer_reuse_enabled: bool,
    ) -> (result: Result<Self, RuntimeConfigError>)
        ensures
            result == checked_config(
                RuntimeConfig {
                    cpu_thread_count,
                    ram_budget_bytes,
                    layer_cache_enabled,
                    layer_cache_capacity_bytes,
                    read_coalescing_enabled,
                    grouped_read_buffer_reuse_enabled,
                    execution_device: RuntimeExecutionDevice::Cpu,
                },
            ),
    {
        let config = RuntimeConfig {
            cpu_thread_count,
            ram_budget_bytes,
            layer_cache_enabled,
            layer_cache_capacity_bytes,
            read_coalescing_enabled,
            grouped_read_buffer_reuse_enabled,
            execution_device: RuntimeExecutionDevice::Cpu,
        };
        match config.validate() {
            Ok(()) => Ok(config),
            Err(error) => Err(error),
        }
    }

    /// The default policies for a known thread count, budget and cache capacity:
    /// the cache is on where it has a capacity, and both read optimizations are
    /// permitted.
    pub fn current_defaults_with_thread_count(
        cpu_thread_count: usize,
        ram_budget_bytes: u64,
        layer_cache_capacity_bytes: u64,
    ) -> (result: Result<Self, RuntimeConfigError>)
        ensures
            result == checked_config(
                RuntimeConfig {
                    cpu_thread_count,
                    ram_budget_bytes,
                    layer_cache_enabled: layer_cache_capacity_bytes > 0,
                    layer_cache_capacity_bytes,
                    read_coalescing_enabled: true,
                    grouped_read_buffer_reuse_enabled: true,
                    execution_device: RuntimeExecutionDevice::Cpu,
                },
            ),
    {
        Self::new(
            cpu_thread_count,
            ram_budget_bytes,
            layer_cache_capacity_bytes > 0,
            layer_cache_capacity_bytes,
            CURRENT_READ_COALESCING_ENABLED,
            CURRENT_GROUPED_READ_BUFFER_REUSE_ENABLED,
        )
    }

    pub fn validate(&self) -> (result: Result<(), RuntimeConfigError>)
        ensures
            result == config_check(*self),
    {
        if self.cpu_thread_count == 0 {
            return Err(RuntimeConfigError::ZeroThreadCount);
        }
        if self.ram_budget_bytes == 0 {
            return Err(RuntimeConfigError::ZeroRamBudget);
        }
        if self.layer_cache_enabled && self.layer_cache_capacity_bytes == 0 {
            return Err(RuntimeConfigError::LayerCacheEnabledWithoutCapacity);
        }
        if !self.layer_cache_enabled && self.layer_cache_capacity_bytes != 0 {
            return Err(RuntimeConfigError::LayerCacheDisabledWithCapacity);
        }
        if self.layer_cache_capacity_bytes > self.ram_budget_bytes {
            return Err(
                RuntimeConfigError::LayerCacheCapacityExceedsRamBudget {
                    capacity_bytes: self.layer_cache_capacity_bytes,
                    ram_budget_bytes: self.ram_budget_bytes,
                },
            );
        }
        Ok(())
    }
}

/// Whether a configuration can run on a host with `available_threads` threads,
/// or the message that says why not.
pub open spec fn host_check(config: RuntimeConfig, available_threads: usize) -> Result<
    (),
    Seq<char>,
> {
    match config_check(config) {
        Err(error) => Err("invalid runtime configuration: "@ + error.spec_message()),
        Ok(_) => if config.cpu_thread_count > available_threads {
            Err(
                "runtime configuration requests "@ + text::decimal(
                    config.cpu_thread_count as nat,
                ) + " CPU threads but only "@ + text::decimal(available_threads as nat)
                    + " are available"@,
            )
        } else {
            Ok(())
        },
    }
}

/// Checks a configuration against the threads that the host offers.
pub fn validate_runtime_config_for_host(config: &RuntimeConfig, available_threads: usize) -> (result:
    Result<(), String>)
    ensures
        text::text_result(result) == host_check(*config, available_threads),
{
    match config.validate() {
        Ok(()) => {},
        Err(error) => {
            let mut message = "invalid runtime configuration: ".to_owned();
            message.append(error.message().as_str());
            return Err(message);
        },
    }
    if config.cpu_thread_count > available_threads {
        let mut message = "runtime configuration requests ".to_owned();
        text::push_decimal(&mut message, config.cpu_thread_count as u64);
        message.append(" CPU threads but only ");
        text::push_decimal(&mut message, available_threads as u64);
        message.append(" are available");
        return Err(message);
    }
    Ok(())
}

/// When a configuration is accepted: it has threads, a budget, and a layer cache
/// that has a capacity exactly where it is on, within the budget. What is refused
/// first is named.
pub proof fn lemma_config_checked(config: RuntimeConfig)
    ensures
        ({
            let result = config_check(config);
            let capacity = config.layer_cache_capacity_bytes;
            &&& result is Ok <==> config.cpu_thread_count > 0 && config.ram_budget_bytes > 0 && (
            config.layer_cache_enabled <==> capacity > 0) && capacity <= config.ram_budget_bytes
            &&& result matches Err(error) ==> match error {
                RuntimeConfigError::ZeroThreadCount => config.cpu_thread_count == 0,
                RuntimeConfigError::ZeroRamBudget => config.ram_budget_bytes == 0,
                RuntimeConfigError::LayerCacheEnabledWithoutCapacity => config.layer_cache_enabled
                    && capacity == 0,
                RuntimeConfigError::LayerCacheDisabledWithCapacity => !config.layer_cache_enabled
                    && capacity > 0,
                RuntimeConfigError::LayerCacheCapacityExceedsRamBudget {
                    capacity_bytes,
                    ram_budget_bytes,
                } => capacity_bytes == capacity && ram_budget_bytes == config.ram_budget_bytes
                    && capacity_bytes > ram_budget_bytes,
            }
            &&& checked_config(config) is Ok <==> result is Ok
            &&& checked_config(config) is Ok ==> checked_config(config)->Ok_0 == config
        }),
{
}

/// A host takes a configuration that is accepted and asks for no more threads than
/// there are.
pub proof fn lemma_host_checked(config: RuntimeConfig, available_threads: usize)
    ensures
        host_check(config, available_threads) is Ok <==> config_check(config) is Ok
            && config.cpu_thread_count <= available_threads,
{
}

} // verus!
