//! Validation and materialization boundary between planner output and runtime.
//!
//! The compiler consumes planner contracts, verifies that their concrete
//! execution decisions still fit the supplied machine/model/storage context,
//! and emits a planner-free `RuntimeConfig`. It does not choose strategies or
//! alter requested values.

use vstd::prelude::*;
use vstd::string::*;

use crate::paths;
use crate::plan;
use crate::plan::{ExecutionMemoryPlan, PlanResult};
use crate::planner;
use crate::planner::ExecutionPlan;
use crate::profiles;
use crate::profiles::{
    CapabilitySet, GpuPreference, MachineProfile, ModelProfile, StorageProfile, StrategyId,
    EXECUTION_PLAN_SCHEMA_VERSION, PLANNER_RULESET_VERSION,
};
use crate::runtime_config;
use crate::runtime_config::{RuntimeConfig, RuntimeConfigError, RuntimeExecutionDevice};
use crate::text;

verus! {

#[derive(Debug, Clone, Copy)]
pub struct PlanCompilationContext<'a> {
    pub machine: &'a MachineProfile,
    pub model: &'a ModelProfile,
    pub storage: &'a StorageProfile,
    pub capabilities: &'a CapabilitySet,
    pub static_plan: &'a PlanResult,
}

#[derive(Debug, Clone, PartialEq, Eq)]
pub enum PlanCompilationError {
    UnsupportedSchemaVersion { found: u32, supported: u32 },
    UnsupportedRulesetVersion { found: u32, supported: u32 },
    InvalidContext { component: &'static str },
    BindingMismatch { binding: &'static str },
    StaticPlanMismatch { field: &'static str },
    ZeroThreadCount,
    ThreadCountExceedsLimit { requested: usize, limit: usize },
    ZeroRamBudget,
    RamBudgetExceedsTotalRam { requested: u64, limit: u64 },
    RamBudgetExceedsAvailableRam { requested: u64, limit: u64 },
    StorageUnavailable,
    CpuExecutionUnavailable,
    ModelExecutionUnavailable,
    ExecutionPreflightUnavailable,
    ManagedMemoryLowerBoundExceedsBudget { lower_bound_bytes: u64, ram_budget_bytes: u64 },
    ReservationMismatch { field: &'static str },
    LayerCacheStateInconsistent,
    LayerCacheUnavailable,
    LayerCacheCapacityExceedsLimit { requested: u64, limit: u64 },
    LayerCacheCapacityCannotFitLayer { requested: u64, minimum: u64 },
    ReadCoalescingUnavailable,
    GroupedReadBufferReuseUnavailable,
    InconsistentGpuDecision,
    UnsupportedGpuExecution,
    InvalidRuntimeConfig(RuntimeConfigError),
}

/// A message with two numbers in it.
pub open spec fn between_numbers(
    before: Seq<char>,
    first: nat,
    middle: Seq<char>,
    second: nat,
) -> Seq<char> {
    before + text::decimal(first) + middle + text::decimal(second)
}

fn join_numbers(before: &str, first: u64, middle: &str, second: u64) -> (message: String)
    ensures
        message@ == between_numbers(before@, first as nat, middle@, second as nat),
{
    let mut message = before.to_owned();
    text::push_decimal(&mut message, first);
    message.append(middle);
    text::push_decimal(&mut message, second);
    message
}

fn join_text(before: &str, detail: &str) -> (message: String)
    ensures
        message@ == before@ + detail@,
{
    let mut message = before.to_owned();
    message.append(detail);
    message
}

impl PlanCompilationError {
    pub open spec fn spec_message(self) -> Seq<char> {
        match self {
            PlanCompilationError::UnsupportedSchemaVersion { found, supported } => between_numbers(
                "execution plan schema version "@,
                found as nat,
                " is unsupported; expected "@,
                supported as nat,
            ),
            PlanCompilationError::UnsupportedRulesetVersion { found, supported } =>
                between_numbers(
                "planner ruleset version "@,
                found as nat,
                " is unsupported; expected "@,
                supported as nat,
            ),
            PlanCompilationError::InvalidContext { component } =>
                "invalid plan compilation context: "@ + component@,
            PlanCompilationError::BindingMismatch { binding } =>
                "execution plan binding mismatch: "@ + binding@,
            PlanCompilationError::StaticPlanMismatch { field } => "static execution plan mismatch: "@
                + field@,
            PlanCompilationError::ZeroThreadCount => "execution plan has zero CPU threads"@,
            PlanCompilationError::ThreadCountExceedsLimit { requested, limit } => between_numbers(
                "execution plan requests "@,
                requested as nat,
                " CPU threads but the limit is "@,
                limit as nat,
            ),
            PlanCompilationError::ZeroRamBudget => "execution plan has a zero RAM budget"@,
            PlanCompilationError::RamBudgetExceedsTotalRam { requested, limit } => between_numbers(
                "execution plan RAM budget "@,
                requested as nat,
                " exceeds total RAM "@,
                limit as nat,
            ),
            PlanCompilationError::RamBudgetExceedsAvailableRam { requested, limit } =>
                between_numbers(
                "execution plan RAM budget "@,
                requested as nat,
                " exceeds available RAM "@,
                limit as nat,
            ),
            PlanCompilationError::StorageUnavailable =>
                "execution plan requires unavailable storage execution"@,
            PlanCompilationError::CpuExecutionUnavailable =>
                "execution plan requires unavailable CPU execution"@,
            PlanCompilationError::ModelExecutionUnavailable =>
                "execution plan model is not executable by this runtime"@,
            PlanCompilationError::ExecutionPreflightUnavailable =>
                "runtime execution preflight is unavailable"@,
            PlanCompilationError::ManagedMemoryLowerBoundExceedsBudget {
                lower_bound_bytes,
                ram_budget_bytes,
            } => between_numbers(
                "managed-memory lower bound "@,
                lower_bound_bytes as nat,
                " exceeds RAM budget "@,
                ram_budget_bytes as nat,
            ),
            PlanCompilationError::ReservationMismatch { field } =>
                "execution plan reservation mismatch: "@ + field@,
            PlanCompilationError::LayerCacheStateInconsistent =>
                "execution plan layer-cache state is inconsistent"@,
            PlanCompilationError::LayerCacheUnavailable =>
                "execution plan requests an unavailable layer cache"@,
            PlanCompilationError::LayerCacheCapacityExceedsLimit { requested, limit } =>
                between_numbers(
                "execution plan layer-cache capacity "@,
                requested as nat,
                " exceeds limit "@,
                limit as nat,
            ),
            PlanCompilationError::LayerCacheCapacityCannotFitLayer { requested, minimum } =>
                between_numbers(
                "execution plan layer-cache capacity "@,
                requested as nat,
                " cannot fit the minimum layer size "@,
                minimum as nat,
            ),
            PlanCompilationError::ReadCoalescingUnavailable =>
                "execution plan requests unavailable read coalescing"@,
            PlanCompilationError::GroupedReadBufferReuseUnavailable =>
                "execution plan requests unavailable grouped read buffer reuse"@,
            PlanCompilationError::InconsistentGpuDecision =>
                "execution plan GPU decision is inconsistent"@,
            PlanCompilationError::UnsupportedGpuExecution =>
                "GPU execution is not implemented by this runtime"@,
            PlanCompilationError::InvalidRuntimeConfig(error) =>
                "compiled runtime configuration is invalid: "@ + error.spec_message(),
        }
    }

    pub fn message(&self) -> (message: String)
        ensures
            message@ == self.spec_message(),
    {
        match self {
            PlanCompilationError::UnsupportedSchemaVersion { found, supported } => join_numbers(
                "execution plan schema version ",
                *found as u64,
                " is unsupported; expected ",
                *supported as u64,
            ),
            PlanCompilationError::UnsupportedRulesetVersion { found, supported } => join_numbers(
                "planner ruleset version ",
                *found as u64,
                " is unsupported; expected ",
                *supported as u64,
            ),
            PlanCompilationError::InvalidContext { component } => join_text(
                "invalid plan compilation context: ",
                component,
            ),
            PlanCompilationError::BindingMismatch { binding } => join_text(
                "execution plan binding mismatch: ",
                binding,
            ),
            PlanCompilationError::StaticPlanMismatch { field } => join_text(
                "static execution plan mismatch: ",
                field,
            ),
            PlanCompilationError::ZeroThreadCount =>
                "execution plan has zero CPU threads".to_owned(),
            PlanCompilationError::ThreadCountExceedsLimit { requested, limit } => join_numbers(
                "execution plan requests ",
                *requested as u64,
                " CPU threads but the limit is ",
                *limit as u64,
            ),
            PlanCompilationError::ZeroRamBudget =>
                "execution plan has a zero RAM budget".to_owned(),
            PlanCompilationError::RamBudgetExceedsTotalRam { requested, limit } => join_numbers(
                "execution plan RAM budget ",
                *requested,
                " exceeds total RAM ",
                *limit,
            ),
            PlanCompilationError::RamBudgetExceedsAvailableRam { requested, limit } =>
                join_numbers(
                "execution plan RAM budget ",
                *requested,
                " exceeds available RAM ",
                *limit,
            ),
            PlanCompilationError::StorageUnavailable =>
                "execution plan requires unavailable storage execution".to_owned(),
            PlanCompilationError::CpuExecutionUnavailable =>
                "execution plan requires unavailable CPU execution".to_owned(),
            PlanCompilationError::ModelExecutionUnavailable =>
                "execution plan model is not executable by this runtime".to_owned(),
            PlanCompilationError::ExecutionPreflightUnavailable =>
                "runtime execution preflight is unavailable".to_owned(),
            PlanCompilationError::ManagedMemoryLowerBoundExceedsBudget {
                lower_bound_bytes,
                ram_budget_bytes,
            } => join_numbers(
                "managed-memory lower bound ",
                *lower_bound_bytes,
                " exceeds RAM budget ",
                *ram_budget_bytes,
            ),
            PlanCompilationError::ReservationMismatch { field } => join_text(
                "execution plan reservation mismatch: ",
                field,
            ),
            PlanCompilationError::LayerCacheStateInconsistent =>
                "execution plan layer-cache state is inconsistent".to_owned(),
            PlanCompilationError::LayerCacheUnavailable =>
                "execution plan requests an unavailable layer cache".to_owned(),
            PlanCompilationError::LayerCacheCapacityExceedsLimit { requested, limit } =>
                join_numbers(
                "execution plan layer-cache capacity ",
                *requested,
                " exceeds limit ",
                *limit,
            ),
            PlanCompilationError::LayerCacheCapacityCannotFitLayer { requested, minimum } =>
                join_numbers(
                "execution plan layer-cache capacity ",
                *requested,
                " cannot fit the minimum layer size ",
                *minimum,
            ),
            PlanCompilationError::ReadCoalescingUnavailable =>
                "execution plan requests unavailable read coalescing".to_owned(),
            PlanCompilationError::GroupedReadBufferReuseUnavailable =>
                "execution plan requests unavailable grouped read buffer reuse".to_owned(),
            PlanCompilationError::InconsistentGpuDecision =>
                "execution plan GPU decision is inconsistent".to_owned(),
            PlanCompilationError::UnsupportedGpuExecution =>
                "GPU execution is not implemented by this runtime".to_owned(),
            PlanCompilationError::InvalidRuntimeConfig(error) => join_text(
                "compiled runtime configuration is invalid: ",
                error.message().as_str(),
            ),
        }
    }
}

pub open spec fn header_check(plan: planner::PlanFacts) -> Result<(), PlanCompilationError> {
    if plan.schema_version != EXECUTION_PLAN_SCHEMA_VERSION {
        Err(
            PlanCompilationError::UnsupportedSchemaVersion {
                found: plan.schema_version,
                supported: EXECUTION_PLAN_SCHEMA_VERSION,
            },
        )
    } else if plan.ruleset_version != PLANNER_RULESET_VERSION {
        Err(
            PlanCompilationError::UnsupportedRulesetVersion {
                found: plan.ruleset_version,
                supported: PLANNER_RULESET_VERSION,
            },
        )
    } else {
        Ok(())
    }
}

fn validate_plan_header(plan: &ExecutionPlan) -> (result: Result<(), PlanCompilationError>)
    ensures
        result == header_check(plan@),
{
    if plan.schema_version != EXECUTION_PLAN_SCHEMA_VERSION {
        return Err(
            PlanCompilationError::UnsupportedSchemaVersion {
                found: plan.schema_version,
                supported: EXECUTION_PLAN_SCHEMA_VERSION,
            },
        );
    }
    if plan.ruleset_version != PLANNER_RULESET_VERSION {
        return Err(
            PlanCompilationError::UnsupportedRulesetVersion {
                found: plan.ruleset_version,
                supported: PLANNER_RULESET_VERSION,
            },
        );
    }
    Ok(())
}

/// The decisions make sense together, whatever the machine.
pub open spec fn decisions_check(plan: planner::PlanFacts) -> Result<(), PlanCompilationError> {
    if plan.cpu_thread_count == 0 {
        Err(PlanCompilationError::ZeroThreadCount)
    } else if plan.ram_budget_bytes == 0 {
        Err(PlanCompilationError::ZeroRamBudget)
    } else if plan.layer_cache.enabled != (plan.layer_cache.capacity_bytes > 0) {
        Err(PlanCompilationError::LayerCacheStateInconsistent)
    } else {
        match plan.strategy {
            StrategyId::CpuLayerStreaming => if plan.gpu.enabled
                || plan.gpu.selected_device_id is Some || plan.gpu.preference
                == GpuPreference::Require {
                Err(PlanCompilationError::InconsistentGpuDecision)
            } else {
                Ok(())
            },
            StrategyId::GpuLayerOffload => if !plan.gpu.enabled
                || plan.gpu.selected_device_id is None || plan.gpu.preference
                == GpuPreference::Disabled {
                Err(PlanCompilationError::InconsistentGpuDecision)
            } else {
                Err(PlanCompilationError::UnsupportedGpuExecution)
            },
        }
    }
}

pub fn validate_concrete_decisions(plan: &ExecutionPlan) -> (result: Result<(), PlanCompilationError>)
    ensures
        result == decisions_check(plan@),
{
    if plan.cpu_thread_count == 0 {
        return Err(PlanCompilationError::ZeroThreadCount);
    }
    if plan.ram_budget_bytes == 0 {
        return Err(PlanCompilationError::ZeroRamBudget);
    }
    if plan.layer_cache.enabled != (plan.layer_cache.capacity_bytes > 0) {
        return Err(PlanCompilationError::LayerCacheStateInconsistent);
    }
    match plan.strategy {
        StrategyId::CpuLayerStreaming => {
            if plan.gpu.enabled || plan.gpu.selected_device_id.is_some() || plan.gpu.preference
                == GpuPreference::Require {
                return Err(PlanCompilationError::InconsistentGpuDecision);
            }
            Ok(())
        },
        StrategyId::GpuLayerOffload => {
            if !plan.gpu.enabled || plan.gpu.selected_device_id.is_none() || plan.gpu.preference
                == GpuPreference::Disabled {
                return Err(PlanCompilationError::InconsistentGpuDecision);
            }
            Err(PlanCompilationError::UnsupportedGpuExecution)
        },
    }
}

pub open spec fn context_error(component: &'static str) -> Result<(), PlanCompilationError> {
    Err(PlanCompilationError::InvalidContext { component })
}

/// The profiles are valid and the capabilities are theirs.
pub open spec fn context_check(context: PlanCompilationContext<'_>) -> Result<
    (),
    PlanCompilationError,
> {
    if profiles::machine_check(*context.machine) is Err {
        context_error("machine profile")
    } else if profiles::model_check(*context.model) is Err {
        context_error("model profile")
    } else if profiles::storage_check(*context.storage) is Err {
        context_error("storage profile")
    } else if context.capabilities@ != profiles::derived_capabilities(
        *context.machine,
        *context.model,
        *context.storage,
        *context.static_plan,
    ) {
        context_error("capability set does not match current profiles and static plan")
    } else {
        Ok(())
    }
}

fn validate_context(context: PlanCompilationContext<'_>) -> (result: Result<
    (),
    PlanCompilationError,
>)
    ensures
        result == context_check(context),
{
    if context.machine.validate().is_err() {
        return Err(PlanCompilationError::InvalidContext { component: "machine profile" });
    }
    if context.model.validate().is_err() {
        return Err(PlanCompilationError::InvalidContext { component: "model profile" });
    }
    if context.storage.validate().is_err() {
        return Err(PlanCompilationError::InvalidContext { component: "storage profile" });
    }
    let derived = CapabilitySet::derive(
        context.machine,
        context.model,
        context.storage,
        context.static_plan,
    );
    if !context.capabilities.same_as(&derived) {
        return Err(
            PlanCompilationError::InvalidContext {
                component: "capability set does not match current profiles and static plan",
            },
        );
    }
    Ok(())
}

pub open spec fn binding_error(binding: &'static str) -> Result<(), PlanCompilationError> {
    Err(PlanCompilationError::BindingMismatch { binding })
}

/// The plan was made for this machine, model, storage and path.
pub open spec fn bindings_check(
    plan: planner::PlanFacts,
    context: PlanCompilationContext<'_>,
) -> Result<(), PlanCompilationError> {
    if plan.binding.machine_fingerprint != profiles::machine_fingerprint(*context.machine) {
        binding_error("machine fingerprint")
    } else if plan.binding.model_descriptor_fingerprint
        != context.model.identity.descriptor_fingerprint {
        binding_error("model descriptor fingerprint")
    } else if plan.binding.storage_fingerprint != profiles::storage_fingerprint(
        *context.storage,
    ) {
        binding_error("storage fingerprint")
    } else if paths::path_of(plan.binding.model_path) != paths::path_of(
        context.storage.model_path@,
    ) {
        binding_error("model path")
    } else {
        Ok(())
    }
}

fn validate_bindings(plan: &ExecutionPlan, context: PlanCompilationContext<'_>) -> (result: Result<
    (),
    PlanCompilationError,
>)
    ensures
        result == bindings_check(plan@, context),
{
    if plan.binding.machine_fingerprint != context.machine.fingerprint() {
        return Err(PlanCompilationError::BindingMismatch { binding: "machine fingerprint" });
    }
    if plan.binding.model_descriptor_fingerprint != context.model.identity.descriptor_fingerprint {
        return Err(
            PlanCompilationError::BindingMismatch { binding: "model descriptor fingerprint" },
        );
    }
    if plan.binding.storage_fingerprint != context.storage.fingerprint() {
        return Err(PlanCompilationError::BindingMismatch { binding: "storage fingerprint" });
    }
    if !paths::same_path(plan.binding.model_path.as_str(), context.storage.model_path.as_str()) {
        return Err(PlanCompilationError::BindingMismatch { binding: "model path" });
    }
    Ok(())
}

pub open spec fn static_error<T>(field: &'static str) -> Result<T, PlanCompilationError> {
    Err(PlanCompilationError::StaticPlanMismatch { field })
}

/// The static plan was made for this plan and model, and holds a preflight.
pub open spec fn static_check(plan: planner::PlanFacts, context: PlanCompilationContext<'_>) -> Result<
    ExecutionMemoryPlan,
    PlanCompilationError,
> {
    let fixed = context.static_plan;
    if fixed.ram_requested != plan.ram_budget_bytes {
        static_error("RAM budget")
    } else if fixed.file_size != context.model.file_size_bytes {
        static_error("model file size")
    } else if fixed.tensor_count != context.model.tensor_count {
        static_error("tensor count")
    } else if text::text_option(fixed.architecture) != text::text_option(
        context.model.architecture,
    ) {
        static_error("architecture")
    } else if context.storage.file_size_bytes != Some(context.model.file_size_bytes) {
        static_error("storage/model file size")
    } else if fixed.execution_memory is Some && fixed.execution_preflight_error is Some {
        static_error("execution preflight state")
    } else {
        match fixed.execution_memory {
            Some(execution) => Ok(execution),
            None => Err(PlanCompilationError::ExecutionPreflightUnavailable),
        }
    }
}

fn validate_static_plan(plan: &ExecutionPlan, context: PlanCompilationContext<'_>) -> (result:
    Result<ExecutionMemoryPlan, PlanCompilationError>)
    ensures
        result == static_check(plan@, context),
{
    if context.static_plan.ram_requested != plan.ram_budget_bytes {
        return Err(PlanCompilationError::StaticPlanMismatch { field: "RAM budget" });
    }
    if context.static_plan.file_size != context.model.file_size_bytes {
        return Err(PlanCompilationError::StaticPlanMismatch { field: "model file size" });
    }
    if context.static_plan.tensor_count != context.model.tensor_count {
        return Err(PlanCompilationError::StaticPlanMismatch { field: "tensor count" });
    }
    if !text::same_option(&context.static_plan.architecture, &context.model.architecture) {
        return Err(PlanCompilationError::StaticPlanMismatch { field: "architecture" });
    }
    if context.storage.file_size_bytes != Some(context.model.file_size_bytes) {
        return Err(PlanCompilationError::StaticPlanMismatch { field: "storage/model file size" });
    }
    if context.static_plan.execution_memory.is_some()
        && context.static_plan.execution_preflight_error.is_some() {
        return Err(PlanCompilationError::StaticPlanMismatch { field: "execution preflight state" });
    }
    match context.static_plan.execution_memory {
        Some(execution) => Ok(execution),
        None => Err(PlanCompilationError::ExecutionPreflightUnavailable),
    }
}

pub open spec fn reservation_error(field: &'static str) -> Result<(), PlanCompilationError> {
    Err(PlanCompilationError::ReservationMismatch { field })
}

/// The machine still has what the plan asks for.
pub open spec fn limits_check(plan: planner::PlanFacts, context: PlanCompilationContext<'_>) -> Result<
    (),
    PlanCompilationError,
> {
    let machine = context.machine;
    let budget = plan.ram_budget_bytes;
    if plan.cpu_thread_count > machine.logical_cpu_cores {
        Err(
            PlanCompilationError::ThreadCountExceedsLimit {
                requested: plan.cpu_thread_count,
                limit: machine.logical_cpu_cores,
            },
        )
    } else if machine.total_ram_bytes is None {
        context_error("machine total RAM is unavailable")
    } else if machine.available_ram_bytes is None {
        context_error("machine available RAM is unavailable")
    } else if budget > machine.total_ram_bytes->0 {
        Err(
            PlanCompilationError::RamBudgetExceedsTotalRam {
                requested: budget,
                limit: machine.total_ram_bytes->0,
            },
        )
    } else if plan.reservations.available_ram_bytes_at_planning > machine.total_ram_bytes->0 {
        reservation_error("available RAM at planning exceeds total RAM")
    } else if budget > machine.available_ram_bytes->0 {
        Err(
            PlanCompilationError::RamBudgetExceedsAvailableRam {
                requested: budget,
                limit: machine.available_ram_bytes->0,
            },
        )
    } else if !context.capabilities.storage_usable {
        Err(PlanCompilationError::StorageUnavailable)
    } else if !context.capabilities.cpu_backend_usable {
        Err(PlanCompilationError::CpuExecutionUnavailable)
    } else if !context.capabilities.model_execution_compatible {
        Err(PlanCompilationError::ModelExecutionUnavailable)
    } else {
        Ok(())
    }
}

fn validate_resource_limits(plan: &ExecutionPlan, context: PlanCompilationContext<'_>) -> (result:
    Result<(), PlanCompilationError>)
    ensures
        result == limits_check(plan@, context),
{
    if plan.cpu_thread_count > context.machine.logical_cpu_cores {
        return Err(
            PlanCompilationError::ThreadCountExceedsLimit {
                requested: plan.cpu_thread_count,
                limit: context.machine.logical_cpu_cores,
            },
        );
    }
    let total_ram: u64 = match context.machine.total_ram_bytes {
        Some(total) => total,
        None => {
            return Err(
                PlanCompilationError::InvalidContext {
                    component: "machine total RAM is unavailable",
                },
            );
        },
    };
    let available_ram: u64 = match context.machine.available_ram_bytes {
        Some(available) => available,
        None => {
            return Err(
                PlanCompilationError::InvalidContext {
                    component: "machine available RAM is unavailable",
                },
            );
        },
    };
    if plan.ram_budget_bytes > total_ram {
        return Err(
            PlanCompilationError::RamBudgetExceedsTotalRam {
                requested: plan.ram_budget_bytes,
                limit: total_ram,
            },
        );
    }
    if plan.reservations.available_ram_bytes_at_planning > total_ram {
        return Err(
            PlanCompilationError::ReservationMismatch {
                field: "available RAM at planning exceeds total RAM",
            },
        );
    }
    if plan.ram_budget_bytes > available_ram {
        return Err(
            PlanCompilationError::RamBudgetExceedsAvailableRam {
                requested: plan.ram_budget_bytes,
                limit: available_ram,
            },
        );
    }
    if !context.capabilities.storage_usable {
        return Err(PlanCompilationError::StorageUnavailable);
    }
    if !context.capabilities.cpu_backend_usable {
        return Err(PlanCompilationError::CpuExecutionUnavailable);
    }
    if !context.capabilities.model_execution_compatible {
        return Err(PlanCompilationError::ModelExecutionUnavailable);
    }
    Ok(())
}

/// The plan's reservations are those of the static plan.
pub open spec fn reservations_check(plan: planner::PlanFacts, execution: ExecutionMemoryPlan) -> Result<
    (),
    PlanCompilationError,
> {
    let reserved = plan.reservations;
    let budget = plan.ram_budget_bytes;
    if !execution.layer_streaming_lower_bound_fits || execution.managed_lower_bound_bytes
        > budget {
        Err(
            PlanCompilationError::ManagedMemoryLowerBoundExceedsBudget {
                lower_bound_bytes: execution.managed_lower_bound_bytes,
                ram_budget_bytes: budget,
            },
        )
    } else if reserved.available_ram_bytes_at_planning < budget {
        reservation_error("available RAM at planning")
    } else if reserved.persistent_resident_bytes != execution.persistent_resident_bytes {
        reservation_error("persistent resident bytes")
    } else if reserved.persistent_startup_peak_bytes != execution.persistent_startup_peak_bytes {
        reservation_error("persistent startup peak bytes")
    } else if reserved.largest_layer_load_peak_bytes != execution.largest_layer_load_peak_bytes {
        reservation_error("largest layer load peak bytes")
    } else if reserved.managed_lower_bound_bytes != execution.managed_lower_bound_bytes {
        reservation_error("managed-memory lower bound")
    } else if reserved.remaining_budget_after_lower_bound_bytes != budget
        - reserved.managed_lower_bound_bytes {
        reservation_error("remaining budget after lower bound")
    } else if execution.layer_cache_capacity_bytes != budget
        - reserved.managed_lower_bound_bytes {
        static_error("layer-cache capacity/lower-bound relationship")
    } else {
        Ok(())
    }
}

fn validate_reservations(plan: &ExecutionPlan, execution: &ExecutionMemoryPlan) -> (result: Result<
    (),
    PlanCompilationError,
>)
    ensures
        result == reservations_check(plan@, *execution),
{
    if !execution.layer_streaming_lower_bound_fits || execution.managed_lower_bound_bytes
        > plan.ram_budget_bytes {
        return Err(
            PlanCompilationError::ManagedMemoryLowerBoundExceedsBudget {
                lower_bound_bytes: execution.managed_lower_bound_bytes,
                ram_budget_bytes: plan.ram_budget_bytes,
            },
        );
    }
    if plan.reservations.available_ram_bytes_at_planning < plan.ram_budget_bytes {
        return Err(
            PlanCompilationError::ReservationMismatch { field: "available RAM at planning" },
        );
    }
    if plan.reservations.persistent_resident_bytes != execution.persistent_resident_bytes {
        return Err(
            PlanCompilationError::ReservationMismatch { field: "persistent resident bytes" },
        );
    }
    if plan.reservations.persistent_startup_peak_bytes
        != execution.persistent_startup_peak_bytes {
        return Err(
            PlanCompilationError::ReservationMismatch { field: "persistent startup peak bytes" },
        );
    }
    if plan.reservations.largest_layer_load_peak_bytes
        != execution.largest_layer_load_peak_bytes {
        return Err(
            PlanCompilationError::ReservationMismatch { field: "largest layer load peak bytes" },
        );
    }
    if plan.reservations.managed_lower_bound_bytes != execution.managed_lower_bound_bytes {
        return Err(
            PlanCompilationError::ReservationMismatch { field: "managed-memory lower bound" },
        );
    }
    let remaining: u64 = plan.ram_budget_bytes - plan.reservations.managed_lower_bound_bytes;
    if plan.reservations.remaining_budget_after_lower_bound_bytes != remaining {
        return Err(
            PlanCompilationError::ReservationMismatch {
                field: "remaining budget after lower bound",
            },
        );
    }
    if execution.layer_cache_capacity_bytes != remaining {
        return Err(
            PlanCompilationError::StaticPlanMismatch {
                field: "layer-cache capacity/lower-bound relationship",
            },
        );
    }
    Ok(())
}

/// An enabled cache is possible, within its limit and able to hold a layer.
pub open spec fn cache_check(
    plan: planner::PlanFacts,
    capabilities: CapabilitySet,
    execution: ExecutionMemoryPlan,
) -> Result<(), PlanCompilationError> {
    let capacity = plan.layer_cache.capacity_bytes;
    if !plan.layer_cache.enabled {
        Ok(())
    } else if !capabilities.layer_cache_possible {
        Err(PlanCompilationError::LayerCacheUnavailable)
    } else if capacity > execution.layer_cache_capacity_bytes {
        Err(
            PlanCompilationError::LayerCacheCapacityExceedsLimit {
                requested: capacity,
                limit: execution.layer_cache_capacity_bytes,
            },
        )
    } else if capacity < execution.min_layer_resident_bytes {
        Err(
            PlanCompilationError::LayerCacheCapacityCannotFitLayer {
                requested: capacity,
                minimum: execution.min_layer_resident_bytes,
            },
        )
    } else {
        Ok(())
    }
}

fn validate_cache(
    plan: &ExecutionPlan,
    capabilities: &CapabilitySet,
    execution: &ExecutionMemoryPlan,
) -> (result: Result<(), PlanCompilationError>)
    ensures
        result == cache_check(plan@, *capabilities, *execution),
{
    if !plan.layer_cache.enabled {
        return Ok(());
    }
    if !capabilities.layer_cache_possible {
        return Err(PlanCompilationError::LayerCacheUnavailable);
    }
    if plan.layer_cache.capacity_bytes > execution.layer_cache_capacity_bytes {
        return Err(
            PlanCompilationError::LayerCacheCapacityExceedsLimit {
                requested: plan.layer_cache.capacity_bytes,
                limit: execution.layer_cache_capacity_bytes,
            },
        );
    }
    if plan.layer_cache.capacity_bytes < execution.min_layer_resident_bytes {
        return Err(
            PlanCompilationError::LayerCacheCapacityCannotFitLayer {
                requested: plan.layer_cache.capacity_bytes,
                minimum: execution.min_layer_resident_bytes,
            },
        );
    }
    Ok(())
}

/// Read optimizations are possible where the plan uses them.
pub open spec fn io_check(plan: planner::PlanFacts, capabilities: CapabilitySet) -> Result<
    (),
    PlanCompilationError,
> {
    if plan.io.read_coalescing_enabled && !capabilities.read_coalescing_possible {
        Err(PlanCompilationError::ReadCoalescingUnavailable)
    } else if plan.io.grouped_read_buffer_reuse_enabled
        && !capabilities.grouped_read_buffer_reuse_possible {
        Err(PlanCompilationError::GroupedReadBufferReuseUnavailable)
    } else {
        Ok(())
    }
}

fn validate_io(plan: &ExecutionPlan, capabilities: &CapabilitySet) -> (result: Result<
    (),
    PlanCompilationError,
>)
    ensures
        result == io_check(plan@, *capabilities),
{
    if plan.io.read_coalescing_enabled && !capabilities.read_coalescing_possible {
        return Err(PlanCompilationError::ReadCoalescingUnavailable);
    }
    if plan.io.grouped_read_buffer_reuse_enabled
        && !capabilities.grouped_read_buffer_reuse_possible {
        return Err(PlanCompilationError::GroupedReadBufferReuseUnavailable);
    }
    Ok(())
}

/// Every check before materialization, first failure first.
pub open spec fn compilation_check(
    plan: planner::PlanFacts,
    context: PlanCompilationContext<'_>,
) -> Result<(), PlanCompilationError> {
    if header_check(plan) is Err {
        header_check(plan)
    } else if decisions_check(plan) is Err {
        decisions_check(plan)
    } else if context_check(context) is Err {
        context_check(context)
    } else if bindings_check(plan, context) is Err {
        bindings_check(plan, context)
    } else {
        match static_check(plan, context) {
            Err(error) => Err(error),
            Ok(execution) => if limits_check(plan, context) is Err {
                limits_check(plan, context)
            } else if reservations_check(plan, execution) is Err {
                reservations_check(plan, execution)
            } else if cache_check(plan, *context.capabilities, execution) is Err {
                cache_check(plan, *context.capabilities, execution)
            } else {
                io_check(plan, *context.capabilities)
            },
        }
    }
}

/// The configuration that carries the plan's decisions unchanged.
pub open spec fn planned_config(plan: planner::PlanFacts) -> RuntimeConfig {
    RuntimeConfig {
        cpu_thread_count: plan.cpu_thread_count,
        ram_budget_bytes: plan.ram_budget_bytes,
        layer_cache_enabled: plan.layer_cache.enabled,
        layer_cache_capacity_bytes: plan.layer_cache.capacity_bytes,
        read_coalescing_enabled: plan.io.read_coalescing_enabled,
        grouped_read_buffer_reuse_enabled: plan.io.grouped_read_buffer_reuse_enabled,
        execution_device: RuntimeExecutionDevice::Cpu,
    }
}

pub open spec fn compiled(plan: planner::PlanFacts, context: PlanCompilationContext<'_>) -> Result<
    RuntimeConfig,
    PlanCompilationError,
> {
    match compilation_check(plan, context) {
        Err(error) => Err(error),
        Ok(_) => match runtime_config::config_check(planned_config(plan)) {
            Ok(_) => Ok(planned_config(plan)),
            Err(error) => Err(PlanCompilationError::InvalidRuntimeConfig(error)),
        },
    }
}

#[derive(Debug, Default, Clone, Copy)]
pub struct PlanCompiler;

impl PlanCompiler {
    /// Validate only execution safety, bindings, capabilities, and exact
    /// materialization constraints. Planner mode, reasons, calibration
    /// provenance, and cost annotations are deliberately not reinterpreted.
    pub fn compile(&self, plan: &ExecutionPlan, context: PlanCompilationContext<'_>) -> (result:
        Result<RuntimeConfig, PlanCompilationError>)
        ensures
            result == compiled(plan@, context),
    {
        validate_plan_header(plan)?;
        validate_concrete_decisions(plan)?;
        validate_context(context)?;
        validate_bindings(plan, context)?;
        let execution = validate_static_plan(plan, context)?;
        validate_resource_limits(plan, context)?;
        validate_reservations(plan, &execution)?;
        validate_cache(plan, context.capabilities, &execution)?;
        validate_io(plan, context.capabilities)?;
        match RuntimeConfig::new(
            plan.cpu_thread_count,
            plan.ram_budget_bytes,
            plan.layer_cache.enabled,
            plan.layer_cache.capacity_bytes,
            plan.io.read_coalescing_enabled,
            plan.io.grouped_read_buffer_reuse_enabled,
        ) {
            Ok(config) => Ok(config),
            Err(error) => Err(PlanCompilationError::InvalidRuntimeConfig(error)),
        }
    }
}

/// A plan that passes every check also passes the runtime's own: the compiler
/// never reports an invalid runtime configuration, and what it returns is the
/// plan's decisions unchanged.
pub proof fn lemma_compiled_config_valid(
    plan: planner::PlanFacts,
    context: PlanCompilationContext<'_>,
)
    requires
        compilation_check(plan, context) is Ok,
    ensures
        compiled(plan, context) == Ok::<RuntimeConfig, PlanCompilationError>(planned_config(plan)),
        runtime_config::config_check(planned_config(plan)) is Ok,
{
}

/// What the planner plans, the compiler accepts: a plan made from profiles and a
/// static plan of the model compiles in that same context, to the decisions it
/// holds, wherever the storage reports the model's size.
pub proof fn lemma_planned_compiles(
    inputs: planner::PlanInputs,
    source: crate::gguf::GgufModel,
    plan: planner::PlanFacts,
)
    requires
        planner::execution_plan(inputs) == Ok::<planner::PlanFacts, profiles::PlannerError>(plan),
        plan::is_plan_of(inputs.static_plan, source, inputs.user.ram_budget_bytes),
        inputs.storage.file_size_bytes == Some(inputs.model.file_size_bytes),
    ensures
        compiled(
            plan,
            PlanCompilationContext {
                machine: &inputs.machine,
                model: &inputs.model,
                storage: &inputs.storage,
                capabilities: &inputs.capabilities,
                static_plan: &inputs.static_plan,
            },
        ) == Ok::<RuntimeConfig, PlanCompilationError>(planned_config(plan)),
{
    planner::lemma_plan_within_limits(inputs);
    assert(plan.gpu.selected_device_id is None);
    let context = PlanCompilationContext {
        machine: &inputs.machine,
        model: &inputs.model,
        storage: &inputs.storage,
        capabilities: &inputs.capabilities,
        static_plan: &inputs.static_plan,
    };
    assert(header_check(plan) is Ok);
    assert(decisions_check(plan) is Ok);
    assert(context_check(context) is Ok);
    assert(bindings_check(plan, context) is Ok);
    assert(static_check(plan, context) is Ok);
    assert(limits_check(plan, context) is Ok);
    assert(reservations_check(plan, static_check(plan, context)->Ok_0) is Ok);
    assert(cache_check(plan, inputs.capabilities, static_check(plan, context)->Ok_0) is Ok);
    assert(io_check(plan, inputs.capabilities) is Ok);
}

/// When a plan compiles: it is of the current versions, its decisions agree with
/// one another and run on the CPU, the context is valid and the one it was made
/// for, the budget and the threads are there, its reservations are those of the
/// static plan, and what it turns on is possible. What comes out are its
/// decisions.
pub proof fn lemma_compiles(plan: planner::PlanFacts, context: PlanCompilationContext<'_>)
    ensures
        ({
            let result = compiled(plan, context);
            let machine = context.machine;
            let model = context.model;
            let storage = context.storage;
            let fixed = context.static_plan;
            let can = context.capabilities;
            let execution = fixed.execution_memory->0;
            let held = plan.reservations;
            let budget = plan.ram_budget_bytes;
            let cache = plan.layer_cache;
            &&& result is Ok <==> {
                &&& plan.schema_version == 1 && plan.ruleset_version == 1
                &&& plan.cpu_thread_count > 0 && budget > 0
                &&& cache.enabled <==> cache.capacity_bytes > 0
                &&& plan.strategy == StrategyId::CpuLayerStreaming
                &&& !plan.gpu.enabled && plan.gpu.selected_device_id is None && plan.gpu.preference
                    != GpuPreference::Require
                &&& profiles::machine_check(*machine) is Ok && profiles::model_check(*model) is Ok
                    && profiles::storage_check(*storage) is Ok
                &&& can@ == profiles::derived_capabilities(*machine, *model, *storage, *fixed)
                &&& plan.binding.machine_fingerprint == profiles::machine_fingerprint(*machine)
                &&& plan.binding.model_descriptor_fingerprint
                    == model.identity.descriptor_fingerprint
                &&& plan.binding.storage_fingerprint == profiles::storage_fingerprint(*storage)
                &&& paths::path_of(plan.binding.model_path) == paths::path_of(storage.model_path@)
                &&& fixed.ram_requested == budget
                &&& fixed.file_size == model.file_size_bytes
                &&& fixed.tensor_count == model.tensor_count
                &&& text::text_option(fixed.architecture) == text::text_option(model.architecture)
                &&& storage.file_size_bytes == Some(model.file_size_bytes)
                &&& fixed.execution_memory is Some && fixed.execution_preflight_error is None
                &&& plan.cpu_thread_count <= machine.logical_cpu_cores
                &&& machine.total_ram_bytes is Some && budget <= machine.total_ram_bytes->0
                    && held.available_ram_bytes_at_planning <= machine.total_ram_bytes->0
                &&& machine.available_ram_bytes is Some && budget <= machine.available_ram_bytes->0
                &&& can.storage_usable && can.cpu_backend_usable && can.model_execution_compatible
                &&& execution.layer_streaming_lower_bound_fits
                    && execution.managed_lower_bound_bytes <= budget
                &&& held.available_ram_bytes_at_planning >= budget
                &&& held.persistent_resident_bytes == execution.persistent_resident_bytes
                &&& held.persistent_startup_peak_bytes == execution.persistent_startup_peak_bytes
                &&& held.largest_layer_load_peak_bytes == execution.largest_layer_load_peak_bytes
                &&& held.managed_lower_bound_bytes == execution.managed_lower_bound_bytes
                &&& held.remaining_budget_after_lower_bound_bytes + held.managed_lower_bound_bytes
                    == budget
                &&& execution.layer_cache_capacity_bytes + execution.managed_lower_bound_bytes
                    == budget
                &&& cache.enabled ==> can.layer_cache_possible && execution.min_layer_resident_bytes
                    <= cache.capacity_bytes <= execution.layer_cache_capacity_bytes
                &&& plan.io.read_coalescing_enabled ==> can.read_coalescing_possible
                &&& plan.io.grouped_read_buffer_reuse_enabled
                    ==> can.grouped_read_buffer_reuse_possible
            }
            &&& result matches Ok(config) ==> {
                &&& config.cpu_thread_count == plan.cpu_thread_count
                &&& config.ram_budget_bytes == plan.ram_budget_bytes
                &&& config.layer_cache_enabled == cache.enabled
                &&& config.layer_cache_capacity_bytes == cache.capacity_bytes
                &&& config.read_coalescing_enabled == plan.io.read_coalescing_enabled
                &&& config.grouped_read_buffer_reuse_enabled
                    == plan.io.grouped_read_buffer_reuse_enabled
                &&& config.execution_device == RuntimeExecutionDevice::Cpu
            }
        }),
{
    if compilation_check(plan, context) is Ok {
        lemma_compiled_config_valid(plan, context);
    }
}

/// What a refusal says: the limit that is exceeded and by what, or what is not
/// there.
pub proof fn lemma_compilation_refusals(
    plan: planner::PlanFacts,
    context: PlanCompilationContext<'_>,
)
    requires
        compiled(plan, context) is Err,
    ensures
        ({
            let machine = context.machine;
            let execution = context.static_plan.execution_memory;
            let can = context.capabilities;
            let budget = plan.ram_budget_bytes;
            match compiled(plan, context)->Err_0 {
                PlanCompilationError::UnsupportedSchemaVersion { found, supported } => found
                    == plan.schema_version && supported == 1 && found != supported,
                PlanCompilationError::UnsupportedRulesetVersion { found, supported } => found
                    == plan.ruleset_version && supported == 1 && found != supported,
                PlanCompilationError::ZeroThreadCount => plan.cpu_thread_count == 0,
                PlanCompilationError::ZeroRamBudget => budget == 0,
                PlanCompilationError::LayerCacheStateInconsistent => plan.layer_cache.enabled != (
                plan.layer_cache.capacity_bytes > 0),
                PlanCompilationError::UnsupportedGpuExecution => plan.strategy
                    == StrategyId::GpuLayerOffload && plan.gpu.enabled,
                PlanCompilationError::ThreadCountExceedsLimit { requested, limit } => requested
                    == plan.cpu_thread_count && limit == machine.logical_cpu_cores && requested
                    > limit,
                PlanCompilationError::RamBudgetExceedsTotalRam { requested, limit } => requested
                    == budget && machine.total_ram_bytes == Some(limit) && requested > limit,
                PlanCompilationError::RamBudgetExceedsAvailableRam { requested, limit } => requested
                    == budget && machine.available_ram_bytes == Some(limit) && requested > limit,
                PlanCompilationError::StorageUnavailable => !can.storage_usable,
                PlanCompilationError::CpuExecutionUnavailable => !can.cpu_backend_usable,
                PlanCompilationError::ModelExecutionUnavailable => !can.model_execution_compatible,
                PlanCompilationError::ExecutionPreflightUnavailable => execution is None,
                PlanCompilationError::ManagedMemoryLowerBoundExceedsBudget {
                    lower_bound_bytes,
                    ram_budget_bytes,
                } => execution is Some && lower_bound_bytes
                    == execution->0.managed_lower_bound_bytes && ram_budget_bytes == budget && (
                lower_bound_bytes > ram_budget_bytes
                    || !execution->0.layer_streaming_lower_bound_fits),
                PlanCompilationError::LayerCacheUnavailable => plan.layer_cache.enabled
                    && !can.layer_cache_possible,
                PlanCompilationError::LayerCacheCapacityExceedsLimit { requested, limit } =>
                    execution is Some && requested == plan.layer_cache.capacity_bytes && limit
                    == execution->0.layer_cache_capacity_bytes && requested > limit,
                PlanCompilationError::LayerCacheCapacityCannotFitLayer { requested, minimum } =>
                    execution is Some && requested == plan.layer_cache.capacity_bytes && minimum
                    == execution->0.min_layer_resident_bytes && requested < minimum,
                PlanCompilationError::ReadCoalescingUnavailable => plan.io.read_coalescing_enabled
                    && !can.read_coalescing_possible,
                PlanCompilationError::GroupedReadBufferReuseUnavailable =>
                    plan.io.grouped_read_buffer_reuse_enabled
                    && !can.grouped_read_buffer_reuse_possible,
                PlanCompilationError::InvalidRuntimeConfig(_) => false,
                _ => true,
            }
        }),
{
    if compilation_check(plan, context) is Ok {
        lemma_compiled_config_valid(plan, context);
    }
}

/// What is wrong with the plan itself is reported before anything else, and in this
/// order: its versions, its threads, its budget, its cache and its device.
pub proof fn lemma_plan_refused_first(
    plan: planner::PlanFacts,
    context: PlanCompilationContext<'_>,
)
    ensures
        ({
            let result = compiled(plan, context);
            let versions = plan.schema_version == 1 && plan.ruleset_version == 1;
            let counted = versions && plan.cpu_thread_count > 0;
            let budgeted = counted && plan.ram_budget_bytes > 0;
            let cached = budgeted && (plan.layer_cache.enabled <==> plan.layer_cache.capacity_bytes
                > 0);
            let device = plan.gpu.enabled || plan.gpu.selected_device_id is Some;
            &&& plan.schema_version != 1 ==> result is Err && result->Err_0 is UnsupportedSchemaVersion
            &&& plan.schema_version == 1 && plan.ruleset_version != 1 ==> result is Err && result->Err_0 is UnsupportedRulesetVersion
            &&& versions && plan.cpu_thread_count == 0 ==> result is Err && result->Err_0 is ZeroThreadCount
            &&& counted && plan.ram_budget_bytes == 0 ==> result is Err && result->Err_0 is ZeroRamBudget
            &&& budgeted && !cached ==> result is Err && result->Err_0 is LayerCacheStateInconsistent
            &&& cached && plan.strategy == StrategyId::CpuLayerStreaming && (device
                || plan.gpu.preference == GpuPreference::Require) ==> result is Err && result->Err_0 is InconsistentGpuDecision
            &&& cached && plan.strategy == StrategyId::GpuLayerOffload ==> result is Err && (result->Err_0 is UnsupportedGpuExecution || result->Err_0 is InconsistentGpuDecision) && (result->Err_0 is UnsupportedGpuExecution <==> plan.gpu.enabled && plan.gpu.selected_device_id
                is Some && plan.gpu.preference != GpuPreference::Disabled)
        }),
{
}

/// The plan itself can be run.
pub open spec fn decided(plan: planner::PlanFacts) -> bool {
    &&& plan.schema_version == 1 && plan.ruleset_version == 1
    &&& plan.cpu_thread_count > 0 && plan.ram_budget_bytes > 0
    &&& plan.layer_cache.enabled <==> plan.layer_cache.capacity_bytes > 0
    &&& plan.strategy == StrategyId::CpuLayerStreaming
    &&& !plan.gpu.enabled && plan.gpu.selected_device_id is None && plan.gpu.preference
        != GpuPreference::Require
}

/// The profiles make sense and the capabilities are those of them.
pub open spec fn sound_context(context: PlanCompilationContext<'_>) -> bool {
    &&& profiles::machine_check(*context.machine) is Ok
    &&& profiles::model_check(*context.model) is Ok
    &&& profiles::storage_check(*context.storage) is Ok
    &&& context.capabilities@ == profiles::derived_capabilities(
        *context.machine,
        *context.model,
        *context.storage,
        *context.static_plan,
    )
}

/// The plan was made for these profiles.
pub open spec fn bound(plan: planner::PlanFacts, context: PlanCompilationContext<'_>) -> bool {
    &&& plan.binding.machine_fingerprint == profiles::machine_fingerprint(*context.machine)
    &&& plan.binding.model_descriptor_fingerprint == context.model.identity.descriptor_fingerprint
    &&& plan.binding.storage_fingerprint == profiles::storage_fingerprint(*context.storage)
    &&& paths::path_of(plan.binding.model_path) == paths::path_of(context.storage.model_path@)
}

/// The static plan is one of this model under this budget.
pub open spec fn fixed_for(plan: planner::PlanFacts, context: PlanCompilationContext<'_>) -> bool {
    let fixed = context.static_plan;
    &&& fixed.ram_requested == plan.ram_budget_bytes
    &&& fixed.file_size == context.model.file_size_bytes
    &&& fixed.tensor_count == context.model.tensor_count
    &&& text::text_option(fixed.architecture) == text::text_option(context.model.architecture)
    &&& context.storage.file_size_bytes == Some(context.model.file_size_bytes)
}

/// The profiles are looked at next, then what binds the plan to them, then the static
/// plan; each refusal names the first thing that is wrong.
pub proof fn lemma_context_refused(plan: planner::PlanFacts, context: PlanCompilationContext<'_>)
    requires
        decided(plan),
    ensures
        ({
            let result = compiled(plan, context);
            let invalid = |component: &'static str|
                Err::<RuntimeConfig, PlanCompilationError>(
                    PlanCompilationError::InvalidContext { component },
                );
            let machine = profiles::machine_check(*context.machine) is Ok;
            let model = machine && profiles::model_check(*context.model) is Ok;
            let storage = model && profiles::storage_check(*context.storage) is Ok;
            &&& !machine ==> result == invalid("machine profile")
            &&& machine && !model ==> result == invalid("model profile")
            &&& model && !storage ==> result == invalid("storage profile")
            &&& storage && !sound_context(context) ==> result is Err && result->Err_0 is InvalidContext
        }),
{
}

/// A plan for other profiles is refused with the first thing that binds it elsewhere.
pub proof fn lemma_binding_refused(plan: planner::PlanFacts, context: PlanCompilationContext<'_>)
    requires
        decided(plan),
        sound_context(context),
    ensures
        ({
            let result = compiled(plan, context);
            let elsewhere = |binding: &'static str|
                Err::<RuntimeConfig, PlanCompilationError>(
                    PlanCompilationError::BindingMismatch { binding },
                );
            let machine = plan.binding.machine_fingerprint == profiles::machine_fingerprint(
                *context.machine,
            );
            let model = machine && plan.binding.model_descriptor_fingerprint
                == context.model.identity.descriptor_fingerprint;
            let storage = model && plan.binding.storage_fingerprint
                == profiles::storage_fingerprint(*context.storage);
            &&& !machine ==> result == elsewhere("machine fingerprint")
            &&& machine && !model ==> result == elsewhere("model descriptor fingerprint")
            &&& model && !storage ==> result == elsewhere("storage fingerprint")
            &&& storage && !bound(plan, context) ==> result == elsewhere("model path")
        }),
{
}

/// A static plan of something else is refused with the first field that differs, and
/// one without a preflight for that.
pub proof fn lemma_static_refused(plan: planner::PlanFacts, context: PlanCompilationContext<'_>)
    requires
        decided(plan),
        sound_context(context),
        bound(plan, context),
    ensures
        ({
            let result = compiled(plan, context);
            let fixed = context.static_plan;
            let differs = |field: &'static str|
                Err::<RuntimeConfig, PlanCompilationError>(
                    PlanCompilationError::StaticPlanMismatch { field },
                );
            let budget = fixed.ram_requested == plan.ram_budget_bytes;
            let size = budget && fixed.file_size == context.model.file_size_bytes;
            let tensors = size && fixed.tensor_count == context.model.tensor_count;
            let architecture = tensors && text::text_option(fixed.architecture)
                == text::text_option(context.model.architecture);
            let whole = fixed_for(plan, context);
            &&& !budget ==> result == differs("RAM budget")
            &&& budget && !size ==> result == differs("model file size")
            &&& size && !tensors ==> result == differs("tensor count")
            &&& tensors && !architecture ==> result == differs("architecture")
            &&& architecture && !whole ==> result == differs("storage/model file size")
            &&& whole && fixed.execution_memory is Some && fixed.execution_preflight_error is Some
                ==> result == differs("execution preflight state")
            &&& whole && fixed.execution_memory is None ==> result is Err && result->Err_0 is ExecutionPreflightUnavailable
        }),
{
}

/// What the machine no longer has is reported in this order: threads, memory and what
/// can be done at all.
pub proof fn lemma_limits_refused(plan: planner::PlanFacts, context: PlanCompilationContext<'_>)
    requires
        decided(plan),
        sound_context(context),
        bound(plan, context),
        fixed_for(plan, context),
        context.static_plan.execution_memory is Some,
        context.static_plan.execution_preflight_error is None,
    ensures
        ({
            let result = compiled(plan, context);
            let machine = context.machine;
            let can = context.capabilities;
            let threads = plan.cpu_thread_count <= machine.logical_cpu_cores;
            let known = threads && machine.total_ram_bytes is Some && machine.available_ram_bytes
                is Some;
            let total = known && plan.ram_budget_bytes <= machine.total_ram_bytes->0;
            let planned = total && plan.reservations.available_ram_bytes_at_planning
                <= machine.total_ram_bytes->0;
            let available = planned && plan.ram_budget_bytes <= machine.available_ram_bytes->0;
            &&& !threads ==> result is Err && result->Err_0 is ThreadCountExceedsLimit
            &&& threads && !known ==> result is Err && result->Err_0 is InvalidContext
            &&& known && !total ==> result is Err && result->Err_0 is RamBudgetExceedsTotalRam
            &&& total && !planned ==> result is Err && result->Err_0 is ReservationMismatch
            &&& planned && !available ==> result is Err && result->Err_0 is RamBudgetExceedsAvailableRam
            &&& available && !can.storage_usable ==> result is Err && result->Err_0 is StorageUnavailable
            &&& available && can.storage_usable && !can.cpu_backend_usable ==> result is Err && result->Err_0 is CpuExecutionUnavailable
            &&& available && can.storage_usable && can.cpu_backend_usable
                && !can.model_execution_compatible ==> result is Err && result->Err_0 is ModelExecutionUnavailable
        }),
{
}

} // verus!
