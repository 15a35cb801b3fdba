//! Facts and preferences that planning starts from: the user's limits, the
//! machine, the model and its storage, and the capabilities they add up to.
//!
//! Nothing here detects hardware, measures or reads files.

use vstd::prelude::*;
use vstd::string::*;

use crate::fingerprint;
use crate::fingerprint::Fingerprint;
use crate::gguf;
use crate::gguf::{GgufModel, TensorDescriptor};
use crate::layer;
use crate::layer::group_layers;
use crate::layer_read;
use crate::layer_read::build_layer_read_plan;
use crate::plan::PlanResult;
use crate::support;
use crate::support::{architecture_capability, ggml_type_supported_for_inference, RunSupport};
use crate::text;

verus! {

pub const PROFILE_SCHEMA_VERSION: u32 = 1;

pub const EXECUTION_PLAN_SCHEMA_VERSION: u32 = 1;

pub const PLANNER_RULESET_VERSION: u32 = 1;

pub const CALIBRATION_PLAN_VERSION: u32 = 1;

pub const CALIBRATION_RULESET_VERSION: u32 = 1;

// GPU hardware may be represented in profiles, but there is no GPU execution
// backend yet. Capability derivation must not imply otherwise.
pub const GPU_EXECUTION_IMPLEMENTED: bool = false;

#[derive(Debug, Clone, Copy, PartialEq, Eq, Structural)]
pub enum FeasibilityRejection {
    AdvancedOverrideRequiresAdvancedMode,
    RamBudgetExceedsTotalRam,
    RamBudgetExceedsAvailableRam,
    StorageNotUsable,
    CpuBackendUnavailable,
    ModelNotExecutable,
    ExecutionPreflightUnavailable,
    StaticPlanDoesNotMatchProfiles,
    ManagedMemoryLowerBoundExceedsBudget,
    GpuRequiredButUnavailable,
    RequestedThreadCountUnavailable,
    LayerCacheRequiredButUnavailable,
    LayerCacheCapacityExceedsStaticCapacity,
    LayerCacheCapacityCannotFitCompleteLayer,
    ReadCoalescingRequiredButUnavailable,
    GroupedReadBufferReuseRequiredButUnavailable,
}

impl FeasibilityRejection {
    pub open spec fn spec_label(self) -> Seq<char> {
        match self {
            FeasibilityRejection::AdvancedOverrideRequiresAdvancedMode =>
                "AdvancedOverrideRequiresAdvancedMode"@,
            FeasibilityRejection::RamBudgetExceedsTotalRam => "RamBudgetExceedsTotalRam"@,
            FeasibilityRejection::RamBudgetExceedsAvailableRam => "RamBudgetExceedsAvailableRam"@,
            FeasibilityRejection::StorageNotUsable => "StorageNotUsable"@,
            FeasibilityRejection::CpuBackendUnavailable => "CpuBackendUnavailable"@,
            FeasibilityRejection::ModelNotExecutable => "ModelNotExecutable"@,
            FeasibilityRejection::ExecutionPreflightUnavailable => "ExecutionPreflightUnavailable"@,
            FeasibilityRejection::StaticPlanDoesNotMatchProfiles =>
                "StaticPlanDoesNotMatchProfiles"@,
            FeasibilityRejection::ManagedMemoryLowerBoundExceedsBudget =>
                "ManagedMemoryLowerBoundExceedsBudget"@,
            FeasibilityRejection::GpuRequiredButUnavailable => "GpuRequiredButUnavailable"@,
            FeasibilityRejection::RequestedThreadCountUnavailable =>
                "RequestedThreadCountUnavailable"@,
            FeasibilityRejection::LayerCacheRequiredButUnavailable =>
                "LayerCacheRequiredButUnavailable"@,
            FeasibilityRejection::LayerCacheCapacityExceedsStaticCapacity =>
                "LayerCacheCapacityExceedsStaticCapacity"@,
            FeasibilityRejection::LayerCacheCapacityCannotFitCompleteLayer =>
                "LayerCacheCapacityCannotFitCompleteLayer"@,
            FeasibilityRejection::ReadCoalescingRequiredButUnavailable =>
                "ReadCoalescingRequiredButUnavailable"@,
            FeasibilityRejection::GroupedReadBufferReuseRequiredButUnavailable =>
                "GroupedReadBufferReuseRequiredButUnavailable"@,
        }
    }

    pub fn label(self) -> (label: &'static str)
        ensures
            label@ == self.spec_label(),
    {
        match self {
            FeasibilityRejection::AdvancedOverrideRequiresAdvancedMode =>
                "AdvancedOverrideRequiresAdvancedMode",
            FeasibilityRejection::RamBudgetExceedsTotalRam => "RamBudgetExceedsTotalRam",
            FeasibilityRejection::RamBudgetExceedsAvailableRam => "RamBudgetExceedsAvailableRam",
            FeasibilityRejection::StorageNotUsable => "StorageNotUsable",
            FeasibilityRejection::CpuBackendUnavailable => "CpuBackendUnavailable",
            FeasibilityRejection::ModelNotExecutable => "ModelNotExecutable",
            FeasibilityRejection::ExecutionPreflightUnavailable => "ExecutionPreflightUnavailable",
            FeasibilityRejection::StaticPlanDoesNotMatchProfiles =>
                "StaticPlanDoesNotMatchProfiles",
            FeasibilityRejection::ManagedMemoryLowerBoundExceedsBudget =>
                "ManagedMemoryLowerBoundExceedsBudget",
            FeasibilityRejection::GpuRequiredButUnavailable => "GpuRequiredButUnavailable",
            FeasibilityRejection::RequestedThreadCountUnavailable =>
                "RequestedThreadCountUnavailable",
            FeasibilityRejection::LayerCacheRequiredButUnavailable =>
                "LayerCacheRequiredButUnavailable",
            FeasibilityRejection::LayerCacheCapacityExceedsStaticCapacity =>
                "LayerCacheCapacityExceedsStaticCapacity",
            FeasibilityRejection::LayerCacheCapacityCannotFitCompleteLayer =>
                "LayerCacheCapacityCannotFitCompleteLayer",
            FeasibilityRejection::ReadCoalescingRequiredButUnavailable =>
                "ReadCoalescingRequiredButUnavailable",
            FeasibilityRejection::GroupedReadBufferReuseRequiredButUnavailable =>
                "GroupedReadBufferReuseRequiredButUnavailable",
        }
    }
}

#[derive(Debug, Clone, PartialEq, Eq)]
pub enum PlannerError {
    InvalidProfile { profile: &'static str, field: &'static str },
    Infeasible(FeasibilityRejection),
}

impl PlannerError {
    pub open spec fn spec_message(self) -> Seq<char> {
        match self {
            PlannerError::InvalidProfile { profile, field } => "invalid "@ + profile@ + ": "@
                + field@,
            PlannerError::Infeasible(reason) => "infeasible plan: "@ + reason.spec_label(),
        }
    }

    pub fn message(&self) -> (message: String)
        ensures
            message@ == self.spec_message(),
    {
        match self {
            PlannerError::InvalidProfile { profile, field } => {
                let mut message = "invalid ".to_owned();
                message.append(profile);
                message.append(": ");
                message.append(field);
                message
            },
            PlannerError::Infeasible(reason) => {
                let mut message = "infeasible plan: ".to_owned();
                message.append(reason.label());
                message
            },
        }
    }
}

pub open spec fn invalid(profile: &'static str, field: &'static str) -> Result<(), PlannerError> {
    Err(PlannerError::InvalidProfile { profile, field })
}

pub open spec fn infeasible(reason: FeasibilityRejection) -> Result<(), PlannerError> {
    Err(PlannerError::Infeasible(reason))
}

#[derive(Debug, Clone, Copy, PartialEq, Eq, Structural)]
pub enum OperatingMode {
    BackgroundConstrained,
    BalancedNormal,
    MaximumPerformance,
    Advanced,
}

#[derive(Debug, Clone, Copy, PartialEq, Eq, Structural)]
pub enum GpuPreference {
    Disabled,
    Prefer,
    Require,
}

#[derive(Debug, Clone, Copy, PartialEq, Eq, Structural)]
pub enum CalibrationLevel {
    NotRequested,
    Quick,
    Standard,
    Thorough,
}

impl CalibrationLevel {
    pub open spec fn spec_rank(self) -> u8 {
        match self {
            CalibrationLevel::NotRequested => 0,
            CalibrationLevel::Quick => 1,
            CalibrationLevel::Standard => 2,
            CalibrationLevel::Thorough => 3,
        }
    }

    pub fn rank(self) -> (rank: u8)
        ensures
            rank == self.spec_rank(),
    {
        match self {
            CalibrationLevel::NotRequested => 0,
            CalibrationLevel::Quick => 1,
            CalibrationLevel::Standard => 2,
            CalibrationLevel::Thorough => 3,
        }
    }
}

#[derive(Debug, Clone, PartialEq, Eq)]
pub struct AdvancedOverrides {
    pub thread_count: Option<usize>,
    pub layer_cache_enabled: Option<bool>,
    pub layer_cache_capacity_bytes: Option<u64>,
    pub read_coalescing_enabled: Option<bool>,
    pub grouped_read_buffer_reuse_enabled: Option<bool>,
    pub gpu_device_id: Option<String>,
}

impl Default for AdvancedOverrides {
    fn default() -> (overrides: Self)
        ensures
            overrides.spec_is_empty(),
    {
        AdvancedOverrides {
            thread_count: None,
            layer_cache_enabled: None,
            layer_cache_capacity_bytes: None,
            read_coalescing_enabled: None,
            grouped_read_buffer_reuse_enabled: None,
            gpu_device_id: None,
        }
    }
}

impl AdvancedOverrides {
    pub open spec fn spec_is_empty(self) -> bool {
        &&& self.thread_count is None
        &&& self.layer_cache_enabled is None
        &&& self.layer_cache_capacity_bytes is None
        &&& self.read_coalescing_enabled is None
        &&& self.grouped_read_buffer_reuse_enabled is None
        &&& self.gpu_device_id is None
    }

    pub fn is_empty(&self) -> (empty: bool)
        ensures
            empty == self.spec_is_empty(),
    {
        self.thread_count.is_none() && self.layer_cache_enabled.is_none()
            && self.layer_cache_capacity_bytes.is_none() && self.read_coalescing_enabled.is_none()
            && self.grouped_read_buffer_reuse_enabled.is_none() && self.gpu_device_id.is_none()
    }
}

#[derive(Debug, Clone, PartialEq, Eq)]
pub struct UserProfile {
    pub schema_version: u32,
    pub ram_budget_bytes: u64,
    pub mode: OperatingMode,
    /// Upper bound for planner-selected CPU threads. `None` means the detected
    /// logical CPU count remains the upper bound.
    pub cpu_thread_limit: Option<usize>,
    pub gpu_preference: GpuPreference,
    pub calibration_level: CalibrationLevel,
    pub advanced: AdvancedOverrides,
}

/// What `UserProfile::validate` finds, first problem first.
pub open spec fn user_check(user: UserProfile) -> Result<(), PlannerError> {
    let advanced = user.advanced;
    if user.schema_version != PROFILE_SCHEMA_VERSION {
        invalid("UserProfile", "schema_version")
    } else if user.ram_budget_bytes == 0 {
        invalid("UserProfile", "ram_budget_bytes")
    } else if user.cpu_thread_limit == Some(0usize) {
        invalid("UserProfile", "cpu_thread_limit")
    } else if user.mode != OperatingMode::Advanced && !advanced.spec_is_empty() {
        infeasible(FeasibilityRejection::AdvancedOverrideRequiresAdvancedMode)
    } else if advanced.thread_count == Some(0usize) {
        invalid("UserProfile", "advanced.thread_count")
    } else if advanced.layer_cache_capacity_bytes == Some(0u64) {
        invalid("UserProfile", "advanced.layer_cache_capacity_bytes")
    } else if advanced.layer_cache_capacity_bytes is Some
        && advanced.layer_cache_capacity_bytes->0 > user.ram_budget_bytes {
        invalid("UserProfile", "advanced.layer_cache_capacity_bytes")
    } else if advanced.layer_cache_enabled == Some(false)
        && advanced.layer_cache_capacity_bytes is Some {
        invalid("UserProfile", "disabled layer cache has a capacity override")
    } else if advanced.gpu_device_id is Some && user.gpu_preference == GpuPreference::Disabled {
        invalid("UserProfile", "GPU device selected while GPU use is disabled")
    } else {
        Ok(())
    }
}

impl UserProfile {
    pub fn new(ram_budget_bytes: u64, mode: OperatingMode) -> (user: Self)
        ensures
            user.schema_version == PROFILE_SCHEMA_VERSION,
            user.ram_budget_bytes == ram_budget_bytes,
            user.mode == mode,
            user.cpu_thread_limit is None,
            user.gpu_preference == GpuPreference::Disabled,
            user.calibration_level == CalibrationLevel::NotRequested,
            user.advanced.spec_is_empty(),
            ram_budget_bytes > 0 ==> user_check(user) is Ok,
    {
        UserProfile {
            schema_version: PROFILE_SCHEMA_VERSION,
            ram_budget_bytes,
            mode,
            cpu_thread_limit: None,
            gpu_preference: GpuPreference::Disabled,
            calibration_level: CalibrationLevel::NotRequested,
            advanced: AdvancedOverrides::default(),
        }
    }

    pub fn validate(&self) -> (result: Result<(), PlannerError>)
        ensures
            result == user_check(*self),
    {
        if self.schema_version != PROFILE_SCHEMA_VERSION {
            return Err(
                PlannerError::InvalidProfile { profile: "UserProfile", field: "schema_version" },
            );
        }
        if self.ram_budget_bytes == 0 {
            return Err(
                PlannerError::InvalidProfile { profile: "UserProfile", field: "ram_budget_bytes" },
            );
        }
        if self.cpu_thread_limit == Some(0) {
            return Err(
                PlannerError::InvalidProfile { profile: "UserProfile", field: "cpu_thread_limit" },
            );
        }
        if self.mode != OperatingMode::Advanced && !self.advanced.is_empty() {
            return Err(
                PlannerError::Infeasible(
                    FeasibilityRejection::AdvancedOverrideRequiresAdvancedMode,
                ),
            );
        }
        if self.advanced.thread_count == Some(0) {
            return Err(
                PlannerError::InvalidProfile {
                    profile: "UserProfile",
                    field: "advanced.thread_count",
                },
            );
        }
        if let Some(bytes) = self.advanced.layer_cache_capacity_bytes {
            if bytes == 0 || bytes > self.ram_budget_bytes {
                return Err(
                    PlannerError::InvalidProfile {
                        profile: "UserProfile",
                        field: "advanced.layer_cache_capacity_bytes",
                    },
                );
            }
        }
        if self.advanced.layer_cache_enabled == Some(false)
            && self.advanced.layer_cache_capacity_bytes.is_some() {
            return Err(
                PlannerError::InvalidProfile {
                    profile: "UserProfile",
                    field: "disabled layer cache has a capacity override",
                },
            );
        }
        if self.advanced.gpu_device_id.is_some() && self.gpu_preference
            == GpuPreference::Disabled {
            return Err(
                PlannerError::InvalidProfile {
                    profile: "UserProfile",
                    field: "GPU device selected while GPU use is disabled",
                },
            );
        }
        Ok(())
    }
}

#[derive(Debug, Clone, Copy, PartialEq, Eq, Structural)]
pub enum CpuFeature {
    Avx2,
}

/// A set of CPU features.
#[derive(Debug, Clone, Copy, PartialEq, Eq, Structural)]
pub struct CpuFeatureSet {
    pub avx2: bool,
}

impl CpuFeatureSet {
    pub open spec fn spec_contains(self, feature: CpuFeature) -> bool {
        match feature {
            CpuFeature::Avx2 => self.avx2,
        }
    }

    pub fn new() -> (features: Self)
        ensures
            forall|feature: CpuFeature| !features.spec_contains(feature),
    {
        CpuFeatureSet { avx2: false }
    }

    pub fn insert(&mut self, feature: CpuFeature) -> (added: bool)
        ensures
            added == !old(self).spec_contains(feature),
            forall|other: CpuFeature|
                final(self).spec_contains(other) == (other == feature || old(self).spec_contains(
                    other,
                )),
    {
        match feature {
            CpuFeature::Avx2 => {
                let added = !self.avx2;
                self.avx2 = true;
                added
            },
        }
    }

    pub fn contains(&self, feature: &CpuFeature) -> (found: bool)
        ensures
            found == self.spec_contains(*feature),
    {
        match feature {
            CpuFeature::Avx2 => self.avx2,
        }
    }
}

#[derive(Debug, Clone, Copy, PartialEq, Eq, Structural)]
pub struct Availability {
    pub detected: bool,
    pub supported: bool,
    pub usable: bool,
}

/// Usable implies supported, and supported implies detected.
pub open spec fn availability_check(
    availability: Availability,
    profile: &'static str,
) -> Result<(), PlannerError> {
    if availability.supported && !availability.detected {
        invalid(profile, "supported but not detected")
    } else if availability.usable && !availability.supported {
        invalid(profile, "usable but not supported")
    } else {
        Ok(())
    }
}

impl Availability {
    pub fn unavailable() -> (availability: Self)
        ensures
            availability == (Availability { detected: false, supported: false, usable: false }),
    {
        Availability { detected: false, supported: false, usable: false }
    }

    pub fn validate(self, profile: &'static str) -> (result: Result<(), PlannerError>)
        ensures
            result == availability_check(self, profile),
    {
        if self.supported && !self.detected {
            return Err(
                PlannerError::InvalidProfile { profile, field: "supported but not detected" },
            );
        }
        if self.usable && !self.supported {
            return Err(PlannerError::InvalidProfile { profile, field: "usable but not supported" });
        }
        Ok(())
    }
}

#[derive(Debug, Clone, PartialEq, Eq)]
pub struct GpuDeviceProfile {
    pub identifier: String,
    pub vendor: Option<String>,
    pub device_id: Option<String>,
    pub name: Option<String>,
    pub dedicated_memory_bytes: Option<u64>,
    pub backend: Availability,
}

/// How completely an inventory could be read.
#[derive(Debug, Clone, Copy, PartialEq, Eq, Structural)]
pub enum DiscoveryState {
    Complete,
    Partial,
    Unavailable,
}

#[derive(Debug, Clone, PartialEq, Eq)]
pub struct MachineProfile {
    pub schema_version: u32,
    pub os: String,
    pub architecture: String,
    pub kernel_version: Option<String>,
    pub cpu_vendor: Option<String>,
    pub cpu_model: Option<String>,
    pub physical_cpu_cores: Option<usize>,
    pub logical_cpu_cores: usize,
    pub cpu_features: CpuFeatureSet,
    pub total_ram_bytes: Option<u64>,
    pub available_ram_bytes: Option<u64>,
    pub cpu_backend: Availability,
    pub gpu_inventory_state: DiscoveryState,
    pub gpus: Vec<GpuDeviceProfile>,
}

pub open spec fn gpu_identifiers(gpus: Seq<GpuDeviceProfile>) -> Seq<Seq<char>> {
    Seq::new(gpus.len(), |i: int| gpus[i].identifier@)
}

/// GPUs are checked in order: a non-empty identifier that no earlier device has,
/// then a consistent backend.
pub open spec fn gpus_check(gpus: Seq<GpuDeviceProfile>) -> Result<(), PlannerError>
    decreases gpus.len(),
{
    if gpus.len() == 0 {
        Ok(())
    } else {
        let earlier = gpus_check(gpus.drop_last());
        if earlier is Err {
            earlier
        } else if gpus.last().identifier@.len() == 0 || gpu_identifiers(
            gpus.drop_last(),
        ).contains(gpus.last().identifier@) {
            invalid("MachineProfile", "GPU identifier")
        } else {
            availability_check(gpus.last().backend, "MachineProfile.gpu.backend")
        }
    }
}

pub open spec fn machine_check(machine: MachineProfile) -> Result<(), PlannerError> {
    if machine.schema_version != PROFILE_SCHEMA_VERSION {
        invalid("MachineProfile", "schema_version")
    } else if machine.os@.len() == 0 || machine.architecture@.len() == 0 {
        invalid("MachineProfile", "platform")
    } else if machine.logical_cpu_cores == 0 || machine.physical_cpu_cores == Some(0usize) || (
    machine.physical_cpu_cores is Some && machine.physical_cpu_cores->0
        > machine.logical_cpu_cores) {
        invalid("MachineProfile", "cpu core count")
    } else if machine.total_ram_bytes == Some(0u64) || (machine.total_ram_bytes is Some
        && machine.available_ram_bytes is Some && machine.available_ram_bytes->0
        > machine.total_ram_bytes->0) {
        invalid("MachineProfile", "RAM values")
    } else if availability_check(machine.cpu_backend, "MachineProfile.cpu_backend") is Err {
        availability_check(machine.cpu_backend, "MachineProfile.cpu_backend")
    } else {
        gpus_check(machine.gpus@)
    }
}

pub open spec fn availability_bytes(availability: Availability) -> Seq<u8> {
    fingerprint::flag_bytes(availability.detected) + fingerprint::flag_bytes(
        availability.supported,
    ) + fingerprint::flag_bytes(availability.usable)
}

pub open spec fn gpu_bytes(gpu: GpuDeviceProfile) -> Seq<u8> {
    fingerprint::string_bytes(gpu.identifier@) + fingerprint::optional_string_bytes(gpu.name)
        + fingerprint::integer_bytes(
        match gpu.dedicated_memory_bytes {
            Some(bytes) => bytes,
            None => 0,
        },
    ) + availability_bytes(gpu.backend)
}

/// The GPUs named by `order`, one after another.
pub open spec fn gpu_list_bytes(gpus: Seq<GpuDeviceProfile>, order: Seq<int>) -> Seq<u8>
    decreases order.len(),
{
    if order.len() == 0 {
        Seq::empty()
    } else {
        gpu_list_bytes(gpus, order.drop_last()) + gpu_bytes(gpus[order.last()])
    }
}

pub open spec fn feature_bytes(features: CpuFeatureSet) -> Seq<u8> {
    if features.avx2 {
        fingerprint::integer_bytes(1)
    } else {
        Seq::empty()
    }
}

/// The CPU model, where it is known.
pub open spec fn cpu_model_bytes(model: Option<String>) -> Seq<u8> {
    match model {
        Some(name) => fingerprint::string_bytes(name@),
        None => Seq::empty(),
    }
}

/// What a machine's fingerprint is taken of: platform, cores, CPU features,
/// installed memory, devices by identifier and the CPU model. What varies from run to run is left out.
pub open spec fn machine_bytes(machine: MachineProfile) -> Seq<u8> {
    fingerprint::string_bytes(machine.os@) + fingerprint::string_bytes(machine.architecture@)
        + fingerprint::integer_bytes(
        match machine.physical_cpu_cores {
            Some(cores) => cores as u64,
            None => 0,
        },
    ) + fingerprint::integer_bytes(machine.logical_cpu_cores as u64) + fingerprint::integer_bytes(
        match machine.total_ram_bytes {
            Some(bytes) => bytes,
            None => 0,
        },
    ) + feature_bytes(machine.cpu_features) + availability_bytes(machine.cpu_backend)
        + gpu_list_bytes(machine.gpus@, text::name_order(gpu_identifiers(machine.gpus@)))
        + cpu_model_bytes(machine.cpu_model)
}

pub open spec fn machine_fingerprint(machine: MachineProfile) -> u64 {
    fingerprint::fingerprint_of(machine_bytes(machine))
}

fn add_availability(hash: &mut Fingerprint, availability: Availability)
    requires
        old(hash).wf(),
    ensures
        final(hash).wf(),
        final(hash)@ == old(hash)@ + availability_bytes(availability),
{
    hash.add_bool(availability.detected);
    hash.add_bool(availability.supported);
    hash.add_bool(availability.usable);
    assert(hash@ =~= old(hash)@ + availability_bytes(availability));
}

fn add_gpu(hash: &mut Fingerprint, gpu: &GpuDeviceProfile)
    requires
        old(hash).wf(),
    ensures
        final(hash).wf(),
        final(hash)@ == old(hash)@ + gpu_bytes(*gpu),
{
    hash.add_str(gpu.identifier.as_str());
    hash.add_optional_str(&gpu.name);
    hash.add_u64(
        match gpu.dedicated_memory_bytes {
            Some(bytes) => bytes,
            None => 0,
        },
    );
    add_availability(hash, gpu.backend);
    assert(hash@ =~= old(hash)@ + gpu_bytes(*gpu));
}

proof fn lemma_gpus_check_prefix(gpus: Seq<GpuDeviceProfile>, upto: int)
    requires
        0 <= upto <= gpus.len(),
        gpus_check(gpus.take(upto)) is Err,
    ensures
        gpus_check(gpus) == gpus_check(gpus.take(upto)),
    decreases gpus.len() - upto,
{
    if upto < gpus.len() {
        assert(gpus.take(upto + 1).drop_last() =~= gpus.take(upto));
        lemma_gpus_check_prefix(gpus, upto + 1);
    } else {
        assert(gpus.take(upto) =~= gpus);
    }
}

impl MachineProfile {
    pub fn validate(&self) -> (result: Result<(), PlannerError>)
        ensures
            result == machine_check(*self),
    {
        if self.schema_version != PROFILE_SCHEMA_VERSION {
            return Err(
                PlannerError::InvalidProfile { profile: "MachineProfile", field: "schema_version" },
            );
        }
        if self.os.as_str().is_empty() || self.architecture.as_str().is_empty() {
            return Err(
                PlannerError::InvalidProfile { profile: "MachineProfile", field: "platform" },
            );
        }
        let physical_invalid = match self.physical_cpu_cores {
            Some(cores) => cores == 0 || cores > self.logical_cpu_cores,
            None => false,
        };
        if self.logical_cpu_cores == 0 || physical_invalid {
            return Err(
                PlannerError::InvalidProfile { profile: "MachineProfile", field: "cpu core count" },
            );
        }
        let ram_invalid = match (self.total_ram_bytes, self.available_ram_bytes) {
            (Some(total), Some(available)) => total == 0 || available > total,
            (Some(total), None) => total == 0,
            (None, _) => false,
        };
        if ram_invalid {
            return Err(
                PlannerError::InvalidProfile { profile: "MachineProfile", field: "RAM values" },
            );
        }
        self.cpu_backend.validate("MachineProfile.cpu_backend")?;
        self.validate_gpus()
    }

    fn validate_gpus(&self) -> (result: Result<(), PlannerError>)
        ensures
            result == gpus_check(self.gpus@),
    {
        let ghost all = self.gpus@;
        for i in 0..self.gpus.len()
            invariant
                all == self.gpus@,
                gpus_check(all.take(i as int)) is Ok,
        {
            let gpu = &self.gpus[i];
            let ghost identifiers = gpu_identifiers(all.take(i as int));
            proof {
                assert(all.take(i as int + 1).drop_last() =~= all.take(i as int));
                assert(all.take(i as int + 1).last() == *gpu);
            }
            let mut repeated = false;
            for j in 0..i
                invariant
                    all == self.gpus@,
                    i < self.gpus@.len(),
                    identifiers == gpu_identifiers(all.take(i as int)),
                    *gpu == all[i as int],
                    repeated == exists|k: int|
                        0 <= k < j && (#[trigger] identifiers[k]) == gpu.identifier@,
            {
                assert(identifiers[j as int] == all[j as int].identifier@);
                if text::str_equal(self.gpus[j].identifier.as_str(), gpu.identifier.as_str()) {
                    repeated = true;
                }
            }
            assert(repeated == identifiers.contains(gpu.identifier@));
            if gpu.identifier.as_str().is_empty() || repeated {
                proof {
                    lemma_gpus_check_prefix(all, i as int + 1);
                }
                return Err(
                    PlannerError::InvalidProfile {
                        profile: "MachineProfile",
                        field: "GPU identifier",
                    },
                );
            }
            match gpu.backend.validate("MachineProfile.gpu.backend") {
                Ok(()) => {},
                Err(error) => {
                    proof {
                        lemma_gpus_check_prefix(all, i as int + 1);
                    }
                    return Err(error);
                },
            }
        }
        assert(all.take(all.len() as int) =~= all);
        Ok(())
    }

    pub fn fingerprint(&self) -> (hash: u64)
        ensures
            hash == machine_fingerprint(*self),
    {
        let mut hash = Fingerprint::start();
        hash.add_str(self.os.as_str());
        hash.add_str(self.architecture.as_str());
        hash.add_u64(
            match self.physical_cpu_cores {
                Some(cores) => cores as u64,
                None => 0,
            },
        );
        hash.add_u64(self.logical_cpu_cores as u64);
        hash.add_u64(
            match self.total_ram_bytes {
                Some(bytes) => bytes,
                None => 0,
            },
        );
        if self.cpu_features.avx2 {
            hash.add_u64(1);
        }
        add_availability(&mut hash, self.cpu_backend);
        let ghost head = hash@;
        let mut identifiers: Vec<String> = Vec::new();
        for i in 0..self.gpus.len()
            invariant
                identifiers@.len() == i,
                forall|j: int|
                    0 <= j < i ==> (#[trigger] identifiers@[j])@ == self.gpus@[j].identifier@,
        {
            identifiers.push(self.gpus[i].identifier.clone());
        }
        assert(text::texts(identifiers@) =~= gpu_identifiers(self.gpus@));
        let order = text::order_by_name(&identifiers);
        let ghost sorted = order@.map_values(|i: usize| i as int);
        assert(hash@ =~= head + gpu_list_bytes(self.gpus@, sorted.take(0)));
        for k in 0..order.len()
            invariant
                hash.wf(),
                order@.len() == self.gpus@.len(),
                forall|k: int| 0 <= k < order@.len() ==> (#[trigger] order@[k]) < self.gpus@.len(),
                sorted == order@.map_values(|i: usize| i as int),
                hash@ == head + gpu_list_bytes(self.gpus@, sorted.take(k as int)),
        {
            proof {
                assert(sorted.take(k as int + 1).drop_last() =~= sorted.take(k as int));
                assert(sorted.take(k as int + 1).last() == order@[k as int]);
            }
            let ghost before = gpu_list_bytes(self.gpus@, sorted.take(k as int));
            add_gpu(&mut hash, &self.gpus[order[k]]);
            assert(hash@ =~= head + gpu_list_bytes(self.gpus@, sorted.take(k as int + 1)));
        }
        assert(sorted.take(sorted.len() as int) =~= sorted);
        if let Some(model) = &self.cpu_model {
            hash.add_str(model.as_str());
        }
        assert(hash@ =~= machine_bytes(*self));
        hash.finish()
    }
}

#[derive(Debug, Clone, Copy, PartialEq, Eq, Structural)]
pub enum ModelExecutionCompatibility {
    Executable,
    InspectPlanOnly,
    UnknownArchitecture,
}

#[derive(Debug, Clone, PartialEq, Eq)]
pub struct ModelIdentity {
    pub display_name: Option<String>,
    /// Stable descriptor/metadata fingerprint. This is an identity aid, not a
    /// cryptographic digest of model weights.
    pub descriptor_fingerprint: u64,
}

#[derive(Debug, Clone, PartialEq, Eq)]
pub struct TensorFormatProfile {
    pub format: String,
    pub tensor_count: usize,
    pub element_count: Option<u64>,
    pub byte_count: Option<u64>,
    pub runtime_supported: bool,
}

#[derive(Debug, Clone, PartialEq, Eq)]
pub struct ModelProfile {
    pub schema_version: u32,
    pub identity: ModelIdentity,
    pub architecture: Option<String>,
    pub context_size: Option<u64>,
    pub layer_count: Option<u64>,
    pub tensor_count: usize,
    pub total_tensor_elements: Option<u64>,
    pub file_size_bytes: u64,
    pub tensor_data_bytes: Option<u64>,
    pub tensor_formats: Vec<TensorFormatProfile>,
    pub execution_compatibility: ModelExecutionCompatibility,
    pub has_coalescible_layer_reads: bool,
    pub has_reusable_grouped_read_candidate: bool,
}

/// The content of one entry of a model's format distribution.
pub struct FormatFacts {
    pub format: Seq<char>,
    pub tensor_count: int,
    pub element_count: Option<u64>,
    pub byte_count: Option<u64>,
    pub runtime_supported: bool,
}

impl View for TensorFormatProfile {
    type V = FormatFacts;

    open spec fn view(&self) -> FormatFacts {
        FormatFacts {
            format: self.format@,
            tensor_count: self.tensor_count as int,
            element_count: self.element_count,
            byte_count: self.byte_count,
            runtime_supported: self.runtime_supported,
        }
    }
}

pub open spec fn format_facts(formats: Seq<TensorFormatProfile>) -> Seq<FormatFacts> {
    Seq::new(formats.len(), |i: int| formats[i]@)
}

/// A sum of 64-bit counts that is lost once it no longer fits.
pub open spec fn add_count(total: Option<u64>, count: u64) -> Option<u64> {
    match total {
        Some(sum) => if sum + count <= u64::MAX {
            Some((sum + count) as u64)
        } else {
            None
        },
        None => None,
    }
}

/// An entry after one more tensor of its format.
pub open spec fn grow_format(entry: FormatFacts, tensor: gguf::TensorFacts) -> FormatFacts {
    FormatFacts {
        format: entry.format,
        tensor_count: entry.tensor_count + 1,
        element_count: add_count(entry.element_count, tensor.num_elements),
        byte_count: match tensor.byte_length {
            Some(bytes) => add_count(entry.byte_count, bytes),
            None => None,
        },
        runtime_supported: entry.runtime_supported,
    }
}

pub open spec fn fresh_format(tensor: gguf::TensorFacts) -> FormatFacts {
    FormatFacts {
        format: tensor.ggml_type.spec_name(),
        tensor_count: 0,
        element_count: Some(0),
        byte_count: Some(0),
        runtime_supported: support::inference_format(tensor.ggml_type),
    }
}

/// The first entry whose name does not come before `name`.
pub open spec fn format_place(entries: Seq<FormatFacts>, name: Seq<char>) -> int
    decreases entries.len(),
{
    if entries.len() == 0 || !text::text_less(entries[0].format, name) {
        0
    } else {
        1 + format_place(entries.drop_first(), name)
    }
}

/// The distribution after one more tensor; entries stay ordered by name.
pub open spec fn add_format(entries: Seq<FormatFacts>, tensor: gguf::TensorFacts) -> Seq<
    FormatFacts,
> {
    let name = tensor.ggml_type.spec_name();
    let at = format_place(entries, name);
    if at < entries.len() && entries[at].format == name {
        entries.update(at, grow_format(entries[at], tensor))
    } else {
        entries.insert(at, grow_format(fresh_format(tensor), tensor))
    }
}

/// How a model's tensors distribute over formats.
pub open spec fn format_distribution(tensors: Seq<gguf::TensorFacts>) -> Seq<FormatFacts>
    decreases tensors.len(),
{
    if tensors.len() == 0 {
        Seq::empty()
    } else {
        add_format(format_distribution(tensors.drop_last()), tensors.last())
    }
}

/// The number of elements of all tensors, where it fits.
pub open spec fn total_elements(tensors: Seq<gguf::TensorFacts>) -> Option<u64>
    decreases tensors.len(),
{
    if tensors.len() == 0 {
        Some(0)
    } else {
        add_count(total_elements(tensors.drop_last()), tensors.last().num_elements)
    }
}

pub open spec fn counted_tensors(entries: Seq<FormatFacts>) -> int
    decreases entries.len(),
{
    if entries.len() == 0 {
        0
    } else {
        counted_tensors(entries.drop_last()) + entries.last().tensor_count
    }
}

/// Entries have names, count tensors and ascend by name.
pub open spec fn formats_ordered(entries: Seq<FormatFacts>) -> bool {
    &&& forall|i: int|
        0 <= i < entries.len() ==> (#[trigger] entries[i]).format.len() > 0
            && entries[i].tensor_count > 0
    &&& forall|i: int, j: int|
        #![trigger entries[i], entries[j]]
        0 <= i < j < entries.len() ==> text::text_less(entries[i].format, entries[j].format)
}

proof fn lemma_format_place(entries: Seq<FormatFacts>, name: Seq<char>)
    ensures
        0 <= format_place(entries, name) <= entries.len(),
        forall|i: int|
            0 <= i < format_place(entries, name) ==> text::text_less(
                (#[trigger] entries[i]).format,
                name,
            ),
        format_place(entries, name) < entries.len() ==> !text::text_less(
            entries[format_place(entries, name)].format,
            name,
        ),
    decreases entries.len(),
{
    if entries.len() > 0 && text::text_less(entries[0].format, name) {
        lemma_format_place(entries.drop_first(), name);
        assert forall|i: int| 0 <= i < format_place(entries, name) implies text::text_less(
            (#[trigger] entries[i]).format,
            name,
        ) by {
            if i > 0 {
                assert(entries.drop_first()[i - 1] == entries[i]);
            }
        }
    }
}

proof fn lemma_counted_update(entries: Seq<FormatFacts>, at: int, entry: FormatFacts)
    requires
        0 <= at < entries.len(),
    ensures
        counted_tensors(entries.update(at, entry)) == counted_tensors(entries)
            - entries[at].tensor_count + entry.tensor_count,
    decreases entries.len(),
{
    let updated = entries.update(at, entry);
    if at < entries.len() - 1 {
        lemma_counted_update(entries.drop_last(), at, entry);
        assert(updated.drop_last() =~= entries.drop_last().update(at, entry));
    } else {
        assert(updated.drop_last() =~= entries.drop_last());
    }
}

proof fn lemma_counted_insert(entries: Seq<FormatFacts>, at: int, entry: FormatFacts)
    requires
        0 <= at <= entries.len(),
    ensures
        counted_tensors(entries.insert(at, entry)) == counted_tensors(entries)
            + entry.tensor_count,
    decreases entries.len(),
{
    let inserted = entries.insert(at, entry);
    if at < entries.len() {
        lemma_counted_insert(entries.drop_last(), at, entry);
        assert(inserted.drop_last() =~= entries.drop_last().insert(at, entry));
    } else {
        assert(inserted.drop_last() =~= entries);
    }
}

proof fn lemma_type_name_nonempty(ggml_type: gguf::GgmlType)
    ensures
        ggml_type.spec_name().len() > 0,
{
    reveal_strlit("F32");
    reveal_strlit("F16");
    reveal_strlit("BF16");
    reveal_strlit("Q4_0");
    reveal_strlit("Q4_1");
    reveal_strlit("Q5_0");
    reveal_strlit("Q5_1");
    reveal_strlit("Q8_0");
    reveal_strlit("Q8_1");
    reveal_strlit("Q2_K");
    reveal_strlit("Q3_K");
    reveal_strlit("Q4_K");
    reveal_strlit("Q5_K");
    reveal_strlit("Q6_K");
    reveal_strlit("Q8_K");
    reveal_strlit("TYPE_");
}

/// A model's format distribution is ordered by name without repetition and
/// counts every tensor once.
pub proof fn lemma_format_distribution(tensors: Seq<gguf::TensorFacts>)
    ensures
        formats_ordered(format_distribution(tensors)),
        counted_tensors(format_distribution(tensors)) == tensors.len(),
    decreases tensors.len(),
{
    if tensors.len() > 0 {
        let entries = format_distribution(tensors.drop_last());
        let tensor = tensors.last();
        let name = tensor.ggml_type.spec_name();
        lemma_format_distribution(tensors.drop_last());
        lemma_format_place(entries, name);
        lemma_type_name_nonempty(tensor.ggml_type);
        let at = format_place(entries, name);
        let now = add_format(entries, tensor);
        if at < entries.len() && entries[at].format == name {
            lemma_counted_update(entries, at, grow_format(entries[at], tensor));
        } else {
            let entry = grow_format(fresh_format(tensor), tensor);
            lemma_counted_insert(entries, at, entry);
            assert forall|i: int| 0 <= i < now.len() implies now[i] == (if i < at {
                entries[i]
            } else if i == at {
                entry
            } else {
                entries[i - 1]
            }) by {}
            assert forall|i: int, j: int|
                #![trigger now[i], now[j]]
                0 <= i < j < now.len() implies text::text_less(now[i].format, now[j].format) by {
                if i == at {
                    text::lemma_text_less_total(name, entries[at].format);
                    if j - 1 > at {
                        text::lemma_text_less_transitive(
                            name,
                            entries[at].format,
                            entries[j - 1].format,
                        );
                    }
                }
            }
        }
    }
}

/// The tensors of one format, in order.
pub open spec fn tensors_of_format(tensors: Seq<gguf::TensorFacts>, format: Seq<char>) -> Seq<
    gguf::TensorFacts,
>
    decreases tensors.len(),
{
    if tensors.len() == 0 {
        Seq::empty()
    } else {
        let earlier = tensors_of_format(tensors.drop_last(), format);
        if tensors.last().ggml_type.spec_name() == format {
            earlier.push(tensors.last())
        } else {
            earlier
        }
    }
}

pub open spec fn lengths_known(tensors: Seq<gguf::TensorFacts>) -> bool {
    forall|i: int| 0 <= i < tensors.len() ==> (#[trigger] tensors[i]).byte_length is Some
}

pub open spec fn summed_lengths(tensors: Seq<gguf::TensorFacts>) -> int
    decreases tensors.len(),
{
    if tensors.len() == 0 {
        0
    } else {
        summed_lengths(tensors.drop_last()) + tensors.last().byte_length->0
    }
}

pub open spec fn summed_elements(tensors: Seq<gguf::TensorFacts>) -> int
    decreases tensors.len(),
{
    if tensors.len() == 0 {
        0
    } else {
        summed_elements(tensors.drop_last()) + tensors.last().num_elements
    }
}

/// A count that is kept where it fits.
pub open spec fn fitting_count(value: int) -> Option<u64> {
    if value <= u64::MAX {
        Some(value as u64)
    } else {
        None
    }
}

/// The entry of a format, told directly: how many tensors it has, what they hold
/// as far as it fits, and how long they are where all lengths are known and fit.
pub open spec fn summary_of(entry: FormatFacts, own: Seq<gguf::TensorFacts>) -> bool {
    &&& own.len() > 0
    &&& entry.tensor_count == own.len()
    &&& entry.element_count == fitting_count(summed_elements(own))
    &&& entry.byte_count == (if lengths_known(own) {
        fitting_count(summed_lengths(own))
    } else {
        None
    })
    &&& entry.runtime_supported == support::inference_format(own[0].ggml_type)
}

proof fn lemma_sums_nonnegative(tensors: Seq<gguf::TensorFacts>)
    ensures
        0 <= summed_lengths(tensors),
        0 <= summed_elements(tensors),
    decreases tensors.len(),
{
    if tensors.len() > 0 {
        lemma_sums_nonnegative(tensors.drop_last());
    }
}

/// One more tensor of a format grows its summary.
proof fn lemma_summary_grows(
    entry: FormatFacts,
    own: Seq<gguf::TensorFacts>,
    tensor: gguf::TensorFacts,
)
    requires
        summary_of(entry, own) || (own.len() == 0 && entry == fresh_format(tensor)),
    ensures
        summary_of(grow_format(entry, tensor), own.push(tensor)),
{
    let now = own.push(tensor);
    assert(now.drop_last() =~= own);
    lemma_sums_nonnegative(own);
    assert(own.len() > 0 ==> now[0] == own[0]);
    if lengths_known(own) && tensor.byte_length is Some {
        assert(lengths_known(now));
    }
    if lengths_known(now) {
        assert forall|i: int| 0 <= i < own.len() implies (#[trigger] own[i]).byte_length is Some by {
            assert(now[i] == own[i]);
        }
        assert(now[own.len() as int].byte_length is Some);
    }
    if own.len() == 0 {
        assert(own =~= Seq::empty());
    }
}

pub open spec fn has_format(entries: Seq<FormatFacts>, format: Seq<char>) -> bool {
    exists|i: int| 0 <= i < entries.len() && (#[trigger] entries[i]).format == format
}

/// A format has an entry exactly where some tensor has it.
proof fn lemma_format_listed(tensors: Seq<gguf::TensorFacts>, format: Seq<char>)
    ensures
        has_format(format_distribution(tensors), format) <==> tensors_of_format(
            tensors,
            format,
        ).len() > 0,
    decreases tensors.len(),
{
    if tensors.len() > 0 {
        let entries = format_distribution(tensors.drop_last());
        let tensor = tensors.last();
        let name = tensor.ggml_type.spec_name();
        let at = format_place(entries, name);
        let now = add_format(entries, tensor);
        lemma_format_listed(tensors.drop_last(), format);
        lemma_format_place(entries, name);
        if at < entries.len() && entries[at].format == name {
            assert forall|i: int| 0 <= i < now.len() implies (#[trigger] now[i]).format
                == entries[i].format by {}
            if has_format(entries, format) {
                let i = choose|i: int|
                    0 <= i < entries.len() && (#[trigger] entries[i]).format == format;
                assert(now[i].format == format);
            }
            if has_format(now, format) {
                let i = choose|i: int| 0 <= i < now.len() && (#[trigger] now[i]).format == format;
                assert(entries[i].format == format);
            }
            assert(now[at].format == name);
        } else {
            assert(now[at].format == name);
            if has_format(entries, format) {
                let i = choose|i: int|
                    0 <= i < entries.len() && (#[trigger] entries[i]).format == format;
                assert(now[if i < at { i } else { i + 1 }] == entries[i]);
            }
            if has_format(now, format) && format != name {
                let i = choose|i: int| 0 <= i < now.len() && (#[trigger] now[i]).format == format;
                assert(now[i] == entries[if i < at { i } else { i - 1 }]);
            }
        }
    }
}

/// Each entry of the distribution sums up the tensors of its format: its byte
/// count is their length exactly where all of their lengths are known and the sum
/// fits, and likewise its element count.
pub proof fn lemma_format_summary(tensors: Seq<gguf::TensorFacts>, at: int)
    requires
        0 <= at < format_distribution(tensors).len(),
    ensures
        ({
            let entry = format_distribution(tensors)[at];
            summary_of(entry, tensors_of_format(tensors, entry.format))
        }),
    decreases tensors.len(),
{
    let before = tensors.drop_last();
    let entries = format_distribution(before);
    let tensor = tensors.last();
    let name = tensor.ggml_type.spec_name();
    let place = format_place(entries, name);
    let now = add_format(entries, tensor);
    lemma_format_place(entries, name);
    if place < entries.len() && entries[place].format == name {
        lemma_format_summary(before, at);
        if at == place {
            lemma_summary_grows(entries[at], tensors_of_format(before, name), tensor);
        } else {
            lemma_format_distribution(before);
            if at < place {
                text::lemma_text_less_total(entries[at].format, entries[place].format);
            } else {
                text::lemma_text_less_total(entries[place].format, entries[at].format);
            }
            assert(now[at] == entries[at]);
        }
    } else if at == place {
        lemma_format_distribution(before);
        lemma_format_listed(before, name);
        if has_format(entries, name) {
            let i = choose|i: int| 0 <= i < entries.len() && (#[trigger] entries[i]).format == name;
            text::lemma_text_less_total(entries[i].format, name);
            assert(i >= place && i != place);
            text::lemma_text_less_total(entries[place].format, entries[i].format);
            assert(text::text_less(entries[place].format, entries[i].format));
        }
        lemma_summary_grows(fresh_format(tensor), tensors_of_format(before, name), tensor);
    } else {
        let earlier = if at < place { at } else { at - 1 };
        lemma_format_summary(before, earlier);
        assert(now[at] == entries[earlier]);
        lemma_format_distribution(tensors);
        assert(now[place].format == name);
        if at < place {
            text::lemma_text_less_total(now[at].format, now[place].format);
        } else {
            text::lemma_text_less_total(now[place].format, now[at].format);
        }
    }
}

/// Some layer below `count` has a read plan with a range that holds several
/// tensors.
pub open spec fn any_grouped_range(tensors: Seq<gguf::TensorFacts>, count: nat) -> bool {
    exists|i: nat| i < count && #[trigger] layer_grouped_ranges(tensors, i) > 0
}

/// Some layer below `count` has a read plan whose grouped reads can share a buffer.
pub open spec fn any_shared_buffer(tensors: Seq<gguf::TensorFacts>, count: nat) -> bool {
    exists|i: nat| i < count && #[trigger] layer_grouped_ranges(tensors, i) >= 2
}

/// How many grouped ranges layer `index` reads; none without a read plan.
pub open spec fn layer_grouped_ranges(tensors: Seq<gguf::TensorFacts>, index: nat) -> nat {
    match layer_read::read_plan(layer::layer_tensors(tensors, index)) {
        Ok(plan) => layer_read::grouped_count(plan.ranges),
        Err(_) => 0,
    }
}

/// The number of layers the model's metadata states, as an index bound.
pub open spec fn stated_layers(info: gguf::GgufInfo) -> nat {
    match info.block_count {
        Some(count) => if count <= usize::MAX {
            count as nat
        } else {
            0
        },
        None => 0,
    }
}

pub open spec fn compatibility_of(architecture: Option<String>) -> ModelExecutionCompatibility {
    match architecture {
        None => ModelExecutionCompatibility::UnknownArchitecture,
        Some(name) => match support::capability_of(name@) {
            None => ModelExecutionCompatibility::UnknownArchitecture,
            Some(capability) => if capability.run == RunSupport::Supported {
                ModelExecutionCompatibility::Executable
            } else {
                ModelExecutionCompatibility::InspectPlanOnly
            },
        },
    }
}

pub open spec fn or_maximum(value: Option<u64>) -> u64 {
    match value {
        Some(number) => number,
        None => u64::MAX,
    }
}

pub open spec fn tensor_bytes(tensor: gguf::TensorFacts) -> Seq<u8> {
    fingerprint::string_bytes(tensor.name) + fingerprint::integer_bytes(
        tensor.ggml_type.spec_id() as u64,
    ) + fingerprint::integer_bytes(tensor.offset) + fingerprint::integer_bytes(
        or_maximum(tensor.byte_length),
    ) + fingerprint::integer_bytes(tensor.num_elements) + fingerprint::integer_list_bytes(tensor.dimensions)
}

pub open spec fn tensor_list_bytes(tensors: Seq<gguf::TensorFacts>) -> Seq<u8>
    decreases tensors.len(),
{
    if tensors.len() == 0 {
        Seq::empty()
    } else {
        tensor_list_bytes(tensors.drop_last()) + tensor_bytes(tensors.last())
    }
}

/// The integer facts of a model file; an absent one counts as the maximum.
pub open spec fn info_integers(info: gguf::GgufInfo) -> Seq<u64> {
    seq![
        or_maximum(info.context_length),
        or_maximum(info.embedding_length),
        or_maximum(info.block_count),
        or_maximum(info.head_count),
        or_maximum(info.head_count_kv),
        or_maximum(info.expert_count),
        or_maximum(info.expert_used_count),
        match info.file_type {
            Some(file_type) => file_type as u64,
            None => u64::MAX,
        },
        match info.vocab_size {
            Some(size) => size as u64,
            None => u64::MAX,
        },
    ]
}

pub open spec fn info_bytes(info: gguf::GgufInfo) -> Seq<u8> {
    fingerprint::optional_string_bytes(info.architecture) + fingerprint::optional_string_bytes(
        info.name,
    ) + fingerprint::optional_string_bytes(info.tokenizer_model) + fingerprint::integer_list_bytes(
        info_integers(info),
    )
}

/// What a model's identity is taken of: the file's general facts and its tensor
/// descriptors. Where the file lies does not enter.
pub open spec fn model_bytes(model: GgufModel) -> Seq<u8> {
    fingerprint::integer_bytes(model.version as u64) + fingerprint::integer_bytes(model.file_size)
        + fingerprint::integer_bytes(model.alignment) + info_bytes(model.info)
        + tensor_list_bytes(gguf::facts(model.tensors@))
}

pub open spec fn model_fingerprint(model: GgufModel) -> u64 {
    fingerprint::fingerprint_of(model_bytes(model))
}

/// The profile of a model file.
pub open spec fn is_profile_of(profile: ModelProfile, model: GgufModel) -> bool {
    let tensors = gguf::facts(model.tensors@);
    &&& profile.schema_version == PROFILE_SCHEMA_VERSION
    &&& text::text_option(profile.identity.display_name) == text::text_option(model.info.name)
    &&& profile.identity.descriptor_fingerprint == model_fingerprint(model)
    &&& text::text_option(profile.architecture) == text::text_option(model.info.architecture)
    &&& profile.context_size == model.info.context_length
    &&& profile.layer_count == model.info.block_count
    &&& profile.tensor_count == tensors.len()
    &&& profile.total_tensor_elements == total_elements(tensors)
    &&& profile.file_size_bytes == model.file_size
    &&& profile.tensor_data_bytes == gguf::sum_byte_lengths(tensors)
    &&& format_facts(profile.tensor_formats@) == format_distribution(tensors)
    &&& profile.execution_compatibility == compatibility_of(model.info.architecture)
    &&& profile.has_coalescible_layer_reads == any_grouped_range(
        tensors,
        stated_layers(model.info),
    )
    &&& profile.has_reusable_grouped_read_candidate == any_shared_buffer(
        tensors,
        stated_layers(model.info),
    )
}

fn add_counts(total: Option<u64>, count: u64) -> (sum: Option<u64>)
    ensures
        sum == add_count(total, count),
{
    match total {
        Some(sum) => sum.checked_add(count),
        None => None,
    }
}

fn grow_entry(entry: TensorFormatProfile, tensor: &TensorDescriptor) -> (grown: TensorFormatProfile)
    requires
        entry.tensor_count < usize::MAX,
    ensures
        grown@ == grow_format(entry@, tensor@),
{
    TensorFormatProfile {
        format: entry.format,
        tensor_count: entry.tensor_count + 1,
        element_count: add_counts(entry.element_count, tensor.num_elements),
        byte_count: match tensor.byte_length {
            Some(bytes) => add_counts(entry.byte_count, bytes),
            None => None,
        },
        runtime_supported: entry.runtime_supported,
    }
}

fn find_format_place(entries: &Vec<TensorFormatProfile>, name: &str) -> (at: usize)
    ensures
        at == format_place(format_facts(entries@), name@),
{
    let ghost all = format_facts(entries@);
    assert(all.skip(0) =~= all);
    for i in 0..entries.len()
        invariant
            all == format_facts(entries@),
            format_place(all, name@) == i + format_place(all.skip(i as int), name@),
    {
        assert(all.skip(i as int)[0] == entries@[i as int]@);
        if !text::str_less(entries[i].format.as_str(), name) {
            return i;
        }
        assert(all.skip(i as int).drop_first() =~= all.skip(i as int + 1));
    }
    entries.len()
}

fn count_format(entries: &mut Vec<TensorFormatProfile>, tensor: &TensorDescriptor)
    requires
        forall|i: int|
            0 <= i < old(entries)@.len() ==> (#[trigger] old(entries)@[i]).tensor_count
                < usize::MAX,
    ensures
        format_facts(final(entries)@) == add_format(format_facts(old(entries)@), tensor@),
{
    let ghost before = format_facts(entries@);
    let name = tensor.ggml_type.name();
    let at: usize = find_format_place(entries, name.as_str());
    proof {
        lemma_format_place(before, name@);
    }
    let known = at < entries.len() && text::str_equal(entries[at].format.as_str(), name.as_str());
    if known {
        let entry = entries.remove(at);
        let grown = grow_entry(entry, tensor);
        entries.insert(at, grown);
        assert(format_facts(entries@) =~= before.update(at as int, grow_format(
            before[at as int],
            tensor@,
        )));
    } else {
        let fresh = TensorFormatProfile {
            format: name,
            tensor_count: 0,
            element_count: Some(0),
            byte_count: Some(0),
            runtime_supported: ggml_type_supported_for_inference(tensor.ggml_type),
        };
        let grown = grow_entry(fresh, tensor);
        entries.insert(at, grown);
        assert(format_facts(entries@) =~= before.insert(at as int, grow_format(
            fresh_format(tensor@),
            tensor@,
        )));
    }
}

proof fn lemma_counted_bound(entries: Seq<FormatFacts>, at: int)
    requires
        formats_ordered(entries),
        0 <= at < entries.len(),
    ensures
        entries[at].tensor_count <= counted_tensors(entries),
    decreases entries.len(),
{
    let shorter = entries.drop_last();
    assert forall|i: int| 0 <= i < shorter.len() implies (#[trigger] shorter[i]).format.len() > 0
        && shorter[i].tensor_count > 0 by {
        assert(shorter[i] == entries[i]);
    }
    assert forall|i: int, j: int|
        #![trigger shorter[i], shorter[j]]
        0 <= i < j < shorter.len() implies text::text_less(shorter[i].format, shorter[j].format) by {
        assert(shorter[i] == entries[i] && shorter[j] == entries[j]);
    }
    assert(entries[entries.len() - 1].tensor_count > 0);
    if at < entries.len() - 1 {
        lemma_counted_bound(shorter, at);
    } else if shorter.len() > 0 {
        lemma_counted_bound(shorter, 0);
        assert(shorter[0].tensor_count > 0);
    } else {
        assert(counted_tensors(shorter) == 0);
    }
}

fn distribute_formats(model: &GgufModel) -> (entries: Vec<TensorFormatProfile>)
    ensures
        format_facts(entries@) == format_distribution(gguf::facts(model.tensors@)),
{
    let ghost tensors = gguf::facts(model.tensors@);
    let mut entries: Vec<TensorFormatProfile> = Vec::new();
    assert(format_facts(entries@) =~= format_distribution(tensors.take(0)));
    for i in 0..model.tensors.len()
        invariant
            tensors == gguf::facts(model.tensors@),
            format_facts(entries@) == format_distribution(tensors.take(i as int)),
    {
        proof {
            assert(tensors.take(i as int + 1).drop_last() =~= tensors.take(i as int));
            assert(tensors.take(i as int + 1).last() == model.tensors@[i as int]@);
            lemma_format_distribution(tensors.take(i as int));
            assert forall|k: int| 0 <= k < entries@.len() implies (
            #[trigger] entries@[k]).tensor_count < usize::MAX by {
                lemma_counted_bound(format_facts(entries@), k);
                assert(format_facts(entries@)[k] == entries@[k]@);
            }
        }
        count_format(&mut entries, &model.tensors[i]);
    }
    assert(tensors.take(tensors.len() as int) =~= tensors);
    entries
}

fn total_elements_of(model: &GgufModel) -> (total: Option<u64>)
    ensures
        total == total_elements(gguf::facts(model.tensors@)),
{
    let ghost tensors = gguf::facts(model.tensors@);
    let mut total: Option<u64> = Some(0);
    for i in 0..model.tensors.len()
        invariant
            tensors == gguf::facts(model.tensors@),
            total == total_elements(tensors.take(i as int)),
    {
        proof {
            assert(tensors.take(i as int + 1).drop_last() =~= tensors.take(i as int));
            assert(tensors.take(i as int + 1).last() == model.tensors@[i as int]@);
        }
        total = add_counts(total, model.tensors[i].num_elements);
    }
    assert(tensors.take(tensors.len() as int) =~= tensors);
    total
}

/// Whether any layer groups reads, and whether any layer's grouped reads can
/// share a buffer.
fn grouped_read_facts(model: &GgufModel, layer_count: usize) -> (found: (bool, bool))
    ensures
        found.0 == any_grouped_range(gguf::facts(model.tensors@), layer_count as nat),
        found.1 == any_shared_buffer(gguf::facts(model.tensors@), layer_count as nat),
{
    let ghost tensors = gguf::facts(model.tensors@);
    let layers = group_layers(model, layer_count);
    let mut grouped = false;
    let mut shared = false;
    for i in 0..layers.len()
        invariant
            tensors == gguf::facts(model.tensors@),
            layers@.len() == layer_count,
            forall|j: int|
                0 <= j < layers@.len() ==> layer::is_layer(#[trigger] layers@[j], tensors, j as nat),
            grouped == any_grouped_range(tensors, i as nat),
            shared == any_shared_buffer(tensors, i as nat),
    {
        assert(layer::is_layer(layers@[i as int], tensors, i as nat));
        let ghost count = layer_grouped_ranges(tensors, i as nat);
        let mut layer_grouped = false;
        let mut layer_shared = false;
        match build_layer_read_plan(layers[i].tensors.as_slice()) {
            Ok(plan) => {
                layer_grouped = plan.has_grouped_range();
                layer_shared = plan.reusable_group_buffer_bytes().is_some();
            },
            Err(_) => {},
        }
        assert(layer_grouped == (count > 0));
        assert(layer_shared == (count >= 2));
        proof {
            assert(any_grouped_range(tensors, (i + 1) as nat) == (grouped || layer_grouped)) by {
                if grouped {
                    let k = choose|k: nat| k < i && #[trigger] layer_grouped_ranges(tensors, k) > 0;
                    assert(layer_grouped_ranges(tensors, k) > 0);
                }
            }
            assert(any_shared_buffer(tensors, (i + 1) as nat) == (shared || layer_shared)) by {
                if shared {
                    let k = choose|k: nat|
                        k < i && #[trigger] layer_grouped_ranges(tensors, k) >= 2;
                    assert(layer_grouped_ranges(tensors, k) >= 2);
                }
            }
        }
        grouped = grouped || layer_grouped;
        shared = shared || layer_shared;
    }
    (grouped, shared)
}

fn value_or_maximum(value: Option<u64>) -> (number: u64)
    ensures
        number == or_maximum(value),
{
    match value {
        Some(number) => number,
        None => u64::MAX,
    }
}

fn add_tensor(hash: &mut Fingerprint, tensor: &TensorDescriptor)
    requires
        old(hash).wf(),
    ensures
        final(hash).wf(),
        final(hash)@ == old(hash)@ + tensor_bytes(tensor@),
{
    hash.add_str(tensor.name.as_str());
    hash.add_u64(tensor.ggml_type.as_u32() as u64);
    hash.add_u64(tensor.offset);
    hash.add_u64(value_or_maximum(tensor.byte_length));
    hash.add_u64(tensor.num_elements);
    hash.add_integers(&tensor.dimensions);
    assert(hash@ =~= old(hash)@ + tensor_bytes(tensor@));
}

fn add_info(hash: &mut Fingerprint, info: &gguf::GgufInfo)
    requires
        old(hash).wf(),
    ensures
        final(hash).wf(),
        final(hash)@ == old(hash)@ + info_bytes(*info),
{
    hash.add_optional_str(&info.architecture);
    hash.add_optional_str(&info.name);
    hash.add_optional_str(&info.tokenizer_model);
    let mut integers: Vec<u64> = Vec::new();
    integers.push(value_or_maximum(info.context_length));
    integers.push(value_or_maximum(info.embedding_length));
    integers.push(value_or_maximum(info.block_count));
    integers.push(value_or_maximum(info.head_count));
    integers.push(value_or_maximum(info.head_count_kv));
    integers.push(value_or_maximum(info.expert_count));
    integers.push(value_or_maximum(info.expert_used_count));
    integers.push(
        match info.file_type {
            Some(file_type) => file_type as u64,
            None => u64::MAX,
        },
    );
    integers.push(
        match info.vocab_size {
            Some(size) => size as u64,
            None => u64::MAX,
        },
    );
    assert(integers@ =~= info_integers(*info));
    hash.add_integers(&integers);
    assert(hash@ =~= old(hash)@ + info_bytes(*info));
}

pub fn model_descriptor_fingerprint(model: &GgufModel) -> (hash: u64)
    ensures
        hash == model_fingerprint(*model),
{
    let ghost tensors = gguf::facts(model.tensors@);
    let mut hash = Fingerprint::start();
    hash.add_u64(model.version as u64);
    hash.add_u64(model.file_size);
    hash.add_u64(model.alignment);
    add_info(&mut hash, &model.info);
    let ghost head = hash@;
    assert(head =~= head + tensor_list_bytes(tensors.take(0)));
    for i in 0..model.tensors.len()
        invariant
            hash.wf(),
            tensors == gguf::facts(model.tensors@),
            hash@ == head + tensor_list_bytes(tensors.take(i as int)),
    {
        proof {
            assert(tensors.take(i as int + 1).drop_last() =~= tensors.take(i as int));
            assert(tensors.take(i as int + 1).last() == model.tensors@[i as int]@);
        }
        add_tensor(&mut hash, &model.tensors[i]);
        assert(hash@ =~= head + tensor_list_bytes(tensors.take(i as int + 1)));
    }
    assert(tensors.take(tensors.len() as int) =~= tensors);
    assert(hash@ =~= model_bytes(*model));
    hash.finish()
}

fn copy_text(value: &Option<String>) -> (copy: Option<String>)
    ensures
        copy == *value,
{
    match value {
        Some(text) => Some(text.clone()),
        None => None,
    }
}

/// Format entries name a format, count tensors and do not repeat.
pub open spec fn formats_distinct(formats: Seq<TensorFormatProfile>) -> bool {
    &&& forall|i: int|
        0 <= i < formats.len() ==> (#[trigger] formats[i]).format@.len() > 0
            && formats[i].tensor_count > 0
    &&& forall|i: int, j: int|
        #![trigger formats[i], formats[j]]
        0 <= i < j < formats.len() ==> formats[i].format@ != formats[j].format@
}

pub open spec fn model_check(model: ModelProfile) -> Result<(), PlannerError> {
    if model.schema_version != PROFILE_SCHEMA_VERSION {
        invalid("ModelProfile", "schema_version")
    } else if model.identity.descriptor_fingerprint == 0 {
        invalid("ModelProfile", "descriptor_fingerprint")
    } else if !(formats_distinct(model.tensor_formats@) && counted_tensors(
        format_facts(model.tensor_formats@),
    ) == model.tensor_count) {
        invalid("ModelProfile", "tensor distribution")
    } else {
        Ok(())
    }
}

proof fn lemma_counted_take(entries: Seq<FormatFacts>, upto: int)
    requires
        0 <= upto <= entries.len(),
        forall|i: int| 0 <= i < entries.len() ==> (#[trigger] entries[i]).tensor_count >= 0,
    ensures
        0 <= counted_tensors(entries.take(upto)) <= counted_tensors(entries),
    decreases entries.len(),
{
    if upto == entries.len() {
        assert(entries.take(upto) =~= entries);
        if entries.len() > 0 {
            lemma_counted_take(entries.drop_last(), upto - 1);
        }
    } else {
        lemma_counted_take(entries.drop_last(), upto);
        assert(entries.drop_last().take(upto) =~= entries.take(upto));
    }
}

impl ModelProfile {
    pub fn from_gguf(model: &GgufModel) -> (profile: Self)
        ensures
            is_profile_of(profile, *model),
    {
        let info = model.info();
        let execution_compatibility = match &info.architecture {
            Some(name) => match architecture_capability(name.as_str()) {
                Some(capability) => if capability.run == RunSupport::Supported {
                    ModelExecutionCompatibility::Executable
                } else {
                    ModelExecutionCompatibility::InspectPlanOnly
                },
                None => ModelExecutionCompatibility::UnknownArchitecture,
            },
            None => ModelExecutionCompatibility::UnknownArchitecture,
        };
        let layer_count: usize = match info.block_count {
            Some(count) => if count <= usize::MAX as u64 {
                count as usize
            } else {
                0
            },
            None => 0,
        };
        let (grouped, shared) = grouped_read_facts(model, layer_count);
        ModelProfile {
            schema_version: PROFILE_SCHEMA_VERSION,
            identity: ModelIdentity {
                display_name: copy_text(&info.name),
                descriptor_fingerprint: model_descriptor_fingerprint(model),
            },
            architecture: copy_text(&info.architecture),
            context_size: info.context_length,
            layer_count: info.block_count,
            tensor_count: model.tensors.len(),
            total_tensor_elements: total_elements_of(model),
            file_size_bytes: model.file_size,
            tensor_data_bytes: model.total_tensor_bytes(),
            tensor_formats: distribute_formats(model),
            execution_compatibility,
            has_coalescible_layer_reads: grouped,
            has_reusable_grouped_read_candidate: shared,
        }
    }

    fn tensors_in_formats(&self) -> (total: Option<usize>)
        ensures
            total is Some <==> formats_distinct(self.tensor_formats@) && counted_tensors(
                format_facts(self.tensor_formats@),
            ) <= usize::MAX,
            total is Some ==> total->0 == counted_tensors(format_facts(self.tensor_formats@)),
    {
        let ghost formats = self.tensor_formats@;
        let ghost entries = format_facts(formats);
        let mut total: usize = 0;
        proof {
            assert forall|i: int| 0 <= i < entries.len() implies (
            #[trigger] entries[i]).tensor_count >= 0 by {
                assert(entries[i] == formats[i]@);
            }
        }
        for i in 0..self.tensor_formats.len()
            invariant
                formats == self.tensor_formats@,
                entries == format_facts(formats),
                forall|k: int| 0 <= k < entries.len() ==> (#[trigger] entries[k]).tensor_count >= 0,
                formats_distinct(formats.take(i as int)),
                total == counted_tensors(entries.take(i as int)),
        {
            let format = &self.tensor_formats[i];
            proof {
                assert(entries.take(i as int + 1).drop_last() =~= entries.take(i as int));
                assert(entries.take(i as int + 1).last() == format@);
                assert(formats.take(i as int + 1)[i as int] == *format);
            }
            if format.format.as_str().is_empty() || format.tensor_count == 0 {
                assert(formats[i as int] == *format);
                return None;
            }
            for j in 0..i
                invariant
                    formats == self.tensor_formats@,
                    i < formats.len(),
                    *format == formats[i as int],
                    forall|k: int| 0 <= k < j ==> (#[trigger] formats[k]).format@ != format.format@,
            {
                if text::str_equal(self.tensor_formats[j].format.as_str(), format.format.as_str()) {
                    assert(formats[j as int].format@ == formats[i as int].format@);
                    return None;
                }
            }
            proof {
                let now = formats.take(i as int + 1);
                let before = formats.take(i as int);
                assert forall|k: int| 0 <= k < now.len() implies (
                #[trigger] now[k]).format@.len() > 0 && now[k].tensor_count > 0 by {
                    if k < i {
                        assert(before[k] == now[k]);
                    }
                }
                assert forall|j: int, k: int|
                    #![trigger now[j], now[k]]
                    0 <= j < k < now.len() implies now[j].format@ != now[k].format@ by {
                    if k < i {
                        assert(before[j] == now[j] && before[k] == now[k]);
                    } else {
                        assert(now[j] == formats[j]);
                    }
                }
                lemma_counted_take(entries, i as int + 1);
            }
            match total.checked_add(format.tensor_count) {
                Some(sum) => {
                    total = sum;
                },
                None => {
                    return None;
                },
            }
        }
        assert(formats.take(formats.len() as int) =~= formats);
        assert(entries.take(entries.len() as int) =~= entries);
        Some(total)
    }

    pub fn validate(&self) -> (result: Result<(), PlannerError>)
        ensures
            result == model_check(*self),
    {
        if self.schema_version != PROFILE_SCHEMA_VERSION {
            return Err(
                PlannerError::InvalidProfile { profile: "ModelProfile", field: "schema_version" },
            );
        }
        if self.identity.descriptor_fingerprint == 0 {
            return Err(
                PlannerError::InvalidProfile {
                    profile: "ModelProfile",
                    field: "descriptor_fingerprint",
                },
            );
        }
        let represented = match self.tensors_in_formats() {
            Some(total) => total == self.tensor_count,
            None => false,
        };
        if !represented {
            return Err(
                PlannerError::InvalidProfile {
                    profile: "ModelProfile",
                    field: "tensor distribution",
                },
            );
        }
        Ok(())
    }
}

/// A profile taken of a model file passes validation, unless the file's
/// fingerprint happens to be zero.
pub proof fn lemma_model_profile_valid(profile: ModelProfile, model: GgufModel)
    requires
        is_profile_of(profile, model),
        model_fingerprint(model) != 0,
    ensures
        model_check(profile) is Ok,
{
    let tensors = gguf::facts(model.tensors@);
    let formats = profile.tensor_formats@;
    let entries = format_facts(formats);
    lemma_format_distribution(tensors);
    assert forall|i: int| 0 <= i < formats.len() implies (#[trigger] formats[i]).format@.len() > 0
        && formats[i].tensor_count > 0 by {
        assert(entries[i] == formats[i]@);
    }
    assert forall|i: int, j: int|
        #![trigger formats[i], formats[j]]
        0 <= i < j < formats.len() implies formats[i].format@ != formats[j].format@ by {
        assert(text::text_less(entries[i].format, entries[j].format));
        text::lemma_text_less_total(entries[i].format, entries[j].format);
    }
}

#[derive(Debug, Clone, Copy, PartialEq, Eq, Structural)]
pub enum StorageKind {
    Unknown,
    Local,
    Network,
    Removable,
    MemoryBacked,
    Nvme,
    SolidState,
    Rotational,
}

impl StorageKind {
    pub open spec fn spec_number(self) -> u64 {
        match self {
            StorageKind::Unknown => 0,
            StorageKind::Local => 1,
            StorageKind::Network => 2,
            StorageKind::Removable => 3,
            StorageKind::MemoryBacked => 4,
            StorageKind::Nvme => 5,
            StorageKind::SolidState => 6,
            StorageKind::Rotational => 7,
        }
    }

    /// The number by which the kind enters a fingerprint.
    pub fn number(self) -> (number: u64)
        ensures
            number == self.spec_number(),
    {
        match self {
            StorageKind::Unknown => 0,
            StorageKind::Local => 1,
            StorageKind::Network => 2,
            StorageKind::Removable => 3,
            StorageKind::MemoryBacked => 4,
            StorageKind::Nvme => 5,
            StorageKind::SolidState => 6,
            StorageKind::Rotational => 7,
        }
    }
}

#[derive(Debug, Clone, Copy, PartialEq, Eq, Structural)]
pub enum StoragePathState {
    Ready,
}

#[derive(Debug, Clone, PartialEq, Eq)]
pub struct StorageProfile {
    pub schema_version: u32,
    pub model_path: String,
    pub path_state: StoragePathState,
    pub readable: bool,
    pub regular_file: bool,
    pub file_size_bytes: Option<u64>,
    pub filesystem_type: Option<String>,
    pub filesystem_id: Option<String>,
    pub device_id: Option<String>,
    pub kind: StorageKind,
    pub seekable: bool,
}

pub open spec fn storage_check(storage: StorageProfile) -> Result<(), PlannerError> {
    if storage.schema_version != PROFILE_SCHEMA_VERSION {
        invalid("StorageProfile", "schema_version")
    } else if storage.model_path@.len() == 0 {
        invalid("StorageProfile", "model_path")
    } else {
        Ok(())
    }
}

/// What a storage fingerprint is taken of: the filesystem and device, and how
/// they can be read. The model's path and size do not enter.
pub open spec fn storage_bytes(storage: StorageProfile) -> Seq<u8> {
    fingerprint::optional_string_bytes(storage.filesystem_id) + fingerprint::optional_string_bytes(
        storage.device_id,
    ) + fingerprint::integer_bytes(storage.kind.spec_number()) + fingerprint::flag_bytes(
        storage.seekable,
    )
}

pub open spec fn storage_fingerprint(storage: StorageProfile) -> u64 {
    fingerprint::fingerprint_of(storage_bytes(storage))
}

impl StorageProfile {
    /// A profile for a path about which nothing else is known: it is taken to be
    /// a readable, seekable regular file.
    pub fn for_model_path(model_path: &str) -> (storage: Self)
        ensures
            storage.schema_version == PROFILE_SCHEMA_VERSION,
            storage.model_path@ == model_path@,
            storage.path_state == StoragePathState::Ready,
            storage.readable,
            storage.regular_file,
            storage.file_size_bytes is None,
            storage.filesystem_type is None,
            storage.filesystem_id is None,
            storage.device_id is None,
            storage.kind == StorageKind::Unknown,
            storage.seekable,
    {
        StorageProfile {
            schema_version: PROFILE_SCHEMA_VERSION,
            model_path: model_path.to_owned(),
            path_state: StoragePathState::Ready,
            readable: true,
            regular_file: true,
            file_size_bytes: None,
            filesystem_type: None,
            filesystem_id: None,
            device_id: None,
            kind: StorageKind::Unknown,
            seekable: true,
        }
    }

    pub fn validate(&self) -> (result: Result<(), PlannerError>)
        ensures
            result == storage_check(*self),
    {
        if self.schema_version != PROFILE_SCHEMA_VERSION {
            return Err(
                PlannerError::InvalidProfile { profile: "StorageProfile", field: "schema_version" },
            );
        }
        if self.model_path.as_str().is_empty() {
            return Err(
                PlannerError::InvalidProfile { profile: "StorageProfile", field: "model_path" },
            );
        }
        Ok(())
    }

    pub fn fingerprint(&self) -> (hash: u64)
        ensures
            hash == storage_fingerprint(*self),
    {
        let mut hash = Fingerprint::start();
        hash.add_optional_str(&self.filesystem_id);
        hash.add_optional_str(&self.device_id);
        hash.add_u64(self.kind.number());
        hash.add_bool(self.seekable);
        assert(hash@ =~= storage_bytes(*self));
        hash.finish()
    }
}

/// Devices that pass the check have different identifiers.
proof fn lemma_gpus_distinct(gpus: Seq<GpuDeviceProfile>, i: int, j: int)
    requires
        gpus_check(gpus) is Ok,
        0 <= i < j < gpus.len(),
    ensures
        gpus[i].identifier@ != gpus[j].identifier@,
    decreases gpus.len(),
{
    let before = gpus.drop_last();
    if j == gpus.len() - 1 {
        assert(gpu_identifiers(before)[i] == gpus[i].identifier@);
        if gpus[i].identifier@ == gpus[j].identifier@ {
            assert(gpu_identifiers(before).contains(gpus.last().identifier@));
        }
    } else {
        lemma_gpus_distinct(before, i, j);
    }
}

/// The devices as `order` lists them.
spec fn listed(gpus: Seq<GpuDeviceProfile>, order: Seq<int>) -> Seq<GpuDeviceProfile> {
    Seq::new(order.len(), |k: int| gpus[order[k]])
}

/// The devices ascend strictly by identifier.
spec fn ascending(gpus: Seq<GpuDeviceProfile>) -> bool {
    forall|j: int, k: int|
        0 <= j < k < gpus.len() ==> text::text_less(
            (#[trigger] gpus[j]).identifier@,
            (#[trigger] gpus[k]).identifier@,
        )
}

/// Devices that pass the check are listed in ascending order, each once.
proof fn lemma_listed(gpus: Seq<GpuDeviceProfile>)
    requires
        gpus_check(gpus) is Ok,
    ensures
        ({
            let sorted = listed(gpus, text::name_order(gpu_identifiers(gpus)));
            &&& sorted.len() == gpus.len()
            &&& ascending(sorted)
            &&& forall|gpu: GpuDeviceProfile| sorted.contains(gpu) <==> gpus.contains(gpu)
        }),
{
    let names = gpu_identifiers(gpus);
    let order = text::name_order(names);
    let sorted = listed(gpus, order);
    text::lemma_name_order(names);
    assert forall|j: int, k: int| 0 <= j < k < sorted.len() implies text::text_less(
        (#[trigger] sorted[j]).identifier@,
        (#[trigger] sorted[k]).identifier@,
    ) by {
        let (a, b) = (order[j], order[k]);
        assert(a != b && !text::text_less(names[b], names[a]));
        if a < b {
            lemma_gpus_distinct(gpus, a, b);
        } else {
            lemma_gpus_distinct(gpus, b, a);
        }
        text::lemma_text_less_total(names[a], names[b]);
    }
    assert forall|gpu: GpuDeviceProfile| sorted.contains(gpu) <==> gpus.contains(gpu) by {
        if sorted.contains(gpu) {
            let k = choose|k: int| 0 <= k < sorted.len() && sorted[k] == gpu;
            assert(gpus[order[k]] == gpu);
        }
        if gpus.contains(gpu) {
            let i = choose|i: int| 0 <= i < gpus.len() && gpus[i] == gpu;
            text::lemma_every_place_listed(names, order, i);
            let k = choose|k: int| 0 <= k < order.len() && order[k] == i;
            assert(sorted[k] == gpu);
        }
    }
}

/// Ascending lists of the same devices are equal.
proof fn lemma_ascending_unique(first: Seq<GpuDeviceProfile>, second: Seq<GpuDeviceProfile>)
    requires
        first.len() == second.len(),
        ascending(first),
        ascending(second),
        forall|gpu: GpuDeviceProfile| first.contains(gpu) <==> second.contains(gpu),
    ensures
        first == second,
    decreases first.len(),
{
    if first.len() > 0 {
        let end = first.len() - 1;
        let (a, b) = (first.drop_last(), second.drop_last());
        assert(first.contains(first[end]));
        let p = choose|p: int| 0 <= p < second.len() && second[p] == first[end];
        assert(second.contains(second[end]));
        let q = choose|q: int| 0 <= q < first.len() && first[q] == second[end];
        if p < end {
            assert(text::text_less(second[p].identifier@, second[end].identifier@));
            text::lemma_text_less_total(second[p].identifier@, second[end].identifier@);
            assert(q != end);
            assert(text::text_less(first[q].identifier@, first[end].identifier@));
        }
        assert(first[end] == second[end]);
        assert forall|gpu: GpuDeviceProfile| a.contains(gpu) <==> b.contains(gpu) by {
            if a.contains(gpu) {
                let i = choose|i: int| 0 <= i < a.len() && a[i] == gpu;
                assert(first[i] == gpu);
                assert(first.contains(gpu));
                let j = choose|j: int| 0 <= j < second.len() && second[j] == gpu;
                assert(text::text_less(first[i].identifier@, first[end].identifier@));
                text::lemma_text_less_total(first[i].identifier@, first[end].identifier@);
                assert(b[j] == gpu);
            }
            if b.contains(gpu) {
                let i = choose|i: int| 0 <= i < b.len() && b[i] == gpu;
                assert(second[i] == gpu);
                assert(second.contains(gpu));
                let j = choose|j: int| 0 <= j < first.len() && first[j] == gpu;
                assert(text::text_less(second[i].identifier@, second[end].identifier@));
                text::lemma_text_less_total(second[i].identifier@, second[end].identifier@);
                assert(a[j] == gpu);
            }
        }
        lemma_ascending_unique(a, b);
        assert(first =~= a.push(first[end]));
        assert(second =~= b.push(second[end]));
    }
}

proof fn lemma_list_bytes_same(
    first: Seq<GpuDeviceProfile>,
    first_order: Seq<int>,
    second: Seq<GpuDeviceProfile>,
    second_order: Seq<int>,
)
    requires
        listed(first, first_order) == listed(second, second_order),
    ensures
        gpu_list_bytes(first, first_order) == gpu_list_bytes(second, second_order),
    decreases first_order.len(),
{
    let (a, b) = (listed(first, first_order), listed(second, second_order));
    assert(a.len() == first_order.len() && b.len() == second_order.len());
    if first_order.len() > 0 {
        assert(a.last() == first[first_order.last()]);
        assert(b.last() == second[second_order.last()]);
        assert(listed(first, first_order.drop_last()) =~= a.drop_last());
        assert(listed(second, second_order.drop_last()) =~= b.drop_last());
        lemma_list_bytes_same(
            first,
            first_order.drop_last(),
            second,
            second_order.drop_last(),
        );
    }
}

/// The same devices in another order are listed alike.
proof fn lemma_listing_unique(a: Seq<GpuDeviceProfile>, b: Seq<GpuDeviceProfile>)
    requires
        gpus_check(a) is Ok,
        gpus_check(b) is Ok,
        a.to_multiset() == b.to_multiset(),
    ensures
        gpu_list_bytes(a, text::name_order(gpu_identifiers(a))) == gpu_list_bytes(
            b,
            text::name_order(gpu_identifiers(b)),
        ),
{
    a.to_multiset_ensures();
    b.to_multiset_ensures();
    lemma_listed(a);
    lemma_listed(b);
    let a_order = text::name_order(gpu_identifiers(a));
    let b_order = text::name_order(gpu_identifiers(b));
    let a_sorted = listed(a, a_order);
    let b_sorted = listed(b, b_order);
    assert forall|gpu: GpuDeviceProfile| a_sorted.contains(gpu) <==> b_sorted.contains(gpu) by {
        assert(a.contains(gpu) <==> a.to_multiset().count(gpu) > 0);
        assert(b.contains(gpu) <==> b.to_multiset().count(gpu) > 0);
    }
    lemma_ascending_unique(a_sorted, b_sorted);
    lemma_list_bytes_same(a, a_order, b, b_order);
}

/// Two readings of one machine have one fingerprint, whatever memory is free,
/// whatever kernel runs, and in whatever order the devices were found.
pub proof fn lemma_machine_fingerprint_stable(first: MachineProfile, second: MachineProfile)
    requires
        second == (MachineProfile {
            kernel_version: second.kernel_version,
            available_ram_bytes: second.available_ram_bytes,
            gpus: second.gpus,
            ..first
        }),
        first.gpus@ == second.gpus@ || {
            &&& gpus_check(first.gpus@) is Ok
            &&& gpus_check(second.gpus@) is Ok
            &&& first.gpus@.to_multiset() == second.gpus@.to_multiset()
        },
    ensures
        machine_fingerprint(first) == machine_fingerprint(second),
{
    let (a, b) = (first.gpus@, second.gpus@);
    if a != b {
        lemma_listing_unique(a, b);
    }
}

/// Moving or replacing the model file on the same storage keeps the storage
/// fingerprint.
pub proof fn lemma_storage_fingerprint_stable(first: StorageProfile, second: StorageProfile)
    requires
        second == (StorageProfile {
            model_path: second.model_path,
            file_size_bytes: second.file_size_bytes,
            ..first
        }),
    ensures
        storage_fingerprint(first) == storage_fingerprint(second),
{
}

/// Moving a model file keeps its descriptor fingerprint.
pub proof fn lemma_model_fingerprint_stable(first: GgufModel, second: GgufModel)
    requires
        second == (GgufModel { path: second.path, ..first }),
    ensures
        model_fingerprint(first) == model_fingerprint(second),
{
}

#[derive(Debug, Clone, Copy, PartialEq, Eq, Structural)]
pub enum StrategyId {
    CpuLayerStreaming,
    GpuLayerOffload,
}

#[derive(Debug, Clone, Copy, PartialEq, Eq, Structural)]
pub struct StrategyDefinition {
    pub id: StrategyId,
    pub runtime_available: bool,
    pub requires_gpu: bool,
}

/// The strategies, with what the runtime implements of them.
pub open spec fn registry() -> Seq<StrategyDefinition> {
    seq![
        StrategyDefinition {
            id: StrategyId::CpuLayerStreaming,
            runtime_available: true,
            requires_gpu: false,
        },
        StrategyDefinition {
            id: StrategyId::GpuLayerOffload,
            runtime_available: GPU_EXECUTION_IMPLEMENTED,
            requires_gpu: true,
        },
    ]
}

pub fn strategy_registry() -> (strategies: [StrategyDefinition; 2])
    ensures
        strategies@ == registry(),
{
    let strategies = [
        StrategyDefinition {
            id: StrategyId::CpuLayerStreaming,
            runtime_available: true,
            requires_gpu: false,
        },
        StrategyDefinition {
            id: StrategyId::GpuLayerOffload,
            runtime_available: GPU_EXECUTION_IMPLEMENTED,
            requires_gpu: true,
        },
    ];
    assert(strategies@ =~= registry());
    strategies
}

/// The registry holds an implemented strategy with this identity and GPU need.
pub open spec fn strategy_implemented(id: StrategyId, requires_gpu: bool) -> bool {
    registry().contains(StrategyDefinition { id, runtime_available: true, requires_gpu })
}

fn is_strategy_implemented(id: StrategyId, requires_gpu: bool) -> (implemented: bool)
    ensures
        implemented == strategy_implemented(id, requires_gpu),
{
    let strategies = strategy_registry();
    for i in 0..2
        invariant
            strategies@ == registry(),
            forall|j: int|
                0 <= j < i ==> #[trigger] registry()[j] != (StrategyDefinition {
                    id,
                    runtime_available: true,
                    requires_gpu,
                }),
    {
        if strategies[i].id == id && strategies[i].requires_gpu == requires_gpu
            && strategies[i].runtime_available {
            assert(registry()[i as int] == strategies@[i as int]);
            return true;
        }
    }
    false
}

#[derive(Debug, Clone, PartialEq, Eq)]
pub struct CapabilitySet {
    pub schema_version: u32,
    pub machine_fingerprint: u64,
    pub model_fingerprint: u64,
    pub storage_fingerprint: u64,
    pub storage_usable: bool,
    pub cpu_backend_usable: bool,
    pub cpu_simd_avx2: bool,
    pub gpu_backend_usable: bool,
    pub model_execution_compatible: bool,
    pub layer_cache_possible: bool,
    pub read_coalescing_possible: bool,
    pub grouped_read_buffer_reuse_possible: bool,
    pub supported_tensor_formats: Vec<String>,
    pub unsupported_tensor_formats: Vec<String>,
}

/// The content of a capability set.
#[verifier::ext_equal]
pub struct CapabilityFacts {
    pub schema_version: u32,
    pub machine_fingerprint: u64,
    pub model_fingerprint: u64,
    pub storage_fingerprint: u64,
    pub storage_usable: bool,
    pub cpu_backend_usable: bool,
    pub cpu_simd_avx2: bool,
    pub gpu_backend_usable: bool,
    pub model_execution_compatible: bool,
    pub layer_cache_possible: bool,
    pub read_coalescing_possible: bool,
    pub grouped_read_buffer_reuse_possible: bool,
    pub supported_tensor_formats: Seq<Seq<char>>,
    pub unsupported_tensor_formats: Seq<Seq<char>>,
}

impl View for CapabilitySet {
    type V = CapabilityFacts;

    open spec fn view(&self) -> CapabilityFacts {
        CapabilityFacts {
            schema_version: self.schema_version,
            machine_fingerprint: self.machine_fingerprint,
            model_fingerprint: self.model_fingerprint,
            storage_fingerprint: self.storage_fingerprint,
            storage_usable: self.storage_usable,
            cpu_backend_usable: self.cpu_backend_usable,
            cpu_simd_avx2: self.cpu_simd_avx2,
            gpu_backend_usable: self.gpu_backend_usable,
            model_execution_compatible: self.model_execution_compatible,
            layer_cache_possible: self.layer_cache_possible,
            read_coalescing_possible: self.read_coalescing_possible,
            grouped_read_buffer_reuse_possible: self.grouped_read_buffer_reuse_possible,
            supported_tensor_formats: text::texts(self.supported_tensor_formats@),
            unsupported_tensor_formats: text::texts(self.unsupported_tensor_formats@),
        }
    }
}

/// The names of the formats that are, or are not, supported, in order.
pub open spec fn formats_by_support(formats: Seq<TensorFormatProfile>, supported: bool) -> Seq<
    Seq<char>,
>
    decreases formats.len(),
{
    if formats.len() == 0 {
        Seq::empty()
    } else {
        let earlier = formats_by_support(formats.drop_last(), supported);
        if formats.last().runtime_supported == supported {
            earlier.push(formats.last().format@)
        } else {
            earlier
        }
    }
}

pub open spec fn any_usable_gpu(gpus: Seq<GpuDeviceProfile>) -> bool {
    exists|i: int| 0 <= i < gpus.len() && (#[trigger] gpus[i]).backend.usable
}

/// The capabilities that the profiles and the static plan add up to. Nothing
/// measured enters.
pub open spec fn derived_capabilities(
    machine: MachineProfile,
    model: ModelProfile,
    storage: StorageProfile,
    static_plan: PlanResult,
) -> CapabilityFacts {
    let execution = static_plan.execution_memory;
    let cpu_usable = machine.cpu_backend.usable && strategy_implemented(
        StrategyId::CpuLayerStreaming,
        false,
    );
    CapabilityFacts {
        schema_version: PROFILE_SCHEMA_VERSION,
        machine_fingerprint: machine_fingerprint(machine),
        model_fingerprint: model.identity.descriptor_fingerprint,
        storage_fingerprint: storage_fingerprint(storage),
        storage_usable: storage.seekable,
        cpu_backend_usable: cpu_usable,
        cpu_simd_avx2: cpu_usable && machine.cpu_features.spec_contains(CpuFeature::Avx2),
        gpu_backend_usable: any_usable_gpu(machine.gpus@) && strategy_implemented(
            StrategyId::GpuLayerOffload,
            true,
        ),
        model_execution_compatible: model.execution_compatibility
            == ModelExecutionCompatibility::Executable && execution is Some,
        layer_cache_possible: execution is Some && execution->0.min_layer_resident_bytes > 0
            && execution->0.layer_cache_capacity_bytes >= execution->0.min_layer_resident_bytes,
        read_coalescing_possible: execution is Some && storage.seekable
            && model.has_coalescible_layer_reads,
        grouped_read_buffer_reuse_possible: execution is Some && storage.seekable
            && model.has_reusable_grouped_read_candidate,
        supported_tensor_formats: formats_by_support(model.tensor_formats@, true),
        unsupported_tensor_formats: formats_by_support(model.tensor_formats@, false),
    }
}

fn format_names(model: &ModelProfile, supported: bool) -> (names: Vec<String>)
    ensures
        text::texts(names@) == formats_by_support(model.tensor_formats@, supported),
{
    let ghost formats = model.tensor_formats@;
    let mut names: Vec<String> = Vec::new();
    assert(text::texts(names@) =~= formats_by_support(formats.take(0), supported));
    for i in 0..model.tensor_formats.len()
        invariant
            formats == model.tensor_formats@,
            text::texts(names@) == formats_by_support(formats.take(i as int), supported),
    {
        let ghost before = names@;
        proof {
            assert(formats.take(i as int + 1).drop_last() =~= formats.take(i as int));
        }
        if model.tensor_formats[i].runtime_supported == supported {
            names.push(model.tensor_formats[i].format.clone());
            assert(text::texts(names@) =~= text::texts(before).push(
                formats[i as int].format@,
            ));
        }
    }
    assert(formats.take(formats.len() as int) =~= formats);
    names
}

fn has_usable_gpu(machine: &MachineProfile) -> (found: bool)
    ensures
        found == any_usable_gpu(machine.gpus@),
{
    for i in 0..machine.gpus.len()
        invariant
            forall|j: int| 0 <= j < i ==> !(#[trigger] machine.gpus@[j]).backend.usable,
    {
        if machine.gpus[i].backend.usable {
            return true;
        }
    }
    false
}

impl CapabilitySet {
    pub fn derive(
        machine: &MachineProfile,
        model: &ModelProfile,
        storage: &StorageProfile,
        static_plan: &PlanResult,
    ) -> (capabilities: Self)
        ensures
            capabilities@ == derived_capabilities(*machine, *model, *storage, *static_plan),
    {
        let execution_known = static_plan.execution_memory.is_some();
        let layer_cache_possible = match static_plan.execution_memory {
            Some(memory) => memory.min_layer_resident_bytes > 0
                && memory.layer_cache_capacity_bytes >= memory.min_layer_resident_bytes,
            None => false,
        };
        let cpu_usable = machine.cpu_backend.usable && is_strategy_implemented(
            StrategyId::CpuLayerStreaming,
            false,
        );
        CapabilitySet {
            schema_version: PROFILE_SCHEMA_VERSION,
            machine_fingerprint: machine.fingerprint(),
            model_fingerprint: model.identity.descriptor_fingerprint,
            storage_fingerprint: storage.fingerprint(),
            storage_usable: storage.seekable,
            cpu_backend_usable: cpu_usable,
            cpu_simd_avx2: cpu_usable && machine.cpu_features.contains(&CpuFeature::Avx2),
            gpu_backend_usable: has_usable_gpu(machine) && is_strategy_implemented(
                StrategyId::GpuLayerOffload,
                true,
            ),
            model_execution_compatible: model.execution_compatibility
                == ModelExecutionCompatibility::Executable && execution_known,
            layer_cache_possible,
            read_coalescing_possible: execution_known && storage.seekable
                && model.has_coalescible_layer_reads,
            grouped_read_buffer_reuse_possible: execution_known && storage.seekable
                && model.has_reusable_grouped_read_candidate,
            supported_tensor_formats: format_names(model, true),
            unsupported_tensor_formats: format_names(model, false),
        }
    }

    /// Whether two capability sets say the same.
    pub fn same_as(&self, other: &CapabilitySet) -> (same: bool)
        ensures
            same == (self@ == other@),
    {
        let formats_same = text::same_texts(
            &self.supported_tensor_formats,
            &other.supported_tensor_formats,
        ) && text::same_texts(&self.unsupported_tensor_formats, &other.unsupported_tensor_formats);
        let same = self.schema_version == other.schema_version && self.machine_fingerprint
            == other.machine_fingerprint && self.model_fingerprint == other.model_fingerprint
            && self.storage_fingerprint == other.storage_fingerprint && self.storage_usable
            == other.storage_usable && self.cpu_backend_usable == other.cpu_backend_usable
            && self.cpu_simd_avx2 == other.cpu_simd_avx2 && self.gpu_backend_usable
            == other.gpu_backend_usable && self.model_execution_compatible
            == other.model_execution_compatible && self.layer_cache_possible
            == other.layer_cache_possible && self.read_coalescing_possible
            == other.read_coalescing_possible && self.grouped_read_buffer_reuse_possible
            == other.grouped_read_buffer_reuse_possible && formats_same;
        same
    }
}

/// No GPU strategy is implemented, so no profile yields a usable GPU backend.
pub proof fn lemma_no_gpu_backend(
    machine: MachineProfile,
    model: ModelProfile,
    storage: StorageProfile,
    static_plan: PlanResult,
)
    ensures
        !derived_capabilities(machine, model, storage, static_plan).gpu_backend_usable,
        derived_capabilities(machine, model, storage, static_plan).cpu_backend_usable
            == machine.cpu_backend.usable,
{
    let wanted = StrategyDefinition {
        id: StrategyId::GpuLayerOffload,
        runtime_available: true,
        requires_gpu: true,
    };
    assert forall|i: int| 0 <= i < registry().len() implies registry()[i] != wanted by {}
    assert(registry()[0] == (StrategyDefinition {
        id: StrategyId::CpuLayerStreaming,
        runtime_available: true,
        requires_gpu: false,
    }));
}

#[derive(Debug, Clone, Copy, PartialEq, Eq, Structural)]
pub struct PresetPolicy {
    pub mode: OperatingMode,
    pub thread_fraction_numerator: usize,
    pub thread_fraction_denominator: usize,
    /// Fraction of the statically available layer-cache capacity, in basis points.
    pub layer_cache_capacity_basis_points: u16,
    pub read_coalescing: bool,
    pub grouped_read_buffer_reuse: bool,
    pub allow_gpu: bool,
}

impl OperatingMode {
    pub open spec fn spec_policy(self) -> PresetPolicy {
        match self {
            OperatingMode::BackgroundConstrained => PresetPolicy {
                mode: self,
                thread_fraction_numerator: 1,
                thread_fraction_denominator: 2,
                layer_cache_capacity_basis_points: 0,
                read_coalescing: true,
                grouped_read_buffer_reuse: false,
                allow_gpu: false,
            },
            OperatingMode::MaximumPerformance => PresetPolicy {
                mode: self,
                thread_fraction_numerator: 1,
                thread_fraction_denominator: 1,
                layer_cache_capacity_basis_points: 10000,
                read_coalescing: true,
                grouped_read_buffer_reuse: true,
                allow_gpu: true,
            },
            OperatingMode::BalancedNormal | OperatingMode::Advanced => PresetPolicy {
                mode: self,
                thread_fraction_numerator: 3,
                thread_fraction_denominator: 4,
                layer_cache_capacity_basis_points: 5000,
                read_coalescing: true,
                grouped_read_buffer_reuse: true,
                allow_gpu: true,
            },
        }
    }

    pub fn policy(self) -> (policy: PresetPolicy)
        ensures
            policy == self.spec_policy(),
    {
        match self {
            OperatingMode::BackgroundConstrained => PresetPolicy {
                mode: self,
                thread_fraction_numerator: 1,
                thread_fraction_denominator: 2,
                layer_cache_capacity_basis_points: 0,
                read_coalescing: true,
                grouped_read_buffer_reuse: false,
                allow_gpu: false,
            },
            OperatingMode::MaximumPerformance => PresetPolicy {
                mode: self,
                thread_fraction_numerator: 1,
                thread_fraction_denominator: 1,
                layer_cache_capacity_basis_points: 10000,
                read_coalescing: true,
                grouped_read_buffer_reuse: true,
                allow_gpu: true,
            },
            OperatingMode::BalancedNormal | OperatingMode::Advanced => PresetPolicy {
                mode: self,
                thread_fraction_numerator: 3,
                thread_fraction_denominator: 4,
                layer_cache_capacity_basis_points: 5000,
                read_coalescing: true,
                grouped_read_buffer_reuse: true,
                allow_gpu: true,
            },
        }
    }
}

/// When a user profile is accepted: it has the current schema, a budget, no empty
/// limit, and overrides only in advanced mode, none of them contradictory.
pub proof fn lemma_user_checked(user: UserProfile)
    ensures
        ({
            let advanced = user.advanced;
            let overridden = advanced.thread_count is Some || advanced.layer_cache_enabled is Some
                || advanced.layer_cache_capacity_bytes is Some || advanced.read_coalescing_enabled
                is Some || advanced.grouped_read_buffer_reuse_enabled is Some
                || advanced.gpu_device_id is Some;
            let capacity = advanced.layer_cache_capacity_bytes;
            &&& user_check(user) is Ok <==> {
                &&& user.schema_version == 1
                &&& user.ram_budget_bytes > 0
                &&& user.cpu_thread_limit is Some ==> user.cpu_thread_limit->0 > 0
                &&& overridden ==> user.mode == OperatingMode::Advanced
                &&& advanced.thread_count is Some ==> advanced.thread_count->0 > 0
                &&& capacity is Some ==> 0 < capacity->0 <= user.ram_budget_bytes
                    && advanced.layer_cache_enabled != Some(false)
                &&& advanced.gpu_device_id is Some ==> user.gpu_preference
                    != GpuPreference::Disabled
            }
            &&& user_check(user) matches Err(PlannerError::Infeasible(reason)) ==> reason
                == FeasibilityRejection::AdvancedOverrideRequiresAdvancedMode && overridden
                && user.mode != OperatingMode::Advanced
        }),
{
}

/// When the devices of a machine are accepted: each has an identifier of its own,
/// and none is usable without being supported or supported without being there.
pub proof fn lemma_gpus_checked(gpus: Seq<GpuDeviceProfile>)
    ensures
        gpus_check(gpus) is Ok <==> {
            &&& forall|i: int|
                0 <= i < gpus.len() ==> (#[trigger] gpus[i]).identifier@.len() > 0 && (
                gpus[i].backend.usable ==> gpus[i].backend.supported) && (gpus[i].backend.supported
                    ==> gpus[i].backend.detected)
            &&& forall|i: int, j: int|
                #![trigger gpus[i], gpus[j]]
                0 <= i < j < gpus.len() ==> gpus[i].identifier@ != gpus[j].identifier@
        },
        gpus_check(gpus) is Err ==> gpus_check(gpus)->Err_0 is InvalidProfile,
    decreases gpus.len(),
{
    if gpus.len() > 0 {
        let shorter = gpus.drop_last();
        let last = gpus.len() - 1;
        lemma_gpus_checked(shorter);
        let names = gpu_identifiers(shorter);
        if names.contains(gpus.last().identifier@) {
            let k = choose|k: int| 0 <= k < names.len() && names[k] == gpus.last().identifier@;
            assert(gpus[k].identifier@ == gpus[last].identifier@);
        } else {
            assert forall|i: int| 0 <= i < last implies (#[trigger] gpus[i]).identifier@
                != gpus[last].identifier@ by {
                assert(names[i] == gpus[i].identifier@);
            }
        }
        assert(forall|i: int| 0 <= i < last ==> #[trigger] gpus[i] == shorter[i]);
        if gpus_check(gpus) is Ok {
            assert forall|i: int, j: int|
                #![trigger gpus[i], gpus[j]]
                0 <= i < j < gpus.len() implies gpus[i].identifier@ != gpus[j].identifier@ by {
                if j < last {
                    assert(shorter[i].identifier@ != shorter[j].identifier@);
                }
            }
        } else if gpus_check(shorter) is Err {
            if forall|i: int|
                0 <= i < gpus.len() ==> (#[trigger] gpus[i]).identifier@.len() > 0 && (
                gpus[i].backend.usable ==> gpus[i].backend.supported) && (gpus[i].backend.supported
                    ==> gpus[i].backend.detected) {
                assert(forall|i: int|
                    0 <= i < shorter.len() ==> #[trigger] shorter[i] == gpus[i]);
                let (i, j) = choose|i: int, j: int|
                    #![trigger shorter[i], shorter[j]]
                    0 <= i < j < shorter.len() && shorter[i].identifier@ == shorter[j].identifier@;
                assert(gpus[i].identifier@ == gpus[j].identifier@);
            }
        }
    }
}

/// When a machine profile is accepted.
pub proof fn lemma_machine_checked(machine: MachineProfile)
    ensures
        machine_check(machine) is Ok <==> {
            &&& machine.schema_version == 1
            &&& machine.os@.len() > 0 && machine.architecture@.len() > 0
            &&& machine.logical_cpu_cores > 0
            &&& machine.physical_cpu_cores is Some ==> 0 < machine.physical_cpu_cores->0
                <= machine.logical_cpu_cores
            &&& machine.total_ram_bytes is Some ==> machine.total_ram_bytes->0 > 0
            &&& machine.total_ram_bytes is Some && machine.available_ram_bytes is Some
                ==> machine.available_ram_bytes->0 <= machine.total_ram_bytes->0
            &&& machine.cpu_backend.usable ==> machine.cpu_backend.supported
            &&& machine.cpu_backend.supported ==> machine.cpu_backend.detected
            &&& gpus_check(machine.gpus@) is Ok
        },
{
}

/// What is possible for a model on a machine, read off the profiles.
pub proof fn lemma_capabilities(
    machine: MachineProfile,
    model: ModelProfile,
    storage: StorageProfile,
    static_plan: PlanResult,
)
    ensures
        ({
            let can = derived_capabilities(machine, model, storage, static_plan);
            let execution = static_plan.execution_memory;
            &&& can.schema_version == 1
            &&& can.machine_fingerprint == machine_fingerprint(machine)
            &&& can.model_fingerprint == model.identity.descriptor_fingerprint
            &&& can.storage_fingerprint == storage_fingerprint(storage)
            &&& can.storage_usable <==> storage.seekable
            &&& can.cpu_backend_usable <==> machine.cpu_backend.usable
            &&& can.cpu_simd_avx2 <==> machine.cpu_backend.usable && machine.cpu_features.avx2
            &&& can.model_execution_compatible <==> model.execution_compatibility
                == ModelExecutionCompatibility::Executable && execution is Some
            &&& can.layer_cache_possible <==> execution is Some && 0
                < execution->0.min_layer_resident_bytes <= execution->0.layer_cache_capacity_bytes
            &&& can.read_coalescing_possible <==> execution is Some && storage.seekable
                && model.has_coalescible_layer_reads
            &&& can.grouped_read_buffer_reuse_possible <==> execution is Some && storage.seekable
                && model.has_reusable_grouped_read_candidate
        }),
{
    lemma_no_gpu_backend(machine, model, storage, static_plan);
}

/// Each format of a model is listed as supported or as unsupported, as it is,
/// and nothing else is listed.
pub proof fn lemma_formats_listed(formats: Seq<TensorFormatProfile>, supported: bool)
    ensures
        forall|i: int|
            0 <= i < formats.len() && (#[trigger] formats[i]).runtime_supported == supported
                ==> formats_by_support(formats, supported).contains(formats[i].format@),
        forall|k: int|
            0 <= k < formats_by_support(formats, supported).len() ==> exists|i: int|
                0 <= i < formats.len() && (#[trigger] formats[i]).runtime_supported == supported
                    && formats[i].format@ == #[trigger] formats_by_support(formats, supported)[k],
        formats_by_support(formats, true).len() + formats_by_support(formats, false).len()
            == formats.len(),
    decreases formats.len(),
{
    if formats.len() > 0 {
        let shorter = formats.drop_last();
        let last = formats.len() - 1;
        lemma_formats_listed(shorter, supported);
        lemma_formats_listed(shorter, !supported);
        let listed = formats_by_support(formats, supported);
        let earlier = formats_by_support(shorter, supported);
        assert forall|i: int|
            0 <= i < formats.len() && (#[trigger] formats[i]).runtime_supported
                == supported implies listed.contains(formats[i].format@) by {
            if i < last {
                assert(shorter[i] == formats[i]);
                let k = choose|k: int| 0 <= k < earlier.len() && earlier[k] == formats[i].format@;
                assert(listed[k] == formats[i].format@);
            } else {
                assert(listed[listed.len() - 1] == formats[i].format@);
            }
        }
        assert forall|k: int| 0 <= k < listed.len() implies exists|i: int|
            0 <= i < formats.len() && (#[trigger] formats[i]).runtime_supported == supported
                && formats[i].format@ == #[trigger] listed[k] by {
            if k < earlier.len() {
                let i = choose|i: int|
                    0 <= i < shorter.len() && (#[trigger] shorter[i]).runtime_supported
                        == supported && shorter[i].format@ == earlier[k];
                assert(formats[i].format@ == listed[k]);
            } else {
                assert(formats[last].format@ == listed[k]);
            }
        }
    }
}

/// What a model profile says of a model.
pub proof fn lemma_model_profile(profile: ModelProfile, model: GgufModel)
    requires
        is_profile_of(profile, model),
    ensures
        ({
            let tensors = gguf::facts(model.tensors@);
            let layers = model.info.block_count;
            &&& profile.schema_version == 1
            &&& profile.context_size == model.info.context_length
            &&& profile.layer_count == layers
            &&& profile.tensor_count == model.tensors@.len()
            &&& profile.file_size_bytes == model.file_size
            &&& text::text_option(profile.architecture) == text::text_option(
                model.info.architecture,
            )
            &&& profile.total_tensor_elements == fitting_count(summed_elements(tensors))
            &&& profile.has_coalescible_layer_reads ==> layers is Some && exists|i: nat|
                i < layers->0 && shares_reads(#[trigger] layer::layer_tensors(tensors, i), 1)
            &&& profile.has_reusable_grouped_read_candidate ==> layers is Some && exists|i: nat|
                i < layers->0 && shares_reads(#[trigger] layer::layer_tensors(tensors, i), 2)
            &&& layers is Some && layers->0 <= usize::MAX ==> forall|i: nat|
                i < layers->0 && shares_reads(#[trigger] layer::layer_tensors(tensors, i), 1)
                    ==> profile.has_coalescible_layer_reads
            &&& layers is Some && layers->0 <= usize::MAX ==> forall|i: nat|
                i < layers->0 && shares_reads(#[trigger] layer::layer_tensors(tensors, i), 2)
                    ==> profile.has_reusable_grouped_read_candidate
            &&& profile.execution_compatibility == ModelExecutionCompatibility::Executable
                <==> model.info.architecture is Some && ((model.info.architecture->0)@ == "llama"@
                || (model.info.architecture->0)@ == "qwen2"@)
        }),
{
    let tensors = gguf::facts(model.tensors@);
    lemma_total_elements(tensors);
    let layers = stated_layers(model.info);
    if profile.has_coalescible_layer_reads {
        let i = choose|i: nat| i < layers && #[trigger] layer_grouped_ranges(tensors, i) > 0;
        assert(shares_reads(layer::layer_tensors(tensors, i), 1));
    }
    if profile.has_reusable_grouped_read_candidate {
        let i = choose|i: nat| i < layers && #[trigger] layer_grouped_ranges(tensors, i) >= 2;
        assert(shares_reads(layer::layer_tensors(tensors, i), 2));
    }
    assert forall|i: nat|
        i < layers && shares_reads(
            #[trigger] layer::layer_tensors(tensors, i),
            1,
        ) implies profile.has_coalescible_layer_reads by {
        assert(layer_grouped_ranges(tensors, i) > 0);
    }
    assert forall|i: nat|
        i < layers && shares_reads(
            #[trigger] layer::layer_tensors(tensors, i),
            2,
        ) implies profile.has_reusable_grouped_read_candidate by {
        assert(layer_grouped_ranges(tensors, i) >= 2);
    }
    if model.info.architecture is Some {
        support::lemma_architectures((model.info.architecture->0)@);
    }
}

/// The tensors of a layer have a read plan in which at least `count` reads bring more
/// than one tensor.
pub open spec fn shares_reads(members: Seq<gguf::TensorFacts>, count: nat) -> bool {
    layer_read::read_plan(members) is Ok && layer_read::grouped_count(
        layer_read::read_plan(members)->Ok_0.ranges,
    ) >= count
}

proof fn lemma_total_elements(tensors: Seq<gguf::TensorFacts>)
    ensures
        total_elements(tensors) == fitting_count(summed_elements(tensors)),
        summed_elements(tensors) >= 0,
    decreases tensors.len(),
{
    if tensors.len() > 0 {
        lemma_total_elements(tensors.drop_last());
    }
}

/// The formats that a model needs are listed with the capabilities, by whether they
/// can be run.
pub proof fn lemma_capability_formats(
    machine: MachineProfile,
    model: ModelProfile,
    storage: StorageProfile,
    static_plan: PlanResult,
)
    ensures
        ({
            let can = derived_capabilities(machine, model, storage, static_plan);
            let formats = model.tensor_formats@;
            &&& forall|i: int|
                0 <= i < formats.len() && (#[trigger] formats[i]).runtime_supported
                    ==> can.supported_tensor_formats.contains(formats[i].format@)
            &&& forall|i: int|
                0 <= i < formats.len() && !(#[trigger] formats[i]).runtime_supported
                    ==> can.unsupported_tensor_formats.contains(formats[i].format@)
            &&& can.supported_tensor_formats.len() + can.unsupported_tensor_formats.len()
                == formats.len()
        }),
{
    lemma_formats_listed(model.tensor_formats@, true);
    lemma_formats_listed(model.tensor_formats@, false);
}

/// When a model profile is accepted: it is of the current schema, identifies its
/// model, and its formats are named, used, listed once, and account for all tensors.
pub proof fn lemma_model_checked(model: ModelProfile)
    ensures
        model_check(model) is Ok <==> {
            let formats = model.tensor_formats@;
            &&& model.schema_version == 1
            &&& model.identity.descriptor_fingerprint != 0
            &&& forall|i: int|
                0 <= i < formats.len() ==> (#[trigger] formats[i]).format@.len() > 0
                    && formats[i].tensor_count > 0
            &&& forall|i: int, j: int|
                #![trigger formats[i], formats[j]]
                0 <= i < j < formats.len() ==> formats[i].format@ != formats[j].format@
            &&& counted_tensors(format_facts(formats)) == model.tensor_count
        },
{
}

/// When a storage profile is accepted.
pub proof fn lemma_storage_checked(storage: StorageProfile)
    ensures
        storage_check(storage) is Ok <==> storage.schema_version == 1 && storage.model_path@.len()
            > 0,
{
}

/// The text of an optional string fits in memory.
pub open spec fn text_fits(value: Option<String>) -> bool {
    vstd::utf8::encode_utf8(fingerprint::text_or_empty(value)).len() <= u64::MAX
}

/// The numbers by which storage kinds enter a fingerprint.
pub proof fn lemma_kind_numbers(first: StorageKind, second: StorageKind)
    ensures
        first.spec_number() == second.spec_number() ==> first == second,
        first.spec_number() < 8,
        StorageKind::Unknown.spec_number() == 0,
        StorageKind::Local.spec_number() < StorageKind::Network.spec_number()
            < StorageKind::Removable.spec_number() < StorageKind::MemoryBacked.spec_number()
            < StorageKind::Nvme.spec_number() < StorageKind::SolidState.spec_number()
            < StorageKind::Rotational.spec_number(),
{
}

/// A storage's fingerprint is taken of bytes that tell storages apart by their
/// filesystem, device, kind and whether they can be read at any place.
pub proof fn lemma_storage_told_apart(first: StorageProfile, second: StorageProfile)
    requires
        storage_bytes(first) == storage_bytes(second),
        text_fits(first.filesystem_id),
        text_fits(first.device_id),
        text_fits(second.filesystem_id),
        text_fits(second.device_id),
    ensures
        fingerprint::text_or_empty(first.filesystem_id) == fingerprint::text_or_empty(
            second.filesystem_id,
        ),
        fingerprint::text_or_empty(first.device_id) == fingerprint::text_or_empty(second.device_id),
        first.kind == second.kind,
        first.seekable == second.seekable,
{
    let nothing = Seq::<u8>::empty();
    let a3 = fingerprint::flag_bytes(first.seekable) + nothing;
    let b3 = fingerprint::flag_bytes(second.seekable) + nothing;
    let a2 = fingerprint::integer_bytes(first.kind.spec_number()) + a3;
    let b2 = fingerprint::integer_bytes(second.kind.spec_number()) + b3;
    let a1 = fingerprint::optional_string_bytes(first.device_id) + a2;
    let b1 = fingerprint::optional_string_bytes(second.device_id) + b2;
    assert(storage_bytes(first) + nothing =~= storage_bytes(first));
    assert(storage_bytes(second) + nothing =~= storage_bytes(second));
    fingerprint::lemma_regrouped4(
        fingerprint::optional_string_bytes(first.filesystem_id),
        fingerprint::optional_string_bytes(first.device_id),
        fingerprint::integer_bytes(first.kind.spec_number()),
        fingerprint::flag_bytes(first.seekable),
        nothing,
    );
    fingerprint::lemma_regrouped4(
        fingerprint::optional_string_bytes(second.filesystem_id),
        fingerprint::optional_string_bytes(second.device_id),
        fingerprint::integer_bytes(second.kind.spec_number()),
        fingerprint::flag_bytes(second.seekable),
        nothing,
    );
    fingerprint::lemma_optional_told_apart(first.filesystem_id, second.filesystem_id, a1, b1);
    fingerprint::lemma_optional_told_apart(first.device_id, second.device_id, a2, b2);
    fingerprint::lemma_integer_told_apart(
        first.kind.spec_number(),
        second.kind.spec_number(),
        a3,
        b3,
    );
    lemma_kind_numbers(first.kind, second.kind);
    fingerprint::lemma_flag_told_apart(first.seekable, second.seekable, nothing, nothing);
}

/// A machine's fingerprint is taken of bytes that tell machines apart by their
/// platform, their cores and their memory, an unknown number counting as zero.
pub proof fn lemma_machine_told_apart(first: MachineProfile, second: MachineProfile)
    requires
        machine_bytes(first) == machine_bytes(second),
        vstd::utf8::encode_utf8(first.os@).len() <= u64::MAX,
        vstd::utf8::encode_utf8(second.os@).len() <= u64::MAX,
        vstd::utf8::encode_utf8(first.architecture@).len() <= u64::MAX,
        vstd::utf8::encode_utf8(second.architecture@).len() <= u64::MAX,
    ensures
        first.os@ == second.os@,
        first.architecture@ == second.architecture@,
        (first.physical_cpu_cores is Some && second.physical_cpu_cores is Some)
            ==> first.physical_cpu_cores == second.physical_cpu_cores,
        first.logical_cpu_cores == second.logical_cpu_cores,
        (first.total_ram_bytes is Some && second.total_ram_bytes is Some) ==> first.total_ram_bytes
            == second.total_ram_bytes,
{
    let cores_a: u64 = match first.physical_cpu_cores {
        Some(cores) => cores as u64,
        None => 0,
    };
    let cores_b: u64 = match second.physical_cpu_cores {
        Some(cores) => cores as u64,
        None => 0,
    };
    let ram_a: u64 = match first.total_ram_bytes {
        Some(bytes) => bytes,
        None => 0,
    };
    let ram_b: u64 = match second.total_ram_bytes {
        Some(bytes) => bytes,
        None => 0,
    };
    let a5 = feature_bytes(first.cpu_features) + (availability_bytes(first.cpu_backend) + (
    gpu_list_bytes(first.gpus@, text::name_order(gpu_identifiers(first.gpus@)))
        + cpu_model_bytes(first.cpu_model)));
    let b5 = feature_bytes(second.cpu_features) + (availability_bytes(second.cpu_backend) + (
    gpu_list_bytes(second.gpus@, text::name_order(gpu_identifiers(second.gpus@)))
        + cpu_model_bytes(second.cpu_model)));
    let a4 = fingerprint::integer_bytes(ram_a) + a5;
    let b4 = fingerprint::integer_bytes(ram_b) + b5;
    let a3 = fingerprint::integer_bytes(first.logical_cpu_cores as u64) + a4;
    let b3 = fingerprint::integer_bytes(second.logical_cpu_cores as u64) + b4;
    let a2 = fingerprint::integer_bytes(cores_a) + a3;
    let b2 = fingerprint::integer_bytes(cores_b) + b3;
    let a1 = fingerprint::string_bytes(first.architecture@) + a2;
    let b1 = fingerprint::string_bytes(second.architecture@) + b2;
    let front = fingerprint::string_bytes(first.os@) + fingerprint::string_bytes(
        first.architecture@,
    ) + fingerprint::integer_bytes(cores_a) + fingerprint::integer_bytes(first.logical_cpu_cores as u64);
    fingerprint::lemma_regrouped4(
        front + fingerprint::integer_bytes(ram_a),
        feature_bytes(first.cpu_features),
        availability_bytes(first.cpu_backend),
        gpu_list_bytes(first.gpus@, text::name_order(gpu_identifiers(first.gpus@))),
        cpu_model_bytes(first.cpu_model),
    );
    fingerprint::lemma_regrouped4(
        fingerprint::string_bytes(first.os@) + fingerprint::string_bytes(first.architecture@),
        fingerprint::integer_bytes(cores_a),
        fingerprint::integer_bytes(first.logical_cpu_cores as u64),
        fingerprint::integer_bytes(ram_a),
        a5,
    );
    fingerprint::lemma_regrouped2(
        fingerprint::string_bytes(first.os@),
        fingerprint::string_bytes(first.architecture@),
        a2,
    );
    let front_b = fingerprint::string_bytes(second.os@) + fingerprint::string_bytes(
        second.architecture@,
    ) + fingerprint::integer_bytes(cores_b) + fingerprint::integer_bytes(second.logical_cpu_cores as u64);
    fingerprint::lemma_regrouped4(
        front_b + fingerprint::integer_bytes(ram_b),
        feature_bytes(second.cpu_features),
        availability_bytes(second.cpu_backend),
        gpu_list_bytes(second.gpus@, text::name_order(gpu_identifiers(second.gpus@))),
        cpu_model_bytes(second.cpu_model),
    );
    fingerprint::lemma_regrouped4(
        fingerprint::string_bytes(second.os@) + fingerprint::string_bytes(second.architecture@),
        fingerprint::integer_bytes(cores_b),
        fingerprint::integer_bytes(second.logical_cpu_cores as u64),
        fingerprint::integer_bytes(ram_b),
        b5,
    );
    fingerprint::lemma_regrouped2(
        fingerprint::string_bytes(second.os@),
        fingerprint::string_bytes(second.architecture@),
        b2,
    );
    fingerprint::lemma_text_told_apart(first.os@, second.os@, a1, b1);
    fingerprint::lemma_text_told_apart(first.architecture@, second.architecture@, a2, b2);
    fingerprint::lemma_integer_told_apart(cores_a, cores_b, a3, b3);
    fingerprint::lemma_integer_told_apart(
        first.logical_cpu_cores as u64,
        second.logical_cpu_cores as u64,
        a4,
        b4,
    );
    fingerprint::lemma_integer_told_apart(ram_a, ram_b, a5, b5);
}

/// Machines that differ in nothing but a CPU feature, the state of the CPU backend or
/// the CPU's model have different bytes taken in.
pub proof fn lemma_cpu_told_apart(first: MachineProfile, second: MachineProfile)
    requires
        machine_bytes(first) == machine_bytes(second),
        first.os == second.os,
        first.architecture == second.architecture,
        first.physical_cpu_cores == second.physical_cpu_cores,
        first.logical_cpu_cores == second.logical_cpu_cores,
        first.total_ram_bytes == second.total_ram_bytes,
        first.gpus == second.gpus,
        text_fits(first.cpu_model),
        text_fits(second.cpu_model),
    ensures
        first.cpu_model == second.cpu_model ==> first.cpu_features.avx2 == second.cpu_features.avx2,
        first.cpu_features.avx2 == second.cpu_features.avx2 ==> {
            &&& first.cpu_backend.detected == second.cpu_backend.detected
            &&& first.cpu_backend.supported == second.cpu_backend.supported
            &&& first.cpu_backend.usable == second.cpu_backend.usable
            &&& fingerprint::text_or_empty(first.cpu_model) == fingerprint::text_or_empty(
                second.cpu_model,
            )
        },
{
    let head = fingerprint::string_bytes(first.os@) + fingerprint::string_bytes(
        first.architecture@,
    ) + fingerprint::integer_bytes(
        match first.physical_cpu_cores {
            Some(cores) => cores as u64,
            None => 0,
        },
    ) + fingerprint::integer_bytes(first.logical_cpu_cores as u64) + fingerprint::integer_bytes(
        match first.total_ram_bytes {
            Some(bytes) => bytes,
            None => 0,
        },
    );
    let gpus = gpu_list_bytes(first.gpus@, text::name_order(gpu_identifiers(first.gpus@)));
    let nothing = Seq::<u8>::empty();
    let tail_a = gpus + cpu_model_bytes(first.cpu_model);
    let tail_b = gpus + cpu_model_bytes(second.cpu_model);
    let rest_a = feature_bytes(first.cpu_features) + (availability_bytes(first.cpu_backend)
        + tail_a);
    let rest_b = feature_bytes(second.cpu_features) + (availability_bytes(second.cpu_backend)
        + tail_b);
    fingerprint::lemma_regrouped4(
        head,
        feature_bytes(first.cpu_features),
        availability_bytes(first.cpu_backend),
        gpus,
        cpu_model_bytes(first.cpu_model),
    );
    fingerprint::lemma_regrouped4(
        head,
        feature_bytes(second.cpu_features),
        availability_bytes(second.cpu_backend),
        gpus,
        cpu_model_bytes(second.cpu_model),
    );
    fingerprint::lemma_behind(head, rest_a, rest_b);
    fingerprint::lemma_lengths_taken_in(
        1,
        first.cpu_backend.detected,
        fingerprint::text_or_empty(first.cpu_model),
    );
    fingerprint::lemma_lengths_taken_in(
        1,
        first.cpu_backend.supported,
        fingerprint::text_or_empty(second.cpu_model),
    );
    fingerprint::lemma_lengths_taken_in(1, first.cpu_backend.usable, Seq::empty());
    fingerprint::lemma_lengths_taken_in(1, second.cpu_backend.detected, Seq::empty());
    fingerprint::lemma_lengths_taken_in(1, second.cpu_backend.supported, Seq::empty());
    fingerprint::lemma_lengths_taken_in(1, second.cpu_backend.usable, Seq::empty());
    assert(availability_bytes(first.cpu_backend).len() == 24);
    assert(availability_bytes(second.cpu_backend).len() == 24);
    if first.cpu_model == second.cpu_model {
        assert(rest_a.len() == rest_b.len());
    }
    if first.cpu_features.avx2 == second.cpu_features.avx2 {
        let features = feature_bytes(first.cpu_features);
        let state_a = availability_bytes(first.cpu_backend) + tail_a;
        let state_b = availability_bytes(second.cpu_backend) + tail_b;
        fingerprint::lemma_behind(features, state_a, state_b);
        let usable_a = fingerprint::flag_bytes(first.cpu_backend.usable) + tail_a;
        let usable_b = fingerprint::flag_bytes(second.cpu_backend.usable) + tail_b;
        let supported_a = fingerprint::flag_bytes(first.cpu_backend.supported) + usable_a;
        let supported_b = fingerprint::flag_bytes(second.cpu_backend.supported) + usable_b;
        fingerprint::lemma_regrouped3(
            fingerprint::flag_bytes(first.cpu_backend.detected),
            fingerprint::flag_bytes(first.cpu_backend.supported),
            fingerprint::flag_bytes(first.cpu_backend.usable),
            tail_a,
        );
        fingerprint::lemma_regrouped3(
            fingerprint::flag_bytes(second.cpu_backend.detected),
            fingerprint::flag_bytes(second.cpu_backend.supported),
            fingerprint::flag_bytes(second.cpu_backend.usable),
            tail_b,
        );
        fingerprint::lemma_flag_told_apart(
            first.cpu_backend.detected,
            second.cpu_backend.detected,
            supported_a,
            supported_b,
        );
        fingerprint::lemma_flag_told_apart(
            first.cpu_backend.supported,
            second.cpu_backend.supported,
            usable_a,
            usable_b,
        );
        fingerprint::lemma_flag_told_apart(
            first.cpu_backend.usable,
            second.cpu_backend.usable,
            tail_a,
            tail_b,
        );
        fingerprint::lemma_behind(
            gpus,
            cpu_model_bytes(first.cpu_model),
            cpu_model_bytes(second.cpu_model),
        );
        if first.cpu_model is Some && second.cpu_model is Some {
            let a = (first.cpu_model->0)@;
            let b = (second.cpu_model->0)@;
            assert(fingerprint::string_bytes(a) + nothing =~= fingerprint::string_bytes(a));
            assert(fingerprint::string_bytes(b) + nothing =~= fingerprint::string_bytes(b));
            fingerprint::lemma_text_told_apart(a, b, nothing, nothing);
        } else if first.cpu_model is Some || second.cpu_model is Some {
            assert(cpu_model_bytes(first.cpu_model).len() != cpu_model_bytes(second.cpu_model).len());
        }
    }
}

/// A device enters a fingerprint by bytes that tell devices apart by their identifier,
/// their name, their memory and what can be done with them.
pub proof fn lemma_gpu_told_apart(
    first: GpuDeviceProfile,
    second: GpuDeviceProfile,
    after: Seq<u8>,
    behind: Seq<u8>,
)
    requires
        gpu_bytes(first) + after == gpu_bytes(second) + behind,
        vstd::utf8::encode_utf8(first.identifier@).len() <= u64::MAX,
        vstd::utf8::encode_utf8(second.identifier@).len() <= u64::MAX,
        text_fits(first.name),
        text_fits(second.name),
    ensures
        first.identifier@ == second.identifier@,
        fingerprint::text_or_empty(first.name) == fingerprint::text_or_empty(second.name),
        (first.dedicated_memory_bytes is Some && second.dedicated_memory_bytes is Some)
            ==> first.dedicated_memory_bytes == second.dedicated_memory_bytes,
        first.backend.detected == second.backend.detected,
        first.backend.supported == second.backend.supported,
        first.backend.usable == second.backend.usable,
        after == behind,
{
    let memory_a: u64 = match first.dedicated_memory_bytes {
        Some(bytes) => bytes,
        None => 0,
    };
    let memory_b: u64 = match second.dedicated_memory_bytes {
        Some(bytes) => bytes,
        None => 0,
    };
    let a5 = fingerprint::flag_bytes(first.backend.usable) + after;
    let b5 = fingerprint::flag_bytes(second.backend.usable) + behind;
    let a4 = fingerprint::flag_bytes(first.backend.supported) + a5;
    let b4 = fingerprint::flag_bytes(second.backend.supported) + b5;
    let a3 = fingerprint::flag_bytes(first.backend.detected) + a4;
    let b3 = fingerprint::flag_bytes(second.backend.detected) + b4;
    let a2 = fingerprint::integer_bytes(memory_a) + a3;
    let b2 = fingerprint::integer_bytes(memory_b) + b3;
    let a1 = fingerprint::optional_string_bytes(first.name) + a2;
    let b1 = fingerprint::optional_string_bytes(second.name) + b2;
    fingerprint::lemma_regrouped4(
        fingerprint::string_bytes(first.identifier@),
        fingerprint::optional_string_bytes(first.name),
        fingerprint::integer_bytes(memory_a),
        availability_bytes(first.backend),
        after,
    );
    fingerprint::lemma_regrouped3(
        fingerprint::flag_bytes(first.backend.detected),
        fingerprint::flag_bytes(first.backend.supported),
        fingerprint::flag_bytes(first.backend.usable),
        after,
    );
    fingerprint::lemma_regrouped4(
        fingerprint::string_bytes(second.identifier@),
        fingerprint::optional_string_bytes(second.name),
        fingerprint::integer_bytes(memory_b),
        availability_bytes(second.backend),
        behind,
    );
    fingerprint::lemma_regrouped3(
        fingerprint::flag_bytes(second.backend.detected),
        fingerprint::flag_bytes(second.backend.supported),
        fingerprint::flag_bytes(second.backend.usable),
        behind,
    );
    fingerprint::lemma_text_told_apart(first.identifier@, second.identifier@, a1, b1);
    fingerprint::lemma_optional_told_apart(first.name, second.name, a2, b2);
    fingerprint::lemma_integer_told_apart(memory_a, memory_b, a3, b3);
    fingerprint::lemma_flag_told_apart(first.backend.detected, second.backend.detected, a4, b4);
    fingerprint::lemma_flag_told_apart(first.backend.supported, second.backend.supported, a5, b5);
    fingerprint::lemma_flag_told_apart(
        first.backend.usable,
        second.backend.usable,
        after,
        behind,
    );
}

/// A model file's fingerprint is taken of bytes that tell files apart by their
/// version, size and alignment, by what they say of the model and by the bytes of
/// their tensors, an absent number counting as the largest one.
pub proof fn lemma_model_told_apart(first: GgufModel, second: GgufModel)
    requires
        model_bytes(first) == model_bytes(second),
        text_fits(first.info.architecture),
        text_fits(second.info.architecture),
        text_fits(first.info.name),
        text_fits(second.info.name),
        text_fits(first.info.tokenizer_model),
        text_fits(second.info.tokenizer_model),
    ensures
        first.version == second.version,
        first.file_size == second.file_size,
        first.alignment == second.alignment,
        fingerprint::text_or_empty(first.info.architecture) == fingerprint::text_or_empty(
            second.info.architecture,
        ),
        fingerprint::text_or_empty(first.info.name) == fingerprint::text_or_empty(second.info.name),
        fingerprint::text_or_empty(first.info.tokenizer_model) == fingerprint::text_or_empty(
            second.info.tokenizer_model,
        ),
        or_maximum(first.info.context_length) == or_maximum(second.info.context_length),
        or_maximum(first.info.embedding_length) == or_maximum(second.info.embedding_length),
        or_maximum(first.info.block_count) == or_maximum(second.info.block_count),
        or_maximum(first.info.head_count) == or_maximum(second.info.head_count),
        or_maximum(first.info.head_count_kv) == or_maximum(second.info.head_count_kv),
        or_maximum(first.info.expert_count) == or_maximum(second.info.expert_count),
        or_maximum(first.info.expert_used_count) == or_maximum(second.info.expert_used_count),
        first.info.file_type == second.info.file_type,
        first.info.vocab_size is Some && second.info.vocab_size is Some ==> first.info.vocab_size
            == second.info.vocab_size,
        tensor_list_bytes(gguf::facts(first.tensors@)) == tensor_list_bytes(
            gguf::facts(second.tensors@),
        ),
{
    let a7 = tensor_list_bytes(gguf::facts(first.tensors@));
    let b7 = tensor_list_bytes(gguf::facts(second.tensors@));
    let a6 = fingerprint::integer_list_bytes(info_integers(first.info)) + a7;
    let b6 = fingerprint::integer_list_bytes(info_integers(second.info)) + b7;
    let a5 = fingerprint::optional_string_bytes(first.info.tokenizer_model) + a6;
    let b5 = fingerprint::optional_string_bytes(second.info.tokenizer_model) + b6;
    let a4 = fingerprint::optional_string_bytes(first.info.name) + a5;
    let b4 = fingerprint::optional_string_bytes(second.info.name) + b5;
    let a3 = fingerprint::optional_string_bytes(first.info.architecture) + a4;
    let b3 = fingerprint::optional_string_bytes(second.info.architecture) + b4;
    let a2 = fingerprint::integer_bytes(first.alignment) + a3;
    let b2 = fingerprint::integer_bytes(second.alignment) + b3;
    let a1 = fingerprint::integer_bytes(first.file_size) + a2;
    let b1 = fingerprint::integer_bytes(second.file_size) + b2;
    fingerprint::lemma_regrouped4(
        fingerprint::integer_bytes(first.version as u64),
        fingerprint::integer_bytes(first.file_size),
        fingerprint::integer_bytes(first.alignment),
        info_bytes(first.info),
        a7,
    );
    fingerprint::lemma_regrouped4(
        fingerprint::optional_string_bytes(first.info.architecture),
        fingerprint::optional_string_bytes(first.info.name),
        fingerprint::optional_string_bytes(first.info.tokenizer_model),
        fingerprint::integer_list_bytes(info_integers(first.info)),
        a7,
    );
    fingerprint::lemma_regrouped4(
        fingerprint::integer_bytes(second.version as u64),
        fingerprint::integer_bytes(second.file_size),
        fingerprint::integer_bytes(second.alignment),
        info_bytes(second.info),
        b7,
    );
    fingerprint::lemma_regrouped4(
        fingerprint::optional_string_bytes(second.info.architecture),
        fingerprint::optional_string_bytes(second.info.name),
        fingerprint::optional_string_bytes(second.info.tokenizer_model),
        fingerprint::integer_list_bytes(info_integers(second.info)),
        b7,
    );
    fingerprint::lemma_integer_told_apart(first.version as u64, second.version as u64, a1, b1);
    fingerprint::lemma_integer_told_apart(first.file_size, second.file_size, a2, b2);
    fingerprint::lemma_integer_told_apart(first.alignment, second.alignment, a3, b3);
    fingerprint::lemma_optional_told_apart(
        first.info.architecture,
        second.info.architecture,
        a4,
        b4,
    );
    fingerprint::lemma_optional_told_apart(first.info.name, second.info.name, a5, b5);
    fingerprint::lemma_optional_told_apart(
        first.info.tokenizer_model,
        second.info.tokenizer_model,
        a6,
        b6,
    );
    let integers_a = info_integers(first.info);
    let integers_b = info_integers(second.info);
    fingerprint::lemma_integers_told_apart(integers_a, integers_b, a7, b7);
    assert(integers_a[0] == integers_b[0]);
    assert(integers_a[1] == integers_b[1]);
    assert(integers_a[2] == integers_b[2]);
    assert(integers_a[3] == integers_b[3]);
    assert(integers_a[4] == integers_b[4]);
    assert(integers_a[5] == integers_b[5]);
    assert(integers_a[6] == integers_b[6]);
    assert(integers_a[7] == integers_b[7]);
    assert(integers_a[8] == integers_b[8]);
}

/// A tensor enters a fingerprint by bytes that tell tensors of as many dimensions
/// apart by their name, type, place, size and dimensions.
pub proof fn lemma_tensor_told_apart(
    first: gguf::TensorFacts,
    second: gguf::TensorFacts,
    after: Seq<u8>,
    behind: Seq<u8>,
)
    requires
        tensor_bytes(first) + after == tensor_bytes(second) + behind,
        first.dimensions.len() == second.dimensions.len(),
        vstd::utf8::encode_utf8(first.name).len() <= u64::MAX,
        vstd::utf8::encode_utf8(second.name).len() <= u64::MAX,
    ensures
        first.name == second.name,
        first.ggml_type.spec_id() == second.ggml_type.spec_id(),
        first.offset == second.offset,
        or_maximum(first.byte_length) == or_maximum(second.byte_length),
        first.num_elements == second.num_elements,
        first.dimensions == second.dimensions,
        after == behind,
{
    let a5 = fingerprint::integer_list_bytes(first.dimensions) + after;
    let b5 = fingerprint::integer_list_bytes(second.dimensions) + behind;
    let a4 = fingerprint::integer_bytes(first.num_elements) + a5;
    let b4 = fingerprint::integer_bytes(second.num_elements) + b5;
    let a3 = fingerprint::integer_bytes(or_maximum(first.byte_length)) + a4;
    let b3 = fingerprint::integer_bytes(or_maximum(second.byte_length)) + b4;
    let a2 = fingerprint::integer_bytes(first.offset) + a3;
    let b2 = fingerprint::integer_bytes(second.offset) + b3;
    let a1 = fingerprint::integer_bytes(first.ggml_type.spec_id() as u64) + a2;
    let b1 = fingerprint::integer_bytes(second.ggml_type.spec_id() as u64) + b2;
    assert(tensor_bytes(first) + after =~= fingerprint::string_bytes(first.name) + a1);
    assert(tensor_bytes(second) + behind =~= fingerprint::string_bytes(second.name) + b1);
    fingerprint::lemma_text_told_apart(first.name, second.name, a1, b1);
    fingerprint::lemma_integer_told_apart(
        first.ggml_type.spec_id() as u64,
        second.ggml_type.spec_id() as u64,
        a2,
        b2,
    );
    fingerprint::lemma_integer_told_apart(first.offset, second.offset, a3, b3);
    fingerprint::lemma_integer_told_apart(
        or_maximum(first.byte_length),
        or_maximum(second.byte_length),
        a4,
        b4,
    );
    fingerprint::lemma_integer_told_apart(first.num_elements, second.num_elements, a5, b5);
    fingerprint::lemma_integers_told_apart(first.dimensions, second.dimensions, after, behind);
}

/// Each strategy is registered once. The one that runs today streams layers through
/// the CPU, and only the other needs a device.
pub proof fn lemma_registry(strategy: StrategyId)
    ensures
        registry().len() == 2,
        exists|i: int| 0 <= i < registry().len() && (#[trigger] registry()[i]).id == strategy,
        forall|i: int, j: int|
            #![trigger registry()[i], registry()[j]]
            0 <= i < j < registry().len() ==> registry()[i].id != registry()[j].id,
        forall|i: int|
            #![trigger registry()[i]]
            0 <= i < registry().len() ==> {
                &&& registry()[i].requires_gpu <==> registry()[i].id == StrategyId::GpuLayerOffload
                &&& registry()[i].runtime_available <==> registry()[i].id
                    == StrategyId::CpuLayerStreaming
            },
{
    assert(registry()[0].id == StrategyId::CpuLayerStreaming);
    assert(registry()[1].id == StrategyId::GpuLayerOffload);
}

/// A backend's state makes sense where what can be used is supported and what is
/// supported was found.
pub proof fn lemma_availability_checked(availability: Availability, profile: &'static str)
    ensures
        availability_check(availability, profile) is Ok <==> (availability.usable
            ==> availability.supported) && (availability.supported ==> availability.detected),
{
}

/// What is wrong with a user's wishes is named by the first rule they break.
pub proof fn lemma_user_refused(user: UserProfile)
    ensures
        ({
            let result = user_check(user);
            let advanced = user.advanced;
            let refused = |field: &'static str|
                Err::<(), PlannerError>(
                    PlannerError::InvalidProfile { profile: "UserProfile", field },
                );
            let known = user.schema_version == 1;
            let budget = known && user.ram_budget_bytes > 0;
            let threads = budget && user.cpu_thread_limit != Some(0usize);
            let overrides = threads && (user.mode == OperatingMode::Advanced || (
            advanced.thread_count is None && advanced.layer_cache_enabled is None
                && advanced.layer_cache_capacity_bytes is None && advanced.read_coalescing_enabled
                is None && advanced.grouped_read_buffer_reuse_enabled is None
                && advanced.gpu_device_id is None));
            let counted = overrides && advanced.thread_count != Some(0usize);
            let capacity = counted && (advanced.layer_cache_capacity_bytes is Some ==> 0
                < advanced.layer_cache_capacity_bytes->0 <= user.ram_budget_bytes);
            &&& !known ==> result == refused("schema_version")
            &&& known && !budget ==> result == refused("ram_budget_bytes")
            &&& budget && !threads ==> result == refused("cpu_thread_limit")
            &&& threads && !overrides ==> result == Err::<(), PlannerError>(
                PlannerError::Infeasible(
                    FeasibilityRejection::AdvancedOverrideRequiresAdvancedMode,
                ),
            )
            &&& overrides && !counted ==> result == refused("advanced.thread_count")
            &&& counted && !capacity ==> result == refused("advanced.layer_cache_capacity_bytes")
            &&& capacity && advanced.layer_cache_enabled == Some(false)
                && advanced.layer_cache_capacity_bytes is Some ==> result == refused(
                "disabled layer cache has a capacity override",
            )
        }),
{
}

/// What is wrong with a machine's description is named by the first rule it breaks.
pub proof fn lemma_machine_refused(machine: MachineProfile)
    ensures
        ({
            let result = machine_check(machine);
            let refused = |field: &'static str|
                Err::<(), PlannerError>(
                    PlannerError::InvalidProfile { profile: "MachineProfile", field },
                );
            let known = machine.schema_version == 1;
            let platform = known && machine.os@.len() > 0 && machine.architecture@.len() > 0;
            let cores = platform && machine.logical_cpu_cores > 0 && (machine.physical_cpu_cores
                is Some ==> 0 < machine.physical_cpu_cores->0 <= machine.logical_cpu_cores);
            let memory = cores && (machine.total_ram_bytes is Some ==> machine.total_ram_bytes->0
                > 0 && (machine.available_ram_bytes is Some ==> machine.available_ram_bytes->0
                <= machine.total_ram_bytes->0));
            &&& !known ==> result == refused("schema_version")
            &&& known && !platform ==> result == refused("platform")
            &&& platform && !cores ==> result == refused("cpu core count")
            &&& cores && !memory ==> result == refused("RAM values")
        }),
{
}

/// What is wrong with a model's or a storage's description is named by the first rule
/// it breaks.
pub proof fn lemma_files_refused(model: ModelProfile, storage: StorageProfile)
    ensures
        ({
            let refused = |profile: &'static str, field: &'static str|
                Err::<(), PlannerError>(PlannerError::InvalidProfile { profile, field });
            &&& model.schema_version != 1 ==> model_check(model) == refused(
                "ModelProfile",
                "schema_version",
            )
            &&& model.schema_version == 1 && model.identity.descriptor_fingerprint == 0
                ==> model_check(model) == refused("ModelProfile", "descriptor_fingerprint")
            &&& model.schema_version == 1 && model.identity.descriptor_fingerprint != 0
                && model_check(model) is Err ==> model_check(model) == refused(
                "ModelProfile",
                "tensor distribution",
            )
            &&& storage.schema_version != 1 ==> storage_check(storage) == refused(
                "StorageProfile",
                "schema_version",
            )
            &&& storage.schema_version == 1 && storage.model_path@.len() == 0 ==> storage_check(
                storage,
            ) == refused("StorageProfile", "model_path")
        }),
{
}

/// The tensors that are counted are the sum over the formats.
pub proof fn lemma_counted_tensors(entries: Seq<FormatFacts>, entry: FormatFacts)
    ensures
        counted_tensors(Seq::empty()) == 0,
        counted_tensors(entries.push(entry)) == counted_tensors(entries) + entry.tensor_count,
{
    assert(entries.push(entry).drop_last() =~= entries);
}

} // verus!
