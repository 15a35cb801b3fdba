//! Deterministic planning contracts and explicit policy selection.
//!
//! Planning combines parsed model facts with the static planning report. It
//! performs no hardware detection, calibration execution, tensor I/O, model
//! execution, persistence, or UI rendering.

use vstd::prelude::*;
use vstd::string::*;

use crate::observation;
use crate::observation::{
    CalibrationResult, ObservationMetric, ObservationStatus, PerformanceObservation,
};
use crate::plan::{ExecutionMemoryPlan, PlanResult};
use crate::profiles;
use crate::profiles::{
    CalibrationLevel, CapabilitySet, FeasibilityRejection, GpuDeviceProfile, GpuPreference,
    MachineProfile, ModelProfile, OperatingMode, PlannerError, StorageProfile, StrategyId,
    UserProfile, EXECUTION_PLAN_SCHEMA_VERSION, PLANNER_RULESET_VERSION,
};
use crate::text;

verus! {

#[derive(Debug, Clone, Copy, PartialEq, Eq, Structural)]
pub enum PlanReasonCode {
    UserRamBudgetPreserved,
    ThreadCountSelectedByPreset,
    ThreadCountSelectedByAdvancedOverride,
    CpuStrategySelected,
    GpuStrategySelected,
    GpuDisabledByUser,
    GpuUnavailable,
    LayerCacheEnabledWithinStaticCapacity,
    LayerCacheDisabledByPreset,
    LayerCacheDisabledBecauseNoCompleteLayerFits,
    ReadCoalescingEnabled,
    ReadCoalescingDisabled,
    GroupedReadBufferReuseEnabled,
    GroupedReadBufferReuseDisabled,
    CalibrationObservationsApplied,
    CalibrationNotRequested,
    CalibrationNotApplicable,
}

#[derive(Debug, Clone, Copy, PartialEq, Eq, Structural)]
pub struct PlanReason {
    pub code: PlanReasonCode,
    pub value: Option<u64>,
}

#[derive(Debug, Clone, Copy, PartialEq, Eq, Structural)]
pub struct LayerCacheDecision {
    pub enabled: bool,
    pub capacity_bytes: u64,
}

#[derive(Debug, Clone, Copy, PartialEq, Eq, Structural)]
pub struct IoDecision {
    pub read_coalescing_enabled: bool,
    pub grouped_read_buffer_reuse_enabled: bool,
}

#[derive(Debug, PartialEq, Eq)]
pub struct GpuDecision {
    pub preference: GpuPreference,
    pub enabled: bool,
    pub selected_device_id: Option<String>,
}

fn copy_text(value: &Option<String>) -> (copy: Option<String>)
    ensures
        copy == *value,
{
    match value {
        Some(text) => Some(text.clone()),
        None => None,
    }
}

impl Clone for GpuDecision {
    fn clone(&self) -> (copy: Self)
        ensures
            copy@ == self@,
    {
        GpuDecision {
            preference: self.preference,
            enabled: self.enabled,
            selected_device_id: copy_text(&self.selected_device_id),
        }
    }
}

#[derive(Debug, Clone, Copy, PartialEq, Eq, Structural)]
pub struct ResourceReservations {
    pub available_ram_bytes_at_planning: u64,
    pub persistent_resident_bytes: u64,
    pub persistent_startup_peak_bytes: u64,
    pub largest_layer_load_peak_bytes: u64,
    pub managed_lower_bound_bytes: u64,
    pub remaining_budget_after_lower_bound_bytes: u64,
}

#[derive(Debug, Clone, Copy, PartialEq, Eq, Structural)]
pub struct CostEstimate {
    pub physical_read_bytes_per_forward: u64,
    pub calibrated_read_time_ns_per_forward: Option<u64>,
    pub observed_strategy_latency_ns: Option<u64>,
}

#[derive(Debug, PartialEq, Eq)]
pub struct CalibrationProvenance {
    pub calibration_identifier: Option<String>,
    pub calibration_plan_identifier: Option<String>,
    pub calibration_plan_version: Option<u32>,
    pub calibration_ruleset_version: Option<u32>,
    pub observation_identifiers: Vec<String>,
}

impl Clone for CalibrationProvenance {
    fn clone(&self) -> (copy: Self)
        ensures
            copy@ == self@,
    {
        let copy = CalibrationProvenance {
            calibration_identifier: copy_text(&self.calibration_identifier),
            calibration_plan_identifier: copy_text(&self.calibration_plan_identifier),
            calibration_plan_version: self.calibration_plan_version,
            calibration_ruleset_version: self.calibration_ruleset_version,
            observation_identifiers: text::copy_texts(&self.observation_identifiers),
        };
        assert(copy@ =~= self@);
        copy
    }
}

#[derive(Debug, Clone, PartialEq, Eq)]
pub struct PlanBinding {
    pub model_descriptor_fingerprint: u64,
    pub machine_fingerprint: u64,
    pub storage_fingerprint: u64,
    pub model_path: String,
}

/// Versioned planner output. It contains identifiers, decisions, and numeric
/// reservations only; model weights and runtime-owned allocations are excluded.
#[derive(Debug, Clone, PartialEq, Eq)]
pub struct ExecutionPlan {
    pub schema_version: u32,
    pub ruleset_version: u32,
    pub binding: PlanBinding,
    pub mode: OperatingMode,
    pub strategy: StrategyId,
    pub ram_budget_bytes: u64,
    pub cpu_thread_count: usize,
    pub layer_cache: LayerCacheDecision,
    pub io: IoDecision,
    pub gpu: GpuDecision,
    pub reservations: ResourceReservations,
    pub cost: CostEstimate,
    pub calibration: CalibrationProvenance,
    pub reasons: Vec<PlanReason>,
}

#[derive(Debug, Clone, Copy, PartialEq, Eq, Structural)]
pub enum PlanCompatibility {
    Valid,
    CompatibleRecalibrationRecommended,
    Incompatible,
}

/// The content of a GPU decision.
pub struct GpuDecisionFacts {
    pub preference: GpuPreference,
    pub enabled: bool,
    pub selected_device_id: Option<Seq<char>>,
}

impl View for GpuDecision {
    type V = GpuDecisionFacts;

    open spec fn view(&self) -> GpuDecisionFacts {
        GpuDecisionFacts {
            preference: self.preference,
            enabled: self.enabled,
            selected_device_id: text::text_option(self.selected_device_id),
        }
    }
}

/// The content of a calibration provenance.
#[verifier::ext_equal]
pub struct ProvenanceFacts {
    pub calibration_identifier: Option<Seq<char>>,
    pub calibration_plan_identifier: Option<Seq<char>>,
    pub calibration_plan_version: Option<u32>,
    pub calibration_ruleset_version: Option<u32>,
    pub observation_identifiers: Seq<Seq<char>>,
}

impl View for CalibrationProvenance {
    type V = ProvenanceFacts;

    open spec fn view(&self) -> ProvenanceFacts {
        ProvenanceFacts {
            calibration_identifier: text::text_option(self.calibration_identifier),
            calibration_plan_identifier: text::text_option(self.calibration_plan_identifier),
            calibration_plan_version: self.calibration_plan_version,
            calibration_ruleset_version: self.calibration_ruleset_version,
            observation_identifiers: text::texts(self.observation_identifiers@),
        }
    }
}

/// The content of a plan binding.
pub struct BindingFacts {
    pub model_descriptor_fingerprint: u64,
    pub machine_fingerprint: u64,
    pub storage_fingerprint: u64,
    pub model_path: Seq<char>,
}

impl View for PlanBinding {
    type V = BindingFacts;

    open spec fn view(&self) -> BindingFacts {
        BindingFacts {
            model_descriptor_fingerprint: self.model_descriptor_fingerprint,
            machine_fingerprint: self.machine_fingerprint,
            storage_fingerprint: self.storage_fingerprint,
            model_path: self.model_path@,
        }
    }
}

/// The content of an execution plan.
#[verifier::ext_equal]
pub struct PlanFacts {
    pub schema_version: u32,
    pub ruleset_version: u32,
    pub binding: BindingFacts,
    pub mode: OperatingMode,
    pub strategy: StrategyId,
    pub ram_budget_bytes: u64,
    pub cpu_thread_count: usize,
    pub layer_cache: LayerCacheDecision,
    pub io: IoDecision,
    pub gpu: GpuDecisionFacts,
    pub reservations: ResourceReservations,
    pub cost: CostEstimate,
    pub calibration: ProvenanceFacts,
    pub reasons: Seq<PlanReason>,
}

impl View for ExecutionPlan {
    type V = PlanFacts;

    open spec fn view(&self) -> PlanFacts {
        PlanFacts {
            schema_version: self.schema_version,
            ruleset_version: self.ruleset_version,
            binding: self.binding@,
            mode: self.mode,
            strategy: self.strategy,
            ram_budget_bytes: self.ram_budget_bytes,
            cpu_thread_count: self.cpu_thread_count,
            layer_cache: self.layer_cache,
            io: self.io,
            gpu: self.gpu@,
            reservations: self.reservations,
            cost: self.cost,
            calibration: self.calibration@,
            reasons: self.reasons@,
        }
    }
}

pub open spec fn plan_result(result: Result<ExecutionPlan, PlannerError>) -> Result<
    PlanFacts,
    PlannerError,
> {
    match result {
        Ok(plan) => Ok(plan@),
        Err(error) => Err(error),
    }
}

/// Everything a plan is made from.
pub struct PlanInputs {
    pub user: UserProfile,
    pub machine: MachineProfile,
    pub model: ModelProfile,
    pub storage: StorageProfile,
    pub capabilities: CapabilitySet,
    pub static_plan: PlanResult,
    pub calibration: Option<CalibrationResult>,
}

pub open spec fn optional_calibration(calibration: Option<&CalibrationResult>) -> Option<
    CalibrationResult,
> {
    match calibration {
        Some(result) => Some(*result),
        None => None,
    }
}

/// The profiles are valid, first problem first.
pub open spec fn profiles_check(inputs: PlanInputs) -> Result<(), PlannerError> {
    if profiles::user_check(inputs.user) is Err {
        profiles::user_check(inputs.user)
    } else if profiles::machine_check(inputs.machine) is Err {
        profiles::machine_check(inputs.machine)
    } else if profiles::model_check(inputs.model) is Err {
        profiles::model_check(inputs.model)
    } else if profiles::storage_check(inputs.storage) is Err {
        profiles::storage_check(inputs.storage)
    } else {
        match inputs.calibration {
            Some(calibration) => observation::calibration_check(calibration),
            None => Ok(()),
        }
    }
}

/// The static plan was made for these profiles.
pub open spec fn static_plan_matches(inputs: PlanInputs) -> bool {
    &&& inputs.capabilities@ == profiles::derived_capabilities(
        inputs.machine,
        inputs.model,
        inputs.storage,
        inputs.static_plan,
    )
    &&& inputs.static_plan.ram_requested == inputs.user.ram_budget_bytes
    &&& inputs.static_plan.file_size == inputs.model.file_size_bytes
    &&& inputs.static_plan.tensor_count == inputs.model.tensor_count
    &&& text::text_option(inputs.static_plan.architecture) == text::text_option(
        inputs.model.architecture,
    )
}

/// The request can be executed at all, first obstacle first.
pub open spec fn feasibility(inputs: PlanInputs) -> Result<(), PlannerError> {
    let budget = inputs.user.ram_budget_bytes;
    let capabilities = inputs.capabilities;
    if profiles_check(inputs) is Err {
        profiles_check(inputs)
    } else if !static_plan_matches(inputs) {
        profiles::infeasible(FeasibilityRejection::StaticPlanDoesNotMatchProfiles)
    } else if inputs.machine.total_ram_bytes is None {
        profiles::invalid("MachineProfile", "total RAM is unavailable")
    } else if budget > inputs.machine.total_ram_bytes->0 {
        profiles::infeasible(FeasibilityRejection::RamBudgetExceedsTotalRam)
    } else if inputs.machine.available_ram_bytes is None {
        profiles::invalid("MachineProfile", "available RAM is unavailable")
    } else if budget > inputs.machine.available_ram_bytes->0 {
        profiles::infeasible(FeasibilityRejection::RamBudgetExceedsAvailableRam)
    } else if !capabilities.storage_usable {
        profiles::infeasible(FeasibilityRejection::StorageNotUsable)
    } else if !capabilities.cpu_backend_usable {
        profiles::infeasible(FeasibilityRejection::CpuBackendUnavailable)
    } else if !capabilities.model_execution_compatible {
        profiles::infeasible(FeasibilityRejection::ModelNotExecutable)
    } else if inputs.static_plan.execution_memory is None {
        profiles::infeasible(FeasibilityRejection::ExecutionPreflightUnavailable)
    } else if !inputs.static_plan.execution_memory->0.layer_streaming_lower_bound_fits
        || inputs.static_plan.execution_memory->0.managed_lower_bound_bytes > budget {
        profiles::infeasible(FeasibilityRejection::ManagedMemoryLowerBoundExceedsBudget)
    } else {
        Ok(())
    }
}

/// The most threads a plan may use.
pub open spec fn thread_limit(user: UserProfile, machine: MachineProfile) -> usize {
    match user.cpu_thread_limit {
        Some(limit) => if limit < machine.logical_cpu_cores {
            limit
        } else {
            machine.logical_cpu_cores
        },
        None => machine.logical_cpu_cores,
    }
}

/// The preset's share of the thread limit, at least one.
pub open spec fn preset_threads(limit: usize, mode: OperatingMode) -> int {
    let policy = mode.spec_policy();
    let scaled = limit * policy.thread_fraction_numerator;
    let capped = if scaled > usize::MAX {
        usize::MAX as int
    } else {
        scaled
    };
    let share = capped / (policy.thread_fraction_denominator as int);
    if share < 1 {
        1
    } else {
        share
    }
}

pub open spec fn thread_choice(user: UserProfile, machine: MachineProfile) -> Result<
    (usize, PlanReasonCode),
    PlannerError,
> {
    let limit = thread_limit(user, machine);
    match user.advanced.thread_count {
        Some(requested) => if requested > limit {
            Err(PlannerError::Infeasible(FeasibilityRejection::RequestedThreadCountUnavailable))
        } else {
            Ok((requested, PlanReasonCode::ThreadCountSelectedByAdvancedOverride))
        },
        None => Ok(
            (
                preset_threads(limit, user.mode) as usize,
                PlanReasonCode::ThreadCountSelectedByPreset,
            ),
        ),
    }
}

/// The smallest identifier of a usable GPU.
pub open spec fn first_usable_gpu(gpus: Seq<GpuDeviceProfile>) -> Option<Seq<char>>
    decreases gpus.len(),
{
    if gpus.len() == 0 {
        None
    } else {
        let earlier = first_usable_gpu(gpus.drop_last());
        if !gpus.last().backend.usable {
            earlier
        } else if earlier is None || text::text_less(gpus.last().identifier@, earlier->0) {
            Some(gpus.last().identifier@)
        } else {
            earlier
        }
    }
}

pub open spec fn usable_gpu_named(gpus: Seq<GpuDeviceProfile>, identifier: Seq<char>) -> bool {
    exists|i: int|
        0 <= i < gpus.len() && (#[trigger] gpus[i]).backend.usable && gpus[i].identifier@
            == identifier
}

pub open spec fn gpu_selection(gpus: Seq<GpuDeviceProfile>, requested: Option<Seq<char>>) -> Result<
    Option<Seq<char>>,
    PlannerError,
> {
    match requested {
        Some(identifier) => if usable_gpu_named(gpus, identifier) {
            Ok(Some(identifier))
        } else {
            Err(PlannerError::Infeasible(FeasibilityRejection::GpuRequiredButUnavailable))
        },
        None => Ok(first_usable_gpu(gpus)),
    }
}

/// Whether a GPU is used, and which.
pub open spec fn gpu_choice(
    user: UserProfile,
    machine: MachineProfile,
    gpu_backend_usable: bool,
) -> Result<GpuDecisionFacts, PlannerError> {
    let policy = user.mode.spec_policy();
    let enabled = policy.allow_gpu && user.gpu_preference != GpuPreference::Disabled
        && gpu_backend_usable;
    if user.gpu_preference == GpuPreference::Require && (!policy.allow_gpu || !gpu_backend_usable) {
        Err(PlannerError::Infeasible(FeasibilityRejection::GpuRequiredButUnavailable))
    } else if user.advanced.gpu_device_id is Some && !gpu_backend_usable {
        Err(PlannerError::Infeasible(FeasibilityRejection::GpuRequiredButUnavailable))
    } else if !enabled {
        Ok(
            GpuDecisionFacts {
                preference: user.gpu_preference,
                enabled,
                selected_device_id: None,
            },
        )
    } else {
        match gpu_selection(machine.gpus@, text::text_option(user.advanced.gpu_device_id)) {
            Err(error) => Err(error),
            Ok(selected) => Ok(
                GpuDecisionFacts {
                    preference: user.gpu_preference,
                    enabled,
                    selected_device_id: selected,
                },
            ),
        }
    }
}

pub open spec fn wants_cache(user: UserProfile) -> bool {
    match user.advanced.layer_cache_enabled {
        Some(enabled) => enabled,
        None => user.mode.spec_policy().layer_cache_capacity_basis_points > 0,
    }
}

pub open spec fn cache_required(user: UserProfile) -> bool {
    user.advanced.layer_cache_enabled == Some(true)
        || user.advanced.layer_cache_capacity_bytes is Some
}

/// The layer cache: the explicit capacity, or the preset's share of what the
/// static plan leaves free; enabled only where a complete layer fits.
pub open spec fn cache_choice(
    user: UserProfile,
    execution: ExecutionMemoryPlan,
    layer_cache_possible: bool,
) -> Result<LayerCacheDecision, PlannerError> {
    let maximum = execution.layer_cache_capacity_bytes;
    let explicit = user.advanced.layer_cache_capacity_bytes;
    let wanted = wants_cache(user) && layer_cache_possible;
    let capacity = if !wanted {
        0
    } else if explicit is Some {
        explicit->0 as int
    } else {
        maximum * user.mode.spec_policy().layer_cache_capacity_basis_points / 10000
    };
    let enabled = capacity >= execution.min_layer_resident_bytes
        && execution.min_layer_resident_bytes > 0;
    if cache_required(user) && !layer_cache_possible {
        Err(PlannerError::Infeasible(FeasibilityRejection::LayerCacheRequiredButUnavailable))
    } else if wanted && explicit is Some && explicit->0 > maximum {
        Err(PlannerError::Infeasible(FeasibilityRejection::LayerCacheCapacityExceedsStaticCapacity))
    } else if cache_required(user) && capacity < execution.min_layer_resident_bytes {
        Err(
            PlannerError::Infeasible(
                FeasibilityRejection::LayerCacheCapacityCannotFitCompleteLayer,
            ),
        )
    } else {
        Ok(
            LayerCacheDecision {
                enabled,
                capacity_bytes: if enabled {
                    capacity as u64
                } else {
                    0
                },
            },
        )
    }
}

/// A capability is used where it is wanted and available; an explicit demand for
/// one that is not available is refused.
pub open spec fn capability_choice(
    explicit: Option<bool>,
    policy_default: bool,
    available: bool,
    rejection: FeasibilityRejection,
) -> Result<bool, PlannerError> {
    if explicit == Some(true) && !available {
        Err(PlannerError::Infeasible(rejection))
    } else {
        Ok(
            (match explicit {
                Some(choice) => choice,
                None => policy_default,
            }) && available,
        )
    }
}

/// An observation that answers the question asked.
pub open spec fn answers(
    observation: PerformanceObservation,
    metric: ObservationMetric,
    strategy: Option<StrategyId>,
) -> bool {
    observation.status == ObservationStatus::Measured && observation.metric == metric
        && observation.strategy == strategy
}

/// The better observation: by quality, then samples, then duration; the smaller
/// identifier wins the final tie.
pub open spec fn ranks_above(left: PerformanceObservation, right: PerformanceObservation) -> bool {
    if left.quality_basis_points != right.quality_basis_points {
        left.quality_basis_points > right.quality_basis_points
    } else if left.sample_count != right.sample_count {
        left.sample_count > right.sample_count
    } else if left.measurement_duration_ns != right.measurement_duration_ns {
        left.measurement_duration_ns > right.measurement_duration_ns
    } else {
        text::text_less(left.identifier@, right.identifier@)
    }
}

/// The place of the best observation that answers the question; of equals, the
/// last.
pub open spec fn best_place(
    observations: Seq<PerformanceObservation>,
    metric: ObservationMetric,
    strategy: Option<StrategyId>,
) -> Option<int>
    decreases observations.len(),
{
    if observations.len() == 0 {
        None
    } else {
        let last = observations.len() - 1;
        let earlier = best_place(observations.drop_last(), metric, strategy);
        if !answers(observations[last], metric, strategy) {
            earlier
        } else if earlier is Some && ranks_above(observations[earlier->0], observations[last]) {
            earlier
        } else {
            Some(last)
        }
    }
}

proof fn lemma_ranks_transitive(
    first: PerformanceObservation,
    second: PerformanceObservation,
    third: PerformanceObservation,
)
    requires
        !ranks_above(second, first),
        !ranks_above(third, second),
    ensures
        !ranks_above(third, first),
{
    text::lemma_text_less_total(first.identifier@, second.identifier@);
    text::lemma_text_less_total(second.identifier@, third.identifier@);
    text::lemma_text_less_total(first.identifier@, third.identifier@);
    if text::text_less(first.identifier@, second.identifier@) && text::text_less(
        second.identifier@,
        third.identifier@,
    ) {
        text::lemma_text_less_transitive(
            first.identifier@,
            second.identifier@,
            third.identifier@,
        );
    }
}

/// The chosen observation answers the question, and none that answers it ranks
/// above it; nothing is chosen only where nothing answers.
pub proof fn lemma_best_place(
    observations: Seq<PerformanceObservation>,
    metric: ObservationMetric,
    strategy: Option<StrategyId>,
)
    ensures
        match best_place(observations, metric, strategy) {
            Some(best) => {
                &&& 0 <= best < observations.len()
                &&& answers(observations[best], metric, strategy)
                &&& forall|j: int|
                    0 <= j < observations.len() && answers(
                        #[trigger] observations[j],
                        metric,
                        strategy,
                    ) ==> !ranks_above(observations[j], observations[best])
            },
            None => forall|j: int|
                0 <= j < observations.len() ==> !answers(
                    #[trigger] observations[j],
                    metric,
                    strategy,
                ),
        },
    decreases observations.len(),
{
    if observations.len() > 0 {
        let shorter = observations.drop_last();
        let last = observations.len() - 1;
        lemma_best_place(shorter, metric, strategy);
        assert forall|j: int| 0 <= j < last implies shorter[j] == #[trigger] observations[j] by {}
        if let Some(best) = best_place(observations, metric, strategy) {
            assert forall|j: int|
                0 <= j < observations.len() && answers(
                    #[trigger] observations[j],
                    metric,
                    strategy,
                ) implies !ranks_above(observations[j], observations[best]) by {
                text::lemma_text_less_total(
                    observations[j].identifier@,
                    observations[best].identifier@,
                );
                if best == last && j < last {
                    let earlier = best_place(shorter, metric, strategy)->0;
                    assert(shorter[j] == observations[j]);
                    lemma_ranks_transitive(observations[last], observations[earlier], shorter[j]);
                } else if j < last {
                    assert(shorter[j] == observations[j]);
                }
            }
        }
    }
}

/// The time to read `units` at a rate, rounded up to whole nanoseconds.
pub open spec fn rate_duration(units: u64, units_per_second: u64) -> u64 {
    let exact = (units * 1000000000 + units_per_second - 1) / (units_per_second as int);
    if exact > u64::MAX {
        u64::MAX
    } else {
        exact as u64
    }
}

/// The calibration may inform this plan: it is thorough enough and was taken on
/// this machine and, where it names them, for this model and storage.
pub open spec fn calibration_applies(
    user: UserProfile,
    calibration: CalibrationResult,
    machine_fingerprint: u64,
    model_fingerprint: u64,
    storage_fingerprint: u64,
) -> bool {
    &&& calibration.level.spec_rank() >= user.calibration_level.spec_rank()
    &&& calibration.machine_fingerprint == machine_fingerprint
    &&& calibration.model_fingerprint is Some ==> calibration.model_fingerprint->0
        == model_fingerprint
    &&& calibration.storage_fingerprint is Some ==> calibration.storage_fingerprint->0
        == storage_fingerprint
}

pub open spec fn no_provenance() -> ProvenanceFacts {
    ProvenanceFacts {
        calibration_identifier: None,
        calibration_plan_identifier: None,
        calibration_plan_version: None,
        calibration_ruleset_version: None,
        observation_identifiers: Seq::empty(),
    }
}

/// Two optional identifiers as an ascending list.
pub open spec fn sorted_pair(first: Option<Seq<char>>, second: Option<Seq<char>>) -> Seq<
    Seq<char>,
> {
    match (first, second) {
        (Some(a), Some(b)) => if text::text_less(b, a) {
            seq![b, a]
        } else {
            seq![a, b]
        },
        (Some(a), None) => seq![a],
        (None, Some(b)) => seq![b],
        (None, None) => Seq::empty(),
    }
}

/// What a calibration adds to a plan.
pub struct CostFacts {
    pub cost: CostEstimate,
    pub provenance: ProvenanceFacts,
    pub reason: PlanReasonCode,
}

pub open spec fn applied_calibration(
    calibration: CalibrationResult,
    strategy: StrategyId,
    physical_bytes: u64,
) -> CostFacts {
    let observations = calibration.observations@;
    let read = best_place(observations, ObservationMetric::SequentialReadThroughput, None);
    let latency = best_place(observations, ObservationMetric::StrategyLatency, Some(strategy));
    let identifiers = sorted_pair(
        match read {
            Some(at) => Some(observations[at].identifier@),
            None => None,
        },
        match latency {
            Some(at) => Some(observations[at].identifier@),
            None => None,
        },
    );
    CostFacts {
        cost: CostEstimate {
            physical_read_bytes_per_forward: physical_bytes,
            calibrated_read_time_ns_per_forward: match read {
                Some(at) => Some(rate_duration(physical_bytes, observations[at].value->0)),
                None => None,
            },
            observed_strategy_latency_ns: match latency {
                Some(at) => observations[at].value,
                None => None,
            },
        },
        provenance: ProvenanceFacts {
            calibration_identifier: Some(calibration.identifier@),
            calibration_plan_identifier: Some(calibration.calibration_plan_identifier@),
            calibration_plan_version: Some(calibration.calibration_plan_version),
            calibration_ruleset_version: Some(calibration.calibration_ruleset_version),
            observation_identifiers: identifiers,
        },
        reason: if identifiers.len() == 0 {
            PlanReasonCode::CalibrationNotApplicable
        } else {
            PlanReasonCode::CalibrationObservationsApplied
        },
    }
}

/// The cost of a forward pass, calibrated where a calibration was asked for and
/// applies.
pub open spec fn cost_estimate(
    user: UserProfile,
    machine_fingerprint: u64,
    model_fingerprint: u64,
    storage_fingerprint: u64,
    strategy: StrategyId,
    physical_bytes: u64,
    calibration: Option<CalibrationResult>,
) -> CostFacts {
    let uncalibrated = CostEstimate {
        physical_read_bytes_per_forward: physical_bytes,
        calibrated_read_time_ns_per_forward: None,
        observed_strategy_latency_ns: None,
    };
    if user.calibration_level == CalibrationLevel::NotRequested {
        CostFacts {
            cost: uncalibrated,
            provenance: no_provenance(),
            reason: PlanReasonCode::CalibrationNotRequested,
        }
    } else {
        match calibration {
            Some(result) => if calibration_applies(
                user,
                result,
                machine_fingerprint,
                model_fingerprint,
                storage_fingerprint,
            ) {
                applied_calibration(result, strategy, physical_bytes)
            } else {
                CostFacts {
                    cost: uncalibrated,
                    provenance: no_provenance(),
                    reason: PlanReasonCode::CalibrationNotApplicable,
                }
            },
            None => CostFacts {
                cost: uncalibrated,
                provenance: no_provenance(),
                reason: PlanReasonCode::CalibrationNotApplicable,
            },
        }
    }
}

/// The decisions that a plan rests on.
pub struct Decisions {
    pub threads: usize,
    pub thread_reason: PlanReasonCode,
    pub gpu: GpuDecisionFacts,
    pub cache: LayerCacheDecision,
    pub io: IoDecision,
}

/// The decisions, first refusal first.
pub open spec fn decisions(inputs: PlanInputs) -> Result<Decisions, PlannerError> {
    let user = inputs.user;
    let policy = user.mode.spec_policy();
    let capabilities = inputs.capabilities;
    let execution = inputs.static_plan.execution_memory->0;
    let gpu = gpu_choice(user, inputs.machine, capabilities.gpu_backend_usable);
    let cache = cache_choice(user, execution, capabilities.layer_cache_possible);
    let coalescing = capability_choice(
        user.advanced.read_coalescing_enabled,
        policy.read_coalescing,
        capabilities.read_coalescing_possible,
        FeasibilityRejection::ReadCoalescingRequiredButUnavailable,
    );
    let reuse = capability_choice(
        user.advanced.grouped_read_buffer_reuse_enabled,
        policy.grouped_read_buffer_reuse,
        capabilities.grouped_read_buffer_reuse_possible,
        FeasibilityRejection::GroupedReadBufferReuseRequiredButUnavailable,
    );
    match feasibility(inputs) {
        Err(error) => Err(error),
        Ok(_) => match thread_choice(user, inputs.machine) {
            Err(error) => Err(error),
            Ok((threads, thread_reason)) => match gpu {
                Err(error) => Err(error),
                Ok(gpu) => match cache {
                    Err(error) => Err(error),
                    Ok(cache) => match coalescing {
                        Err(error) => Err(error),
                        Ok(coalescing) => match reuse {
                            Err(error) => Err(error),
                            Ok(reuse) => Ok(
                                Decisions {
                                    threads,
                                    thread_reason,
                                    gpu,
                                    cache,
                                    io: IoDecision {
                                        read_coalescing_enabled: coalescing,
                                        grouped_read_buffer_reuse_enabled: reuse,
                                    },
                                },
                            ),
                        },
                    },
                },
            },
        },
    }
}

pub open spec fn chosen_strategy(gpu_enabled: bool) -> StrategyId {
    if gpu_enabled {
        StrategyId::GpuLayerOffload
    } else {
        StrategyId::CpuLayerStreaming
    }
}

/// Why the plan is as it is.
pub open spec fn plan_reasons(user: UserProfile, made: Decisions, cost: CostFacts) -> Seq<
    PlanReason,
> {
    let head = seq![
        PlanReason {
            code: PlanReasonCode::UserRamBudgetPreserved,
            value: Some(user.ram_budget_bytes),
        },
        PlanReason { code: made.thread_reason, value: Some(made.threads as u64) },
        PlanReason {
            code: if made.gpu.enabled {
                PlanReasonCode::GpuStrategySelected
            } else {
                PlanReasonCode::CpuStrategySelected
            },
            value: None,
        },
    ];
    let gpu = if made.gpu.enabled {
        Seq::empty()
    } else {
        seq![
            PlanReason {
                code: if user.gpu_preference == GpuPreference::Disabled {
                    PlanReasonCode::GpuDisabledByUser
                } else {
                    PlanReasonCode::GpuUnavailable
                },
                value: None,
            },
        ]
    };
    let tail = seq![
        PlanReason {
            code: if made.cache.enabled {
                PlanReasonCode::LayerCacheEnabledWithinStaticCapacity
            } else if !wants_cache(user) {
                PlanReasonCode::LayerCacheDisabledByPreset
            } else {
                PlanReasonCode::LayerCacheDisabledBecauseNoCompleteLayerFits
            },
            value: Some(made.cache.capacity_bytes),
        },
        PlanReason {
            code: if made.io.read_coalescing_enabled {
                PlanReasonCode::ReadCoalescingEnabled
            } else {
                PlanReasonCode::ReadCoalescingDisabled
            },
            value: None,
        },
        PlanReason {
            code: if made.io.grouped_read_buffer_reuse_enabled {
                PlanReasonCode::GroupedReadBufferReuseEnabled
            } else {
                PlanReasonCode::GroupedReadBufferReuseDisabled
            },
            value: None,
        },
        PlanReason {
            code: cost.reason,
            value: Some(cost.provenance.observation_identifiers.len() as u64),
        },
    ];
    head + gpu + tail
}

/// The plan that the inputs determine.
pub open spec fn execution_plan(inputs: PlanInputs) -> Result<PlanFacts, PlannerError> {
    match decisions(inputs) {
        Err(error) => Err(error),
        Ok(made) => Ok(assembled(inputs, made)),
    }
}

pub open spec fn assembled(inputs: PlanInputs, made: Decisions) -> PlanFacts {
    let user = inputs.user;
    let execution = inputs.static_plan.execution_memory->0;
    let strategy = chosen_strategy(made.gpu.enabled);
    let cost = cost_estimate(
        user,
        profiles::machine_fingerprint(inputs.machine),
        inputs.model.identity.descriptor_fingerprint,
        profiles::storage_fingerprint(inputs.storage),
        strategy,
        execution.estimated_physical_bytes_per_forward,
        inputs.calibration,
    );
    PlanFacts {
        schema_version: EXECUTION_PLAN_SCHEMA_VERSION,
        ruleset_version: PLANNER_RULESET_VERSION,
        binding: BindingFacts {
            model_descriptor_fingerprint: inputs.model.identity.descriptor_fingerprint,
            machine_fingerprint: profiles::machine_fingerprint(inputs.machine),
            storage_fingerprint: profiles::storage_fingerprint(inputs.storage),
            model_path: inputs.storage.model_path@,
        },
        mode: user.mode,
        strategy,
        ram_budget_bytes: user.ram_budget_bytes,
        cpu_thread_count: made.threads,
        layer_cache: made.cache,
        io: made.io,
        gpu: made.gpu,
        reservations: ResourceReservations {
            available_ram_bytes_at_planning: inputs.machine.available_ram_bytes->0,
            persistent_resident_bytes: execution.persistent_resident_bytes,
            persistent_startup_peak_bytes: execution.persistent_startup_peak_bytes,
            largest_layer_load_peak_bytes: execution.largest_layer_load_peak_bytes,
            managed_lower_bound_bytes: execution.managed_lower_bound_bytes,
            remaining_budget_after_lower_bound_bytes: (user.ram_budget_bytes
                - execution.managed_lower_bound_bytes) as u64,
        },
        cost: cost.cost,
        calibration: cost.provenance,
        reasons: plan_reasons(user, made, cost),
    }
}

fn infeasible<T>(reason: FeasibilityRejection) -> (result: Result<T, PlannerError>)
    ensures
        result == Err::<T, PlannerError>(PlannerError::Infeasible(reason)),
{
    Err(PlannerError::Infeasible(reason))
}

fn resolve_capability_choice(
    explicit: Option<bool>,
    policy_default: bool,
    available: bool,
    rejection: FeasibilityRejection,
) -> (result: Result<bool, PlannerError>)
    ensures
        result == capability_choice(explicit, policy_default, available, rejection),
{
    if explicit == Some(true) && !available {
        return infeasible(rejection);
    }
    let wanted = match explicit {
        Some(choice) => choice,
        None => policy_default,
    };
    Ok(wanted && available)
}

fn find_first_usable_gpu(machine: &MachineProfile) -> (found: Option<String>)
    ensures
        text::text_option(found) == first_usable_gpu(machine.gpus@),
{
    let ghost all = machine.gpus@;
    let mut best: Option<usize> = None;
    for i in 0..machine.gpus.len()
        invariant
            all == machine.gpus@,
            match best {
                Some(at) => at < i && first_usable_gpu(all.take(i as int)) == Some(
                    all[at as int].identifier@,
                ),
                None => first_usable_gpu(all.take(i as int)) is None,
            },
    {
        proof {
            assert(all.take(i as int + 1).drop_last() =~= all.take(i as int));
            assert(all.take(i as int + 1).last() == all[i as int]);
        }
        if machine.gpus[i].backend.usable {
            let replaces = match best {
                Some(at) => text::str_less(
                    machine.gpus[i].identifier.as_str(),
                    machine.gpus[at].identifier.as_str(),
                ),
                None => true,
            };
            if replaces {
                best = Some(i);
            }
        }
    }
    assert(all.take(all.len() as int) =~= all);
    match best {
        Some(at) => Some(machine.gpus[at].identifier.clone()),
        None => None,
    }
}

fn select_gpu(machine: &MachineProfile, requested_identifier: &Option<String>) -> (result: Result<
    Option<String>,
    PlannerError,
>)
    ensures
        match result {
            Ok(selected) => gpu_selection(
                machine.gpus@,
                text::text_option(*requested_identifier),
            ) == Ok::<Option<Seq<char>>, PlannerError>(text::text_option(selected)),
            Err(error) => gpu_selection(machine.gpus@, text::text_option(*requested_identifier))
                == Err::<Option<Seq<char>>, PlannerError>(error),
        },
{
    match requested_identifier {
        Some(identifier) => {
            for i in 0..machine.gpus.len()
                invariant
                    forall|j: int|
                        0 <= j < i ==> !((#[trigger] machine.gpus@[j]).backend.usable
                            && machine.gpus@[j].identifier@ == identifier@),
                    text::text_option(*requested_identifier) == Some(identifier@),
            {
                if machine.gpus[i].backend.usable && text::str_equal(
                    machine.gpus[i].identifier.as_str(),
                    identifier.as_str(),
                ) {
                    assert(usable_gpu_named(machine.gpus@, identifier@));
                    return Ok(Some(machine.gpus[i].identifier.clone()));
                }
            }
            infeasible(FeasibilityRejection::GpuRequiredButUnavailable)
        },
        None => Ok(find_first_usable_gpu(machine)),
    }
}

pub open spec fn gpu_result(result: Result<GpuDecision, PlannerError>) -> Result<
    GpuDecisionFacts,
    PlannerError,
> {
    match result {
        Ok(decision) => Ok(decision@),
        Err(error) => Err(error),
    }
}

fn choose_gpu(user: &UserProfile, machine: &MachineProfile, gpu_backend_usable: bool) -> (result:
    Result<GpuDecision, PlannerError>)
    ensures
        gpu_result(result) == gpu_choice(*user, *machine, gpu_backend_usable),
{
    let policy = user.mode.policy();
    if user.gpu_preference == GpuPreference::Require && (!policy.allow_gpu
        || !gpu_backend_usable) {
        return infeasible(FeasibilityRejection::GpuRequiredButUnavailable);
    }
    if user.advanced.gpu_device_id.is_some() && !gpu_backend_usable {
        return infeasible(FeasibilityRejection::GpuRequiredButUnavailable);
    }
    let enabled = policy.allow_gpu && user.gpu_preference != GpuPreference::Disabled
        && gpu_backend_usable;
    let selected_device_id = if enabled {
        match select_gpu(machine, &user.advanced.gpu_device_id) {
            Ok(selected) => selected,
            Err(error) => {
                return Err(error);
            },
        }
    } else {
        None
    };
    Ok(GpuDecision { preference: user.gpu_preference, enabled, selected_device_id })
}

fn choose_threads(user: &UserProfile, machine: &MachineProfile) -> (result: Result<
    (usize, PlanReasonCode),
    PlannerError,
>)
    ensures
        result == thread_choice(*user, *machine),
{
    let limit: usize = match user.cpu_thread_limit {
        Some(limit) => if limit < machine.logical_cpu_cores {
            limit
        } else {
            machine.logical_cpu_cores
        },
        None => machine.logical_cpu_cores,
    };
    match user.advanced.thread_count {
        Some(requested) => {
            if requested > limit {
                return infeasible(FeasibilityRejection::RequestedThreadCountUnavailable);
            }
            Ok((requested, PlanReasonCode::ThreadCountSelectedByAdvancedOverride))
        },
        None => {
            let policy = user.mode.policy();
            let scaled: usize = match limit.checked_mul(policy.thread_fraction_numerator) {
                Some(scaled) => scaled,
                None => usize::MAX,
            };
            let share: usize = scaled / policy.thread_fraction_denominator;
            let threads: usize = if share < 1 {
                1
            } else {
                share
            };
            Ok((threads, PlanReasonCode::ThreadCountSelectedByPreset))
        },
    }
}

proof fn lemma_basis_points(maximum: u64, points: u16)
    requires
        points <= 10000,
    ensures
        0 <= maximum * points / 10000 <= maximum,
        maximum * points <= u64::MAX * 10000,
{
    let product = maximum * points;
    assert(0 <= product <= maximum * 10000) by (nonlinear_arith)
        requires
            points <= 10000,
            product == maximum * points,
    ;
}

fn choose_cache(
    user: &UserProfile,
    execution: &ExecutionMemoryPlan,
    layer_cache_possible: bool,
) -> (result: Result<LayerCacheDecision, PlannerError>)
    ensures
        result == cache_choice(*user, *execution, layer_cache_possible),
{
    let policy = user.mode.policy();
    let explicit_capacity = user.advanced.layer_cache_capacity_bytes;
    let required = user.advanced.layer_cache_enabled == Some(true) || explicit_capacity.is_some();
    let wants = match user.advanced.layer_cache_enabled {
        Some(enabled) => enabled,
        None => policy.layer_cache_capacity_basis_points > 0,
    };
    if required && !layer_cache_possible {
        return infeasible(FeasibilityRejection::LayerCacheRequiredButUnavailable);
    }
    let maximum: u64 = execution.layer_cache_capacity_bytes;
    let capacity: u64 = if !wants || !layer_cache_possible {
        0
    } else {
        match explicit_capacity {
            Some(capacity) => {
                if capacity > maximum {
                    return infeasible(
                        FeasibilityRejection::LayerCacheCapacityExceedsStaticCapacity,
                    );
                }
                capacity
            },
            None => {
                proof {
                    lemma_basis_points(maximum, policy.layer_cache_capacity_basis_points);
                }
                (maximum as u128 * policy.layer_cache_capacity_basis_points as u128 / 10000) as u64
            },
        }
    };
    if required && capacity < execution.min_layer_resident_bytes {
        return infeasible(FeasibilityRejection::LayerCacheCapacityCannotFitCompleteLayer);
    }
    let enabled = capacity >= execution.min_layer_resident_bytes
        && execution.min_layer_resident_bytes > 0;
    Ok(
        LayerCacheDecision {
            enabled,
            capacity_bytes: if enabled {
                capacity
            } else {
                0
            },
        },
    )
}

fn outranks(left: &PerformanceObservation, right: &PerformanceObservation) -> (above: bool)
    ensures
        above == ranks_above(*left, *right),
{
    if left.quality_basis_points != right.quality_basis_points {
        left.quality_basis_points > right.quality_basis_points
    } else if left.sample_count != right.sample_count {
        left.sample_count > right.sample_count
    } else if left.measurement_duration_ns != right.measurement_duration_ns {
        left.measurement_duration_ns > right.measurement_duration_ns
    } else {
        text::str_less(left.identifier.as_str(), right.identifier.as_str())
    }
}

fn best_observation(
    calibration: &CalibrationResult,
    metric: ObservationMetric,
    strategy: Option<StrategyId>,
) -> (best: Option<usize>)
    ensures
        match best {
            Some(at) => best_place(calibration.observations@, metric, strategy) == Some(at as int)
                && at < calibration.observations@.len(),
            None => best_place(calibration.observations@, metric, strategy) is None,
        },
{
    let ghost all = calibration.observations@;
    let mut best: Option<usize> = None;
    for i in 0..calibration.observations.len()
        invariant
            all == calibration.observations@,
            match best {
                Some(at) => at < i && best_place(all.take(i as int), metric, strategy) == Some(
                    at as int,
                ),
                None => best_place(all.take(i as int), metric, strategy) is None,
            },
    {
        proof {
            assert(all.take(i as int + 1).drop_last() =~= all.take(i as int));
            assert(all.take(i as int + 1)[i as int] == all[i as int]);
        }
        let candidate = &calibration.observations[i];
        if candidate.status == ObservationStatus::Measured && candidate.metric == metric
            && candidate.strategy == strategy {
            let keeps = match best {
                Some(at) => outranks(&calibration.observations[at], candidate),
                None => false,
            };
            if !keeps {
                best = Some(i);
            }
        }
    }
    assert(all.take(all.len() as int) =~= all);
    best
}

fn ceil_rate_duration_ns(units: u64, units_per_second: u64) -> (duration: u64)
    requires
        units_per_second > 0,
    ensures
        duration == rate_duration(units, units_per_second),
{
    let numerator: u128 = units as u128 * 1000000000;
    let denominator: u128 = units_per_second as u128;
    let value: u128 = (numerator + denominator - 1) / denominator;
    if value > u64::MAX as u128 {
        u64::MAX
    } else {
        value as u64
    }
}

fn ascending_pair(first: Option<String>, second: Option<String>) -> (list: Vec<String>)
    ensures
        text::texts(list@) == sorted_pair(text::text_option(first), text::text_option(second)),
{
    let ghost expected = sorted_pair(text::text_option(first), text::text_option(second));
    let mut list: Vec<String> = Vec::new();
    match (first, second) {
        (Some(a), Some(b)) => {
            if text::str_less(b.as_str(), a.as_str()) {
                list.push(b);
                list.push(a);
            } else {
                list.push(a);
                list.push(b);
            }
        },
        (Some(a), None) => {
            list.push(a);
        },
        (None, Some(b)) => {
            list.push(b);
        },
        (None, None) => {},
    }
    assert(text::texts(list@) =~= expected);
    list
}

spec fn is_cost(
    parts: (CostEstimate, CalibrationProvenance, PlanReasonCode),
    expected: CostFacts,
) -> bool {
    &&& parts.0 == expected.cost
    &&& parts.1@ == expected.provenance
    &&& parts.2 == expected.reason
}

fn uncalibrated_cost(physical_bytes: u64, reason: PlanReasonCode) -> (parts: (
    CostEstimate,
    CalibrationProvenance,
    PlanReasonCode,
))
    ensures
        is_cost(
            parts,
            CostFacts {
                cost: CostEstimate {
                    physical_read_bytes_per_forward: physical_bytes,
                    calibrated_read_time_ns_per_forward: None,
                    observed_strategy_latency_ns: None,
                },
                provenance: no_provenance(),
                reason,
            },
        ),
{
    let provenance = CalibrationProvenance {
        calibration_identifier: None,
        calibration_plan_identifier: None,
        calibration_plan_version: None,
        calibration_ruleset_version: None,
        observation_identifiers: Vec::new(),
    };
    assert(provenance@.observation_identifiers =~= Seq::empty());
    (
        CostEstimate {
            physical_read_bytes_per_forward: physical_bytes,
            calibrated_read_time_ns_per_forward: None,
            observed_strategy_latency_ns: None,
        },
        provenance,
        reason,
    )
}

fn apply_calibration(
    calibration: &CalibrationResult,
    strategy: StrategyId,
    physical_bytes: u64,
) -> (parts: (CostEstimate, CalibrationProvenance, PlanReasonCode))
    requires
        observation::calibration_check(*calibration) is Ok,
    ensures
        is_cost(parts, applied_calibration(*calibration, strategy, physical_bytes)),
{
    let ghost observations = calibration.observations@;
    let read = best_observation(
        calibration,
        ObservationMetric::SequentialReadThroughput,
        None,
    );
    let latency = best_observation(calibration, ObservationMetric::StrategyLatency, Some(strategy));
    let mut read_time: Option<u64> = None;
    let mut read_identifier: Option<String> = None;
    if let Some(at) = read {
        proof {
            lemma_best_place(observations, ObservationMetric::SequentialReadThroughput, None);
            observation::lemma_observation_valid(observations, calibration.level, at as int);
        }
        if let Some(rate) = calibration.observations[at].value {
            read_time = Some(ceil_rate_duration_ns(physical_bytes, rate));
        }
        read_identifier = Some(calibration.observations[at].identifier.clone());
    }
    let mut latency_ns: Option<u64> = None;
    let mut latency_identifier: Option<String> = None;
    if let Some(at) = latency {
        latency_ns = calibration.observations[at].value;
        latency_identifier = Some(calibration.observations[at].identifier.clone());
    }
    let observation_identifiers = ascending_pair(read_identifier, latency_identifier);
    let reason = if observation_identifiers.len() == 0 {
        PlanReasonCode::CalibrationNotApplicable
    } else {
        PlanReasonCode::CalibrationObservationsApplied
    };
    (
        CostEstimate {
            physical_read_bytes_per_forward: physical_bytes,
            calibrated_read_time_ns_per_forward: read_time,
            observed_strategy_latency_ns: latency_ns,
        },
        CalibrationProvenance {
            calibration_identifier: Some(calibration.identifier.clone()),
            calibration_plan_identifier: Some(calibration.calibration_plan_identifier.clone()),
            calibration_plan_version: Some(calibration.calibration_plan_version),
            calibration_ruleset_version: Some(calibration.calibration_ruleset_version),
            observation_identifiers,
        },
        reason,
    )
}

fn estimate_cost(
    user: &UserProfile,
    machine_fingerprint: u64,
    model_fingerprint: u64,
    storage_fingerprint: u64,
    strategy: StrategyId,
    execution: &ExecutionMemoryPlan,
    calibration: Option<&CalibrationResult>,
) -> (parts: (CostEstimate, CalibrationProvenance, PlanReasonCode))
    requires
        calibration is Some ==> observation::calibration_check(*calibration->0) is Ok,
    ensures
        is_cost(
            parts,
            cost_estimate(
                *user,
                machine_fingerprint,
                model_fingerprint,
                storage_fingerprint,
                strategy,
                execution.estimated_physical_bytes_per_forward,
                optional_calibration(calibration),
            ),
        ),
{
    let physical_bytes: u64 = execution.estimated_physical_bytes_per_forward;
    if user.calibration_level == CalibrationLevel::NotRequested {
        return uncalibrated_cost(physical_bytes, PlanReasonCode::CalibrationNotRequested);
    }
    let result = match calibration {
        Some(result) => result,
        None => {
            return uncalibrated_cost(physical_bytes, PlanReasonCode::CalibrationNotApplicable);
        },
    };
    let model_differs = match result.model_fingerprint {
        Some(fingerprint) => fingerprint != model_fingerprint,
        None => false,
    };
    let storage_differs = match result.storage_fingerprint {
        Some(fingerprint) => fingerprint != storage_fingerprint,
        None => false,
    };
    if result.level.rank() < user.calibration_level.rank() || result.machine_fingerprint
        != machine_fingerprint || model_differs || storage_differs {
        return uncalibrated_cost(physical_bytes, PlanReasonCode::CalibrationNotApplicable);
    }
    apply_calibration(result, strategy, physical_bytes)
}

fn list_reasons(
    user: &UserProfile,
    threads: usize,
    thread_reason: PlanReasonCode,
    gpu_enabled: bool,
    cache: LayerCacheDecision,
    io: IoDecision,
    calibration_reason: PlanReasonCode,
    observation_count: usize,
    Ghost(made): Ghost<Decisions>,
    Ghost(cost): Ghost<CostFacts>,
) -> (reasons: Vec<PlanReason>)
    requires
        made.threads == threads,
        made.thread_reason == thread_reason,
        made.gpu.enabled == gpu_enabled,
        made.cache == cache,
        made.io == io,
        cost.reason == calibration_reason,
        cost.provenance.observation_identifiers.len() == observation_count,
    ensures
        reasons@ == plan_reasons(*user, made, cost),
{
    let policy = user.mode.policy();
    let wants = match user.advanced.layer_cache_enabled {
        Some(enabled) => enabled,
        None => policy.layer_cache_capacity_basis_points > 0,
    };
    let mut reasons: Vec<PlanReason> = Vec::new();
    reasons.push(
        PlanReason {
            code: PlanReasonCode::UserRamBudgetPreserved,
            value: Some(user.ram_budget_bytes),
        },
    );
    reasons.push(PlanReason { code: thread_reason, value: Some(threads as u64) });
    reasons.push(
        PlanReason {
            code: if gpu_enabled {
                PlanReasonCode::GpuStrategySelected
            } else {
                PlanReasonCode::CpuStrategySelected
            },
            value: None,
        },
    );
    if !gpu_enabled {
        reasons.push(
            PlanReason {
                code: if user.gpu_preference == GpuPreference::Disabled {
                    PlanReasonCode::GpuDisabledByUser
                } else {
                    PlanReasonCode::GpuUnavailable
                },
                value: None,
            },
        );
    }
    reasons.push(
        PlanReason {
            code: if cache.enabled {
                PlanReasonCode::LayerCacheEnabledWithinStaticCapacity
            } else if !wants {
                PlanReasonCode::LayerCacheDisabledByPreset
            } else {
                PlanReasonCode::LayerCacheDisabledBecauseNoCompleteLayerFits
            },
            value: Some(cache.capacity_bytes),
        },
    );
    reasons.push(
        PlanReason {
            code: if io.read_coalescing_enabled {
                PlanReasonCode::ReadCoalescingEnabled
            } else {
                PlanReasonCode::ReadCoalescingDisabled
            },
            value: None,
        },
    );
    reasons.push(
        PlanReason {
            code: if io.grouped_read_buffer_reuse_enabled {
                PlanReasonCode::GroupedReadBufferReuseEnabled
            } else {
                PlanReasonCode::GroupedReadBufferReuseDisabled
            },
            value: None,
        },
    );
    reasons.push(PlanReason { code: calibration_reason, value: Some(observation_count as u64) });
    assert(reasons@ =~= plan_reasons(*user, made, cost));
    reasons
}

#[derive(Debug, Default, Clone, Copy)]
pub struct Planner;

impl Planner {
    pub fn derive_capabilities(
        &self,
        machine: &MachineProfile,
        model: &ModelProfile,
        storage: &StorageProfile,
        static_plan: &PlanResult,
    ) -> (capabilities: CapabilitySet)
        ensures
            capabilities@ == profiles::derived_capabilities(
                *machine,
                *model,
                *storage,
                *static_plan,
            ),
    {
        CapabilitySet::derive(machine, model, storage, static_plan)
    }

    fn check_feasible(
        user: &UserProfile,
        machine: &MachineProfile,
        model: &ModelProfile,
        storage: &StorageProfile,
        capabilities: &CapabilitySet,
        static_plan: &PlanResult,
        calibration: Option<&CalibrationResult>,
    ) -> (result: Result<(), PlannerError>)
        ensures
            result == feasibility(
                PlanInputs {
                    user: *user,
                    machine: *machine,
                    model: *model,
                    storage: *storage,
                    capabilities: *capabilities,
                    static_plan: *static_plan,
                    calibration: optional_calibration(calibration),
                },
            ),
    {
        user.validate()?;
        machine.validate()?;
        model.validate()?;
        storage.validate()?;
        if let Some(result) = calibration {
            result.validate()?;
        }
        let derived = CapabilitySet::derive(machine, model, storage, static_plan);
        if !capabilities.same_as(&derived) {
            return infeasible(FeasibilityRejection::StaticPlanDoesNotMatchProfiles);
        }
        if static_plan.ram_requested != user.ram_budget_bytes || static_plan.file_size
            != model.file_size_bytes || static_plan.tensor_count != model.tensor_count
            || !text::same_option(&static_plan.architecture, &model.architecture) {
            return infeasible(FeasibilityRejection::StaticPlanDoesNotMatchProfiles);
        }
        let total: u64 = match machine.total_ram_bytes {
            Some(total) => total,
            None => {
                return Err(
                    PlannerError::InvalidProfile {
                        profile: "MachineProfile",
                        field: "total RAM is unavailable",
                    },
                );
            },
        };
        if user.ram_budget_bytes > total {
            return infeasible(FeasibilityRejection::RamBudgetExceedsTotalRam);
        }
        let available: u64 = match machine.available_ram_bytes {
            Some(available) => available,
            None => {
                return Err(
                    PlannerError::InvalidProfile {
                        profile: "MachineProfile",
                        field: "available RAM is unavailable",
                    },
                );
            },
        };
        if user.ram_budget_bytes > available {
            return infeasible(FeasibilityRejection::RamBudgetExceedsAvailableRam);
        }
        if !capabilities.storage_usable {
            return infeasible(FeasibilityRejection::StorageNotUsable);
        }
        if !capabilities.cpu_backend_usable {
            return infeasible(FeasibilityRejection::CpuBackendUnavailable);
        }
        if !capabilities.model_execution_compatible {
            return infeasible(FeasibilityRejection::ModelNotExecutable);
        }
        match static_plan.execution_memory {
            Some(execution) => {
                if !execution.layer_streaming_lower_bound_fits
                    || execution.managed_lower_bound_bytes > user.ram_budget_bytes {
                    return infeasible(
                        FeasibilityRejection::ManagedMemoryLowerBoundExceedsBudget,
                    );
                }
                Ok(())
            },
            None => infeasible(FeasibilityRejection::ExecutionPreflightUnavailable),
        }
    }

    /// Makes the plan that the profiles, the static plan and the calibration
    /// determine, or says why there is none.
    pub fn plan(
        &self,
        user: &UserProfile,
        machine: &MachineProfile,
        model: &ModelProfile,
        storage: &StorageProfile,
        capabilities: &CapabilitySet,
        static_plan: &PlanResult,
        calibration: Option<&CalibrationResult>,
    ) -> (result: Result<ExecutionPlan, PlannerError>)
        ensures
            plan_result(result) == execution_plan(
                PlanInputs {
                    user: *user,
                    machine: *machine,
                    model: *model,
                    storage: *storage,
                    capabilities: *capabilities,
                    static_plan: *static_plan,
                    calibration: optional_calibration(calibration),
                },
            ),
    {
        let ghost inputs = PlanInputs {
            user: *user,
            machine: *machine,
            model: *model,
            storage: *storage,
            capabilities: *capabilities,
            static_plan: *static_plan,
            calibration: optional_calibration(calibration),
        };
        match Self::check_feasible(
            user,
            machine,
            model,
            storage,
            capabilities,
            static_plan,
            calibration,
        ) {
            Ok(()) => {},
            Err(error) => {
                return Err(error);
            },
        }
        let execution = match static_plan.execution_memory {
            Some(execution) => execution,
            None => {
                return infeasible(FeasibilityRejection::ExecutionPreflightUnavailable);
            },
        };
        let policy = user.mode.policy();
        let (cpu_thread_count, thread_reason) = match choose_threads(user, machine) {
            Ok(choice) => choice,
            Err(error) => {
                return Err(error);
            },
        };
        let gpu = match choose_gpu(user, machine, capabilities.gpu_backend_usable) {
            Ok(decision) => decision,
            Err(error) => {
                return Err(error);
            },
        };
        let layer_cache = match choose_cache(user, &execution, capabilities.layer_cache_possible) {
            Ok(decision) => decision,
            Err(error) => {
                return Err(error);
            },
        };
        let read_coalescing = match resolve_capability_choice(
            user.advanced.read_coalescing_enabled,
            policy.read_coalescing,
            capabilities.read_coalescing_possible,
            FeasibilityRejection::ReadCoalescingRequiredButUnavailable,
        ) {
            Ok(choice) => choice,
            Err(error) => {
                return Err(error);
            },
        };
        let grouped_read_buffer_reuse = match resolve_capability_choice(
            user.advanced.grouped_read_buffer_reuse_enabled,
            policy.grouped_read_buffer_reuse,
            capabilities.grouped_read_buffer_reuse_possible,
            FeasibilityRejection::GroupedReadBufferReuseRequiredButUnavailable,
        ) {
            Ok(choice) => choice,
            Err(error) => {
                return Err(error);
            },
        };
        let io = IoDecision {
            read_coalescing_enabled: read_coalescing,
            grouped_read_buffer_reuse_enabled: grouped_read_buffer_reuse,
        };
        let strategy = if gpu.enabled {
            StrategyId::GpuLayerOffload
        } else {
            StrategyId::CpuLayerStreaming
        };
        let machine_fingerprint: u64 = machine.fingerprint();
        let storage_fingerprint: u64 = storage.fingerprint();
        let (cost, provenance, calibration_reason) = estimate_cost(
            user,
            machine_fingerprint,
            model.identity.descriptor_fingerprint,
            storage_fingerprint,
            strategy,
            &execution,
            calibration,
        );
        let ghost made = decisions(inputs)->Ok_0;
        let ghost cost_facts = CostFacts {
            cost,
            provenance: provenance@,
            reason: calibration_reason,
        };
        let reasons = list_reasons(
            user,
            cpu_thread_count,
            thread_reason,
            gpu.enabled,
            layer_cache,
            io,
            calibration_reason,
            provenance.observation_identifiers.len(),
            Ghost(made),
            Ghost(cost_facts),
        );
        let available: u64 = match machine.available_ram_bytes {
            Some(available) => available,
            None => 0,
        };
        Ok(
            ExecutionPlan {
                schema_version: EXECUTION_PLAN_SCHEMA_VERSION,
                ruleset_version: PLANNER_RULESET_VERSION,
                binding: PlanBinding {
                    model_descriptor_fingerprint: model.identity.descriptor_fingerprint,
                    machine_fingerprint,
                    storage_fingerprint,
                    model_path: storage.model_path.clone(),
                },
                mode: user.mode,
                strategy,
                ram_budget_bytes: user.ram_budget_bytes,
                cpu_thread_count,
                layer_cache,
                io,
                gpu,
                reservations: ResourceReservations {
                    available_ram_bytes_at_planning: available,
                    persistent_resident_bytes: execution.persistent_resident_bytes,
                    persistent_startup_peak_bytes: execution.persistent_startup_peak_bytes,
                    largest_layer_load_peak_bytes: execution.largest_layer_load_peak_bytes,
                    managed_lower_bound_bytes: execution.managed_lower_bound_bytes,
                    remaining_budget_after_lower_bound_bytes: user.ram_budget_bytes
                        - execution.managed_lower_bound_bytes,
                },
                cost,
                calibration: provenance,
                reasons,
            },
        )
    }
}

proof fn lemma_preset_threads(limit: usize, mode: OperatingMode)
    requires
        limit >= 1,
    ensures
        1 <= preset_threads(limit, mode) <= limit,
{
    match mode {
        OperatingMode::BackgroundConstrained => {
            assert(limit * 1 == limit);
        },
        OperatingMode::MaximumPerformance => {
            assert(limit * 1 == limit);
        },
        OperatingMode::BalancedNormal => {
            assert(mode.spec_policy().thread_fraction_numerator == 3);
            assert(limit * 3 / 4 <= limit);
        },
        OperatingMode::Advanced => {
            assert(mode.spec_policy().thread_fraction_numerator == 3);
            assert(limit * 3 / 4 <= limit);
        },
    }
}

/// A plan stays within what the user and the machine allow: it keeps the RAM
/// budget, which the free memory covers; it uses at least one thread and no more
/// than the limit; its layer cache is on exactly where it has a capacity, holds a
/// complete layer and stays within what the static plan leaves free; it uses I/O
/// optimizations only where they are possible; and it runs on the CPU.
pub proof fn lemma_plan_within_limits(inputs: PlanInputs)
    requires
        execution_plan(inputs) is Ok,
    ensures
        ({
            let plan = execution_plan(inputs)->Ok_0;
            let execution = inputs.static_plan.execution_memory->0;
            &&& plan.ram_budget_bytes == inputs.user.ram_budget_bytes
            &&& 0 < plan.ram_budget_bytes <= plan.reservations.available_ram_bytes_at_planning
            &&& inputs.machine.available_ram_bytes == Some(
                plan.reservations.available_ram_bytes_at_planning,
            )
            &&& 1 <= plan.cpu_thread_count <= thread_limit(inputs.user, inputs.machine)
            &&& thread_limit(inputs.user, inputs.machine) <= inputs.machine.logical_cpu_cores
            &&& plan.layer_cache.enabled <==> plan.layer_cache.capacity_bytes > 0
            &&& plan.layer_cache.capacity_bytes <= execution.layer_cache_capacity_bytes
            &&& plan.layer_cache.enabled ==> execution.min_layer_resident_bytes
                <= plan.layer_cache.capacity_bytes
            &&& plan.io.read_coalescing_enabled ==> inputs.capabilities.read_coalescing_possible
            &&& plan.io.grouped_read_buffer_reuse_enabled
                ==> inputs.capabilities.grouped_read_buffer_reuse_possible
            &&& plan.strategy == StrategyId::CpuLayerStreaming
            &&& !plan.gpu.enabled
            &&& plan.gpu.selected_device_id is None
            &&& plan.reservations.managed_lower_bound_bytes
                + plan.reservations.remaining_budget_after_lower_bound_bytes
                == plan.ram_budget_bytes
        }),
{
    profiles::lemma_no_gpu_backend(
        inputs.machine,
        inputs.model,
        inputs.storage,
        inputs.static_plan,
    );
    assert(inputs.capabilities@.gpu_backend_usable == inputs.capabilities.gpu_backend_usable);
    let execution = inputs.static_plan.execution_memory->0;
    let policy = inputs.user.mode.spec_policy();
    lemma_basis_points(
        execution.layer_cache_capacity_bytes,
        policy.layer_cache_capacity_basis_points,
    );
    lemma_preset_threads(thread_limit(inputs.user, inputs.machine), inputs.user.mode);
}

/// Measurements inform the cost of a plan and nothing else: with or without a
/// calibration, or with another one, the decisions and reservations are the same.
pub proof fn lemma_calibration_keeps_decisions(first: PlanInputs, second: PlanInputs)
    requires
        second == (PlanInputs { calibration: second.calibration, ..first }),
        execution_plan(first) is Ok,
        execution_plan(second) is Ok,
    ensures
        ({
            let left = execution_plan(first)->Ok_0;
            let right = execution_plan(second)->Ok_0;
            &&& left.binding == right.binding
            &&& left.mode == right.mode
            &&& left.strategy == right.strategy
            &&& left.ram_budget_bytes == right.ram_budget_bytes
            &&& left.cpu_thread_count == right.cpu_thread_count
            &&& left.layer_cache == right.layer_cache
            &&& left.io == right.io
            &&& left.gpu == right.gpu
            &&& left.reservations == right.reservations
            &&& left.cost.physical_read_bytes_per_forward
                == right.cost.physical_read_bytes_per_forward
        }),
{
}

/// A calibration that passes validation never turns a plan into a refusal.
pub proof fn lemma_valid_calibration_keeps_feasibility(
    inputs: PlanInputs,
    calibration: CalibrationResult,
)
    requires
        inputs.calibration is None,
        execution_plan(inputs) is Ok,
        observation::calibration_check(calibration) is Ok,
    ensures
        execution_plan(PlanInputs { calibration: Some(calibration), ..inputs }) is Ok,
{
}

/// How the layer cache is planned. Without a stated capacity an enabled cache gets
/// the preset's share of the static capacity and not a byte more than that share,
/// nor a byte less; a stated capacity is taken as it is. The cache is left off
/// only where it was not asked for or where no complete layer fits the share.
pub proof fn lemma_planned_cache(inputs: PlanInputs)
    requires
        execution_plan(inputs) is Ok,
    ensures
        ({
            let cache = execution_plan(inputs)->Ok_0.layer_cache;
            let advanced = inputs.user.advanced;
            let execution = inputs.static_plan.execution_memory->0;
            let maximum = execution.layer_cache_capacity_bytes as int;
            let smallest = execution.min_layer_resident_bytes as int;
            let share = inputs.user.mode.spec_policy().layer_cache_capacity_basis_points as int;
            let capacity = cache.capacity_bytes as int;
            let stated = advanced.layer_cache_capacity_bytes;
            &&& cache.enabled && stated is None ==> capacity * 10000 <= maximum * share && (capacity
                + 1) * 10000 > maximum * share
            &&& cache.enabled && stated is Some ==> Some(cache.capacity_bytes) == stated
            &&& cache.enabled ==> smallest > 0 && capacity >= smallest && capacity <= maximum
            &&& cache.enabled ==> inputs.capabilities.layer_cache_possible
            &&& !cache.enabled ==> capacity == 0
            &&& advanced.layer_cache_enabled == Some(false) ==> !cache.enabled
            &&& advanced.layer_cache_enabled == Some(true) && smallest > 0 ==> cache.enabled
            &&& advanced.layer_cache_enabled is None && share == 0 ==> !cache.enabled
            &&& !cache.enabled && inputs.capabilities.layer_cache_possible && stated is None
                && advanced.layer_cache_enabled != Some(false) && (share > 0
                || advanced.layer_cache_enabled is Some) && smallest > 0 ==> smallest * 10000
                > maximum * share
        }),
{
    let execution = inputs.static_plan.execution_memory->0;
    let maximum = execution.layer_cache_capacity_bytes;
    let points = inputs.user.mode.spec_policy().layer_cache_capacity_basis_points;
    lemma_basis_points(maximum, points);
    let product = maximum * points;
    vstd::arithmetic::div_mod::lemma_fundamental_div_mod(product, 10000);
    vstd::arithmetic::div_mod::lemma_mod_bound(product, 10000);
    profiles::lemma_user_checked(inputs.user);
}

/// What the presets grant: how many of the threads, how much of the static cache
/// capacity, and which I/O optimizations.
pub proof fn lemma_preset_shares(mode: OperatingMode)
    ensures
        ({
            let policy = mode.spec_policy();
            let numerator = policy.thread_fraction_numerator;
            let denominator = policy.thread_fraction_denominator;
            let points = policy.layer_cache_capacity_basis_points;
            &&& policy.mode == mode
            &&& mode == OperatingMode::BackgroundConstrained ==> numerator == 1 && denominator == 2
                && points == 0 && policy.read_coalescing && !policy.grouped_read_buffer_reuse
                && !policy.allow_gpu
            &&& mode == OperatingMode::BalancedNormal || mode == OperatingMode::Advanced
                ==> numerator == 3 && denominator == 4 && points == 5000 && policy.read_coalescing
                && policy.grouped_read_buffer_reuse && policy.allow_gpu
            &&& mode == OperatingMode::MaximumPerformance ==> numerator == 1 && denominator == 1
                && points == 10000 && policy.read_coalescing && policy.grouped_read_buffer_reuse
                && policy.allow_gpu
        }),
{
}

/// How many threads a plan uses: a stated number as it is, and otherwise half of
/// what may be used in the background, three quarters in normal use and all of it
/// for performance, rounded down, but at least one.
pub proof fn lemma_planned_threads(inputs: PlanInputs)
    requires
        execution_plan(inputs) is Ok,
    ensures
        ({
            let threads = execution_plan(inputs)->Ok_0.cpu_thread_count as int;
            let cores = inputs.machine.logical_cpu_cores as int;
            let cap = inputs.user.cpu_thread_limit;
            let usable = if cap is Some && (cap->0 as int) < cores {
                cap->0 as int
            } else {
                cores
            };
            let mode = inputs.user.mode;
            let stated = inputs.user.advanced.thread_count;
            &&& 1 <= threads <= usable
            &&& stated is Some ==> threads == stated->0
            &&& stated is None && mode == OperatingMode::BackgroundConstrained ==> (threads == 1
                && usable == 1) || 2 * threads <= usable < 2 * threads + 2
            &&& stated is None && (mode == OperatingMode::BalancedNormal || mode
                == OperatingMode::Advanced) && 3 * usable <= usize::MAX ==> (threads == 1 && usable
                == 1) || 4 * threads <= 3 * usable < 4 * threads + 4
            &&& stated is None && mode == OperatingMode::MaximumPerformance ==> threads == usable
        }),
{
    let limit = thread_limit(inputs.user, inputs.machine);
    lemma_preset_threads(limit, inputs.user.mode);
    lemma_plan_within_limits(inputs);
    let policy = inputs.user.mode.spec_policy();
    assert(limit * policy.thread_fraction_numerator == 3 * limit
        || policy.thread_fraction_numerator == 1) by (nonlinear_arith)
        requires
            policy.thread_fraction_numerator == 1 || policy.thread_fraction_numerator == 3,
    ;
    assert(policy.thread_fraction_numerator == 1 ==> limit * policy.thread_fraction_numerator
        == limit) by (nonlinear_arith);
    let scaled = limit * policy.thread_fraction_numerator;
    let capped = if scaled > usize::MAX {
        usize::MAX as int
    } else {
        scaled
    };
    let denominator = policy.thread_fraction_denominator as int;
    let share = capped / denominator;
    vstd::arithmetic::div_mod::lemma_fundamental_div_mod(capped, denominator);
    vstd::arithmetic::div_mod::lemma_mod_bound(capped, denominator);
    assert(denominator == 1 ==> denominator * share == share) by (nonlinear_arith);
    assert(denominator == 2 ==> denominator * share == 2 * share) by (nonlinear_arith);
    assert(denominator == 4 ==> denominator * share == 4 * share) by (nonlinear_arith);
}

/// An I/O optimization that is asked for or refused is on or off accordingly; one
/// that is left open is on where it is possible, except that background use does
/// not share read buffers.
pub proof fn lemma_planned_io(inputs: PlanInputs)
    requires
        execution_plan(inputs) is Ok,
    ensures
        ({
            let io = execution_plan(inputs)->Ok_0.io;
            let advanced = inputs.user.advanced;
            let can = inputs.capabilities;
            &&& advanced.read_coalescing_enabled is Some ==> io.read_coalescing_enabled
                == advanced.read_coalescing_enabled->0
            &&& advanced.read_coalescing_enabled is None ==> io.read_coalescing_enabled
                == can.read_coalescing_possible
            &&& advanced.grouped_read_buffer_reuse_enabled is Some
                ==> io.grouped_read_buffer_reuse_enabled
                == advanced.grouped_read_buffer_reuse_enabled->0
            &&& advanced.grouped_read_buffer_reuse_enabled is None
                ==> io.grouped_read_buffer_reuse_enabled == (
            can.grouped_read_buffer_reuse_possible && inputs.user.mode
                != OperatingMode::BackgroundConstrained)
        }),
{
}

/// A plan takes over what it was made from: the identities of model, machine and
/// storage, and the reservations of the static plan.
pub proof fn lemma_planned_reservations(inputs: PlanInputs)
    requires
        execution_plan(inputs) is Ok,
    ensures
        ({
            let plan = execution_plan(inputs)->Ok_0;
            let execution = inputs.static_plan.execution_memory->0;
            let held = plan.reservations;
            &&& inputs.static_plan.execution_memory is Some
            &&& plan.mode == inputs.user.mode
            &&& plan.ram_budget_bytes == inputs.user.ram_budget_bytes
            &&& plan.binding.model_path == inputs.storage.model_path@
            &&& plan.binding.model_descriptor_fingerprint
                == inputs.model.identity.descriptor_fingerprint
            &&& plan.binding.machine_fingerprint == profiles::machine_fingerprint(inputs.machine)
            &&& plan.binding.storage_fingerprint == profiles::storage_fingerprint(inputs.storage)
            &&& held.persistent_resident_bytes == execution.persistent_resident_bytes
            &&& held.persistent_startup_peak_bytes == execution.persistent_startup_peak_bytes
            &&& held.largest_layer_load_peak_bytes == execution.largest_layer_load_peak_bytes
            &&& held.managed_lower_bound_bytes == execution.managed_lower_bound_bytes
            &&& held.managed_lower_bound_bytes <= plan.ram_budget_bytes
            &&& held.remaining_budget_after_lower_bound_bytes == plan.ram_budget_bytes
                - held.managed_lower_bound_bytes
            &&& plan.cost.physical_read_bytes_per_forward
                == execution.estimated_physical_bytes_per_forward
            &&& plan.gpu.preference == inputs.user.gpu_preference
            &&& plan.schema_version == 1
            &&& plan.ruleset_version == 1
        }),
{
}

/// What planning requires, and which refusal names what is missing.
pub proof fn lemma_plan_refusals(inputs: PlanInputs)
    ensures
        ({
            let result = execution_plan(inputs);
            let budget = inputs.user.ram_budget_bytes;
            let total = inputs.machine.total_ram_bytes;
            let free = inputs.machine.available_ram_bytes;
            let execution = inputs.static_plan.execution_memory;
            let can = inputs.capabilities;
            let advanced = inputs.user.advanced;
            &&& result is Ok ==> {
                &&& total is Some && budget <= total->0
                &&& free is Some && budget <= free->0
                &&& can.storage_usable && can.cpu_backend_usable && can.model_execution_compatible
                &&& execution is Some && execution->0.layer_streaming_lower_bound_fits
                    && execution->0.managed_lower_bound_bytes <= budget
                &&& inputs.static_plan.ram_requested == budget
                &&& inputs.static_plan.file_size == inputs.model.file_size_bytes
                &&& inputs.static_plan.tensor_count == inputs.model.tensor_count
                &&& inputs.user.gpu_preference != GpuPreference::Require
                &&& advanced.gpu_device_id is None
                &&& advanced.read_coalescing_enabled == Some(true) ==> can.read_coalescing_possible
                &&& advanced.grouped_read_buffer_reuse_enabled == Some(true)
                    ==> can.grouped_read_buffer_reuse_possible
                &&& advanced.layer_cache_enabled == Some(true)
                    || advanced.layer_cache_capacity_bytes is Some ==> can.layer_cache_possible
                &&& advanced.thread_count is Some ==> advanced.thread_count->0
                    <= inputs.machine.logical_cpu_cores && (inputs.user.cpu_thread_limit is Some
                    ==> advanced.thread_count->0 <= inputs.user.cpu_thread_limit->0)
            }
            &&& result matches Err(PlannerError::Infeasible(reason)) ==> match reason {
                FeasibilityRejection::RamBudgetExceedsTotalRam => total is Some && budget
                    > total->0,
                FeasibilityRejection::RamBudgetExceedsAvailableRam => free is Some && budget
                    > free->0,
                FeasibilityRejection::StorageNotUsable => !can.storage_usable,
                FeasibilityRejection::CpuBackendUnavailable => !can.cpu_backend_usable,
                FeasibilityRejection::ModelNotExecutable => !can.model_execution_compatible,
                FeasibilityRejection::ExecutionPreflightUnavailable => execution is None,
                FeasibilityRejection::ManagedMemoryLowerBoundExceedsBudget => execution is Some && (
                !execution->0.layer_streaming_lower_bound_fits
                    || execution->0.managed_lower_bound_bytes > budget),
                FeasibilityRejection::RequestedThreadCountUnavailable => advanced.thread_count
                    is Some && (advanced.thread_count->0 > inputs.machine.logical_cpu_cores || (
                inputs.user.cpu_thread_limit is Some && advanced.thread_count->0
                    > inputs.user.cpu_thread_limit->0)),
                FeasibilityRejection::GpuRequiredButUnavailable => inputs.user.gpu_preference
                    == GpuPreference::Require || advanced.gpu_device_id is Some,
                FeasibilityRejection::LayerCacheRequiredButUnavailable => (
                advanced.layer_cache_enabled == Some(true)
                    || advanced.layer_cache_capacity_bytes is Some) && !can.layer_cache_possible,
                FeasibilityRejection::LayerCacheCapacityExceedsStaticCapacity =>
                    advanced.layer_cache_capacity_bytes is Some && execution is Some
                    && advanced.layer_cache_capacity_bytes->0
                    > execution->0.layer_cache_capacity_bytes,
                FeasibilityRejection::ReadCoalescingRequiredButUnavailable =>
                    advanced.read_coalescing_enabled == Some(true) && !can.read_coalescing_possible,
                FeasibilityRejection::GroupedReadBufferReuseRequiredButUnavailable =>
                    advanced.grouped_read_buffer_reuse_enabled == Some(true)
                    && !can.grouped_read_buffer_reuse_possible,
                _ => true,
            }
        }),
{
    if feasibility(inputs) is Ok {
        profiles::lemma_no_gpu_backend(
            inputs.machine,
            inputs.model,
            inputs.storage,
            inputs.static_plan,
        );
        assert(inputs.capabilities@.gpu_backend_usable == inputs.capabilities.gpu_backend_usable);
    }
    profiles::lemma_user_checked(inputs.user);
    lemma_checks_are_profiles(inputs);
}

proof fn lemma_checks_are_profiles(inputs: PlanInputs)
    ensures
        profiles_check(inputs) matches Err(PlannerError::Infeasible(reason)) ==> reason
            == FeasibilityRejection::AdvancedOverrideRequiresAdvancedMode,
{
    profiles::lemma_gpus_checked(inputs.machine.gpus@);
    if inputs.calibration is Some {
        observation::lemma_calibration_refusal(inputs.calibration->0);
    }
}

/// The reasons of a plan say, in a fixed order, what it decided and why: budget,
/// threads, strategy, GPU, layer cache, both I/O optimizations and calibration.
pub proof fn lemma_planned_reasons(inputs: PlanInputs)
    requires
        execution_plan(inputs) is Ok,
    ensures
        ({
            let plan = execution_plan(inputs)->Ok_0;
            let reasons = plan.reasons;
            let advanced = inputs.user.advanced;
            let cache_asked = match advanced.layer_cache_enabled {
                Some(choice) => choice,
                None => inputs.user.mode != OperatingMode::BackgroundConstrained,
            };
            &&& reasons.len() == 8
            &&& reasons[0].code == PlanReasonCode::UserRamBudgetPreserved && reasons[0].value
                == Some(plan.ram_budget_bytes)
            &&& reasons[1].code == (if advanced.thread_count is Some {
                PlanReasonCode::ThreadCountSelectedByAdvancedOverride
            } else {
                PlanReasonCode::ThreadCountSelectedByPreset
            }) && reasons[1].value == Some(plan.cpu_thread_count as u64)
            &&& reasons[2].code == PlanReasonCode::CpuStrategySelected && reasons[2].value is None
            &&& reasons[3].code == (if inputs.user.gpu_preference == GpuPreference::Disabled {
                PlanReasonCode::GpuDisabledByUser
            } else {
                PlanReasonCode::GpuUnavailable
            }) && reasons[3].value is None
            &&& reasons[4].value == Some(plan.layer_cache.capacity_bytes)
            &&& reasons[4].code == PlanReasonCode::LayerCacheEnabledWithinStaticCapacity
                <==> plan.layer_cache.enabled
            &&& !plan.layer_cache.enabled ==> reasons[4].code == (if cache_asked {
                PlanReasonCode::LayerCacheDisabledBecauseNoCompleteLayerFits
            } else {
                PlanReasonCode::LayerCacheDisabledByPreset
            })
            &&& reasons[5].code == (if plan.io.read_coalescing_enabled {
                PlanReasonCode::ReadCoalescingEnabled
            } else {
                PlanReasonCode::ReadCoalescingDisabled
            }) && reasons[5].value is None
            &&& reasons[6].code == (if plan.io.grouped_read_buffer_reuse_enabled {
                PlanReasonCode::GroupedReadBufferReuseEnabled
            } else {
                PlanReasonCode::GroupedReadBufferReuseDisabled
            }) && reasons[6].value is None
            &&& reasons[7].value == Some(plan.calibration.observation_identifiers.len() as u64)
            &&& reasons[7].code == PlanReasonCode::CalibrationNotRequested
                <==> inputs.user.calibration_level == CalibrationLevel::NotRequested
            &&& reasons[7].code == PlanReasonCode::CalibrationObservationsApplied
                <==> plan.calibration.observation_identifiers.len() > 0
            &&& reasons[7].code == PlanReasonCode::CalibrationNotRequested || reasons[7].code
                == PlanReasonCode::CalibrationObservationsApplied || reasons[7].code
                == PlanReasonCode::CalibrationNotApplicable
        }),
{
    lemma_plan_within_limits(inputs);
}

/// A calibrated read time is the time, in whole nanoseconds rounded up, that the
/// planned bytes take at the rate of a measured sequential read; it comes from
/// the calibration only where that was asked for, is at least as thorough as asked
/// for, and was taken on this machine, model and storage.
pub proof fn lemma_planned_cost(inputs: PlanInputs)
    requires
        execution_plan(inputs) is Ok,
    ensures
        ({
            let plan = execution_plan(inputs)->Ok_0;
            let cost = plan.cost;
            let source = inputs.calibration->0;
            let informed = cost.calibrated_read_time_ns_per_forward is Some
                || cost.observed_strategy_latency_ns is Some;
            let linked = plan.calibration.calibration_identifier is Some;
            &&& informed ==> linked
            &&& linked ==> {
                &&& inputs.calibration is Some
                &&& inputs.user.calibration_level != CalibrationLevel::NotRequested
                &&& source.level.spec_rank() >= inputs.user.calibration_level.spec_rank()
                &&& source.machine_fingerprint == plan.binding.machine_fingerprint
                &&& source.model_fingerprint is Some ==> source.model_fingerprint->0
                    == plan.binding.model_descriptor_fingerprint
                &&& source.storage_fingerprint is Some ==> source.storage_fingerprint->0
                    == plan.binding.storage_fingerprint
                &&& plan.calibration.calibration_identifier == Some(source.identifier@)
                &&& plan.calibration.calibration_plan_identifier == Some(
                    source.calibration_plan_identifier@,
                )
                &&& plan.calibration.calibration_plan_version == Some(
                    source.calibration_plan_version,
                )
                &&& plan.calibration.calibration_ruleset_version == Some(
                    source.calibration_ruleset_version,
                )
            }
            &&& cost.calibrated_read_time_ns_per_forward is Some ==> exists|at: int|
                0 <= at < source.observations@.len() && is_read_time(
                    #[trigger] source.observations@[at],
                    cost.physical_read_bytes_per_forward,
                    cost.calibrated_read_time_ns_per_forward->0,
                ) && plan.calibration.observation_identifiers.contains(
                    source.observations@[at].identifier@,
                )
            &&& cost.observed_strategy_latency_ns is Some ==> exists|at: int|
                0 <= at < source.observations@.len() && is_latency_of(
                    #[trigger] source.observations@[at],
                    plan.strategy,
                    cost.observed_strategy_latency_ns->0,
                ) && plan.calibration.observation_identifiers.contains(
                    source.observations@[at].identifier@,
                )
            &&& linked && cost.calibrated_read_time_ns_per_forward is None ==> forall|at: int|
                0 <= at < source.observations@.len() ==> !((
                #[trigger] source.observations@[at]).status == ObservationStatus::Measured
                    && source.observations@[at].metric
                    == ObservationMetric::SequentialReadThroughput
                    && source.observations@[at].strategy is None)
        }),
{
    let user = inputs.user;
    let plan = execution_plan(inputs)->Ok_0;
    if plan.calibration.calibration_identifier is Some {
        let source = inputs.calibration->0;
        let observations = source.observations@;
        let metric = ObservationMetric::SequentialReadThroughput;
        let bytes = inputs.static_plan.execution_memory->0.estimated_physical_bytes_per_forward;
        lemma_best_place(observations, metric, None);
        lemma_best_place(observations, ObservationMetric::StrategyLatency, Some(plan.strategy));
        let read = best_place(observations, metric, None);
        let latency = best_place(
            observations,
            ObservationMetric::StrategyLatency,
            Some(plan.strategy),
        );
        let first = match read {
            Some(at) => Some(observations[at].identifier@),
            None => None,
        };
        let second = match latency {
            Some(at) => Some(observations[at].identifier@),
            None => None,
        };
        lemma_pair_lists(first, second);
        observation::lemma_measured_value(source);
        if read is Some {
            let one = observations[read->0];
            lemma_rate_duration(bytes, one.value->0);
            assert(is_read_time(observations[read->0], bytes, rate_duration(bytes, one.value->0)));
        }
        if latency is Some {
            let one = observations[latency->0];
            assert(is_latency_of(observations[latency->0], plan.strategy, one.value->0));
        }
    }
}

/// `nanoseconds` is what reading `bytes` takes at the measured rate, rounded up.
pub open spec fn is_read_time(
    observation: PerformanceObservation,
    bytes: u64,
    nanoseconds: u64,
) -> bool {
    &&& observation.status == ObservationStatus::Measured
    &&& observation.metric == ObservationMetric::SequentialReadThroughput
    &&& observation.strategy is None
    &&& observation.value is Some && observation.value->0 > 0
    &&& nanoseconds < u64::MAX ==> nanoseconds * observation.value->0 >= bytes * 1000000000
    &&& nanoseconds > 0 ==> (nanoseconds - 1) * observation.value->0 < bytes * 1000000000
}

pub open spec fn is_latency_of(
    observation: PerformanceObservation,
    strategy: StrategyId,
    nanoseconds: u64,
) -> bool {
    &&& observation.status == ObservationStatus::Measured
    &&& observation.metric == ObservationMetric::StrategyLatency
    &&& observation.strategy == Some(strategy)
    &&& observation.value == Some(nanoseconds)
}

proof fn lemma_pair_lists(first: Option<Seq<char>>, second: Option<Seq<char>>)
    ensures
        first is Some ==> sorted_pair(first, second).contains(first->0),
        second is Some ==> sorted_pair(first, second).contains(second->0),
{
    let pair = sorted_pair(first, second);
    if first is Some {
        assert(pair[0] == first->0 || pair[1] == first->0);
    }
    if second is Some {
        assert(pair[0] == second->0 || pair[1] == second->0);
    }
}

proof fn lemma_rate_duration(units: u64, rate: u64)
    requires
        rate > 0,
    ensures
        rate_duration(units, rate) < u64::MAX ==> rate_duration(units, rate) * rate >= units
            * 1000000000,
        rate_duration(units, rate) > 0 ==> (rate_duration(units, rate) - 1) * rate < units
            * 1000000000,
{
    let work = units * 1000000000;
    let sum = work + rate - 1;
    let exact = sum / (rate as int);
    vstd::arithmetic::div_mod::lemma_fundamental_div_mod(sum, rate as int);
    vstd::arithmetic::div_mod::lemma_mod_bound(sum, rate as int);
    assert(rate * exact == exact * rate) by (nonlinear_arith);
    assert((exact - 1) * rate == exact * rate - rate) by (nonlinear_arith);
    let taken = rate_duration(units, rate);
    assert(taken <= exact ==> (taken - 1) * rate <= (exact - 1) * rate) by (nonlinear_arith)
        requires
            rate > 0,
    ;
    assert(exact >= 0) by {
        vstd::arithmetic::div_mod::lemma_div_pos_is_pos(sum, rate as int);
    }
}

/// Which observation a question is answered with: a measured one of the metric and
/// strategy, of the best quality; among those the one with the most samples, then
/// the one measured longest, then the one whose identifier comes first.
pub proof fn lemma_best_observation(
    observations: Seq<PerformanceObservation>,
    metric: ObservationMetric,
    strategy: Option<StrategyId>,
)
    ensures
        match best_place(observations, metric, strategy) {
            Some(best) => {
                let one = observations[best];
                &&& 0 <= best < observations.len()
                &&& one.status == ObservationStatus::Measured && one.metric == metric
                    && one.strategy == strategy
                &&& forall|j: int|
                    0 <= j < observations.len() && (#[trigger] observations[j]).status
                        == ObservationStatus::Measured && observations[j].metric == metric
                        && observations[j].strategy == strategy ==> {
                        let other = observations[j];
                        &&& other.quality_basis_points <= one.quality_basis_points
                        &&& other.quality_basis_points == one.quality_basis_points
                            ==> other.sample_count <= one.sample_count
                        &&& other.quality_basis_points == one.quality_basis_points
                            && other.sample_count == one.sample_count
                            ==> other.measurement_duration_ns <= one.measurement_duration_ns
                        &&& other.quality_basis_points == one.quality_basis_points
                            && other.sample_count == one.sample_count
                            && other.measurement_duration_ns == one.measurement_duration_ns
                            ==> !text::text_less(other.identifier@, one.identifier@)
                    }
            },
            None => forall|j: int|
                0 <= j < observations.len() ==> !((#[trigger] observations[j]).status
                    == ObservationStatus::Measured && observations[j].metric == metric
                    && observations[j].strategy == strategy),
        },
{
    lemma_best_place(observations, metric, strategy);
    match best_place(observations, metric, strategy) {
        Some(best) => {
            assert forall|j: int|
                0 <= j < observations.len() && (#[trigger] observations[j]).status
                    == ObservationStatus::Measured && observations[j].metric == metric
                    && observations[j].strategy == strategy implies {
                let one = observations[best];
                let other = observations[j];
                &&& other.quality_basis_points <= one.quality_basis_points
                &&& other.quality_basis_points == one.quality_basis_points ==> other.sample_count
                    <= one.sample_count
                &&& other.quality_basis_points == one.quality_basis_points && other.sample_count
                    == one.sample_count ==> other.measurement_duration_ns
                    <= one.measurement_duration_ns
                &&& other.quality_basis_points == one.quality_basis_points && other.sample_count
                    == one.sample_count && other.measurement_duration_ns
                    == one.measurement_duration_ns ==> !text::text_less(
                    other.identifier@,
                    one.identifier@,
                )
            } by {
                assert(answers(observations[j], metric, strategy));
                assert(!ranks_above(observations[j], observations[best]));
            }
        },
        None => {
            assert forall|j: int| 0 <= j < observations.len() implies !((
            #[trigger] observations[j]).status == ObservationStatus::Measured
                && observations[j].metric == metric && observations[j].strategy == strategy) by {
                assert(!answers(observations[j], metric, strategy));
            }
        },
    }
}

/// A plan names the observations that its cost rests on, in ascending order, and no
/// others; a strategy's latency is taken over as it was measured.
pub proof fn lemma_planned_observations(inputs: PlanInputs)
    requires
        execution_plan(inputs) is Ok,
    ensures
        ({
            let plan = execution_plan(inputs)->Ok_0;
            let named = plan.calibration.observation_identifiers;
            let source = inputs.calibration->0.observations@;
            let read = best_place(source, ObservationMetric::SequentialReadThroughput, None);
            let latency = best_place(
                source,
                ObservationMetric::StrategyLatency,
                Some(plan.strategy),
            );
            let linked = plan.calibration.calibration_identifier is Some;
            &&& named.len() <= 2
            &&& !linked ==> named.len() == 0
            &&& named.len() == 2 ==> !text::text_less(named[1], named[0])
            &&& linked ==> {
                &&& plan.cost.calibrated_read_time_ns_per_forward is Some <==> read is Some
                &&& plan.cost.observed_strategy_latency_ns == (match latency {
                    Some(at) => source[at].value,
                    None => None,
                })
                &&& read is Some ==> named.contains(source[read->0].identifier@)
                &&& latency is Some ==> named.contains(source[latency->0].identifier@)
                &&& named.len() == (if read is Some {
                    1int
                } else {
                    0
                }) + (if latency is Some {
                    1int
                } else {
                    0
                })
            }
        }),
{
    let plan = execution_plan(inputs)->Ok_0;
    let source = inputs.calibration->0.observations@;
    let read = best_place(source, ObservationMetric::SequentialReadThroughput, None);
    let latency = best_place(source, ObservationMetric::StrategyLatency, Some(plan.strategy));
    let first = match read {
        Some(at) => Some(source[at].identifier@),
        None => None,
    };
    let second = match latency {
        Some(at) => Some(source[at].identifier@),
        None => None,
    };
    lemma_pair_lists(first, second);
    if first is Some && second is Some {
        text::lemma_text_less_total(first->0, second->0);
    }
}

/// When calibration informs a plan: exactly where it was asked for, is at hand, is at
/// least as thorough as asked for, and was taken on this machine and, as far as it
/// says, for this model and storage.
pub proof fn lemma_calibration_used(inputs: PlanInputs)
    requires
        execution_plan(inputs) is Ok,
    ensures
        ({
            let plan = execution_plan(inputs)->Ok_0;
            let asked = inputs.user.calibration_level;
            let source = inputs.calibration->0;
            plan.calibration.calibration_identifier is Some <==> {
                &&& asked != CalibrationLevel::NotRequested
                &&& inputs.calibration is Some
                &&& asked == CalibrationLevel::Quick || source.level == CalibrationLevel::Thorough
                    || source.level == asked
                &&& source.level != CalibrationLevel::NotRequested
                &&& source.machine_fingerprint == profiles::machine_fingerprint(inputs.machine)
                &&& source.model_fingerprint is Some ==> source.model_fingerprint->0
                    == inputs.model.identity.descriptor_fingerprint
                &&& source.storage_fingerprint is Some ==> source.storage_fingerprint->0
                    == profiles::storage_fingerprint(inputs.storage)
            }
        }),
{
    if inputs.calibration is Some {
        observation::lemma_calibration_checked(inputs.calibration->0);
    }
}

/// In which order planning refuses: what the inputs are comes before what the
/// machine has, total memory before free memory, the storage before the CPU, the
/// CPU before the model, the model before its memory, and the choices come last,
/// threads first and I/O last.
pub proof fn lemma_refusal_order(inputs: PlanInputs)
    ensures
        ({
            let result = execution_plan(inputs);
            let budget = inputs.user.ram_budget_bytes;
            let total = inputs.machine.total_ram_bytes;
            let free = inputs.machine.available_ram_bytes;
            let execution = inputs.static_plan.execution_memory;
            let can = inputs.capabilities;
            let fits_total = total is Some && budget <= total->0;
            let fits_free = fits_total && free is Some && budget <= free->0;
            let runs = fits_free && can.storage_usable && can.cpu_backend_usable
                && can.model_execution_compatible;
            let holds = runs && execution is Some && execution->0.layer_streaming_lower_bound_fits
                && execution->0.managed_lower_bound_bytes <= budget;
            result matches Err(PlannerError::Infeasible(reason)) ==> match reason {
                FeasibilityRejection::RamBudgetExceedsAvailableRam => fits_total,
                FeasibilityRejection::StorageNotUsable => fits_free,
                FeasibilityRejection::CpuBackendUnavailable => fits_free && can.storage_usable,
                FeasibilityRejection::ModelNotExecutable => fits_free && can.storage_usable
                    && can.cpu_backend_usable,
                FeasibilityRejection::ExecutionPreflightUnavailable => runs,
                FeasibilityRejection::ManagedMemoryLowerBoundExceedsBudget => runs && execution
                    is Some,
                FeasibilityRejection::RequestedThreadCountUnavailable => holds,
                FeasibilityRejection::GpuRequiredButUnavailable => holds,
                FeasibilityRejection::LayerCacheRequiredButUnavailable => holds,
                FeasibilityRejection::LayerCacheCapacityExceedsStaticCapacity => holds
                    && can.layer_cache_possible,
                FeasibilityRejection::LayerCacheCapacityCannotFitCompleteLayer => holds
                    && can.layer_cache_possible,
                FeasibilityRejection::ReadCoalescingRequiredButUnavailable => holds,
                FeasibilityRejection::GroupedReadBufferReuseRequiredButUnavailable => holds && (
                inputs.user.advanced.read_coalescing_enabled == Some(true)
                    ==> can.read_coalescing_possible),
                _ => true,
            }
        }),
{
    lemma_checks_are_profiles(inputs);
}

/// A GPU is used where the preset and the user allow it and one can be used. One that
/// is asked for by name has to be there and usable; otherwise the usable device whose
/// identifier comes first is taken.
pub proof fn lemma_gpu_choice(user: UserProfile, machine: MachineProfile, backend_usable: bool)
    ensures
        ({
            let result = gpu_choice(user, machine, backend_usable);
            let allowed = user.mode != OperatingMode::BackgroundConstrained;
            let gpus = machine.gpus@;
            let named = user.advanced.gpu_device_id;
            &&& result matches Ok(choice) ==> {
                &&& choice.preference == user.gpu_preference
                &&& choice.enabled <==> allowed && user.gpu_preference != GpuPreference::Disabled
                    && backend_usable
                &&& choice.selected_device_id is Some ==> choice.enabled && exists|i: int|
                    0 <= i < gpus.len() && (#[trigger] gpus[i]).backend.usable
                        && gpus[i].identifier@ == choice.selected_device_id->0
                &&& choice.enabled && named is Some ==> choice.selected_device_id == Some(
                    (named->0)@,
                )
                &&& choice.enabled && named is None && choice.selected_device_id is Some
                    ==> forall|i: int|
                    0 <= i < gpus.len() && (#[trigger] gpus[i]).backend.usable ==> !text::text_less(
                        gpus[i].identifier@,
                        choice.selected_device_id->0,
                    )
                &&& choice.enabled && choice.selected_device_id is None ==> forall|i: int|
                    0 <= i < gpus.len() ==> !(#[trigger] gpus[i]).backend.usable
            }
            &&& user.gpu_preference == GpuPreference::Require && !(allowed && backend_usable)
                ==> result is Err
            &&& named is Some && !backend_usable ==> result is Err
            &&& result is Err ==> result->Err_0 == PlannerError::Infeasible(
                FeasibilityRejection::GpuRequiredButUnavailable,
            )
            &&& user.gpu_preference != GpuPreference::Require && named is None ==> result is Ok
        }),
{
    lemma_first_usable(machine.gpus@);
}

proof fn lemma_first_usable(gpus: Seq<GpuDeviceProfile>)
    ensures
        first_usable_gpu(gpus) is None ==> forall|i: int|
            0 <= i < gpus.len() ==> !(#[trigger] gpus[i]).backend.usable,
        first_usable_gpu(gpus) is Some ==> exists|i: int|
            0 <= i < gpus.len() && (#[trigger] gpus[i]).backend.usable && gpus[i].identifier@
                == first_usable_gpu(gpus)->0,
        first_usable_gpu(gpus) is Some ==> forall|i: int|
            0 <= i < gpus.len() && (#[trigger] gpus[i]).backend.usable ==> !text::text_less(
                gpus[i].identifier@,
                first_usable_gpu(gpus)->0,
            ),
    decreases gpus.len(),
{
    if gpus.len() > 0 {
        let shorter = gpus.drop_last();
        let end = gpus.len() - 1;
        lemma_first_usable(shorter);
        let earlier = first_usable_gpu(shorter);
        let found = first_usable_gpu(gpus);
        assert(forall|i: int| 0 <= i < end ==> #[trigger] shorter[i] == gpus[i]);
        assert(gpus[end] == gpus.last());
        if earlier is Some {
            let i = choose|i: int|
                0 <= i < shorter.len() && (#[trigger] shorter[i]).backend.usable
                    && shorter[i].identifier@ == earlier->0;
            assert(gpus[i].backend.usable && gpus[i].identifier@ == earlier->0);
        }
        if found is Some {
            assert forall|i: int|
                0 <= i < gpus.len() && (#[trigger] gpus[i]).backend.usable implies !text::text_less(
                gpus[i].identifier@,
                found->0,
            ) by {
                text::lemma_text_less_total(found->0, found->0);
                if i < end {
                    assert(shorter[i].backend.usable);
                    assert(!text::text_less(shorter[i].identifier@, earlier->0));
                    if found != earlier && text::text_less(gpus[i].identifier@, found->0) {
                        text::lemma_text_less_transitive(
                            gpus[i].identifier@,
                            found->0,
                            earlier->0,
                        );
                    }
                } else if earlier is Some {
                    text::lemma_text_less_total(gpus.last().identifier@, earlier->0);
                }
            }
        }
        if found is None {
            assert forall|i: int| 0 <= i < gpus.len() implies !(
            #[trigger] gpus[i]).backend.usable by {
                if i < end {
                    assert(!shorter[i].backend.usable);
                }
            }
        }
    }
}

/// A plan is made exactly where the profiles make sense and belong together, the
/// machine has the memory, the request can be run, and what is demanded can be had.
pub proof fn lemma_plan_made(inputs: PlanInputs)
    ensures
        execution_plan(inputs) is Ok <==> {
            let user = inputs.user;
            let advanced = user.advanced;
            let machine = inputs.machine;
            let fixed = inputs.static_plan;
            let execution = fixed.execution_memory->0;
            let can = inputs.capabilities;
            let budget = user.ram_budget_bytes;
            let stated = advanced.layer_cache_capacity_bytes;
            &&& profiles::user_check(user) is Ok && profiles::machine_check(machine) is Ok
            &&& profiles::model_check(inputs.model) is Ok && profiles::storage_check(inputs.storage)
                is Ok
            &&& inputs.calibration is Some ==> observation::calibration_check(
                inputs.calibration->0,
            ) is Ok
            &&& can@ == profiles::derived_capabilities(
                machine,
                inputs.model,
                inputs.storage,
                fixed,
            )
            &&& fixed.ram_requested == budget && fixed.file_size == inputs.model.file_size_bytes
            &&& fixed.tensor_count == inputs.model.tensor_count
            &&& text::text_option(fixed.architecture) == text::text_option(inputs.model.architecture)
            &&& machine.total_ram_bytes is Some && budget <= machine.total_ram_bytes->0
            &&& machine.available_ram_bytes is Some && budget <= machine.available_ram_bytes->0
            &&& can.storage_usable && can.cpu_backend_usable && can.model_execution_compatible
            &&& fixed.execution_memory is Some && execution.layer_streaming_lower_bound_fits
                && execution.managed_lower_bound_bytes <= budget
            &&& advanced.thread_count is Some ==> advanced.thread_count->0
                <= machine.logical_cpu_cores && (user.cpu_thread_limit is Some
                ==> advanced.thread_count->0 <= user.cpu_thread_limit->0)
            &&& user.gpu_preference != GpuPreference::Require && advanced.gpu_device_id is None
            &&& advanced.layer_cache_enabled == Some(true) || stated is Some
                ==> can.layer_cache_possible
            &&& stated is Some ==> execution.min_layer_resident_bytes <= stated->0
                <= execution.layer_cache_capacity_bytes
            &&& advanced.layer_cache_enabled == Some(true) && stated is None ==> 2
                * execution.min_layer_resident_bytes <= execution.layer_cache_capacity_bytes
            &&& advanced.read_coalescing_enabled == Some(true) ==> can.read_coalescing_possible
            &&& advanced.grouped_read_buffer_reuse_enabled == Some(true)
                ==> can.grouped_read_buffer_reuse_possible
        },
{
    profiles::lemma_no_gpu_backend(
        inputs.machine,
        inputs.model,
        inputs.storage,
        inputs.static_plan,
    );
    assert(inputs.capabilities@.gpu_backend_usable == inputs.capabilities.gpu_backend_usable);
    profiles::lemma_user_checked(inputs.user);
    lemma_preset_shares(inputs.user.mode);
    let maximum = inputs.static_plan.execution_memory->0.layer_cache_capacity_bytes as int;
    assert(maximum * 5000 / 10000 == maximum / 2);
}

/// The device that is taken where none is named is the one whose identifier comes
/// first among those that can be used.
pub proof fn lemma_first_usable_gpu(gpus: Seq<GpuDeviceProfile>)
    ensures
        first_usable_gpu(gpus) is None <==> forall|i: int|
            0 <= i < gpus.len() ==> !(#[trigger] gpus[i]).backend.usable,
        first_usable_gpu(gpus) is Some ==> {
            &&& exists|i: int|
                0 <= i < gpus.len() && (#[trigger] gpus[i]).backend.usable && gpus[i].identifier@
                    == first_usable_gpu(gpus)->0
            &&& forall|i: int|
                0 <= i < gpus.len() && (#[trigger] gpus[i]).backend.usable ==> !text::text_less(
                    gpus[i].identifier@,
                    first_usable_gpu(gpus)->0,
                )
        },
    decreases gpus.len(),
{
    if gpus.len() > 0 {
        let shorter = gpus.drop_last();
        lemma_first_usable_gpu(shorter);
        let last = gpus.last();
        let earlier = first_usable_gpu(shorter);
        assert(forall|i: int| 0 <= i < shorter.len() ==> #[trigger] shorter[i] == gpus[i]);
        assert(gpus[gpus.len() - 1] == last);
        text::lemma_text_less_total(last.identifier@, last.identifier@);
        if earlier is Some {
            let at = choose|i: int|
                0 <= i < shorter.len() && (#[trigger] shorter[i]).backend.usable
                    && shorter[i].identifier@ == earlier->0;
            assert(gpus[at].backend.usable && gpus[at].identifier@ == earlier->0);
        }
        if earlier is Some && last.backend.usable && text::text_less(
            last.identifier@,
            earlier->0,
        ) {
            assert forall|i: int| 0 <= i < gpus.len() && (#[trigger] gpus[i]).backend.usable implies
                !text::text_less(gpus[i].identifier@, last.identifier@) by {
                if i < shorter.len() {
                    assert(shorter[i].backend.usable);
                    if text::text_less(gpus[i].identifier@, last.identifier@) {
                        text::lemma_text_less_transitive(
                            gpus[i].identifier@,
                            last.identifier@,
                            earlier->0,
                        );
                    }
                }
            }
        }
        if earlier is Some && !(last.backend.usable && text::text_less(
            last.identifier@,
            earlier->0,
        )) {
            assert(first_usable_gpu(gpus) == earlier);
            assert forall|i: int| 0 <= i < gpus.len() && (#[trigger] gpus[i]).backend.usable implies
                !text::text_less(gpus[i].identifier@, earlier->0) by {
                if i < shorter.len() {
                    assert(shorter[i].backend.usable);
                }
            }
        }
        if first_usable_gpu(gpus) is None {
            assert forall|i: int| 0 <= i < gpus.len() implies !(
            #[trigger] gpus[i]).backend.usable by {
                if i < shorter.len() {
                    assert(!shorter[i].backend.usable);
                }
            }
        }
        if earlier is None {
            assert forall|i: int| 0 <= i < shorter.len() implies !(
            #[trigger] gpus[i]).backend.usable by {
                assert(!shorter[i].backend.usable);
            }
        }
    }
}

} // verus!
