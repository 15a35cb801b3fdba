//! Running a calibration plan: which task is measured, what a measurement does
//! next, and which observation comes of it. The clock, the files and the numeric
//! kernels belong to the caller.

use vstd::prelude::*;
use vstd::string::*;

use crate::budget;
use crate::budget::{MemoryBudget, MemoryError};
use crate::calibration;
use crate::calibration::{
    CalibrationError, CalibrationPlan, CalibrationQuantization, CalibrationRequirement,
    CalibrationTask, CalibrationTestKind, CalibrationWorkBudget,
};
use crate::observation;
use crate::observation::{
    aggregate_observation_value, observation_quality_basis_points, CalibrationResult,
    MeasurementSample, ObservationMetric, ObservationStatus, ObservationStatusReason,
    ObservationUnit, PerformanceObservation,
};
use crate::profiles;
use crate::profiles::{
    CalibrationLevel, CapabilitySet, MachineProfile, ModelProfile, StorageProfile, StrategyId,
    UserProfile, PROFILE_SCHEMA_VERSION,
};
use crate::text;

verus! {

// ---------------------------------------------------------------------------
// Observations
// ---------------------------------------------------------------------------
/// What an observation of a test is about.
pub open spec fn shape_metric(kind: CalibrationTestKind) -> ObservationMetric {
    match kind {
        CalibrationTestKind::CpuFloatDot => ObservationMetric::CpuFloatThroughput,
        CalibrationTestKind::MemoryCopyBandwidth => ObservationMetric::MemoryBandwidth,
        CalibrationTestKind::SequentialStorageRead => ObservationMetric::SequentialReadThroughput,
        CalibrationTestKind::StorageReadLatency => ObservationMetric::RandomReadLatency,
        CalibrationTestKind::QuantizedRowDecode(_) => ObservationMetric::QuantizedDecodeThroughput,
        CalibrationTestKind::StrategyLatency(_) => ObservationMetric::StrategyLatency,
    }
}

pub open spec fn shape_strategy(kind: CalibrationTestKind) -> Option<StrategyId> {
    match kind {
        CalibrationTestKind::StrategyLatency(strategy) => Some(strategy),
        _ => None,
    }
}

pub open spec fn shape_format(kind: CalibrationTestKind) -> Option<Seq<char>> {
    match kind {
        CalibrationTestKind::QuantizedRowDecode(format) => Some(format.spec_format_name()),
        _ => None,
    }
}

fn observation_shape(kind: CalibrationTestKind) -> (shape: (
    ObservationMetric,
    ObservationUnit,
    Option<StrategyId>,
    Option<String>,
))
    ensures
        shape.0 == shape_metric(kind),
        shape.1 == shape_metric(kind).spec_unit(),
        shape.2 == shape_strategy(kind),
        text::text_option(shape.3) == shape_format(kind),
{
    match kind {
        CalibrationTestKind::CpuFloatDot => (
            ObservationMetric::CpuFloatThroughput,
            ObservationUnit::ElementsPerSecond,
            None,
            None,
        ),
        CalibrationTestKind::MemoryCopyBandwidth => (
            ObservationMetric::MemoryBandwidth,
            ObservationUnit::BytesPerSecond,
            None,
            None,
        ),
        CalibrationTestKind::SequentialStorageRead => (
            ObservationMetric::SequentialReadThroughput,
            ObservationUnit::BytesPerSecond,
            None,
            None,
        ),
        CalibrationTestKind::StorageReadLatency => (
            ObservationMetric::RandomReadLatency,
            ObservationUnit::Nanoseconds,
            None,
            None,
        ),
        CalibrationTestKind::QuantizedRowDecode(format) => (
            ObservationMetric::QuantizedDecodeThroughput,
            ObservationUnit::ElementsPerSecond,
            None,
            Some(format.format_name().to_owned()),
        ),
        CalibrationTestKind::StrategyLatency(strategy) => (
            ObservationMetric::StrategyLatency,
            ObservationUnit::Nanoseconds,
            Some(strategy),
            None,
        ),
    }
}

/// The observation of a task that was not measured.
pub open spec fn not_measured(
    task: calibration::TaskFacts,
    level: CalibrationLevel,
    status: ObservationStatus,
    reason: ObservationStatusReason,
) -> observation::ObservationFacts {
    observation::ObservationFacts {
        identifier: task.identifier,
        metric: shape_metric(task.kind),
        unit: shape_metric(task.kind).spec_unit(),
        value: None,
        status,
        status_reason: Some(reason),
        strategy: shape_strategy(task.kind),
        quantization_format: shape_format(task.kind),
        calibration_level: level,
        workload_bytes: task.work.bytes_per_iteration,
        workload_elements: task.work.elements_per_iteration,
        measurement_duration_ns: 0,
        sample_count: 0,
        raw_samples: Seq::empty(),
        timestamp_unix_seconds: None,
        quality_basis_points: 0,
    }
}

pub fn non_measured_observation(
    task: &CalibrationTask,
    level: CalibrationLevel,
    status: ObservationStatus,
    reason: ObservationStatusReason,
) -> (observation: PerformanceObservation)
    ensures
        observation@ == not_measured(task@, level, status, reason),
{
    let (metric, unit, strategy, quantization_format) = observation_shape(task.kind);
    let observation = PerformanceObservation {
        identifier: task.identifier.clone(),
        metric,
        unit,
        value: None,
        status,
        status_reason: Some(reason),
        strategy,
        quantization_format,
        calibration_level: level,
        workload_bytes: task.work.bytes_per_iteration,
        workload_elements: task.work.elements_per_iteration,
        measurement_duration_ns: 0,
        sample_count: 0,
        raw_samples: Vec::new(),
        timestamp_unix_seconds: None,
        quality_basis_points: 0,
    };
    assert(observation@ =~= not_measured(task@, level, status, reason));
    observation
}

pub open spec fn saturated(value: int) -> u64 {
    if value > u64::MAX {
        u64::MAX
    } else {
        value as u64
    }
}

/// The observation that samples give: measured, unless no value comes of them.
pub open spec fn measured(
    task: calibration::TaskFacts,
    level: CalibrationLevel,
    samples: Seq<MeasurementSample>,
) -> observation::ObservationFacts {
    let unit = shape_metric(task.kind).spec_unit();
    let units = saturated(observation::total_units(samples));
    match observation::aggregate(unit, samples) {
        None => not_measured(
            task,
            level,
            ObservationStatus::Failed,
            ObservationStatusReason::InvalidWorkload,
        ),
        Some(value) => observation::ObservationFacts {
            identifier: task.identifier,
            metric: shape_metric(task.kind),
            unit,
            value: Some(value),
            status: ObservationStatus::Measured,
            status_reason: None,
            strategy: shape_strategy(task.kind),
            quantization_format: shape_format(task.kind),
            calibration_level: level,
            workload_bytes: match unit {
                ObservationUnit::BytesPerSecond => units,
                ObservationUnit::ElementsPerSecond => 0,
                ObservationUnit::Nanoseconds => task.work.bytes_per_iteration,
            },
            workload_elements: match unit {
                ObservationUnit::BytesPerSecond => 0,
                ObservationUnit::ElementsPerSecond => units,
                ObservationUnit::Nanoseconds => units,
            },
            measurement_duration_ns: saturated(observation::total_elapsed(samples)),
            sample_count: samples.len() as u32,
            raw_samples: samples,
            timestamp_unix_seconds: None,
            quality_basis_points: observation::quality(samples) as u16,
        },
    }
}

fn sample_totals(samples: &Vec<MeasurementSample>) -> (totals: (u64, u64))
    ensures
        totals.0 == saturated(observation::total_elapsed(samples@)),
        totals.1 == saturated(observation::total_units(samples@)),
{
    let ghost all = samples@;
    let mut elapsed: u64 = 0;
    let mut units: u64 = 0;
    for i in 0..samples.len()
        invariant
            all == samples@,
            elapsed == saturated(observation::total_elapsed(all.take(i as int))),
            units == saturated(observation::total_units(all.take(i as int))),
    {
        proof {
            assert(all.take(i as int + 1).drop_last() =~= all.take(i as int));
            lemma_totals_positive(all.take(i as int));
        }
        elapsed = elapsed.saturating_add(samples[i].elapsed_ns);
        units = units.saturating_add(samples[i].units_processed);
    }
    assert(all.take(all.len() as int) =~= all);
    (elapsed, units)
}

proof fn lemma_totals_positive(samples: Seq<MeasurementSample>)
    ensures
        observation::total_elapsed(samples) >= 0,
        observation::total_units(samples) >= 0,
    decreases samples.len(),
{
    if samples.len() > 0 {
        lemma_totals_positive(samples.drop_last());
    }
}

pub fn measured_observation(
    task: &CalibrationTask,
    level: CalibrationLevel,
    samples: Vec<MeasurementSample>,
) -> (observation: PerformanceObservation)
    ensures
        observation@ == measured(task@, level, samples@),
{
    let (measurement_duration_ns, total_units) = sample_totals(&samples);
    let (metric, unit, strategy, quantization_format) = observation_shape(task.kind);
    let value: u64 = match aggregate_observation_value(unit, samples.as_slice()) {
        Some(value) => value,
        None => {
            return non_measured_observation(
                task,
                level,
                ObservationStatus::Failed,
                ObservationStatusReason::InvalidWorkload,
            );
        },
    };
    let (workload_bytes, workload_elements): (u64, u64) = match unit {
        ObservationUnit::BytesPerSecond => (total_units, 0),
        ObservationUnit::ElementsPerSecond => (0, total_units),
        ObservationUnit::Nanoseconds => (task.work.bytes_per_iteration, total_units),
    };
    let quality_basis_points: u16 = observation_quality_basis_points(samples.as_slice());
    let sample_count: u32 = samples.len() as u32;
    let ghost content = samples@;
    let observation = PerformanceObservation {
        identifier: task.identifier.clone(),
        metric,
        unit,
        value: Some(value),
        status: ObservationStatus::Measured,
        status_reason: None,
        strategy,
        quantization_format,
        calibration_level: level,
        workload_bytes,
        workload_elements,
        measurement_duration_ns,
        sample_count,
        raw_samples: samples,
        timestamp_unix_seconds: None,
        quality_basis_points,
    };
    assert(observation@ =~= measured(task@, level, content));
    observation
}

/// What a measurement leads to. Where the test has no measurement, or it failed,
/// the reason decides the status.
pub open spec fn outcome(
    task: calibration::TaskFacts,
    level: CalibrationLevel,
    result: Result<Seq<MeasurementSample>, ObservationStatusReason>,
) -> observation::ObservationFacts {
    if !measurable(task.kind) {
        not_measured(
            task,
            level,
            ObservationStatus::Skipped,
            ObservationStatusReason::TestNotImplemented,
        )
    } else {
        match result {
            Ok(samples) => measured(task, level, samples),
            Err(ObservationStatusReason::DependencyUnavailable) => not_measured(
                task,
                level,
                ObservationStatus::Unavailable,
                ObservationStatusReason::DependencyUnavailable,
            ),
            Err(ObservationStatusReason::TimeLimitReached) => not_measured(
                task,
                level,
                ObservationStatus::Skipped,
                ObservationStatusReason::TimeLimitReached,
            ),
            Err(reason) => not_measured(task, level, ObservationStatus::Failed, reason),
        }
    }
}

/// There is a measurement for the test.
pub open spec fn measurable(kind: CalibrationTestKind) -> bool {
    match kind {
        CalibrationTestKind::StorageReadLatency => false,
        CalibrationTestKind::StrategyLatency(_) => false,
        _ => true,
    }
}

pub fn is_measurable(kind: CalibrationTestKind) -> (yes: bool)
    ensures
        yes == measurable(kind),
{
    match kind {
        CalibrationTestKind::StorageReadLatency => false,
        CalibrationTestKind::StrategyLatency(_) => false,
        _ => true,
    }
}

pub open spec fn sample_result(
    result: Result<Vec<MeasurementSample>, ObservationStatusReason>,
) -> Result<Seq<MeasurementSample>, ObservationStatusReason> {
    match result {
        Ok(samples) => Ok(samples@),
        Err(reason) => Err(reason),
    }
}

/// The observation of a task whose measurement ended in `result`.
pub fn task_observation(
    task: &CalibrationTask,
    level: CalibrationLevel,
    result: Result<Vec<MeasurementSample>, ObservationStatusReason>,
) -> (observation: PerformanceObservation)
    ensures
        observation@ == outcome(task@, level, sample_result(result)),
{
    if !is_measurable(task.kind) {
        return non_measured_observation(
            task,
            level,
            ObservationStatus::Skipped,
            ObservationStatusReason::TestNotImplemented,
        );
    }
    match result {
        Ok(samples) => measured_observation(task, level, samples),
        Err(ObservationStatusReason::DependencyUnavailable) => non_measured_observation(
            task,
            level,
            ObservationStatus::Unavailable,
            ObservationStatusReason::DependencyUnavailable,
        ),
        Err(ObservationStatusReason::TimeLimitReached) => non_measured_observation(
            task,
            level,
            ObservationStatus::Skipped,
            ObservationStatusReason::TimeLimitReached,
        ),
        Err(reason) => non_measured_observation(task, level, ObservationStatus::Failed, reason),
    }
}

/// An observation that was not measured is valid for every task with an
/// identifier, at every level that asks for calibration.
pub proof fn lemma_not_measured_valid(
    found: PerformanceObservation,
    task: calibration::TaskFacts,
    level: CalibrationLevel,
    status: ObservationStatus,
    reason: ObservationStatusReason,
)
    requires
        found@ == not_measured(task, level, status, reason),
        task.identifier.len() > 0,
        level != CalibrationLevel::NotRequested,
        status != ObservationStatus::Measured,
    ensures
        observation::observation_check(found) is Ok,
{
    assert(found@.raw_samples.len() == 0);
    assert(found@.quantization_format == text::text_option(found.quantization_format));
}

/// What a measurement leads to is valid, as long as its total time can be counted
/// in nanoseconds and its samples in 32 bits.
pub proof fn lemma_outcome_valid(
    found: PerformanceObservation,
    task: calibration::TaskFacts,
    level: CalibrationLevel,
    result: Result<Seq<MeasurementSample>, ObservationStatusReason>,
)
    requires
        found@ == outcome(task, level, result),
        task.identifier.len() > 0,
        level != CalibrationLevel::NotRequested,
        result matches Ok(samples) ==> observation::total_elapsed(samples) <= u64::MAX
            && samples.len() <= u32::MAX,
    ensures
        observation::observation_check(found) is Ok,
{
    assert(found@.quantization_format == text::text_option(found.quantization_format));
    if let Ok(samples) = result {
        observation::lemma_quality(samples);
        lemma_totals_positive(samples);
        if measurable(task.kind) && observation::aggregate(
            shape_metric(task.kind).spec_unit(),
            samples,
        ) is Some {
            assert(found.raw_samples@ == samples);
            lemma_elapsed_positive(samples);
        } else {
            assert(found@.raw_samples.len() == 0);
        }
    } else {
        assert(found@.raw_samples.len() == 0);
    }
}

proof fn lemma_elapsed_positive(samples: Seq<MeasurementSample>)
    requires
        observation::samples_usable(samples),
    ensures
        observation::total_elapsed(samples) > 0,
{
    lemma_totals_positive(samples.drop_last());
    assert(samples.last() == samples[samples.len() - 1]);
}

// ---------------------------------------------------------------------------
// Requirements
// ---------------------------------------------------------------------------
pub open spec fn requirement_met(
    requirement: calibration::RequirementFacts,
    capabilities: CapabilitySet,
) -> bool {
    match requirement {
        calibration::RequirementFacts::CpuBackend => capabilities.cpu_backend_usable,
        calibration::RequirementFacts::SeekableStorage => capabilities.storage_usable,
        calibration::RequirementFacts::ModelExecution => capabilities.model_execution_compatible,
        calibration::RequirementFacts::QuantizationFormat(format) => text::texts(
            capabilities.supported_tensor_formats@,
        ).contains(format),
        calibration::RequirementFacts::Strategy(StrategyId::CpuLayerStreaming) =>
            capabilities.cpu_backend_usable && capabilities.model_execution_compatible,
        calibration::RequirementFacts::Strategy(StrategyId::GpuLayerOffload) =>
            capabilities.gpu_backend_usable && capabilities.model_execution_compatible,
    }
}

pub open spec fn requirements_met(
    requirements: Seq<calibration::RequirementFacts>,
    capabilities: CapabilitySet,
) -> bool {
    forall|i: int| 0 <= i < requirements.len() ==> requirement_met(#[trigger] requirements[i], capabilities)
}

fn supports_format(capabilities: &CapabilitySet, format: &str) -> (found: bool)
    ensures
        found == text::texts(capabilities.supported_tensor_formats@).contains(format@),
{
    let ghost names = text::texts(capabilities.supported_tensor_formats@);
    for k in 0..capabilities.supported_tensor_formats.len()
        invariant
            names == text::texts(capabilities.supported_tensor_formats@),
            forall|j: int| 0 <= j < k ==> #[trigger] names[j] != format@,
    {
        assert(names[k as int] == capabilities.supported_tensor_formats@[k as int]@);
        if text::str_equal(capabilities.supported_tensor_formats[k].as_str(), format) {
            return true;
        }
    }
    false
}

fn meets(requirement: &CalibrationRequirement, capabilities: &CapabilitySet) -> (met: bool)
    ensures
        met == requirement_met(requirement@, *capabilities),
{
    match requirement {
        CalibrationRequirement::CpuBackend => capabilities.cpu_backend_usable,
        CalibrationRequirement::SeekableStorage => capabilities.storage_usable,
        CalibrationRequirement::ModelExecution => capabilities.model_execution_compatible,
        CalibrationRequirement::QuantizationFormat(format) => {
            supports_format(capabilities, format.as_str())
        },
        CalibrationRequirement::Strategy(StrategyId::CpuLayerStreaming) => {
            capabilities.cpu_backend_usable && capabilities.model_execution_compatible
        },
        CalibrationRequirement::Strategy(StrategyId::GpuLayerOffload) => {
            capabilities.gpu_backend_usable && capabilities.model_execution_compatible
        },
    }
}

/// The reason why the task cannot run under the capabilities, if there is one.
pub fn unavailable_requirement(task: &CalibrationTask, capabilities: &CapabilitySet) -> (reason:
    Option<ObservationStatusReason>)
    ensures
        reason == (if requirements_met(task@.requirements, *capabilities) {
            None::<ObservationStatusReason>
        } else {
            Some(ObservationStatusReason::CapabilityUnavailable)
        }),
{
    let ghost all = task@.requirements;
    for i in 0..task.requirements.len()
        invariant
            all == calibration::requirement_facts(task.requirements@),
            forall|j: int| 0 <= j < i ==> requirement_met(#[trigger] all[j], *capabilities),
    {
        assert(all[i as int] == task.requirements@[i as int]@);
        if !meets(&task.requirements[i], capabilities) {
            return Some(ObservationStatusReason::CapabilityUnavailable);
        }
    }
    None
}

// ---------------------------------------------------------------------------
// Dispositions
// ---------------------------------------------------------------------------
/// What becomes of a task before it is measured.
#[derive(Debug, Clone, Copy, PartialEq, Eq, Structural)]
pub enum TaskDisposition {
    Measure,
    Leave { status: ObservationStatus, reason: ObservationStatusReason },
}

/// The task asks for no more than the plan's limits.
pub open spec fn within_limits(
    task: calibration::TaskFacts,
    limits: calibration::CalibrationLimits,
) -> bool {
    &&& task.expected_resources.memory_bytes <= limits.max_memory_bytes
    &&& task.expected_resources.storage_read_bytes <= limits.max_storage_read_bytes
    &&& task.work.sample_count <= limits.max_samples
    &&& task.work.warmup_iterations <= limits.max_iterations_per_sample
    &&& task.work.iterations_per_sample <= limits.max_iterations_per_sample
    &&& task.work.max_duration_ns <= limits.max_task_duration_ns
}

/// The task belongs to the model and storage of the plan, as far as it names them.
pub open spec fn same_dependencies(
    task: calibration::TaskFacts,
    plan: calibration::CalibrationPlanFacts,
) -> bool {
    &&& task.model_fingerprint matches Some(model) ==> model == plan.model_fingerprint
    &&& task.storage_fingerprint matches Some(storage) ==> storage == plan.storage_fingerprint
}

/// A task is left where its time is not available any more, where it belongs to
/// something else, where a capability is missing, or where it exceeds a limit.
pub open spec fn disposition(
    task: calibration::TaskFacts,
    plan: calibration::CalibrationPlanFacts,
    capabilities: CapabilitySet,
    elapsed_ns: u64,
) -> TaskDisposition {
    let remaining = if plan.limits.max_total_duration_ns >= elapsed_ns {
        plan.limits.max_total_duration_ns - elapsed_ns
    } else {
        0
    };
    if remaining < task.work.max_duration_ns {
        TaskDisposition::Leave {
            status: ObservationStatus::Skipped,
            reason: ObservationStatusReason::TimeLimitReached,
        }
    } else if !same_dependencies(task, plan) {
        TaskDisposition::Leave {
            status: ObservationStatus::Unavailable,
            reason: ObservationStatusReason::DependencyUnavailable,
        }
    } else if !requirements_met(task.requirements, capabilities) {
        TaskDisposition::Leave {
            status: ObservationStatus::Unavailable,
            reason: ObservationStatusReason::CapabilityUnavailable,
        }
    } else if !within_limits(task, plan.limits) {
        TaskDisposition::Leave {
            status: ObservationStatus::Skipped,
            reason: ObservationStatusReason::ResourceLimitExceeded,
        }
    } else {
        TaskDisposition::Measure
    }
}

/// Decides about a task when `elapsed_ns` of the calibration have passed.
pub fn task_disposition(
    task: &CalibrationTask,
    plan: &CalibrationPlan,
    capabilities: &CapabilitySet,
    elapsed_ns: u64,
) -> (decision: TaskDisposition)
    ensures
        decision == disposition(task@, plan@, *capabilities, elapsed_ns),
{
    let remaining_ns: u64 = plan.limits.max_total_duration_ns.saturating_sub(elapsed_ns);
    if remaining_ns < task.work.max_duration_ns {
        return TaskDisposition::Leave {
            status: ObservationStatus::Skipped,
            reason: ObservationStatusReason::TimeLimitReached,
        };
    }
    let model_differs = match task.model_fingerprint {
        Some(model) => model != plan.model_fingerprint,
        None => false,
    };
    let storage_differs = match task.storage_fingerprint {
        Some(storage) => storage != plan.storage_fingerprint,
        None => false,
    };
    if model_differs || storage_differs {
        return TaskDisposition::Leave {
            status: ObservationStatus::Unavailable,
            reason: ObservationStatusReason::DependencyUnavailable,
        };
    }
    if let Some(reason) = unavailable_requirement(task, capabilities) {
        return TaskDisposition::Leave { status: ObservationStatus::Unavailable, reason };
    }
    if task.expected_resources.memory_bytes > plan.limits.max_memory_bytes
        || task.expected_resources.storage_read_bytes > plan.limits.max_storage_read_bytes
        || task.work.sample_count > plan.limits.max_samples || task.work.warmup_iterations
        > plan.limits.max_iterations_per_sample || task.work.iterations_per_sample
        > plan.limits.max_iterations_per_sample || task.work.max_duration_ns
        > plan.limits.max_task_duration_ns {
        return TaskDisposition::Leave {
            status: ObservationStatus::Skipped,
            reason: ObservationStatusReason::ResourceLimitExceeded,
        };
    }
    TaskDisposition::Measure
}

// ---------------------------------------------------------------------------
// Measurements
// ---------------------------------------------------------------------------
/// What a measurement does next.
#[derive(Debug, Clone, Copy, PartialEq, Eq, Structural)]
pub enum MeasurementAction {
    /// Run the operation once; it is not timed.
    Warmup,
    /// Start the clock of a sample and run the operation once.
    StartSample,
    /// Run the operation once more within the sample.
    Continue,
    Finish,
}

/// One measurement: warmup iterations, then samples of several iterations each,
/// until all are taken or the time is over.
#[derive(Debug, Clone)]
pub struct Measurement {
    pub work: CalibrationWorkBudget,
    pub units_per_iteration: u64,
    pub warmups_done: u32,
    pub iterations_done: u32,
    pub time_over: bool,
    pub samples: Vec<MeasurementSample>,
}

/// The content of a measurement.
#[verifier::ext_equal]
pub struct MeasurementFacts {
    pub work: CalibrationWorkBudget,
    pub units_per_iteration: u64,
    pub warmups_done: u32,
    pub iterations_done: u32,
    pub time_over: bool,
    pub samples: Seq<MeasurementSample>,
}

impl View for Measurement {
    type V = MeasurementFacts;

    open spec fn view(&self) -> MeasurementFacts {
        MeasurementFacts {
            work: self.work,
            units_per_iteration: self.units_per_iteration,
            warmups_done: self.warmups_done,
            iterations_done: self.iterations_done,
            time_over: self.time_over,
            samples: self.samples@,
        }
    }
}

impl MeasurementFacts {
    pub open spec fn units_per_sample(self) -> int {
        self.units_per_iteration * self.work.iterations_per_sample
    }

    pub open spec fn warm(self) -> bool {
        self.warmups_done == self.work.warmup_iterations
    }

    /// Once warm, the units of a sample can be counted; every sample took time and
    /// has the same units; there are no more samples than asked for.
    pub open spec fn wf(self) -> bool {
        &&& self.work.iterations_per_sample > 0
        &&& self.warmups_done <= self.work.warmup_iterations
        &&& self.iterations_done < self.work.iterations_per_sample
        &&& self.samples.len() <= self.work.sample_count
        &&& self.samples.len() == self.work.sample_count ==> self.iterations_done == 0
        &&& !self.warm() ==> self.iterations_done == 0 && self.samples.len() == 0
        &&& self.warm() ==> self.units_per_sample() <= u64::MAX
        &&& self.time_over ==> self.samples.len() > 0 && self.iterations_done == 0
        &&& forall|i: int|
            0 <= i < self.samples.len() ==> (#[trigger] self.samples[i]).units_processed
                == self.units_per_sample() && self.samples[i].elapsed_ns > 0
    }

    /// How many operations were run.
    pub open spec fn operations(self) -> int {
        self.warmups_done + self.samples.len() * self.work.iterations_per_sample
            + self.iterations_done
    }

    pub open spec fn action(self) -> MeasurementAction {
        if !self.warm() {
            MeasurementAction::Warmup
        } else if self.time_over || self.samples.len() == self.work.sample_count {
            MeasurementAction::Finish
        } else if self.iterations_done == 0 {
            MeasurementAction::StartSample
        } else {
            MeasurementAction::Continue
        }
    }
}

/// The measurement after one more operation, when `task_elapsed_ns` have passed
/// since it began and `sample_elapsed_ns` since its sample began.
pub open spec fn recorded(
    measurement: MeasurementFacts,
    task_elapsed_ns: u64,
    sample_elapsed_ns: u64,
) -> Result<MeasurementFacts, ObservationStatusReason> {
    let work = measurement.work;
    if !measurement.warm() {
        let next = MeasurementFacts {
            warmups_done: (measurement.warmups_done + 1) as u32,
            ..measurement
        };
        if task_elapsed_ns >= work.max_duration_ns {
            Err(ObservationStatusReason::TimeLimitReached)
        } else if next.warm() && next.units_per_sample() > u64::MAX {
            Err(ObservationStatusReason::InvalidWorkload)
        } else {
            Ok(next)
        }
    } else if measurement.iterations_done + 1 < work.iterations_per_sample {
        Ok(
            MeasurementFacts {
                iterations_done: (measurement.iterations_done + 1) as u32,
                ..measurement
            },
        )
    } else if sample_elapsed_ns == 0 {
        Err(ObservationStatusReason::InvalidWorkload)
    } else {
        Ok(
            MeasurementFacts {
                iterations_done: 0,
                time_over: task_elapsed_ns >= work.max_duration_ns,
                samples: measurement.samples.push(
                    MeasurementSample {
                        elapsed_ns: sample_elapsed_ns,
                        units_processed: measurement.units_per_sample() as u64,
                    },
                ),
                ..measurement
            },
        )
    }
}

/// A measurement before its first operation.
pub open spec fn begun(work: CalibrationWorkBudget, units_per_iteration: u64) -> MeasurementFacts {
    MeasurementFacts {
        work,
        units_per_iteration,
        warmups_done: 0,
        iterations_done: 0,
        time_over: false,
        samples: Seq::empty(),
    }
}

fn sample_units(work: CalibrationWorkBudget, units_per_iteration: u64) -> (units: Option<u64>)
    ensures
        units is Some <==> units_per_iteration * work.iterations_per_sample <= u64::MAX,
        units is Some ==> units->0 == units_per_iteration * work.iterations_per_sample,
{
    units_per_iteration.checked_mul(work.iterations_per_sample as u64)
}

impl Measurement {
    pub fn begin(work: CalibrationWorkBudget, units_per_iteration: u64) -> (result: Result<
        Self,
        ObservationStatusReason,
    >)
        requires
            work.iterations_per_sample > 0,
        ensures
            match result {
                Ok(measurement) => measurement@ == begun(work, units_per_iteration)
                    && measurement@.wf(),
                Err(reason) => reason == ObservationStatusReason::InvalidWorkload,
            },
            result is Err <==> work.warmup_iterations == 0 && units_per_iteration
                * work.iterations_per_sample > u64::MAX,
    {
        if work.warmup_iterations == 0 && sample_units(work, units_per_iteration).is_none() {
            return Err(ObservationStatusReason::InvalidWorkload);
        }
        let measurement = Measurement {
            work,
            units_per_iteration,
            warmups_done: 0,
            iterations_done: 0,
            time_over: false,
            samples: Vec::new(),
        };
        assert(measurement@ =~= begun(work, units_per_iteration));
        Ok(measurement)
    }

    pub fn next_action(&self) -> (action: MeasurementAction)
        requires
            self@.wf(),
        ensures
            action == self@.action(),
    {
        if self.warmups_done < self.work.warmup_iterations {
            MeasurementAction::Warmup
        } else if self.time_over || self.samples.len() >= self.work.sample_count as usize {
            MeasurementAction::Finish
        } else if self.iterations_done == 0 {
            MeasurementAction::StartSample
        } else {
            MeasurementAction::Continue
        }
    }

    /// Records that the operation was run once more. On an error the measurement is
    /// over and its state is not specified.
    pub fn record(&mut self, task_elapsed_ns: u64, sample_elapsed_ns: u64) -> (result: Result<
        (),
        ObservationStatusReason,
    >)
        requires
            old(self)@.wf(),
            old(self)@.action() != MeasurementAction::Finish,
        ensures
            match result {
                Ok(_) => recorded(old(self)@, task_elapsed_ns, sample_elapsed_ns) == Ok::<
                    MeasurementFacts,
                    ObservationStatusReason,
                >(final(self)@),
                Err(reason) => recorded(old(self)@, task_elapsed_ns, sample_elapsed_ns) == Err::<
                    MeasurementFacts,
                    ObservationStatusReason,
                >(reason),
            },
            result is Ok ==> final(self)@.wf(),
            result is Ok ==> final(self)@.operations() == old(self)@.operations() + 1,
    {
        let ghost before = self@;
        if self.warmups_done < self.work.warmup_iterations {
            if task_elapsed_ns >= self.work.max_duration_ns {
                return Err(ObservationStatusReason::TimeLimitReached);
            }
            self.warmups_done = self.warmups_done + 1;
            if self.warmups_done == self.work.warmup_iterations && sample_units(
                self.work,
                self.units_per_iteration,
            ).is_none() {
                return Err(ObservationStatusReason::InvalidWorkload);
            }
            return Ok(());
        }
        if self.iterations_done + 1 < self.work.iterations_per_sample {
            self.iterations_done = self.iterations_done + 1;
            return Ok(());
        }
        if sample_elapsed_ns == 0 {
            return Err(ObservationStatusReason::InvalidWorkload);
        }
        match sample_units(self.work, self.units_per_iteration) {
            Some(units) => {
                self.samples.push(
                    MeasurementSample { elapsed_ns: sample_elapsed_ns, units_processed: units },
                );
            },
            None => {
                assert(false);
            },
        }
        self.iterations_done = 0;
        self.time_over = task_elapsed_ns >= self.work.max_duration_ns;
        proof {
            let iterations = self.work.iterations_per_sample as int;
            let count = before.samples.len() as int;
            assert((count + 1) * iterations == count * iterations + iterations)
                by (nonlinear_arith);
        }
        Ok(())
    }

    /// The samples of a measurement that has nothing more to do.
    pub fn finish(self) -> (result: Result<Vec<MeasurementSample>, ObservationStatusReason>)
        requires
            self@.wf(),
            self@.action() == MeasurementAction::Finish,
        ensures
            sample_result(result) == (if self@.samples.len() == 0 {
                Err::<Seq<MeasurementSample>, ObservationStatusReason>(
                    ObservationStatusReason::TimeLimitReached,
                )
            } else {
                Ok(self@.samples)
            }),
    {
        if self.samples.len() == 0 {
            Err(ObservationStatusReason::TimeLimitReached)
        } else {
            Ok(self.samples)
        }
    }
}

/// A measurement runs no more operations than its task states.
pub proof fn lemma_measurement_bounded(measurement: MeasurementFacts)
    requires
        measurement.wf(),
    ensures
        0 <= measurement.operations() <= calibration::total_iterations(measurement.work),
        measurement.operations() == calibration::total_iterations(measurement.work)
            ==> measurement.action() == MeasurementAction::Finish,
{
    let count = measurement.samples.len() as int;
    let asked = measurement.work.sample_count as int;
    let iterations = measurement.work.iterations_per_sample as int;
    let done = measurement.iterations_done as int;
    assert(count * iterations >= 0) by (nonlinear_arith)
        requires
            count >= 0,
            iterations >= 0,
    ;
    if count < asked {
        assert(count * iterations + done < iterations * asked) by (nonlinear_arith)
            requires
                0 <= count < asked,
                0 <= done < iterations,
        ;
    } else {
        assert(count * iterations == iterations * asked) by (nonlinear_arith)
            requires
                count == asked,
        ;
    }
}

// ---------------------------------------------------------------------------
// Workloads
// ---------------------------------------------------------------------------
/// How much of a file a storage measurement reads at a time. The file must be the
/// one that was profiled, and must not be empty.
pub fn storage_read_length(
    bytes_per_iteration: u64,
    profiled_bytes: Option<u64>,
    file_bytes: u64,
) -> (result: Result<usize, ObservationStatusReason>)
    ensures
        ({
            let length = if bytes_per_iteration <= file_bytes {
                bytes_per_iteration
            } else {
                file_bytes
            };
            result == (if profiled_bytes is Some && profiled_bytes->0 != file_bytes {
                Err::<usize, ObservationStatusReason>(
                    ObservationStatusReason::DependencyUnavailable,
                )
            } else if length > usize::MAX {
                Err(ObservationStatusReason::InvalidWorkload)
            } else if length == 0 {
                Err(ObservationStatusReason::DependencyUnavailable)
            } else {
                Ok(length as usize)
            })
        }),
{
    if let Some(expected) = profiled_bytes {
        if expected != file_bytes {
            return Err(ObservationStatusReason::DependencyUnavailable);
        }
    }
    let length: u64 = if bytes_per_iteration <= file_bytes {
        bytes_per_iteration
    } else {
        file_bytes
    };
    if length > usize::MAX as u64 {
        return Err(ObservationStatusReason::InvalidWorkload);
    }
    if length == 0 {
        return Err(ObservationStatusReason::DependencyUnavailable);
    }
    Ok(length as usize)
}

/// The length of a buffer for a workload, which must not be empty.
pub fn workload_length(units: u64) -> (result: Result<usize, ObservationStatusReason>)
    ensures
        result == (if units == 0 || units > usize::MAX {
            Err::<usize, ObservationStatusReason>(ObservationStatusReason::InvalidWorkload)
        } else {
            Ok(units as usize)
        }),
{
    if units == 0 || units > usize::MAX as u64 {
        return Err(ObservationStatusReason::InvalidWorkload);
    }
    Ok(units as usize)
}

/// A ramp of bytes, cut to eight bits.
pub open spec fn ramp(count: nat, step: int, first: int) -> Seq<u8> {
    Seq::new(count, |i: int| ((i * step + first) % 256) as u8)
}

/// One block of the synthetic row: its half-precision scales, then its quants.
pub open spec fn block_of(format: CalibrationQuantization) -> Seq<u8> {
    match format {
        CalibrationQuantization::Q4_0 => seq![0x00u8, 0x38u8] + ramp(16, 29, 17),
        CalibrationQuantization::Q8_0 => seq![0x00u8, 0x38u8] + Seq::new(
            32,
            |i: int| (((i * 17) % 255 + 129) % 256) as u8,
        ),
        CalibrationQuantization::Q4K => seq![0x00u8, 0x38u8, 0x00u8, 0x30u8] + ramp(12, 11, 3)
            + ramp(128, 37, 19),
    }
}

/// A block several times over.
pub open spec fn repeated(block: Seq<u8>, times: nat) -> Seq<u8>
    decreases times,
{
    if times == 0 {
        Seq::empty()
    } else {
        repeated(block, (times - 1) as nat) + block
    }
}

/// A block has as many bytes as its format says.
pub proof fn lemma_block_length(format: CalibrationQuantization)
    ensures
        block_of(format).len() == format.spec_block_bytes(),
{
}

fn push_ramp(out: &mut Vec<u8>, count: u32, step: u32, first: u32)
    requires
        count <= 128,
        step <= 255,
        first <= 255,
    ensures
        final(out)@ == old(out)@ + ramp(count as nat, step as int, first as int),
{
    let ghost head = out@;
    for i in 0..count
        invariant
            count <= 128,
            step <= 255,
            first <= 255,
            out@ == head + ramp(i as nat, step as int, first as int),
    {
        assert(i * step <= 128 * 255) by (nonlinear_arith)
            requires
                0 <= i <= 128,
                0 <= step <= 255,
        ;
        out.push(((i * step + first) % 256) as u8);
        assert(out@ =~= head + ramp((i + 1) as nat, step as int, first as int));
    }
}

fn make_block(format: CalibrationQuantization) -> (block: Vec<u8>)
    ensures
        block@ == block_of(format),
{
    let mut block: Vec<u8> = Vec::new();
    block.push(0x00);
    block.push(0x38);
    match format {
        CalibrationQuantization::Q4_0 => {
            push_ramp(&mut block, 16, 29, 17);
        },
        CalibrationQuantization::Q8_0 => {
            for i in 0..32u32
                invariant
                    block@ == seq![0x00u8, 0x38u8] + Seq::new(
                        i as nat,
                        |k: int| (((k * 17) % 255 + 129) % 256) as u8,
                    ),
            {
                block.push((((i * 17) % 255 + 129) % 256) as u8);
                assert(block@ =~= seq![0x00u8, 0x38u8] + Seq::new(
                    (i + 1) as nat,
                    |k: int| (((k * 17) % 255 + 129) % 256) as u8,
                ));
            }
        },
        CalibrationQuantization::Q4K => {
            block.push(0x00);
            block.push(0x30);
            push_ramp(&mut block, 12, 11, 3);
            push_ramp(&mut block, 128, 37, 19);
        },
    }
    assert(block@ =~= block_of(format));
    block
}

/// A synthetic row for a decode measurement: whole blocks, all alike.
pub fn make_quantized_row(format: CalibrationQuantization, elements: usize) -> (row: Option<
    Vec<u8>,
>)
    ensures
        row is None <==> elements == 0 || elements as int % format.spec_block_elements() != 0,
        row matches Some(bytes) ==> bytes@ == repeated(
            block_of(format),
            (elements as int / format.spec_block_elements()) as nat,
        ),
{
    let per_block: usize = format.block_elements();
    if elements == 0 || elements % per_block != 0 {
        return None;
    }
    let block = make_block(format);
    let mut row: Vec<u8> = Vec::new();
    for times in 0..elements / per_block
        invariant
            block@ == block_of(format),
            row@ == repeated(block_of(format), times as nat),
    {
        let mut copy = block.clone();
        assert(copy@ =~= block@);
        row.append(&mut copy);
    }
    Some(row)
}

// ---------------------------------------------------------------------------
// Running a plan
// ---------------------------------------------------------------------------
/// What must hold before a plan is run, in order of checking.
pub open spec fn run_check(
    plan: calibration::CalibrationPlanFacts,
    user: UserProfile,
    machine: MachineProfile,
    model: ModelProfile,
    storage: StorageProfile,
    capabilities: CapabilitySet,
) -> Result<(), CalibrationError> {
    if calibration::plan_check(plan) is Err {
        calibration::plan_check(plan)
    } else if profiles::user_check(user) is Err {
        calibration::from_planner(profiles::user_check(user))
    } else if profiles::machine_check(machine) is Err {
        calibration::from_planner(profiles::machine_check(machine))
    } else if profiles::model_check(model) is Err {
        calibration::from_planner(profiles::model_check(model))
    } else if profiles::storage_check(storage) is Err {
        calibration::from_planner(profiles::storage_check(storage))
    } else if calibration::limits_check(plan.limits, user) is Err {
        calibration::limits_check(plan.limits, user)
    } else if machine.available_ram_bytes is None {
        Err(CalibrationError::InvalidPlan("current available RAM is unknown"))
    } else if plan.limits.max_memory_bytes > machine.available_ram_bytes->0 {
        Err(CalibrationError::InvalidPlan("calibration memory exceeds current available RAM"))
    } else if plan.level == CalibrationLevel::NotRequested {
        Err(CalibrationError::InvalidPlan("none-level calibration cannot be executed"))
    } else if plan.level != user.calibration_level || plan.machine_fingerprint
        != profiles::machine_fingerprint(machine) || plan.model_fingerprint
        != model.identity.descriptor_fingerprint || plan.storage_fingerprint
        != profiles::storage_fingerprint(storage) || capabilities.schema_version
        != PROFILE_SCHEMA_VERSION || capabilities.machine_fingerprint != plan.machine_fingerprint
        || capabilities.model_fingerprint != plan.model_fingerprint
        || capabilities.storage_fingerprint != plan.storage_fingerprint {
        Err(CalibrationError::InvalidPlan("calibration inputs do not match the plan"))
    } else {
        Ok(())
    }
}

/// A plan in execution: the budget that its tasks are charged to, and the
/// observations so far, one for each task that was dealt with.
pub struct CalibrationSession {
    pub budget: MemoryBudget,
    pub observations: Vec<PerformanceObservation>,
}

/// The charge of a task while it is measured.
pub open spec fn task_charge(task: calibration::TaskFacts) -> budget::ChargeFacts {
    budget::ChargeFacts {
        name: "calibration:"@ + task.identifier,
        bytes: if task.expected_resources.memory_bytes == 0 {
            1
        } else {
            task.expected_resources.memory_bytes
        },
    }
}

impl CalibrationSession {
    /// Nothing is charged.
    pub open spec fn idle(&self) -> bool {
        &&& self.budget.wf()
        &&& self.budget@.charges == Seq::<budget::ChargeFacts>::empty()
    }

    /// The task at hand is being measured, and is all that is charged.
    pub open spec fn measuring(&self, plan: calibration::CalibrationPlanFacts) -> bool {
        &&& self.budget.wf()
        &&& self.observations@.len() < plan.tasks.len()
        &&& self.budget@.charges == seq![task_charge(plan.tasks[self.observations@.len() as int])]
    }

    pub open spec fn facts(&self) -> Seq<observation::ObservationFacts> {
        observation::observation_facts(self.observations@)
    }

    fn add(&mut self, observation: PerformanceObservation)
        ensures
            final(self).budget == old(self).budget,
            final(self).facts() == old(self).facts().push(observation@),
            final(self).observations@.len() == old(self).observations@.len() + 1,
    {
        let ghost content = observation@;
        self.observations.push(observation);
        assert(self.facts() =~= old(self).facts().push(content));
    }

    /// Deals with the next task when `elapsed_ns` have passed: records why it is
    /// left, or charges it and returns `true` so that it is measured.
    pub fn begin_task(
        &mut self,
        plan: &CalibrationPlan,
        capabilities: &CapabilitySet,
        elapsed_ns: u64,
    ) -> (result: Result<bool, CalibrationError>)
        requires
            old(self).idle(),
            old(self).observations@.len() < plan.tasks@.len(),
        ensures
            ({
                let task = plan@.tasks[old(self).observations@.len() as int];
                match disposition(task, plan@, *capabilities, elapsed_ns) {
                    TaskDisposition::Leave { status, reason } => {
                        &&& result == Ok::<bool, CalibrationError>(false)
                        &&& final(self).idle()
                        &&& final(self).budget@ == old(self).budget@
                        &&& final(self).facts() == old(self).facts().push(
                            not_measured(task, plan.level, status, reason),
                        )
                    },
                    TaskDisposition::Measure => {
                        &&& result is Ok <==> task_charge(task).bytes <= old(self).budget@.total
                        &&& result is Ok ==> result->Ok_0 && final(self).measuring(plan@)
                            && final(self).budget@.total == old(self).budget@.total
                            && final(self).observations == old(self).observations
                        &&& result is Err ==> result == Err::<bool, CalibrationError>(
                            CalibrationError::Budget(
                                MemoryError::InsufficientMemory {
                                    requested: task_charge(task).bytes,
                                    available: old(self).budget@.total,
                                },
                            ),
                        ) && final(self).idle()
                            && final(self).budget@ == old(self).budget@
                            && final(self).observations == old(self).observations
                    },
                }
            }),
    {
        let at: usize = self.observations.len();
        let task = &plan.tasks[at];
        assert(plan@.tasks[at as int] == task@);
        match task_disposition(task, plan, capabilities, elapsed_ns) {
            TaskDisposition::Leave { status, reason } => {
                self.add(non_measured_observation(task, plan.level, status, reason));
                Ok(false)
            },
            TaskDisposition::Measure => {
                let name = charge_name(task);
                let bytes: u64 = if task.expected_resources.memory_bytes == 0 {
                    1
                } else {
                    task.expected_resources.memory_bytes
                };
                match self.budget.allocate(name.as_str(), bytes) {
                    Ok(()) => {
                        assert(self.budget@.charges =~= seq![task_charge(task@)]);
                        Ok(true)
                    },
                    Err(error) => Err(CalibrationError::Budget(error)),
                }
            },
        }
    }

    /// Records what the measurement of the task at hand led to, and releases its
    /// charge.
    pub fn end_task(
        &mut self,
        plan: &CalibrationPlan,
        measured: Result<Vec<MeasurementSample>, ObservationStatusReason>,
    )
        requires
            old(self).measuring(plan@),
        ensures
            final(self).idle(),
            final(self).budget@.total == old(self).budget@.total,
            final(self).facts() == old(self).facts().push(
                outcome(
                    plan@.tasks[old(self).observations@.len() as int],
                    plan.level,
                    sample_result(measured),
                ),
            ),
    {
        let at: usize = self.observations.len();
        let task = &plan.tasks[at];
        assert(plan@.tasks[at as int] == task@);
        let observation = task_observation(task, plan.level, measured);
        let name = charge_name(task);
        proof {
            let before = Seq::<budget::ChargeFacts>::empty();
            let charge = task_charge(task@);
            assert(before.push(charge) =~= seq![charge]);
            budget::lemma_release_undoes_allocate(before, charge.name, charge.bytes);
        }
        let released = self.budget.release(name.as_str());
        self.add(observation);
    }

    /// The result, once every task was dealt with.
    pub fn finish(self, plan: &CalibrationPlan, timestamp_unix_seconds: Option<u64>) -> (result:
        Result<CalibrationResult, CalibrationError>)
        requires
            self.idle(),
            self.observations@.len() == plan.tasks@.len(),
        ensures
            match result {
                Ok(found) => {
                    &&& observation::calibration_check(found) is Ok
                    &&& is_result_of(found, plan@, self.facts(), timestamp_unix_seconds)
                },
                Err(error) => exists|found: CalibrationResult|
                    {
                        &&& #[trigger] is_result_of(
                            found,
                            plan@,
                            self.facts(),
                            timestamp_unix_seconds,
                        )
                        &&& observation::calibration_check(found) is Err
                        &&& calibration::from_planner(observation::calibration_check(found))
                            == Err::<(), CalibrationError>(error)
                    },
            },
    {
        let mut observations = self.observations;
        stamp(&mut observations, timestamp_unix_seconds);
        let mut identifier = "calibration-result:".to_owned();
        identifier.append(plan.identifier.as_str());
        let found = CalibrationResult {
            schema_version: PROFILE_SCHEMA_VERSION,
            identifier,
            level: plan.level,
            machine_fingerprint: plan.machine_fingerprint,
            model_fingerprint: Some(plan.model_fingerprint),
            storage_fingerprint: Some(plan.storage_fingerprint),
            calibration_plan_identifier: plan.identifier.clone(),
            calibration_plan_version: plan.plan_version,
            calibration_ruleset_version: plan.ruleset_version,
            observations,
        };
        assert(is_result_of(found, plan@, self.facts(), timestamp_unix_seconds));
        match found.validate() {
            Ok(()) => Ok(found),
            Err(error) => Err(CalibrationError::Planner(error)),
        }
    }
}

/// Observations under a common time.
pub open spec fn stamped(
    observations: Seq<observation::ObservationFacts>,
    timestamp_unix_seconds: Option<u64>,
) -> Seq<observation::ObservationFacts> {
    Seq::new(
        observations.len(),
        |i: int|
            observation::ObservationFacts { timestamp_unix_seconds, ..observations[i] },
    )
}

/// The result carries the plan's identity and the observations under one time.
pub open spec fn is_result_of(
    found: CalibrationResult,
    plan: calibration::CalibrationPlanFacts,
    observations: Seq<observation::ObservationFacts>,
    timestamp_unix_seconds: Option<u64>,
) -> bool {
    &&& found.schema_version == PROFILE_SCHEMA_VERSION
    &&& found.identifier@ == "calibration-result:"@ + plan.identifier
    &&& found.level == plan.level
    &&& found.machine_fingerprint == plan.machine_fingerprint
    &&& found.model_fingerprint == Some(plan.model_fingerprint)
    &&& found.storage_fingerprint == Some(plan.storage_fingerprint)
    &&& found.calibration_plan_identifier@ == plan.identifier
    &&& found.calibration_plan_version == plan.plan_version
    &&& found.calibration_ruleset_version == plan.ruleset_version
    &&& observation::observation_facts(found.observations@) == stamped(
        observations,
        timestamp_unix_seconds,
    )
}

fn charge_name(task: &CalibrationTask) -> (name: String)
    ensures
        name@ == task_charge(task@).name,
{
    let mut name = "calibration:".to_owned();
    name.append(task.identifier.as_str());
    name
}

fn stamp(observations: &mut Vec<PerformanceObservation>, timestamp_unix_seconds: Option<u64>)
    ensures
        observation::observation_facts(final(observations)@) == stamped(
            observation::observation_facts(old(observations)@),
            timestamp_unix_seconds,
        ),
{
    let ghost before = observations@;
    let count: usize = observations.len();
    for i in 0..count
        invariant
            count == before.len(),
            observations@.len() == before.len(),
            forall|k: int|
                0 <= k < i ==> (#[trigger] observations@[k])@ == (observation::ObservationFacts {
                    timestamp_unix_seconds,
                    ..before[k]@
                }),
            forall|k: int| i <= k < before.len() ==> #[trigger] observations@[k] == before[k],
    {
        observations[i].timestamp_unix_seconds = timestamp_unix_seconds;
    }
    assert(observation::observation_facts(observations@) =~= stamped(
        observation::observation_facts(before),
        timestamp_unix_seconds,
    ));
}

#[derive(Debug, Default, Clone, Copy)]
pub struct CalibrationRunner;

impl CalibrationRunner {
    /// Starts a plan that fits its inputs.
    pub fn start(
        &self,
        plan: &CalibrationPlan,
        user: &UserProfile,
        machine: &MachineProfile,
        model: &ModelProfile,
        storage: &StorageProfile,
        capabilities: &CapabilitySet,
    ) -> (result: Result<CalibrationSession, CalibrationError>)
        ensures
            match result {
                Ok(session) => {
                    &&& run_check(plan@, *user, *machine, *model, *storage, *capabilities) is Ok
                    &&& session.idle()
                    &&& session.budget@.total == user.ram_budget_bytes
                    &&& session.observations@.len() == 0
                },
                Err(error) => run_check(plan@, *user, *machine, *model, *storage, *capabilities)
                    == Err::<(), CalibrationError>(error),
            },
    {
        plan.validate()?;
        calibration::report(user.validate())?;
        calibration::report(machine.validate())?;
        calibration::report(model.validate())?;
        calibration::report(storage.validate())?;
        plan.limits.validate(user)?;
        match machine.available_ram_bytes {
            None => {
                return Err(CalibrationError::InvalidPlan("current available RAM is unknown"));
            },
            Some(available) => {
                if plan.limits.max_memory_bytes > available {
                    return Err(
                        CalibrationError::InvalidPlan(
                            "calibration memory exceeds current available RAM",
                        ),
                    );
                }
            },
        }
        if plan.level == CalibrationLevel::NotRequested {
            return Err(
                CalibrationError::InvalidPlan("none-level calibration cannot be executed"),
            );
        }
        if plan.level != user.calibration_level || plan.machine_fingerprint
            != machine.fingerprint() || plan.model_fingerprint
            != model.identity.descriptor_fingerprint || plan.storage_fingerprint
            != storage.fingerprint() || capabilities.schema_version != PROFILE_SCHEMA_VERSION
            || capabilities.machine_fingerprint != plan.machine_fingerprint
            || capabilities.model_fingerprint != plan.model_fingerprint
            || capabilities.storage_fingerprint != plan.storage_fingerprint {
            return Err(CalibrationError::InvalidPlan("calibration inputs do not match the plan"));
        }
        match MemoryBudget::new(user.ram_budget_bytes) {
            Ok(budget) => Ok(CalibrationSession { budget, observations: Vec::new() }),
            Err(error) => Err(CalibrationError::Budget(error)),
        }
    }
}

/// A plan that may run never lacks memory for a task: what a task is charged fits
/// the user's budget.
pub proof fn lemma_task_fits(
    plan: calibration::CalibrationPlanFacts,
    user: UserProfile,
    machine: MachineProfile,
    model: ModelProfile,
    storage: StorageProfile,
    capabilities: CapabilitySet,
    at: int,
    elapsed_ns: u64,
)
    requires
        run_check(plan, user, machine, model, storage, capabilities) is Ok,
        0 <= at < plan.tasks.len(),
        disposition(plan.tasks[at], plan, capabilities, elapsed_ns) == TaskDisposition::Measure,
    ensures
        task_charge(plan.tasks[at]).bytes <= user.ram_budget_bytes,
{
}

/// The state of a measurement after its operations, each given by the time that
/// the task has taken and the time that the current sample has taken.
pub open spec fn measurement_after(
    work: CalibrationWorkBudget,
    units_per_iteration: u64,
    operations: Seq<(u64, u64)>,
) -> Result<MeasurementFacts, ObservationStatusReason>
    decreases operations.len(),
{
    if operations.len() == 0 {
        Ok(begun(work, units_per_iteration))
    } else {
        match measurement_after(work, units_per_iteration, operations.drop_last()) {
            Err(reason) => Err(reason),
            Ok(state) => recorded(state, operations.last().0, operations.last().1),
        }
    }
}

/// The operations after warmup are shared out to samples of equal length: each
/// sample counts the units of all its operations and takes the time that was
/// measured when its last one was over, so that the units of all samples together
/// are the units of all operations that were run for them.
pub proof fn lemma_samples_count_operations(
    work: CalibrationWorkBudget,
    units_per_iteration: u64,
    operations: Seq<(u64, u64)>,
)
    requires
        work.iterations_per_sample > 0,
        work.warmup_iterations == 0 ==> units_per_iteration * work.iterations_per_sample
            <= u64::MAX,
        measurement_after(work, units_per_iteration, operations) is Ok,
    ensures
        ({
            let state = measurement_after(work, units_per_iteration, operations)->Ok_0;
            let warmup = work.warmup_iterations as int;
            let each = work.iterations_per_sample as int;
            let run = operations.len() as int;
            let count = state.samples.len() as int;
            &&& state.work == work && state.units_per_iteration == units_per_iteration
            &&& run <= warmup ==> state.warmups_done == run && count == 0 && state.iterations_done
                == 0
            &&& run >= warmup ==> state.warmups_done == warmup && run == warmup + count * each
                + state.iterations_done && units_per_iteration * each <= u64::MAX
            &&& state.iterations_done < each
            &&& forall|j: int|
                0 <= j < count ==> (#[trigger] state.samples[j]).units_processed
                    == units_per_iteration * each && state.samples[j].elapsed_ns > 0
                    && 0 <= warmup + (j + 1) * each - 1 < run && state.samples[j].elapsed_ns
                    == operations[warmup + (j + 1) * each - 1].1
            &&& run >= warmup ==> observation::total_units(state.samples) == units_per_iteration * (
            run - warmup - state.iterations_done)
        }),
    decreases operations.len(),
{
    let warmup = work.warmup_iterations as int;
    let each = work.iterations_per_sample as int;
    let state = measurement_after(work, units_per_iteration, operations)->Ok_0;
    if operations.len() == 0 {
        assert(units_per_iteration * 0int == 0);
    } else {
        let shorter = operations.drop_last();
        lemma_samples_count_operations(work, units_per_iteration, shorter);
        let before = measurement_after(work, units_per_iteration, shorter)->Ok_0;
        let count = before.samples.len() as int;
        let units = units_per_iteration as int;
        if shorter.len() >= warmup && before.iterations_done + 1 >= each {
            assert(state.samples.drop_last() =~= before.samples);
            assert((count + 1) * each == count * each + each) by (nonlinear_arith);
            assert(units * (count * each) + units * each == units * (count * each + each))
                by (nonlinear_arith);
            assert(shorter.len() - warmup - before.iterations_done == count * each);
        }
        if shorter.len() < warmup {
            assert(units * 0int == 0);
        }
        assert forall|j: int| 0 <= j < state.samples.len() implies (
        #[trigger] state.samples[j]).units_processed == units * each
            && state.samples[j].elapsed_ns > 0 && 0 <= warmup + (j + 1) * each - 1
            < operations.len() && state.samples[j].elapsed_ns == operations[warmup + (j + 1) * each
            - 1].1 by {
            if j < count {
                assert(state.samples[j] == before.samples[j]);
                assert(shorter[warmup + (j + 1) * each - 1] == operations[warmup + (j + 1) * each
                    - 1]);
            } else {
                assert(j == count);
            }
        }
    }
}

/// When recording an operation fails: a warmup that reaches the task's time limit
/// is refused, and so are a sample without a duration and a workload whose units
/// per sample cannot be counted. Nothing else is.
pub proof fn lemma_recording_fails(
    measurement: MeasurementFacts,
    task_elapsed_ns: u64,
    sample_elapsed_ns: u64,
)
    requires
        measurement.warmups_done <= measurement.work.warmup_iterations,
    ensures
        ({
            let result = recorded(measurement, task_elapsed_ns, sample_elapsed_ns);
            let work = measurement.work;
            let warming = measurement.warmups_done < work.warmup_iterations;
            &&& result == Err::<MeasurementFacts, ObservationStatusReason>(
                ObservationStatusReason::TimeLimitReached,
            ) <==> warming && task_elapsed_ns >= work.max_duration_ns
            &&& result is Err && task_elapsed_ns < work.max_duration_ns && warming <==> warming
                && task_elapsed_ns < work.max_duration_ns && measurement.warmups_done + 1
                == work.warmup_iterations && measurement.units_per_iteration
                * work.iterations_per_sample > u64::MAX
            &&& !warming ==> (result is Err <==> sample_elapsed_ns == 0
                && measurement.iterations_done + 1 >= work.iterations_per_sample)
            &&& result is Err ==> result->Err_0 == ObservationStatusReason::TimeLimitReached
                || result->Err_0 == ObservationStatusReason::InvalidWorkload
            &&& !warming && result is Ok && measurement.iterations_done + 1
                >= work.iterations_per_sample ==> (result->Ok_0.time_over <==> task_elapsed_ns
                >= work.max_duration_ns)
        }),
{
}

/// When a task is measured: where the time that is left covers it, it is about the
/// plan's model and storage, its requirements are met and it stays within the
/// plan's limits. Otherwise it is left, and what is named is the first of these
/// that fails.
pub proof fn lemma_disposition(
    task: calibration::TaskFacts,
    plan: calibration::CalibrationPlanFacts,
    capabilities: CapabilitySet,
    elapsed_ns: u64,
)
    requires
        task.work.max_duration_ns > 0,
    ensures
        ({
            let choice = disposition(task, plan, capabilities, elapsed_ns);
            let work = task.work;
            let used = task.expected_resources;
            let limits = plan.limits;
            let timely = elapsed_ns + work.max_duration_ns <= limits.max_total_duration_ns;
            let related = (task.model_fingerprint is None || task.model_fingerprint->0
                == plan.model_fingerprint) && (task.storage_fingerprint is None
                || task.storage_fingerprint->0 == plan.storage_fingerprint);
            let able = forall|i: int|
                0 <= i < task.requirements.len() ==> requirement_met(
                    #[trigger] task.requirements[i],
                    capabilities,
                );
            let modest = used.memory_bytes <= limits.max_memory_bytes && used.storage_read_bytes
                <= limits.max_storage_read_bytes && work.sample_count <= limits.max_samples
                && work.warmup_iterations <= limits.max_iterations_per_sample
                && work.iterations_per_sample <= limits.max_iterations_per_sample
                && work.max_duration_ns <= limits.max_task_duration_ns;
            &&& choice == TaskDisposition::Measure <==> timely && related && able && modest
            &&& !timely ==> choice == (TaskDisposition::Leave {
                status: ObservationStatus::Skipped,
                reason: ObservationStatusReason::TimeLimitReached,
            })
            &&& timely && !related ==> choice == (TaskDisposition::Leave {
                status: ObservationStatus::Unavailable,
                reason: ObservationStatusReason::DependencyUnavailable,
            })
            &&& timely && related && !able ==> choice == (TaskDisposition::Leave {
                status: ObservationStatus::Unavailable,
                reason: ObservationStatusReason::CapabilityUnavailable,
            })
            &&& timely && related && able && !modest ==> choice == (TaskDisposition::Leave {
                status: ObservationStatus::Skipped,
                reason: ObservationStatusReason::ResourceLimitExceeded,
            })
        }),
{
}

/// What each requirement asks of the capabilities.
pub proof fn lemma_requirements(capabilities: CapabilitySet, format: Seq<char>)
    ensures
        requirement_met(calibration::RequirementFacts::CpuBackend, capabilities)
            <==> capabilities.cpu_backend_usable,
        requirement_met(calibration::RequirementFacts::SeekableStorage, capabilities)
            <==> capabilities.storage_usable,
        requirement_met(calibration::RequirementFacts::ModelExecution, capabilities)
            <==> capabilities.model_execution_compatible,
        requirement_met(
            calibration::RequirementFacts::Strategy(StrategyId::CpuLayerStreaming),
            capabilities,
        ) <==> capabilities.cpu_backend_usable && capabilities.model_execution_compatible,
        requirement_met(
            calibration::RequirementFacts::Strategy(StrategyId::GpuLayerOffload),
            capabilities,
        ) <==> capabilities.gpu_backend_usable && capabilities.model_execution_compatible,
        requirement_met(calibration::RequirementFacts::QuantizationFormat(format), capabilities)
            <==> exists|i: int|
            0 <= i < capabilities.supported_tensor_formats@.len() && (
            #[trigger] capabilities.supported_tensor_formats@[i])@ == format,
{
    let names = text::texts(capabilities.supported_tensor_formats@);
    if names.contains(format) {
        let k = choose|k: int| 0 <= k < names.len() && names[k] == format;
        assert(capabilities.supported_tensor_formats@[k]@ == format);
    }
    if exists|i: int|
        0 <= i < capabilities.supported_tensor_formats@.len() && (
        #[trigger] capabilities.supported_tensor_formats@[i])@ == format {
        let i = choose|i: int|
            0 <= i < capabilities.supported_tensor_formats@.len() && (
            #[trigger] capabilities.supported_tensor_formats@[i])@ == format;
        assert(names[i] == format);
    }
}

/// What the tests measure and in which unit.
pub proof fn lemma_test_shapes(
    task: calibration::TaskFacts,
    level: CalibrationLevel,
    result: Result<Seq<MeasurementSample>, ObservationStatusReason>,
)
    ensures
        ({
            let found = outcome(task, level, result);
            &&& found.identifier == task.identifier
            &&& found.calibration_level == level
            &&& found.timestamp_unix_seconds is None
            &&& match task.kind {
                CalibrationTestKind::CpuFloatDot => found.metric
                    == ObservationMetric::CpuFloatThroughput && found.unit
                    == ObservationUnit::ElementsPerSecond && found.strategy is None
                    && found.quantization_format is None,
                CalibrationTestKind::MemoryCopyBandwidth => found.metric
                    == ObservationMetric::MemoryBandwidth && found.unit
                    == ObservationUnit::BytesPerSecond && found.strategy is None
                    && found.quantization_format is None,
                CalibrationTestKind::SequentialStorageRead => found.metric
                    == ObservationMetric::SequentialReadThroughput && found.unit
                    == ObservationUnit::BytesPerSecond && found.strategy is None
                    && found.quantization_format is None,
                CalibrationTestKind::StorageReadLatency => found.metric
                    == ObservationMetric::RandomReadLatency && found.unit
                    == ObservationUnit::Nanoseconds && found.status == ObservationStatus::Skipped,
                CalibrationTestKind::QuantizedRowDecode(format) => found.metric
                    == ObservationMetric::QuantizedDecodeThroughput && found.unit
                    == ObservationUnit::ElementsPerSecond && found.strategy is None
                    && found.quantization_format == Some(format.spec_format_name()),
                CalibrationTestKind::StrategyLatency(strategy) => found.metric
                    == ObservationMetric::StrategyLatency && found.unit
                    == ObservationUnit::Nanoseconds && found.strategy == Some(strategy)
                    && found.status == ObservationStatus::Skipped,
            }
        }),
{
}

/// What a measurement leads to: samples with a value are a measurement, with
/// their value, time and quality; samples without one and every other failure are
/// failures, and a measurement that lacks what it depends on, that ran out of
/// time, or that nobody can take says so.
pub proof fn lemma_outcomes(
    task: calibration::TaskFacts,
    level: CalibrationLevel,
    result: Result<Seq<MeasurementSample>, ObservationStatusReason>,
)
    ensures
        ({
            let found = outcome(task, level, result);
            let taken = !(task.kind is StrategyLatency) && task.kind
                != CalibrationTestKind::StorageReadLatency;
            let unmeasured = found.value is None && found.raw_samples.len() == 0
                && found.sample_count == 0 && found.measurement_duration_ns == 0
                && found.quality_basis_points == 0 && found.workload_bytes
                == task.work.bytes_per_iteration && found.workload_elements
                == task.work.elements_per_iteration;
            &&& !taken ==> unmeasured && found.status == ObservationStatus::Skipped
                && found.status_reason == Some(ObservationStatusReason::TestNotImplemented)
            &&& taken && result is Err ==> unmeasured && found.status_reason == Some(result->Err_0)
                && found.status == (if result->Err_0
                == ObservationStatusReason::DependencyUnavailable {
                ObservationStatus::Unavailable
            } else if result->Err_0 == ObservationStatusReason::TimeLimitReached {
                ObservationStatus::Skipped
            } else {
                ObservationStatus::Failed
            })
            &&& taken && result is Ok ==> {
                let samples = result->Ok_0;
                let value = observation::aggregate(found.unit, samples);
                &&& found.value == value
                &&& value is None ==> unmeasured && found.status == ObservationStatus::Failed
                    && found.status_reason == Some(ObservationStatusReason::InvalidWorkload)
                &&& value is Some ==> {
                    let units = observation::total_units(samples);
                    let elapsed = observation::total_elapsed(samples);
                    &&& found.status == ObservationStatus::Measured && found.status_reason is None
                    &&& found.raw_samples == samples
                    &&& samples.len() <= u32::MAX ==> found.sample_count == samples.len()
                    &&& elapsed <= u64::MAX ==> found.measurement_duration_ns == elapsed
                    &&& found.quality_basis_points == observation::quality(samples)
                    &&& units <= u64::MAX && found.unit == ObservationUnit::BytesPerSecond
                        ==> found.workload_bytes == units && found.workload_elements == 0
                    &&& units <= u64::MAX && found.unit == ObservationUnit::ElementsPerSecond
                        ==> found.workload_elements == units && found.workload_bytes == 0
                }
            }
        }),
{
    if result is Ok {
        let samples = result->Ok_0;
        observation::lemma_quality(samples);
        observation::lemma_aggregate_value(shape_metric(task.kind).spec_unit(), samples);
    }
}

/// What a plan needs to be run: it is accepted, asks for measurements, belongs to
/// the profiles and capabilities at hand, and its limits fit the user's budget and
/// the memory that is free now.
pub proof fn lemma_run_checked(
    plan: calibration::CalibrationPlanFacts,
    user: UserProfile,
    machine: MachineProfile,
    model: ModelProfile,
    storage: StorageProfile,
    capabilities: CapabilitySet,
)
    ensures
        run_check(plan, user, machine, model, storage, capabilities) is Ok <==> {
            &&& calibration::plan_check(plan) is Ok
            &&& profiles::user_check(user) is Ok && profiles::machine_check(machine) is Ok
                && profiles::model_check(model) is Ok && profiles::storage_check(storage) is Ok
            &&& calibration::limits_check(plan.limits, user) is Ok
            &&& machine.available_ram_bytes is Some && plan.limits.max_memory_bytes
                <= machine.available_ram_bytes->0
            &&& plan.level != CalibrationLevel::NotRequested && plan.level
                == user.calibration_level
            &&& plan.machine_fingerprint == profiles::machine_fingerprint(machine)
            &&& plan.model_fingerprint == model.identity.descriptor_fingerprint
            &&& plan.storage_fingerprint == profiles::storage_fingerprint(storage)
            &&& capabilities.schema_version == 1
            &&& capabilities.machine_fingerprint == plan.machine_fingerprint
            &&& capabilities.model_fingerprint == plan.model_fingerprint
            &&& capabilities.storage_fingerprint == plan.storage_fingerprint
        },
{
}

/// While a task is measured it is charged what it expects to hold, and at least a
/// byte.
pub proof fn lemma_task_charge(task: calibration::TaskFacts)
    ensures
        task_charge(task).bytes >= 1,
        task.expected_resources.memory_bytes > 0 ==> task_charge(task).bytes
            == task.expected_resources.memory_bytes,
        task.expected_resources.memory_bytes == 0 ==> task_charge(task).bytes == 1,
        task_charge(task).name == "calibration:"@ + task.identifier,
{
}

/// A block several times over holds the block's bytes at every multiple of its length.
pub proof fn lemma_repeated(block: Seq<u8>, times: nat, copy: int, at: int)
    requires
        0 <= copy < times,
        0 <= at < block.len(),
    ensures
        repeated(block, times).len() == times * block.len(),
        copy * block.len() + at < times * block.len(),
        repeated(block, times)[copy * block.len() + at] == block[at],
    decreases times,
{
    let shorter = repeated(block, (times - 1) as nat);
    let width = block.len() as int;
    assert(times * width == (times - 1) * width + width) by (nonlinear_arith);
    if copy == times - 1 {
        lemma_repeated_length(block, (times - 1) as nat);
    } else {
        lemma_repeated(block, (times - 1) as nat, copy, at);
    }
}

proof fn lemma_repeated_length(block: Seq<u8>, times: nat)
    ensures
        repeated(block, times).len() == times * block.len(),
    decreases times,
{
    if times > 0 {
        lemma_repeated_length(block, (times - 1) as nat);
        let width = block.len() as int;
        assert(times * width == (times - 1) * width + width) by (nonlinear_arith);
    } else {
        assert(0 * block.len() == 0) by (nonlinear_arith);
    }
}

/// What an observation says of the task that it was made for.
pub proof fn lemma_outcome_names_task(
    task: calibration::TaskFacts,
    level: CalibrationLevel,
    result: Result<Seq<MeasurementSample>, ObservationStatusReason>,
)
    ensures
        ({
            let found = outcome(task, level, result);
            &&& found.identifier == task.identifier
            &&& found.calibration_level == level
            &&& found.timestamp_unix_seconds is None
            &&& found.strategy is Some <==> task.kind is StrategyLatency
            &&& found.unit == ObservationUnit::Nanoseconds && found.value is Some
                && observation::total_units(result->Ok_0) <= u64::MAX ==> found.workload_elements
                == observation::total_units(result->Ok_0) && found.workload_bytes
                == task.work.bytes_per_iteration
        }),
{
}

/// The tests that a host can time itself.
pub proof fn lemma_measurable(kind: CalibrationTestKind)
    ensures
        measurable(kind) <==> kind != CalibrationTestKind::StorageReadLatency
            && !(kind is StrategyLatency),
{
}

} // verus!
