//! Explicit, bounded local calibration plans.
//!
//! Calibration records measured facts. It does not select execution strategies,
//! mutate capabilities, change policies, or modify planner rules.

use vstd::prelude::*;
use vstd::string::*;

use crate::budget::MemoryError;
use crate::fingerprint;
use crate::fingerprint::Fingerprint;
use crate::profiles;
use crate::profiles::{
    CalibrationLevel, CapabilitySet, MachineProfile, ModelProfile, PlannerError, StorageProfile,
    StrategyId, TensorFormatProfile, UserProfile, CALIBRATION_PLAN_VERSION,
    CALIBRATION_RULESET_VERSION, PROFILE_SCHEMA_VERSION,
};
use crate::text;

verus! {

pub const MAX_ABSOLUTE_MEMORY_BYTES: u64 = 67108864;

pub const MAX_ABSOLUTE_STORAGE_READ_BYTES: u64 = 16777216;

pub const CALIBRATION_METADATA_BYTES: u64 = 4096;

pub const MAX_ABSOLUTE_TOTAL_DURATION_NS: u64 = 120_000_000_000;

pub const MAX_ABSOLUTE_TASK_DURATION_NS: u64 = 30_000_000_000;

pub const MAX_ABSOLUTE_SAMPLES: u32 = 16;

pub const MAX_ABSOLUTE_ITERATIONS: u32 = 1024;

pub const MAX_ABSOLUTE_TASK_BYTES_PROCESSED: u64 = 1073741824;

pub const MAX_ABSOLUTE_TASK_ELEMENTS_PROCESSED: u64 = 100_000_000;

/// Elements of the synthetic row that a decode measurement works on.
pub const DECODE_ELEMENTS: u64 = 2048;

#[derive(Debug, Clone, Copy, PartialEq, Eq, Structural)]
pub enum CalibrationQuantization {
    Q4_0,
    Q8_0,
    Q4K,
}

impl CalibrationQuantization {
    pub open spec fn spec_format_name(self) -> Seq<char> {
        match self {
            CalibrationQuantization::Q4_0 => "Q4_0"@,
            CalibrationQuantization::Q8_0 => "Q8_0"@,
            CalibrationQuantization::Q4K => "Q4_K"@,
        }
    }

    pub fn format_name(self) -> (name: &'static str)
        ensures
            name@ == self.spec_format_name(),
    {
        match self {
            CalibrationQuantization::Q4_0 => "Q4_0",
            CalibrationQuantization::Q8_0 => "Q8_0",
            CalibrationQuantization::Q4K => "Q4_K",
        }
    }

    /// Elements in one block of the format.
    pub open spec fn spec_block_elements(self) -> int {
        match self {
            CalibrationQuantization::Q4_0 => 32,
            CalibrationQuantization::Q8_0 => 32,
            CalibrationQuantization::Q4K => 256,
        }
    }

    pub fn block_elements(self) -> (count: usize)
        ensures
            count == self.spec_block_elements(),
    {
        match self {
            CalibrationQuantization::Q4_0 => 32,
            CalibrationQuantization::Q8_0 => 32,
            CalibrationQuantization::Q4K => 256,
        }
    }

    /// Bytes in one block of the format.
    pub open spec fn spec_block_bytes(self) -> int {
        match self {
            CalibrationQuantization::Q4_0 => 18,
            CalibrationQuantization::Q8_0 => 34,
            CalibrationQuantization::Q4K => 144,
        }
    }

    pub fn block_bytes(self) -> (count: usize)
        ensures
            count == self.spec_block_bytes(),
    {
        match self {
            CalibrationQuantization::Q4_0 => 18,
            CalibrationQuantization::Q8_0 => 34,
            CalibrationQuantization::Q4K => 144,
        }
    }

    /// Bytes of the synthetic row that a decode measurement works on.
    pub open spec fn spec_row_bytes(self) -> int {
        DECODE_ELEMENTS as int / self.spec_block_elements() * self.spec_block_bytes()
    }

    fn row_bytes(self) -> (bytes: u64)
        ensures
            bytes == self.spec_row_bytes(),
            bytes <= 2176,
    {
        match self {
            CalibrationQuantization::Q4_0 => 1152,
            CalibrationQuantization::Q8_0 => 2176,
            CalibrationQuantization::Q4K => 1152,
        }
    }
}

#[derive(Debug, Clone, Copy, PartialEq, Eq, Structural)]
pub enum CalibrationTestKind {
    CpuFloatDot,
    MemoryCopyBandwidth,
    SequentialStorageRead,
    StorageReadLatency,
    QuantizedRowDecode(CalibrationQuantization),
    StrategyLatency(StrategyId),
}

impl CalibrationTestKind {
    pub open spec fn spec_identifier(self) -> Seq<char> {
        match self {
            CalibrationTestKind::CpuFloatDot => "cpu.float-dot.v1"@,
            CalibrationTestKind::MemoryCopyBandwidth => "memory.copy-bandwidth.v1"@,
            CalibrationTestKind::SequentialStorageRead => "storage.sequential-read.v1"@,
            CalibrationTestKind::StorageReadLatency => "storage.read-latency.v1"@,
            CalibrationTestKind::QuantizedRowDecode(CalibrationQuantization::Q4_0) =>
                "decode.q4_0.v1"@,
            CalibrationTestKind::QuantizedRowDecode(CalibrationQuantization::Q8_0) =>
                "decode.q8_0.v1"@,
            CalibrationTestKind::QuantizedRowDecode(CalibrationQuantization::Q4K) =>
                "decode.q4_k.v1"@,
            CalibrationTestKind::StrategyLatency(StrategyId::CpuLayerStreaming) =>
                "strategy.cpu-layer-streaming.v1"@,
            CalibrationTestKind::StrategyLatency(StrategyId::GpuLayerOffload) =>
                "strategy.gpu-layer-offload.v1"@,
        }
    }

    pub fn stable_identifier(self) -> (identifier: String)
        ensures
            identifier@ == self.spec_identifier(),
    {
        let identifier = match self {
            CalibrationTestKind::CpuFloatDot => "cpu.float-dot.v1",
            CalibrationTestKind::MemoryCopyBandwidth => "memory.copy-bandwidth.v1",
            CalibrationTestKind::SequentialStorageRead => "storage.sequential-read.v1",
            CalibrationTestKind::StorageReadLatency => "storage.read-latency.v1",
            CalibrationTestKind::QuantizedRowDecode(CalibrationQuantization::Q4_0) =>
                "decode.q4_0.v1",
            CalibrationTestKind::QuantizedRowDecode(CalibrationQuantization::Q8_0) =>
                "decode.q8_0.v1",
            CalibrationTestKind::QuantizedRowDecode(CalibrationQuantization::Q4K) =>
                "decode.q4_k.v1",
            CalibrationTestKind::StrategyLatency(StrategyId::CpuLayerStreaming) =>
                "strategy.cpu-layer-streaming.v1",
            CalibrationTestKind::StrategyLatency(StrategyId::GpuLayerOffload) =>
                "strategy.gpu-layer-offload.v1",
        };
        identifier.to_owned()
    }
}

/// Different tests have different identifiers, and none is empty.
pub proof fn lemma_identifiers_differ(left: CalibrationTestKind, right: CalibrationTestKind)
    ensures
        left.spec_identifier() == right.spec_identifier() <==> left == right,
        left.spec_identifier().len() > 0,
{
    reveal_strlit("cpu.float-dot.v1");
    reveal_strlit("memory.copy-bandwidth.v1");
    reveal_strlit("storage.sequential-read.v1");
    reveal_strlit("storage.read-latency.v1");
    reveal_strlit("decode.q4_0.v1");
    reveal_strlit("decode.q8_0.v1");
    reveal_strlit("decode.q4_k.v1");
    reveal_strlit("strategy.cpu-layer-streaming.v1");
    reveal_strlit("strategy.gpu-layer-offload.v1");
    assert("cpu.float-dot.v1"@.len() == 16);
    assert("memory.copy-bandwidth.v1"@.len() == 24);
    assert("storage.sequential-read.v1"@.len() == 26);
    assert("storage.read-latency.v1"@.len() == 23);
    assert("decode.q4_0.v1"@.len() == 14);
    assert("decode.q8_0.v1"@.len() == 14);
    assert("decode.q4_k.v1"@.len() == 14);
    assert("strategy.cpu-layer-streaming.v1"@.len() == 31);
    assert("strategy.gpu-layer-offload.v1"@.len() == 29);
    assert("decode.q4_0.v1"@[8] == '4');
    assert("decode.q8_0.v1"@[8] == '8');
    assert("decode.q4_k.v1"@[8] == '4');
    assert("decode.q4_k.v1"@[10] == 'k');
    assert("decode.q4_0.v1"@[10] == '0');
    if left.spec_identifier() == right.spec_identifier() {
        assert(left == right);
    }
}

#[derive(Debug, Clone, Copy, PartialEq, Eq, Structural)]
pub enum CalibrationPurpose {
    CpuRuntimeBaseline,
    MemoryBandwidth,
    StorageThroughput,
    StorageLatency,
    QuantizedDecodeThroughput,
    StrategyComparison,
}

impl CalibrationPurpose {
    pub open spec fn spec_number(self) -> u64 {
        match self {
            CalibrationPurpose::CpuRuntimeBaseline => 0,
            CalibrationPurpose::MemoryBandwidth => 1,
            CalibrationPurpose::StorageThroughput => 2,
            CalibrationPurpose::StorageLatency => 3,
            CalibrationPurpose::QuantizedDecodeThroughput => 4,
            CalibrationPurpose::StrategyComparison => 5,
        }
    }

    fn number(self) -> (number: u64)
        ensures
            number == self.spec_number(),
    {
        match self {
            CalibrationPurpose::CpuRuntimeBaseline => 0,
            CalibrationPurpose::MemoryBandwidth => 1,
            CalibrationPurpose::StorageThroughput => 2,
            CalibrationPurpose::StorageLatency => 3,
            CalibrationPurpose::QuantizedDecodeThroughput => 4,
            CalibrationPurpose::StrategyComparison => 5,
        }
    }
}

#[derive(Debug, Clone, PartialEq, Eq)]
pub enum CalibrationRequirement {
    CpuBackend,
    SeekableStorage,
    ModelExecution,
    QuantizationFormat(String),
    Strategy(StrategyId),
}

/// The content of a requirement.
pub enum RequirementFacts {
    CpuBackend,
    SeekableStorage,
    ModelExecution,
    QuantizationFormat(Seq<char>),
    Strategy(StrategyId),
}

impl View for CalibrationRequirement {
    type V = RequirementFacts;

    open spec fn view(&self) -> RequirementFacts {
        match self {
            CalibrationRequirement::CpuBackend => RequirementFacts::CpuBackend,
            CalibrationRequirement::SeekableStorage => RequirementFacts::SeekableStorage,
            CalibrationRequirement::ModelExecution => RequirementFacts::ModelExecution,
            CalibrationRequirement::QuantizationFormat(format) =>
                RequirementFacts::QuantizationFormat(format@),
            CalibrationRequirement::Strategy(strategy) => RequirementFacts::Strategy(*strategy),
        }
    }
}

pub open spec fn requirement_facts(requirements: Seq<CalibrationRequirement>) -> Seq<
    RequirementFacts,
> {
    Seq::new(requirements.len(), |i: int| requirements[i]@)
}

/// Bounded calibration working set. Returned observation metadata is
/// caller-owned, like other results, and is not retained by the runner.
#[derive(Debug, Clone, Copy, PartialEq, Eq, Structural)]
pub struct ExpectedResourceUsage {
    pub memory_bytes: u64,
    /// Maximum storage bytes touched by one bounded measurement operation.
    pub storage_read_bytes: u64,
    pub cpu_threads: u16,
}

#[derive(Debug, Clone, Copy, PartialEq, Eq, Structural)]
pub struct CalibrationWorkBudget {
    pub warmup_iterations: u32,
    pub iterations_per_sample: u32,
    pub sample_count: u32,
    pub elements_per_iteration: u64,
    pub bytes_per_iteration: u64,
    pub max_duration_ns: u64,
}

#[derive(Debug, Clone, PartialEq, Eq)]
pub struct CalibrationTask {
    pub identifier: String,
    pub kind: CalibrationTestKind,
    pub purpose: CalibrationPurpose,
    pub requirements: Vec<CalibrationRequirement>,
    pub expected_resources: ExpectedResourceUsage,
    pub model_fingerprint: Option<u64>,
    pub storage_fingerprint: Option<u64>,
    pub work: CalibrationWorkBudget,
}

/// The content of a task.
#[verifier::ext_equal]
pub struct TaskFacts {
    pub identifier: Seq<char>,
    pub kind: CalibrationTestKind,
    pub purpose: CalibrationPurpose,
    pub requirements: Seq<RequirementFacts>,
    pub expected_resources: ExpectedResourceUsage,
    pub model_fingerprint: Option<u64>,
    pub storage_fingerprint: Option<u64>,
    pub work: CalibrationWorkBudget,
}

impl View for CalibrationTask {
    type V = TaskFacts;

    open spec fn view(&self) -> TaskFacts {
        TaskFacts {
            identifier: self.identifier@,
            kind: self.kind,
            purpose: self.purpose,
            requirements: requirement_facts(self.requirements@),
            expected_resources: self.expected_resources,
            model_fingerprint: self.model_fingerprint,
            storage_fingerprint: self.storage_fingerprint,
            work: self.work,
        }
    }
}

pub open spec fn task_facts(tasks: Seq<CalibrationTask>) -> Seq<TaskFacts> {
    Seq::new(tasks.len(), |i: int| tasks[i]@)
}

#[derive(Debug)]
pub enum CalibrationError {
    InvalidPlan(&'static str),
    Planner(PlannerError),
    Budget(MemoryError),
}

impl CalibrationError {
    pub open spec fn spec_message(self) -> Seq<char> {
        match self {
            CalibrationError::InvalidPlan(reason) => "invalid calibration plan: "@ + reason@,
            CalibrationError::Planner(error) => "invalid calibration profile: "@
                + error.spec_message(),
            CalibrationError::Budget(error) => "calibration budget error: "@
                + error.spec_message(),
        }
    }

    pub fn message(&self) -> (message: String)
        ensures
            message@ == self.spec_message(),
    {
        match self {
            CalibrationError::InvalidPlan(reason) => {
                let mut out = "invalid calibration plan: ".to_owned();
                out.append(reason);
                out
            },
            CalibrationError::Planner(error) => {
                let mut out = "invalid calibration profile: ".to_owned();
                out.append(error.message().as_str());
                out
            },
            CalibrationError::Budget(error) => {
                let mut out = "calibration budget error: ".to_owned();
                out.append(error.message().as_str());
                out
            },
        }
    }
}

/// The outcome of checking a profile, as calibration reports it.
pub open spec fn from_planner(result: Result<(), PlannerError>) -> Result<(), CalibrationError> {
    match result {
        Ok(_) => Ok(()),
        Err(error) => Err(CalibrationError::Planner(error)),
    }
}

pub fn report(result: Result<(), PlannerError>) -> (reported: Result<(), CalibrationError>)
    ensures
        reported == from_planner(result),
{
    match result {
        Ok(()) => Ok(()),
        Err(error) => Err(CalibrationError::Planner(error)),
    }
}

/// Iterations of a whole task: the warmup and every sample.
pub open spec fn total_iterations(work: CalibrationWorkBudget) -> int {
    work.iterations_per_sample * work.sample_count + work.warmup_iterations
}

/// The task processes no more than the absolute limits allow.
pub open spec fn volume_bounded(work: CalibrationWorkBudget) -> bool {
    &&& work.bytes_per_iteration * total_iterations(work) <= MAX_ABSOLUTE_TASK_BYTES_PROCESSED
    &&& work.elements_per_iteration * total_iterations(work)
        <= MAX_ABSOLUTE_TASK_ELEMENTS_PROCESSED
}

fn work_volume_is_bounded(work: CalibrationWorkBudget) -> (bounded: bool)
    ensures
        bounded == volume_bounded(work),
{
    assert(work.iterations_per_sample * work.sample_count + work.warmup_iterations
        <= 0xffff_ffff * 0xffff_ffff + 0xffff_ffff) by (nonlinear_arith)
        requires
            work.iterations_per_sample <= 0xffff_ffff,
            work.sample_count <= 0xffff_ffff,
            work.warmup_iterations <= 0xffff_ffff,
    ;
    assert(work.iterations_per_sample * work.sample_count >= 0) by (nonlinear_arith)
        requires
            work.iterations_per_sample >= 0,
            work.sample_count >= 0,
    ;
    let measured: u64 = work.iterations_per_sample as u64 * work.sample_count as u64;
    let total: u64 = measured + work.warmup_iterations as u64;
    let bytes_bounded = match work.bytes_per_iteration.checked_mul(total) {
        Some(bytes) => bytes <= MAX_ABSOLUTE_TASK_BYTES_PROCESSED,
        None => false,
    };
    let elements_bounded = match work.elements_per_iteration.checked_mul(total) {
        Some(elements) => elements <= MAX_ABSOLUTE_TASK_ELEMENTS_PROCESSED,
        None => false,
    };
    bytes_bounded && elements_bounded
}

/// The task's resources and work lie within the absolute limits.
pub open spec fn resources_bounded(task: TaskFacts) -> bool {
    &&& task.expected_resources.cpu_threads == 1
    &&& 0 < task.expected_resources.memory_bytes <= MAX_ABSOLUTE_MEMORY_BYTES
    &&& task.expected_resources.storage_read_bytes <= MAX_ABSOLUTE_STORAGE_READ_BYTES
    &&& 0 < task.work.iterations_per_sample <= MAX_ABSOLUTE_ITERATIONS
    &&& 0 < task.work.sample_count <= MAX_ABSOLUTE_SAMPLES
    &&& task.work.warmup_iterations <= MAX_ABSOLUTE_ITERATIONS
    &&& 0 < task.work.max_duration_ns <= MAX_ABSOLUTE_TASK_DURATION_NS
    &&& task.work.elements_per_iteration > 0 || task.work.bytes_per_iteration > 0
    &&& volume_bounded(task.work)
}

pub open spec fn needs_storage(kind: CalibrationTestKind) -> bool {
    kind == CalibrationTestKind::SequentialStorageRead || kind
        == CalibrationTestKind::StorageReadLatency
}

pub open spec fn needs_model(kind: CalibrationTestKind) -> bool {
    kind is QuantizedRowDecode || kind is StrategyLatency
}

/// What `CalibrationTask::validate` finds, first problem first.
pub open spec fn task_check(task: TaskFacts) -> Result<(), CalibrationError> {
    if task.identifier != task.kind.spec_identifier() {
        Err(CalibrationError::InvalidPlan("unstable task identifier"))
    } else if !resources_bounded(task) {
        Err(CalibrationError::InvalidPlan("unbounded task resources"))
    } else if needs_storage(task.kind) && task.storage_fingerprint is None {
        Err(CalibrationError::InvalidPlan("storage measurement lacks storage dependency"))
    } else if needs_model(task.kind) && task.model_fingerprint is None {
        Err(CalibrationError::InvalidPlan("model measurement lacks model dependency"))
    } else {
        Ok(())
    }
}

impl CalibrationTask {
    pub fn validate(&self) -> (result: Result<(), CalibrationError>)
        ensures
            result == task_check(self@),
    {
        let stable = self.kind.stable_identifier();
        if !text::str_equal(self.identifier.as_str(), stable.as_str()) {
            return Err(CalibrationError::InvalidPlan("unstable task identifier"));
        }
        if self.expected_resources.cpu_threads != 1 || self.expected_resources.memory_bytes == 0
            || self.work.iterations_per_sample == 0 || self.work.sample_count == 0
            || self.work.max_duration_ns == 0 || (self.work.elements_per_iteration == 0
            && self.work.bytes_per_iteration == 0) || self.work.warmup_iterations
            > MAX_ABSOLUTE_ITERATIONS || self.work.sample_count > MAX_ABSOLUTE_SAMPLES
            || self.work.iterations_per_sample > MAX_ABSOLUTE_ITERATIONS
            || self.expected_resources.memory_bytes > MAX_ABSOLUTE_MEMORY_BYTES
            || self.expected_resources.storage_read_bytes > MAX_ABSOLUTE_STORAGE_READ_BYTES
            || self.work.max_duration_ns > MAX_ABSOLUTE_TASK_DURATION_NS
            || !work_volume_is_bounded(self.work) {
            return Err(CalibrationError::InvalidPlan("unbounded task resources"));
        }
        match self.kind {
            CalibrationTestKind::SequentialStorageRead
            | CalibrationTestKind::StorageReadLatency => {
                if self.storage_fingerprint.is_none() {
                    return Err(
                        CalibrationError::InvalidPlan(
                            "storage measurement lacks storage dependency",
                        ),
                    );
                }
            },
            CalibrationTestKind::QuantizedRowDecode(_)
            | CalibrationTestKind::StrategyLatency(_) => {
                if self.model_fingerprint.is_none() {
                    return Err(
                        CalibrationError::InvalidPlan("model measurement lacks model dependency"),
                    );
                }
            },
            _ => {},
        }
        Ok(())
    }
}

#[derive(Debug, Clone, Copy, PartialEq, Eq, Structural)]
pub struct CalibrationLimits {
    pub max_memory_bytes: u64,
    pub max_storage_read_bytes: u64,
    pub max_total_duration_ns: u64,
    pub max_task_duration_ns: u64,
    pub max_samples: u32,
    pub max_iterations_per_sample: u32,
}

/// The limits are positive and within the absolute ones and the user's budget.
pub open spec fn limits_valid(limits: CalibrationLimits, user: UserProfile) -> bool {
    &&& 0 < limits.max_memory_bytes <= user.ram_budget_bytes
    &&& limits.max_memory_bytes <= MAX_ABSOLUTE_MEMORY_BYTES
    &&& 0 < limits.max_storage_read_bytes <= MAX_ABSOLUTE_STORAGE_READ_BYTES
    &&& 0 < limits.max_total_duration_ns <= MAX_ABSOLUTE_TOTAL_DURATION_NS
    &&& 0 < limits.max_task_duration_ns <= limits.max_total_duration_ns
    &&& limits.max_task_duration_ns <= MAX_ABSOLUTE_TASK_DURATION_NS
    &&& 0 < limits.max_samples <= MAX_ABSOLUTE_SAMPLES
    &&& 0 < limits.max_iterations_per_sample <= MAX_ABSOLUTE_ITERATIONS
}

pub open spec fn limits_check(limits: CalibrationLimits, user: UserProfile) -> Result<
    (),
    CalibrationError,
> {
    if limits_valid(limits, user) {
        Ok(())
    } else {
        Err(CalibrationError::InvalidPlan("invalid calibration limits"))
    }
}

pub open spec fn smaller(left: int, right: int) -> int {
    if left <= right {
        left
    } else {
        right
    }
}

/// A thirty-second of the budget, at least 64 KiB and at most 8 MiB, and never
/// more than the budget itself.
pub open spec fn conservative_memory(ram_budget_bytes: u64) -> int {
    let share = ram_budget_bytes as int / 32;
    smaller(
        smaller(
            if share < 65536 {
                65536
            } else {
                share
            },
            8388608,
        ),
        ram_budget_bytes as int,
    )
}

impl CalibrationLimits {
    pub fn conservative(user: &UserProfile) -> (limits: Self)
        ensures
            limits == (CalibrationLimits {
                max_memory_bytes: conservative_memory(user.ram_budget_bytes) as u64,
                max_storage_read_bytes: 1048576,
                max_total_duration_ns: 15_000_000_000,
                max_task_duration_ns: 3_000_000_000,
                max_samples: 7,
                max_iterations_per_sample: 64,
            }),
            limits.max_memory_bytes == conservative_memory(user.ram_budget_bytes),
    {
        let mut memory: u64 = user.ram_budget_bytes / 32;
        if memory < 65536 {
            memory = 65536;
        }
        if memory > 8388608 {
            memory = 8388608;
        }
        if memory > user.ram_budget_bytes {
            memory = user.ram_budget_bytes;
        }
        CalibrationLimits {
            max_memory_bytes: memory,
            max_storage_read_bytes: 1048576,
            max_total_duration_ns: 15_000_000_000,
            max_task_duration_ns: 3_000_000_000,
            max_samples: 7,
            max_iterations_per_sample: 64,
        }
    }

    pub fn validate(&self, user: &UserProfile) -> (result: Result<(), CalibrationError>)
        ensures
            result == limits_check(*self, *user),
    {
        if self.max_memory_bytes == 0 || self.max_memory_bytes > user.ram_budget_bytes
            || self.max_memory_bytes > MAX_ABSOLUTE_MEMORY_BYTES || self.max_storage_read_bytes == 0
            || self.max_storage_read_bytes > MAX_ABSOLUTE_STORAGE_READ_BYTES
            || self.max_total_duration_ns == 0 || self.max_total_duration_ns
            > MAX_ABSOLUTE_TOTAL_DURATION_NS || self.max_task_duration_ns == 0
            || self.max_task_duration_ns > self.max_total_duration_ns || self.max_task_duration_ns
            > MAX_ABSOLUTE_TASK_DURATION_NS || self.max_samples == 0 || self.max_samples
            > MAX_ABSOLUTE_SAMPLES || self.max_iterations_per_sample == 0
            || self.max_iterations_per_sample > MAX_ABSOLUTE_ITERATIONS {
            return Err(CalibrationError::InvalidPlan("invalid calibration limits"));
        }
        Ok(())
    }
}

// ---------------------------------------------------------------------------
// Tasks
// ---------------------------------------------------------------------------
/// Samples and iterations per sample of a level.
pub open spec fn work_of_level(level: CalibrationLevel) -> (u32, u32) {
    match level {
        CalibrationLevel::NotRequested => (0, 0),
        CalibrationLevel::Quick => (3, 16),
        CalibrationLevel::Standard => (5, 32),
        CalibrationLevel::Thorough => (7, 64),
    }
}

fn level_work(level: CalibrationLevel) -> (work: (u32, u32))
    ensures
        work == work_of_level(level),
{
    match level {
        CalibrationLevel::NotRequested => (0, 0),
        CalibrationLevel::Quick => (3, 16),
        CalibrationLevel::Standard => (5, 32),
        CalibrationLevel::Thorough => (7, 64),
    }
}

pub open spec fn cpu_facts(level: CalibrationLevel, limits: CalibrationLimits) -> TaskFacts {
    TaskFacts {
        identifier: CalibrationTestKind::CpuFloatDot.spec_identifier(),
        kind: CalibrationTestKind::CpuFloatDot,
        purpose: CalibrationPurpose::CpuRuntimeBaseline,
        requirements: seq![RequirementFacts::CpuBackend],
        expected_resources: ExpectedResourceUsage {
            memory_bytes: 36864,
            storage_read_bytes: 0,
            cpu_threads: 1,
        },
        model_fingerprint: None,
        storage_fingerprint: None,
        work: CalibrationWorkBudget {
            warmup_iterations: 4,
            iterations_per_sample: work_of_level(level).1,
            sample_count: work_of_level(level).0,
            elements_per_iteration: 4096,
            bytes_per_iteration: 0,
            max_duration_ns: limits.max_task_duration_ns,
        },
    }
}

/// A dot product over two rows of 4096 elements.
pub fn cpu_task(level: CalibrationLevel, limits: CalibrationLimits) -> (task: CalibrationTask)
    ensures
        task@ == cpu_facts(level, limits),
{
    let (samples, iterations) = level_work(level);
    let mut requirements: Vec<CalibrationRequirement> = Vec::new();
    requirements.push(CalibrationRequirement::CpuBackend);
    let task = CalibrationTask {
        identifier: CalibrationTestKind::CpuFloatDot.stable_identifier(),
        kind: CalibrationTestKind::CpuFloatDot,
        purpose: CalibrationPurpose::CpuRuntimeBaseline,
        requirements,
        expected_resources: ExpectedResourceUsage {
            memory_bytes: 2 * 4096 * 4 + CALIBRATION_METADATA_BYTES,
            storage_read_bytes: 0,
            cpu_threads: 1,
        },
        model_fingerprint: None,
        storage_fingerprint: None,
        work: CalibrationWorkBudget {
            warmup_iterations: 4,
            iterations_per_sample: iterations,
            sample_count: samples,
            elements_per_iteration: 4096,
            bytes_per_iteration: 0,
            max_duration_ns: limits.max_task_duration_ns,
        },
    };
    assert(task@ =~= cpu_facts(level, limits));
    task
}

/// What the limits leave of the memory behind the metadata.
pub open spec fn working_memory(limits: CalibrationLimits) -> int {
    if limits.max_memory_bytes >= CALIBRATION_METADATA_BYTES {
        limits.max_memory_bytes - CALIBRATION_METADATA_BYTES
    } else {
        0
    }
}

/// Bytes copied per iteration: half of the working memory, at most 1 MiB. Where a
/// half is below 4 KiB the task asks for 1 MiB and the limits will refuse it.
pub open spec fn copied_bytes(limits: CalibrationLimits) -> int {
    let half = working_memory(limits) / 2;
    if half >= 4096 {
        smaller(half, 1048576)
    } else {
        1048576
    }
}

pub open spec fn memory_facts(level: CalibrationLevel, limits: CalibrationLimits) -> TaskFacts {
    TaskFacts {
        identifier: CalibrationTestKind::MemoryCopyBandwidth.spec_identifier(),
        kind: CalibrationTestKind::MemoryCopyBandwidth,
        purpose: CalibrationPurpose::MemoryBandwidth,
        requirements: seq![RequirementFacts::CpuBackend],
        expected_resources: ExpectedResourceUsage {
            memory_bytes: (2 * copied_bytes(limits) + CALIBRATION_METADATA_BYTES) as u64,
            storage_read_bytes: 0,
            cpu_threads: 1,
        },
        model_fingerprint: None,
        storage_fingerprint: None,
        work: CalibrationWorkBudget {
            warmup_iterations: 2,
            iterations_per_sample: work_of_level(level).1,
            sample_count: work_of_level(level).0,
            elements_per_iteration: 0,
            bytes_per_iteration: copied_bytes(limits) as u64,
            max_duration_ns: limits.max_task_duration_ns,
        },
    }
}

pub fn memory_task(level: CalibrationLevel, limits: CalibrationLimits) -> (task: CalibrationTask)
    ensures
        task@ == memory_facts(level, limits),
{
    let (samples, iterations) = level_work(level);
    let half: u64 = limits.max_memory_bytes.saturating_sub(CALIBRATION_METADATA_BYTES) / 2;
    let bytes: u64 = if half >= 4096 && half < 1048576 {
        half
    } else {
        1048576
    };
    let mut requirements: Vec<CalibrationRequirement> = Vec::new();
    requirements.push(CalibrationRequirement::CpuBackend);
    let task = CalibrationTask {
        identifier: CalibrationTestKind::MemoryCopyBandwidth.stable_identifier(),
        kind: CalibrationTestKind::MemoryCopyBandwidth,
        purpose: CalibrationPurpose::MemoryBandwidth,
        requirements,
        expected_resources: ExpectedResourceUsage {
            memory_bytes: 2 * bytes + CALIBRATION_METADATA_BYTES,
            storage_read_bytes: 0,
            cpu_threads: 1,
        },
        model_fingerprint: None,
        storage_fingerprint: None,
        work: CalibrationWorkBudget {
            warmup_iterations: 2,
            iterations_per_sample: iterations,
            sample_count: samples,
            elements_per_iteration: 0,
            bytes_per_iteration: bytes,
            max_duration_ns: limits.max_task_duration_ns,
        },
    };
    assert(task@ =~= memory_facts(level, limits));
    task
}

/// Bytes read per iteration: at most 1 MiB and what the limits allow to read, and
/// no more than the working memory unless that is below 4 KiB.
pub open spec fn read_bytes(limits: CalibrationLimits) -> int {
    let allowed = smaller(limits.max_storage_read_bytes as int, 1048576);
    if working_memory(limits) >= 4096 {
        smaller(allowed, working_memory(limits))
    } else {
        allowed
    }
}

pub open spec fn storage_facts(
    level: CalibrationLevel,
    storage_fingerprint: u64,
    limits: CalibrationLimits,
) -> TaskFacts {
    TaskFacts {
        identifier: CalibrationTestKind::SequentialStorageRead.spec_identifier(),
        kind: CalibrationTestKind::SequentialStorageRead,
        purpose: CalibrationPurpose::StorageThroughput,
        requirements: seq![RequirementFacts::SeekableStorage],
        expected_resources: ExpectedResourceUsage {
            memory_bytes: (read_bytes(limits) + CALIBRATION_METADATA_BYTES) as u64,
            storage_read_bytes: read_bytes(limits) as u64,
            cpu_threads: 1,
        },
        model_fingerprint: None,
        storage_fingerprint: Some(storage_fingerprint),
        work: CalibrationWorkBudget {
            warmup_iterations: 1,
            iterations_per_sample: 1,
            sample_count: work_of_level(level).0,
            elements_per_iteration: 0,
            bytes_per_iteration: read_bytes(limits) as u64,
            max_duration_ns: limits.max_task_duration_ns,
        },
    }
}

pub fn storage_task(level: CalibrationLevel, storage_fingerprint: u64, limits: CalibrationLimits)
    -> (task: CalibrationTask)
    ensures
        task@ == storage_facts(level, storage_fingerprint, limits),
{
    let (samples, _) = level_work(level);
    let working: u64 = limits.max_memory_bytes.saturating_sub(CALIBRATION_METADATA_BYTES);
    let mut bytes: u64 = if limits.max_storage_read_bytes <= 1048576 {
        limits.max_storage_read_bytes
    } else {
        1048576
    };
    if working >= 4096 && bytes > working {
        bytes = working;
    }
    let mut requirements: Vec<CalibrationRequirement> = Vec::new();
    requirements.push(CalibrationRequirement::SeekableStorage);
    let task = CalibrationTask {
        identifier: CalibrationTestKind::SequentialStorageRead.stable_identifier(),
        kind: CalibrationTestKind::SequentialStorageRead,
        purpose: CalibrationPurpose::StorageThroughput,
        requirements,
        expected_resources: ExpectedResourceUsage {
            memory_bytes: bytes + CALIBRATION_METADATA_BYTES,
            storage_read_bytes: bytes,
            cpu_threads: 1,
        },
        model_fingerprint: None,
        storage_fingerprint: Some(storage_fingerprint),
        work: CalibrationWorkBudget {
            warmup_iterations: 1,
            iterations_per_sample: 1,
            sample_count: samples,
            elements_per_iteration: 0,
            bytes_per_iteration: bytes,
            max_duration_ns: limits.max_task_duration_ns,
        },
    };
    assert(task@ =~= storage_facts(level, storage_fingerprint, limits));
    task
}

pub open spec fn quantized_facts(
    level: CalibrationLevel,
    format: CalibrationQuantization,
    model_fingerprint: u64,
    limits: CalibrationLimits,
) -> TaskFacts {
    TaskFacts {
        identifier: CalibrationTestKind::QuantizedRowDecode(format).spec_identifier(),
        kind: CalibrationTestKind::QuantizedRowDecode(format),
        purpose: CalibrationPurpose::QuantizedDecodeThroughput,
        requirements: seq![
            RequirementFacts::CpuBackend,
            RequirementFacts::QuantizationFormat(format.spec_format_name()),
        ],
        expected_resources: ExpectedResourceUsage {
            memory_bytes: (format.spec_row_bytes() + DECODE_ELEMENTS * 4
                + CALIBRATION_METADATA_BYTES) as u64,
            storage_read_bytes: 0,
            cpu_threads: 1,
        },
        model_fingerprint: Some(model_fingerprint),
        storage_fingerprint: None,
        work: CalibrationWorkBudget {
            warmup_iterations: 2,
            iterations_per_sample: work_of_level(level).1,
            sample_count: work_of_level(level).0,
            elements_per_iteration: DECODE_ELEMENTS,
            bytes_per_iteration: format.spec_row_bytes() as u64,
            max_duration_ns: limits.max_task_duration_ns,
        },
    }
}

pub fn quantized_task(
    level: CalibrationLevel,
    format: CalibrationQuantization,
    model_fingerprint: u64,
    limits: CalibrationLimits,
) -> (task: CalibrationTask)
    ensures
        task@ == quantized_facts(level, format, model_fingerprint, limits),
{
    let (samples, iterations) = level_work(level);
    let encoded_bytes: u64 = format.row_bytes();
    let mut requirements: Vec<CalibrationRequirement> = Vec::new();
    requirements.push(CalibrationRequirement::CpuBackend);
    requirements.push(CalibrationRequirement::QuantizationFormat(format.format_name().to_owned()));
    let task = CalibrationTask {
        identifier: CalibrationTestKind::QuantizedRowDecode(format).stable_identifier(),
        kind: CalibrationTestKind::QuantizedRowDecode(format),
        purpose: CalibrationPurpose::QuantizedDecodeThroughput,
        requirements,
        expected_resources: ExpectedResourceUsage {
            memory_bytes: encoded_bytes + DECODE_ELEMENTS * 4 + CALIBRATION_METADATA_BYTES,
            storage_read_bytes: 0,
            cpu_threads: 1,
        },
        model_fingerprint: Some(model_fingerprint),
        storage_fingerprint: None,
        work: CalibrationWorkBudget {
            warmup_iterations: 2,
            iterations_per_sample: iterations,
            sample_count: samples,
            elements_per_iteration: DECODE_ELEMENTS,
            bytes_per_iteration: encoded_bytes,
            max_duration_ns: limits.max_task_duration_ns,
        },
    };
    assert(task@.requirements =~= quantized_facts(
        level,
        format,
        model_fingerprint,
        limits,
    ).requirements);
    task
}

pub open spec fn strategy_facts(
    strategy: StrategyId,
    model_fingerprint: u64,
    limits: CalibrationLimits,
) -> TaskFacts {
    let shared = seq![RequirementFacts::ModelExecution, RequirementFacts::Strategy(strategy)];
    TaskFacts {
        identifier: CalibrationTestKind::StrategyLatency(strategy).spec_identifier(),
        kind: CalibrationTestKind::StrategyLatency(strategy),
        purpose: CalibrationPurpose::StrategyComparison,
        requirements: if strategy == StrategyId::CpuLayerStreaming {
            shared.push(RequirementFacts::CpuBackend)
        } else {
            shared
        },
        expected_resources: ExpectedResourceUsage {
            memory_bytes: CALIBRATION_METADATA_BYTES,
            storage_read_bytes: 0,
            cpu_threads: 1,
        },
        model_fingerprint: Some(model_fingerprint),
        storage_fingerprint: None,
        work: CalibrationWorkBudget {
            warmup_iterations: 0,
            iterations_per_sample: 1,
            sample_count: 1,
            elements_per_iteration: 1,
            bytes_per_iteration: 0,
            max_duration_ns: limits.max_task_duration_ns,
        },
    }
}

pub fn strategy_task(strategy: StrategyId, model_fingerprint: u64, limits: CalibrationLimits)
    -> (task: CalibrationTask)
    ensures
        task@ == strategy_facts(strategy, model_fingerprint, limits),
{
    let kind = CalibrationTestKind::StrategyLatency(strategy);
    let mut requirements: Vec<CalibrationRequirement> = Vec::new();
    requirements.push(CalibrationRequirement::ModelExecution);
    requirements.push(CalibrationRequirement::Strategy(strategy));
    if strategy == StrategyId::CpuLayerStreaming {
        requirements.push(CalibrationRequirement::CpuBackend);
    }
    let task = CalibrationTask {
        identifier: kind.stable_identifier(),
        kind,
        purpose: CalibrationPurpose::StrategyComparison,
        requirements,
        expected_resources: ExpectedResourceUsage {
            memory_bytes: CALIBRATION_METADATA_BYTES,
            storage_read_bytes: 0,
            cpu_threads: 1,
        },
        model_fingerprint: Some(model_fingerprint),
        storage_fingerprint: None,
        work: CalibrationWorkBudget {
            warmup_iterations: 0,
            iterations_per_sample: 1,
            sample_count: 1,
            elements_per_iteration: 1,
            bytes_per_iteration: 0,
            max_duration_ns: limits.max_task_duration_ns,
        },
    };
    assert(task@.requirements =~= strategy_facts(strategy, model_fingerprint, limits).requirements);
    task
}

/// The model has tensors in that format.
pub open spec fn has_format(formats: Seq<TensorFormatProfile>, name: Seq<char>) -> bool {
    exists|k: int| 0 <= k < formats.len() && (#[trigger] formats[k]).format@ == name
}

pub open spec fn only_if(
    formats: Seq<TensorFormatProfile>,
    format: CalibrationQuantization,
) -> Seq<CalibrationQuantization> {
    if has_format(formats, format.spec_format_name()) {
        seq![format]
    } else {
        Seq::empty()
    }
}

/// The formats of the model that can be measured, in order of preference.
pub open spec fn measurable(formats: Seq<TensorFormatProfile>) -> Seq<CalibrationQuantization> {
    only_if(formats, CalibrationQuantization::Q4K) + only_if(
        formats,
        CalibrationQuantization::Q8_0,
    ) + only_if(formats, CalibrationQuantization::Q4_0)
}

fn find_format(formats: &Vec<TensorFormatProfile>, format: CalibrationQuantization) -> (found: bool)
    ensures
        found == has_format(formats@, format.spec_format_name()),
{
    let name = format.format_name();
    for k in 0..formats.len()
        invariant
            name@ == format.spec_format_name(),
            forall|j: int|
                0 <= j < k ==> (#[trigger] formats@[j]).format@ != format.spec_format_name(),
    {
        if text::str_equal(formats[k].format.as_str(), name) {
            return true;
        }
    }
    false
}

fn relevant_quantizations(model: &ModelProfile) -> (relevant: Vec<CalibrationQuantization>)
    ensures
        relevant@ == measurable(model.tensor_formats@),
{
    let mut relevant: Vec<CalibrationQuantization> = Vec::new();
    if find_format(&model.tensor_formats, CalibrationQuantization::Q4K) {
        relevant.push(CalibrationQuantization::Q4K);
    }
    if find_format(&model.tensor_formats, CalibrationQuantization::Q8_0) {
        relevant.push(CalibrationQuantization::Q8_0);
    }
    if find_format(&model.tensor_formats, CalibrationQuantization::Q4_0) {
        relevant.push(CalibrationQuantization::Q4_0);
    }
    assert(relevant@ =~= measurable(model.tensor_formats@));
    relevant
}

/// The tasks of a level: none; processor and storage; also memory and the
/// preferred format; also every other format of the model.
pub open spec fn planned_tasks(
    level: CalibrationLevel,
    formats: Seq<TensorFormatProfile>,
    model_fingerprint: u64,
    storage_fingerprint: u64,
    limits: CalibrationLimits,
) -> Seq<TaskFacts> {
    let quick = seq![
        cpu_facts(level, limits),
        storage_facts(level, storage_fingerprint, limits),
    ];
    let decodes = Seq::new(
        measurable(formats).len(),
        |i: int| quantized_facts(level, measurable(formats)[i], model_fingerprint, limits),
    );
    match level {
        CalibrationLevel::NotRequested => Seq::empty(),
        CalibrationLevel::Quick => quick,
        CalibrationLevel::Standard => quick.push(memory_facts(level, limits)) + decodes.take(
            if decodes.len() > 0 {
                1
            } else {
                0
            },
        ),
        CalibrationLevel::Thorough => quick.push(memory_facts(level, limits)) + decodes,
    }
}

// ---------------------------------------------------------------------------
// Plans
// ---------------------------------------------------------------------------
#[derive(Debug, Clone, PartialEq, Eq)]
pub struct CalibrationPlan {
    pub schema_version: u32,
    pub plan_version: u32,
    pub ruleset_version: u32,
    pub identifier: String,
    pub level: CalibrationLevel,
    pub machine_fingerprint: u64,
    pub model_fingerprint: u64,
    pub storage_fingerprint: u64,
    pub limits: CalibrationLimits,
    pub tasks: Vec<CalibrationTask>,
}

/// The content of a calibration plan.
#[verifier::ext_equal]
pub struct CalibrationPlanFacts {
    pub schema_version: u32,
    pub plan_version: u32,
    pub ruleset_version: u32,
    pub identifier: Seq<char>,
    pub level: CalibrationLevel,
    pub machine_fingerprint: u64,
    pub model_fingerprint: u64,
    pub storage_fingerprint: u64,
    pub limits: CalibrationLimits,
    pub tasks: Seq<TaskFacts>,
}

impl View for CalibrationPlan {
    type V = CalibrationPlanFacts;

    open spec fn view(&self) -> CalibrationPlanFacts {
        CalibrationPlanFacts {
            schema_version: self.schema_version,
            plan_version: self.plan_version,
            ruleset_version: self.ruleset_version,
            identifier: self.identifier@,
            level: self.level,
            machine_fingerprint: self.machine_fingerprint,
            model_fingerprint: self.model_fingerprint,
            storage_fingerprint: self.storage_fingerprint,
            limits: self.limits,
            tasks: task_facts(self.tasks@),
        }
    }
}

pub open spec fn strategy_number(strategy: StrategyId) -> u64 {
    match strategy {
        StrategyId::CpuLayerStreaming => 0,
        StrategyId::GpuLayerOffload => 1,
    }
}

pub open spec fn requirement_bytes(requirement: RequirementFacts) -> Seq<u8> {
    match requirement {
        RequirementFacts::CpuBackend => fingerprint::integer_bytes(1),
        RequirementFacts::SeekableStorage => fingerprint::integer_bytes(2),
        RequirementFacts::ModelExecution => fingerprint::integer_bytes(3),
        RequirementFacts::QuantizationFormat(format) => fingerprint::integer_bytes(4)
            + vstd::utf8::encode_utf8(format),
        RequirementFacts::Strategy(strategy) => fingerprint::integer_bytes(5)
            + fingerprint::integer_bytes(strategy_number(strategy)),
    }
}

pub open spec fn requirement_list_bytes(requirements: Seq<RequirementFacts>) -> Seq<u8>
    decreases requirements.len(),
{
    if requirements.len() == 0 {
        Seq::empty()
    } else {
        requirement_list_bytes(requirements.drop_last()) + requirement_bytes(requirements.last())
    }
}

pub open spec fn or_zero(value: Option<u64>) -> u64 {
    match value {
        Some(number) => number,
        None => 0,
    }
}

pub open spec fn task_numbers(task: TaskFacts) -> Seq<u64> {
    seq![
        task.purpose.spec_number(),
        task.expected_resources.memory_bytes,
        task.expected_resources.storage_read_bytes,
        task.expected_resources.cpu_threads as u64,
        or_zero(task.model_fingerprint),
        or_zero(task.storage_fingerprint),
        task.work.warmup_iterations as u64,
        task.work.iterations_per_sample as u64,
        task.work.sample_count as u64,
        task.work.elements_per_iteration,
        task.work.bytes_per_iteration,
        task.work.max_duration_ns,
    ]
}

pub open spec fn task_bytes(task: TaskFacts) -> Seq<u8> {
    vstd::utf8::encode_utf8(task.identifier) + fingerprint::integer_list_bytes(task_numbers(task))
        + requirement_list_bytes(task.requirements)
}

pub open spec fn task_list_bytes(tasks: Seq<TaskFacts>) -> Seq<u8>
    decreases tasks.len(),
{
    if tasks.len() == 0 {
        Seq::empty()
    } else {
        task_list_bytes(tasks.drop_last()) + task_bytes(tasks.last())
    }
}

pub open spec fn plan_numbers(plan: CalibrationPlanFacts) -> Seq<u64> {
    seq![
        plan.plan_version as u64,
        plan.ruleset_version as u64,
        plan.level.spec_rank() as u64,
        plan.machine_fingerprint,
        plan.model_fingerprint,
        plan.storage_fingerprint,
        plan.limits.max_memory_bytes,
        plan.limits.max_storage_read_bytes,
        plan.limits.max_total_duration_ns,
        plan.limits.max_task_duration_ns,
        plan.limits.max_samples as u64,
        plan.limits.max_iterations_per_sample as u64,
    ]
}

/// What a plan's identity is taken of: everything in it but the identifier.
pub open spec fn identity_bytes(plan: CalibrationPlanFacts) -> Seq<u8> {
    fingerprint::integer_list_bytes(plan_numbers(plan)) + task_list_bytes(plan.tasks)
}

/// The identifier that a plan must carry.
pub open spec fn plan_identifier(plan: CalibrationPlanFacts) -> Seq<char> {
    "calibration-plan-v"@ + text::decimal(plan.plan_version as nat) + "-"@ + text::hex(
        fingerprint::fingerprint_of(identity_bytes(plan)) as nat,
        16,
    )
}

fn add_requirement(hash: &mut Fingerprint, requirement: &CalibrationRequirement)
    requires
        old(hash).wf(),
    ensures
        final(hash).wf(),
        final(hash)@ == old(hash)@ + requirement_bytes(requirement@),
{
    match requirement {
        CalibrationRequirement::CpuBackend => hash.add_u64(1),
        CalibrationRequirement::SeekableStorage => hash.add_u64(2),
        CalibrationRequirement::ModelExecution => hash.add_u64(3),
        CalibrationRequirement::QuantizationFormat(format) => {
            hash.add_u64(4);
            hash.add_text(format.as_str());
        },
        CalibrationRequirement::Strategy(strategy) => {
            hash.add_u64(5);
            match strategy {
                StrategyId::CpuLayerStreaming => hash.add_u64(0),
                StrategyId::GpuLayerOffload => hash.add_u64(1),
            }
        },
    }
    assert(hash@ =~= old(hash)@ + requirement_bytes(requirement@));
}

fn add_requirements(hash: &mut Fingerprint, requirements: &Vec<CalibrationRequirement>)
    requires
        old(hash).wf(),
    ensures
        final(hash).wf(),
        final(hash)@ == old(hash)@ + requirement_list_bytes(requirement_facts(requirements@)),
{
    let ghost head = hash@;
    let ghost all = requirement_facts(requirements@);
    assert(head =~= head + requirement_list_bytes(all.take(0)));
    for i in 0..requirements.len()
        invariant
            hash.wf(),
            all == requirement_facts(requirements@),
            hash@ == head + requirement_list_bytes(all.take(i as int)),
    {
        assert(all.take(i as int + 1).drop_last() =~= all.take(i as int));
        add_requirement(hash, &requirements[i]);
        assert(hash@ =~= head + requirement_list_bytes(all.take(i as int + 1)));
    }
    assert(all.take(all.len() as int) =~= all);
}

fn number_or_zero(value: Option<u64>) -> (number: u64)
    ensures
        number == or_zero(value),
{
    match value {
        Some(number) => number,
        None => 0,
    }
}

fn add_task(hash: &mut Fingerprint, task: &CalibrationTask)
    requires
        old(hash).wf(),
    ensures
        final(hash).wf(),
        final(hash)@ == old(hash)@ + task_bytes(task@),
{
    hash.add_text(task.identifier.as_str());
    let numbers: Vec<u64> = vec![
        task.purpose.number(),
        task.expected_resources.memory_bytes,
        task.expected_resources.storage_read_bytes,
        task.expected_resources.cpu_threads as u64,
        number_or_zero(task.model_fingerprint),
        number_or_zero(task.storage_fingerprint),
        task.work.warmup_iterations as u64,
        task.work.iterations_per_sample as u64,
        task.work.sample_count as u64,
        task.work.elements_per_iteration,
        task.work.bytes_per_iteration,
        task.work.max_duration_ns,
    ];
    assert(numbers@ =~= task_numbers(task@));
    hash.add_integers(&numbers);
    add_requirements(hash, &task.requirements);
    assert(hash@ =~= old(hash)@ + task_bytes(task@));
}

fn add_tasks(hash: &mut Fingerprint, tasks: &Vec<CalibrationTask>)
    requires
        old(hash).wf(),
    ensures
        final(hash).wf(),
        final(hash)@ == old(hash)@ + task_list_bytes(task_facts(tasks@)),
{
    let ghost head = hash@;
    let ghost all = task_facts(tasks@);
    assert(head =~= head + task_list_bytes(all.take(0)));
    for i in 0..tasks.len()
        invariant
            hash.wf(),
            all == task_facts(tasks@),
            hash@ == head + task_list_bytes(all.take(i as int)),
    {
        assert(all.take(i as int + 1).drop_last() =~= all.take(i as int));
        add_task(hash, &tasks[i]);
        assert(hash@ =~= head + task_list_bytes(all.take(i as int + 1)));
    }
    assert(all.take(all.len() as int) =~= all);
}

pub fn calibration_plan_identifier(plan: &CalibrationPlan) -> (identifier: String)
    ensures
        identifier@ == plan_identifier(plan@),
{
    let mut hash = Fingerprint::start();
    let numbers: Vec<u64> = vec![
        plan.plan_version as u64,
        plan.ruleset_version as u64,
        plan.level.rank() as u64,
        plan.machine_fingerprint,
        plan.model_fingerprint,
        plan.storage_fingerprint,
        plan.limits.max_memory_bytes,
        plan.limits.max_storage_read_bytes,
        plan.limits.max_total_duration_ns,
        plan.limits.max_task_duration_ns,
        plan.limits.max_samples as u64,
        plan.limits.max_iterations_per_sample as u64,
    ];
    assert(numbers@ =~= plan_numbers(plan@));
    hash.add_integers(&numbers);
    add_tasks(&mut hash, &plan.tasks);
    assert(hash@ =~= identity_bytes(plan@));
    let mut identifier = "calibration-plan-v".to_owned();
    text::push_decimal(&mut identifier, plan.plan_version as u64);
    identifier.append("-");
    text::push_hex(&mut identifier, hash.finish(), 16);
    identifier
}

pub open spec fn task_identifiers(tasks: Seq<TaskFacts>) -> Seq<Seq<char>> {
    Seq::new(tasks.len(), |i: int| tasks[i].identifier)
}

/// Tasks are checked in order: each on its own, then that no earlier one has its
/// identifier.
pub open spec fn tasks_check(tasks: Seq<TaskFacts>) -> Result<(), CalibrationError>
    decreases tasks.len(),
{
    if tasks.len() == 0 {
        Ok(())
    } else {
        let earlier = tasks.drop_last();
        if tasks_check(earlier) is Err {
            tasks_check(earlier)
        } else if task_check(tasks.last()) is Err {
            task_check(tasks.last())
        } else if task_identifiers(earlier).contains(tasks.last().identifier) {
            Err(CalibrationError::InvalidPlan("duplicate calibration task"))
        } else {
            Ok(())
        }
    }
}

/// What `CalibrationPlan::validate` finds, first problem first.
pub open spec fn plan_check(plan: CalibrationPlanFacts) -> Result<(), CalibrationError> {
    if plan.schema_version != PROFILE_SCHEMA_VERSION || plan.plan_version
        != CALIBRATION_PLAN_VERSION || plan.ruleset_version != CALIBRATION_RULESET_VERSION
        || plan.identifier.len() == 0 || plan.machine_fingerprint == 0 || plan.model_fingerprint
        == 0 || plan.storage_fingerprint == 0 {
        Err(CalibrationError::InvalidPlan("invalid calibration identity"))
    } else if plan.level == CalibrationLevel::NotRequested && plan.tasks.len() > 0 {
        Err(CalibrationError::InvalidPlan("none-level plan contains tasks"))
    } else if tasks_check(plan.tasks) is Err {
        tasks_check(plan.tasks)
    } else if plan.identifier != plan_identifier(plan) {
        Err(CalibrationError::InvalidPlan("calibration plan identifier mismatch"))
    } else {
        Ok(())
    }
}

proof fn lemma_tasks_prefix(tasks: Seq<TaskFacts>, count: int)
    requires
        0 <= count <= tasks.len(),
        tasks_check(tasks.take(count)) is Err,
    ensures
        tasks_check(tasks) == tasks_check(tasks.take(count)),
    decreases tasks.len(),
{
    if count == tasks.len() {
        assert(tasks.take(count) =~= tasks);
    } else {
        assert(tasks.drop_last().take(count) =~= tasks.take(count));
        lemma_tasks_prefix(tasks.drop_last(), count);
    }
}

fn holds_task(tasks: &Vec<CalibrationTask>, count: usize, identifier: &str) -> (found: bool)
    requires
        count <= tasks@.len(),
    ensures
        found == task_identifiers(task_facts(tasks@).take(count as int)).contains(identifier@),
{
    let ghost names = task_identifiers(task_facts(tasks@).take(count as int));
    for i in 0..count
        invariant
            count <= tasks@.len(),
            names == task_identifiers(task_facts(tasks@).take(count as int)),
            forall|k: int| 0 <= k < i ==> #[trigger] names[k] != identifier@,
    {
        assert(names[i as int] == tasks@[i as int].identifier@);
        if text::str_equal(tasks[i].identifier.as_str(), identifier) {
            return true;
        }
    }
    false
}

fn validate_tasks(tasks: &Vec<CalibrationTask>) -> (result: Result<(), CalibrationError>)
    ensures
        result == tasks_check(task_facts(tasks@)),
{
    let ghost all = task_facts(tasks@);
    for i in 0..tasks.len()
        invariant
            all == task_facts(tasks@),
            tasks_check(all.take(i as int)) is Ok,
    {
        let ghost next = all.take(i as int + 1);
        assert(next.drop_last() =~= all.take(i as int));
        assert(next.last() == tasks@[i as int]@);
        match tasks[i].validate() {
            Ok(()) => {},
            Err(error) => {
                proof {
                    lemma_tasks_prefix(all, i as int + 1);
                }
                return Err(error);
            },
        }
        if holds_task(tasks, i, tasks[i].identifier.as_str()) {
            proof {
                lemma_tasks_prefix(all, i as int + 1);
            }
            return Err(CalibrationError::InvalidPlan("duplicate calibration task"));
        }
    }
    assert(all.take(all.len() as int) =~= all);
    Ok(())
}

/// The inputs of a plan, in order of checking.
pub open spec fn build_check(
    user: UserProfile,
    machine: MachineProfile,
    model: ModelProfile,
    storage: StorageProfile,
    capabilities: CapabilitySet,
    limits: CalibrationLimits,
) -> Result<(), CalibrationError> {
    if profiles::user_check(user) is Err {
        from_planner(profiles::user_check(user))
    } else if profiles::machine_check(machine) is Err {
        from_planner(profiles::machine_check(machine))
    } else if profiles::model_check(model) is Err {
        from_planner(profiles::model_check(model))
    } else if profiles::storage_check(storage) is Err {
        from_planner(profiles::storage_check(storage))
    } else if limits_check(limits, user) is Err {
        limits_check(limits, user)
    } else if storage.file_size_bytes is Some && storage.file_size_bytes->0
        != model.file_size_bytes {
        Err(CalibrationError::InvalidPlan("storage file size does not match model profile"))
    } else if machine.available_ram_bytes is None {
        Err(CalibrationError::InvalidPlan("available machine RAM is unknown"))
    } else if limits.max_memory_bytes > machine.available_ram_bytes->0 {
        Err(CalibrationError::InvalidPlan("calibration memory exceeds available machine RAM"))
    } else if capabilities.schema_version != PROFILE_SCHEMA_VERSION
        || capabilities.machine_fingerprint != profiles::machine_fingerprint(machine)
        || capabilities.model_fingerprint != model.identity.descriptor_fingerprint
        || capabilities.storage_fingerprint != profiles::storage_fingerprint(storage) {
        Err(CalibrationError::InvalidPlan("capabilities do not match profiles"))
    } else {
        Ok(())
    }
}

/// The plan for the profiles, before its identifier is set.
pub open spec fn unnamed_plan(
    user: UserProfile,
    machine: MachineProfile,
    model: ModelProfile,
    storage: StorageProfile,
    limits: CalibrationLimits,
) -> CalibrationPlanFacts {
    CalibrationPlanFacts {
        schema_version: PROFILE_SCHEMA_VERSION,
        plan_version: CALIBRATION_PLAN_VERSION,
        ruleset_version: CALIBRATION_RULESET_VERSION,
        identifier: Seq::empty(),
        level: user.calibration_level,
        machine_fingerprint: profiles::machine_fingerprint(machine),
        model_fingerprint: model.identity.descriptor_fingerprint,
        storage_fingerprint: profiles::storage_fingerprint(storage),
        limits,
        tasks: planned_tasks(
            user.calibration_level,
            model.tensor_formats@,
            model.identity.descriptor_fingerprint,
            profiles::storage_fingerprint(storage),
            limits,
        ),
    }
}

/// A plan under the identifier that its content demands.
pub open spec fn named(plan: CalibrationPlanFacts) -> CalibrationPlanFacts {
    CalibrationPlanFacts { identifier: plan_identifier(plan), ..plan }
}

pub open spec fn built_plan(
    user: UserProfile,
    machine: MachineProfile,
    model: ModelProfile,
    storage: StorageProfile,
    capabilities: CapabilitySet,
    limits: CalibrationLimits,
) -> Result<CalibrationPlanFacts, CalibrationError> {
    let plan = named(unnamed_plan(user, machine, model, storage, limits));
    match build_check(user, machine, model, storage, capabilities, limits) {
        Err(error) => Err(error),
        Ok(_) => match plan_check(plan) {
            Err(error) => Err(error),
            Ok(_) => Ok(plan),
        },
    }
}

/// The outcome with the plan by its content.
pub open spec fn plan_result(result: Result<CalibrationPlan, CalibrationError>) -> Result<
    CalibrationPlanFacts,
    CalibrationError,
> {
    match result {
        Ok(plan) => Ok(plan@),
        Err(error) => Err(error),
    }
}

/// A plan with a latency measurement of a strategy added.
pub open spec fn with_strategy(plan: CalibrationPlanFacts, strategy: StrategyId)
    -> CalibrationPlanFacts {
    named(
        CalibrationPlanFacts {
            tasks: plan.tasks.push(
                strategy_facts(strategy, plan.model_fingerprint, plan.limits),
            ),
            ..plan
        },
    )
}

fn validate_build(
    user: &UserProfile,
    machine: &MachineProfile,
    model: &ModelProfile,
    storage: &StorageProfile,
    capabilities: &CapabilitySet,
    limits: CalibrationLimits,
) -> (result: Result<(), CalibrationError>)
    ensures
        result == build_check(*user, *machine, *model, *storage, *capabilities, limits),
{
    report(user.validate())?;
    report(machine.validate())?;
    report(model.validate())?;
    report(storage.validate())?;
    limits.validate(user)?;
    if let Some(bytes) = storage.file_size_bytes {
        if bytes != model.file_size_bytes {
            return Err(
                CalibrationError::InvalidPlan("storage file size does not match model profile"),
            );
        }
    }
    match machine.available_ram_bytes {
        None => {
            return Err(CalibrationError::InvalidPlan("available machine RAM is unknown"));
        },
        Some(available) => {
            if limits.max_memory_bytes > available {
                return Err(
                    CalibrationError::InvalidPlan(
                        "calibration memory exceeds available machine RAM",
                    ),
                );
            }
        },
    }
    if capabilities.schema_version != PROFILE_SCHEMA_VERSION || capabilities.machine_fingerprint
        != machine.fingerprint() || capabilities.model_fingerprint
        != model.identity.descriptor_fingerprint || capabilities.storage_fingerprint
        != storage.fingerprint() {
        return Err(CalibrationError::InvalidPlan("capabilities do not match profiles"));
    }
    Ok(())
}

fn plan_tasks(
    level: CalibrationLevel,
    model: &ModelProfile,
    storage_fingerprint: u64,
    limits: CalibrationLimits,
) -> (tasks: Vec<CalibrationTask>)
    ensures
        task_facts(tasks@) == planned_tasks(
            level,
            model.tensor_formats@,
            model.identity.descriptor_fingerprint,
            storage_fingerprint,
            limits,
        ),
{
    let model_fingerprint: u64 = model.identity.descriptor_fingerprint;
    let ghost expected = planned_tasks(
        level,
        model.tensor_formats@,
        model_fingerprint,
        storage_fingerprint,
        limits,
    );
    let mut tasks: Vec<CalibrationTask> = Vec::new();
    if level != CalibrationLevel::NotRequested {
        tasks.push(cpu_task(level, limits));
        tasks.push(storage_task(level, storage_fingerprint, limits));
    }
    if level.rank() >= 2 {
        tasks.push(memory_task(level, limits));
        let relevant = relevant_quantizations(model);
        let count: usize = if level == CalibrationLevel::Thorough || relevant.len() == 0 {
            relevant.len()
        } else {
            1
        };
        let ghost head = task_facts(tasks@);
        for i in 0..count
            invariant
                count <= relevant@.len(),
                head.len() == 3,
                task_facts(tasks@) == head + Seq::new(
                    i as nat,
                    |k: int| quantized_facts(level, relevant@[k], model_fingerprint, limits),
                ),
        {
            let ghost before = task_facts(tasks@);
            let task = quantized_task(level, relevant[i], model_fingerprint, limits);
            let ghost content = task@;
            tasks.push(task);
            assert(task_facts(tasks@) =~= before.push(content));
            assert(task_facts(tasks@) =~= head + Seq::new(
                (i + 1) as nat,
                |k: int| quantized_facts(level, relevant@[k], model_fingerprint, limits),
            ));
        }
    }
    assert(task_facts(tasks@) =~= expected);
    tasks
}

impl CalibrationPlan {
    pub fn build(
        user: &UserProfile,
        machine: &MachineProfile,
        model: &ModelProfile,
        storage: &StorageProfile,
        capabilities: &CapabilitySet,
        limits: CalibrationLimits,
    ) -> (result: Result<Self, CalibrationError>)
        ensures
            plan_result(result) == built_plan(
                *user,
                *machine,
                *model,
                *storage,
                *capabilities,
                limits,
            ),
    {
        validate_build(user, machine, model, storage, capabilities, limits)?;
        let storage_fingerprint: u64 = storage.fingerprint();
        let mut plan = CalibrationPlan {
            schema_version: PROFILE_SCHEMA_VERSION,
            plan_version: CALIBRATION_PLAN_VERSION,
            ruleset_version: CALIBRATION_RULESET_VERSION,
            identifier: "".to_owned(),
            level: user.calibration_level,
            machine_fingerprint: machine.fingerprint(),
            model_fingerprint: model.identity.descriptor_fingerprint,
            storage_fingerprint,
            limits,
            tasks: plan_tasks(user.calibration_level, model, storage_fingerprint, limits),
        };
        proof {
            reveal_strlit("");
            assert(plan@ =~= unnamed_plan(*user, *machine, *model, *storage, limits));
        }
        plan.identifier = calibration_plan_identifier(&plan);
        assert(plan@ =~= named(unnamed_plan(*user, *machine, *model, *storage, limits)));
        plan.validate()?;
        Ok(plan)
    }

    /// Adds a latency measurement. The task stays in the plan even where the plan
    /// that results is refused.
    pub fn request_strategy_measurement(&mut self, strategy: StrategyId) -> (result: Result<
        (),
        CalibrationError,
    >)
        ensures
            old(self).level != CalibrationLevel::Thorough ==> {
                &&& result == Err::<(), CalibrationError>(
                    CalibrationError::InvalidPlan(
                        "strategy measurements require Thorough calibration",
                    ),
                )
                &&& *final(self) == *old(self)
            },
            old(self).level == CalibrationLevel::Thorough && task_identifiers(
                old(self)@.tasks,
            ).contains(CalibrationTestKind::StrategyLatency(strategy).spec_identifier()) ==> {
                &&& result == Err::<(), CalibrationError>(
                    CalibrationError::InvalidPlan("duplicate strategy measurement"),
                )
                &&& *final(self) == *old(self)
            },
            old(self).level == CalibrationLevel::Thorough && !task_identifiers(
                old(self)@.tasks,
            ).contains(CalibrationTestKind::StrategyLatency(strategy).spec_identifier()) ==> {
                &&& final(self)@ == with_strategy(old(self)@, strategy)
                &&& result == plan_check(final(self)@)
            },
    {
        if self.level != CalibrationLevel::Thorough {
            return Err(
                CalibrationError::InvalidPlan("strategy measurements require Thorough calibration"),
            );
        }
        let task = strategy_task(strategy, self.model_fingerprint, self.limits);
        let ghost content = task@;
        let ghost before = task_facts(self.tasks@);
        assert(before.take(before.len() as int) =~= before);
        if holds_task(&self.tasks, self.tasks.len(), task.identifier.as_str()) {
            return Err(CalibrationError::InvalidPlan("duplicate strategy measurement"));
        }
        self.tasks.push(task);
        assert(task_facts(self.tasks@) =~= before.push(content));
        self.identifier = calibration_plan_identifier(self);
        assert(self@ =~= with_strategy(old(self)@, strategy));
        self.validate()
    }

    pub fn validate(&self) -> (result: Result<(), CalibrationError>)
        ensures
            result == plan_check(self@),
    {
        if self.schema_version != PROFILE_SCHEMA_VERSION || self.plan_version
            != CALIBRATION_PLAN_VERSION || self.ruleset_version != CALIBRATION_RULESET_VERSION
            || self.identifier.as_str().is_empty() || self.machine_fingerprint == 0
            || self.model_fingerprint == 0 || self.storage_fingerprint == 0 {
            return Err(CalibrationError::InvalidPlan("invalid calibration identity"));
        }
        if self.level == CalibrationLevel::NotRequested && self.tasks.len() > 0 {
            return Err(CalibrationError::InvalidPlan("none-level plan contains tasks"));
        }
        validate_tasks(&self.tasks)?;
        let expected = calibration_plan_identifier(self);
        if !text::str_equal(self.identifier.as_str(), expected.as_str()) {
            return Err(CalibrationError::InvalidPlan("calibration plan identifier mismatch"));
        }
        Ok(())
    }
}

/// The conservative limits are valid for every valid user profile.
pub proof fn lemma_conservative_valid(user: UserProfile, limits: CalibrationLimits)
    requires
        profiles::user_check(user) is Ok,
        limits.max_memory_bytes == conservative_memory(user.ram_budget_bytes),
        limits.max_storage_read_bytes == 1048576,
        limits.max_total_duration_ns == 15_000_000_000,
        limits.max_task_duration_ns == 3_000_000_000,
        limits.max_samples == 7,
        limits.max_iterations_per_sample == 64,
    ensures
        limits_valid(limits, user),
{
}

/// A task made for a level under valid limits is valid.
proof fn lemma_made_task_valid(
    level: CalibrationLevel,
    format: CalibrationQuantization,
    strategy: StrategyId,
    fingerprint: u64,
    limits: CalibrationLimits,
    user: UserProfile,
)
    requires
        level != CalibrationLevel::NotRequested,
        limits_valid(limits, user),
    ensures
        task_check(cpu_facts(level, limits)) is Ok,
        task_check(memory_facts(level, limits)) is Ok,
        task_check(storage_facts(level, fingerprint, limits)) is Ok,
        task_check(quantized_facts(level, format, fingerprint, limits)) is Ok,
        task_check(strategy_facts(strategy, fingerprint, limits)) is Ok,
{
    let (samples, iterations) = work_of_level(level);
    assert(iterations * samples <= 448) by {
        match level {
            CalibrationLevel::NotRequested => {},
            CalibrationLevel::Quick => {},
            CalibrationLevel::Standard => {},
            CalibrationLevel::Thorough => {},
        }
    }
    let work = cpu_facts(level, limits).work;
    assert(work.iterations_per_sample * work.sample_count <= 448);
    assert(0 * (iterations * samples + 4) == 0 && 4096 * (iterations * samples + 4) <= 4096 * 452)
        by (nonlinear_arith)
        requires
            0 <= iterations * samples <= 448,
    ;
    assert(volume_bounded(work));
    let copied = copied_bytes(limits);
    assert(copied * (iterations * samples + 2) <= 1048576 * 450) by (nonlinear_arith)
        requires
            0 <= copied <= 1048576,
            0 <= iterations * samples <= 448,
    ;
    let read = read_bytes(limits);
    assert(read * (1 * samples + 1) <= 1048576 * 8) by (nonlinear_arith)
        requires
            0 <= read <= 1048576,
            0 <= samples <= 7,
    ;
    let row = format.spec_row_bytes();
    assert(row * (iterations * samples + 2) <= 2176 * 450) by (nonlinear_arith)
        requires
            0 <= row <= 2176,
            0 <= iterations * samples <= 448,
    ;
}

/// Valid tasks of different kinds make a valid list.
proof fn lemma_tasks_valid(tasks: Seq<TaskFacts>)
    requires
        forall|i: int| 0 <= i < tasks.len() ==> task_check(#[trigger] tasks[i]) is Ok,
        forall|i: int, j: int|
            0 <= i < j < tasks.len() ==> (#[trigger] tasks[i]).kind != (#[trigger] tasks[j]).kind,
    ensures
        tasks_check(tasks) is Ok,
    decreases tasks.len(),
{
    if tasks.len() > 0 {
        let earlier = tasks.drop_last();
        let last = tasks.last();
        assert forall|i: int| 0 <= i < earlier.len() implies task_check(
            #[trigger] earlier[i],
        ) is Ok by {
            assert(earlier[i] == tasks[i]);
        }
        lemma_tasks_valid(earlier);
        assert forall|i: int| 0 <= i < earlier.len() implies #[trigger] task_identifiers(earlier)[i]
            != last.identifier by {
            assert(earlier[i] == tasks[i]);
            assert(task_check(tasks[i]) is Ok);
            assert(task_check(tasks[tasks.len() - 1]) is Ok);
            assert(tasks[i].kind != tasks[tasks.len() - 1].kind);
            lemma_identifiers_differ(tasks[i].kind, last.kind);
        }
    }
}

proof fn lemma_identifier_not_empty(plan: CalibrationPlanFacts)
    ensures
        plan_identifier(plan).len() > 0,
{
    reveal_strlit("calibration-plan-v");
}

/// A plan can be built from every set of inputs that passes the checks on them:
/// only a fingerprint of zero stands in the way.
pub proof fn lemma_build_succeeds(
    user: UserProfile,
    machine: MachineProfile,
    model: ModelProfile,
    storage: StorageProfile,
    capabilities: CapabilitySet,
    limits: CalibrationLimits,
)
    requires
        build_check(user, machine, model, storage, capabilities, limits) is Ok,
        profiles::machine_fingerprint(machine) != 0,
        profiles::storage_fingerprint(storage) != 0,
    ensures
        built_plan(user, machine, model, storage, capabilities, limits) == Ok::<
            CalibrationPlanFacts,
            CalibrationError,
        >(named(unnamed_plan(user, machine, model, storage, limits))),
{
    let plan = unnamed_plan(user, machine, model, storage, limits);
    let tasks = plan.tasks;
    let level = user.calibration_level;
    let formats = measurable(model.tensor_formats@);
    lemma_identifier_not_empty(plan);
    if level != CalibrationLevel::NotRequested {
        assert forall|i: int| 0 <= i < tasks.len() implies task_check(#[trigger] tasks[i]) is Ok by {
            lemma_made_task_valid(
                level,
                formats[i - 3],
                StrategyId::CpuLayerStreaming,
                plan.model_fingerprint,
                limits,
                user,
            );
            lemma_made_task_valid(
                level,
                formats[i - 3],
                StrategyId::CpuLayerStreaming,
                plan.storage_fingerprint,
                limits,
                user,
            );
            if i >= 3 {
                assert(tasks[i] == quantized_facts(
                    level,
                    formats[i - 3],
                    plan.model_fingerprint,
                    limits,
                ));
            }
        }
        assert forall|i: int, j: int| 0 <= i < j < tasks.len() implies (#[trigger] tasks[i]).kind
            != (#[trigger] tasks[j]).kind by {
            if i >= 3 {
                assert(tasks[i].kind == CalibrationTestKind::QuantizedRowDecode(formats[i - 3]));
            }
            if j >= 3 {
                assert(tasks[j].kind == CalibrationTestKind::QuantizedRowDecode(formats[j - 3]));
            }
            lemma_measurable_distinct(model.tensor_formats@);
        }
    }
    lemma_tasks_valid(tasks);
}

proof fn lemma_measurable_distinct(formats: Seq<TensorFormatProfile>)
    ensures
        measurable(formats).len() <= 3,
        forall|i: int, j: int|
            0 <= i < j < measurable(formats).len() ==> #[trigger] measurable(formats)[i]
                != #[trigger] measurable(formats)[j],
{
}

/// A strategy measurement can be added to every valid thorough plan that has none
/// of that strategy, as long as its limits allow a task to run at all.
pub proof fn lemma_strategy_added(plan: CalibrationPlanFacts, strategy: StrategyId)
    requires
        plan_check(plan) is Ok,
        plan.level == CalibrationLevel::Thorough,
        0 < plan.limits.max_task_duration_ns <= MAX_ABSOLUTE_TASK_DURATION_NS,
        !task_identifiers(plan.tasks).contains(
            CalibrationTestKind::StrategyLatency(strategy).spec_identifier(),
        ),
    ensures
        plan_check(with_strategy(plan, strategy)) is Ok,
{
    let grown = with_strategy(plan, strategy);
    lemma_identifier_not_empty(grown);
    assert(grown.tasks.drop_last() =~= plan.tasks);
    lemma_identifier_not_empty(
        CalibrationPlanFacts {
            tasks: plan.tasks.push(strategy_facts(strategy, plan.model_fingerprint, plan.limits)),
            ..plan
        },
    );
}

/// What the levels ask for: three, five or seven samples of sixteen, thirty-two or
/// sixty-four operations. Quick calibration covers the CPU and the storage;
/// standard calibration adds the memory and the first quantized format that the
/// model uses of Q4_K, Q8_0 and Q4_0; thorough calibration takes all of these.
pub proof fn lemma_planned_levels(
    level: CalibrationLevel,
    formats: Seq<TensorFormatProfile>,
    model_fingerprint: u64,
    storage_fingerprint: u64,
    limits: CalibrationLimits,
)
    ensures
        ({
            let tasks = planned_tasks(
                level,
                formats,
                model_fingerprint,
                storage_fingerprint,
                limits,
            );
            let q4k = has_format(formats, "Q4_K"@);
            let q8 = has_format(formats, "Q8_0"@);
            let q4 = has_format(formats, "Q4_0"@);
            let listed = (if q4k {
                1int
            } else {
                0
            }) + (if q8 {
                1int
            } else {
                0
            }) + (if q4 {
                1int
            } else {
                0
            });
            let decode4k = CalibrationTestKind::QuantizedRowDecode(CalibrationQuantization::Q4K);
            let decode8 = CalibrationTestKind::QuantizedRowDecode(CalibrationQuantization::Q8_0);
            let decode4 = CalibrationTestKind::QuantizedRowDecode(CalibrationQuantization::Q4_0);
            &&& level == CalibrationLevel::NotRequested ==> tasks.len() == 0
            &&& level != CalibrationLevel::NotRequested ==> tasks.len() >= 2 && tasks[0].kind
                == CalibrationTestKind::CpuFloatDot && tasks[1].kind
                == CalibrationTestKind::SequentialStorageRead
            &&& level == CalibrationLevel::Quick ==> tasks.len() == 2
            &&& level == CalibrationLevel::Standard ==> tasks.len() == (if listed > 0 {
                4int
            } else {
                3
            })
            &&& level == CalibrationLevel::Thorough ==> tasks.len() == 3 + listed
            &&& tasks.len() > 2 ==> tasks[2].kind == CalibrationTestKind::MemoryCopyBandwidth
            &&& tasks.len() > 3 ==> tasks[3].kind == (if q4k {
                decode4k
            } else if q8 {
                decode8
            } else {
                decode4
            })
            &&& tasks.len() > 4 ==> tasks[4].kind == (if q4k && q8 {
                decode8
            } else {
                decode4
            })
            &&& tasks.len() > 5 ==> tasks[5].kind == decode4
            &&& forall|i: int|
                0 <= i < tasks.len() ==> {
                    let task = #[trigger] tasks[i];
                    let work = task.work;
                    &&& task.identifier == task.kind.spec_identifier()
                    &&& work.sample_count == (if level == CalibrationLevel::Quick {
                        3
                    } else if level == CalibrationLevel::Standard {
                        5
                    } else {
                        7int
                    })
                    &&& task.kind != CalibrationTestKind::SequentialStorageRead
                        ==> work.iterations_per_sample == (if level == CalibrationLevel::Quick {
                        16
                    } else if level == CalibrationLevel::Standard {
                        32
                    } else {
                        64int
                    })
                    &&& task.kind == CalibrationTestKind::SequentialStorageRead
                        ==> work.iterations_per_sample == 1
                    &&& work.max_duration_ns == limits.max_task_duration_ns
                    &&& task.expected_resources.cpu_threads == 1
                }
        }),
{
    let found = measurable(formats);
    let k = only_if(formats, CalibrationQuantization::Q4K);
    let e = only_if(formats, CalibrationQuantization::Q8_0);
    let f = only_if(formats, CalibrationQuantization::Q4_0);
    assert(found =~= k + e + f);
    assert(found.len() == k.len() + e.len() + f.len());
    let tasks = planned_tasks(level, formats, model_fingerprint, storage_fingerprint, limits);
    assert forall|i: int| 0 <= i < tasks.len() implies {
        let task = #[trigger] tasks[i];
        ||| task == cpu_facts(level, limits)
        ||| task == storage_facts(level, storage_fingerprint, limits)
        ||| task == memory_facts(level, limits)
        ||| exists|at: int|
            0 <= at < found.len() && task == quantized_facts(
                level,
                #[trigger] found[at],
                model_fingerprint,
                limits,
            )
    } by {
        if i > 2 {
            assert(tasks[i] == quantized_facts(level, found[i - 3], model_fingerprint, limits));
        }
    }
    if tasks.len() > 3 {
        assert(tasks[3] == quantized_facts(level, found[0], model_fingerprint, limits));
    }
    if tasks.len() > 4 {
        assert(tasks[4] == quantized_facts(level, found[1], model_fingerprint, limits));
    }
    if tasks.len() > 5 {
        assert(tasks[5] == quantized_facts(level, found[2], model_fingerprint, limits));
    }
}

/// What one operation of a task works on and holds in memory. A dot product takes
/// two vectors of 4096 floats; a copy takes as much as memory allows, twice, up
/// to a mebibyte; a storage read takes as much as memory and the read limit
/// allow, up to a mebibyte; a decode takes a row of 2048 elements and its floats.
/// Every task holds 4096 bytes besides.
pub proof fn lemma_planned_work(
    level: CalibrationLevel,
    format: CalibrationQuantization,
    model_fingerprint: u64,
    storage_fingerprint: u64,
    limits: CalibrationLimits,
)
    ensures
        ({
            let cpu = cpu_facts(level, limits);
            let copy = memory_facts(level, limits);
            let read = storage_facts(level, storage_fingerprint, limits);
            let decode = quantized_facts(level, format, model_fingerprint, limits);
            let copied = copy.work.bytes_per_iteration;
            let taken = read.work.bytes_per_iteration;
            let allowed = limits.max_memory_bytes;
            let row = decode.work.bytes_per_iteration;
            &&& cpu.work.elements_per_iteration == 4096 && cpu.work.bytes_per_iteration == 0
            &&& cpu.work.warmup_iterations == 4
            &&& cpu.expected_resources.memory_bytes == 2 * 4 * 4096 + 4096
            &&& cpu.expected_resources.storage_read_bytes == 0
            &&& cpu.requirements == seq![RequirementFacts::CpuBackend]
            &&& cpu.model_fingerprint is None && cpu.storage_fingerprint is None
            &&& copy.work.elements_per_iteration == 0 && copy.work.warmup_iterations == 2
            &&& copy.expected_resources.memory_bytes == 2 * copied + 4096
            &&& copy.expected_resources.storage_read_bytes == 0
            &&& copy.requirements == seq![RequirementFacts::CpuBackend]
            &&& 4096 <= copied <= 1048576
            &&& allowed >= 12288 ==> 2 * copied + 4096 <= allowed
            &&& allowed >= 12288 && copied < 1048576 ==> 2 * (copied + 1) + 4096 > allowed
            &&& allowed < 12288 ==> copied == 1048576
            &&& read.work.elements_per_iteration == 0 && read.work.warmup_iterations == 1
            &&& read.expected_resources.memory_bytes == taken + 4096
            &&& read.expected_resources.storage_read_bytes == taken
            &&& read.storage_fingerprint == Some(storage_fingerprint)
            &&& read.requirements == seq![RequirementFacts::SeekableStorage]
            &&& taken <= 1048576 && taken <= limits.max_storage_read_bytes
            &&& allowed >= 8192 ==> taken + 4096 <= allowed
            &&& taken == 1048576 || taken == limits.max_storage_read_bytes || (allowed >= 8192
                && taken + 4096 == allowed)
            &&& decode.work.elements_per_iteration == 2048 && decode.work.warmup_iterations == 2
            &&& row == (if format == CalibrationQuantization::Q8_0 {
                2176
            } else {
                1152int
            })
            &&& decode.expected_resources.memory_bytes == row + 4 * 2048 + 4096
            &&& decode.expected_resources.storage_read_bytes == 0
            &&& decode.model_fingerprint == Some(model_fingerprint)
            &&& decode.requirements == seq![
                RequirementFacts::CpuBackend,
                RequirementFacts::QuantizationFormat(format.spec_format_name()),
            ]
        }),
{
    assert(CalibrationQuantization::Q4_0.spec_row_bytes() == 1152);
    assert(CalibrationQuantization::Q8_0.spec_row_bytes() == 2176);
    assert(CalibrationQuantization::Q4K.spec_row_bytes() == 1152);
}

/// A strategy measurement is added behind the other tasks, which stay as they
/// are; it runs once, needs the strategy and the model, and is about the plan's
/// model.
pub proof fn lemma_strategy_task(plan: CalibrationPlanFacts, strategy: StrategyId)
    ensures
        ({
            let extended = with_strategy(plan, strategy);
            let added = extended.tasks.last();
            &&& extended.tasks.len() == plan.tasks.len() + 1
            &&& extended.tasks.drop_last() == plan.tasks
            &&& extended.level == plan.level && extended.limits == plan.limits
            &&& extended.machine_fingerprint == plan.machine_fingerprint
            &&& extended.model_fingerprint == plan.model_fingerprint
            &&& extended.storage_fingerprint == plan.storage_fingerprint
            &&& added.kind == CalibrationTestKind::StrategyLatency(strategy)
            &&& added.model_fingerprint == Some(plan.model_fingerprint)
            &&& added.work.warmup_iterations == 0 && added.work.iterations_per_sample == 1
                && added.work.sample_count == 1 && added.work.elements_per_iteration == 1
                && added.work.bytes_per_iteration == 0
            &&& added.work.max_duration_ns == plan.limits.max_task_duration_ns
            &&& added.expected_resources.memory_bytes == 4096
            &&& added.requirements.contains(RequirementFacts::ModelExecution)
            &&& added.requirements.contains(RequirementFacts::Strategy(strategy))
            &&& added.requirements.contains(RequirementFacts::CpuBackend) <==> strategy
                == StrategyId::CpuLayerStreaming
        }),
{
    let extended = with_strategy(plan, strategy);
    let added = extended.tasks.last();
    assert(extended.tasks.drop_last() =~= plan.tasks);
    assert(added.requirements[0] == RequirementFacts::ModelExecution);
    assert(added.requirements[1] == RequirementFacts::Strategy(strategy));
    if strategy == StrategyId::CpuLayerStreaming {
        assert(added.requirements[2] == RequirementFacts::CpuBackend);
    }
}

/// When a task is accepted: it goes by its test's name, works on something, on
/// one thread, within 64 MiB of memory, 16 MiB of reading, 16 samples of at most
/// 1024 operations and half a minute, and within a gibibyte and a hundred million
/// elements in all; and it names the storage or the model that it measures.
pub proof fn lemma_task_checked(task: TaskFacts)
    ensures
        ({
            let work = task.work;
            let used = task.expected_resources;
            let runs = work.warmup_iterations + work.sample_count * work.iterations_per_sample;
            task_check(task) is Ok <==> {
                &&& task.identifier == task.kind.spec_identifier()
                &&& used.cpu_threads == 1
                &&& 0 < used.memory_bytes <= 64 * 1024 * 1024
                &&& used.storage_read_bytes <= 16 * 1024 * 1024
                &&& 0 < work.iterations_per_sample <= 1024
                &&& 0 < work.sample_count <= 16
                &&& work.warmup_iterations <= 1024
                &&& 0 < work.max_duration_ns <= 30 * 1000000000
                &&& work.elements_per_iteration > 0 || work.bytes_per_iteration > 0
                &&& work.bytes_per_iteration * runs <= 1024 * 1024 * 1024
                &&& work.elements_per_iteration * runs <= 100000000
                &&& task.kind == CalibrationTestKind::SequentialStorageRead || task.kind
                    == CalibrationTestKind::StorageReadLatency ==> task.storage_fingerprint is Some
                &&& task.kind is QuantizedRowDecode || task.kind is StrategyLatency
                    ==> task.model_fingerprint is Some
            }
        }),
{
    let work = task.work;
    assert(work.iterations_per_sample * work.sample_count == work.sample_count
        * work.iterations_per_sample) by (nonlinear_arith);
}

/// When limits are accepted: each is positive, memory stays within the user's
/// budget and 64 MiB, reading within 16 MiB, and a task's time within the time in
/// all, two minutes and half a minute at most.
pub proof fn lemma_limits_checked(limits: CalibrationLimits, user: UserProfile)
    ensures
        limits_check(limits, user) is Ok <==> {
            &&& 0 < limits.max_memory_bytes <= user.ram_budget_bytes
            &&& limits.max_memory_bytes <= 64 * 1024 * 1024
            &&& 0 < limits.max_storage_read_bytes <= 16 * 1024 * 1024
            &&& 0 < limits.max_total_duration_ns <= 120 * 1000000000
            &&& 0 < limits.max_task_duration_ns <= 30 * 1000000000
            &&& limits.max_task_duration_ns <= limits.max_total_duration_ns
            &&& 0 < limits.max_samples <= 16
            &&& 0 < limits.max_iterations_per_sample <= 1024
        },
{
}

/// Conservative calibration takes a thirty-second of the budget, at least 64 KiB
/// and at most 8 MiB where the budget has as much.
pub proof fn lemma_conservative_memory(ram_budget_bytes: u64)
    ensures
        ({
            let memory = conservative_memory(ram_budget_bytes);
            &&& memory <= ram_budget_bytes
            &&& memory <= 8 * 1024 * 1024
            &&& ram_budget_bytes >= 65536 ==> memory >= 65536
            &&& ram_budget_bytes < 65536 ==> memory == ram_budget_bytes
            &&& memory > 65536 && memory < 8 * 1024 * 1024 ==> 32 * memory <= ram_budget_bytes < 32
                * memory + 32
            &&& ram_budget_bytes >= 256 * 1024 * 1024 ==> memory == 8 * 1024 * 1024
            &&& 65536 <= ram_budget_bytes < 2 * 1024 * 1024 ==> memory == 65536
        }),
{
}

/// When a plan is accepted: it is of the current versions, names machine, model
/// and storage, has no tasks where none are asked for, only tasks that are
/// accepted, none of them twice, and carries the identifier of its contents.
pub proof fn lemma_plan_checked(plan: CalibrationPlanFacts)
    ensures
        plan_check(plan) is Ok <==> {
            &&& plan.schema_version == 1 && plan.plan_version == 1 && plan.ruleset_version == 1
            &&& plan.machine_fingerprint != 0 && plan.model_fingerprint != 0
                && plan.storage_fingerprint != 0
            &&& plan.identifier.len() > 0 && plan.identifier == plan_identifier(plan)
            &&& plan.level == CalibrationLevel::NotRequested ==> plan.tasks.len() == 0
            &&& tasks_agree(plan.tasks)
        },
{
    lemma_tasks_agree(plan.tasks);
}

/// Every task is accepted on its own, and no two have the same identifier.
pub open spec fn tasks_agree(tasks: Seq<TaskFacts>) -> bool {
    &&& forall|i: int| 0 <= i < tasks.len() ==> task_check(#[trigger] tasks[i]) is Ok
    &&& forall|i: int, j: int|
        #![trigger tasks[i], tasks[j]]
        0 <= i < j < tasks.len() ==> tasks[i].identifier != tasks[j].identifier
}

proof fn lemma_tasks_agree(tasks: Seq<TaskFacts>)
    ensures
        tasks_check(tasks) is Ok <==> tasks_agree(tasks),
    decreases tasks.len(),
{
    if tasks.len() > 0 {
        let shorter = tasks.drop_last();
        let last = tasks.len() - 1;
        lemma_tasks_agree(shorter);
        let names = task_identifiers(shorter);
        assert(forall|i: int| 0 <= i < shorter.len() ==> #[trigger] shorter[i] == tasks[i]);
        if tasks_check(tasks) is Ok {
            assert forall|i: int| 0 <= i < tasks.len() implies task_check(
                #[trigger] tasks[i],
            ) is Ok by {
                if i < last {
                    assert(task_check(shorter[i]) is Ok);
                }
            }
            assert forall|i: int, j: int|
                #![trigger tasks[i], tasks[j]]
                0 <= i < j < tasks.len() implies tasks[i].identifier != tasks[j].identifier by {
                if j < last {
                    assert(shorter[i].identifier != shorter[j].identifier);
                } else {
                    assert(names[i] == tasks[i].identifier);
                }
            }
        }
        if tasks_agree(tasks) {
            assert forall|i: int| 0 <= i < shorter.len() implies task_check(
                #[trigger] shorter[i],
            ) is Ok by {
                assert(task_check(tasks[i]) is Ok);
            }
            assert forall|i: int, j: int|
                #![trigger shorter[i], shorter[j]]
                0 <= i < j < shorter.len() implies shorter[i].identifier
                != shorter[j].identifier by {
                assert(tasks[i].identifier != tasks[j].identifier);
            }
            if names.contains(tasks.last().identifier) {
                let k = choose|k: int|
                    0 <= k < names.len() && names[k] == tasks.last().identifier;
                assert(tasks[k].identifier == tasks[last].identifier);
            }
            assert(task_check(tasks[last]) is Ok);
        }
    }
}

/// What a plan is built from: profiles and limits that are accepted, a storage that
/// holds the model, free memory for the calibration, and capabilities that belong
/// to the profiles. The plan carries what it was built from.
pub proof fn lemma_built_from(
    user: UserProfile,
    machine: MachineProfile,
    model: ModelProfile,
    storage: StorageProfile,
    capabilities: CapabilitySet,
    limits: CalibrationLimits,
)
    requires
        built_plan(user, machine, model, storage, capabilities, limits) is Ok,
    ensures
        ({
            let plan = built_plan(user, machine, model, storage, capabilities, limits)->Ok_0;
            &&& profiles::user_check(user) is Ok && profiles::machine_check(machine) is Ok
                && profiles::model_check(model) is Ok && profiles::storage_check(storage) is Ok
            &&& limits_check(limits, user) is Ok
            &&& storage.file_size_bytes is Some ==> storage.file_size_bytes->0
                == model.file_size_bytes
            &&& machine.available_ram_bytes is Some && limits.max_memory_bytes
                <= machine.available_ram_bytes->0
            &&& capabilities.schema_version == 1
            &&& capabilities.machine_fingerprint == plan.machine_fingerprint
            &&& capabilities.model_fingerprint == plan.model_fingerprint
            &&& capabilities.storage_fingerprint == plan.storage_fingerprint
            &&& plan.machine_fingerprint == profiles::machine_fingerprint(machine)
            &&& plan.model_fingerprint == model.identity.descriptor_fingerprint
            &&& plan.storage_fingerprint == profiles::storage_fingerprint(storage)
            &&& plan.level == user.calibration_level
            &&& plan.limits == limits
            &&& plan.tasks == planned_tasks(
                user.calibration_level,
                model.tensor_formats@,
                model.identity.descriptor_fingerprint,
                profiles::storage_fingerprint(storage),
                limits,
            )
            &&& plan_check(plan) is Ok
        }),
{
}

/// The blocks of a format: half-precision scales, then a byte or half a byte for each
/// element; a measured row has two thousand and forty-eight elements.
pub proof fn lemma_block_shapes(format: CalibrationQuantization)
    ensures
        format == CalibrationQuantization::Q4K <==> format.spec_block_elements() == 256,
        format != CalibrationQuantization::Q4K ==> format.spec_block_elements() == 32,
        format == CalibrationQuantization::Q8_0 ==> format.spec_block_bytes() == 2
            + format.spec_block_elements(),
        format == CalibrationQuantization::Q4_0 ==> 2 * format.spec_block_bytes() == 4
            + format.spec_block_elements(),
        format == CalibrationQuantization::Q4K ==> 2 * format.spec_block_bytes() == 32
            + format.spec_block_elements(),
        format.spec_row_bytes() * format.spec_block_elements() == 2048 * format.spec_block_bytes(),
{
}

/// A requirement enters a plan's identity by bytes that tell requirements apart.
pub proof fn lemma_requirements_told_apart(first: RequirementFacts, second: RequirementFacts)
    requires
        requirement_bytes(first) == requirement_bytes(second),
    ensures
        first == second,
{
    let nothing = Seq::<u8>::empty();
    let number = |requirement: RequirementFacts|
        match requirement {
            RequirementFacts::CpuBackend => 1u64,
            RequirementFacts::SeekableStorage => 2u64,
            RequirementFacts::ModelExecution => 3u64,
            RequirementFacts::QuantizationFormat(_) => 4u64,
            RequirementFacts::Strategy(_) => 5u64,
        };
    let rest = |requirement: RequirementFacts|
        match requirement {
            RequirementFacts::QuantizationFormat(format) => vstd::utf8::encode_utf8(format),
            RequirementFacts::Strategy(strategy) => fingerprint::integer_bytes(
                strategy_number(strategy),
            ),
            _ => Seq::<u8>::empty(),
        };
    assert(fingerprint::integer_bytes(number(first)) + rest(first) =~= requirement_bytes(first));
    assert(fingerprint::integer_bytes(number(second)) + rest(second) =~= requirement_bytes(second));
    fingerprint::lemma_integer_told_apart(
        number(first),
        number(second),
        rest(first),
        rest(second),
    );
    match (first, second) {
        (RequirementFacts::QuantizationFormat(left), RequirementFacts::QuantizationFormat(right)) => {
            vstd::utf8::encode_utf8_decode_utf8(left);
            vstd::utf8::encode_utf8_decode_utf8(right);
            assert(left == right);
        },
        (RequirementFacts::Strategy(left), RequirementFacts::Strategy(right)) => {
            let a = strategy_number(left);
            let b = strategy_number(right);
            assert(fingerprint::integer_bytes(a) + nothing =~= rest(first));
            assert(fingerprint::integer_bytes(b) + nothing =~= rest(second));
            fingerprint::lemma_integer_told_apart(a, b, nothing, nothing);
        },
        _ => {},
    }
}

/// A plan's identifier ends with sixteen hexadecimal digits that stand for the
/// fingerprint of what the plan holds, after its version.
pub proof fn lemma_plan_named(plan: CalibrationPlanFacts)
    ensures
        ({
            let name = plan_identifier(plan);
            let digits = name.skip(name.len() - 16);
            let version = text::decimal(plan.plan_version as nat);
            &&& name.len() == 18 + version.len() + 1 + 16
            &&& name.take(18) == "calibration-plan-v"@
            &&& name.subrange(18, 18 + version.len() as int) == version
            &&& text::hex_value(digits) == fingerprint::fingerprint_of(identity_bytes(plan))
        }),
{
    reveal_strlit("calibration-plan-v");
    reveal_strlit("-");
    let name = plan_identifier(plan);
    let version = text::decimal(plan.plan_version as nat);
    let value = fingerprint::fingerprint_of(identity_bytes(plan)) as nat;
    text::lemma_hex_width(value, 16);
    reveal_with_fuel(vstd::arithmetic::power::pow, 17);
    assert(vstd::arithmetic::power::pow(16, 16) == 0x10000000000000000int);
    assert(name.skip(name.len() - 16) =~= text::hex(value, 16));
    assert(name.take(18) =~= "calibration-plan-v"@);
    assert(name.subrange(18, 18 + version.len() as int) =~= version);
}

} // verus!
