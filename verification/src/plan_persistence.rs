//! Deterministic, bounded persistence for planner-produced execution plans.
//!
//! The persisted form contains identities, decisions, reservations, costs, and
//! calibration provenance only. Model paths, weights, tensor payloads, runtime
//! allocations, caches, and inference state are deliberately excluded.

use vstd::prelude::*;
use vstd::string::*;

use crate::observation;
use crate::observation::{CalibrationResult, ObservationStatus};
use crate::plan_codec;
use crate::plan_codec::{PlanReader, MAX_LIST_ITEMS, MAX_PERSISTED_PLAN_BYTES, MAX_STRING_BYTES};
use crate::plan_compiler;
use crate::plan_compiler::{
    validate_concrete_decisions, PlanCompilationContext, PlanCompilationError, PlanCompiler,
};
use crate::planner;
use crate::planner::{
    CalibrationProvenance, CostEstimate, ExecutionPlan, GpuDecision, IoDecision,
    LayerCacheDecision, PlanBinding, PlanCompatibility, PlanReason, PlanReasonCode,
    ResourceReservations,
};
use crate::profiles;
use crate::profiles::{GpuPreference, OperatingMode, StrategyId};
use crate::runtime_config::RuntimeConfig;
use crate::text;

pub use crate::plan_codec::PlanPersistenceError;

verus! {

pub const PERSISTED_EXECUTION_PLAN_SCHEMA_VERSION: u32 = 1;

#[derive(Debug, Clone, PartialEq, Eq)]
pub struct PersistedExecutionPlan {
    pub persistence_schema_version: u32,
    pub execution_schema_version: u32,
    pub planner_ruleset_version: u32,
    pub model_descriptor_fingerprint: u64,
    pub source_machine_fingerprint: u64,
    pub source_storage_fingerprint: u64,
    pub mode: OperatingMode,
    pub strategy: StrategyId,
    pub ram_budget_bytes: u64,
    pub cpu_thread_count: usize,
    pub layer_cache: LayerCacheDecision,
    pub io: IoDecision,
    pub gpu: GpuDecision,
    pub reservations: ResourceReservations,
    pub cost: CostEstimate,
    pub calibration: CalibrationProvenance,
    pub reasons: Vec<PlanReason>,
}

/// The content of a persisted plan.
#[verifier::ext_equal]
pub struct PersistedFacts {
    pub persistence_schema_version: u32,
    pub execution_schema_version: u32,
    pub planner_ruleset_version: u32,
    pub model_descriptor_fingerprint: u64,
    pub source_machine_fingerprint: u64,
    pub source_storage_fingerprint: u64,
    pub mode: OperatingMode,
    pub strategy: StrategyId,
    pub ram_budget_bytes: u64,
    pub cpu_thread_count: usize,
    pub layer_cache: LayerCacheDecision,
    pub io: IoDecision,
    pub gpu: planner::GpuDecisionFacts,
    pub reservations: ResourceReservations,
    pub cost: CostEstimate,
    pub calibration: planner::ProvenanceFacts,
    pub reasons: Seq<PlanReason>,
}

impl View for PersistedExecutionPlan {
    type V = PersistedFacts;

    open spec fn view(&self) -> PersistedFacts {
        PersistedFacts {
            persistence_schema_version: self.persistence_schema_version,
            execution_schema_version: self.execution_schema_version,
            planner_ruleset_version: self.planner_ruleset_version,
            model_descriptor_fingerprint: self.model_descriptor_fingerprint,
            source_machine_fingerprint: self.source_machine_fingerprint,
            source_storage_fingerprint: self.source_storage_fingerprint,
            mode: self.mode,
            strategy: self.strategy,
            ram_budget_bytes: self.ram_budget_bytes,
            cpu_thread_count: self.cpu_thread_count,
            layer_cache: self.layer_cache,
            io: self.io,
            gpu: self.gpu@,
            reservations: self.reservations,
            cost: self.cost,
            calibration: self.calibration@,
            reasons: self.reasons@,
        }
    }
}

// ---------------------------------------------------------------------------
// Enumerations
// ---------------------------------------------------------------------------
pub open spec fn mode_tag(mode: OperatingMode) -> u8 {
    match mode {
        OperatingMode::BackgroundConstrained => 0,
        OperatingMode::BalancedNormal => 1,
        OperatingMode::MaximumPerformance => 2,
        OperatingMode::Advanced => 3,
    }
}

pub open spec fn mode_of(tag: u8) -> Result<OperatingMode, PlanPersistenceError> {
    if tag == 0 {
        Ok(OperatingMode::BackgroundConstrained)
    } else if tag == 1 {
        Ok(OperatingMode::BalancedNormal)
    } else if tag == 2 {
        Ok(OperatingMode::MaximumPerformance)
    } else if tag == 3 {
        Ok(OperatingMode::Advanced)
    } else {
        Err(PlanPersistenceError::InvalidEnum { field: "operating mode", value: tag })
    }
}

fn encode_mode(value: OperatingMode) -> (tag: u8)
    ensures
        tag == mode_tag(value),
{
    match value {
        OperatingMode::BackgroundConstrained => 0,
        OperatingMode::BalancedNormal => 1,
        OperatingMode::MaximumPerformance => 2,
        OperatingMode::Advanced => 3,
    }
}

fn decode_mode(value: u8) -> (result: Result<OperatingMode, PlanPersistenceError>)
    ensures
        result == mode_of(value),
{
    match value {
        0 => Ok(OperatingMode::BackgroundConstrained),
        1 => Ok(OperatingMode::BalancedNormal),
        2 => Ok(OperatingMode::MaximumPerformance),
        3 => Ok(OperatingMode::Advanced),
        _ => Err(PlanPersistenceError::InvalidEnum { field: "operating mode", value }),
    }
}

pub open spec fn strategy_tag(strategy: StrategyId) -> u8 {
    match strategy {
        StrategyId::CpuLayerStreaming => 0,
        StrategyId::GpuLayerOffload => 1,
    }
}

pub open spec fn strategy_of(tag: u8) -> Result<StrategyId, PlanPersistenceError> {
    if tag == 0 {
        Ok(StrategyId::CpuLayerStreaming)
    } else if tag == 1 {
        Ok(StrategyId::GpuLayerOffload)
    } else {
        Err(PlanPersistenceError::InvalidEnum { field: "execution strategy", value: tag })
    }
}

fn encode_strategy(value: StrategyId) -> (tag: u8)
    ensures
        tag == strategy_tag(value),
{
    match value {
        StrategyId::CpuLayerStreaming => 0,
        StrategyId::GpuLayerOffload => 1,
    }
}

fn decode_strategy(value: u8) -> (result: Result<StrategyId, PlanPersistenceError>)
    ensures
        result == strategy_of(value),
{
    match value {
        0 => Ok(StrategyId::CpuLayerStreaming),
        1 => Ok(StrategyId::GpuLayerOffload),
        _ => Err(PlanPersistenceError::InvalidEnum { field: "execution strategy", value }),
    }
}

pub open spec fn preference_tag(preference: GpuPreference) -> u8 {
    match preference {
        GpuPreference::Disabled => 0,
        GpuPreference::Prefer => 1,
        GpuPreference::Require => 2,
    }
}

pub open spec fn preference_of(tag: u8) -> Result<GpuPreference, PlanPersistenceError> {
    if tag == 0 {
        Ok(GpuPreference::Disabled)
    } else if tag == 1 {
        Ok(GpuPreference::Prefer)
    } else if tag == 2 {
        Ok(GpuPreference::Require)
    } else {
        Err(PlanPersistenceError::InvalidEnum { field: "GPU preference", value: tag })
    }
}

fn encode_gpu_preference(value: GpuPreference) -> (tag: u8)
    ensures
        tag == preference_tag(value),
{
    match value {
        GpuPreference::Disabled => 0,
        GpuPreference::Prefer => 1,
        GpuPreference::Require => 2,
    }
}

fn decode_gpu_preference(value: u8) -> (result: Result<GpuPreference, PlanPersistenceError>)
    ensures
        result == preference_of(value),
{
    match value {
        0 => Ok(GpuPreference::Disabled),
        1 => Ok(GpuPreference::Prefer),
        2 => Ok(GpuPreference::Require),
        _ => Err(PlanPersistenceError::InvalidEnum { field: "GPU preference", value }),
    }
}

pub open spec fn reason_tag(reason: PlanReasonCode) -> u8 {
    match reason {
        PlanReasonCode::UserRamBudgetPreserved => 0,
        PlanReasonCode::ThreadCountSelectedByPreset => 1,
        PlanReasonCode::ThreadCountSelectedByAdvancedOverride => 2,
        PlanReasonCode::CpuStrategySelected => 3,
        PlanReasonCode::GpuStrategySelected => 4,
        PlanReasonCode::GpuDisabledByUser => 5,
        PlanReasonCode::GpuUnavailable => 6,
        PlanReasonCode::LayerCacheEnabledWithinStaticCapacity => 7,
        PlanReasonCode::LayerCacheDisabledByPreset => 8,
        PlanReasonCode::LayerCacheDisabledBecauseNoCompleteLayerFits => 9,
        PlanReasonCode::ReadCoalescingEnabled => 10,
        PlanReasonCode::ReadCoalescingDisabled => 11,
        PlanReasonCode::GroupedReadBufferReuseEnabled => 12,
        PlanReasonCode::GroupedReadBufferReuseDisabled => 13,
        PlanReasonCode::CalibrationObservationsApplied => 14,
        PlanReasonCode::CalibrationNotRequested => 15,
        PlanReasonCode::CalibrationNotApplicable => 16,
    }
}

pub open spec fn reason_of(tag: u8) -> Result<PlanReasonCode, PlanPersistenceError> {
    if tag == 0 {
        Ok(PlanReasonCode::UserRamBudgetPreserved)
    } else if tag == 1 {
        Ok(PlanReasonCode::ThreadCountSelectedByPreset)
    } else if tag == 2 {
        Ok(PlanReasonCode::ThreadCountSelectedByAdvancedOverride)
    } else if tag == 3 {
        Ok(PlanReasonCode::CpuStrategySelected)
    } else if tag == 4 {
        Ok(PlanReasonCode::GpuStrategySelected)
    } else if tag == 5 {
        Ok(PlanReasonCode::GpuDisabledByUser)
    } else if tag == 6 {
        Ok(PlanReasonCode::GpuUnavailable)
    } else if tag == 7 {
        Ok(PlanReasonCode::LayerCacheEnabledWithinStaticCapacity)
    } else if tag == 8 {
        Ok(PlanReasonCode::LayerCacheDisabledByPreset)
    } else if tag == 9 {
        Ok(PlanReasonCode::LayerCacheDisabledBecauseNoCompleteLayerFits)
    } else if tag == 10 {
        Ok(PlanReasonCode::ReadCoalescingEnabled)
    } else if tag == 11 {
        Ok(PlanReasonCode::ReadCoalescingDisabled)
    } else if tag == 12 {
        Ok(PlanReasonCode::GroupedReadBufferReuseEnabled)
    } else if tag == 13 {
        Ok(PlanReasonCode::GroupedReadBufferReuseDisabled)
    } else if tag == 14 {
        Ok(PlanReasonCode::CalibrationObservationsApplied)
    } else if tag == 15 {
        Ok(PlanReasonCode::CalibrationNotRequested)
    } else if tag == 16 {
        Ok(PlanReasonCode::CalibrationNotApplicable)
    } else {
        Err(PlanPersistenceError::InvalidEnum { field: "plan reason code", value: tag })
    }
}

fn encode_reason(value: PlanReasonCode) -> (tag: u8)
    ensures
        tag == reason_tag(value),
{
    match value {
        PlanReasonCode::UserRamBudgetPreserved => 0,
        PlanReasonCode::ThreadCountSelectedByPreset => 1,
        PlanReasonCode::ThreadCountSelectedByAdvancedOverride => 2,
        PlanReasonCode::CpuStrategySelected => 3,
        PlanReasonCode::GpuStrategySelected => 4,
        PlanReasonCode::GpuDisabledByUser => 5,
        PlanReasonCode::GpuUnavailable => 6,
        PlanReasonCode::LayerCacheEnabledWithinStaticCapacity => 7,
        PlanReasonCode::LayerCacheDisabledByPreset => 8,
        PlanReasonCode::LayerCacheDisabledBecauseNoCompleteLayerFits => 9,
        PlanReasonCode::ReadCoalescingEnabled => 10,
        PlanReasonCode::ReadCoalescingDisabled => 11,
        PlanReasonCode::GroupedReadBufferReuseEnabled => 12,
        PlanReasonCode::GroupedReadBufferReuseDisabled => 13,
        PlanReasonCode::CalibrationObservationsApplied => 14,
        PlanReasonCode::CalibrationNotRequested => 15,
        PlanReasonCode::CalibrationNotApplicable => 16,
    }
}

fn decode_reason(value: u8) -> (result: Result<PlanReasonCode, PlanPersistenceError>)
    ensures
        result == reason_of(value),
{
    match value {
        0 => Ok(PlanReasonCode::UserRamBudgetPreserved),
        1 => Ok(PlanReasonCode::ThreadCountSelectedByPreset),
        2 => Ok(PlanReasonCode::ThreadCountSelectedByAdvancedOverride),
        3 => Ok(PlanReasonCode::CpuStrategySelected),
        4 => Ok(PlanReasonCode::GpuStrategySelected),
        5 => Ok(PlanReasonCode::GpuDisabledByUser),
        6 => Ok(PlanReasonCode::GpuUnavailable),
        7 => Ok(PlanReasonCode::LayerCacheEnabledWithinStaticCapacity),
        8 => Ok(PlanReasonCode::LayerCacheDisabledByPreset),
        9 => Ok(PlanReasonCode::LayerCacheDisabledBecauseNoCompleteLayerFits),
        10 => Ok(PlanReasonCode::ReadCoalescingEnabled),
        11 => Ok(PlanReasonCode::ReadCoalescingDisabled),
        12 => Ok(PlanReasonCode::GroupedReadBufferReuseEnabled),
        13 => Ok(PlanReasonCode::GroupedReadBufferReuseDisabled),
        14 => Ok(PlanReasonCode::CalibrationObservationsApplied),
        15 => Ok(PlanReasonCode::CalibrationNotRequested),
        16 => Ok(PlanReasonCode::CalibrationNotApplicable),
        _ => Err(PlanPersistenceError::InvalidEnum { field: "plan reason code", value }),
    }
}

/// Every enumeration reads back from its tag, and a tag that reads is the tag of
/// what it reads as.
pub proof fn lemma_tags()
    ensures
        forall|mode: OperatingMode|
            mode_of(#[trigger] mode_tag(mode)) == Ok::<OperatingMode, PlanPersistenceError>(mode),
        forall|tag: u8| (#[trigger] mode_of(tag)) matches Ok(mode) ==> mode_tag(mode) == tag,
        forall|strategy: StrategyId|
            strategy_of(#[trigger] strategy_tag(strategy)) == Ok::<
                StrategyId,
                PlanPersistenceError,
            >(strategy),
        forall|tag: u8|
            (#[trigger] strategy_of(tag)) matches Ok(strategy) ==> strategy_tag(strategy) == tag,
        forall|preference: GpuPreference|
            preference_of(#[trigger] preference_tag(preference)) == Ok::<
                GpuPreference,
                PlanPersistenceError,
            >(preference),
        forall|tag: u8|
            (#[trigger] preference_of(tag)) matches Ok(preference) ==> preference_tag(preference)
                == tag,
        forall|reason: PlanReasonCode|
            reason_of(#[trigger] reason_tag(reason)) == Ok::<PlanReasonCode, PlanPersistenceError>(
                reason,
            ),
        forall|tag: u8| (#[trigger] reason_of(tag)) matches Ok(reason) ==> reason_tag(reason) == tag,
{
}

// ---------------------------------------------------------------------------
// Format
// ---------------------------------------------------------------------------
pub open spec fn magic() -> Seq<u8> {
    seq![0x52u8, 0x41, 0x4d, 0x46, 0x50, 0x4c, 0x4e, 0x00]
}

/// Which plan this is: versions and fingerprints.
pub struct Identity {
    pub execution_schema_version: u32,
    pub planner_ruleset_version: u32,
    pub model: u64,
    pub machine: u64,
    pub storage: u64,
}

#[verifier::opaque]
pub open spec fn identity_bytes(identity: Identity) -> Seq<u8> {
    plan_codec::u32_bytes(identity.execution_schema_version) + plan_codec::u32_bytes(
        identity.planner_ruleset_version,
    ) + plan_codec::u64_bytes(identity.model) + plan_codec::u64_bytes(identity.machine)
        + plan_codec::u64_bytes(identity.storage)
}

#[verifier::opaque]
pub open spec fn get_identity(bytes: Seq<u8>, at: int) -> Result<
    (Identity, int),
    PlanPersistenceError,
> {
    match plan_codec::get_u32(bytes, at, "execution schema version") {
        Err(error) => Err(error),
        Ok((execution_schema_version, at)) => match plan_codec::get_u32(
            bytes,
            at,
            "planner ruleset version",
        ) {
            Err(error) => Err(error),
            Ok((planner_ruleset_version, at)) => match plan_codec::get_u64(
                bytes,
                at,
                "model fingerprint",
            ) {
                Err(error) => Err(error),
                Ok((model, at)) => match plan_codec::get_u64(
                    bytes,
                    at,
                    "source machine fingerprint",
                ) {
                    Err(error) => Err(error),
                    Ok((machine, at)) => match plan_codec::get_u64(
                        bytes,
                        at,
                        "source storage fingerprint",
                    ) {
                        Err(error) => Err(error),
                        Ok((storage, at)) => Ok(
                            (
                                Identity {
                                    execution_schema_version,
                                    planner_ruleset_version,
                                    model,
                                    machine,
                                    storage,
                                },
                                at,
                            ),
                        ),
                    },
                },
            },
        },
    }
}

/// A section that was written reads back and ends behind it.
proof fn lemma_identity(bytes: Seq<u8>, at: int, identity: Identity)
    requires
        0 <= at <= bytes.len(),
    ensures
        identity_bytes(identity).len() == 32,
        plan_codec::holds(bytes, at, identity_bytes(identity)) <==> get_identity(bytes, at) == Ok::<
            (Identity, int),
            PlanPersistenceError,
        >((identity, at + 32)),
        get_identity(bytes, at) matches Ok((_, end)) ==> end == at + 32 && end <= bytes.len(),
{
    broadcast use plan_codec::lemma_holds_concat;
    broadcast use plan_codec::lemma_u32_length;
    broadcast use plan_codec::lemma_u64_length;

    reveal(identity_bytes);
    reveal(get_identity);
    plan_codec::lemma_u32(
        bytes,
        at,
        "execution schema version",
        identity.execution_schema_version,
    );
    if at + 4 <= bytes.len() {
        plan_codec::lemma_u32(
            bytes,
            at + 4,
            "planner ruleset version",
            identity.planner_ruleset_version,
        );
    }
    if at + 8 <= bytes.len() {
        plan_codec::lemma_u64(bytes, at + 8, "model fingerprint", identity.model);
    }
    if at + 16 <= bytes.len() {
        plan_codec::lemma_u64(bytes, at + 16, "source machine fingerprint", identity.machine);
    }
    if at + 24 <= bytes.len() {
        plan_codec::lemma_u64(bytes, at + 24, "source storage fingerprint", identity.storage);
    }
}

/// What was chosen: mode, strategy, memory and threads.
pub struct Choices {
    pub mode: OperatingMode,
    pub strategy: StrategyId,
    pub ram_budget_bytes: u64,
    pub cpu_thread_count: usize,
}

#[verifier::opaque]
pub open spec fn choices_bytes(choices: Choices) -> Seq<u8> {
    seq![mode_tag(choices.mode)] + seq![strategy_tag(choices.strategy)] + plan_codec::u64_bytes(
        choices.ram_budget_bytes,
    ) + plan_codec::u64_bytes(choices.cpu_thread_count as u64)
}

pub open spec fn get_mode(bytes: Seq<u8>, at: int) -> Result<
    (OperatingMode, int),
    PlanPersistenceError,
> {
    match plan_codec::get_u8(bytes, at, "operating mode") {
        Err(error) => Err(error),
        Ok((tag, next)) => match mode_of(tag) {
            Err(error) => Err(error),
            Ok(mode) => Ok((mode, next)),
        },
    }
}

pub open spec fn get_strategy(bytes: Seq<u8>, at: int) -> Result<
    (StrategyId, int),
    PlanPersistenceError,
> {
    match plan_codec::get_u8(bytes, at, "execution strategy") {
        Err(error) => Err(error),
        Ok((tag, next)) => match strategy_of(tag) {
            Err(error) => Err(error),
            Ok(strategy) => Ok((strategy, next)),
        },
    }
}

pub open spec fn get_thread_count(bytes: Seq<u8>, at: int) -> Result<
    (usize, int),
    PlanPersistenceError,
> {
    match plan_codec::get_u64(bytes, at, "CPU thread count") {
        Err(error) => Err(error),
        Ok((count, next)) => if count > usize::MAX {
            Err(PlanPersistenceError::NumericOverflow { field: "CPU thread count" })
        } else {
            Ok((count as usize, next))
        },
    }
}

#[verifier::opaque]
pub open spec fn get_choices(bytes: Seq<u8>, at: int) -> Result<
    (Choices, int),
    PlanPersistenceError,
> {
    match get_mode(bytes, at) {
        Err(error) => Err(error),
        Ok((mode, at)) => {
            match get_strategy(bytes, at) {
                Err(error) => Err(error),
                Ok((strategy, at)) => {
                    match plan_codec::get_u64(bytes, at, "RAM budget") {
                        Err(error) => Err(error),
                        Ok((ram_budget_bytes, at)) => {
                            match get_thread_count(bytes, at) {
                                Err(error) => Err(error),
                                Ok((cpu_thread_count, at)) => {
                                    Ok((Choices { mode, strategy, ram_budget_bytes, cpu_thread_count }, at))
                                },
                            }
                        },
                    }
                },
            }
        },
    }
}

proof fn lemma_choices(bytes: Seq<u8>, at: int, choices: Choices)
    requires
        0 <= at <= bytes.len(),
    ensures
        choices_bytes(choices).len() == 18,
        plan_codec::holds(bytes, at, choices_bytes(choices)) <==> get_choices(bytes, at) == Ok::<
            (Choices, int),
            PlanPersistenceError,
        >((choices, at + 18)),
        get_choices(bytes, at) matches Ok((_, end)) ==> end == at + 18 && end <= bytes.len(),
{
    broadcast use plan_codec::lemma_holds_concat;
    broadcast use plan_codec::lemma_u64_length;

    reveal(choices_bytes);
    reveal(get_choices);
    lemma_tags();
    plan_codec::lemma_u8(bytes, at, "operating mode", mode_tag(choices.mode));
    if at + 1 <= bytes.len() {
        plan_codec::lemma_u8(
            bytes,
            at + 1,
            "execution strategy",
            strategy_tag(choices.strategy),
        );
    }
    if at + 2 <= bytes.len() {
        plan_codec::lemma_u64(bytes, at + 2, "RAM budget", choices.ram_budget_bytes);
    }
    if at + 10 <= bytes.len() {
        plan_codec::lemma_u64(
            bytes,
            at + 10,
            "CPU thread count",
            choices.cpu_thread_count as u64,
        );
    }
}

/// How layers are cached and read.
pub struct Streaming {
    pub layer_cache: LayerCacheDecision,
    pub io: IoDecision,
}

#[verifier::opaque]
pub open spec fn streaming_bytes(streaming: Streaming) -> Seq<u8> {
    plan_codec::flag_bytes(streaming.layer_cache.enabled) + plan_codec::u64_bytes(
        streaming.layer_cache.capacity_bytes,
    ) + plan_codec::flag_bytes(streaming.io.read_coalescing_enabled) + plan_codec::flag_bytes(
        streaming.io.grouped_read_buffer_reuse_enabled,
    )
}

#[verifier::opaque]
pub open spec fn get_streaming(bytes: Seq<u8>, at: int) -> Result<
    (Streaming, int),
    PlanPersistenceError,
> {
    match plan_codec::get_flag(bytes, at, "layer cache enabled") {
        Err(error) => Err(error),
        Ok((enabled, at)) => {
            match plan_codec::get_u64(bytes, at, "layer cache capacity") {
                Err(error) => Err(error),
                Ok((capacity_bytes, at)) => {
                    match plan_codec::get_flag(bytes, at, "read coalescing enabled") {
                        Err(error) => Err(error),
                        Ok((read_coalescing_enabled, at)) => {
                            match plan_codec::get_flag(bytes, at, "grouped read buffer reuse enabled") {
                                Err(error) => Err(error),
                                Ok((grouped_read_buffer_reuse_enabled, at)) => {
                                    Ok(
                                        (
                                            Streaming {
                                                layer_cache: LayerCacheDecision { enabled, capacity_bytes },
                                                io: IoDecision {
                                                    read_coalescing_enabled,
                                                    grouped_read_buffer_reuse_enabled,
                                                },
                                            },
                                            at,
                                        ),
                                    )
                                },
                            }
                        },
                    }
                },
            }
        },
    }
}

proof fn lemma_streaming(bytes: Seq<u8>, at: int, streaming: Streaming)
    requires
        0 <= at <= bytes.len(),
    ensures
        streaming_bytes(streaming).len() == 11,
        plan_codec::holds(bytes, at, streaming_bytes(streaming)) <==> get_streaming(bytes, at)
            == Ok::<(Streaming, int), PlanPersistenceError>((streaming, at + 11)),
        get_streaming(bytes, at) matches Ok((_, end)) ==> end == at + 11 && end <= bytes.len(),
{
    broadcast use plan_codec::lemma_holds_concat;
    broadcast use plan_codec::lemma_u64_length;

    reveal(streaming_bytes);
    reveal(get_streaming);
    plan_codec::lemma_flag(bytes, at, "layer cache enabled", streaming.layer_cache.enabled);
    if at + 1 <= bytes.len() {
        plan_codec::lemma_u64(
            bytes,
            at + 1,
            "layer cache capacity",
            streaming.layer_cache.capacity_bytes,
        );
    }
    if at + 9 <= bytes.len() {
        plan_codec::lemma_flag(
            bytes,
            at + 9,
            "read coalescing enabled",
            streaming.io.read_coalescing_enabled,
        );
    }
    if at + 10 <= bytes.len() {
        plan_codec::lemma_flag(
            bytes,
            at + 10,
            "grouped read buffer reuse enabled",
            streaming.io.grouped_read_buffer_reuse_enabled,
        );
    }
}

#[verifier::opaque]
pub open spec fn gpu_bytes(gpu: planner::GpuDecisionFacts) -> Seq<u8> {
    seq![preference_tag(gpu.preference)] + plan_codec::flag_bytes(gpu.enabled)
        + plan_codec::optional_string_bytes(gpu.selected_device_id)
}

pub open spec fn get_preference(bytes: Seq<u8>, at: int) -> Result<
    (GpuPreference, int),
    PlanPersistenceError,
> {
    match plan_codec::get_u8(bytes, at, "GPU preference") {
        Err(error) => Err(error),
        Ok((tag, next)) => match preference_of(tag) {
            Err(error) => Err(error),
            Ok(preference) => Ok((preference, next)),
        },
    }
}

#[verifier::opaque]
pub open spec fn get_gpu(bytes: Seq<u8>, at: int) -> Result<
    (planner::GpuDecisionFacts, int),
    PlanPersistenceError,
> {
    match get_preference(bytes, at) {
        Err(error) => Err(error),
        Ok((preference, at)) => {
            match plan_codec::get_flag(bytes, at, "GPU enabled") {
                Err(error) => Err(error),
                Ok((enabled, at)) => {
                    match plan_codec::get_optional_string(bytes, at, "GPU device identifier") {
                        Err(error) => Err(error),
                        Ok((selected_device_id, at)) => {
                            Ok((planner::GpuDecisionFacts { preference, enabled, selected_device_id }, at))
                        },
                    }
                },
            }
        },
    }
}

/// The device identifier, where there is one, fits the format.
pub open spec fn gpu_fits(gpu: planner::GpuDecisionFacts) -> bool {
    optional_fits(gpu.selected_device_id)
}

proof fn lemma_gpu(bytes: Seq<u8>, at: int, gpu: planner::GpuDecisionFacts)
    requires
        0 <= at <= bytes.len(),
    ensures
        gpu_fits(gpu) && plan_codec::holds(bytes, at, gpu_bytes(gpu)) <==> get_gpu(bytes, at)
            == Ok::<(planner::GpuDecisionFacts, int), PlanPersistenceError>(
            (gpu, at + gpu_bytes(gpu).len()),
        ),
        get_gpu(bytes, at) matches Ok((found, end)) ==> end == at + gpu_bytes(found).len() && end
            <= bytes.len(),
{
    broadcast use plan_codec::lemma_holds_concat;

    reveal(gpu_bytes);
    reveal(get_gpu);
    lemma_tags();
    plan_codec::lemma_u8(bytes, at, "GPU preference", preference_tag(gpu.preference));
    if at + 1 <= bytes.len() {
        plan_codec::lemma_flag(bytes, at + 1, "GPU enabled", gpu.enabled);
    }
    if at + 2 <= bytes.len() {
        plan_codec::lemma_optional_string(
            bytes,
            at + 2,
            "GPU device identifier",
            gpu.selected_device_id,
        );
        plan_codec::lemma_read_ends(bytes, at + 2, "GPU device identifier");
    }
}

#[verifier::opaque]
pub open spec fn reservations_bytes(reserved: ResourceReservations) -> Seq<u8> {
    plan_codec::u64_bytes(reserved.available_ram_bytes_at_planning) + plan_codec::u64_bytes(
        reserved.persistent_resident_bytes,
    ) + plan_codec::u64_bytes(reserved.persistent_startup_peak_bytes) + plan_codec::u64_bytes(
        reserved.largest_layer_load_peak_bytes,
    ) + plan_codec::u64_bytes(reserved.managed_lower_bound_bytes) + plan_codec::u64_bytes(
        reserved.remaining_budget_after_lower_bound_bytes,
    )
}

#[verifier::opaque]
pub open spec fn get_reservations(bytes: Seq<u8>, at: int) -> Result<
    (ResourceReservations, int),
    PlanPersistenceError,
> {
    match plan_codec::get_u64(bytes, at, "available RAM at planning") {
        Err(error) => Err(error),
        Ok((available_ram_bytes_at_planning, at)) => {
            match plan_codec::get_u64(bytes, at, "persistent resident bytes") {
                Err(error) => Err(error),
                Ok((persistent_resident_bytes, at)) => {
                    match plan_codec::get_u64(bytes, at, "persistent startup peak bytes") {
                        Err(error) => Err(error),
                        Ok((persistent_startup_peak_bytes, at)) => {
                            match plan_codec::get_u64(bytes, at, "largest layer load peak bytes") {
                                Err(error) => Err(error),
                                Ok((largest_layer_load_peak_bytes, at)) => {
                                    match plan_codec::get_u64(bytes, at, "managed-memory lower bound") {
                                        Err(error) => Err(error),
                                        Ok((managed_lower_bound_bytes, at)) => {
                                            match plan_codec::get_u64(bytes, at, "remaining budget after lower bound") {
                                                Err(error) => Err(error),
                                                Ok((remaining_budget_after_lower_bound_bytes, at)) => {
                                                    Ok(
                                                        (
                                                            ResourceReservations {
                                                                available_ram_bytes_at_planning,
                                                                persistent_resident_bytes,
                                                                persistent_startup_peak_bytes,
                                                                largest_layer_load_peak_bytes,
                                                                managed_lower_bound_bytes,
                                                                remaining_budget_after_lower_bound_bytes,
                                                            },
                                                            at,
                                                        ),
                                                    )
                                                },
                                            }
                                        },
                                    }
                                },
                            }
                        },
                    }
                },
            }
        },
    }
}

proof fn lemma_reservations(bytes: Seq<u8>, at: int, reserved: ResourceReservations)
    requires
        0 <= at <= bytes.len(),
    ensures
        reservations_bytes(reserved).len() == 48,
        plan_codec::holds(bytes, at, reservations_bytes(reserved)) <==> get_reservations(bytes, at)
            == Ok::<(ResourceReservations, int), PlanPersistenceError>((reserved, at + 48)),
        get_reservations(bytes, at) matches Ok((_, end)) ==> end == at + 48 && end <= bytes.len(),
{
    broadcast use plan_codec::lemma_holds_concat;
    broadcast use plan_codec::lemma_u64_length;

    reveal(reservations_bytes);
    reveal(get_reservations);
    plan_codec::lemma_u64(bytes, at, "available RAM at planning", reserved.available_ram_bytes_at_planning);
    if at + 8 <= bytes.len() {
        plan_codec::lemma_u64(bytes, at + 8, "persistent resident bytes", reserved.persistent_resident_bytes);
    }
    if at + 16 <= bytes.len() {
        plan_codec::lemma_u64(bytes, at + 16, "persistent startup peak bytes", reserved.persistent_startup_peak_bytes);
    }
    if at + 24 <= bytes.len() {
        plan_codec::lemma_u64(bytes, at + 24, "largest layer load peak bytes", reserved.largest_layer_load_peak_bytes);
    }
    if at + 32 <= bytes.len() {
        plan_codec::lemma_u64(bytes, at + 32, "managed-memory lower bound", reserved.managed_lower_bound_bytes);
    }
    if at + 40 <= bytes.len() {
        plan_codec::lemma_u64(bytes, at + 40, "remaining budget after lower bound", reserved.remaining_budget_after_lower_bound_bytes);
    }
}

#[verifier::opaque]
pub open spec fn cost_bytes(cost: CostEstimate) -> Seq<u8> {
    plan_codec::u64_bytes(cost.physical_read_bytes_per_forward) + plan_codec::optional_u64_bytes(
        cost.calibrated_read_time_ns_per_forward,
    ) + plan_codec::optional_u64_bytes(cost.observed_strategy_latency_ns)
}

#[verifier::opaque]
pub open spec fn get_cost(bytes: Seq<u8>, at: int) -> Result<
    (CostEstimate, int),
    PlanPersistenceError,
> {
    match plan_codec::get_u64(bytes, at, "physical read bytes per forward") {
        Err(error) => Err(error),
        Ok((physical_read_bytes_per_forward, at)) => {
            match plan_codec::get_optional_u64(bytes, at, "calibrated read time") {
                Err(error) => Err(error),
                Ok((calibrated_read_time_ns_per_forward, at)) => {
                    match plan_codec::get_optional_u64(bytes, at, "observed strategy latency") {
                        Err(error) => Err(error),
                        Ok((observed_strategy_latency_ns, at)) => {
                            Ok(
                                (
                                    CostEstimate {
                                        physical_read_bytes_per_forward,
                                        calibrated_read_time_ns_per_forward,
                                        observed_strategy_latency_ns,
                                    },
                                    at,
                                ),
                            )
                        },
                    }
                },
            }
        },
    }
}

proof fn lemma_cost(bytes: Seq<u8>, at: int, cost: CostEstimate)
    requires
        0 <= at <= bytes.len(),
    ensures
        plan_codec::holds(bytes, at, cost_bytes(cost)) <==> get_cost(bytes, at) == Ok::<
            (CostEstimate, int),
            PlanPersistenceError,
        >((cost, at + cost_bytes(cost).len())),
        get_cost(bytes, at) matches Ok((found, end)) ==> end == at + cost_bytes(found).len()
            && end <= bytes.len(),
{
    broadcast use plan_codec::lemma_holds_concat;
    broadcast use plan_codec::lemma_u64_length;

    reveal(cost_bytes);
    reveal(get_cost);
    plan_codec::lemma_u64(
        bytes,
        at,
        "physical read bytes per forward",
        cost.physical_read_bytes_per_forward,
    );
    if at + 8 <= bytes.len() {
        plan_codec::lemma_optional_u64(
            bytes,
            at + 8,
            "calibrated read time",
            cost.calibrated_read_time_ns_per_forward,
        );
        let middle = at + 8 + plan_codec::optional_u64_bytes(
            cost.calibrated_read_time_ns_per_forward,
        ).len();
        if middle <= bytes.len() {
            plan_codec::lemma_optional_u64(
                bytes,
                middle,
                "observed strategy latency",
                cost.observed_strategy_latency_ns,
            );
        }
    }
}

/// Where the calibration came from: its identifier and that of its plan.
pub open spec fn source_bytes(identifier: Option<Seq<char>>, plan: Option<Seq<char>>) -> Seq<u8> {
    plan_codec::optional_string_bytes(identifier) + plan_codec::optional_string_bytes(plan)
}

#[verifier::opaque]
pub open spec fn get_source(bytes: Seq<u8>, at: int) -> Result<
    ((Option<Seq<char>>, Option<Seq<char>>), int),
    PlanPersistenceError,
> {
    match plan_codec::get_optional_string(bytes, at, "calibration identifier") {
        Err(error) => Err(error),
        Ok((identifier, at)) => {
            match plan_codec::get_optional_string(bytes, at, "calibration plan identifier") {
                Err(error) => Err(error),
                Ok((plan, at)) => {
                    Ok(((identifier, plan), at))
                },
            }
        },
    }
}

pub open spec fn optional_fits(value: Option<Seq<char>>) -> bool {
    value is Some ==> plan_codec::string_fits(value->0)
}

proof fn lemma_source(
    bytes: Seq<u8>,
    at: int,
    identifier: Option<Seq<char>>,
    plan: Option<Seq<char>>,
)
    requires
        0 <= at <= bytes.len(),
    ensures
        optional_fits(identifier) && optional_fits(plan) && plan_codec::holds(
            bytes,
            at,
            source_bytes(identifier, plan),
        ) <==> get_source(bytes, at) == Ok::<
            ((Option<Seq<char>>, Option<Seq<char>>), int),
            PlanPersistenceError,
        >(((identifier, plan), at + source_bytes(identifier, plan).len())),
        get_source(bytes, at) matches Ok((found, end)) ==> end == at + source_bytes(
            found.0,
            found.1,
        ).len() && end <= bytes.len(),
{
    broadcast use plan_codec::lemma_holds_concat;

    reveal(get_source);
    plan_codec::lemma_optional_string(bytes, at, "calibration identifier", identifier);
    plan_codec::lemma_read_ends(bytes, at, "calibration identifier");
    let next = at + plan_codec::optional_string_bytes(identifier).len();
    if next <= bytes.len() {
        plan_codec::lemma_optional_string(bytes, next, "calibration plan identifier", plan);
    }
    if let Ok((_, found_next)) = plan_codec::get_optional_string(
        bytes,
        at,
        "calibration identifier",
    ) {
        plan_codec::lemma_optional_string(bytes, found_next, "calibration plan identifier", plan);
        plan_codec::lemma_read_ends(bytes, found_next, "calibration plan identifier");
    }
}

/// Which versions the calibration was made with.
pub open spec fn versions_bytes(plan: Option<u32>, ruleset: Option<u32>) -> Seq<u8> {
    plan_codec::optional_u32_bytes(plan) + plan_codec::optional_u32_bytes(ruleset)
}

#[verifier::opaque]
pub open spec fn get_versions(bytes: Seq<u8>, at: int) -> Result<
    ((Option<u32>, Option<u32>), int),
    PlanPersistenceError,
> {
    match plan_codec::get_optional_u32(bytes, at, "calibration plan version") {
        Err(error) => Err(error),
        Ok((plan, at)) => {
            match plan_codec::get_optional_u32(bytes, at, "calibration ruleset version") {
                Err(error) => Err(error),
                Ok((ruleset, at)) => {
                    Ok(((plan, ruleset), at))
                },
            }
        },
    }
}

proof fn lemma_versions(bytes: Seq<u8>, at: int, plan: Option<u32>, ruleset: Option<u32>)
    requires
        0 <= at <= bytes.len(),
    ensures
        plan_codec::holds(bytes, at, versions_bytes(plan, ruleset)) <==> get_versions(bytes, at)
            == Ok::<((Option<u32>, Option<u32>), int), PlanPersistenceError>(
            ((plan, ruleset), at + versions_bytes(plan, ruleset).len()),
        ),
        get_versions(bytes, at) matches Ok((found, end)) ==> end == at + versions_bytes(
            found.0,
            found.1,
        ).len() && end <= bytes.len(),
{
    broadcast use plan_codec::lemma_holds_concat;
    broadcast use plan_codec::lemma_u32_length;

    reveal(get_versions);
    plan_codec::lemma_optional_u32(bytes, at, "calibration plan version", plan);
    let next = at + plan_codec::optional_u32_bytes(plan).len();
    if next <= bytes.len() {
        plan_codec::lemma_optional_u32(bytes, next, "calibration ruleset version", ruleset);
    }
}

#[verifier::opaque]
pub open spec fn observed_bytes(identifiers: Seq<Seq<char>>) -> Seq<u8> {
    plan_codec::string_list_bytes(identifiers)
}

#[verifier::opaque]
pub open spec fn get_observed(bytes: Seq<u8>, at: int) -> Result<
    (Seq<Seq<char>>, int),
    PlanPersistenceError,
> {
    plan_codec::get_string_list(bytes, at, "calibration observation identifiers")
}

pub open spec fn observed_fit(identifiers: Seq<Seq<char>>) -> bool {
    identifiers.len() <= MAX_LIST_ITEMS && plan_codec::strings_fit(identifiers)
}

proof fn lemma_observed(bytes: Seq<u8>, at: int, identifiers: Seq<Seq<char>>)
    requires
        0 <= at <= bytes.len(),
    ensures
        observed_fit(identifiers) && plan_codec::holds(bytes, at, observed_bytes(identifiers))
            <==> get_observed(bytes, at) == Ok::<(Seq<Seq<char>>, int), PlanPersistenceError>(
            (identifiers, at + observed_bytes(identifiers).len()),
        ),
        get_observed(bytes, at) matches Ok((found, end)) ==> end == at + observed_bytes(
            found,
        ).len() && end <= bytes.len(),
{
    broadcast use plan_codec::lemma_u32_length;

    reveal(observed_bytes);
    reveal(get_observed);
    let field = "calibration observation identifiers";
    plan_codec::lemma_string_list(bytes, at, field, identifiers);
    if let Ok((found, end)) = plan_codec::get_string_list(bytes, at, field) {
        let (count, next) = plan_codec::get_count(bytes, at, field)->Ok_0;
        plan_codec::lemma_strings_end(bytes, next, count, field);
        lemma_strings_end_exact(bytes, next, count, field);
    }
}

proof fn lemma_strings_end_exact(bytes: Seq<u8>, at: int, count: nat, field: &'static str)
    requires
        0 <= at <= bytes.len(),
    ensures
        plan_codec::get_strings(bytes, at, count, field) matches Ok((found, end)) ==> end == at
            + plan_codec::strings_bytes(found).len(),
    decreases count,
{
    if count > 0 {
        lemma_strings_end_exact(bytes, at, (count - 1) as nat, field);
        plan_codec::lemma_strings_end(bytes, at, (count - 1) as nat, field);
        if let Ok((earlier, next)) = plan_codec::get_strings(bytes, at, (count - 1) as nat, field) {
            if let Ok((value, _)) = plan_codec::get_string(bytes, next, field) {
                plan_codec::lemma_string(bytes, next, field, value);
                assert(earlier.push(value).drop_last() =~= earlier);
            }
        }
    }
}

#[verifier::opaque]
pub open spec fn calibration_bytes(calibration: planner::ProvenanceFacts) -> Seq<u8> {
    source_bytes(calibration.calibration_identifier, calibration.calibration_plan_identifier)
        + versions_bytes(
        calibration.calibration_plan_version,
        calibration.calibration_ruleset_version,
    ) + observed_bytes(calibration.observation_identifiers)
}

#[verifier::opaque]
pub open spec fn get_calibration(bytes: Seq<u8>, at: int) -> Result<
    (planner::ProvenanceFacts, int),
    PlanPersistenceError,
> {
    match get_source(bytes, at) {
        Err(error) => Err(error),
        Ok((source, at)) => {
            match get_versions(bytes, at) {
                Err(error) => Err(error),
                Ok((versions, at)) => {
                    match get_observed(bytes, at) {
                        Err(error) => Err(error),
                        Ok((observed, at)) => {
                            Ok(
                                (
                                    planner::ProvenanceFacts {
                                        calibration_identifier: source.0,
                                        calibration_plan_identifier: source.1,
                                        calibration_plan_version: versions.0,
                                        calibration_ruleset_version: versions.1,
                                        observation_identifiers: observed,
                                    },
                                    at,
                                ),
                            )
                        },
                    }
                },
            }
        },
    }
}

/// The identifiers fit the format.
pub open spec fn calibration_fits(calibration: planner::ProvenanceFacts) -> bool {
    &&& optional_fits(calibration.calibration_identifier)
    &&& optional_fits(calibration.calibration_plan_identifier)
    &&& observed_fit(calibration.observation_identifiers)
}

proof fn lemma_calibration(bytes: Seq<u8>, at: int, calibration: planner::ProvenanceFacts)
    requires
        0 <= at <= bytes.len(),
    ensures
        calibration_fits(calibration) && plan_codec::holds(
            bytes,
            at,
            calibration_bytes(calibration),
        ) <==> get_calibration(bytes, at) == Ok::<
            (planner::ProvenanceFacts, int),
            PlanPersistenceError,
        >((calibration, at + calibration_bytes(calibration).len())),
        get_calibration(bytes, at) matches Ok((found, end)) ==> end == at + calibration_bytes(
            found,
        ).len() && end <= bytes.len(),
{
    broadcast use plan_codec::lemma_holds_concat;

    reveal(calibration_bytes);
    reveal(get_calibration);
    let source = source_bytes(
        calibration.calibration_identifier,
        calibration.calibration_plan_identifier,
    );
    let versions = versions_bytes(
        calibration.calibration_plan_version,
        calibration.calibration_ruleset_version,
    );
    lemma_source(
        bytes,
        at,
        calibration.calibration_identifier,
        calibration.calibration_plan_identifier,
    );
    if at + source.len() <= bytes.len() {
        lemma_versions(
            bytes,
            at + source.len(),
            calibration.calibration_plan_version,
            calibration.calibration_ruleset_version,
        );
    }
    if at + source.len() + versions.len() <= bytes.len() {
        lemma_observed(
            bytes,
            at + source.len() + versions.len(),
            calibration.observation_identifiers,
        );
    }
    if let Ok((found, next)) = get_source(bytes, at) {
        lemma_versions(
            bytes,
            next,
            calibration.calibration_plan_version,
            calibration.calibration_ruleset_version,
        );
        if let Ok((_, after)) = get_versions(bytes, next) {
            lemma_observed(bytes, after, calibration.observation_identifiers);
        }
    }
}

pub open spec fn reason_bytes(reason: PlanReason) -> Seq<u8> {
    seq![reason_tag(reason.code)] + plan_codec::optional_u64_bytes(reason.value)
}

pub open spec fn reasons_bytes(reasons: Seq<PlanReason>) -> Seq<u8>
    decreases reasons.len(),
{
    if reasons.len() == 0 {
        Seq::empty()
    } else {
        reasons_bytes(reasons.drop_last()) + reason_bytes(reasons.last())
    }
}

#[verifier::opaque]
pub open spec fn reason_list_bytes(reasons: Seq<PlanReason>) -> Seq<u8> {
    plan_codec::u32_bytes(reasons.len() as u32) + reasons_bytes(reasons)
}

pub open spec fn get_reason_code(bytes: Seq<u8>, at: int) -> Result<
    (PlanReasonCode, int),
    PlanPersistenceError,
> {
    match plan_codec::get_u8(bytes, at, "plan reason code") {
        Err(error) => Err(error),
        Ok((tag, next)) => match reason_of(tag) {
            Err(error) => Err(error),
            Ok(code) => Ok((code, next)),
        },
    }
}

pub open spec fn get_reason(bytes: Seq<u8>, at: int) -> Result<
    (PlanReason, int),
    PlanPersistenceError,
> {
    match get_reason_code(bytes, at) {
        Err(error) => Err(error),
        Ok((code, at)) => {
            match plan_codec::get_optional_u64(bytes, at, "plan reason value") {
                Err(error) => Err(error),
                Ok((value, at)) => {
                    Ok((PlanReason { code, value }, at))
                },
            }
        },
    }
}

pub open spec fn get_reasons(bytes: Seq<u8>, at: int, count: nat) -> Result<
    (Seq<PlanReason>, int),
    PlanPersistenceError,
>
    decreases count,
{
    if count == 0 {
        Ok((Seq::empty(), at))
    } else {
        match get_reasons(bytes, at, (count - 1) as nat) {
            Err(error) => Err(error),
            Ok((earlier, next)) => match get_reason(bytes, next) {
                Err(error) => Err(error),
                Ok((reason, end)) => Ok((earlier.push(reason), end)),
            },
        }
    }
}

#[verifier::opaque]
pub open spec fn get_reason_list(bytes: Seq<u8>, at: int) -> Result<
    (Seq<PlanReason>, int),
    PlanPersistenceError,
> {
    match plan_codec::get_count(bytes, at, "plan reasons") {
        Err(error) => Err(error),
        Ok((count, next)) => get_reasons(bytes, next, count),
    }
}

proof fn lemma_reason(bytes: Seq<u8>, at: int, reason: PlanReason)
    requires
        0 <= at <= bytes.len(),
    ensures
        plan_codec::holds(bytes, at, reason_bytes(reason)) <==> get_reason(bytes, at) == Ok::<
            (PlanReason, int),
            PlanPersistenceError,
        >((reason, at + reason_bytes(reason).len())),
        get_reason(bytes, at) matches Ok((found, end)) ==> end == at + reason_bytes(found).len()
            && end <= bytes.len(),
{
    broadcast use plan_codec::lemma_holds_concat;
    broadcast use plan_codec::lemma_u64_length;

    lemma_tags();
    plan_codec::lemma_u8(bytes, at, "plan reason code", reason_tag(reason.code));
    if at + 1 <= bytes.len() {
        plan_codec::lemma_optional_u64(bytes, at + 1, "plan reason value", reason.value);
    }
}

proof fn lemma_reasons_end(bytes: Seq<u8>, at: int, count: nat)
    requires
        0 <= at <= bytes.len(),
    ensures
        get_reasons(bytes, at, count) matches Ok((found, end)) ==> end == at + reasons_bytes(
            found,
        ).len() && at <= end <= bytes.len() && found.len() == count,
    decreases count,
{
    if count > 0 {
        lemma_reasons_end(bytes, at, (count - 1) as nat);
        if let Ok((earlier, next)) = get_reasons(bytes, at, (count - 1) as nat) {
            if let Ok((reason, _)) = get_reason(bytes, next) {
                lemma_reason(bytes, next, reason);
                assert(earlier.push(reason).drop_last() =~= earlier);
            }
        }
    }
}

proof fn lemma_reasons(bytes: Seq<u8>, at: int, reasons: Seq<PlanReason>)
    requires
        0 <= at <= bytes.len(),
    ensures
        plan_codec::holds(bytes, at, reasons_bytes(reasons)) <==> get_reasons(
            bytes,
            at,
            reasons.len(),
        ) == Ok::<(Seq<PlanReason>, int), PlanPersistenceError>(
            (reasons, at + reasons_bytes(reasons).len()),
        ),
    decreases reasons.len(),
{
    broadcast use plan_codec::lemma_holds_concat;

    if reasons.len() > 0 {
        let earlier = reasons.drop_last();
        let last = reasons.last();
        lemma_reasons(bytes, at, earlier);
        lemma_reasons_end(bytes, at, earlier.len());
        assert(earlier.push(last) =~= reasons);
        let next = at + reasons_bytes(earlier).len();
        if next <= bytes.len() {
            lemma_reason(bytes, next, last);
        }
        if get_reasons(bytes, at, reasons.len()) == Ok::<
            (Seq<PlanReason>, int),
            PlanPersistenceError,
        >((reasons, at + reasons_bytes(reasons).len())) {
            let (list, middle) = get_reasons(bytes, at, earlier.len())->Ok_0;
            let (reason, end) = get_reason(bytes, middle)->Ok_0;
            assert(list.push(reason).drop_last() =~= list);
            assert(list == earlier);
            assert(reason == last);
        }
    } else {
        assert(reasons =~= Seq::empty());
        assert(bytes.subrange(at, at) =~= Seq::empty());
    }
}

proof fn lemma_reason_list(bytes: Seq<u8>, at: int, reasons: Seq<PlanReason>)
    requires
        0 <= at <= bytes.len(),
    ensures
        reasons.len() <= MAX_LIST_ITEMS && plan_codec::holds(bytes, at, reason_list_bytes(reasons))
            <==> get_reason_list(bytes, at) == Ok::<
            (Seq<PlanReason>, int),
            PlanPersistenceError,
        >((reasons, at + reason_list_bytes(reasons).len())),
        get_reason_list(bytes, at) matches Ok((found, end)) ==> end == at + reason_list_bytes(
            found,
        ).len() && end <= bytes.len(),
{
    broadcast use plan_codec::lemma_holds_concat;
    broadcast use plan_codec::lemma_u32_length;

    reveal(reason_list_bytes);
    reveal(get_reason_list);
    plan_codec::lemma_u32(bytes, at, "plan reasons", reasons.len() as u32);
    if at + 4 <= bytes.len() {
        lemma_reasons(bytes, at + 4, reasons);
        if let Ok((stated, next)) = plan_codec::get_count(bytes, at, "plan reasons") {
            lemma_reasons_end(bytes, next, stated);
        }
    }
}

/// The first half of a plan: what it is for and what was decided.
#[verifier::ext_equal]
pub struct PlanHead {
    pub identity: Identity,
    pub choices: Choices,
    pub streaming: Streaming,
    pub gpu: planner::GpuDecisionFacts,
}

pub open spec fn head_bytes(head: PlanHead) -> Seq<u8> {
    identity_bytes(head.identity) + choices_bytes(head.choices) + streaming_bytes(head.streaming)
        + gpu_bytes(head.gpu)
}

pub open spec fn get_head(bytes: Seq<u8>, at: int) -> Result<(PlanHead, int), PlanPersistenceError> {
    match get_identity(bytes, at) {
        Err(error) => Err(error),
        Ok((identity, at)) => {
            match get_choices(bytes, at) {
                Err(error) => Err(error),
                Ok((choices, at)) => {
                    match get_streaming(bytes, at) {
                        Err(error) => Err(error),
                        Ok((streaming, at)) => {
                            match get_gpu(bytes, at) {
                                Err(error) => Err(error),
                                Ok((gpu, at)) => {
                                    Ok((PlanHead { identity, choices, streaming, gpu }, at))
                                },
                            }
                        },
                    }
                },
            }
        },
    }
}

proof fn lemma_head(bytes: Seq<u8>, at: int, head: PlanHead)
    requires
        0 <= at <= bytes.len(),
    ensures
        gpu_fits(head.gpu) && plan_codec::holds(bytes, at, head_bytes(head)) <==> get_head(
            bytes,
            at,
        ) == Ok::<(PlanHead, int), PlanPersistenceError>((head, at + head_bytes(head).len())),
        get_head(bytes, at) matches Ok((found, end)) ==> end == at + head_bytes(found).len() && at
            <= end <= bytes.len(),
{
    broadcast use plan_codec::lemma_holds_concat;

    lemma_identity(bytes, at, head.identity);
    if at + 32 <= bytes.len() {
        lemma_choices(bytes, at + 32, head.choices);
    }
    if at + 50 <= bytes.len() {
        lemma_streaming(bytes, at + 50, head.streaming);
    }
    if at + 61 <= bytes.len() {
        lemma_gpu(bytes, at + 61, head.gpu);
    }
    if let Ok((found, _)) = get_head(bytes, at) {
        lemma_identity(bytes, at, found.identity);
        lemma_choices(bytes, at + 32, found.choices);
        lemma_streaming(bytes, at + 50, found.streaming);
        lemma_gpu(bytes, at + 61, found.gpu);
    }
}

/// The second half of a plan: what it reserves, what it costs and why.
#[verifier::ext_equal]
pub struct PlanTail {
    pub reservations: ResourceReservations,
    pub cost: CostEstimate,
    pub calibration: planner::ProvenanceFacts,
    pub reasons: Seq<PlanReason>,
}

pub open spec fn tail_bytes(tail: PlanTail) -> Seq<u8> {
    reservations_bytes(tail.reservations) + cost_bytes(tail.cost) + calibration_bytes(
        tail.calibration,
    ) + reason_list_bytes(tail.reasons)
}

pub open spec fn get_tail(bytes: Seq<u8>, at: int) -> Result<(PlanTail, int), PlanPersistenceError> {
    match get_reservations(bytes, at) {
        Err(error) => Err(error),
        Ok((reservations, at)) => {
            match get_cost(bytes, at) {
                Err(error) => Err(error),
                Ok((cost, at)) => {
                    match get_calibration(bytes, at) {
                        Err(error) => Err(error),
                        Ok((calibration, at)) => {
                            match get_reason_list(bytes, at) {
                                Err(error) => Err(error),
                                Ok((reasons, at)) => {
                                    Ok((PlanTail { reservations, cost, calibration, reasons }, at))
                                },
                            }
                        },
                    }
                },
            }
        },
    }
}

pub open spec fn tail_fits(tail: PlanTail) -> bool {
    calibration_fits(tail.calibration) && tail.reasons.len() <= MAX_LIST_ITEMS
}

proof fn lemma_tail(bytes: Seq<u8>, at: int, tail: PlanTail)
    requires
        0 <= at <= bytes.len(),
    ensures
        tail_fits(tail) && plan_codec::holds(bytes, at, tail_bytes(tail)) <==> get_tail(bytes, at)
            == Ok::<(PlanTail, int), PlanPersistenceError>((tail, at + tail_bytes(tail).len())),
        get_tail(bytes, at) matches Ok((found, end)) ==> end == at + tail_bytes(found).len() && at
            <= end <= bytes.len(),
{
    broadcast use plan_codec::lemma_holds_concat;

    let after_cost = at + 48 + cost_bytes(tail.cost).len();
    let after_calibration = after_cost + calibration_bytes(tail.calibration).len();
    lemma_reservations(bytes, at, tail.reservations);
    if at + 48 <= bytes.len() {
        lemma_cost(bytes, at + 48, tail.cost);
    }
    if after_cost <= bytes.len() {
        lemma_calibration(bytes, after_cost, tail.calibration);
    }
    if after_calibration <= bytes.len() {
        lemma_reason_list(bytes, after_calibration, tail.reasons);
    }
    if let Ok((found, _)) = get_tail(bytes, at) {
        lemma_reservations(bytes, at, found.reservations);
        lemma_cost(bytes, at + 48, found.cost);
        let found_cost = at + 48 + cost_bytes(found.cost).len();
        lemma_calibration(bytes, found_cost, found.calibration);
        let found_calibration = found_cost + calibration_bytes(found.calibration).len();
        lemma_reason_list(bytes, found_calibration, found.reasons);
    }
}

// ---------------------------------------------------------------------------
// Structure
// ---------------------------------------------------------------------------
pub open spec fn invalid_plan<T>(field: &'static str) -> Result<T, PlanPersistenceError> {
    Err(PlanPersistenceError::InvalidPlan { field })
}

/// An identifier has content and fits the format.
pub open spec fn identifier_valid(identifier: Seq<char>) -> bool {
    identifier.len() > 0 && plan_codec::string_fits(identifier)
}

/// Observation identifiers are checked in order: each on its own, then that no
/// earlier one equals it.
pub open spec fn identifiers_check(identifiers: Seq<Seq<char>>) -> Result<(), PlanPersistenceError>
    decreases identifiers.len(),
{
    if identifiers.len() == 0 {
        Ok(())
    } else {
        let earlier = identifiers_check(identifiers.drop_last());
        if earlier is Err {
            earlier
        } else if !identifier_valid(identifiers.last()) {
            invalid_plan("invalid calibration observation identifier")
        } else if identifiers.drop_last().contains(identifiers.last()) {
            invalid_plan("duplicate calibration observation identifier")
        } else {
            Ok(())
        }
    }
}

/// A calibration names itself in full or not at all.
pub open spec fn provenance_check(calibration: planner::ProvenanceFacts) -> Result<
    (),
    PlanPersistenceError,
> {
    let identified = calibration.calibration_identifier is Some;
    let named = identified || calibration.calibration_plan_identifier is Some
        || calibration.calibration_plan_version is Some || calibration.calibration_ruleset_version
        is Some;
    let complete = identified && calibration.calibration_plan_identifier is Some
        && calibration.calibration_plan_version is Some && calibration.calibration_ruleset_version
        is Some;
    if named && !complete {
        invalid_plan("partial calibration provenance")
    } else if named && (!identifier_valid(calibration.calibration_identifier->0)
        || !identifier_valid(calibration.calibration_plan_identifier->0)
        || calibration.calibration_plan_version == Some(0u32)
        || calibration.calibration_ruleset_version == Some(0u32)) {
        invalid_plan("invalid calibration provenance")
    } else if !named && calibration.observation_identifiers.len() > 0 {
        invalid_plan("calibration observations without provenance")
    } else if calibration.observation_identifiers.len() > MAX_LIST_ITEMS {
        Err(
            PlanPersistenceError::LimitExceeded {
                field: "calibration observation count",
                value: calibration.observation_identifiers.len() as usize,
                maximum: MAX_LIST_ITEMS,
            },
        )
    } else {
        identifiers_check(calibration.observation_identifiers)
    }
}

/// The reason says what became of calibration.
pub open spec fn is_calibration_reason(code: PlanReasonCode) -> bool {
    code == PlanReasonCode::CalibrationObservationsApplied || code
        == PlanReasonCode::CalibrationNotRequested || code
        == PlanReasonCode::CalibrationNotApplicable
}

pub open spec fn reason_codes(reasons: Seq<PlanReason>) -> Seq<PlanReasonCode> {
    Seq::new(reasons.len(), |i: int| reasons[i].code)
}

/// The first reason that says what became of calibration.
pub open spec fn calibration_reason_of(reasons: Seq<PlanReason>) -> Option<PlanReasonCode>
    decreases reasons.len(),
{
    if reasons.len() == 0 {
        None
    } else {
        let earlier = calibration_reason_of(reasons.drop_last());
        if earlier is Some {
            earlier
        } else if is_calibration_reason(reasons.last().code) {
            Some(reasons.last().code)
        } else {
            None
        }
    }
}

/// No code occurs twice, and at most one says what became of calibration.
pub open spec fn codes_check(reasons: Seq<PlanReason>) -> Result<(), PlanPersistenceError>
    decreases reasons.len(),
{
    if reasons.len() == 0 {
        Ok(())
    } else {
        let earlier = reasons.drop_last();
        let last = reasons.last().code;
        if codes_check(earlier) is Err {
            codes_check(earlier)
        } else if reason_codes(earlier).contains(last) {
            invalid_plan("duplicate plan reason code")
        } else if is_calibration_reason(last) && calibration_reason_of(earlier) is Some {
            invalid_plan("multiple calibration reason codes")
        } else {
            Ok(())
        }
    }
}

/// The calibration reason agrees with the provenance.
pub open spec fn reason_agrees(
    code: PlanReasonCode,
    calibration: planner::ProvenanceFacts,
) -> bool {
    let identified = calibration.calibration_identifier is Some;
    let observed = calibration.observation_identifiers.len() > 0;
    if code == PlanReasonCode::CalibrationNotRequested {
        !identified && !observed
    } else if code == PlanReasonCode::CalibrationNotApplicable {
        !observed
    } else {
        identified && observed
    }
}

pub open spec fn reasons_check(
    reasons: Seq<PlanReason>,
    calibration: planner::ProvenanceFacts,
) -> Result<(), PlanPersistenceError> {
    if reasons.len() == 0 || reasons.len() > MAX_LIST_ITEMS {
        invalid_plan("missing or excessive plan reasons")
    } else if codes_check(reasons) is Err {
        codes_check(reasons)
    } else if calibration_reason_of(reasons) is None {
        invalid_plan("missing calibration reason code")
    } else if !reason_agrees(calibration_reason_of(reasons)->0, calibration) {
        invalid_plan("calibration reason/provenance mismatch")
    } else {
        Ok(())
    }
}

/// The plan that the persisted decisions stand for, bound to the given machine,
/// storage and path, with the given amount of available memory where it is known.
pub open spec fn materialized(
    facts: PersistedFacts,
    machine_fingerprint: u64,
    storage_fingerprint: u64,
    model_path: Seq<char>,
    available_ram_bytes: Option<u64>,
) -> planner::PlanFacts {
    planner::PlanFacts {
        schema_version: facts.execution_schema_version,
        ruleset_version: facts.planner_ruleset_version,
        binding: planner::BindingFacts {
            model_descriptor_fingerprint: facts.model_descriptor_fingerprint,
            machine_fingerprint,
            storage_fingerprint,
            model_path,
        },
        mode: facts.mode,
        strategy: facts.strategy,
        ram_budget_bytes: facts.ram_budget_bytes,
        cpu_thread_count: facts.cpu_thread_count,
        layer_cache: facts.layer_cache,
        io: facts.io,
        gpu: facts.gpu,
        reservations: ResourceReservations {
            available_ram_bytes_at_planning: match available_ram_bytes {
                Some(available) => available,
                None => facts.reservations.available_ram_bytes_at_planning,
            },
            ..facts.reservations
        },
        cost: facts.cost,
        calibration: facts.calibration,
        reasons: facts.reasons,
    }
}

/// The plan as it was bound when it was made; its path is not kept.
pub open spec fn source_plan(facts: PersistedFacts) -> planner::PlanFacts {
    materialized(
        facts,
        facts.source_machine_fingerprint,
        facts.source_storage_fingerprint,
        Seq::empty(),
        None,
    )
}

/// What a persisted plan must satisfy, whatever the environment.
pub open spec fn structure_check(facts: PersistedFacts) -> Result<(), PlanPersistenceError> {
    let reserved = facts.reservations;
    let remaining = facts.ram_budget_bytes - reserved.managed_lower_bound_bytes;
    if facts.persistence_schema_version != PERSISTED_EXECUTION_PLAN_SCHEMA_VERSION {
        Err(
            PlanPersistenceError::UnsupportedPersistenceSchema {
                found: facts.persistence_schema_version,
                supported: PERSISTED_EXECUTION_PLAN_SCHEMA_VERSION,
            },
        )
    } else if facts.execution_schema_version == 0 {
        invalid_plan("missing execution schema version")
    } else if facts.planner_ruleset_version == 0 {
        invalid_plan("missing planner ruleset version")
    } else if facts.model_descriptor_fingerprint == 0 || facts.source_machine_fingerprint == 0
        || facts.source_storage_fingerprint == 0 {
        invalid_plan("missing or invalid fingerprint")
    } else if reserved.available_ram_bytes_at_planning < facts.ram_budget_bytes {
        invalid_plan("available RAM at planning")
    } else if remaining < 0 {
        invalid_plan("managed-memory lower bound exceeds RAM budget")
    } else if reserved.remaining_budget_after_lower_bound_bytes != remaining {
        invalid_plan("remaining budget after lower bound")
    } else if facts.layer_cache.capacity_bytes > remaining {
        invalid_plan("layer-cache capacity exceeds remaining budget")
    } else if facts.gpu.selected_device_id == Some(Seq::<char>::empty()) {
        invalid_plan("empty GPU device identifier")
    } else if provenance_check(facts.calibration) is Err {
        provenance_check(facts.calibration)
    } else if reasons_check(facts.reasons, facts.calibration) is Err {
        reasons_check(facts.reasons, facts.calibration)
    } else {
        match plan_compiler::decisions_check(source_plan(facts)) {
            Ok(_) => Ok(()),
            Err(PlanCompilationError::UnsupportedGpuExecution) => Ok(()),
            Err(_) => invalid_plan("inconsistent concrete execution decisions"),
        }
    }
}

// ---------------------------------------------------------------------------
// Whole plans
// ---------------------------------------------------------------------------
pub open spec fn head_of(facts: PersistedFacts) -> PlanHead {
    PlanHead {
        identity: Identity {
            execution_schema_version: facts.execution_schema_version,
            planner_ruleset_version: facts.planner_ruleset_version,
            model: facts.model_descriptor_fingerprint,
            machine: facts.source_machine_fingerprint,
            storage: facts.source_storage_fingerprint,
        },
        choices: Choices {
            mode: facts.mode,
            strategy: facts.strategy,
            ram_budget_bytes: facts.ram_budget_bytes,
            cpu_thread_count: facts.cpu_thread_count,
        },
        streaming: Streaming { layer_cache: facts.layer_cache, io: facts.io },
        gpu: facts.gpu,
    }
}

pub open spec fn tail_of(facts: PersistedFacts) -> PlanTail {
    PlanTail {
        reservations: facts.reservations,
        cost: facts.cost,
        calibration: facts.calibration,
        reasons: facts.reasons,
    }
}

pub open spec fn joined(version: u32, head: PlanHead, tail: PlanTail) -> PersistedFacts {
    PersistedFacts {
        persistence_schema_version: version,
        execution_schema_version: head.identity.execution_schema_version,
        planner_ruleset_version: head.identity.planner_ruleset_version,
        model_descriptor_fingerprint: head.identity.model,
        source_machine_fingerprint: head.identity.machine,
        source_storage_fingerprint: head.identity.storage,
        mode: head.choices.mode,
        strategy: head.choices.strategy,
        ram_budget_bytes: head.choices.ram_budget_bytes,
        cpu_thread_count: head.choices.cpu_thread_count,
        layer_cache: head.streaming.layer_cache,
        io: head.streaming.io,
        gpu: head.gpu,
        reservations: tail.reservations,
        cost: tail.cost,
        calibration: tail.calibration,
        reasons: tail.reasons,
    }
}

/// The bytes of a plan: magic, schema version, decisions, evidence.
pub open spec fn plan_bytes(facts: PersistedFacts) -> Seq<u8> {
    magic() + plan_codec::u32_bytes(facts.persistence_schema_version) + head_bytes(head_of(facts))
        + tail_bytes(tail_of(facts))
}

pub open spec fn optional_check(field: &'static str, value: Option<Seq<char>>) -> Result<
    (),
    PlanPersistenceError,
> {
    match value {
        Some(content) => plan_codec::string_check(field, content),
        None => Ok(()),
    }
}

/// The error that a calibration is written with.
pub open spec fn calibration_check(calibration: planner::ProvenanceFacts) -> Result<
    (),
    PlanPersistenceError,
> {
    let first = optional_check("calibration identifier", calibration.calibration_identifier);
    let second = optional_check(
        "calibration plan identifier",
        calibration.calibration_plan_identifier,
    );
    if first is Err {
        first
    } else if second is Err {
        second
    } else {
        plan_codec::string_list_check(
            "calibration observation identifiers",
            calibration.observation_identifiers,
        )
    }
}

/// Writing a plan whose decisions may contradict each other: only the limits of
/// the format are kept.
pub open spec fn encoded_unchecked(facts: PersistedFacts) -> Result<
    Seq<u8>,
    PlanPersistenceError,
> {
    let device = optional_check("GPU device identifier", facts.gpu.selected_device_id);
    let calibration = calibration_check(facts.calibration);
    let reasons = plan_codec::count_check("plan reasons", facts.reasons.len());
    if device is Err {
        Err(device->Err_0)
    } else if calibration is Err {
        Err(calibration->Err_0)
    } else if reasons is Err {
        Err(reasons->Err_0)
    } else if plan_bytes(facts).len() > MAX_PERSISTED_PLAN_BYTES {
        Err(
            PlanPersistenceError::TooLarge {
                bytes: plan_bytes(facts).len() as usize,
                maximum: MAX_PERSISTED_PLAN_BYTES,
            },
        )
    } else {
        Ok(plan_bytes(facts))
    }
}

/// Writing a plan.
pub open spec fn encoded(facts: PersistedFacts) -> Result<Seq<u8>, PlanPersistenceError> {
    if structure_check(facts) is Err {
        Err(structure_check(facts)->Err_0)
    } else if !gpu_fits(facts.gpu) {
        Err(
            PlanPersistenceError::LimitExceeded {
                field: "GPU device identifier",
                value: vstd::utf8::encode_utf8(facts.gpu.selected_device_id->0).len() as usize,
                maximum: MAX_STRING_BYTES,
            },
        )
    } else if plan_bytes(facts).len() > MAX_PERSISTED_PLAN_BYTES {
        Err(
            PlanPersistenceError::TooLarge {
                bytes: plan_bytes(facts).len() as usize,
                maximum: MAX_PERSISTED_PLAN_BYTES,
            },
        )
    } else {
        Ok(plan_bytes(facts))
    }
}

/// The content behind the schema version, read to the end.
pub open spec fn get_content(bytes: Seq<u8>, at: int, version: u32) -> Result<
    PersistedFacts,
    PlanPersistenceError,
> {
    match get_head(bytes, at) {
        Err(error) => Err(error),
        Ok((head, at)) => match get_tail(bytes, at) {
            Err(error) => Err(error),
            Ok((tail, at)) => if at != bytes.len() {
                Err(PlanPersistenceError::TrailingBytes { bytes: (bytes.len() - at) as usize })
            } else {
                match structure_check(joined(version, head, tail)) {
                    Err(error) => Err(error),
                    Ok(_) => Ok(joined(version, head, tail)),
                }
            },
        },
    }
}

/// Reading a plan.
pub open spec fn decoded(bytes: Seq<u8>) -> Result<PersistedFacts, PlanPersistenceError> {
    if bytes.len() > MAX_PERSISTED_PLAN_BYTES {
        Err(
            PlanPersistenceError::TooLarge {
                bytes: bytes.len() as usize,
                maximum: MAX_PERSISTED_PLAN_BYTES,
            },
        )
    } else {
        match plan_codec::get_bytes(bytes, 0, 8, "magic") {
            Err(error) => Err(error),
            Ok((found, at)) => if found != magic() {
                Err(PlanPersistenceError::InvalidMagic)
            } else {
                match plan_codec::get_u32(bytes, at, "persistence schema version") {
                    Err(error) => Err(error),
                    Ok((version, at)) => if version != PERSISTED_EXECUTION_PLAN_SCHEMA_VERSION {
                        Err(
                            PlanPersistenceError::UnsupportedPersistenceSchema {
                                found: version,
                                supported: PERSISTED_EXECUTION_PLAN_SCHEMA_VERSION,
                            },
                        )
                    } else {
                        get_content(bytes, at, version)
                    },
                }
            },
        }
    }
}

/// Identifiers that pass the check fit the format.
proof fn lemma_identifiers_fit(identifiers: Seq<Seq<char>>)
    requires
        identifiers_check(identifiers) is Ok,
    ensures
        plan_codec::strings_fit(identifiers),
    decreases identifiers.len(),
{
    if identifiers.len() > 0 {
        lemma_identifiers_fit(identifiers.drop_last());
        assert forall|i: int| 0 <= i < identifiers.len() implies plan_codec::string_fits(
            #[trigger] identifiers[i],
        ) by {
            if i < identifiers.len() - 1 {
                assert(identifiers.drop_last()[i] == identifiers[i]);
            }
        }
    }
}

proof fn lemma_structure_fits(facts: PersistedFacts)
    requires
        structure_check(facts) is Ok,
    ensures
        tail_fits(tail_of(facts)),
{
    lemma_identifiers_fit(facts.calibration.observation_identifiers);
}

/// A plan whose decisions agree is written as such.
proof fn lemma_checked_encoding(facts: PersistedFacts)
    requires
        structure_check(facts) is Ok,
    ensures
        encoded_unchecked(facts) == encoded(facts),
{
    lemma_structure_fits(facts);
    plan_codec::lemma_strings_fit_check(
        "calibration observation identifiers",
        facts.calibration.observation_identifiers,
    );
}

/// Bytes that hold a plan's bytes at the front read as that plan up to its end.
proof fn lemma_read_front(bytes: Seq<u8>, facts: PersistedFacts)
    requires
        plan_codec::holds(bytes, 0, plan_bytes(facts)),
        gpu_fits(facts.gpu),
        tail_fits(tail_of(facts)),
    ensures
        plan_codec::get_bytes(bytes, 0, 8, "magic") == Ok::<(Seq<u8>, int), PlanPersistenceError>(
            (magic(), 8),
        ),
        plan_codec::get_u32(bytes, 8, "persistence schema version") == Ok::<
            (u32, int),
            PlanPersistenceError,
        >((facts.persistence_schema_version, 12)),
        get_head(bytes, 12) == Ok::<(PlanHead, int), PlanPersistenceError>(
            (head_of(facts), 12int + head_bytes(head_of(facts)).len()),
        ),
        get_tail(bytes, 12int + head_bytes(head_of(facts)).len()) == Ok::<
            (PlanTail, int),
            PlanPersistenceError,
        >((tail_of(facts), plan_bytes(facts).len() as int)),
{
    broadcast use plan_codec::lemma_holds_concat;
    broadcast use plan_codec::lemma_u32_length;

    assert(magic().len() == 8);
    plan_codec::lemma_u32(
        bytes,
        8,
        "persistence schema version",
        facts.persistence_schema_version,
    );
    lemma_head(bytes, 12, head_of(facts));
    lemma_tail(bytes, 12int + head_bytes(head_of(facts)).len(), tail_of(facts));
}

/// A plan that was written reads back as itself.
pub proof fn lemma_written_reads(facts: PersistedFacts)
    requires
        encoded(facts) is Ok,
    ensures
        decoded(encoded(facts)->Ok_0) == Ok::<PersistedFacts, PlanPersistenceError>(facts),
{
    let bytes = plan_bytes(facts);
    lemma_structure_fits(facts);
    assert(bytes.subrange(0, bytes.len() as int) =~= bytes);
    lemma_read_front(bytes, facts);
    assert(joined(facts.persistence_schema_version, head_of(facts), tail_of(facts)) == facts);
}

/// Bytes that read as a plan are the bytes that the plan is written as: there is
/// one representation of each plan.
pub proof fn lemma_read_is_written(bytes: Seq<u8>)
    requires
        decoded(bytes) is Ok,
    ensures
        encoded(decoded(bytes)->Ok_0) == Ok::<Seq<u8>, PlanPersistenceError>(bytes),
{
    broadcast use plan_codec::lemma_holds_concat;
    broadcast use plan_codec::lemma_u32_length;

    let facts = decoded(bytes)->Ok_0;
    let version = facts.persistence_schema_version;
    plan_codec::lemma_u32(bytes, 8, "persistence schema version", version);
    lemma_head(bytes, 12, head_of(facts));
    let (head, middle) = get_head(bytes, 12)->Ok_0;
    assert(head == head_of(facts));
    lemma_tail(bytes, middle, tail_of(facts));
    assert(get_tail(bytes, middle)->Ok_0.0 == tail_of(facts));
    assert(magic().len() == 8);
    assert(plan_codec::holds(bytes, 0, magic()));
    let parts = magic() + plan_codec::u32_bytes(version);
    assert(plan_codec::holds(bytes, 0, parts));
    assert(plan_codec::holds(bytes, 0, parts + head_bytes(head)));
    assert(plan_codec::holds(bytes, 0, plan_bytes(facts)));
    assert(bytes.subrange(0, bytes.len() as int) =~= bytes);
}

/// A written plan with bytes behind it is refused.
pub proof fn lemma_trailing_refused(facts: PersistedFacts, extra: Seq<u8>)
    requires
        encoded(facts) is Ok,
        extra.len() > 0,
    ensures
        ({
            let bytes = encoded(facts)->Ok_0 + extra;
            decoded(bytes) == (if bytes.len() > MAX_PERSISTED_PLAN_BYTES {
                Err::<PersistedFacts, PlanPersistenceError>(
                    PlanPersistenceError::TooLarge {
                        bytes: bytes.len() as usize,
                        maximum: MAX_PERSISTED_PLAN_BYTES,
                    },
                )
            } else {
                Err(PlanPersistenceError::TrailingBytes { bytes: extra.len() as usize })
            })
        }),
{
    let written = plan_bytes(facts);
    let bytes = written + extra;
    lemma_structure_fits(facts);
    assert(bytes.subrange(0, written.len() as int) =~= written);
    lemma_read_front(bytes, facts);
}

// ---------------------------------------------------------------------------
// Cut bytes
// ---------------------------------------------------------------------------
proof fn lemma_cut_identity(bytes: Seq<u8>, length: int, at: int)
    requires
        0 <= at <= bytes.len(),
        0 <= length <= bytes.len(),
    ensures
        plan_codec::ends_inside(get_identity(bytes, at), at, bytes),
        at <= length ==> plan_codec::reads_when_cut(
            get_identity(bytes, at),
            get_identity(bytes.take(length), at),
            at,
            length,
        ),
{
    broadcast use plan_codec::group_cut;

    reveal(get_identity);
}

proof fn lemma_cut_choices(bytes: Seq<u8>, length: int, at: int)
    requires
        0 <= at <= bytes.len(),
        0 <= length <= bytes.len(),
    ensures
        plan_codec::ends_inside(get_choices(bytes, at), at, bytes),
        at <= length ==> plan_codec::reads_when_cut(
            get_choices(bytes, at),
            get_choices(bytes.take(length), at),
            at,
            length,
        ),
{
    broadcast use plan_codec::group_cut;

    reveal(get_choices);
}

proof fn lemma_cut_streaming(bytes: Seq<u8>, length: int, at: int)
    requires
        0 <= at <= bytes.len(),
        0 <= length <= bytes.len(),
    ensures
        plan_codec::ends_inside(get_streaming(bytes, at), at, bytes),
        at <= length ==> plan_codec::reads_when_cut(
            get_streaming(bytes, at),
            get_streaming(bytes.take(length), at),
            at,
            length,
        ),
{
    broadcast use plan_codec::group_cut;

    reveal(get_streaming);
}

proof fn lemma_cut_gpu(bytes: Seq<u8>, length: int, at: int)
    requires
        0 <= at <= bytes.len(),
        0 <= length <= bytes.len(),
    ensures
        plan_codec::ends_inside(get_gpu(bytes, at), at, bytes),
        at <= length ==> plan_codec::reads_when_cut(
            get_gpu(bytes, at),
            get_gpu(bytes.take(length), at),
            at,
            length,
        ),
{
    broadcast use plan_codec::group_cut;

    reveal(get_gpu);
}

proof fn lemma_cut_reservations(bytes: Seq<u8>, length: int, at: int)
    requires
        0 <= at <= bytes.len(),
        0 <= length <= bytes.len(),
    ensures
        plan_codec::ends_inside(get_reservations(bytes, at), at, bytes),
        at <= length ==> plan_codec::reads_when_cut(
            get_reservations(bytes, at),
            get_reservations(bytes.take(length), at),
            at,
            length,
        ),
{
    broadcast use plan_codec::group_cut;

    reveal(get_reservations);
}

proof fn lemma_cut_cost(bytes: Seq<u8>, length: int, at: int)
    requires
        0 <= at <= bytes.len(),
        0 <= length <= bytes.len(),
    ensures
        plan_codec::ends_inside(get_cost(bytes, at), at, bytes),
        at <= length ==> plan_codec::reads_when_cut(
            get_cost(bytes, at),
            get_cost(bytes.take(length), at),
            at,
            length,
        ),
{
    broadcast use plan_codec::group_cut;

    reveal(get_cost);
}

proof fn lemma_cut_source(bytes: Seq<u8>, length: int, at: int)
    requires
        0 <= at <= bytes.len(),
        0 <= length <= bytes.len(),
    ensures
        plan_codec::ends_inside(get_source(bytes, at), at, bytes),
        at <= length ==> plan_codec::reads_when_cut(
            get_source(bytes, at),
            get_source(bytes.take(length), at),
            at,
            length,
        ),
{
    broadcast use plan_codec::group_cut;

    reveal(get_source);
}

proof fn lemma_cut_versions(bytes: Seq<u8>, length: int, at: int)
    requires
        0 <= at <= bytes.len(),
        0 <= length <= bytes.len(),
    ensures
        plan_codec::ends_inside(get_versions(bytes, at), at, bytes),
        at <= length ==> plan_codec::reads_when_cut(
            get_versions(bytes, at),
            get_versions(bytes.take(length), at),
            at,
            length,
        ),
{
    broadcast use plan_codec::group_cut;

    reveal(get_versions);
}

proof fn lemma_cut_observed(bytes: Seq<u8>, length: int, at: int)
    requires
        0 <= at <= bytes.len(),
        0 <= length <= bytes.len(),
    ensures
        plan_codec::ends_inside(get_observed(bytes, at), at, bytes),
        at <= length ==> plan_codec::reads_when_cut(
            get_observed(bytes, at),
            get_observed(bytes.take(length), at),
            at,
            length,
        ),
{
    broadcast use plan_codec::group_cut;

    reveal(get_observed);
    let field = "calibration observation identifiers";
    plan_codec::lemma_read_ends(bytes, at, field);
    if let Ok((count, next)) = plan_codec::get_count(bytes, at, field) {
        plan_codec::lemma_strings_end(bytes, next, count, field);
    }
}

proof fn lemma_cut_calibration(bytes: Seq<u8>, length: int, at: int)
    requires
        0 <= at <= bytes.len(),
        0 <= length <= bytes.len(),
    ensures
        plan_codec::ends_inside(get_calibration(bytes, at), at, bytes),
        at <= length ==> plan_codec::reads_when_cut(
            get_calibration(bytes, at),
            get_calibration(bytes.take(length), at),
            at,
            length,
        ),
{
    broadcast use plan_codec::group_cut;

    reveal(get_calibration);
    lemma_cut_source(bytes, length, at);
    if let Ok((_, after_source)) = get_source(bytes, at) {
        lemma_cut_versions(bytes, length, after_source);
        if let Ok((_, after_versions)) = get_versions(bytes, after_source) {
            lemma_cut_observed(bytes, length, after_versions);
        }
    }
}

proof fn lemma_cut_reason(bytes: Seq<u8>, length: int, at: int)
    requires
        0 <= at <= bytes.len(),
        0 <= length <= bytes.len(),
    ensures
        plan_codec::ends_inside(get_reason(bytes, at), at, bytes),
        at <= length ==> plan_codec::reads_when_cut(
            get_reason(bytes, at),
            get_reason(bytes.take(length), at),
            at,
            length,
        ),
{
    broadcast use plan_codec::group_cut;

}

proof fn lemma_cut_reasons(bytes: Seq<u8>, length: int, at: int, count: nat)
    requires
        0 <= at <= bytes.len(),
        0 <= length <= bytes.len(),
    ensures
        plan_codec::ends_inside(get_reasons(bytes, at, count), at, bytes),
        at <= length ==> plan_codec::reads_when_cut(
            get_reasons(bytes, at, count),
            get_reasons(bytes.take(length), at, count),
            at,
            length,
        ),
    decreases count,
{
    if count > 0 {
        lemma_cut_reasons(bytes, length, at, (count - 1) as nat);
        if let Ok((_, next)) = get_reasons(bytes, at, (count - 1) as nat) {
            lemma_cut_reason(bytes, length, next);
        }
    }
}

proof fn lemma_cut_reason_list(bytes: Seq<u8>, length: int, at: int)
    requires
        0 <= at <= bytes.len(),
        0 <= length <= bytes.len(),
    ensures
        plan_codec::ends_inside(get_reason_list(bytes, at), at, bytes),
        at <= length ==> plan_codec::reads_when_cut(
            get_reason_list(bytes, at),
            get_reason_list(bytes.take(length), at),
            at,
            length,
        ),
{
    broadcast use plan_codec::group_cut;

    reveal(get_reason_list);
    plan_codec::lemma_read_ends(bytes, at, "plan reasons");
    if let Ok((count, next)) = plan_codec::get_count(bytes, at, "plan reasons") {
        lemma_cut_reasons(bytes, length, next, count);
    }
}

proof fn lemma_cut_head(bytes: Seq<u8>, length: int, at: int)
    requires
        0 <= at <= bytes.len(),
        0 <= length <= bytes.len(),
    ensures
        plan_codec::ends_inside(get_head(bytes, at), at, bytes),
        at <= length ==> plan_codec::reads_when_cut(
            get_head(bytes, at),
            get_head(bytes.take(length), at),
            at,
            length,
        ),
{
    broadcast use plan_codec::group_cut;

    lemma_cut_identity(bytes, length, at);
    if let Ok((_, after_identity)) = get_identity(bytes, at) {
        lemma_cut_choices(bytes, length, after_identity);
        if let Ok((_, after_choices)) = get_choices(bytes, after_identity) {
            lemma_cut_streaming(bytes, length, after_choices);
            if let Ok((_, after_streaming)) = get_streaming(bytes, after_choices) {
                lemma_cut_gpu(bytes, length, after_streaming);
            }
        }
    }
}

proof fn lemma_cut_tail(bytes: Seq<u8>, length: int, at: int)
    requires
        0 <= at <= bytes.len(),
        0 <= length <= bytes.len(),
    ensures
        plan_codec::ends_inside(get_tail(bytes, at), at, bytes),
        at <= length ==> plan_codec::reads_when_cut(
            get_tail(bytes, at),
            get_tail(bytes.take(length), at),
            at,
            length,
        ),
{
    broadcast use plan_codec::group_cut;

    lemma_cut_reservations(bytes, length, at);
    if let Ok((_, after_reservations)) = get_reservations(bytes, at) {
        lemma_cut_cost(bytes, length, after_reservations);
        if let Ok((_, after_cost)) = get_cost(bytes, after_reservations) {
            lemma_cut_calibration(bytes, length, after_cost);
            if let Ok((_, after_calibration)) = get_calibration(bytes, after_cost) {
                lemma_cut_reason_list(bytes, length, after_calibration);
            }
        }
    }
}

/// A written plan that is cut short is refused as truncated, wherever the cut is.
pub proof fn lemma_truncated_refused(facts: PersistedFacts, length: int)
    requires
        encoded(facts) is Ok,
        0 <= length < encoded(facts)->Ok_0.len(),
    ensures
        ({
            let read = decoded(encoded(facts)->Ok_0.take(length));
            read is Err && read->Err_0 is Truncated
        }),
{
    broadcast use plan_codec::group_cut;

    let written = encoded(facts)->Ok_0;
    lemma_structure_fits(facts);
    assert(written.subrange(0, written.len() as int) =~= written);
    lemma_read_front(written, facts);
    plan_codec::lemma_cut_bytes(written, length, 0, 8, "magic");
    lemma_cut_head(written, length, 12);
    lemma_cut_tail(written, length, 12int + head_bytes(head_of(facts)).len());
}

// ---------------------------------------------------------------------------
// Structure, checked
// ---------------------------------------------------------------------------
fn identifier_is_valid(identifier: &str) -> (valid: bool)
    ensures
        valid == identifier_valid(identifier@),
{
    !identifier.is_empty() && identifier.as_bytes().len() <= MAX_STRING_BYTES
}

proof fn lemma_identifiers_prefix(identifiers: Seq<Seq<char>>, count: int)
    requires
        0 <= count <= identifiers.len(),
        identifiers_check(identifiers.take(count)) is Err,
    ensures
        identifiers_check(identifiers) == identifiers_check(identifiers.take(count)),
    decreases identifiers.len(),
{
    if count == identifiers.len() {
        assert(identifiers.take(count) =~= identifiers);
    } else {
        assert(identifiers.drop_last().take(count) =~= identifiers.take(count));
        lemma_identifiers_prefix(identifiers.drop_last(), count);
    }
}

fn holds_identifier(identifiers: &Vec<String>, count: usize, identifier: &str) -> (found: bool)
    requires
        count <= identifiers@.len(),
    ensures
        found == text::texts(identifiers@).take(count as int).contains(identifier@),
{
    for i in 0..count
        invariant
            count <= identifiers@.len(),
            forall|k: int| 0 <= k < i ==> #[trigger] identifiers@[k]@ != identifier@,
    {
        if text::str_equal(identifiers[i].as_str(), identifier) {
            assert(text::texts(identifiers@).take(count as int)[i as int] == identifier@);
            return true;
        }
    }
    assert forall|k: int| 0 <= k < count implies #[trigger] text::texts(identifiers@).take(
        count as int,
    )[k] != identifier@ by {
        assert(identifiers@[k]@ != identifier@);
    }
    false
}

fn validate_identifiers(identifiers: &Vec<String>) -> (result: Result<(), PlanPersistenceError>)
    ensures
        result == identifiers_check(text::texts(identifiers@)),
{
    let ghost all = text::texts(identifiers@);
    for i in 0..identifiers.len()
        invariant
            all == text::texts(identifiers@),
            identifiers_check(all.take(i as int)) is Ok,
    {
        let ghost next = all.take(i as int + 1);
        assert(next.drop_last() =~= all.take(i as int));
        assert(next.last() == identifiers@[i as int]@);
        if !identifier_is_valid(identifiers[i].as_str()) {
            proof {
                lemma_identifiers_prefix(all, i as int + 1);
            }
            return Err(
                PlanPersistenceError::InvalidPlan {
                    field: "invalid calibration observation identifier",
                },
            );
        }
        if holds_identifier(identifiers, i, identifiers[i].as_str()) {
            proof {
                lemma_identifiers_prefix(all, i as int + 1);
            }
            return Err(
                PlanPersistenceError::InvalidPlan {
                    field: "duplicate calibration observation identifier",
                },
            );
        }
    }
    assert(all.take(all.len() as int) =~= all);
    Ok(())
}

fn optional_identifier_is_valid(identifier: &Option<String>) -> (valid: bool)
    ensures
        valid == (identifier is None || identifier_valid(identifier->0@)),
{
    match identifier {
        Some(content) => identifier_is_valid(content.as_str()),
        None => true,
    }
}

fn validate_provenance(calibration: &CalibrationProvenance) -> (result: Result<
    (),
    PlanPersistenceError,
>)
    ensures
        result == provenance_check(calibration@),
{
    let identified = calibration.calibration_identifier.is_some();
    let plan_identified = calibration.calibration_plan_identifier.is_some();
    let plan_versioned = calibration.calibration_plan_version.is_some();
    let ruleset_versioned = calibration.calibration_ruleset_version.is_some();
    let named = identified || plan_identified || plan_versioned || ruleset_versioned;
    if named && !(identified && plan_identified && plan_versioned && ruleset_versioned) {
        return Err(PlanPersistenceError::InvalidPlan { field: "partial calibration provenance" });
    }
    if !optional_identifier_is_valid(&calibration.calibration_identifier)
        || !optional_identifier_is_valid(&calibration.calibration_plan_identifier)
        || calibration.calibration_plan_version == Some(0)
        || calibration.calibration_ruleset_version == Some(0) {
        return Err(PlanPersistenceError::InvalidPlan { field: "invalid calibration provenance" });
    }
    if !named && calibration.observation_identifiers.len() > 0 {
        return Err(
            PlanPersistenceError::InvalidPlan {
                field: "calibration observations without provenance",
            },
        );
    }
    if calibration.observation_identifiers.len() > MAX_LIST_ITEMS {
        return Err(
            PlanPersistenceError::LimitExceeded {
                field: "calibration observation count",
                value: calibration.observation_identifiers.len(),
                maximum: MAX_LIST_ITEMS,
            },
        );
    }
    validate_identifiers(&calibration.observation_identifiers)
}

fn reports_calibration(code: PlanReasonCode) -> (reports: bool)
    ensures
        reports == is_calibration_reason(code),
{
    code == PlanReasonCode::CalibrationObservationsApplied || code
        == PlanReasonCode::CalibrationNotRequested || code
        == PlanReasonCode::CalibrationNotApplicable
}

proof fn lemma_calibration_reason_prefix(reasons: Seq<PlanReason>, count: int)
    requires
        0 <= count <= reasons.len(),
        calibration_reason_of(reasons.take(count)) is Some,
    ensures
        calibration_reason_of(reasons) == calibration_reason_of(reasons.take(count)),
    decreases reasons.len(),
{
    if count == reasons.len() {
        assert(reasons.take(count) =~= reasons);
    } else {
        assert(reasons.drop_last().take(count) =~= reasons.take(count));
        lemma_calibration_reason_prefix(reasons.drop_last(), count);
    }
}

fn find_calibration_reason(reasons: &Vec<PlanReason>) -> (code: Option<PlanReasonCode>)
    ensures
        code == calibration_reason_of(reasons@),
{
    let ghost all = reasons@;
    for i in 0..reasons.len()
        invariant
            all == reasons@,
            calibration_reason_of(all.take(i as int)) is None,
    {
        assert(all.take(i as int + 1).drop_last() =~= all.take(i as int));
        if reports_calibration(reasons[i].code) {
            proof {
                lemma_calibration_reason_prefix(all, i as int + 1);
            }
            return Some(reasons[i].code);
        }
    }
    assert(all.take(all.len() as int) =~= all);
    None
}

proof fn lemma_codes_prefix(reasons: Seq<PlanReason>, count: int)
    requires
        0 <= count <= reasons.len(),
        codes_check(reasons.take(count)) is Err,
    ensures
        codes_check(reasons) == codes_check(reasons.take(count)),
    decreases reasons.len(),
{
    if count == reasons.len() {
        assert(reasons.take(count) =~= reasons);
    } else {
        assert(reasons.drop_last().take(count) =~= reasons.take(count));
        lemma_codes_prefix(reasons.drop_last(), count);
    }
}

fn holds_code(reasons: &Vec<PlanReason>, count: usize, code: PlanReasonCode) -> (found: bool)
    requires
        count <= reasons@.len(),
    ensures
        found == reason_codes(reasons@.take(count as int)).contains(code),
{
    for i in 0..count
        invariant
            count <= reasons@.len(),
            forall|k: int| 0 <= k < i ==> (#[trigger] reasons@[k]).code != code,
    {
        if reasons[i].code == code {
            assert(reason_codes(reasons@.take(count as int))[i as int] == code);
            return true;
        }
    }
    assert forall|k: int| 0 <= k < count implies #[trigger] reason_codes(
        reasons@.take(count as int),
    )[k] != code by {
        assert(reasons@[k].code != code);
    }
    false
}

fn validate_codes(reasons: &Vec<PlanReason>) -> (result: Result<(), PlanPersistenceError>)
    ensures
        result == codes_check(reasons@),
{
    let ghost all = reasons@;
    let mut calibration_reported = false;
    assert(calibration_reason_of(all.take(0)) is None);
    for i in 0..reasons.len()
        invariant
            all == reasons@,
            codes_check(all.take(i as int)) is Ok,
            calibration_reported == (calibration_reason_of(all.take(i as int)) is Some),
    {
        let code = reasons[i].code;
        let ghost next = all.take(i as int + 1);
        assert(next.drop_last() =~= all.take(i as int));
        assert(next.last().code == code);
        if holds_code(reasons, i, code) {
            proof {
                lemma_codes_prefix(all, i as int + 1);
            }
            return Err(PlanPersistenceError::InvalidPlan { field: "duplicate plan reason code" });
        }
        if reports_calibration(code) {
            if calibration_reported {
                proof {
                    lemma_codes_prefix(all, i as int + 1);
                }
                return Err(
                    PlanPersistenceError::InvalidPlan {
                        field: "multiple calibration reason codes",
                    },
                );
            }
            calibration_reported = true;
        }
    }
    assert(all.take(all.len() as int) =~= all);
    Ok(())
}

fn validate_reasons(reasons: &Vec<PlanReason>, calibration: &CalibrationProvenance) -> (result:
    Result<(), PlanPersistenceError>)
    ensures
        result == reasons_check(reasons@, calibration@),
{
    if reasons.len() == 0 || reasons.len() > MAX_LIST_ITEMS {
        return Err(
            PlanPersistenceError::InvalidPlan { field: "missing or excessive plan reasons" },
        );
    }
    validate_codes(reasons)?;
    let code = match find_calibration_reason(reasons) {
        Some(code) => code,
        None => {
            return Err(
                PlanPersistenceError::InvalidPlan { field: "missing calibration reason code" },
            );
        },
    };
    proof {
        lemma_calibration_reason_kind(reasons@);
    }
    let identified = calibration.calibration_identifier.is_some();
    let observed = calibration.observation_identifiers.len() > 0;
    let agrees = match code {
        PlanReasonCode::CalibrationNotRequested => !identified && !observed,
        PlanReasonCode::CalibrationNotApplicable => !observed,
        PlanReasonCode::CalibrationObservationsApplied => identified && observed,
        _ => false,
    };
    if !agrees {
        return Err(
            PlanPersistenceError::InvalidPlan { field: "calibration reason/provenance mismatch" },
        );
    }
    Ok(())
}

proof fn lemma_calibration_reason_kind(reasons: Seq<PlanReason>)
    ensures
        calibration_reason_of(reasons) matches Some(code) ==> is_calibration_reason(code),
    decreases reasons.len(),
{
    if reasons.len() > 0 {
        lemma_calibration_reason_kind(reasons.drop_last());
    }
}

fn copy_reasons(reasons: &Vec<PlanReason>) -> (copy: Vec<PlanReason>)
    ensures
        copy@ == reasons@,
{
    let mut copy: Vec<PlanReason> = Vec::new();
    for i in 0..reasons.len()
        invariant
            copy@ == reasons@.take(i as int),
    {
        copy.push(reasons[i]);
        assert(copy@ =~= reasons@.take(i as int + 1));
    }
    assert(reasons@.take(reasons@.len() as int) =~= reasons@);
    copy
}

// ---------------------------------------------------------------------------
// Sections, read and written
// ---------------------------------------------------------------------------
fn read_identity(reader: &mut PlanReader<'_>) -> (result: Result<Identity, PlanPersistenceError>)
    requires
        old(reader).wf(),
    ensures
        final(reader).wf(),
        final(reader).bytes == old(reader).bytes,
        plan_codec::read_as(
            result,
            result->Ok_0,
            final(reader).position,
            get_identity(old(reader).bytes@, old(reader).position as int),
        ),
{
    proof {
        reveal(get_identity);
    }
    let execution_schema_version: u32 = reader.u32("execution schema version")?;
    let planner_ruleset_version: u32 = reader.u32("planner ruleset version")?;
    let model: u64 = reader.u64("model fingerprint")?;
    let machine: u64 = reader.u64("source machine fingerprint")?;
    let storage: u64 = reader.u64("source storage fingerprint")?;
    Ok(Identity { execution_schema_version, planner_ruleset_version, model, machine, storage })
}

fn read_choices(reader: &mut PlanReader<'_>) -> (result: Result<Choices, PlanPersistenceError>)
    requires
        old(reader).wf(),
    ensures
        final(reader).wf(),
        final(reader).bytes == old(reader).bytes,
        plan_codec::read_as(
            result,
            result->Ok_0,
            final(reader).position,
            get_choices(old(reader).bytes@, old(reader).position as int),
        ),
{
    proof {
        reveal(get_choices);
    }
    let mode = decode_mode(reader.u8("operating mode")?)?;
    let strategy = decode_strategy(reader.u8("execution strategy")?)?;
    let ram_budget_bytes: u64 = reader.u64("RAM budget")?;
    let count: u64 = reader.u64("CPU thread count")?;
    if count > usize::MAX as u64 {
        return Err(PlanPersistenceError::NumericOverflow { field: "CPU thread count" });
    }
    Ok(Choices { mode, strategy, ram_budget_bytes, cpu_thread_count: count as usize })
}

fn read_streaming(reader: &mut PlanReader<'_>) -> (result: Result<Streaming, PlanPersistenceError>)
    requires
        old(reader).wf(),
    ensures
        final(reader).wf(),
        final(reader).bytes == old(reader).bytes,
        plan_codec::read_as(
            result,
            result->Ok_0,
            final(reader).position,
            get_streaming(old(reader).bytes@, old(reader).position as int),
        ),
{
    proof {
        reveal(get_streaming);
    }
    let enabled = reader.boolean("layer cache enabled")?;
    let capacity_bytes: u64 = reader.u64("layer cache capacity")?;
    let read_coalescing_enabled = reader.boolean("read coalescing enabled")?;
    let grouped_read_buffer_reuse_enabled = reader.boolean("grouped read buffer reuse enabled")?;
    Ok(
        Streaming {
            layer_cache: LayerCacheDecision { enabled, capacity_bytes },
            io: IoDecision { read_coalescing_enabled, grouped_read_buffer_reuse_enabled },
        },
    )
}

fn read_gpu(reader: &mut PlanReader<'_>) -> (result: Result<GpuDecision, PlanPersistenceError>)
    requires
        old(reader).wf(),
    ensures
        final(reader).wf(),
        final(reader).bytes == old(reader).bytes,
        plan_codec::read_as(
            result,
            result->Ok_0@,
            final(reader).position,
            get_gpu(old(reader).bytes@, old(reader).position as int),
        ),
{
    proof {
        reveal(get_gpu);
    }
    let preference = decode_gpu_preference(reader.u8("GPU preference")?)?;
    let enabled = reader.boolean("GPU enabled")?;
    let selected_device_id = reader.optional_string("GPU device identifier")?;
    Ok(GpuDecision { preference, enabled, selected_device_id })
}

fn read_reservations(reader: &mut PlanReader<'_>) -> (result: Result<ResourceReservations, PlanPersistenceError>)
    requires
        old(reader).wf(),
    ensures
        final(reader).wf(),
        final(reader).bytes == old(reader).bytes,
        plan_codec::read_as(
            result,
            result->Ok_0,
            final(reader).position,
            get_reservations(old(reader).bytes@, old(reader).position as int),
        ),
{
    proof {
        reveal(get_reservations);
    }
    let available_ram_bytes_at_planning: u64 = reader.u64("available RAM at planning")?;
    let persistent_resident_bytes: u64 = reader.u64("persistent resident bytes")?;
    let persistent_startup_peak_bytes: u64 = reader.u64("persistent startup peak bytes")?;
    let largest_layer_load_peak_bytes: u64 = reader.u64("largest layer load peak bytes")?;
    let managed_lower_bound_bytes: u64 = reader.u64("managed-memory lower bound")?;
    let remaining_budget_after_lower_bound_bytes: u64 = reader.u64("remaining budget after lower bound")?;
    Ok(
        ResourceReservations {
            available_ram_bytes_at_planning,
            persistent_resident_bytes,
            persistent_startup_peak_bytes,
            largest_layer_load_peak_bytes,
            managed_lower_bound_bytes,
            remaining_budget_after_lower_bound_bytes,
        },
    )
}

fn read_cost(reader: &mut PlanReader<'_>) -> (result: Result<CostEstimate, PlanPersistenceError>)
    requires
        old(reader).wf(),
    ensures
        final(reader).wf(),
        final(reader).bytes == old(reader).bytes,
        plan_codec::read_as(
            result,
            result->Ok_0,
            final(reader).position,
            get_cost(old(reader).bytes@, old(reader).position as int),
        ),
{
    proof {
        reveal(get_cost);
    }
    let physical_read_bytes_per_forward: u64 = reader.u64("physical read bytes per forward")?;
    let calibrated_read_time_ns_per_forward = reader.optional_u64("calibrated read time")?;
    let observed_strategy_latency_ns = reader.optional_u64("observed strategy latency")?;
    Ok(
        CostEstimate {
            physical_read_bytes_per_forward,
            calibrated_read_time_ns_per_forward,
            observed_strategy_latency_ns,
        },
    )
}

fn read_calibration(reader: &mut PlanReader<'_>) -> (result: Result<CalibrationProvenance, PlanPersistenceError>)
    requires
        old(reader).wf(),
    ensures
        final(reader).wf(),
        final(reader).bytes == old(reader).bytes,
        plan_codec::read_as(
            result,
            result->Ok_0@,
            final(reader).position,
            get_calibration(old(reader).bytes@, old(reader).position as int),
        ),
{
    proof {
        reveal(get_calibration);
        reveal(get_source);
        reveal(get_versions);
        reveal(get_observed);
    }
    let calibration_identifier = reader.optional_string("calibration identifier")?;
    let calibration_plan_identifier = reader.optional_string("calibration plan identifier")?;
    let calibration_plan_version = reader.optional_u32("calibration plan version")?;
    let calibration_ruleset_version = reader.optional_u32("calibration ruleset version")?;
    let observation_identifiers = reader.string_list("calibration observation identifiers")?;
    Ok(
        CalibrationProvenance {
            calibration_identifier,
            calibration_plan_identifier,
            calibration_plan_version,
            calibration_ruleset_version,
            observation_identifiers,
        },
    )
}

proof fn lemma_reasons_prefix(bytes: Seq<u8>, at: int, count: nat, all: nat)
    requires
        count <= all,
        get_reasons(bytes, at, count) is Err,
    ensures
        get_reasons(bytes, at, all) == get_reasons(bytes, at, count),
    decreases all,
{
    if count < all {
        lemma_reasons_prefix(bytes, at, count, (all - 1) as nat);
    }
}

fn read_reason(reader: &mut PlanReader<'_>) -> (result: Result<PlanReason, PlanPersistenceError>)
    requires
        old(reader).wf(),
    ensures
        final(reader).wf(),
        final(reader).bytes == old(reader).bytes,
        plan_codec::read_as(
            result,
            result->Ok_0,
            final(reader).position,
            get_reason(old(reader).bytes@, old(reader).position as int),
        ),
{
    let code = decode_reason(reader.u8("plan reason code")?)?;
    let value = reader.optional_u64("plan reason value")?;
    Ok(PlanReason { code, value })
}

fn read_reasons(reader: &mut PlanReader<'_>) -> (result: Result<
    Vec<PlanReason>,
    PlanPersistenceError,
>)
    requires
        old(reader).wf(),
    ensures
        final(reader).wf(),
        final(reader).bytes == old(reader).bytes,
        plan_codec::read_as(
            result,
            result->Ok_0@,
            final(reader).position,
            get_reason_list(old(reader).bytes@, old(reader).position as int),
        ),
{
    proof {
        reveal(get_reason_list);
    }
    let ghost bytes = reader.bytes@;
    let count: usize = reader.list_count("plan reasons")?;
    let ghost start = reader.position as int;
    let mut reasons: Vec<PlanReason> = Vec::new();
    for i in 0..count
        invariant
            reader.wf(),
            reader.bytes == old(reader).bytes,
            bytes == old(reader).bytes@,
            get_reason_list(bytes, old(reader).position as int) == get_reasons(
                bytes,
                start,
                count as nat,
            ),
            get_reasons(bytes, start, i as nat) == Ok::<
                (Seq<PlanReason>, int),
                PlanPersistenceError,
            >((reasons@, reader.position as int)),
    {
        match read_reason(reader) {
            Ok(reason) => {
                reasons.push(reason);
            },
            Err(error) => {
                proof {
                    assert(get_reasons(bytes, start, (i + 1) as nat) is Err);
                    lemma_reasons_prefix(bytes, start, (i + 1) as nat, count as nat);
                }
                return Err(error);
            },
        }
    }
    Ok(reasons)
}

fn is_magic(raw: &[u8]) -> (same: bool)
    requires
        raw@.len() == 8,
    ensures
        same == (raw@ == magic()),
{
    let same = raw[0] == 0x52 && raw[1] == 0x41 && raw[2] == 0x4d && raw[3] == 0x46 && raw[4]
        == 0x50 && raw[5] == 0x4c && raw[6] == 0x4e && raw[7] == 0;
    proof {
        if same {
            assert(raw@ =~= magic());
        } else {
            let k = magic();
            assert(raw@[0] != k[0] || raw@[1] != k[1] || raw@[2] != k[2] || raw@[3] != k[3]
                || raw@[4] != k[4] || raw@[5] != k[5] || raw@[6] != k[6] || raw@[7] != k[7]);
        }
    }
    same
}

fn put_magic(bytes: &mut Vec<u8>)
    ensures
        final(bytes)@ == old(bytes)@ + magic(),
{
    plan_codec::put_u8(bytes, 0x52);
    plan_codec::put_u8(bytes, 0x41);
    plan_codec::put_u8(bytes, 0x4d);
    plan_codec::put_u8(bytes, 0x46);
    plan_codec::put_u8(bytes, 0x50);
    plan_codec::put_u8(bytes, 0x4c);
    plan_codec::put_u8(bytes, 0x4e);
    plan_codec::put_u8(bytes, 0);
    assert(bytes@ =~= old(bytes)@ + magic());
}

fn put_identity(bytes: &mut Vec<u8>, plan: &PersistedExecutionPlan)
    ensures
        final(bytes)@ == old(bytes)@ + identity_bytes(head_of(plan@).identity),
{
    plan_codec::put_u32(bytes, plan.execution_schema_version);
    plan_codec::put_u32(bytes, plan.planner_ruleset_version);
    plan_codec::put_u64(bytes, plan.model_descriptor_fingerprint);
    plan_codec::put_u64(bytes, plan.source_machine_fingerprint);
    plan_codec::put_u64(bytes, plan.source_storage_fingerprint);
    proof {
        reveal(identity_bytes);
        assert(bytes@ =~= old(bytes)@ + identity_bytes(head_of(plan@).identity));
    }
}

fn put_choices(bytes: &mut Vec<u8>, plan: &PersistedExecutionPlan)
    ensures
        final(bytes)@ == old(bytes)@ + choices_bytes(head_of(plan@).choices),
{
    plan_codec::put_u8(bytes, encode_mode(plan.mode));
    plan_codec::put_u8(bytes, encode_strategy(plan.strategy));
    plan_codec::put_u64(bytes, plan.ram_budget_bytes);
    plan_codec::put_u64(bytes, plan.cpu_thread_count as u64);
    proof {
        reveal(choices_bytes);
        assert(bytes@ =~= old(bytes)@ + choices_bytes(head_of(plan@).choices));
    }
}

fn put_streaming(bytes: &mut Vec<u8>, plan: &PersistedExecutionPlan)
    ensures
        final(bytes)@ == old(bytes)@ + streaming_bytes(head_of(plan@).streaming),
{
    plan_codec::put_bool(bytes, plan.layer_cache.enabled);
    plan_codec::put_u64(bytes, plan.layer_cache.capacity_bytes);
    plan_codec::put_bool(bytes, plan.io.read_coalescing_enabled);
    plan_codec::put_bool(bytes, plan.io.grouped_read_buffer_reuse_enabled);
    proof {
        reveal(streaming_bytes);
        assert(bytes@ =~= old(bytes)@ + streaming_bytes(head_of(plan@).streaming));
    }
}

fn put_gpu(bytes: &mut Vec<u8>, gpu: &GpuDecision) -> (result: Result<(), PlanPersistenceError>)
    ensures
        result == (if gpu_fits(gpu@) {
            Ok::<(), PlanPersistenceError>(())
        } else {
            Err(
                PlanPersistenceError::LimitExceeded {
                    field: "GPU device identifier",
                    value: vstd::utf8::encode_utf8(gpu@.selected_device_id->0).len() as usize,
                    maximum: MAX_STRING_BYTES,
                },
            )
        }),
        result is Ok ==> final(bytes)@ == old(bytes)@ + gpu_bytes(gpu@),
{
    plan_codec::put_u8(bytes, encode_gpu_preference(gpu.preference));
    plan_codec::put_bool(bytes, gpu.enabled);
    plan_codec::put_optional_string(bytes, &gpu.selected_device_id, "GPU device identifier")?;
    proof {
        reveal(gpu_bytes);
        assert(bytes@ =~= old(bytes)@ + gpu_bytes(gpu@));
    }
    Ok(())
}

fn put_reservations(bytes: &mut Vec<u8>, reserved: &ResourceReservations)
    ensures
        final(bytes)@ == old(bytes)@ + reservations_bytes(*reserved),
{
    plan_codec::put_u64(bytes, reserved.available_ram_bytes_at_planning);
    plan_codec::put_u64(bytes, reserved.persistent_resident_bytes);
    plan_codec::put_u64(bytes, reserved.persistent_startup_peak_bytes);
    plan_codec::put_u64(bytes, reserved.largest_layer_load_peak_bytes);
    plan_codec::put_u64(bytes, reserved.managed_lower_bound_bytes);
    plan_codec::put_u64(bytes, reserved.remaining_budget_after_lower_bound_bytes);
    proof {
        reveal(reservations_bytes);
        assert(bytes@ =~= old(bytes)@ + reservations_bytes(*reserved));
    }
}

fn put_cost(bytes: &mut Vec<u8>, cost: &CostEstimate)
    ensures
        final(bytes)@ == old(bytes)@ + cost_bytes(*cost),
{
    plan_codec::put_u64(bytes, cost.physical_read_bytes_per_forward);
    plan_codec::put_optional_u64(bytes, cost.calibrated_read_time_ns_per_forward);
    plan_codec::put_optional_u64(bytes, cost.observed_strategy_latency_ns);
    proof {
        reveal(cost_bytes);
        assert(bytes@ =~= old(bytes)@ + cost_bytes(*cost));
    }
}

fn put_calibration(bytes: &mut Vec<u8>, calibration: &CalibrationProvenance) -> (result: Result<
    (),
    PlanPersistenceError,
>)
    ensures
        result == calibration_check(calibration@),
        result is Ok ==> final(bytes)@ == old(bytes)@ + calibration_bytes(calibration@),
{
    plan_codec::put_optional_string(
        bytes,
        &calibration.calibration_identifier,
        "calibration identifier",
    )?;
    plan_codec::put_optional_string(
        bytes,
        &calibration.calibration_plan_identifier,
        "calibration plan identifier",
    )?;
    plan_codec::put_optional_u32(bytes, calibration.calibration_plan_version);
    plan_codec::put_optional_u32(bytes, calibration.calibration_ruleset_version);
    plan_codec::put_string_list(
        bytes,
        &calibration.observation_identifiers,
        "calibration observation identifiers",
    )?;
    proof {
        reveal(calibration_bytes);
        reveal(observed_bytes);
        assert(bytes@ =~= old(bytes)@ + calibration_bytes(calibration@));
    }
    Ok(())
}

fn put_reasons(bytes: &mut Vec<u8>, reasons: &Vec<PlanReason>) -> (result: Result<
    (),
    PlanPersistenceError,
>)
    ensures
        result == plan_codec::count_check("plan reasons", reasons@.len()),
        result is Ok ==> final(bytes)@ == old(bytes)@ + reason_list_bytes(reasons@),
{
    let ghost all = reasons@;
    plan_codec::put_list_count(bytes, reasons.len(), "plan reasons")?;
    let ghost head = bytes@;
    assert(head =~= head + reasons_bytes(all.take(0)));
    for i in 0..reasons.len()
        invariant
            all == reasons@,
            bytes@ == head + reasons_bytes(all.take(i as int)),
    {
        assert(all.take(i as int + 1).drop_last() =~= all.take(i as int));
        plan_codec::put_u8(bytes, encode_reason(reasons[i].code));
        plan_codec::put_optional_u64(bytes, reasons[i].value);
        assert(bytes@ =~= head + reasons_bytes(all.take(i as int + 1)));
    }
    proof {
        assert(all.take(all.len() as int) =~= all);
        reveal(reason_list_bytes);
        assert(bytes@ =~= old(bytes)@ + reason_list_bytes(all));
    }
    Ok(())
}

// ---------------------------------------------------------------------------
// Plans, read and written
// ---------------------------------------------------------------------------
#[derive(Debug)]
pub enum PersistedPlanValidationError {
    Persistence(PlanPersistenceError),
    Compilation(PlanCompilationError),
}

impl PersistedPlanValidationError {
    pub open spec fn spec_message(self) -> Seq<char> {
        match self {
            PersistedPlanValidationError::Persistence(error) =>
                "persisted plan validation failed: "@ + error.spec_message(),
            PersistedPlanValidationError::Compilation(error) =>
                "persisted plan compilation failed: "@ + error.spec_message(),
        }
    }

    pub fn message(&self) -> (message: String)
        ensures
            message@ == self.spec_message(),
    {
        match self {
            PersistedPlanValidationError::Persistence(error) => {
                let mut out = "persisted plan validation failed: ".to_owned();
                out.append(error.message().as_str());
                out
            },
            PersistedPlanValidationError::Compilation(error) => {
                let mut out = "persisted plan compilation failed: ".to_owned();
                out.append(error.message().as_str());
                out
            },
        }
    }
}

/// The outcome with the plan by its content.
pub open spec fn persisted_result(
    result: Result<PersistedExecutionPlan, PlanPersistenceError>,
) -> Result<PersistedFacts, PlanPersistenceError> {
    match result {
        Ok(plan) => Ok(plan@),
        Err(error) => Err(error),
    }
}

pub open spec fn bytes_result(result: Result<Vec<u8>, PlanPersistenceError>) -> Result<
    Seq<u8>,
    PlanPersistenceError,
> {
    match result {
        Ok(bytes) => Ok(bytes@),
        Err(error) => Err(error),
    }
}

/// What is kept of a plan: everything but the path of the model.
pub open spec fn persisted(plan: planner::PlanFacts) -> PersistedFacts {
    PersistedFacts {
        persistence_schema_version: PERSISTED_EXECUTION_PLAN_SCHEMA_VERSION,
        execution_schema_version: plan.schema_version,
        planner_ruleset_version: plan.ruleset_version,
        model_descriptor_fingerprint: plan.binding.model_descriptor_fingerprint,
        source_machine_fingerprint: plan.binding.machine_fingerprint,
        source_storage_fingerprint: plan.binding.storage_fingerprint,
        mode: plan.mode,
        strategy: plan.strategy,
        ram_budget_bytes: plan.ram_budget_bytes,
        cpu_thread_count: plan.cpu_thread_count,
        layer_cache: plan.layer_cache,
        io: plan.io,
        gpu: plan.gpu,
        reservations: plan.reservations,
        cost: plan.cost,
        calibration: plan.calibration,
        reasons: plan.reasons,
    }
}

/// The plan bound to the environment of a context.
pub open spec fn materialized_for(facts: PersistedFacts, context: PlanCompilationContext<'_>)
    -> planner::PlanFacts {
    materialized(
        facts,
        profiles::machine_fingerprint(*context.machine),
        profiles::storage_fingerprint(*context.storage),
        context.storage.model_path@,
        context.machine.available_ram_bytes,
    )
}

/// A configuration comes from persisted decisions only through the compiler.
pub open spec fn persisted_config(facts: PersistedFacts, context: PlanCompilationContext<'_>)
    -> Result<RuntimeConfig, PersistedPlanValidationError> {
    match structure_check(facts) {
        Err(error) => Err(PersistedPlanValidationError::Persistence(error)),
        Ok(_) => if facts.model_descriptor_fingerprint
            != context.model.identity.descriptor_fingerprint {
            Err(
                PersistedPlanValidationError::Persistence(
                    PlanPersistenceError::InvalidPlan { field: "model fingerprint mismatch" },
                ),
            )
        } else {
            match plan_compiler::compiled(materialized_for(facts, context), context) {
                Err(error) => Err(PersistedPlanValidationError::Compilation(error)),
                Ok(config) => Ok(config),
            }
        },
    }
}

impl PersistedExecutionPlan {
    pub fn from_execution_plan(plan: &ExecutionPlan) -> (result: Result<Self, PlanPersistenceError>)
        ensures
            persisted_result(result) == (match structure_check(persisted(plan@)) {
                Ok(_) => Ok::<PersistedFacts, PlanPersistenceError>(persisted(plan@)),
                Err(error) => Err(error),
            }),
    {
        let kept = PersistedExecutionPlan {
            persistence_schema_version: PERSISTED_EXECUTION_PLAN_SCHEMA_VERSION,
            execution_schema_version: plan.schema_version,
            planner_ruleset_version: plan.ruleset_version,
            model_descriptor_fingerprint: plan.binding.model_descriptor_fingerprint,
            source_machine_fingerprint: plan.binding.machine_fingerprint,
            source_storage_fingerprint: plan.binding.storage_fingerprint,
            mode: plan.mode,
            strategy: plan.strategy,
            ram_budget_bytes: plan.ram_budget_bytes,
            cpu_thread_count: plan.cpu_thread_count,
            layer_cache: plan.layer_cache,
            io: plan.io,
            gpu: plan.gpu.clone(),
            reservations: plan.reservations,
            cost: plan.cost,
            calibration: plan.calibration.clone(),
            reasons: copy_reasons(&plan.reasons),
        };
        assert(kept@ =~= persisted(plan@));
        kept.validate_structure()?;
        Ok(kept)
    }

    pub fn to_bytes(&self) -> (result: Result<Vec<u8>, PlanPersistenceError>)
        ensures
            bytes_result(result) == encoded(self@),
    {
        self.validate_structure()?;
        proof {
            lemma_checked_encoding(self@);
        }
        self.encode_unchecked()
    }

    /// The bytes of a plan, whether its decisions agree with each other or not.
    pub fn encode_unchecked(&self) -> (result: Result<Vec<u8>, PlanPersistenceError>)
        ensures
            bytes_result(result) == encoded_unchecked(self@),
    {
        let mut bytes: Vec<u8> = Vec::new();
        put_magic(&mut bytes);
        plan_codec::put_u32(&mut bytes, self.persistence_schema_version);
        put_identity(&mut bytes, self);
        put_choices(&mut bytes, self);
        put_streaming(&mut bytes, self);
        put_gpu(&mut bytes, &self.gpu)?;
        put_reservations(&mut bytes, &self.reservations);
        put_cost(&mut bytes, &self.cost);
        put_calibration(&mut bytes, &self.calibration)?;
        put_reasons(&mut bytes, &self.reasons)?;
        assert(bytes@ =~= plan_bytes(self@));
        if bytes.len() > MAX_PERSISTED_PLAN_BYTES {
            return Err(
                PlanPersistenceError::TooLarge {
                    bytes: bytes.len(),
                    maximum: MAX_PERSISTED_PLAN_BYTES,
                },
            );
        }
        Ok(bytes)
    }

    pub fn from_bytes(bytes: &[u8]) -> (result: Result<Self, PlanPersistenceError>)
        ensures
            persisted_result(result) == decoded(bytes@),
    {
        if bytes.len() > MAX_PERSISTED_PLAN_BYTES {
            return Err(
                PlanPersistenceError::TooLarge {
                    bytes: bytes.len(),
                    maximum: MAX_PERSISTED_PLAN_BYTES,
                },
            );
        }
        let mut reader = PlanReader::new(bytes);
        let found = reader.take(8, "magic")?;
        if !is_magic(found) {
            return Err(PlanPersistenceError::InvalidMagic);
        }
        let version: u32 = reader.u32("persistence schema version")?;
        if version != PERSISTED_EXECUTION_PLAN_SCHEMA_VERSION {
            return Err(
                PlanPersistenceError::UnsupportedPersistenceSchema {
                    found: version,
                    supported: PERSISTED_EXECUTION_PLAN_SCHEMA_VERSION,
                },
            );
        }
        Self::read_content(&mut reader, version)
    }

    /// Unknown execution and planner versions remain readable, so that a plan made
    /// under them can be classified as incompatible. Only an unknown persistence
    /// schema prevents decoding.
    fn read_content(reader: &mut PlanReader<'_>, version: u32) -> (result: Result<
        Self,
        PlanPersistenceError,
    >)
        requires
            old(reader).wf(),
        ensures
            persisted_result(result) == get_content(
                old(reader).bytes@,
                old(reader).position as int,
                version,
            ),
    {
        let identity = read_identity(reader)?;
        let choices = read_choices(reader)?;
        let streaming = read_streaming(reader)?;
        let gpu = read_gpu(reader)?;
        let reservations = read_reservations(reader)?;
        let cost = read_cost(reader)?;
        let calibration = read_calibration(reader)?;
        let reasons = read_reasons(reader)?;
        if reader.remaining() != 0 {
            return Err(PlanPersistenceError::TrailingBytes { bytes: reader.remaining() });
        }
        let plan = PersistedExecutionPlan {
            persistence_schema_version: version,
            execution_schema_version: identity.execution_schema_version,
            planner_ruleset_version: identity.planner_ruleset_version,
            model_descriptor_fingerprint: identity.model,
            source_machine_fingerprint: identity.machine,
            source_storage_fingerprint: identity.storage,
            mode: choices.mode,
            strategy: choices.strategy,
            ram_budget_bytes: choices.ram_budget_bytes,
            cpu_thread_count: choices.cpu_thread_count,
            layer_cache: streaming.layer_cache,
            io: streaming.io,
            gpu,
            reservations,
            cost,
            calibration,
            reasons,
        };
        plan.validate_structure()?;
        Ok(plan)
    }

    /// Re-materialize against the current environment and invoke the normal
    /// compiler boundary. This is the only function that yields an executable
    /// `RuntimeConfig` from persisted decisions.
    pub fn compile_runtime_config(&self, context: PlanCompilationContext<'_>) -> (result: Result<
        RuntimeConfig,
        PersistedPlanValidationError,
    >)
        ensures
            result == persisted_config(self@, context),
    {
        match self.validate_structure() {
            Ok(()) => {},
            Err(error) => {
                return Err(PersistedPlanValidationError::Persistence(error));
            },
        }
        if self.model_descriptor_fingerprint != context.model.identity.descriptor_fingerprint {
            return Err(
                PersistedPlanValidationError::Persistence(
                    PlanPersistenceError::InvalidPlan { field: "model fingerprint mismatch" },
                ),
            );
        }
        let candidate = self.materialize_for_context(context);
        match (PlanCompiler {  }).compile(&candidate, context) {
            Ok(config) => Ok(config),
            Err(error) => Err(PersistedPlanValidationError::Compilation(error)),
        }
    }

    /// Materialize an in-memory `ExecutionPlan` for review and explicit compiler
    /// validation. This does not validate runtime compatibility and never yields a
    /// `RuntimeConfig`; callers must still invoke the compiler.
    pub fn materialize_for_validation(&self, context: PlanCompilationContext<'_>) -> (result:
        Result<ExecutionPlan, PlanPersistenceError>)
        ensures
            match result {
                Ok(plan) => structure_check(self@) is Ok && plan@ == materialized_for(
                    self@,
                    context,
                ),
                Err(error) => structure_check(self@) == Err::<(), PlanPersistenceError>(error),
            },
    {
        self.validate_structure()?;
        Ok(self.materialize_for_context(context))
    }

    fn validate_structure(&self) -> (result: Result<(), PlanPersistenceError>)
        ensures
            result == structure_check(self@),
    {
        if self.persistence_schema_version != PERSISTED_EXECUTION_PLAN_SCHEMA_VERSION {
            return Err(
                PlanPersistenceError::UnsupportedPersistenceSchema {
                    found: self.persistence_schema_version,
                    supported: PERSISTED_EXECUTION_PLAN_SCHEMA_VERSION,
                },
            );
        }
        if self.execution_schema_version == 0 {
            return Err(
                PlanPersistenceError::InvalidPlan { field: "missing execution schema version" },
            );
        }
        if self.planner_ruleset_version == 0 {
            return Err(
                PlanPersistenceError::InvalidPlan { field: "missing planner ruleset version" },
            );
        }
        if self.model_descriptor_fingerprint == 0 || self.source_machine_fingerprint == 0
            || self.source_storage_fingerprint == 0 {
            return Err(
                PlanPersistenceError::InvalidPlan { field: "missing or invalid fingerprint" },
            );
        }
        if self.reservations.available_ram_bytes_at_planning < self.ram_budget_bytes {
            return Err(PlanPersistenceError::InvalidPlan { field: "available RAM at planning" });
        }
        if self.reservations.managed_lower_bound_bytes > self.ram_budget_bytes {
            return Err(
                PlanPersistenceError::InvalidPlan {
                    field: "managed-memory lower bound exceeds RAM budget",
                },
            );
        }
        let remaining: u64 = self.ram_budget_bytes - self.reservations.managed_lower_bound_bytes;
        if self.reservations.remaining_budget_after_lower_bound_bytes != remaining {
            return Err(
                PlanPersistenceError::InvalidPlan { field: "remaining budget after lower bound" },
            );
        }
        if self.layer_cache.capacity_bytes > remaining {
            return Err(
                PlanPersistenceError::InvalidPlan {
                    field: "layer-cache capacity exceeds remaining budget",
                },
            );
        }
        if let Some(identifier) = &self.gpu.selected_device_id {
            if identifier.as_str().is_empty() {
                assert(identifier@ =~= Seq::<char>::empty());
                return Err(
                    PlanPersistenceError::InvalidPlan { field: "empty GPU device identifier" },
                );
            }
        }
        validate_provenance(&self.calibration)?;
        validate_reasons(&self.reasons, &self.calibration)?;
        let source = self.materialize(
            self.source_machine_fingerprint,
            self.source_storage_fingerprint,
            "".to_owned(),
            None,
        );
        proof {
            reveal_strlit("");
            assert(source@.binding.model_path =~= Seq::<char>::empty());
        }
        match validate_concrete_decisions(&source) {
            Ok(()) => Ok(()),
            Err(PlanCompilationError::UnsupportedGpuExecution) => Ok(()),
            Err(_) => Err(
                PlanPersistenceError::InvalidPlan {
                    field: "inconsistent concrete execution decisions",
                },
            ),
        }
    }

    /// Build a temporary compiler input bound to current facts. Only environment
    /// identity, current model path, and the volatile available-RAM snapshot are
    /// replaced; every concrete planner decision is preserved.
    fn materialize_for_context(&self, context: PlanCompilationContext<'_>) -> (plan: ExecutionPlan)
        ensures
            plan@ == materialized_for(self@, context),
    {
        self.materialize(
            context.machine.fingerprint(),
            context.storage.fingerprint(),
            context.storage.model_path.clone(),
            context.machine.available_ram_bytes,
        )
    }

    /// Binds the decisions to an environment. Without an available amount of
    /// memory the one at planning is kept.
    pub fn materialize(
        &self,
        machine_fingerprint: u64,
        storage_fingerprint: u64,
        model_path: String,
        available_ram_bytes: Option<u64>,
    ) -> (plan: ExecutionPlan)
        ensures
            plan@ == materialized(
                self@,
                machine_fingerprint,
                storage_fingerprint,
                model_path@,
                available_ram_bytes,
            ),
    {
        let mut reservations = self.reservations;
        if let Some(available) = available_ram_bytes {
            reservations.available_ram_bytes_at_planning = available;
        }
        ExecutionPlan {
            schema_version: self.execution_schema_version,
            ruleset_version: self.planner_ruleset_version,
            binding: PlanBinding {
                model_descriptor_fingerprint: self.model_descriptor_fingerprint,
                machine_fingerprint,
                storage_fingerprint,
                model_path,
            },
            mode: self.mode,
            strategy: self.strategy,
            ram_budget_bytes: self.ram_budget_bytes,
            cpu_thread_count: self.cpu_thread_count,
            layer_cache: self.layer_cache,
            io: self.io,
            gpu: self.gpu.clone(),
            reservations,
            cost: self.cost,
            calibration: self.calibration.clone(),
            reasons: copy_reasons(&self.reasons),
        }
    }
}

// ---------------------------------------------------------------------------
// Compatibility
// ---------------------------------------------------------------------------
#[derive(Debug, Clone, Copy)]
pub struct PersistedPlanCompatibilityContext<'a> {
    pub compilation: PlanCompilationContext<'a>,
    pub calibration: Option<&'a CalibrationResult>,
}

#[derive(Debug, Clone, PartialEq, Eq)]
pub enum PlanCompatibilityReason {
    PersistedPlanInvalid,
    ModelFingerprintMismatch,
    PlanCompilationFailed(PlanCompilationError),
    CalibrationNotApplied,
    CalibrationMissing,
    CalibrationInvalid,
    CalibrationSourceMachineChanged,
    CalibrationSourceStorageChanged,
    CalibrationProvenanceMismatch,
    CalibrationBindingMismatch,
    CalibrationObservationUnavailable,
}

impl PlanCompatibilityReason {
    pub open spec fn spec_message(self) -> Seq<char> {
        match self {
            PlanCompatibilityReason::PersistedPlanInvalid =>
                "persisted plan structure is invalid"@,
            PlanCompatibilityReason::ModelFingerprintMismatch =>
                "model fingerprint does not match"@,
            PlanCompatibilityReason::PlanCompilationFailed(error) => "PlanCompiler rejected the plan: "@ + error.spec_message(),
            PlanCompatibilityReason::CalibrationNotApplied =>
                "calibration was requested but no observation was applied"@,
            PlanCompatibilityReason::CalibrationMissing =>
                "matching calibration result is not available"@,
            PlanCompatibilityReason::CalibrationInvalid =>
                "current calibration result is invalid"@,
            PlanCompatibilityReason::CalibrationSourceMachineChanged =>
                "calibrated source machine differs from the current machine"@,
            PlanCompatibilityReason::CalibrationSourceStorageChanged =>
                "calibrated source storage differs from the current storage"@,
            PlanCompatibilityReason::CalibrationProvenanceMismatch =>
                "calibration provenance no longer matches"@,
            PlanCompatibilityReason::CalibrationBindingMismatch =>
                "calibration environment binding no longer matches"@,
            PlanCompatibilityReason::CalibrationObservationUnavailable =>
                "an applied calibration observation is missing or no longer measured"@,
        }
    }

    pub fn message(&self) -> (message: String)
        ensures
            message@ == self.spec_message(),
    {
        match self {
            PlanCompatibilityReason::PersistedPlanInvalid =>
                "persisted plan structure is invalid".to_owned(),
            PlanCompatibilityReason::ModelFingerprintMismatch =>
                "model fingerprint does not match".to_owned(),
            PlanCompatibilityReason::PlanCompilationFailed(error) => {
                let mut out = "PlanCompiler rejected the plan: ".to_owned();
                out.append(error.message().as_str());
                out
            },
            PlanCompatibilityReason::CalibrationNotApplied =>
                "calibration was requested but no observation was applied".to_owned(),
            PlanCompatibilityReason::CalibrationMissing =>
                "matching calibration result is not available".to_owned(),
            PlanCompatibilityReason::CalibrationInvalid =>
                "current calibration result is invalid".to_owned(),
            PlanCompatibilityReason::CalibrationSourceMachineChanged =>
                "calibrated source machine differs from the current machine".to_owned(),
            PlanCompatibilityReason::CalibrationSourceStorageChanged =>
                "calibrated source storage differs from the current storage".to_owned(),
            PlanCompatibilityReason::CalibrationProvenanceMismatch =>
                "calibration provenance no longer matches".to_owned(),
            PlanCompatibilityReason::CalibrationBindingMismatch =>
                "calibration environment binding no longer matches".to_owned(),
            PlanCompatibilityReason::CalibrationObservationUnavailable =>
                "an applied calibration observation is missing or no longer measured".to_owned(),
        }
    }
}

#[derive(Debug, Clone, PartialEq, Eq)]
pub struct PlanCompatibilityReport {
    pub state: PlanCompatibility,
    pub reasons: Vec<PlanCompatibilityReason>,
}

/// A measured observation of that identifier is at hand.
pub open spec fn is_measured(
    observations: Seq<observation::PerformanceObservation>,
    identifier: Seq<char>,
) -> bool {
    exists|k: int|
        0 <= k < observations.len() && (#[trigger] observations[k]).identifier@ == identifier
            && observations[k].status == ObservationStatus::Measured
}

/// Every identifier has a measured observation.
pub open spec fn all_measured(
    observations: Seq<observation::PerformanceObservation>,
    identifiers: Seq<Seq<char>>,
) -> bool {
    forall|i: int| 0 <= i < identifiers.len() ==> is_measured(observations, #[trigger] identifiers[i])
}

/// The calibration result is the one that the plan was made with.
pub open spec fn same_provenance(
    calibration: CalibrationResult,
    provenance: planner::ProvenanceFacts,
) -> bool {
    &&& calibration.identifier@ == (match provenance.calibration_identifier {
        Some(identifier) => identifier,
        None => Seq::empty(),
    })
    &&& provenance.calibration_plan_identifier == Some(calibration.calibration_plan_identifier@)
    &&& provenance.calibration_plan_version == Some(calibration.calibration_plan_version)
    &&& provenance.calibration_ruleset_version == Some(calibration.calibration_ruleset_version)
}

/// The calibration result was made in this environment, as far as it says.
pub open spec fn bound_here(
    calibration: CalibrationResult,
    context: PlanCompilationContext<'_>,
) -> bool {
    &&& calibration.machine_fingerprint == profiles::machine_fingerprint(*context.machine)
    &&& calibration.model_fingerprint matches Some(model) ==> model
        == context.model.identity.descriptor_fingerprint
    &&& calibration.storage_fingerprint matches Some(storage) ==> storage
        == profiles::storage_fingerprint(*context.storage)
}

/// Why the calibration that the plan used no longer stands, if it does not.
pub open spec fn calibration_mismatch(
    facts: PersistedFacts,
    context: PersistedPlanCompatibilityContext<'_>,
) -> Option<PlanCompatibilityReason> {
    let machine = profiles::machine_fingerprint(*context.compilation.machine);
    let storage = profiles::storage_fingerprint(*context.compilation.storage);
    match context.calibration {
        None => Some(PlanCompatibilityReason::CalibrationMissing),
        Some(calibration) => if observation::calibration_check(*calibration) is Err {
            Some(PlanCompatibilityReason::CalibrationInvalid)
        } else if facts.source_machine_fingerprint != machine {
            Some(PlanCompatibilityReason::CalibrationSourceMachineChanged)
        } else if facts.source_storage_fingerprint != storage {
            Some(PlanCompatibilityReason::CalibrationSourceStorageChanged)
        } else if !same_provenance(*calibration, facts.calibration) {
            Some(PlanCompatibilityReason::CalibrationProvenanceMismatch)
        } else if !bound_here(*calibration, context.compilation) {
            Some(PlanCompatibilityReason::CalibrationBindingMismatch)
        } else if !all_measured(
            calibration.observations@,
            facts.calibration.observation_identifiers,
        ) {
            Some(PlanCompatibilityReason::CalibrationObservationUnavailable)
        } else {
            None
        },
    }
}

/// Why a new calibration is recommended for a plan that compiles.
pub open spec fn recalibration(
    facts: PersistedFacts,
    context: PersistedPlanCompatibilityContext<'_>,
) -> Option<PlanCompatibilityReason> {
    match calibration_reason_of(facts.reasons) {
        Some(PlanReasonCode::CalibrationNotRequested) => None,
        Some(PlanReasonCode::CalibrationObservationsApplied) => calibration_mismatch(
            facts,
            context,
        ),
        _ => Some(PlanCompatibilityReason::CalibrationNotApplied),
    }
}

/// The state of a plan in an environment, with the reason where it is not valid.
pub open spec fn compatibility(
    facts: PersistedFacts,
    context: PersistedPlanCompatibilityContext<'_>,
) -> (PlanCompatibility, Option<PlanCompatibilityReason>) {
    if structure_check(facts) is Err {
        (PlanCompatibility::Incompatible, Some(PlanCompatibilityReason::PersistedPlanInvalid))
    } else if facts.model_descriptor_fingerprint
        != context.compilation.model.identity.descriptor_fingerprint {
        (PlanCompatibility::Incompatible, Some(PlanCompatibilityReason::ModelFingerprintMismatch))
    } else {
        match plan_compiler::compiled(
            materialized_for(facts, context.compilation),
            context.compilation,
        ) {
            Err(error) => (
                PlanCompatibility::Incompatible,
                Some(PlanCompatibilityReason::PlanCompilationFailed(error)),
            ),
            Ok(_) => match recalibration(facts, context) {
                None => (PlanCompatibility::Valid, None),
                Some(reason) => (
                    PlanCompatibility::CompatibleRecalibrationRecommended,
                    Some(reason),
                ),
            },
        }
    }
}

fn find_measured(calibration: &CalibrationResult, identifier: &str) -> (found: bool)
    ensures
        found == is_measured(calibration.observations@, identifier@),
{
    for k in 0..calibration.observations.len()
        invariant
            forall|j: int|
                0 <= j < k ==> !((#[trigger] calibration.observations@[j]).identifier@
                    == identifier@ && calibration.observations@[j].status
                    == ObservationStatus::Measured),
    {
        if text::str_equal(calibration.observations[k].identifier.as_str(), identifier)
            && calibration.observations[k].status == ObservationStatus::Measured {
            return true;
        }
    }
    false
}

fn find_all_measured(calibration: &CalibrationResult, identifiers: &Vec<String>) -> (found: bool)
    ensures
        found == all_measured(calibration.observations@, text::texts(identifiers@)),
{
    for i in 0..identifiers.len()
        invariant
            forall|j: int|
                0 <= j < i ==> is_measured(
                    calibration.observations@,
                    #[trigger] text::texts(identifiers@)[j],
                ),
    {
        assert(text::texts(identifiers@)[i as int] == identifiers@[i as int]@);
        if !find_measured(calibration, identifiers[i].as_str()) {
            return false;
        }
    }
    true
}

fn provenance_matches(calibration: &CalibrationResult, provenance: &CalibrationProvenance) -> (same:
    bool)
    ensures
        same == same_provenance(*calibration, provenance@),
{
    let identifier_same = match &provenance.calibration_identifier {
        Some(identifier) => text::str_equal(calibration.identifier.as_str(), identifier.as_str()),
        None => {
            let empty = calibration.identifier.as_str().is_empty();
            assert(empty == (calibration.identifier@ =~= Seq::<char>::empty()));
            empty
        },
    };
    let plan_same = match &provenance.calibration_plan_identifier {
        Some(identifier) => text::str_equal(
            calibration.calibration_plan_identifier.as_str(),
            identifier.as_str(),
        ),
        None => false,
    };
    identifier_same && plan_same && provenance.calibration_plan_version == Some(
        calibration.calibration_plan_version,
    ) && provenance.calibration_ruleset_version == Some(calibration.calibration_ruleset_version)
}

fn binding_matches(
    calibration: &CalibrationResult,
    machine: u64,
    model: u64,
    storage: u64,
) -> (same: bool)
    ensures
        same == (calibration.machine_fingerprint == machine && (
        calibration.model_fingerprint matches Some(found) ==> found == model) && (
        calibration.storage_fingerprint matches Some(found) ==> found == storage)),
{
    let model_same = match calibration.model_fingerprint {
        Some(found) => found == model,
        None => true,
    };
    let storage_same = match calibration.storage_fingerprint {
        Some(found) => found == storage,
        None => true,
    };
    calibration.machine_fingerprint == machine && model_same && storage_same
}

fn single_reason(state: PlanCompatibility, reason: PlanCompatibilityReason) -> (report:
    PlanCompatibilityReport)
    ensures
        report.state == state,
        report.reasons@ == seq![reason],
{
    let mut reasons: Vec<PlanCompatibilityReason> = Vec::new();
    reasons.push(reason);
    PlanCompatibilityReport { state, reasons }
}

/// The reasons of a report: none or the one.
pub open spec fn reason_seq(reason: Option<PlanCompatibilityReason>) -> Seq<
    PlanCompatibilityReason,
> {
    match reason {
        Some(reason) => seq![reason],
        None => Seq::empty(),
    }
}

impl PersistedExecutionPlan {
    pub fn compatibility_report(&self, context: PersistedPlanCompatibilityContext<'_>) -> (report:
        PlanCompatibilityReport)
        ensures
            report.state == compatibility(self@, context).0,
            report.reasons@ == reason_seq(compatibility(self@, context).1),
    {
        if self.validate_structure().is_err() {
            return single_reason(
                PlanCompatibility::Incompatible,
                PlanCompatibilityReason::PersistedPlanInvalid,
            );
        }
        if self.model_descriptor_fingerprint
            != context.compilation.model.identity.descriptor_fingerprint {
            return single_reason(
                PlanCompatibility::Incompatible,
                PlanCompatibilityReason::ModelFingerprintMismatch,
            );
        }
        let candidate = self.materialize_for_context(context.compilation);
        match (PlanCompiler {  }).compile(&candidate, context.compilation) {
            Ok(_) => {},
            Err(error) => {
                return single_reason(
                    PlanCompatibility::Incompatible,
                    PlanCompatibilityReason::PlanCompilationFailed(error),
                );
            },
        }
        match self.recalibration_reason(context) {
            Some(reason) => single_reason(
                PlanCompatibility::CompatibleRecalibrationRecommended,
                reason,
            ),
            None => PlanCompatibilityReport {
                state: PlanCompatibility::Valid,
                reasons: Vec::new(),
            },
        }
    }

    pub fn validate_compatibility(&self, context: PersistedPlanCompatibilityContext<'_>) -> (state:
        PlanCompatibility)
        ensures
            state == compatibility(self@, context).0,
    {
        self.compatibility_report(context).state
    }

    fn recalibration_reason(&self, context: PersistedPlanCompatibilityContext<'_>) -> (reason:
        Option<PlanCompatibilityReason>)
        ensures
            reason == recalibration(self@, context),
    {
        match find_calibration_reason(&self.reasons) {
            Some(PlanReasonCode::CalibrationNotRequested) => None,
            Some(PlanReasonCode::CalibrationObservationsApplied) => {
                self.calibration_mismatch_reason(context)
            },
            _ => Some(PlanCompatibilityReason::CalibrationNotApplied),
        }
    }

    fn calibration_mismatch_reason(&self, context: PersistedPlanCompatibilityContext<'_>) -> (reason:
        Option<PlanCompatibilityReason>)
        ensures
            reason == calibration_mismatch(self@, context),
    {
        let calibration = match context.calibration {
            Some(calibration) => calibration,
            None => {
                return Some(PlanCompatibilityReason::CalibrationMissing);
            },
        };
        if calibration.validate().is_err() {
            return Some(PlanCompatibilityReason::CalibrationInvalid);
        }
        let machine: u64 = context.compilation.machine.fingerprint();
        let storage: u64 = context.compilation.storage.fingerprint();
        if self.source_machine_fingerprint != machine {
            return Some(PlanCompatibilityReason::CalibrationSourceMachineChanged);
        }
        if self.source_storage_fingerprint != storage {
            return Some(PlanCompatibilityReason::CalibrationSourceStorageChanged);
        }
        if !provenance_matches(calibration, &self.calibration) {
            return Some(PlanCompatibilityReason::CalibrationProvenanceMismatch);
        }
        if !binding_matches(
            calibration,
            machine,
            context.compilation.model.identity.descriptor_fingerprint,
            storage,
        ) {
            return Some(PlanCompatibilityReason::CalibrationBindingMismatch);
        }
        if !find_all_measured(calibration, &self.calibration.observation_identifiers) {
            return Some(PlanCompatibilityReason::CalibrationObservationUnavailable);
        }
        None
    }
}

/// A plan is incompatible exactly where no configuration can be had from it, and
/// calibration never decides that.
pub proof fn lemma_compatible_compiles(
    facts: PersistedFacts,
    context: PersistedPlanCompatibilityContext<'_>,
)
    ensures
        compatibility(facts, context).0 == PlanCompatibility::Incompatible <==> persisted_config(
            facts,
            context.compilation,
        ) is Err,
        forall|other: Option<&CalibrationResult>|
            (#[trigger] compatibility(
                facts,
                PersistedPlanCompatibilityContext {
                    compilation: context.compilation,
                    calibration: other,
                },
            )).0 == PlanCompatibility::Incompatible <==> compatibility(facts, context).0
                == PlanCompatibility::Incompatible,
{
}

/// Where a plan lies does not show in what is persisted: two plans that differ
/// only in the path of the model are written as the same bytes.
pub proof fn lemma_path_not_persisted(first: planner::PlanFacts, second: planner::PlanFacts)
    requires
        first == (planner::PlanFacts {
            binding: planner::BindingFacts {
                model_path: first.binding.model_path,
                ..second.binding
            },
            ..second
        }),
    ensures
        persisted(first) == persisted(second),
        encoded(persisted(first)) == encoded(persisted(second)),
{
}

/// A persisted plan, materialized with the binding it was made with, is the plan
/// it was made from. With an available amount of memory given, only that amount
/// differs.
pub proof fn lemma_materialized_round_trip(plan: planner::PlanFacts, available: u64)
    ensures
        materialized(
            persisted(plan),
            plan.binding.machine_fingerprint,
            plan.binding.storage_fingerprint,
            plan.binding.model_path,
            None,
        ) == plan,
        materialized(
            persisted(plan),
            plan.binding.machine_fingerprint,
            plan.binding.storage_fingerprint,
            plan.binding.model_path,
            Some(available),
        ) == (planner::PlanFacts {
            reservations: ResourceReservations {
                available_ram_bytes_at_planning: available,
                ..plan.reservations
            },
            ..plan
        }),
{
}

/// Elsewhere, nothing but the binding and the available amount of memory differs.
pub proof fn lemma_materialized_keeps_decisions(
    plan: planner::PlanFacts,
    context: PlanCompilationContext<'_>,
)
    ensures
        materialized_for(persisted(plan), context) == (planner::PlanFacts {
            binding: planner::BindingFacts {
                model_descriptor_fingerprint: plan.binding.model_descriptor_fingerprint,
                machine_fingerprint: profiles::machine_fingerprint(*context.machine),
                storage_fingerprint: profiles::storage_fingerprint(*context.storage),
                model_path: context.storage.model_path@,
            },
            reservations: ResourceReservations {
                available_ram_bytes_at_planning: match context.machine.available_ram_bytes {
                    Some(available) => available,
                    None => plan.reservations.available_ram_bytes_at_planning,
                },
                ..plan.reservations
            },
            ..plan
        }),
{
}

/// A persisted plan, materialized where it was made, is the plan it was made from,
/// where the memory that is available now is as it was or not known.
pub proof fn lemma_materialized_is_source(
    plan: planner::PlanFacts,
    context: PlanCompilationContext<'_>,
)
    requires
        plan.binding.machine_fingerprint == profiles::machine_fingerprint(*context.machine),
        plan.binding.storage_fingerprint == profiles::storage_fingerprint(*context.storage),
        plan.binding.model_path == context.storage.model_path@,
        context.machine.available_ram_bytes is None || context.machine.available_ram_bytes == Some(
            plan.reservations.available_ram_bytes_at_planning,
        ),
    ensures
        materialized_for(persisted(plan), context) == plan,
{
    lemma_materialized_round_trip(plan, plan.reservations.available_ram_bytes_at_planning);
}

/// The strings that a plan takes from a calibration fit the format.
pub open spec fn calibration_strings_fit(calibration: CalibrationResult) -> bool {
    &&& plan_codec::string_fits(calibration.identifier@)
    &&& plan_codec::string_fits(calibration.calibration_plan_identifier@)
    &&& forall|k: int|
        0 <= k < calibration.observations@.len() ==> plan_codec::string_fits(
            (#[trigger] calibration.observations@[k]).identifier@,
        )
}

/// A plan's reasons are sound: no code twice, and one says what became of
/// calibration.
proof fn lemma_planned_reasons(
    user: profiles::UserProfile,
    made: planner::Decisions,
    cost: planner::CostFacts,
)
    requires
        !made.gpu.enabled,
        made.thread_reason == PlanReasonCode::ThreadCountSelectedByPreset || made.thread_reason
            == PlanReasonCode::ThreadCountSelectedByAdvancedOverride,
        is_calibration_reason(cost.reason),
    ensures
        ({
            let reasons = planner::plan_reasons(user, made, cost);
            &&& reasons.len() == 8
            &&& codes_check(reasons) is Ok
            &&& calibration_reason_of(reasons) == Some(cost.reason)
        }),
{
    let reasons = planner::plan_reasons(user, made, cost);
    assert(reasons.len() == 8);
    let r7 = reasons.drop_last();
    let r6 = r7.drop_last();
    let r5 = r6.drop_last();
    let r4 = r5.drop_last();
    let r3 = r4.drop_last();
    let r2 = r3.drop_last();
    let r1 = r2.drop_last();
    let r0 = r1.drop_last();
    assert(codes_check(r0) is Ok && calibration_reason_of(r0) is None);
    assert(codes_check(r1) is Ok && calibration_reason_of(r1) is None);
    assert(codes_check(r2) is Ok && calibration_reason_of(r2) is None);
    assert(codes_check(r3) is Ok && calibration_reason_of(r3) is None);
    assert(codes_check(r4) is Ok && calibration_reason_of(r4) is None);
    assert(codes_check(r5) is Ok && calibration_reason_of(r5) is None);
    assert(codes_check(r6) is Ok && calibration_reason_of(r6) is None);
    assert(codes_check(r7) is Ok && calibration_reason_of(r7) is None);
}

/// The provenance of a calibration that was applied is sound, and agrees with the
/// reason given for it.
proof fn lemma_planned_provenance(
    calibration: CalibrationResult,
    strategy: StrategyId,
    physical_bytes: u64,
)
    requires
        observation::calibration_check(calibration) is Ok,
        calibration_strings_fit(calibration),
    ensures
        ({
            let cost = planner::applied_calibration(calibration, strategy, physical_bytes);
            &&& provenance_check(cost.provenance) is Ok
            &&& is_calibration_reason(cost.reason)
            &&& reason_agrees(cost.reason, cost.provenance)
        }),
{
    let observations = calibration.observations@;
    let read_metric = observation::ObservationMetric::SequentialReadThroughput;
    let latency_metric = observation::ObservationMetric::StrategyLatency;
    planner::lemma_best_place(observations, read_metric, None);
    planner::lemma_best_place(observations, latency_metric, Some(strategy));
    let read = planner::best_place(observations, read_metric, None);
    let latency = planner::best_place(observations, latency_metric, Some(strategy));
    if let Some(at) = read {
        observation::lemma_observation_valid(observations, calibration.level, at);
    }
    if let Some(at) = latency {
        observation::lemma_observation_valid(observations, calibration.level, at);
    }
    if let (Some(first), Some(second)) = (read, latency) {
        if first < second {
            observation::lemma_identifiers_distinct(observations, calibration.level, first, second);
        } else {
            observation::lemma_identifiers_distinct(observations, calibration.level, second, first);
        }
    }
    let cost = planner::applied_calibration(calibration, strategy, physical_bytes);
    let identifiers = cost.provenance.observation_identifiers;
    assert(identifiers.len() <= 2);
    if identifiers.len() > 0 {
        let shorter = identifiers.drop_last();
        assert(identifier_valid(identifiers[0]));
        if identifiers.len() == 2 {
            assert(shorter[0] == identifiers[0] && shorter.last() == shorter[0]);
            assert(shorter.drop_last() =~= Seq::empty());
            assert(identifiers_check(shorter.drop_last()) is Ok);
            assert(!shorter.drop_last().contains(shorter.last()));
            assert(identifiers_check(shorter) is Ok);
            assert(identifiers[0] != identifiers[1]);
        } else {
            assert(shorter =~= Seq::empty());
        }
    }
    assert(identifiers_check(identifiers) is Ok);
}

/// What the planner plans can be persisted: its structure is sound wherever the
/// fingerprints are not zero and the calibration's strings fit the format.
pub proof fn lemma_planned_persists(inputs: planner::PlanInputs, source: crate::gguf::GgufModel)
    requires
        planner::execution_plan(inputs) is Ok,
        crate::plan::is_plan_of(inputs.static_plan, source, inputs.user.ram_budget_bytes),
        inputs.model.identity.descriptor_fingerprint != 0,
        profiles::machine_fingerprint(inputs.machine) != 0,
        profiles::storage_fingerprint(inputs.storage) != 0,
        inputs.calibration is Some ==> calibration_strings_fit(inputs.calibration->0),
    ensures
        structure_check(persisted(planner::execution_plan(inputs)->Ok_0)) is Ok,
{
    planner::lemma_plan_within_limits(inputs);
    let plan = planner::execution_plan(inputs)->Ok_0;
    let made = planner::decisions(inputs)->Ok_0;
    let cost = planner::cost_estimate(
        inputs.user,
        profiles::machine_fingerprint(inputs.machine),
        inputs.model.identity.descriptor_fingerprint,
        profiles::storage_fingerprint(inputs.storage),
        planner::chosen_strategy(made.gpu.enabled),
        inputs.static_plan.execution_memory->0.estimated_physical_bytes_per_forward,
        inputs.calibration,
    );
    if let Some(calibration) = inputs.calibration {
        lemma_planned_provenance(
            calibration,
            planner::chosen_strategy(made.gpu.enabled),
            inputs.static_plan.execution_memory->0.estimated_physical_bytes_per_forward,
        );
    }
    assert(identifiers_check(Seq::<Seq<char>>::empty()) is Ok);
    assert(provenance_check(planner::no_provenance()) is Ok);
    lemma_planned_reasons(inputs.user, made, cost);
    assert(reasons_check(plan.reasons, plan.calibration) is Ok);
}

/// The bytes of a plan that runs on the CPU under a calibration with fitting
/// strings stay within the limit.
proof fn lemma_plan_length(facts: PersistedFacts)
    requires
        calibration_fits(facts.calibration),
        facts.gpu.selected_device_id is None,
        facts.calibration.observation_identifiers.len() <= 2,
        facts.reasons.len() == 8,
    ensures
        plan_bytes(facts).len() <= MAX_PERSISTED_PLAN_BYTES,
{
    broadcast use plan_codec::lemma_u32_length;
    broadcast use plan_codec::lemma_u64_length;

    let bytes = plan_bytes(facts);
    assert(bytes.subrange(0, bytes.len() as int) =~= bytes);
    lemma_identity(bytes, 0, head_of(facts).identity);
    lemma_choices(bytes, 0, head_of(facts).choices);
    lemma_streaming(bytes, 0, head_of(facts).streaming);
    lemma_reservations(bytes, 0, facts.reservations);
    assert(gpu_bytes(facts.gpu).len() == 3) by {
        reveal(gpu_bytes);
    }
    assert(cost_bytes(facts.cost).len() <= 26) by {
        reveal(cost_bytes);
    }
    assert(calibration_bytes(facts.calibration).len() <= 4 * 65540 + 20) by {
        reveal(calibration_bytes);
        reveal(observed_bytes);
        lemma_two_strings(facts.calibration.observation_identifiers);
    }
    assert(reason_list_bytes(facts.reasons).len() <= 84) by {
        reveal(reason_list_bytes);
        lemma_reasons_length(facts.reasons);
    }
}

proof fn lemma_two_strings(values: Seq<Seq<char>>)
    requires
        values.len() <= 2,
        plan_codec::strings_fit(values),
    ensures
        plan_codec::strings_bytes(values).len() <= values.len() * 65540,
    decreases values.len(),
{
    broadcast use plan_codec::lemma_u32_length;

    if values.len() > 0 {
        let earlier = values.drop_last();
        assert forall|i: int| 0 <= i < earlier.len() implies plan_codec::string_fits(
            #[trigger] earlier[i],
        ) by {
            assert(earlier[i] == values[i]);
        }
        lemma_two_strings(earlier);
    }
}

proof fn lemma_reasons_length(reasons: Seq<PlanReason>)
    ensures
        reasons_bytes(reasons).len() <= reasons.len() * 10,
    decreases reasons.len(),
{
    broadcast use plan_codec::lemma_u64_length;

    if reasons.len() > 0 {
        lemma_reasons_length(reasons.drop_last());
    }
}

/// How large a planned plan can be, and how it is bound.
proof fn lemma_planned_shape(inputs: planner::PlanInputs)
    requires
        planner::execution_plan(inputs) is Ok,
    ensures
        ({
            let plan = planner::execution_plan(inputs)->Ok_0;
            &&& plan.gpu.selected_device_id is None
            &&& plan.calibration.observation_identifiers.len() <= 2
            &&& plan.reasons.len() == 8
            &&& plan.binding.model_descriptor_fingerprint
                == inputs.model.identity.descriptor_fingerprint
            &&& plan.binding.machine_fingerprint == profiles::machine_fingerprint(inputs.machine)
            &&& plan.binding.storage_fingerprint == profiles::storage_fingerprint(inputs.storage)
            &&& plan.binding.model_path == inputs.storage.model_path@
            &&& inputs.machine.available_ram_bytes == Some(
                plan.reservations.available_ram_bytes_at_planning,
            )
        }),
{
    planner::lemma_plan_within_limits(inputs);
}

proof fn lemma_small_plan_written(facts: PersistedFacts)
    requires
        structure_check(facts) is Ok,
        facts.gpu.selected_device_id is None,
        facts.calibration.observation_identifiers.len() <= 2,
        facts.reasons.len() == 8,
    ensures
        encoded(facts) is Ok,
{
    lemma_structure_fits(facts);
    lemma_plan_length(facts);
}

proof fn lemma_compiled_once_more(
    facts: PersistedFacts,
    context: PlanCompilationContext<'_>,
    plan: planner::PlanFacts,
)
    requires
        structure_check(facts) is Ok,
        facts.model_descriptor_fingerprint == context.model.identity.descriptor_fingerprint,
        materialized_for(facts, context) == plan,
        plan_compiler::compiled(plan, context) is Ok,
    ensures
        persisted_config(facts, context) == Ok::<RuntimeConfig, PersistedPlanValidationError>(
            plan_compiler::compiled(plan, context)->Ok_0,
        ),
{
}

/// What the planner plans survives persistence: the plan is written, reads back as
/// what was written, and compiles where it was made to the plan's own decisions.
pub proof fn lemma_planned_survives(inputs: planner::PlanInputs, source: crate::gguf::GgufModel)
    requires
        planner::execution_plan(inputs) is Ok,
        crate::plan::is_plan_of(inputs.static_plan, source, inputs.user.ram_budget_bytes),
        inputs.storage.file_size_bytes == Some(inputs.model.file_size_bytes),
        inputs.model.identity.descriptor_fingerprint != 0,
        profiles::machine_fingerprint(inputs.machine) != 0,
        profiles::storage_fingerprint(inputs.storage) != 0,
        inputs.calibration is Some ==> calibration_strings_fit(inputs.calibration->0),
    ensures
        ({
            let plan = planner::execution_plan(inputs)->Ok_0;
            let context = PlanCompilationContext {
                machine: &inputs.machine,
                model: &inputs.model,
                storage: &inputs.storage,
                capabilities: &inputs.capabilities,
                static_plan: &inputs.static_plan,
            };
            &&& encoded(persisted(plan)) is Ok
            &&& decoded(encoded(persisted(plan))->Ok_0) == Ok::<
                PersistedFacts,
                PlanPersistenceError,
            >(persisted(plan))
            &&& persisted_config(persisted(plan), context) == Ok::<
                RuntimeConfig,
                PersistedPlanValidationError,
            >(plan_compiler::planned_config(plan))
        }),
{
    let plan = planner::execution_plan(inputs)->Ok_0;
    let context = PlanCompilationContext {
        machine: &inputs.machine,
        model: &inputs.model,
        storage: &inputs.storage,
        capabilities: &inputs.capabilities,
        static_plan: &inputs.static_plan,
    };
    lemma_planned_persists(inputs, source);
    lemma_planned_shape(inputs);
    lemma_small_plan_written(persisted(plan));
    lemma_written_reads(persisted(plan));
    lemma_materialized_is_source(plan, context);
    plan_compiler::lemma_planned_compiles(inputs, source, plan);
    lemma_compiled_once_more(persisted(plan), context, plan);
}

/// Where calibration has left no trace: nothing names it and nothing was observed.
pub open spec fn uncalibrated(calibration: planner::ProvenanceFacts) -> bool {
    &&& calibration.calibration_identifier is None
    &&& calibration.calibration_plan_identifier is None
    &&& calibration.calibration_plan_version is None
    &&& calibration.calibration_ruleset_version is None
    &&& calibration.observation_identifiers.len() == 0
}

/// An identifier is not empty and takes at most 64 KiB.
pub open spec fn sound_identifier(identifier: Seq<char>) -> bool {
    identifier.len() > 0 && vstd::utf8::encode_utf8(identifier).len() <= 65536
}

/// Where calibration is named in full: result, plan and both versions, and each of
/// at most 1024 observations once.
pub open spec fn calibrated(calibration: planner::ProvenanceFacts) -> bool {
    let observed = calibration.observation_identifiers;
    &&& calibration.calibration_identifier is Some && sound_identifier(
        calibration.calibration_identifier->0,
    )
    &&& calibration.calibration_plan_identifier is Some && sound_identifier(
        calibration.calibration_plan_identifier->0,
    )
    &&& calibration.calibration_plan_version is Some && calibration.calibration_plan_version->0 > 0
    &&& calibration.calibration_ruleset_version is Some
        && calibration.calibration_ruleset_version->0 > 0
    &&& observed.len() <= 1024
    &&& forall|i: int| 0 <= i < observed.len() ==> sound_identifier(#[trigger] observed[i])
    &&& forall|i: int, j: int|
        #![trigger observed[i], observed[j]]
        0 <= i < j < observed.len() ==> observed[i] != observed[j]
}

proof fn lemma_identifiers_sound(identifiers: Seq<Seq<char>>)
    ensures
        identifiers_check(identifiers) is Ok <==> {
            &&& forall|i: int|
                0 <= i < identifiers.len() ==> sound_identifier(#[trigger] identifiers[i])
            &&& forall|i: int, j: int|
                #![trigger identifiers[i], identifiers[j]]
                0 <= i < j < identifiers.len() ==> identifiers[i] != identifiers[j]
        },
    decreases identifiers.len(),
{
    if identifiers.len() > 0 {
        let shorter = identifiers.drop_last();
        let end = identifiers.len() - 1;
        lemma_identifiers_sound(shorter);
        assert(forall|i: int| 0 <= i < end ==> #[trigger] shorter[i] == identifiers[i]);
        assert(identifier_valid(identifiers[end]) == sound_identifier(identifiers[end]));
        if identifiers_check(identifiers) is Ok {
            assert forall|i: int| 0 <= i < identifiers.len() implies sound_identifier(
                #[trigger] identifiers[i],
            ) by {
                if i < end {
                    assert(sound_identifier(shorter[i]));
                }
            }
            assert forall|i: int, j: int|
                #![trigger identifiers[i], identifiers[j]]
                0 <= i < j < identifiers.len() implies identifiers[i] != identifiers[j] by {
                if j < end {
                    assert(shorter[i] != shorter[j]);
                } else {
                    assert(shorter[i] == identifiers[i]);
                }
            }
        }
        if (forall|i: int|
            0 <= i < identifiers.len() ==> sound_identifier(#[trigger] identifiers[i])) && (forall|
            i: int,
            j: int,
        |
            #![trigger identifiers[i], identifiers[j]]
            0 <= i < j < identifiers.len() ==> identifiers[i] != identifiers[j]) {
            assert forall|i: int| 0 <= i < shorter.len() implies sound_identifier(
                #[trigger] shorter[i],
            ) by {
                assert(sound_identifier(identifiers[i]));
            }
            assert forall|i: int, j: int|
                #![trigger shorter[i], shorter[j]]
                0 <= i < j < shorter.len() implies shorter[i] != shorter[j] by {
                assert(identifiers[i] != identifiers[j]);
            }
            if shorter.contains(identifiers.last()) {
                let k = choose|k: int| 0 <= k < shorter.len() && shorter[k] == identifiers.last();
                assert(identifiers[k] == identifiers[end]);
            }
            assert(sound_identifier(identifiers[end]));
        }
    }
}

/// The trace of calibration in a plan is accepted where there is none and where it
/// is complete.
pub proof fn lemma_provenance_accepted(calibration: planner::ProvenanceFacts)
    ensures
        provenance_check(calibration) is Ok <==> uncalibrated(calibration) || calibrated(
            calibration,
        ),
{
    lemma_identifiers_sound(calibration.observation_identifiers);
}

/// No two reasons have the same code.
pub open spec fn codes_differ(reasons: Seq<PlanReason>) -> bool {
    forall|i: int, j: int|
        #![trigger reasons[i], reasons[j]]
        0 <= i < j < reasons.len() ==> reasons[i].code != reasons[j].code
}

/// The reason at `k` is about calibration, and no other is.
pub open spec fn only_about_calibration(reasons: Seq<PlanReason>, k: int) -> bool {
    &&& 0 <= k < reasons.len()
    &&& is_calibration_reason(reasons[k].code)
    &&& forall|i: int|
        0 <= i < reasons.len() && i != k ==> !is_calibration_reason((#[trigger] reasons[i]).code)
}

/// What a reason says of calibration agrees with what calibration has left in the
/// plan: nothing where it was not asked for, no observation where none applied,
/// and a named result with observations where some did.
pub open spec fn says_what_happened(
    code: PlanReasonCode,
    calibration: planner::ProvenanceFacts,
) -> bool {
    let named = calibration.calibration_identifier is Some;
    let observed = calibration.observation_identifiers.len() > 0;
    &&& code == PlanReasonCode::CalibrationNotRequested ==> !named && !observed
    &&& code == PlanReasonCode::CalibrationNotApplicable ==> !observed
    &&& code == PlanReasonCode::CalibrationObservationsApplied ==> named && observed
}

/// The reasons of a plan hold each code at most once, and exactly one that is about
/// calibration, which agrees with what calibration has left in the plan.
pub open spec fn reasons_sound(
    reasons: Seq<PlanReason>,
    calibration: planner::ProvenanceFacts,
) -> bool {
    &&& 1 <= reasons.len() <= 1024
    &&& codes_differ(reasons)
    &&& exists|k: int| #[trigger]
        only_about_calibration(reasons, k) && says_what_happened(reasons[k].code, calibration)
}

proof fn lemma_calibration_reason_place(reasons: Seq<PlanReason>)
    ensures
        calibration_reason_of(reasons) is None ==> forall|i: int|
            0 <= i < reasons.len() ==> !is_calibration_reason((#[trigger] reasons[i]).code),
        calibration_reason_of(reasons) is Some ==> exists|k: int|
            0 <= k < reasons.len() && is_calibration_reason((#[trigger] reasons[k]).code)
                && reasons[k].code == calibration_reason_of(reasons)->0 && forall|i: int|
                0 <= i < k ==> !is_calibration_reason((#[trigger] reasons[i]).code),
    decreases reasons.len(),
{
    if reasons.len() > 0 {
        let shorter = reasons.drop_last();
        let end = reasons.len() - 1;
        lemma_calibration_reason_place(shorter);
        assert(forall|i: int| 0 <= i < end ==> #[trigger] shorter[i] == reasons[i]);
        if calibration_reason_of(shorter) is Some {
            let k = choose|k: int|
                0 <= k < shorter.len() && is_calibration_reason((#[trigger] shorter[k]).code)
                    && shorter[k].code == calibration_reason_of(shorter)->0 && forall|i: int|
                    0 <= i < k ==> !is_calibration_reason((#[trigger] shorter[i]).code);
            assert(is_calibration_reason(reasons[k].code));
            assert forall|i: int| 0 <= i < k implies !is_calibration_reason(
                (#[trigger] reasons[i]).code,
            ) by {
                assert(!is_calibration_reason(shorter[i].code));
            }
        } else {
            assert forall|i: int| 0 <= i < end implies !is_calibration_reason(
                (#[trigger] reasons[i]).code,
            ) by {
                assert(!is_calibration_reason(shorter[i].code));
            }
            assert(reasons[end] == reasons.last());
        }
    }
}

proof fn lemma_codes_step(reasons: Seq<PlanReason>)
    requires
        reasons.len() > 0,
    ensures
        codes_differ(reasons) <==> codes_differ(reasons.drop_last()) && !reason_codes(
            reasons.drop_last(),
        ).contains(reasons.last().code),
{
    let shorter = reasons.drop_last();
    let end = reasons.len() - 1;
    let codes = reason_codes(shorter);
    if codes_differ(reasons) {
        assert forall|i: int, j: int|
            #![trigger shorter[i], shorter[j]]
            0 <= i < j < shorter.len() implies shorter[i].code != shorter[j].code by {
            assert(reasons[i].code != reasons[j].code);
        }
        if codes.contains(reasons.last().code) {
            let k = choose|k: int| 0 <= k < codes.len() && codes[k] == reasons.last().code;
            assert(reasons[k].code == reasons[end].code);
        }
    }
    if codes_differ(shorter) && !codes.contains(reasons.last().code) {
        assert forall|i: int, j: int|
            #![trigger reasons[i], reasons[j]]
            0 <= i < j < reasons.len() implies reasons[i].code != reasons[j].code by {
            if j < end {
                assert(shorter[i].code != shorter[j].code);
            } else {
                assert(codes[i] == reasons[i].code);
            }
        }
    }
}

proof fn lemma_one_calibration_reason(reasons: Seq<PlanReason>, k: int)
    requires
        only_about_calibration(reasons, k),
    ensures
        calibration_reason_of(reasons) == Some(reasons[k].code),
{
    lemma_calibration_reason_place(reasons);
    let found = choose|j: int|
        0 <= j < reasons.len() && is_calibration_reason((#[trigger] reasons[j]).code)
            && reasons[j].code == calibration_reason_of(reasons)->0 && forall|i: int|
            0 <= i < j ==> !is_calibration_reason((#[trigger] reasons[i]).code);
    assert(found == k);
}

proof fn lemma_calibration_reason_step(reasons: Seq<PlanReason>)
    requires
        reasons.len() > 0,
    ensures
        forall|k: int| #[trigger]
            only_about_calibration(reasons, k) ==> (k < reasons.len() - 1
                && !is_calibration_reason(reasons.last().code) && only_about_calibration(
                reasons.drop_last(),
                k,
            )) || (k == reasons.len() - 1 && calibration_reason_of(reasons.drop_last()) is None),
        forall|k: int| #[trigger]
            only_about_calibration(reasons.drop_last(), k) && !is_calibration_reason(
                reasons.last().code,
            ) ==> only_about_calibration(reasons, k),
        calibration_reason_of(reasons.drop_last()) is None && is_calibration_reason(
            reasons.last().code,
        ) ==> only_about_calibration(reasons, reasons.len() - 1),
{
    let shorter = reasons.drop_last();
    let end = reasons.len() - 1;
    lemma_calibration_reason_place(shorter);
    assert(forall|i: int| 0 <= i < end ==> #[trigger] shorter[i] == reasons[i]);
    assert forall|k: int| #[trigger] only_about_calibration(reasons, k) implies (k < end
        && !is_calibration_reason(reasons.last().code) && only_about_calibration(shorter, k)) || (k
        == end && calibration_reason_of(shorter) is None) by {
        assert forall|i: int| 0 <= i < shorter.len() && i != k implies !is_calibration_reason(
            (#[trigger] shorter[i]).code,
        ) by {
            assert(!is_calibration_reason(reasons[i].code));
        }
        if k < end {
            assert(!is_calibration_reason(reasons[end].code));
        } else if calibration_reason_of(shorter) is Some {
            let j = choose|j: int|
                0 <= j < shorter.len() && is_calibration_reason((#[trigger] shorter[j]).code)
                    && shorter[j].code == calibration_reason_of(shorter)->0 && forall|i: int|
                    0 <= i < j ==> !is_calibration_reason((#[trigger] shorter[i]).code);
            assert(!is_calibration_reason(reasons[j].code));
        }
    }
    assert forall|k: int| #[trigger]
        only_about_calibration(shorter, k) && !is_calibration_reason(
            reasons.last().code,
        ) implies only_about_calibration(reasons, k) by {
        assert forall|i: int| 0 <= i < reasons.len() && i != k implies !is_calibration_reason(
            (#[trigger] reasons[i]).code,
        ) by {
            if i < end {
                assert(!is_calibration_reason(shorter[i].code));
            }
        }
    }
    if calibration_reason_of(shorter) is None && is_calibration_reason(reasons.last().code) {
        assert forall|i: int| 0 <= i < reasons.len() && i != end implies !is_calibration_reason(
            (#[trigger] reasons[i]).code,
        ) by {
            assert(!is_calibration_reason(shorter[i].code));
        }
    }
}

/// The codes of a plan's reasons pass where they differ and at most one of them is
/// about calibration.
proof fn lemma_codes_pass(reasons: Seq<PlanReason>)
    ensures
        codes_check(reasons) is Ok ==> codes_differ(reasons) && (calibration_reason_of(reasons)
            is Some ==> exists|k: int| #[trigger] only_about_calibration(reasons, k)),
        codes_differ(reasons) && (calibration_reason_of(reasons) is None || exists|k: int| #[trigger]
            only_about_calibration(reasons, k)) ==> codes_check(reasons) is Ok,
    decreases reasons.len(),
{
    if reasons.len() > 0 {
        let shorter = reasons.drop_last();
        lemma_codes_pass(shorter);
        lemma_codes_step(reasons);
        lemma_calibration_reason_step(reasons);
        if codes_check(reasons) is Ok && calibration_reason_of(reasons) is Some {
            if calibration_reason_of(shorter) is Some {
                let k = choose|k: int| #[trigger] only_about_calibration(shorter, k);
                assert(only_about_calibration(reasons, k));
            } else {
                assert(only_about_calibration(reasons, reasons.len() - 1));
            }
        }
        if codes_differ(reasons) && exists|k: int| #[trigger] only_about_calibration(reasons, k) {
            let k = choose|k: int| #[trigger] only_about_calibration(reasons, k);
            if k < reasons.len() - 1 {
                assert(only_about_calibration(shorter, k));
            }
        }
    }
}

/// The reasons of a plan are accepted exactly where they are sound.
pub proof fn lemma_reasons_accepted(
    reasons: Seq<PlanReason>,
    calibration: planner::ProvenanceFacts,
)
    ensures
        reasons_check(reasons, calibration) is Ok <==> reasons_sound(reasons, calibration),
{
    lemma_codes_pass(reasons);
    if exists|k: int| #[trigger] only_about_calibration(reasons, k) {
        let k = choose|k: int| #[trigger] only_about_calibration(reasons, k);
        lemma_one_calibration_reason(reasons, k);
    }
    assert forall|k: int| #[trigger] only_about_calibration(
        reasons,
        k,
    ) implies calibration_reason_of(reasons) == Some(reasons[k].code) by {
        lemma_one_calibration_reason(reasons, k);
    }
}

/// When a persisted plan is accepted: it is of the current format, names versions,
/// model, machine and storage, keeps its reservations within the budget and its
/// cache within what they leave, and its traces of calibration, its reasons and
/// its decisions are sound.
pub proof fn lemma_structure_accepted(facts: PersistedFacts)
    ensures
        ({
            let held = facts.reservations;
            let gpu = facts.gpu;
            structure_check(facts) is Ok <==> {
                &&& facts.persistence_schema_version == 1
                &&& facts.execution_schema_version > 0 && facts.planner_ruleset_version > 0
                &&& facts.model_descriptor_fingerprint != 0 && facts.source_machine_fingerprint != 0
                    && facts.source_storage_fingerprint != 0
                &&& held.available_ram_bytes_at_planning >= facts.ram_budget_bytes
                &&& held.managed_lower_bound_bytes + held.remaining_budget_after_lower_bound_bytes
                    == facts.ram_budget_bytes
                &&& facts.layer_cache.capacity_bytes
                    <= held.remaining_budget_after_lower_bound_bytes
                &&& gpu.selected_device_id is Some ==> (gpu.selected_device_id->0).len() > 0
                &&& uncalibrated(facts.calibration) || calibrated(facts.calibration)
                &&& reasons_sound(facts.reasons, facts.calibration)
                &&& facts.cpu_thread_count > 0 && facts.ram_budget_bytes > 0
                &&& facts.layer_cache.enabled <==> facts.layer_cache.capacity_bytes > 0
                &&& facts.strategy == StrategyId::CpuLayerStreaming ==> !gpu.enabled
                    && gpu.selected_device_id is None && gpu.preference != GpuPreference::Require
                &&& facts.strategy == StrategyId::GpuLayerOffload ==> gpu.enabled
                    && gpu.selected_device_id is Some && gpu.preference != GpuPreference::Disabled
            }
        }),
{
    lemma_provenance_accepted(facts.calibration);
    lemma_reasons_accepted(facts.reasons, facts.calibration);
    if facts.gpu.selected_device_id is Some {
        let device = facts.gpu.selected_device_id->0;
        if device.len() == 0 {
            assert(device =~= Seq::<char>::empty());
        }
    }
}

/// What the numbers of a persisted plan stand for.
pub proof fn lemma_tag_values()
    ensures
        mode_tag(OperatingMode::BackgroundConstrained) == 0,
        mode_tag(OperatingMode::BalancedNormal) == 1,
        mode_tag(OperatingMode::MaximumPerformance) == 2,
        mode_tag(OperatingMode::Advanced) == 3,
        strategy_tag(StrategyId::CpuLayerStreaming) == 0,
        strategy_tag(StrategyId::GpuLayerOffload) == 1,
        preference_tag(GpuPreference::Disabled) == 0,
        preference_tag(GpuPreference::Prefer) == 1,
        preference_tag(GpuPreference::Require) == 2,
        reason_tag(PlanReasonCode::UserRamBudgetPreserved) == 0,
        reason_tag(PlanReasonCode::ThreadCountSelectedByPreset) == 1,
        reason_tag(PlanReasonCode::ThreadCountSelectedByAdvancedOverride) == 2,
        reason_tag(PlanReasonCode::CpuStrategySelected) == 3,
        reason_tag(PlanReasonCode::GpuStrategySelected) == 4,
        reason_tag(PlanReasonCode::GpuDisabledByUser) == 5,
        reason_tag(PlanReasonCode::GpuUnavailable) == 6,
        reason_tag(PlanReasonCode::LayerCacheEnabledWithinStaticCapacity) == 7,
        reason_tag(PlanReasonCode::LayerCacheDisabledByPreset) == 8,
        reason_tag(PlanReasonCode::LayerCacheDisabledBecauseNoCompleteLayerFits) == 9,
        reason_tag(PlanReasonCode::ReadCoalescingEnabled) == 10,
        reason_tag(PlanReasonCode::ReadCoalescingDisabled) == 11,
        reason_tag(PlanReasonCode::GroupedReadBufferReuseEnabled) == 12,
        reason_tag(PlanReasonCode::GroupedReadBufferReuseDisabled) == 13,
        reason_tag(PlanReasonCode::CalibrationObservationsApplied) == 14,
        reason_tag(PlanReasonCode::CalibrationNotRequested) == 15,
        reason_tag(PlanReasonCode::CalibrationNotApplicable) == 16,
{
}

/// Whether a persisted plan can be used here. It can where it is sound, is about
/// this model and compiles; recalibration is recommended where calibration was
/// asked for and is not the one at hand, taken here, with every observation that
/// the plan rests on.
pub proof fn lemma_compatibility(
    facts: PersistedFacts,
    context: PersistedPlanCompatibilityContext<'_>,
)
    ensures
        ({
            let (state, reason) = compatibility(facts, context);
            let here = context.compilation;
            let usable = structure_check(facts) is Ok && facts.model_descriptor_fingerprint
                == here.model.identity.descriptor_fingerprint && plan_compiler::compiled(
                materialized_for(facts, here),
                here,
            ) is Ok;
            let asked = calibration_reason_of(facts.reasons);
            let source = *context.calibration->0;
            let trace = facts.calibration;
            let current = context.calibration is Some && observation::calibration_check(source)
                is Ok && facts.source_machine_fingerprint == profiles::machine_fingerprint(
                *here.machine,
            ) && facts.source_storage_fingerprint == profiles::storage_fingerprint(*here.storage)
                && trace.calibration_identifier == Some(source.identifier@)
                && trace.calibration_plan_identifier == Some(source.calibration_plan_identifier@)
                && trace.calibration_plan_version == Some(source.calibration_plan_version)
                && trace.calibration_ruleset_version == Some(source.calibration_ruleset_version)
                && source.machine_fingerprint == profiles::machine_fingerprint(*here.machine) && (
            source.model_fingerprint is Some ==> source.model_fingerprint->0
                == here.model.identity.descriptor_fingerprint) && (source.storage_fingerprint
                is Some ==> source.storage_fingerprint->0 == profiles::storage_fingerprint(
                *here.storage,
            )) && forall|i: int|
                0 <= i < trace.observation_identifiers.len() ==> exists|k: int|
                    0 <= k < source.observations@.len() && (
                    #[trigger] source.observations@[k]).identifier@
                        == #[trigger] trace.observation_identifiers[i]
                        && source.observations@[k].status == ObservationStatus::Measured;
            &&& state == PlanCompatibility::Incompatible <==> !usable
            &&& state == PlanCompatibility::Valid <==> usable && (asked == Some(
                PlanReasonCode::CalibrationNotRequested,
            ) || (asked == Some(PlanReasonCode::CalibrationObservationsApplied) && current))
            &&& reason is None <==> state == PlanCompatibility::Valid
            &&& structure_check(facts) is Err ==> reason == Some(
                PlanCompatibilityReason::PersistedPlanInvalid,
            )
            &&& structure_check(facts) is Ok && facts.model_descriptor_fingerprint
                != here.model.identity.descriptor_fingerprint ==> reason == Some(
                PlanCompatibilityReason::ModelFingerprintMismatch,
            )
            &&& usable && asked == Some(PlanReasonCode::CalibrationNotApplicable) ==> reason
                == Some(PlanCompatibilityReason::CalibrationNotApplied)
            &&& usable && asked == Some(PlanReasonCode::CalibrationObservationsApplied)
                && context.calibration is None ==> reason == Some(
                PlanCompatibilityReason::CalibrationMissing,
            )
        }),
{
    let source = *context.calibration->0;
    let identifiers = facts.calibration.observation_identifiers;
    if structure_check(facts) is Ok {
        lemma_structure_accepted(facts);
    }
    if context.calibration is Some {
        if observation::calibration_check(source) is Ok {
            observation::lemma_calibration_checked(source);
        }
        if all_measured(source.observations@, identifiers) {
            assert forall|i: int| 0 <= i < identifiers.len() implies exists|k: int|
                0 <= k < source.observations@.len() && (
                #[trigger] source.observations@[k]).identifier@ == #[trigger] identifiers[i]
                    && source.observations@[k].status == ObservationStatus::Measured by {
                assert(is_measured(source.observations@, identifiers[i]));
            }
        } else {
            let i = choose|i: int|
                0 <= i < identifiers.len() && !is_measured(
                    source.observations@,
                    #[trigger] identifiers[i],
                );
            assert(!(exists|k: int|
                0 <= k < source.observations@.len() && (
                #[trigger] source.observations@[k]).identifier@ == identifiers[i]
                    && source.observations@[k].status == ObservationStatus::Measured));
        }
    }
}

/// The bytes at `at` are `piece`.
pub open spec fn found_at(bytes: Seq<u8>, at: int, piece: Seq<u8>) -> bool {
    0 <= at && at + piece.len() <= bytes.len() && bytes.subrange(at, at + piece.len()) == piece
}

proof fn lemma_found_whole(piece: Seq<u8>)
    ensures
        found_at(piece, 0, piece),
{
    assert(piece.subrange(0, piece.len() as int) =~= piece);
}

/// What is found in a part is found in the whole, behind the parts before it.
proof fn lemma_found_joined(left: Seq<u8>, right: Seq<u8>)
    ensures
        forall|at: int, piece: Seq<u8>| #[trigger]
            found_at(left, at, piece) ==> found_at(left + right, at, piece),
        forall|at: int, piece: Seq<u8>| #[trigger]
            found_at(right, at, piece) ==> found_at(left + right, left.len() + at, piece),
{
    assert forall|at: int, piece: Seq<u8>| #[trigger] found_at(left, at, piece) implies found_at(
        left + right,
        at,
        piece,
    ) by {
        assert((left + right).subrange(at, at + piece.len()) =~= left.subrange(
            at,
            at + piece.len(),
        ));
    }
    assert forall|at: int, piece: Seq<u8>| #[trigger] found_at(right, at, piece) implies found_at(
        left + right,
        left.len() + at,
        piece,
    ) by {
        assert((left + right).subrange(left.len() + at, left.len() + at + piece.len())
            =~= right.subrange(at, at + piece.len()));
    }
}

proof fn lemma_identity_layout(identity: Identity)
    ensures
        found_at(identity_bytes(identity), 0, plan_codec::u32_bytes(identity.execution_schema_version)),
        found_at(identity_bytes(identity), 4, plan_codec::u32_bytes(identity.planner_ruleset_version)),
        found_at(identity_bytes(identity), 8, plan_codec::u64_bytes(identity.model)),
        found_at(identity_bytes(identity), 16, plan_codec::u64_bytes(identity.machine)),
        found_at(identity_bytes(identity), 24, plan_codec::u64_bytes(identity.storage)),
        identity_bytes(identity).len() == 32,
{
    reveal(identity_bytes);
    plan_codec::lemma_number_lengths();
    let p0 = plan_codec::u32_bytes(identity.execution_schema_version);
    lemma_found_whole(p0);
    let p1 = plan_codec::u32_bytes(identity.planner_ruleset_version);
    lemma_found_whole(p1);
    let p2 = plan_codec::u64_bytes(identity.model);
    lemma_found_whole(p2);
    let p3 = plan_codec::u64_bytes(identity.machine);
    lemma_found_whole(p3);
    let p4 = plan_codec::u64_bytes(identity.storage);
    lemma_found_whole(p4);
    lemma_found_joined(p0, p1);
    lemma_found_joined(p0 + p1, p2);
    lemma_found_joined(p0 + p1 + p2, p3);
    lemma_found_joined(p0 + p1 + p2 + p3, p4);
}

proof fn lemma_choices_layout(choices: Choices)
    ensures
        found_at(choices_bytes(choices), 0, seq![mode_tag(choices.mode)]),
        found_at(choices_bytes(choices), 1, seq![strategy_tag(choices.strategy)]),
        found_at(choices_bytes(choices), 2, plan_codec::u64_bytes(choices.ram_budget_bytes)),
        found_at(choices_bytes(choices), 10, plan_codec::u64_bytes(choices.cpu_thread_count as u64)),
        choices_bytes(choices).len() == 18,
{
    reveal(choices_bytes);
    plan_codec::lemma_number_lengths();
    let p0 = seq![mode_tag(choices.mode)];
    lemma_found_whole(p0);
    let p1 = seq![strategy_tag(choices.strategy)];
    lemma_found_whole(p1);
    let p2 = plan_codec::u64_bytes(choices.ram_budget_bytes);
    lemma_found_whole(p2);
    let p3 = plan_codec::u64_bytes(choices.cpu_thread_count as u64);
    lemma_found_whole(p3);
    lemma_found_joined(p0, p1);
    lemma_found_joined(p0 + p1, p2);
    lemma_found_joined(p0 + p1 + p2, p3);
}

proof fn lemma_streaming_layout(streaming: Streaming)
    ensures
        found_at(streaming_bytes(streaming), 0, plan_codec::flag_bytes(streaming.layer_cache.enabled)),
        found_at(streaming_bytes(streaming), 1, plan_codec::u64_bytes(streaming.layer_cache.capacity_bytes)),
        found_at(streaming_bytes(streaming), 9, plan_codec::flag_bytes(streaming.io.read_coalescing_enabled)),
        found_at(streaming_bytes(streaming), 10, plan_codec::flag_bytes(streaming.io.grouped_read_buffer_reuse_enabled)),
        streaming_bytes(streaming).len() == 11,
{
    reveal(streaming_bytes);
    plan_codec::lemma_number_lengths();
    let p0 = plan_codec::flag_bytes(streaming.layer_cache.enabled);
    lemma_found_whole(p0);
    let p1 = plan_codec::u64_bytes(streaming.layer_cache.capacity_bytes);
    lemma_found_whole(p1);
    let p2 = plan_codec::flag_bytes(streaming.io.read_coalescing_enabled);
    lemma_found_whole(p2);
    let p3 = plan_codec::flag_bytes(streaming.io.grouped_read_buffer_reuse_enabled);
    lemma_found_whole(p3);
    lemma_found_joined(p0, p1);
    lemma_found_joined(p0 + p1, p2);
    lemma_found_joined(p0 + p1 + p2, p3);
}

proof fn lemma_gpu_layout(gpu: planner::GpuDecisionFacts)
    ensures
        found_at(gpu_bytes(gpu), 0, seq![preference_tag(gpu.preference)]),
        found_at(gpu_bytes(gpu), 1, plan_codec::flag_bytes(gpu.enabled)),
        found_at(gpu_bytes(gpu), 2, plan_codec::optional_string_bytes(gpu.selected_device_id)),
        gpu_bytes(gpu).len() == 2 + plan_codec::optional_string_bytes(gpu.selected_device_id).len(),
{
    reveal(gpu_bytes);
    plan_codec::lemma_number_lengths();
    let p0 = seq![preference_tag(gpu.preference)];
    lemma_found_whole(p0);
    let p1 = plan_codec::flag_bytes(gpu.enabled);
    lemma_found_whole(p1);
    let p2 = plan_codec::optional_string_bytes(gpu.selected_device_id);
    lemma_found_whole(p2);
    lemma_found_joined(p0, p1);
    lemma_found_joined(p0 + p1, p2);
}

proof fn lemma_reservations_layout(held: ResourceReservations)
    ensures
        found_at(reservations_bytes(held), 0, plan_codec::u64_bytes(held.available_ram_bytes_at_planning)),
        found_at(reservations_bytes(held), 8, plan_codec::u64_bytes(held.persistent_resident_bytes)),
        found_at(reservations_bytes(held), 16, plan_codec::u64_bytes(held.persistent_startup_peak_bytes)),
        found_at(reservations_bytes(held), 24, plan_codec::u64_bytes(held.largest_layer_load_peak_bytes)),
        found_at(reservations_bytes(held), 32, plan_codec::u64_bytes(held.managed_lower_bound_bytes)),
        found_at(reservations_bytes(held), 40, plan_codec::u64_bytes(held.remaining_budget_after_lower_bound_bytes)),
        reservations_bytes(held).len() == 48,
{
    reveal(reservations_bytes);
    plan_codec::lemma_number_lengths();
    let p0 = plan_codec::u64_bytes(held.available_ram_bytes_at_planning);
    lemma_found_whole(p0);
    let p1 = plan_codec::u64_bytes(held.persistent_resident_bytes);
    lemma_found_whole(p1);
    let p2 = plan_codec::u64_bytes(held.persistent_startup_peak_bytes);
    lemma_found_whole(p2);
    let p3 = plan_codec::u64_bytes(held.largest_layer_load_peak_bytes);
    lemma_found_whole(p3);
    let p4 = plan_codec::u64_bytes(held.managed_lower_bound_bytes);
    lemma_found_whole(p4);
    let p5 = plan_codec::u64_bytes(held.remaining_budget_after_lower_bound_bytes);
    lemma_found_whole(p5);
    lemma_found_joined(p0, p1);
    lemma_found_joined(p0 + p1, p2);
    lemma_found_joined(p0 + p1 + p2, p3);
    lemma_found_joined(p0 + p1 + p2 + p3, p4);
    lemma_found_joined(p0 + p1 + p2 + p3 + p4, p5);
}

proof fn lemma_head_layout(facts: PersistedFacts)
    ensures
        ({
            let bytes = head_bytes(head_of(facts));
            &&& found_at(bytes, 0, plan_codec::u32_bytes(facts.execution_schema_version))
            &&& found_at(bytes, 4, plan_codec::u32_bytes(facts.planner_ruleset_version))
            &&& found_at(bytes, 8, plan_codec::u64_bytes(facts.model_descriptor_fingerprint))
            &&& found_at(bytes, 16, plan_codec::u64_bytes(facts.source_machine_fingerprint))
            &&& found_at(bytes, 24, plan_codec::u64_bytes(facts.source_storage_fingerprint))
            &&& found_at(bytes, 32, seq![mode_tag(facts.mode)])
            &&& found_at(bytes, 33, seq![strategy_tag(facts.strategy)])
            &&& found_at(bytes, 34, plan_codec::u64_bytes(facts.ram_budget_bytes))
            &&& found_at(bytes, 42, plan_codec::u64_bytes(facts.cpu_thread_count as u64))
            &&& found_at(bytes, 50, plan_codec::flag_bytes(facts.layer_cache.enabled))
            &&& found_at(bytes, 51, plan_codec::u64_bytes(facts.layer_cache.capacity_bytes))
            &&& found_at(bytes, 59, plan_codec::flag_bytes(facts.io.read_coalescing_enabled))
            &&& found_at(
                bytes,
                60,
                plan_codec::flag_bytes(facts.io.grouped_read_buffer_reuse_enabled),
            )
            &&& found_at(bytes, 61, seq![preference_tag(facts.gpu.preference)])
            &&& found_at(bytes, 62, plan_codec::flag_bytes(facts.gpu.enabled))
            &&& found_at(
                bytes,
                63,
                plan_codec::optional_string_bytes(facts.gpu.selected_device_id),
            )
            &&& bytes.len() == 63 + plan_codec::optional_string_bytes(
                facts.gpu.selected_device_id,
            ).len()
        }),
{
    let head = head_of(facts);
    let identity = identity_bytes(head.identity);
    let choices = choices_bytes(head.choices);
    let streaming = streaming_bytes(head.streaming);
    let gpu = gpu_bytes(head.gpu);
    lemma_identity_layout(head.identity);
    lemma_choices_layout(head.choices);
    lemma_streaming_layout(head.streaming);
    lemma_gpu_layout(head.gpu);
    lemma_found_joined(identity, choices);
    lemma_found_joined(identity + choices, streaming);
    lemma_found_joined(identity + choices + streaming, gpu);
}

proof fn lemma_tail_layout(facts: PersistedFacts)
    ensures
        ({
            let bytes = tail_bytes(tail_of(facts));
            let held = facts.reservations;
            &&& found_at(bytes, 0, plan_codec::u64_bytes(held.available_ram_bytes_at_planning))
            &&& found_at(bytes, 8, plan_codec::u64_bytes(held.persistent_resident_bytes))
            &&& found_at(bytes, 16, plan_codec::u64_bytes(held.persistent_startup_peak_bytes))
            &&& found_at(bytes, 24, plan_codec::u64_bytes(held.largest_layer_load_peak_bytes))
            &&& found_at(bytes, 32, plan_codec::u64_bytes(held.managed_lower_bound_bytes))
            &&& found_at(
                bytes,
                40,
                plan_codec::u64_bytes(held.remaining_budget_after_lower_bound_bytes),
            )
            &&& found_at(bytes, 48, plan_codec::u64_bytes(facts.cost.physical_read_bytes_per_forward))
            &&& found_at(
                bytes,
                56,
                plan_codec::optional_u64_bytes(facts.cost.calibrated_read_time_ns_per_forward)
                    + plan_codec::optional_u64_bytes(facts.cost.observed_strategy_latency_ns)
                    + plan_codec::optional_string_bytes(facts.calibration.calibration_identifier)
                    + plan_codec::optional_string_bytes(
                    facts.calibration.calibration_plan_identifier,
                ) + plan_codec::optional_u32_bytes(facts.calibration.calibration_plan_version)
                    + plan_codec::optional_u32_bytes(facts.calibration.calibration_ruleset_version)
                    + plan_codec::string_list_bytes(facts.calibration.observation_identifiers)
                    + plan_codec::u32_bytes(facts.reasons.len() as u32) + reasons_bytes(
                    facts.reasons,
                ),
            )
        }),
{
    reveal(cost_bytes);
    reveal(observed_bytes);
    reveal(calibration_bytes);
    reveal(reason_list_bytes);
    plan_codec::lemma_number_lengths();
    let kept = reservations_bytes(facts.reservations);
    lemma_reservations_layout(facts.reservations);
    let time = plan_codec::optional_u64_bytes(facts.cost.calibrated_read_time_ns_per_forward);
    let latency = plan_codec::optional_u64_bytes(facts.cost.observed_strategy_latency_ns);
    let name = plan_codec::optional_string_bytes(facts.calibration.calibration_identifier);
    let plan = plan_codec::optional_string_bytes(facts.calibration.calibration_plan_identifier);
    let version = plan_codec::optional_u32_bytes(facts.calibration.calibration_plan_version);
    let ruleset = plan_codec::optional_u32_bytes(facts.calibration.calibration_ruleset_version);
    let seen = plan_codec::string_list_bytes(facts.calibration.observation_identifiers);
    let count = plan_codec::u32_bytes(facts.reasons.len() as u32);
    let all = reasons_bytes(facts.reasons);
    let physical = plan_codec::u64_bytes(facts.cost.physical_read_bytes_per_forward);
    let rest = time + latency + name + plan + version + ruleset + seen + count + all;
    lemma_found_whole(physical);
    lemma_found_whole(rest);
    lemma_found_joined(physical, rest);
    lemma_found_joined(kept, physical + rest);
    let cost = cost_bytes(facts.cost);
    let trace = calibration_bytes(facts.calibration);
    let listed = reason_list_bytes(facts.reasons);
    assert(cost =~= physical + (time + latency));
    assert(trace =~= name + plan + version + ruleset + seen);
    assert(listed =~= count + all);
    lemma_regrouped(
        kept,
        physical,
        time + latency,
        name + plan + version + ruleset + seen,
        count + all,
    );
    lemma_flattened(time, latency, name, plan, version, ruleset, seen, count, all);
}

proof fn lemma_regrouped(
    kept: Seq<u8>,
    physical: Seq<u8>,
    times: Seq<u8>,
    trace: Seq<u8>,
    listed: Seq<u8>,
)
    ensures
        kept + (physical + times) + trace + listed == kept + (physical + (times + trace + listed)),
{
    assert(kept + (physical + times) + trace + listed =~= kept + (physical + (times + trace
        + listed)));
}

proof fn lemma_flattened(
    time: Seq<u8>,
    latency: Seq<u8>,
    name: Seq<u8>,
    plan: Seq<u8>,
    version: Seq<u8>,
    ruleset: Seq<u8>,
    seen: Seq<u8>,
    count: Seq<u8>,
    all: Seq<u8>,
)
    ensures
        (time + latency) + (name + plan + version + ruleset + seen) + (count + all) == time + latency
            + name + plan + version + ruleset + seen + count + all,
{
    let front = time + latency;
    assert(front + (name + plan + version + ruleset + seen) =~= front + name + plan + version
        + ruleset + seen);
    let middle = front + name + plan + version + ruleset + seen;
    assert(middle + (count + all) =~= middle + count + all);
}

/// How a plan is laid out in a file. Numbers are little-endian at these places:
/// the format's name and version; the plan's versions and fingerprints; mode,
/// strategy, budget and threads; the layer cache and the two I/O choices; and the
/// GPU, whose device name is the first part of variable length. Behind it stand
/// the reservations, the cost, the trace of calibration and the reasons.
pub proof fn lemma_file_layout(facts: PersistedFacts)
    requires
        encoded(facts) is Ok,
    ensures
        ({
            let bytes = encoded(facts)->Ok_0;
            let device = plan_codec::optional_string_bytes(facts.gpu.selected_device_id);
            let held = facts.reservations;
            let behind = 75 + device.len() as int;
            &&& found_at(bytes, 0, seq![0x52u8, 0x41, 0x4d, 0x46, 0x50, 0x4c, 0x4e, 0x00])
            &&& found_at(bytes, 8, plan_codec::u32_bytes(facts.persistence_schema_version))
            &&& found_at(bytes, 12, plan_codec::u32_bytes(facts.execution_schema_version))
            &&& found_at(bytes, 16, plan_codec::u32_bytes(facts.planner_ruleset_version))
            &&& found_at(bytes, 20, plan_codec::u64_bytes(facts.model_descriptor_fingerprint))
            &&& found_at(bytes, 28, plan_codec::u64_bytes(facts.source_machine_fingerprint))
            &&& found_at(bytes, 36, plan_codec::u64_bytes(facts.source_storage_fingerprint))
            &&& found_at(bytes, 44, seq![mode_tag(facts.mode)])
            &&& found_at(bytes, 45, seq![strategy_tag(facts.strategy)])
            &&& found_at(bytes, 46, plan_codec::u64_bytes(facts.ram_budget_bytes))
            &&& found_at(bytes, 54, plan_codec::u64_bytes(facts.cpu_thread_count as u64))
            &&& found_at(bytes, 62, plan_codec::flag_bytes(facts.layer_cache.enabled))
            &&& found_at(bytes, 63, plan_codec::u64_bytes(facts.layer_cache.capacity_bytes))
            &&& found_at(bytes, 71, plan_codec::flag_bytes(facts.io.read_coalescing_enabled))
            &&& found_at(
                bytes,
                72,
                plan_codec::flag_bytes(facts.io.grouped_read_buffer_reuse_enabled),
            )
            &&& found_at(bytes, 73, seq![preference_tag(facts.gpu.preference)])
            &&& found_at(bytes, 74, plan_codec::flag_bytes(facts.gpu.enabled))
            &&& found_at(bytes, 75, device)
            &&& found_at(
                bytes,
                behind,
                plan_codec::u64_bytes(held.available_ram_bytes_at_planning),
            )
            &&& found_at(bytes, behind + 8, plan_codec::u64_bytes(held.persistent_resident_bytes))
            &&& found_at(
                bytes,
                behind + 16,
                plan_codec::u64_bytes(held.persistent_startup_peak_bytes),
            )
            &&& found_at(
                bytes,
                behind + 24,
                plan_codec::u64_bytes(held.largest_layer_load_peak_bytes),
            )
            &&& found_at(bytes, behind + 32, plan_codec::u64_bytes(held.managed_lower_bound_bytes))
            &&& found_at(
                bytes,
                behind + 40,
                plan_codec::u64_bytes(held.remaining_budget_after_lower_bound_bytes),
            )
            &&& found_at(
                bytes,
                behind + 48,
                plan_codec::u64_bytes(facts.cost.physical_read_bytes_per_forward),
            )
            &&& found_at(
                bytes,
                behind + 56,
                plan_codec::optional_u64_bytes(facts.cost.calibrated_read_time_ns_per_forward)
                    + plan_codec::optional_u64_bytes(facts.cost.observed_strategy_latency_ns)
                    + plan_codec::optional_string_bytes(facts.calibration.calibration_identifier)
                    + plan_codec::optional_string_bytes(
                    facts.calibration.calibration_plan_identifier,
                ) + plan_codec::optional_u32_bytes(facts.calibration.calibration_plan_version)
                    + plan_codec::optional_u32_bytes(facts.calibration.calibration_ruleset_version)
                    + plan_codec::string_list_bytes(facts.calibration.observation_identifiers)
                    + plan_codec::u32_bytes(facts.reasons.len() as u32) + reasons_bytes(
                    facts.reasons,
                ),
            )
            &&& bytes.len() <= 1024 * 1024
        }),
{
    plan_codec::lemma_number_lengths();
    lemma_head_layout(facts);
    lemma_tail_layout(facts);
    let start = magic() + plan_codec::u32_bytes(facts.persistence_schema_version);
    let head = head_bytes(head_of(facts));
    let tail = tail_bytes(tail_of(facts));
    let bytes = plan_bytes(facts);
    assert(bytes.subrange(0, 8) =~= magic());
    assert(bytes.subrange(8, 12) =~= plan_codec::u32_bytes(facts.persistence_schema_version));
    lemma_found_joined(start, head);
    lemma_found_joined(start + head, tail);
}

} // verus!
