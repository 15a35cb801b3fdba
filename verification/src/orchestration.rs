//! Explicit high-level sequencing from discovery through runtime construction.
//!
//! This layer owns order and error staging only. Strategy and resource choices
//! remain in `Planner`; only `PlanCompiler` turns an
//! `ExecutionPlan` into a concrete `RuntimeConfig`.

use vstd::prelude::*;
use vstd::string::*;

use crate::discovery::{MachineDiscoveryError, StorageDiscoveryError};
use crate::gguf::{GgufInfo, GgufModel};
use crate::model;
use crate::observation::CalibrationResult;
use crate::plan;
use crate::plan::{plan_model, PlanResult};
use crate::plan_compiler;
use crate::plan_compiler::{PlanCompilationContext, PlanCompilationError, PlanCompiler};
use crate::planner;
use crate::planner::{ExecutionPlan, Planner};
use crate::profiles;
use crate::profiles::{
    CapabilitySet, MachineProfile, ModelProfile, PlannerError, StorageProfile, UserProfile,
    PROFILE_SCHEMA_VERSION,
};
use crate::runtime_config::RuntimeConfig;

verus! {

#[derive(Debug, Clone, Copy)]
pub struct OrchestrationRequest<'a> {
    pub model_path: &'a str,
    pub user_profile: &'a UserProfile,
    pub calibration: Option<&'a CalibrationResult>,
}

impl<'a> OrchestrationRequest<'a> {
    pub fn new(model_path: &'a str, user_profile: &'a UserProfile) -> (request: Self)
        ensures
            request == (OrchestrationRequest { model_path, user_profile, calibration: None }),
    {
        OrchestrationRequest { model_path, user_profile, calibration: None }
    }

    pub fn with_calibration(self, calibration: &'a CalibrationResult) -> (request: Self)
        ensures
            request == (OrchestrationRequest { calibration: Some(calibration), ..self }),
    {
        OrchestrationRequest {
            model_path: self.model_path,
            user_profile: self.user_profile,
            calibration: Some(calibration),
        }
    }
}

#[derive(Debug)]
pub enum OrchestrationError {
    StorageDiscovery(StorageDiscoveryError),
    ModelInspection(String),
    ModelProfileConstruction(PlannerError),
    StaticPlanning(String),
    MachineDiscovery(MachineDiscoveryError),
    CapabilityConstruction { binding: &'static str },
    Planning(PlannerError),
    PlanCompilation(PlanCompilationError),
    RuntimeSourceUnavailable,
    RuntimeConstruction(String),
}

impl OrchestrationError {
    pub open spec fn spec_message(self) -> Seq<char> {
        match self {
            OrchestrationError::StorageDiscovery(error) => "storage discovery failed: "@
                + error.spec_message(),
            OrchestrationError::ModelInspection(error) => "GGUF inspection failed: "@ + error@,
            OrchestrationError::ModelProfileConstruction(error) =>
                "model profile construction failed: "@ + error.spec_message(),
            OrchestrationError::StaticPlanning(error) => "static execution planning failed: "@
                + error@,
            OrchestrationError::MachineDiscovery(error) => "machine discovery failed: "@
                + error.spec_message(),
            OrchestrationError::CapabilityConstruction { binding } =>
                "capability construction failed: "@ + binding@,
            OrchestrationError::Planning(error) => "deterministic planning failed: "@
                + error.spec_message(),
            OrchestrationError::PlanCompilation(error) => "plan compilation failed: "@
                + error.spec_message(),
            OrchestrationError::RuntimeSourceUnavailable =>
                "validated model datasource is no longer available"@,
            OrchestrationError::RuntimeConstruction(error) => "runtime construction failed: "@
                + error@,
        }
    }

    pub fn message(&self) -> (message: String)
        ensures
            message@ == self.spec_message(),
    {
        match self {
            OrchestrationError::StorageDiscovery(error) => {
                joined("storage discovery failed: ", error.message().as_str())
            },
            OrchestrationError::ModelInspection(error) => {
                joined("GGUF inspection failed: ", error.as_str())
            },
            OrchestrationError::ModelProfileConstruction(error) => {
                joined("model profile construction failed: ", error.message().as_str())
            },
            OrchestrationError::StaticPlanning(error) => {
                joined("static execution planning failed: ", error.as_str())
            },
            OrchestrationError::MachineDiscovery(error) => {
                joined("machine discovery failed: ", error.message().as_str())
            },
            OrchestrationError::CapabilityConstruction { binding } => {
                joined("capability construction failed: ", binding)
            },
            OrchestrationError::Planning(error) => {
                joined("deterministic planning failed: ", error.message().as_str())
            },
            OrchestrationError::PlanCompilation(error) => {
                joined("plan compilation failed: ", error.message().as_str())
            },
            OrchestrationError::RuntimeSourceUnavailable => {
                "validated model datasource is no longer available".to_owned()
            },
            OrchestrationError::RuntimeConstruction(error) => {
                joined("runtime construction failed: ", error.as_str())
            },
        }
    }
}

fn joined(head: &str, tail: &str) -> (whole: String)
    ensures
        whole@ == head@ + tail@,
{
    let mut whole = head.to_owned();
    whole.append(tail);
    whole
}

/// Planning-only facts retained for interactive inspection, optional
/// calibration, planner invocation, and explicit compilation. No model weights,
/// runtime allocations, or inference state are owned here; whether the opened
/// model is still at hand is.
#[derive(Debug)]
pub struct PlanningSession {
    pub machine: MachineProfile,
    pub model: ModelProfile,
    pub model_info: GgufInfo,
    pub storage: StorageProfile,
    pub capabilities: CapabilitySet,
    pub static_plan: PlanResult,
    pub source_retained: bool,
}

/// What planning starts from in a session.
pub open spec fn session_inputs(
    session: PlanningSession,
    user: UserProfile,
    calibration: Option<CalibrationResult>,
) -> planner::PlanInputs {
    planner::PlanInputs {
        user,
        machine: session.machine,
        model: session.model,
        storage: session.storage,
        capabilities: session.capabilities,
        static_plan: session.static_plan,
        calibration,
    }
}

pub open spec fn session_context(session: &PlanningSession) -> PlanCompilationContext<'_> {
    PlanCompilationContext {
        machine: &session.machine,
        model: &session.model,
        storage: &session.storage,
        capabilities: &session.capabilities,
        static_plan: &session.static_plan,
    }
}

impl PlanningSession {
    pub fn create_plan(
        &self,
        user_profile: &UserProfile,
        calibration: Option<&CalibrationResult>,
    ) -> (result: Result<ExecutionPlan, OrchestrationError>)
        ensures
            match planner::execution_plan(
                session_inputs(
                    *self,
                    *user_profile,
                    planner::optional_calibration(calibration),
                ),
            ) {
                Ok(plan) => result is Ok && result->Ok_0@ == plan,
                Err(error) => result == Err::<ExecutionPlan, OrchestrationError>(
                    OrchestrationError::Planning(error),
                ),
            },
    {
        match (Planner {  }).plan(
            user_profile,
            &self.machine,
            &self.model,
            &self.storage,
            &self.capabilities,
            &self.static_plan,
            calibration,
        ) {
            Ok(plan) => Ok(plan),
            Err(error) => Err(OrchestrationError::Planning(error)),
        }
    }

    pub fn compile_plan(&self, execution_plan: &ExecutionPlan) -> (result: Result<
        RuntimeConfig,
        OrchestrationError,
    >)
        ensures
            result == (match plan_compiler::compiled(execution_plan@, session_context(self)) {
                Ok(config) => Ok::<RuntimeConfig, OrchestrationError>(config),
                Err(error) => Err(OrchestrationError::PlanCompilation(error)),
            }),
    {
        match (PlanCompiler {  }).compile(execution_plan, self.compilation_context()) {
            Ok(config) => Ok(config),
            Err(error) => Err(OrchestrationError::PlanCompilation(error)),
        }
    }

    /// Compile only this already analyzed plan and hand over the opened model.
    /// Compilation occurs before the model is given away: a plan that is refused
    /// leaves the session as it was, and the model is given away only once.
    pub fn activate_plan(&mut self, execution_plan: &ExecutionPlan) -> (result: Result<
        RuntimeConfig,
        OrchestrationError,
    >)
        ensures
            result == (match plan_compiler::compiled(execution_plan@, session_context(old(self))) {
                Err(error) => Err::<RuntimeConfig, OrchestrationError>(
                    OrchestrationError::PlanCompilation(error),
                ),
                Ok(config) => if old(self).source_retained {
                    Ok(config)
                } else {
                    Err(OrchestrationError::RuntimeSourceUnavailable)
                },
            }),
            *final(self) == (if result is Ok {
                PlanningSession { source_retained: false, ..*old(self) }
            } else {
                *old(self)
            }),
    {
        let config = self.compile_plan(execution_plan)?;
        if !self.source_retained {
            return Err(OrchestrationError::RuntimeSourceUnavailable);
        }
        self.source_retained = false;
        Ok(config)
    }

    pub fn compilation_context(&self) -> (context: PlanCompilationContext<'_>)
        ensures
            context == session_context(self),
    {
        PlanCompilationContext {
            machine: &self.machine,
            model: &self.model,
            storage: &self.storage,
            capabilities: &self.capabilities,
            static_plan: &self.static_plan,
        }
    }
}

#[derive(Debug, Default, Clone, Copy)]
pub struct RuntimeOrchestrator;

impl RuntimeOrchestrator {
    /// Profiles an opened model and plans its memory, without loading weights.
    pub fn inspect(&self, source: &GgufModel, ram_budget_bytes: u64) -> (result: Result<
        (ModelProfile, PlanResult),
        OrchestrationError,
    >)
        requires
            !model::zero_head_count(*source),
        ensures
            match result {
                Ok((profile, static_plan)) => {
                    &&& profiles::model_fingerprint(*source) != 0
                    &&& ram_budget_bytes > 0
                    &&& profiles::is_profile_of(profile, *source)
                    &&& profiles::model_check(profile) is Ok
                    &&& plan::is_plan_of(static_plan, *source, ram_budget_bytes)
                },
                Err(OrchestrationError::ModelProfileConstruction(error)) => {
                    &&& profiles::model_fingerprint(*source) == 0
                    &&& profiles::invalid("ModelProfile", "descriptor_fingerprint") == Err::<
                        (),
                        PlannerError,
                    >(error)
                    &&& forall|profile: ModelProfile| #[trigger]
                        profiles::is_profile_of(profile, *source) ==> profiles::model_check(profile)
                            == Err::<(), PlannerError>(error)
                },
                Err(OrchestrationError::StaticPlanning(error)) => {
                    &&& profiles::model_fingerprint(*source) != 0
                    &&& forall|profile: ModelProfile| #[trigger]
                        profiles::is_profile_of(profile, *source) ==> profiles::model_check(
                            profile,
                        ) is Ok
                    &&& ram_budget_bytes == 0
                    &&& error@ == crate::budget::MemoryError::ZeroBudget.spec_message()
                },
                Err(_) => false,
            },
    {
        let profile = ModelProfile::from_gguf(source);
        proof {
            if profiles::model_fingerprint(*source) != 0 {
                assert forall|other: ModelProfile| #[trigger]
                    profiles::is_profile_of(other, *source) implies profiles::model_check(
                    other,
                ) is Ok by {
                    profiles::lemma_model_profile_valid(other, *source);
                }
            }
        }
        match profile.validate() {
            Ok(()) => {},
            Err(error) => {
                return Err(OrchestrationError::ModelProfileConstruction(error));
            },
        }
        match plan_model(source, ram_budget_bytes) {
            Ok(static_plan) => Ok((profile, static_plan)),
            Err(error) => Err(OrchestrationError::StaticPlanning(error)),
        }
    }

    /// A session over what was discovered. The capabilities are those of the
    /// discovered profiles, so that no binding can be wrong.
    pub fn assemble(
        &self,
        machine: MachineProfile,
        model: ModelProfile,
        model_info: GgufInfo,
        storage: StorageProfile,
        static_plan: PlanResult,
    ) -> (result: Result<PlanningSession, OrchestrationError>)
        ensures
            result is Ok,
            result->Ok_0.machine == machine,
            result->Ok_0.model == model,
            result->Ok_0.model_info == model_info,
            result->Ok_0.storage == storage,
            result->Ok_0.static_plan == static_plan,
            result->Ok_0.source_retained,
            result->Ok_0.capabilities@ == profiles::derived_capabilities(
                machine,
                model,
                storage,
                static_plan,
            ),
    {
        let capabilities = construct_capabilities(&machine, &model, &storage, &static_plan)?;
        Ok(
            PlanningSession {
                machine,
                model,
                model_info,
                storage,
                capabilities,
                static_plan,
                source_retained: true,
            },
        )
    }
}

/// Derives the capabilities and checks that they are bound to the profiles.
pub fn construct_capabilities(
    machine: &MachineProfile,
    model: &ModelProfile,
    storage: &StorageProfile,
    static_plan: &PlanResult,
) -> (result: Result<CapabilitySet, OrchestrationError>)
    ensures
        result is Ok,
        result->Ok_0@ == profiles::derived_capabilities(*machine, *model, *storage, *static_plan),
{
    let capabilities = (Planner {  }).derive_capabilities(machine, model, storage, static_plan);
    assert(capabilities@.schema_version == capabilities.schema_version);
    if capabilities.schema_version != PROFILE_SCHEMA_VERSION {
        return Err(OrchestrationError::CapabilityConstruction { binding: "schema version" });
    }
    if capabilities.machine_fingerprint != machine.fingerprint() {
        return Err(OrchestrationError::CapabilityConstruction { binding: "machine fingerprint" });
    }
    if capabilities.model_fingerprint != model.identity.descriptor_fingerprint {
        return Err(OrchestrationError::CapabilityConstruction { binding: "model fingerprint" });
    }
    if capabilities.storage_fingerprint != storage.fingerprint() {
        return Err(OrchestrationError::CapabilityConstruction { binding: "storage fingerprint" });
    }
    Ok(capabilities)
}

/// What a session plans, it compiles: the configuration carries the decisions of
/// the plan, wherever the storage reports the size of the model.
pub proof fn lemma_session_plan_compiles(
    session: PlanningSession,
    source: GgufModel,
    user: UserProfile,
    calibration: Option<CalibrationResult>,
)
    requires
        planner::execution_plan(session_inputs(session, user, calibration)) is Ok,
        plan::is_plan_of(session.static_plan, source, user.ram_budget_bytes),
        session.storage.file_size_bytes == Some(session.model.file_size_bytes),
    ensures
        ({
            let planned = planner::execution_plan(session_inputs(session, user, calibration))->Ok_0;
            plan_compiler::compiled(planned, session_context(&session)) == Ok::<
                RuntimeConfig,
                PlanCompilationError,
            >(plan_compiler::planned_config(planned))
        }),
{
    let inputs = session_inputs(session, user, calibration);
    plan_compiler::lemma_planned_compiles(inputs, source, planner::execution_plan(inputs)->Ok_0);
}

} // verus!
