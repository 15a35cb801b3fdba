use ramforge_runtime::gguf::{
    GgmlType, GgufInfo, GgufModel, MetadataEntry, MetadataValue, TensorDescriptor,
};
use ramforge_runtime::observation::{
    observation_quality_basis_points, CalibrationResult, MeasurementSample, ObservationMetric,
    ObservationStatus, ObservationStatusReason, ObservationUnit, PerformanceObservation,
};
use ramforge_runtime::orchestration::{
    OrchestrationError, OrchestrationRequest, PlanningSession, RuntimeOrchestrator,
};
use ramforge_runtime::plan_compiler::PlanCompilationError;
use ramforge_runtime::planner::PlanReasonCode;
use ramforge_runtime::profiles::{
    AdvancedOverrides, Availability, CalibrationLevel, CpuFeatureSet, DiscoveryState,
    FeasibilityRejection, GpuPreference, MachineProfile, OperatingMode, PlannerError, StorageKind,
    StoragePathState, StorageProfile, StrategyId, UserProfile, CALIBRATION_PLAN_VERSION,
    CALIBRATION_RULESET_VERSION, PROFILE_SCHEMA_VERSION,
};

const TEST_RAM_BYTES: u64 = 10_000;

fn unsigned(key: &str, value: u64) -> MetadataEntry {
    MetadataEntry {
        key: key.to_string(),
        value: MetadataValue { unsigned: Some(value), float_bits: None, array_length: None },
    }
}

fn tiny_llama() -> GgufModel {
    let metadata = vec![
        unsigned("llama.attention.head_count", 2),
        unsigned("llama.attention.head_count_kv", 2),
        unsigned("llama.block_count", 1),
        unsigned("llama.context_length", 64),
        unsigned("llama.embedding_length", 8),
        unsigned("llama.feed_forward_length", 16),
        unsigned("llama.vocab_size", 16),
    ];
    let definitions: Vec<(&str, Vec<u64>)> = vec![
        ("token_embd.weight", vec![8, 16]),
        ("output_norm.weight", vec![8]),
        ("blk.0.attn_norm.weight", vec![8]),
        ("blk.0.attn_q.weight", vec![8, 8]),
        ("blk.0.attn_k.weight", vec![8, 8]),
        ("blk.0.attn_v.weight", vec![8, 8]),
        ("blk.0.attn_output.weight", vec![8, 8]),
        ("blk.0.ffn_norm.weight", vec![8]),
        ("blk.0.ffn_gate.weight", vec![8, 16]),
        ("blk.0.ffn_up.weight", vec![8, 16]),
        ("blk.0.ffn_down.weight", vec![16, 8]),
    ];
    let mut offset = 0u64;
    let mut tensors = Vec::new();
    for (name, dimensions) in definitions {
        let num_elements = dimensions.iter().product::<u64>();
        let byte_length = num_elements * 4;
        tensors.push(TensorDescriptor {
            name: name.to_string(),
            dimensions,
            ggml_type: GgmlType::F32,
            offset,
            file_offset: offset,
            byte_length: Some(byte_length),
            num_elements,
        });
        offset += byte_length;
    }
    GgufModel {
        path: "/models/tiny.gguf".to_string(),
        file_size: offset,
        version: 3,
        info: GgufInfo {
            architecture: Some("llama".to_string()),
            name: None,
            tokenizer_model: None,
            context_length: Some(64),
            embedding_length: Some(8),
            block_count: Some(1),
            head_count: Some(2),
            head_count_kv: Some(2),
            expert_count: None,
            expert_used_count: None,
            file_type: None,
            vocab_size: Some(16),
        },
        metadata,
        tensors,
        alignment: 32,
    }
}

fn machine() -> MachineProfile {
    MachineProfile {
        schema_version: PROFILE_SCHEMA_VERSION,
        os: "linux".to_string(),
        architecture: "x86_64".to_string(),
        kernel_version: None,
        cpu_vendor: None,
        cpu_model: None,
        physical_cpu_cores: None,
        logical_cpu_cores: 2,
        cpu_features: CpuFeatureSet::new(),
        total_ram_bytes: Some(64_000),
        available_ram_bytes: Some(32_000),
        cpu_backend: Availability { detected: true, supported: true, usable: true },
        gpu_inventory_state: DiscoveryState::Unavailable,
        gpus: Vec::new(),
    }
}

fn storage(file_size: u64) -> StorageProfile {
    StorageProfile {
        schema_version: PROFILE_SCHEMA_VERSION,
        model_path: "/models/tiny.gguf".to_string(),
        path_state: StoragePathState::Ready,
        readable: true,
        regular_file: true,
        file_size_bytes: Some(file_size),
        filesystem_type: None,
        filesystem_id: None,
        device_id: None,
        kind: StorageKind::Local,
        seekable: true,
    }
}

fn user_profile() -> UserProfile {
    let mut user = UserProfile::new(TEST_RAM_BYTES, OperatingMode::BalancedNormal);
    user.cpu_thread_limit = Some(1);
    user
}

fn analyze(ram_budget_bytes: u64) -> Result<PlanningSession, OrchestrationError> {
    let source = tiny_llama();
    let (model, static_plan) = RuntimeOrchestrator.inspect(&source, ram_budget_bytes)?;
    let storage = storage(source.file_size);
    RuntimeOrchestrator.assemble(machine(), model, source.info, storage, static_plan)
}

fn matching_calibration(session: &PlanningSession) -> CalibrationResult {
    let sample = MeasurementSample { elapsed_ns: 1_000_000_000, units_processed: 1_000_000 };
    CalibrationResult {
        schema_version: PROFILE_SCHEMA_VERSION,
        identifier: "orchestration-calibration".to_string(),
        level: CalibrationLevel::Quick,
        machine_fingerprint: session.machine.fingerprint(),
        model_fingerprint: Some(session.model.identity.descriptor_fingerprint),
        storage_fingerprint: Some(session.storage.fingerprint()),
        calibration_plan_identifier: "orchestration-calibration-plan".to_string(),
        calibration_plan_version: CALIBRATION_PLAN_VERSION,
        calibration_ruleset_version: CALIBRATION_RULESET_VERSION,
        observations: vec![PerformanceObservation {
            identifier: "orchestration-sequential-read".to_string(),
            metric: ObservationMetric::SequentialReadThroughput,
            unit: ObservationUnit::BytesPerSecond,
            value: Some(1_000_000),
            status: ObservationStatus::Measured,
            status_reason: None,
            strategy: None,
            quantization_format: None,
            calibration_level: CalibrationLevel::Quick,
            workload_bytes: 1_000_000,
            workload_elements: 0,
            measurement_duration_ns: sample.elapsed_ns,
            sample_count: 1,
            raw_samples: vec![sample],
            timestamp_unix_seconds: None,
            quality_basis_points: observation_quality_basis_points(&[sample]),
        }],
    }
}

#[test]
fn test_orchestration_request_is_minimal_and_calibration_is_optional() {
    let user = user_profile();
    let request = OrchestrationRequest::new("/tmp/model.gguf", &user);
    assert_eq!(request.model_path, "/tmp/model.gguf");
    assert!(request.calibration.is_none());
    let session = analyze(TEST_RAM_BYTES).unwrap();
    let calibration = matching_calibration(&session);
    assert!(request.with_calibration(&calibration).calibration.is_some());
}

#[test]
fn test_planning_only_analysis_exposes_real_profiles_without_runtime_state() {
    let session = analyze(TEST_RAM_BYTES).unwrap();
    assert_eq!(session.model.tensor_count, 11);
    assert_eq!(session.model_info.embedding_length, Some(8));
    assert_eq!(session.model_info.vocab_size, Some(16));
    assert_eq!(session.storage.file_size_bytes, Some(session.model.file_size_bytes));
    assert_eq!(
        session.capabilities.model_fingerprint,
        session.model.identity.descriptor_fingerprint
    );
}

#[test]
fn test_plan_activation_compiles_before_transferring_runtime_source() {
    let user = user_profile();
    let mut session = analyze(user.ram_budget_bytes).unwrap();
    let plan = session.create_plan(&user, None).unwrap();
    let mut rejected = plan.clone();
    rejected.cpu_thread_count = 0;
    assert!(matches!(
        session.activate_plan(&rejected),
        Err(OrchestrationError::PlanCompilation(PlanCompilationError::ZeroThreadCount))
    ));

    let config = session.activate_plan(&plan).unwrap();
    assert_eq!(config.cpu_thread_count, plan.cpu_thread_count);
    assert_eq!(config.ram_budget_bytes, plan.ram_budget_bytes);
    assert!(matches!(
        session.activate_plan(&plan),
        Err(OrchestrationError::RuntimeSourceUnavailable)
    ));
}

#[test]
fn test_successful_orchestration_without_calibration_materializes_plan_decisions() {
    let user = user_profile();
    let mut session = analyze(user.ram_budget_bytes).unwrap();
    let plan = session.create_plan(&user, None).unwrap();
    let config = session.activate_plan(&plan).unwrap();

    assert!(plan.calibration.calibration_identifier.is_none());
    assert_eq!(config.cpu_thread_count, plan.cpu_thread_count);
    assert_eq!(config.ram_budget_bytes, plan.ram_budget_bytes);
    assert_eq!(config.layer_cache_enabled, plan.layer_cache.enabled);
    assert_eq!(config.layer_cache_capacity_bytes, plan.layer_cache.capacity_bytes);
    assert_eq!(config.read_coalescing_enabled, plan.io.read_coalescing_enabled);
    assert_eq!(
        config.grouped_read_buffer_reuse_enabled,
        plan.io.grouped_read_buffer_reuse_enabled
    );
    assert_eq!(plan.binding.model_path, "/models/tiny.gguf");
}

#[test]
fn test_successful_orchestration_uses_matching_calibration() {
    let mut user = user_profile();
    user.calibration_level = CalibrationLevel::Quick;
    let session = analyze(user.ram_budget_bytes).unwrap();
    let calibration = matching_calibration(&session);
    calibration.validate().unwrap();

    let plan = session.create_plan(&user, Some(&calibration)).unwrap();
    assert_eq!(
        plan.calibration.calibration_identifier.as_deref(),
        Some("orchestration-calibration")
    );
    assert_eq!(
        plan.calibration.observation_identifiers,
        vec!["orchestration-sequential-read".to_string()]
    );
    assert!(plan.cost.calibrated_read_time_ns_per_forward.is_some());
}

#[test]
fn test_calibration_binding_mismatch_is_not_silently_reused() {
    let mut user = user_profile();
    user.calibration_level = CalibrationLevel::Quick;
    let session = analyze(user.ram_budget_bytes).unwrap();
    let mut calibration = matching_calibration(&session);
    let fingerprint = calibration.model_fingerprint.unwrap();
    calibration.model_fingerprint = Some(fingerprint.wrapping_add(1).max(1));
    calibration.validate().unwrap();

    let plan = session.create_plan(&user, Some(&calibration)).unwrap();
    assert!(plan.calibration.calibration_identifier.is_none());
    assert!(plan.calibration.observation_identifiers.is_empty());
    assert!(plan
        .reasons
        .iter()
        .any(|reason| reason.code == PlanReasonCode::CalibrationNotApplicable));
}

#[test]
fn test_non_measured_calibration_observations_do_not_block_or_influence_runtime() {
    let mut user = user_profile();
    user.calibration_level = CalibrationLevel::Quick;
    let session = analyze(user.ram_budget_bytes).unwrap();

    for (status, reason) in [
        (ObservationStatus::Unavailable, ObservationStatusReason::CapabilityUnavailable),
        (ObservationStatus::Skipped, ObservationStatusReason::TestNotImplemented),
        (ObservationStatus::Failed, ObservationStatusReason::IoFailure),
    ] {
        let mut calibration = matching_calibration(&session);
        let observation = &mut calibration.observations[0];
        observation.value = None;
        observation.status = status;
        observation.status_reason = Some(reason);
        observation.measurement_duration_ns = 0;
        observation.sample_count = 0;
        observation.raw_samples.clear();
        observation.quality_basis_points = 0;
        calibration.validate().unwrap();

        let plan = session.create_plan(&user, Some(&calibration)).unwrap();
        assert!(plan.calibration.observation_identifiers.is_empty());
        assert!(plan.cost.calibrated_read_time_ns_per_forward.is_none());
    }
}

#[test]
fn test_static_planning_failure_is_preserved() {
    assert!(matches!(analyze(0), Err(OrchestrationError::StaticPlanning(_))));
}

#[test]
fn test_planner_rejection_is_preserved() {
    let mut user = user_profile();
    user.advanced =
        AdvancedOverrides { thread_count: Some(1), ..AdvancedOverrides::default() };
    let session = analyze(user.ram_budget_bytes).unwrap();
    assert!(matches!(
        session.create_plan(&user, None),
        Err(OrchestrationError::Planning(PlannerError::Infeasible(
            FeasibilityRejection::AdvancedOverrideRequiresAdvancedMode
        )))
    ));
}

#[test]
fn test_required_unsupported_gpu_is_not_downgraded() {
    let mut user = user_profile();
    user.gpu_preference = GpuPreference::Require;
    let session = analyze(user.ram_budget_bytes).unwrap();
    assert!(matches!(
        session.create_plan(&user, None),
        Err(OrchestrationError::Planning(PlannerError::Infeasible(
            FeasibilityRejection::GpuRequiredButUnavailable
        )))
    ));
}

#[test]
fn test_compiler_rejection_is_preserved() {
    let user = user_profile();
    let session = analyze(user.ram_budget_bytes).unwrap();
    let mut plan = session.create_plan(&user, None).unwrap();
    assert!(plan.layer_cache.enabled);
    assert!(plan.layer_cache.capacity_bytes > 0);
    plan.layer_cache.enabled = false;
    assert!(matches!(
        session.compile_plan(&plan),
        Err(OrchestrationError::PlanCompilation(
            PlanCompilationError::LayerCacheStateInconsistent
        ))
    ));
}

#[test]
fn test_compiler_unsupported_gpu_rejection_is_preserved() {
    let user = user_profile();
    let session = analyze(user.ram_budget_bytes).unwrap();
    let mut plan = session.create_plan(&user, None).unwrap();
    plan.strategy = StrategyId::GpuLayerOffload;
    plan.gpu.preference = GpuPreference::Prefer;
    plan.gpu.enabled = true;
    plan.gpu.selected_device_id = Some("synthetic-gpu".to_string());
    assert!(matches!(
        session.compile_plan(&plan),
        Err(OrchestrationError::PlanCompilation(PlanCompilationError::UnsupportedGpuExecution))
    ));
}
