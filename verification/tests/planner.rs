use ramforge_runtime::gguf::{
    GgmlType, GgufInfo, GgufModel, MetadataEntry, MetadataValue, TensorDescriptor,
};
use ramforge_runtime::observation::{
    aggregate_observation_value, observation_quality_basis_points, CalibrationResult,
    MeasurementSample, ObservationMetric, ObservationStatus, ObservationUnit,
    PerformanceObservation,
};
use ramforge_runtime::planner::{PlanCompatibility, PlanReasonCode, Planner};
use ramforge_runtime::profiles::{
    strategy_registry, Availability, CalibrationLevel, CpuFeature, CpuFeatureSet, DiscoveryState,
    FeasibilityRejection, GpuDeviceProfile, GpuPreference, MachineProfile,
    ModelExecutionCompatibility, ModelProfile, OperatingMode, PlannerError, StorageProfile,
    StrategyId, UserProfile, CALIBRATION_PLAN_VERSION, CALIBRATION_RULESET_VERSION,
    PROFILE_SCHEMA_VERSION,
};
use ramforge_runtime::{plan_model, PlanResult};

fn unsigned(key: &str, value: u64) -> MetadataEntry {
    MetadataEntry {
        key: key.to_string(),
        value: MetadataValue { unsigned: Some(value), float_bits: None, array_length: None },
    }
}

fn tiny_model(architecture: &str) -> GgufModel {
    let metadata = vec![
        unsigned("llama.attention.head_count", 2),
        unsigned("llama.attention.head_count_kv", 2),
        unsigned("llama.block_count", 1),
        unsigned("llama.context_length", 64),
        unsigned("llama.embedding_length", 8),
        unsigned("llama.feed_forward_length", 16),
        unsigned("llama.vocab_size", 16),
    ];
    let definitions: Vec<(&str, Vec<u64>)> = vec![
        ("token_embd.weight", vec![8, 16]),
        ("output_norm.weight", vec![8]),
        ("blk.0.attn_norm.weight", vec![8]),
        ("blk.0.attn_q.weight", vec![8, 8]),
        ("blk.0.attn_k.weight", vec![8, 8]),
        ("blk.0.attn_v.weight", vec![8, 8]),
        ("blk.0.attn_output.weight", vec![8, 8]),
        ("blk.0.ffn_norm.weight", vec![8]),
        ("blk.0.ffn_gate.weight", vec![8, 16]),
        ("blk.0.ffn_up.weight", vec![8, 16]),
        ("blk.0.ffn_down.weight", vec![16, 8]),
    ];
    let mut offset = 0u64;
    let mut tensors = Vec::new();
    for (name, dimensions) in definitions {
        let num_elements = dimensions.iter().product::<u64>();
        let byte_length = num_elements * 4;
        tensors.push(TensorDescriptor {
            name: name.to_string(),
            dimensions,
            ggml_type: GgmlType::F32,
            offset,
            file_offset: offset,
            byte_length: Some(byte_length),
            num_elements,
        });
        offset += byte_length;
    }
    GgufModel {
        path: "/models/tiny.gguf".to_string(),
        file_size: offset,
        version: 3,
        info: GgufInfo {
            architecture: Some(architecture.to_string()),
            name: None,
            tokenizer_model: None,
            context_length: Some(64),
            embedding_length: Some(8),
            block_count: Some(1),
            head_count: Some(2),
            head_count_kv: Some(2),
            expert_count: None,
            expert_used_count: None,
            file_type: None,
            vocab_size: Some(16),
        },
        metadata,
        tensors,
        alignment: 32,
    }
}

fn machine_profile() -> MachineProfile {
    let mut cpu_features = CpuFeatureSet::new();
    cpu_features.insert(CpuFeature::Avx2);
    MachineProfile {
        schema_version: PROFILE_SCHEMA_VERSION,
        os: "linux".to_string(),
        architecture: "x86_64".to_string(),
        kernel_version: None,
        cpu_vendor: None,
        cpu_model: None,
        physical_cpu_cores: Some(4),
        logical_cpu_cores: 8,
        cpu_features,
        total_ram_bytes: Some(32_000),
        available_ram_bytes: Some(24_000),
        cpu_backend: Availability {
            detected: true,
            supported: true,
            usable: true,
        },
        gpu_inventory_state: DiscoveryState::Complete,
        gpus: vec![GpuDeviceProfile {
            identifier: "gpu0".to_string(),
            vendor: None,
            device_id: None,
            name: Some("detected-only".to_string()),
            dedicated_memory_bytes: Some(8_000),
            backend: Availability {
                detected: true,
                supported: false,
                usable: false,
            },
        }],
    }
}

fn storage_profile() -> StorageProfile {
    StorageProfile::for_model_path("/models/tiny.gguf")
}

fn profiles_and_static_plan(
    mode: OperatingMode,
) -> (UserProfile, MachineProfile, ModelProfile, StorageProfile, PlanResult) {
    let model = tiny_model("llama");
    let user = UserProfile::new(10_000, mode);
    let machine = machine_profile();
    let model_profile = ModelProfile::from_gguf(&model);
    let storage = storage_profile();
    let static_plan = plan_model(&model, user.ram_budget_bytes).unwrap();
    (user, machine, model_profile, storage, static_plan)
}

#[test]
fn test_profile_construction_and_model_distribution_are_deterministic() {
    let model = tiny_model("llama");
    let profile = ModelProfile::from_gguf(&model);
    profile.validate().unwrap();
    assert_eq!(profile.architecture.as_deref(), Some("llama"));
    assert_eq!(profile.tensor_count, 11);
    assert_eq!(profile.tensor_formats.len(), 1);
    assert_eq!(profile.tensor_formats[0].format, "F32");
    assert_eq!(profile.tensor_formats[0].tensor_count, 11);
    assert!(profile.tensor_formats[0].runtime_supported);
    assert!(profile.has_coalescible_layer_reads);
    assert!(!profile.has_reusable_grouped_read_candidate);

    let mut relocated = model.clone();
    relocated.path = "/other/location/tiny.gguf".to_string();
    assert_eq!(
        profile.identity.descriptor_fingerprint,
        ModelProfile::from_gguf(&relocated)
            .identity
            .descriptor_fingerprint
    );
}

#[test]
fn test_qwen35_profile_remains_inspect_plan_only() {
    let profile = ModelProfile::from_gguf(&tiny_model("qwen35"));
    assert_eq!(
        profile.execution_compatibility,
        ModelExecutionCompatibility::InspectPlanOnly
    );
}

#[test]
fn test_machine_availability_distinguishes_detected_supported_and_usable() {
    let machine = machine_profile();
    machine.validate().unwrap();
    assert!(machine.gpus[0].backend.detected);
    assert!(!machine.gpus[0].backend.supported);
    assert!(!machine.gpus[0].backend.usable);

    let mut invalid = machine;
    invalid.gpus[0].backend.usable = true;
    assert!(invalid.validate().is_err());
}

#[test]
fn test_capability_derivation_is_independent_from_calibration() {
    let (user, machine, model, storage, static_plan) =
        profiles_and_static_plan(OperatingMode::BalancedNormal);
    let planner = Planner;
    let capabilities = planner.derive_capabilities(&machine, &model, &storage, &static_plan);
    assert!(capabilities.storage_usable);
    assert!(capabilities.cpu_backend_usable);
    assert!(capabilities.cpu_simd_avx2);
    assert!(!capabilities.gpu_backend_usable);
    assert!(capabilities.model_execution_compatible);
    assert!(capabilities.layer_cache_possible);
    assert!(capabilities.read_coalescing_possible);
    assert!(!capabilities.grouped_read_buffer_reuse_possible);
    assert_eq!(
        capabilities.supported_tensor_formats,
        vec!["F32".to_string()]
    );
    assert!(capabilities.unsupported_tensor_formats.is_empty());
    assert_eq!(static_plan.ram_requested, user.ram_budget_bytes);
}

#[test]
fn test_preset_policies_are_explicit_and_bounded() {
    let background = OperatingMode::BackgroundConstrained.policy();
    let balanced = OperatingMode::BalancedNormal.policy();
    let maximum = OperatingMode::MaximumPerformance.policy();
    let advanced = OperatingMode::Advanced.policy();
    assert_eq!(
        (
            background.thread_fraction_numerator,
            background.thread_fraction_denominator
        ),
        (1, 2)
    );
    assert_eq!(background.layer_cache_capacity_basis_points, 0);
    assert!(!background.grouped_read_buffer_reuse);
    assert_eq!(
        (
            balanced.thread_fraction_numerator,
            balanced.thread_fraction_denominator
        ),
        (3, 4)
    );
    assert_eq!(balanced.layer_cache_capacity_basis_points, 5_000);
    assert_eq!(maximum.layer_cache_capacity_basis_points, 10_000);
    assert!(maximum.allow_gpu);
    assert_eq!(
        advanced.layer_cache_capacity_basis_points,
        balanced.layer_cache_capacity_basis_points
    );
}

#[test]
fn test_deterministic_strategy_and_execution_plan_construction() {
    let (user, machine, model, storage, static_plan) =
        profiles_and_static_plan(OperatingMode::BalancedNormal);
    let planner = Planner;
    let capabilities = planner.derive_capabilities(&machine, &model, &storage, &static_plan);
    let first = planner
        .plan(
            &user,
            &machine,
            &model,
            &storage,
            &capabilities,
            &static_plan,
            None,
        )
        .unwrap();
    let second = planner
        .plan(
            &user,
            &machine,
            &model,
            &storage,
            &capabilities,
            &static_plan,
            None,
        )
        .unwrap();
    assert_eq!(first, second);
    assert_eq!(first.strategy, StrategyId::CpuLayerStreaming);
    assert_eq!(first.ram_budget_bytes, user.ram_budget_bytes);
    assert_eq!(first.cpu_thread_count, 6);
    assert!(first.layer_cache.enabled);
    assert!(first.layer_cache.capacity_bytes <= 6_832);
    assert!(first.io.read_coalescing_enabled);
    assert!(!first.io.grouped_read_buffer_reuse_enabled);
    assert!(!first.gpu.enabled);
    assert_eq!(first.binding.model_path, storage.model_path);
    assert_eq!(first.binding.storage_fingerprint, storage.fingerprint());
    assert!(first.reasons.iter().any(|reason| {
        reason.code == PlanReasonCode::LayerCacheEnabledWithinStaticCapacity
    }));
}

#[test]
fn test_maximum_performance_respects_explicit_resource_limits() {
    let (mut user, machine, model, storage, static_plan) =
        profiles_and_static_plan(OperatingMode::MaximumPerformance);
    user.cpu_thread_limit = Some(2);
    user.gpu_preference = GpuPreference::Disabled;
    let planner = Planner;
    let capabilities = planner.derive_capabilities(&machine, &model, &storage, &static_plan);
    let plan = planner
        .plan(
            &user,
            &machine,
            &model,
            &storage,
            &capabilities,
            &static_plan,
            None,
        )
        .unwrap();
    assert_eq!(plan.ram_budget_bytes, user.ram_budget_bytes);
    assert_eq!(plan.cpu_thread_count, 2);
    assert!(!plan.gpu.enabled);
    assert!(plan.layer_cache.capacity_bytes <= 6_832);
}

#[test]
fn test_feasibility_rejects_unusable_storage() {
    let (user, machine, model, mut storage, static_plan) =
        profiles_and_static_plan(OperatingMode::BalancedNormal);
    storage.seekable = false;
    let planner = Planner;
    let capabilities =
        planner.derive_capabilities(&machine, &model, &storage, &static_plan);
    assert_eq!(
        planner
            .plan(
                &user,
                &machine,
                &model,
                &storage,
                &capabilities,
                &static_plan,
                None,
            )
            .unwrap_err(),
        PlannerError::Infeasible(FeasibilityRejection::StorageNotUsable)
    );
}

#[test]
fn test_feasibility_rejects_budget_above_available_ram() {
    let (user, mut machine, model, storage, static_plan) =
        profiles_and_static_plan(OperatingMode::BalancedNormal);
    machine.available_ram_bytes = Some(user.ram_budget_bytes - 1);
    let planner = Planner;
    let capabilities = planner.derive_capabilities(&machine, &model, &storage, &static_plan);
    assert_eq!(
        planner
            .plan(
                &user,
                &machine,
                &model,
                &storage,
                &capabilities,
                &static_plan,
                None,
            )
            .unwrap_err(),
        PlannerError::Infeasible(FeasibilityRejection::RamBudgetExceedsAvailableRam)
    );
}

#[test]
fn test_feasibility_rejects_required_gpu_and_non_executable_model() {
    let (mut user, machine, model, storage, static_plan) =
        profiles_and_static_plan(OperatingMode::BalancedNormal);
    user.gpu_preference = GpuPreference::Require;
    let planner = Planner;
    let capabilities = planner.derive_capabilities(&machine, &model, &storage, &static_plan);
    assert_eq!(
        planner
            .plan(
                &user,
                &machine,
                &model,
                &storage,
                &capabilities,
                &static_plan,
                None,
            )
            .unwrap_err(),
        PlannerError::Infeasible(FeasibilityRejection::GpuRequiredButUnavailable)
    );

    let unsupported_model = tiny_model("qwen35");
    let unsupported_profile = ModelProfile::from_gguf(&unsupported_model);
    let unsupported_plan =
        plan_model(&unsupported_model, user.ram_budget_bytes).unwrap();
    let unsupported_capabilities =
        planner.derive_capabilities(
            &machine,
            &unsupported_profile,
            &storage,
            &unsupported_plan,
        );
    user.gpu_preference = GpuPreference::Disabled;
    assert_eq!(
        planner
            .plan(
                &user,
                &machine,
                &unsupported_profile,
                &storage,
                &unsupported_capabilities,
                &unsupported_plan,
                None,
            )
            .unwrap_err(),
        PlannerError::Infeasible(FeasibilityRejection::ModelNotExecutable)
    );
}

#[test]
fn test_advanced_overrides_preserve_explicit_user_constraints() {
    let (mut user, machine, model, storage, static_plan) =
        profiles_and_static_plan(OperatingMode::Advanced);
    user.cpu_thread_limit = Some(6);
    user.advanced.thread_count = Some(3);
    user.advanced.layer_cache_enabled = Some(true);
    user.advanced.layer_cache_capacity_bytes = Some(3_000);
    user.advanced.read_coalescing_enabled = Some(false);
    user.advanced.grouped_read_buffer_reuse_enabled = Some(false);
    let planner = Planner;
    let capabilities = planner.derive_capabilities(&machine, &model, &storage, &static_plan);
    let plan = planner
        .plan(
            &user,
            &machine,
            &model,
            &storage,
            &capabilities,
            &static_plan,
            None,
        )
        .unwrap();
    assert_eq!(plan.cpu_thread_count, 3);
    assert_eq!(plan.layer_cache.capacity_bytes, 3_000);
    assert!(!plan.io.read_coalescing_enabled);
    assert!(!plan.io.grouped_read_buffer_reuse_enabled);
}

#[test]
fn test_calibration_observations_are_measured_facts_not_capabilities() {
    let (mut user, machine, model, storage, static_plan) =
        profiles_and_static_plan(OperatingMode::BalancedNormal);
    user.calibration_level = CalibrationLevel::Standard;
    let planner = Planner;
    let capabilities = planner.derive_capabilities(&machine, &model, &storage, &static_plan);
    let capabilities_before = capabilities.clone();
    let calibration = CalibrationResult {
        schema_version: PROFILE_SCHEMA_VERSION,
        identifier: "calibration-1".to_string(),
        level: CalibrationLevel::Standard,
        machine_fingerprint: machine.fingerprint(),
        model_fingerprint: Some(model.identity.descriptor_fingerprint),
        storage_fingerprint: Some(storage.fingerprint()),
        calibration_plan_identifier: "calibration-plan-1".to_string(),
        calibration_plan_version: CALIBRATION_PLAN_VERSION,
        calibration_ruleset_version: CALIBRATION_RULESET_VERSION,
        observations: vec![
            PerformanceObservation {
                identifier: "sequential-read".to_string(),
                metric: ObservationMetric::SequentialReadThroughput,
                unit: ObservationUnit::BytesPerSecond,
                value: Some(1_000_000),
                status: ObservationStatus::Measured,
                status_reason: None,
                strategy: None,
                quantization_format: None,
                calibration_level: CalibrationLevel::Standard,
                workload_bytes: 8_000_000,
                workload_elements: 0,
                measurement_duration_ns: 8_000_000_000,
                sample_count: 4,
                raw_samples: vec![
                    MeasurementSample {
                        elapsed_ns: 2_000_000_000,
                        units_processed: 2_000_000,
                    };
                    4
                ],
                timestamp_unix_seconds: Some(1_700_000_000),
                quality_basis_points: 10_000,
            },
            PerformanceObservation {
                identifier: "strategy-latency".to_string(),
                metric: ObservationMetric::StrategyLatency,
                unit: ObservationUnit::Nanoseconds,
                value: Some(5_000_000),
                status: ObservationStatus::Measured,
                status_reason: None,
                strategy: Some(StrategyId::CpuLayerStreaming),
                quantization_format: None,
                calibration_level: CalibrationLevel::Standard,
                workload_bytes: 0,
                workload_elements: 4,
                measurement_duration_ns: 20_000_000,
                sample_count: 4,
                raw_samples: vec![
                    MeasurementSample {
                        elapsed_ns: 5_000_000,
                        units_processed: 1,
                    };
                    4
                ],
                timestamp_unix_seconds: Some(1_700_000_001),
                quality_basis_points: 10_000,
            },
        ],
    };
    calibration.validate().unwrap();
    let uncalibrated = planner
        .plan(
            &user,
            &machine,
            &model,
            &storage,
            &capabilities,
            &static_plan,
            None,
        )
        .unwrap();
    let plan = planner
        .plan(
            &user,
            &machine,
            &model,
            &storage,
            &capabilities,
            &static_plan,
            Some(&calibration),
        )
        .unwrap();
    let repeated = planner
        .plan(
            &user,
            &machine,
            &model,
            &storage,
            &capabilities,
            &static_plan,
            Some(&calibration),
        )
        .unwrap();
    assert_eq!(plan, repeated);
    assert_eq!(capabilities, capabilities_before);
    assert_eq!(plan.strategy, uncalibrated.strategy);
    assert_eq!(plan.cpu_thread_count, uncalibrated.cpu_thread_count);
    assert_eq!(plan.layer_cache, uncalibrated.layer_cache);
    assert_eq!(plan.io, uncalibrated.io);
    assert_eq!(plan.gpu, uncalibrated.gpu);
    assert_eq!(plan.reservations, uncalibrated.reservations);
    assert_eq!(plan.strategy, StrategyId::CpuLayerStreaming);
    assert_eq!(
        plan.cost.calibrated_read_time_ns_per_forward,
        Some(2_624_000)
    );
    assert_eq!(plan.cost.observed_strategy_latency_ns, Some(5_000_000));
    assert_eq!(
        plan.calibration.calibration_plan_identifier.as_deref(),
        Some("calibration-plan-1")
    );
    assert_eq!(
        plan.calibration.observation_identifiers,
        vec![
            "sequential-read".to_string(),
            "strategy-latency".to_string()
        ]
    );
}

#[test]
fn test_non_advanced_profile_rejects_advanced_override() {
    let mut user = UserProfile::new(10_000, OperatingMode::BalancedNormal);
    user.advanced.read_coalescing_enabled = Some(false);
    assert_eq!(
        user.validate().unwrap_err(),
        PlannerError::Infeasible(
            FeasibilityRejection::AdvancedOverrideRequiresAdvancedMode
        )
    );
}

#[test]
fn test_observation_aggregation_and_quality_are_mathematical() {
    let samples = [
        MeasurementSample {
            elapsed_ns: 100,
            units_processed: 100,
        },
        MeasurementSample {
            elapsed_ns: 200,
            units_processed: 100,
        },
    ];
    assert_eq!(observation_quality_basis_points(&samples), 5_000);
    assert_eq!(
        aggregate_observation_value(ObservationUnit::ElementsPerSecond, &samples),
        Some(666_666_666)
    );
}

fn sample(units_processed: u64, elapsed_ns: u64) -> MeasurementSample {
    MeasurementSample { elapsed_ns, units_processed }
}

#[test]
fn identical_rates_have_full_quality_however_slow() {
    let slow = 409_000_000_000;
    assert_eq!(observation_quality_basis_points(&[sample(1, 2_000_000_000)]), 10_000);
    assert_eq!(observation_quality_basis_points(&[sample(1, slow), sample(1, slow)]), 10_000);
    assert_eq!(observation_quality_basis_points(&[sample(1, slow), sample(2, 2 * slow)]), 10_000);
    assert_eq!(observation_quality_basis_points(&[sample(7, 3), sample(7, 3)]), 10_000);
    // Rates that differ, some of them below one unit per second.
    assert_eq!(observation_quality_basis_points(&[sample(1, slow), sample(1, slow + 1)]), 0);
    assert_eq!(observation_quality_basis_points(&[sample(1, slow), sample(5, 1)]), 0);
    assert_eq!(observation_quality_basis_points(&[]), 0);
    assert_eq!(observation_quality_basis_points(&[sample(0, 1), sample(0, 1)]), 0);
    assert_eq!(observation_quality_basis_points(&[sample(1, 0)]), 0);
}

#[test]
fn the_value_of_joined_samples_lies_between() {
    let unit = ObservationUnit::Nanoseconds;
    let first = [sample(1, 100), sample(1, 200)];
    let second = [sample(1, 400)];
    let joined = [first[0], first[1], second[0]];
    assert_eq!(aggregate_observation_value(unit, &first), Some(150));
    assert_eq!(aggregate_observation_value(unit, &second), Some(400));
    assert_eq!(aggregate_observation_value(unit, &joined), Some(233));
}

#[test]
fn test_plan_compatibility_states_are_explicit() {
    assert_ne!(
        PlanCompatibility::Valid,
        PlanCompatibility::CompatibleRecalibrationRecommended
    );
    assert_ne!(
        PlanCompatibility::CompatibleRecalibrationRecommended,
        PlanCompatibility::Incompatible
    );
}

#[test]
fn the_registry_runs_on_the_cpu_only() {
    let strategies = strategy_registry();
    assert_eq!(strategies[0].id, StrategyId::CpuLayerStreaming);
    assert!(strategies[0].runtime_available);
    assert!(!strategies[0].requires_gpu);
    assert_eq!(strategies[1].id, StrategyId::GpuLayerOffload);
    assert!(!strategies[1].runtime_available);
    assert!(strategies[1].requires_gpu);
}

#[test]
fn planner_errors_name_their_field() {
    let mut user = UserProfile::new(0, OperatingMode::BalancedNormal);
    let error = user.validate().unwrap_err();
    assert!(error.message().contains("ram_budget_bytes"), "got: {}", error.message());
    user.ram_budget_bytes = 1;
    user.schema_version = PROFILE_SCHEMA_VERSION + 1;
    assert_eq!(
        user.validate().unwrap_err(),
        PlannerError::InvalidProfile { profile: "UserProfile", field: "schema_version" }
    );
}
