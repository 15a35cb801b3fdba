use ramforge_runtime::budget::MemoryBudget;
use ramforge_runtime::observation::{
    observation_quality_basis_points, CalibrationResult, MeasurementSample, ObservationMetric,
    ObservationStatus, ObservationUnit, PerformanceObservation,
};
use ramforge_runtime::plan::{ExecutionMemoryPlan, PlanResult};
use ramforge_runtime::plan_codec::{PlanPersistenceError, MAX_PERSISTED_PLAN_BYTES};
use ramforge_runtime::plan_compiler::{PlanCompilationContext, PlanCompilationError, PlanCompiler};
use ramforge_runtime::plan_persistence::{
    PersistedExecutionPlan, PersistedPlanCompatibilityContext, PersistedPlanValidationError,
    PlanCompatibilityReason, PERSISTED_EXECUTION_PLAN_SCHEMA_VERSION,
};
use ramforge_runtime::planner::{
    CalibrationProvenance, CostEstimate, ExecutionPlan, GpuDecision, IoDecision,
    LayerCacheDecision, PlanBinding, PlanCompatibility, PlanReason, PlanReasonCode,
    ResourceReservations,
};
use ramforge_runtime::profiles::{
    Availability, CalibrationLevel, CapabilitySet, CpuFeatureSet, DiscoveryState, GpuPreference,
    MachineProfile, ModelExecutionCompatibility, ModelIdentity, ModelProfile, OperatingMode,
    StorageKind, StoragePathState, StorageProfile, StrategyId, TensorFormatProfile,
    CALIBRATION_PLAN_VERSION, CALIBRATION_RULESET_VERSION, EXECUTION_PLAN_SCHEMA_VERSION,
    PLANNER_RULESET_VERSION, PROFILE_SCHEMA_VERSION,
};

struct CompilerFixture {
    plan: ExecutionPlan,
    machine: MachineProfile,
    model: ModelProfile,
    storage: StorageProfile,
    capabilities: CapabilitySet,
    static_plan: PlanResult,
}

impl CompilerFixture {
    fn new() -> Self {
        let machine = MachineProfile {
            schema_version: PROFILE_SCHEMA_VERSION,
            os: "linux".to_string(),
            architecture: "x86_64".to_string(),
            kernel_version: None,
            cpu_vendor: Some("test-vendor".to_string()),
            cpu_model: Some("test-cpu".to_string()),
            physical_cpu_cores: Some(4),
            logical_cpu_cores: 8,
            cpu_features: CpuFeatureSet::new(),
            total_ram_bytes: Some(20_000),
            available_ram_bytes: Some(16_000),
            cpu_backend: Availability {
                detected: true,
                supported: true,
                usable: true,
            },
            gpu_inventory_state: DiscoveryState::Unavailable,
            gpus: Vec::new(),
        };
        let model = ModelProfile {
            schema_version: PROFILE_SCHEMA_VERSION,
            identity: ModelIdentity {
                display_name: Some("compiler-fixture".to_string()),
                descriptor_fingerprint: 17,
            },
            architecture: Some("llama".to_string()),
            context_size: Some(64),
            layer_count: Some(1),
            tensor_count: 1,
            total_tensor_elements: Some(1_250),
            file_size_bytes: 5_000,
            tensor_data_bytes: Some(5_000),
            tensor_formats: vec![TensorFormatProfile {
                format: "F32".to_string(),
                tensor_count: 1,
                element_count: Some(1_250),
                byte_count: Some(5_000),
                runtime_supported: true,
            }],
            execution_compatibility: ModelExecutionCompatibility::Executable,
            has_coalescible_layer_reads: true,
            has_reusable_grouped_read_candidate: true,
        };
        let storage = StorageProfile {
            schema_version: PROFILE_SCHEMA_VERSION,
            model_path: "/tmp/compiler-fixture.gguf".to_string(),
            path_state: StoragePathState::Ready,
            readable: true,
            regular_file: true,
            file_size_bytes: Some(5_000),
            filesystem_type: Some("testfs".to_string()),
            filesystem_id: Some("testfs:1".to_string()),
            device_id: Some("test-device".to_string()),
            kind: StorageKind::Local,
            seekable: true,
        };
        let execution = ExecutionMemoryPlan {
            block_count: 1,
            resident_persistent_count: 1,
            streamed_persistent_count: 0,
            persistent_resident_bytes: 1_000,
            persistent_startup_peak_bytes: 1_200,
            largest_layer_index: 0,
            largest_layer_tensor_count: 1,
            largest_layer_resident_bytes: 2_000,
            largest_layer_load_peak_bytes: 3_000,
            managed_lower_bound_bytes: 4_000,
            layer_cache_capacity_bytes: 6_000,
            max_complete_cached_layers: 3,
            min_layer_resident_bytes: 2_000,
            logical_tensor_reads_per_forward: 1,
            estimated_physical_reads_per_forward: 1,
            logical_tensor_bytes_per_forward: 5_000,
            estimated_physical_bytes_per_forward: 5_000,
            estimated_gap_bytes_per_forward: 0,
            layer_streaming_lower_bound_fits: true,
        };
        let static_plan = PlanResult {
            file_size: 5_000,
            architecture: Some("llama".to_string()),
            tensor_count: 1,
            ram_requested: 10_000,
            cache_capacity: 5_000,
            overhead_reserved: 0,
            available: 10_000,
            fits_in_ram: true,
            file_backed_needed: 0,
            total_tensor_bytes: Some(5_000),
            execution_memory: Some(execution),
            execution_preflight_error: None,
            budget: MemoryBudget::new(10_000).unwrap(),
        };
        let capabilities = CapabilitySet::derive(&machine, &model, &storage, &static_plan);
        let plan = ExecutionPlan {
            schema_version: EXECUTION_PLAN_SCHEMA_VERSION,
            ruleset_version: PLANNER_RULESET_VERSION,
            binding: PlanBinding {
                model_descriptor_fingerprint: model.identity.descriptor_fingerprint,
                machine_fingerprint: machine.fingerprint(),
                storage_fingerprint: storage.fingerprint(),
                model_path: storage.model_path.clone(),
            },
            mode: OperatingMode::BalancedNormal,
            strategy: StrategyId::CpuLayerStreaming,
            ram_budget_bytes: 10_000,
            cpu_thread_count: 4,
            layer_cache: LayerCacheDecision {
                enabled: true,
                capacity_bytes: 2_000,
            },
            io: IoDecision {
                read_coalescing_enabled: true,
                grouped_read_buffer_reuse_enabled: true,
            },
            gpu: GpuDecision {
                preference: GpuPreference::Disabled,
                enabled: false,
                selected_device_id: None,
            },
            reservations: ResourceReservations {
                available_ram_bytes_at_planning: 16_000,
                persistent_resident_bytes: 1_000,
                persistent_startup_peak_bytes: 1_200,
                largest_layer_load_peak_bytes: 3_000,
                managed_lower_bound_bytes: 4_000,
                remaining_budget_after_lower_bound_bytes: 6_000,
            },
            cost: CostEstimate {
                physical_read_bytes_per_forward: 5_000,
                calibrated_read_time_ns_per_forward: None,
                observed_strategy_latency_ns: None,
            },
            calibration: CalibrationProvenance {
                calibration_identifier: None,
                calibration_plan_identifier: None,
                calibration_plan_version: None,
                calibration_ruleset_version: None,
                observation_identifiers: Vec::new(),
            },
            reasons: Vec::new(),
        };
        Self {
            plan,
            machine,
            model,
            storage,
            capabilities,
            static_plan,
        }
    }

    fn context(&self) -> PlanCompilationContext<'_> {
        PlanCompilationContext {
            machine: &self.machine,
            model: &self.model,
            storage: &self.storage,
            capabilities: &self.capabilities,
            static_plan: &self.static_plan,
        }
    }

    fn refresh_capabilities(&mut self) {
        self.capabilities = CapabilitySet::derive(
            &self.machine,
            &self.model,
            &self.storage,
            &self.static_plan,
        );
    }
}

#[test]
fn test_valid_plan_compiles_without_changing_values() {
    let fixture = CompilerFixture::new();
    let config = PlanCompiler
        .compile(&fixture.plan, fixture.context())
        .unwrap();
    assert_eq!(config.cpu_thread_count, fixture.plan.cpu_thread_count);
    assert_eq!(config.ram_budget_bytes, fixture.plan.ram_budget_bytes);
    assert_eq!(
        config.layer_cache_capacity_bytes,
        fixture.plan.layer_cache.capacity_bytes
    );
}

#[test]
fn test_zero_thread_count_is_rejected() {
    let mut fixture = CompilerFixture::new();
    fixture.plan.cpu_thread_count = 0;
    assert_eq!(
        PlanCompiler
            .compile(&fixture.plan, fixture.context())
            .unwrap_err(),
        PlanCompilationError::ZeroThreadCount
    );
}

#[test]
fn test_excessive_thread_count_is_rejected() {
    let mut fixture = CompilerFixture::new();
    fixture.plan.cpu_thread_count = 9;
    assert_eq!(
        PlanCompiler
            .compile(&fixture.plan, fixture.context())
            .unwrap_err(),
        PlanCompilationError::ThreadCountExceedsLimit {
            requested: 9,
            limit: 8,
        }
    );
}

#[test]
fn test_zero_ram_budget_is_rejected() {
    let mut fixture = CompilerFixture::new();
    fixture.plan.ram_budget_bytes = 0;
    assert_eq!(
        PlanCompiler
            .compile(&fixture.plan, fixture.context())
            .unwrap_err(),
        PlanCompilationError::ZeroRamBudget
    );
}

#[test]
fn test_ram_budget_above_available_limit_is_rejected() {
    let mut fixture = CompilerFixture::new();
    fixture.machine.available_ram_bytes = Some(9_999);
    assert_eq!(
        PlanCompiler
            .compile(&fixture.plan, fixture.context())
            .unwrap_err(),
        PlanCompilationError::RamBudgetExceedsAvailableRam {
            requested: 10_000,
            limit: 9_999,
        }
    );
}

#[test]
fn test_cache_settings_are_preserved_exactly() {
    let mut fixture = CompilerFixture::new();
    fixture.plan.layer_cache.capacity_bytes = 3_000;
    let config = PlanCompiler
        .compile(&fixture.plan, fixture.context())
        .unwrap();
    assert!(config.layer_cache_enabled);
    assert_eq!(config.layer_cache_capacity_bytes, 3_000);
}

#[test]
fn test_cache_capacity_above_static_limit_is_rejected() {
    let mut fixture = CompilerFixture::new();
    fixture.plan.layer_cache.capacity_bytes = 6_001;
    assert_eq!(
        PlanCompiler
            .compile(&fixture.plan, fixture.context())
            .unwrap_err(),
        PlanCompilationError::LayerCacheCapacityExceedsLimit {
            requested: 6_001,
            limit: 6_000,
        }
    );
}

#[test]
fn test_read_coalescing_setting_is_preserved_exactly() {
    let mut fixture = CompilerFixture::new();
    fixture.plan.io.read_coalescing_enabled = false;
    let config = PlanCompiler
        .compile(&fixture.plan, fixture.context())
        .unwrap();
    assert!(!config.read_coalescing_enabled);
    assert!(config.grouped_read_buffer_reuse_enabled);
}

#[test]
fn test_grouped_buffer_setting_is_preserved_exactly() {
    let fixture = CompilerFixture::new();
    let config = PlanCompiler
        .compile(&fixture.plan, fixture.context())
        .unwrap();
    assert!(config.read_coalescing_enabled);
    assert!(config.grouped_read_buffer_reuse_enabled);
}

#[test]
fn test_unsupported_gpu_execution_is_rejected() {
    let mut fixture = CompilerFixture::new();
    fixture.plan.strategy = StrategyId::GpuLayerOffload;
    fixture.plan.gpu.preference = GpuPreference::Prefer;
    fixture.plan.gpu.enabled = true;
    fixture.plan.gpu.selected_device_id = Some("gpu0".to_string());
    assert_eq!(
        PlanCompiler
            .compile(&fixture.plan, fixture.context())
            .unwrap_err(),
        PlanCompilationError::UnsupportedGpuExecution
    );
}

#[test]
fn test_internally_inconsistent_plan_is_rejected() {
    let mut fixture = CompilerFixture::new();
    fixture
        .plan
        .reservations
        .remaining_budget_after_lower_bound_bytes = 5_999;
    assert_eq!(
        PlanCompiler
            .compile(&fixture.plan, fixture.context())
            .unwrap_err(),
        PlanCompilationError::ReservationMismatch {
            field: "remaining budget after lower bound",
        }
    );
}

#[test]
fn test_inconsistent_cache_state_is_rejected() {
    let mut fixture = CompilerFixture::new();
    fixture.plan.layer_cache.enabled = false;
    assert_eq!(
        PlanCompiler
            .compile(&fixture.plan, fixture.context())
            .unwrap_err(),
        PlanCompilationError::LayerCacheStateInconsistent
    );
}

#[test]
fn test_read_coalescing_requires_current_capability() {
    let mut fixture = CompilerFixture::new();
    fixture.model.has_coalescible_layer_reads = false;
    fixture.refresh_capabilities();
    assert_eq!(
        PlanCompiler
            .compile(&fixture.plan, fixture.context())
            .unwrap_err(),
        PlanCompilationError::ReadCoalescingUnavailable
    );
}

#[test]
fn test_grouped_buffer_reuse_requires_current_capability() {
    let mut fixture = CompilerFixture::new();
    fixture.model.has_reusable_grouped_read_candidate = false;
    fixture.refresh_capabilities();
    assert_eq!(
        PlanCompiler
            .compile(&fixture.plan, fixture.context())
            .unwrap_err(),
        PlanCompilationError::GroupedReadBufferReuseUnavailable
    );
}

fn fixture() -> CompilerFixture {
    let mut fixture = CompilerFixture::new();
    fixture.plan.reasons = vec![
        PlanReason {
            code: PlanReasonCode::UserRamBudgetPreserved,
            value: Some(fixture.plan.ram_budget_bytes),
        },
        PlanReason {
            code: PlanReasonCode::ThreadCountSelectedByPreset,
            value: Some(fixture.plan.cpu_thread_count as u64),
        },
        PlanReason {
            code: PlanReasonCode::CpuStrategySelected,
            value: None,
        },
        PlanReason {
            code: PlanReasonCode::LayerCacheEnabledWithinStaticCapacity,
            value: Some(fixture.plan.layer_cache.capacity_bytes),
        },
        PlanReason {
            code: PlanReasonCode::ReadCoalescingEnabled,
            value: None,
        },
        PlanReason {
            code: PlanReasonCode::GroupedReadBufferReuseEnabled,
            value: None,
        },
        PlanReason {
            code: PlanReasonCode::CalibrationNotRequested,
            value: Some(0),
        },
    ];
    fixture
}

fn persisted(fixture: &CompilerFixture) -> PersistedExecutionPlan {
    PersistedExecutionPlan::from_execution_plan(&fixture.plan).unwrap()
}

fn compatibility_context<'a>(
    fixture: &'a CompilerFixture,
    calibration: Option<&'a CalibrationResult>,
) -> PersistedPlanCompatibilityContext<'a> {
    PersistedPlanCompatibilityContext {
        compilation: fixture.context(),
        calibration,
    }
}

fn matching_calibration(fixture: &CompilerFixture) -> CalibrationResult {
    let sample = MeasurementSample {
        elapsed_ns: 1_000_000_000,
        units_processed: 1_000_000,
    };
    CalibrationResult {
        schema_version: PROFILE_SCHEMA_VERSION,
        identifier: "persisted-calibration".to_string(),
        level: CalibrationLevel::Quick,
        machine_fingerprint: fixture.machine.fingerprint(),
        model_fingerprint: Some(fixture.model.identity.descriptor_fingerprint),
        storage_fingerprint: Some(fixture.storage.fingerprint()),
        calibration_plan_identifier: "persisted-calibration-plan".to_string(),
        calibration_plan_version: CALIBRATION_PLAN_VERSION,
        calibration_ruleset_version: CALIBRATION_RULESET_VERSION,
        observations: vec![PerformanceObservation {
            identifier: "persisted-read".to_string(),
            metric: ObservationMetric::SequentialReadThroughput,
            unit: ObservationUnit::BytesPerSecond,
            value: Some(1_000_000),
            status: ObservationStatus::Measured,
            status_reason: None,
            strategy: None,
            quantization_format: None,
            calibration_level: CalibrationLevel::Quick,
            workload_bytes: 1_000_000,
            workload_elements: 0,
            measurement_duration_ns: sample.elapsed_ns,
            sample_count: 1,
            raw_samples: vec![sample],
            timestamp_unix_seconds: None,
            quality_basis_points: observation_quality_basis_points(&[sample]),
        }],
    }
}

fn apply_calibration_provenance(
    fixture: &mut CompilerFixture,
    calibration: &CalibrationResult,
) {
    fixture
        .plan
        .reasons
        .retain(|reason| reason.code != PlanReasonCode::CalibrationNotRequested);
    fixture.plan.reasons.push(PlanReason {
        code: PlanReasonCode::CalibrationObservationsApplied,
        value: Some(1),
    });
    fixture.plan.calibration = CalibrationProvenance {
        calibration_identifier: Some(calibration.identifier.clone()),
        calibration_plan_identifier: Some(calibration.calibration_plan_identifier.clone()),
        calibration_plan_version: Some(calibration.calibration_plan_version),
        calibration_ruleset_version: Some(calibration.calibration_ruleset_version),
        observation_identifiers: vec!["persisted-read".to_string()],
    };
    fixture.plan.cost.calibrated_read_time_ns_per_forward = Some(5_000_000);
}

#[test]
fn test_valid_plan_round_trip_preserves_relevant_contract() {
    let fixture = fixture();
    let persisted = persisted(&fixture);
    let loaded = PersistedExecutionPlan::from_bytes(&persisted.to_bytes().unwrap()).unwrap();

    assert_eq!(loaded, persisted);
    assert_eq!(loaded.execution_schema_version, fixture.plan.schema_version);
    assert_eq!(loaded.planner_ruleset_version, fixture.plan.ruleset_version);
    assert_eq!(loaded.strategy, fixture.plan.strategy);
    assert_eq!(loaded.ram_budget_bytes, fixture.plan.ram_budget_bytes);
    assert_eq!(loaded.cpu_thread_count, fixture.plan.cpu_thread_count);
    assert_eq!(loaded.layer_cache, fixture.plan.layer_cache);
    assert_eq!(loaded.io, fixture.plan.io);
    assert_eq!(loaded.gpu, fixture.plan.gpu);
    assert_eq!(loaded.reservations, fixture.plan.reservations);
    assert_eq!(loaded.calibration, fixture.plan.calibration);
}

#[test]
fn test_serialized_output_and_file_round_trip_are_deterministic() {
    let fixture = fixture();
    let persisted = persisted(&fixture);
    let first = persisted.to_bytes().unwrap();
    let second = persisted.to_bytes().unwrap();
    assert_eq!(first, second);

    let loaded = PersistedExecutionPlan::from_bytes(&first).unwrap();
    assert_eq!(loaded, persisted);
    assert_eq!(
        loaded.validate_compatibility(compatibility_context(&fixture, None)),
        PlanCompatibility::Valid
    );
    let runtime_config = loaded.compile_runtime_config(fixture.context()).unwrap();
    assert_eq!(
        runtime_config.cpu_thread_count,
        fixture.plan.cpu_thread_count
    );
}

#[test]
fn test_malformed_truncated_and_trailing_input_are_rejected() {
    let fixture = fixture();
    let bytes = persisted(&fixture).to_bytes().unwrap();

    let mut invalid_magic = bytes.clone();
    invalid_magic[0] ^= 0xff;
    assert!(matches!(
        PersistedExecutionPlan::from_bytes(&invalid_magic),
        Err(PlanPersistenceError::InvalidMagic)
    ));
    assert!(matches!(
        PersistedExecutionPlan::from_bytes(&bytes[..24]),
        Err(PlanPersistenceError::Truncated { .. })
    ));
    let mut trailing = bytes;
    trailing.push(0);
    assert!(matches!(
        PersistedExecutionPlan::from_bytes(&trailing),
        Err(PlanPersistenceError::TrailingBytes { bytes: 1 })
    ));
    let oversized = vec![0; MAX_PERSISTED_PLAN_BYTES + 1];
    assert!(matches!(
        PersistedExecutionPlan::from_bytes(&oversized),
        Err(PlanPersistenceError::TooLarge { .. })
    ));
}

#[test]
fn test_unsupported_persistence_schema_is_rejected() {
    let fixture = fixture();
    let mut bytes = persisted(&fixture).to_bytes().unwrap();
    bytes[8..12].copy_from_slice(&(PERSISTED_EXECUTION_PLAN_SCHEMA_VERSION + 1).to_le_bytes());
    assert!(matches!(
        PersistedExecutionPlan::from_bytes(&bytes),
        Err(PlanPersistenceError::UnsupportedPersistenceSchema { .. })
    ));
}

#[test]
fn test_invalid_enum_and_state_combinations_are_rejected() {
    let fixture = fixture();
    let persisted = persisted(&fixture);
    let mut invalid_enum = persisted.to_bytes().unwrap();
    invalid_enum[44] = 0xff;
    assert!(matches!(
        PersistedExecutionPlan::from_bytes(&invalid_enum),
        Err(PlanPersistenceError::InvalidEnum {
            field: "operating mode",
            ..
        })
    ));

    let mut invalid_state = persisted;
    invalid_state.gpu.enabled = true;
    let invalid_state = invalid_state.encode_unchecked().unwrap();
    assert!(matches!(
        PersistedExecutionPlan::from_bytes(&invalid_state),
        Err(PlanPersistenceError::InvalidPlan { .. })
    ));
}

#[test]
fn test_missing_required_identity_is_rejected() {
    let fixture = fixture();
    let mut persisted = persisted(&fixture);
    persisted.model_descriptor_fingerprint = 0;
    assert!(matches!(
        persisted.to_bytes(),
        Err(PlanPersistenceError::InvalidPlan {
            field: "missing or invalid fingerprint"
        })
    ));
}

#[test]
fn test_same_model_machine_and_storage_are_valid() {
    let fixture = fixture();
    let loaded =
        PersistedExecutionPlan::from_bytes(&persisted(&fixture).to_bytes().unwrap()).unwrap();
    assert_eq!(
        loaded.validate_compatibility(compatibility_context(&fixture, None)),
        PlanCompatibility::Valid
    );
    let runtime_config = loaded.compile_runtime_config(fixture.context()).unwrap();
    assert_eq!(
        runtime_config.cpu_thread_count,
        fixture.plan.cpu_thread_count
    );
    assert_eq!(
        runtime_config.ram_budget_bytes,
        fixture.plan.ram_budget_bytes
    );
    assert_eq!(
        runtime_config.layer_cache_capacity_bytes,
        fixture.plan.layer_cache.capacity_bytes
    );
}

#[test]
fn test_cross_machine_load_revalidates_concrete_thread_requirements() {
    let source = fixture();
    let bytes = persisted(&source).to_bytes().unwrap();
    let loaded = PersistedExecutionPlan::from_bytes(&bytes).unwrap();

    let mut compatible_machine = fixture();
    compatible_machine.machine.cpu_model = Some("different-compatible-cpu".to_string());
    compatible_machine.refresh_capabilities();
    assert_ne!(
        loaded.source_machine_fingerprint,
        compatible_machine.machine.fingerprint()
    );
    assert_eq!(
        loaded.validate_compatibility(compatibility_context(&compatible_machine, None)),
        PlanCompatibility::Valid
    );

    let mut insufficient_machine = fixture();
    insufficient_machine.machine.logical_cpu_cores = 2;
    insufficient_machine.refresh_capabilities();
    assert_eq!(
        loaded.validate_compatibility(compatibility_context(&insufficient_machine, None)),
        PlanCompatibility::Incompatible
    );
    assert_eq!(loaded.cpu_thread_count, source.plan.cpu_thread_count);
}

#[test]
fn test_changed_storage_is_valid_only_when_required_capabilities_remain() {
    let source = fixture();
    let loaded =
        PersistedExecutionPlan::from_bytes(&persisted(&source).to_bytes().unwrap()).unwrap();

    let mut compatible_storage = fixture();
    compatible_storage.storage.device_id = Some("different-device".to_string());
    compatible_storage.refresh_capabilities();
    assert_ne!(
        loaded.source_storage_fingerprint,
        compatible_storage.storage.fingerprint()
    );
    assert_eq!(
        loaded.validate_compatibility(compatibility_context(&compatible_storage, None)),
        PlanCompatibility::Valid
    );

    compatible_storage.storage.seekable = false;
    compatible_storage.refresh_capabilities();
    assert_eq!(
        loaded.validate_compatibility(compatibility_context(&compatible_storage, None)),
        PlanCompatibility::Incompatible
    );
}

#[test]
fn test_model_fingerprint_mismatch_is_incompatible() {
    let source = fixture();
    let loaded = persisted(&source);
    let mut current = fixture();
    current.model.identity.descriptor_fingerprint = current
        .model
        .identity
        .descriptor_fingerprint
        .wrapping_add(1)
        .max(1);
    current.refresh_capabilities();
    let report = loaded.compatibility_report(compatibility_context(&current, None));
    assert_eq!(report.state, PlanCompatibility::Incompatible);
    assert_eq!(
        report.reasons,
        vec![PlanCompatibilityReason::ModelFingerprintMismatch]
    );
}

#[test]
fn test_unsupported_execution_schema_or_ruleset_is_incompatible() {
    let fixture = fixture();
    for (schema, ruleset) in [
        (EXECUTION_PLAN_SCHEMA_VERSION + 1, PLANNER_RULESET_VERSION),
        (EXECUTION_PLAN_SCHEMA_VERSION, PLANNER_RULESET_VERSION + 1),
    ] {
        let mut persisted = persisted(&fixture);
        persisted.execution_schema_version = schema;
        persisted.planner_ruleset_version = ruleset;
        let loaded =
            PersistedExecutionPlan::from_bytes(&persisted.to_bytes().unwrap()).unwrap();
        assert_eq!(
            loaded.validate_compatibility(compatibility_context(&fixture, None)),
            PlanCompatibility::Incompatible
        );
    }
}

#[test]
fn test_matching_calibration_is_valid_and_stale_calibration_recommends_refresh() {
    let mut fixture = fixture();
    let calibration = matching_calibration(&fixture);
    calibration.validate().unwrap();
    apply_calibration_provenance(&mut fixture, &calibration);
    let loaded = persisted(&fixture);

    assert_eq!(
        loaded.validate_compatibility(compatibility_context(&fixture, Some(&calibration),)),
        PlanCompatibility::Valid
    );

    let mut stale = calibration.clone();
    stale.machine_fingerprint = stale.machine_fingerprint.wrapping_add(1).max(1);
    stale.validate().unwrap();
    let stale_report =
        loaded.compatibility_report(compatibility_context(&fixture, Some(&stale)));
    assert_eq!(
        stale_report.state,
        PlanCompatibility::CompatibleRecalibrationRecommended
    );
    assert_eq!(
        stale_report.reasons,
        vec![PlanCompatibilityReason::CalibrationBindingMismatch]
    );
}

#[test]
fn test_missing_calibration_recommends_refresh_when_execution_remains_valid() {
    let mut calibrated_fixture = fixture();
    let calibration = matching_calibration(&calibrated_fixture);
    apply_calibration_provenance(&mut calibrated_fixture, &calibration);
    let loaded = persisted(&calibrated_fixture);
    let missing_report =
        loaded.compatibility_report(compatibility_context(&calibrated_fixture, None));
    assert_eq!(
        missing_report.state,
        PlanCompatibility::CompatibleRecalibrationRecommended
    );
    assert_eq!(
        missing_report.reasons,
        vec![PlanCompatibilityReason::CalibrationMissing]
    );

    let mut requested_without_result = fixture();
    requested_without_result.plan.calibration = CalibrationProvenance {
        calibration_identifier: None,
        calibration_plan_identifier: None,
        calibration_plan_version: None,
        calibration_ruleset_version: None,
        observation_identifiers: Vec::new(),
    };
    requested_without_result
        .plan
        .reasons
        .retain(|reason| reason.code != PlanReasonCode::CalibrationNotRequested);
    requested_without_result.plan.reasons.push(PlanReason {
        code: PlanReasonCode::CalibrationNotApplicable,
        value: Some(0),
    });
    assert_eq!(
        persisted(&requested_without_result)
            .validate_compatibility(compatibility_context(&requested_without_result, None),),
        PlanCompatibility::CompatibleRecalibrationRecommended
    );
}

#[test]
fn test_hard_compiler_invariant_failure_is_incompatible() {
    let fixture = fixture();
    let mut persisted = persisted(&fixture);
    persisted.layer_cache.capacity_bytes = 1_000;
    let loaded = PersistedExecutionPlan::from_bytes(&persisted.to_bytes().unwrap()).unwrap();
    assert!(matches!(
        loaded.compile_runtime_config(fixture.context()),
        Err(PersistedPlanValidationError::Compilation(
            PlanCompilationError::LayerCacheCapacityCannotFitLayer { .. }
        ))
    ));
    assert_eq!(
        loaded.validate_compatibility(compatibility_context(&fixture, None)),
        PlanCompatibility::Incompatible
    );
}

#[test]
fn test_gpu_execution_requirement_is_loadable_but_incompatible() {
    let fixture = fixture();
    let mut persisted = persisted(&fixture);
    persisted.strategy = StrategyId::GpuLayerOffload;
    persisted.gpu = GpuDecision {
        preference: GpuPreference::Prefer,
        enabled: true,
        selected_device_id: Some("gpu0".to_string()),
    };
    let loaded = PersistedExecutionPlan::from_bytes(&persisted.to_bytes().unwrap()).unwrap();
    assert_eq!(
        loaded.validate_compatibility(compatibility_context(&fixture, None)),
        PlanCompatibility::Incompatible
    );
}

#[test]
fn test_persistence_excludes_paths_payloads_and_runtime_state() {
    let fixture = fixture();
    let bytes = persisted(&fixture).to_bytes().unwrap();
    let path = fixture.plan.binding.model_path.clone();
    assert!(!bytes
        .windows(path.len())
        .any(|window| window == path.as_bytes()));
    let forbidden_values: &[&[u8]] = &[b"weight:", b"cache:layer:", b"GGUF"];
    for &forbidden in forbidden_values {
        assert!(!bytes
            .windows(forbidden.len())
            .any(|window| window == forbidden));
    }
}

#[test]
fn every_prefix_of_a_plan_is_refused() {
    let bytes = persisted(&fixture()).to_bytes().unwrap();
    for length in 0..bytes.len() {
        assert!(matches!(
            PersistedExecutionPlan::from_bytes(&bytes[..length]),
            Err(PlanPersistenceError::Truncated { .. })
        ));
    }
}

#[test]
fn text_in_a_plan_is_checked() {
    let mut fixture = fixture();
    let calibration = matching_calibration(&fixture);
    apply_calibration_provenance(&mut fixture, &calibration);
    let bytes = persisted(&fixture).to_bytes().unwrap();
    let at = bytes.windows(9).position(|window| window == b"persisted").unwrap();
    assert!(PersistedExecutionPlan::from_bytes(&bytes).is_ok());
    let mut broken = bytes.clone();
    broken[at] = 0xff;
    assert!(matches!(
        PersistedExecutionPlan::from_bytes(&broken),
        Err(PlanPersistenceError::InvalidUtf8 { .. })
    ));
}

#[test]
fn compiler_errors_are_worded() {
    assert_eq!(
        PlanCompilationError::ThreadCountExceedsLimit { requested: 9, limit: 8 }.message(),
        "execution plan requests 9 CPU threads but the limit is 8"
    );
}

#[test]
fn a_loaded_plan_is_materialized_for_its_context() {
    let fixture = fixture();
    let mut saved = persisted(&fixture);
    let plan = saved.materialize_for_validation(fixture.context()).unwrap();
    assert_eq!(plan.ram_budget_bytes, fixture.plan.ram_budget_bytes);
    assert_eq!(plan.cpu_thread_count, fixture.plan.cpu_thread_count);
    assert_eq!(
        plan.layer_cache.capacity_bytes,
        fixture.plan.layer_cache.capacity_bytes
    );
    assert_eq!(plan, fixture.plan);
    let bound = saved.materialize(
        fixture.plan.binding.machine_fingerprint,
        fixture.plan.binding.storage_fingerprint,
        fixture.plan.binding.model_path.clone(),
        None,
    );
    assert_eq!(bound, fixture.plan);
    let mut elsewhere = self::fixture();
    elsewhere.machine.available_ram_bytes = Some(7);
    let mut moved = saved.materialize_for_validation(elsewhere.context()).unwrap();
    assert_eq!(moved.reservations.available_ram_bytes_at_planning, 7);
    moved.reservations.available_ram_bytes_at_planning =
        fixture.plan.reservations.available_ram_bytes_at_planning;
    assert_eq!(moved, fixture.plan);
    saved.execution_schema_version = 0;
    assert_eq!(
        saved.materialize_for_validation(fixture.context()).unwrap_err(),
        PlanPersistenceError::InvalidPlan { field: "missing execution schema version" }
    );
}
