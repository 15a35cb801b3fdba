use ramforge_runtime::calibration::{
    calibration_plan_identifier, cpu_task, CalibrationError, CalibrationLimits, CalibrationPlan,
    CalibrationQuantization, CalibrationTask, CalibrationTestKind,
};
use ramforge_runtime::calibration_run::{
    make_quantized_row, non_measured_observation, storage_read_length, workload_length,
    CalibrationRunner, Measurement, MeasurementAction,
};
use ramforge_runtime::observation::{
    CalibrationResult, MeasurementSample, ObservationMetric, ObservationStatus,
    ObservationStatusReason,
};
use ramforge_runtime::profiles::{
    AdvancedOverrides, Availability, CalibrationLevel, CapabilitySet, CpuFeature, CpuFeatureSet,
    DiscoveryState, GpuPreference, MachineProfile, ModelExecutionCompatibility, ModelIdentity,
    ModelProfile, OperatingMode, StorageKind, StoragePathState, StorageProfile, StrategyId,
    TensorFormatProfile, UserProfile, CALIBRATION_PLAN_VERSION, CALIBRATION_RULESET_VERSION,
    PROFILE_SCHEMA_VERSION,
};

fn profiles(
    level: CalibrationLevel,
    path: &str,
) -> (UserProfile, MachineProfile, ModelProfile, StorageProfile, CapabilitySet) {
    let mut user = UserProfile::new(8 * 1024 * 1024, OperatingMode::BalancedNormal);
    user.calibration_level = level;
    user.gpu_preference = GpuPreference::Disabled;
    user.advanced = AdvancedOverrides::default();

    let mut cpu_features = CpuFeatureSet::new();
    cpu_features.insert(CpuFeature::Avx2);
    let machine = MachineProfile {
        schema_version: PROFILE_SCHEMA_VERSION,
        os: "linux".to_string(),
        architecture: "x86_64".to_string(),
        kernel_version: Some("test-kernel".to_string()),
        cpu_vendor: Some("test-vendor".to_string()),
        cpu_model: Some("test-cpu".to_string()),
        physical_cpu_cores: Some(2),
        logical_cpu_cores: 4,
        cpu_features,
        total_ram_bytes: Some(16 * 1024 * 1024),
        available_ram_bytes: Some(12 * 1024 * 1024),
        cpu_backend: Availability { detected: true, supported: true, usable: true },
        gpu_inventory_state: DiscoveryState::Complete,
        gpus: Vec::new(),
    };
    let model = ModelProfile {
        schema_version: PROFILE_SCHEMA_VERSION,
        identity: ModelIdentity {
            display_name: Some("synthetic".to_string()),
            descriptor_fingerprint: 11,
        },
        architecture: Some("llama".to_string()),
        context_size: Some(64),
        layer_count: Some(1),
        tensor_count: 2,
        total_tensor_elements: Some(4_096),
        file_size_bytes: 4_096,
        tensor_data_bytes: Some(4_096),
        tensor_formats: vec![
            TensorFormatProfile {
                format: "Q4_K".to_string(),
                tensor_count: 1,
                element_count: Some(2_048),
                byte_count: Some(1_152),
                runtime_supported: true,
            },
            TensorFormatProfile {
                format: "Q8_0".to_string(),
                tensor_count: 1,
                element_count: Some(2_048),
                byte_count: Some(2_176),
                runtime_supported: true,
            },
        ],
        execution_compatibility: ModelExecutionCompatibility::Executable,
        has_coalescible_layer_reads: true,
        has_reusable_grouped_read_candidate: false,
    };
    let storage = StorageProfile {
        schema_version: PROFILE_SCHEMA_VERSION,
        model_path: path.to_string(),
        path_state: StoragePathState::Ready,
        readable: true,
        regular_file: true,
        file_size_bytes: Some(4_096),
        filesystem_type: Some("testfs".to_string()),
        filesystem_id: Some("test-fs".to_string()),
        device_id: Some("test-device".to_string()),
        kind: StorageKind::Local,
        seekable: true,
    };
    let capabilities = CapabilitySet {
        schema_version: PROFILE_SCHEMA_VERSION,
        machine_fingerprint: machine.fingerprint(),
        model_fingerprint: model.identity.descriptor_fingerprint,
        storage_fingerprint: storage.fingerprint(),
        storage_usable: true,
        cpu_backend_usable: true,
        cpu_simd_avx2: true,
        gpu_backend_usable: false,
        model_execution_compatible: true,
        layer_cache_possible: true,
        read_coalescing_possible: true,
        grouped_read_buffer_reuse_possible: false,
        supported_tensor_formats: vec!["Q4_K".to_string(), "Q8_0".to_string()],
        unsupported_tensor_formats: Vec::new(),
    };
    (user, machine, model, storage, capabilities)
}

fn test_limits() -> CalibrationLimits {
    CalibrationLimits {
        max_memory_bytes: 4 * 1024 * 1024,
        max_storage_read_bytes: 64 * 1024,
        max_total_duration_ns: 5_000_000_000,
        max_task_duration_ns: 1_000_000_000,
        max_samples: 7,
        max_iterations_per_sample: 64,
    }
}

#[test]
fn test_calibration_plan_level_mapping_is_explicit() {
    let (mut user, machine, model, storage, capabilities) =
        profiles(CalibrationLevel::NotRequested, "/missing/model.gguf");
    let none =
        CalibrationPlan::build(&user, &machine, &model, &storage, &capabilities, test_limits())
            .unwrap();
    assert!(none.tasks.is_empty());

    user.calibration_level = CalibrationLevel::Quick;
    let quick =
        CalibrationPlan::build(&user, &machine, &model, &storage, &capabilities, test_limits())
            .unwrap();
    assert_eq!(quick.tasks.len(), 2);

    user.calibration_level = CalibrationLevel::Standard;
    let standard =
        CalibrationPlan::build(&user, &machine, &model, &storage, &capabilities, test_limits())
            .unwrap();
    assert_eq!(standard.tasks.len(), 4);
    assert!(matches!(
        standard.tasks[3].kind,
        CalibrationTestKind::QuantizedRowDecode(CalibrationQuantization::Q4K)
    ));

    user.calibration_level = CalibrationLevel::Thorough;
    let thorough =
        CalibrationPlan::build(&user, &machine, &model, &storage, &capabilities, test_limits())
            .unwrap();
    assert_eq!(thorough.tasks.len(), 5);
}

#[test]
fn test_calibration_identity_is_deterministic_and_versioned() {
    let (user, machine, model, storage, capabilities) =
        profiles(CalibrationLevel::Standard, "/missing/model.gguf");
    let first =
        CalibrationPlan::build(&user, &machine, &model, &storage, &capabilities, test_limits())
            .unwrap();
    let second =
        CalibrationPlan::build(&user, &machine, &model, &storage, &capabilities, test_limits())
            .unwrap();
    assert_eq!(first, second);
    assert_eq!(first.plan_version, CALIBRATION_PLAN_VERSION);
    assert_eq!(first.ruleset_version, CALIBRATION_RULESET_VERSION);
}

/// Every operation takes a microsecond of a clock of our own.
fn measure(task: &CalibrationTask) -> Result<Vec<MeasurementSample>, ObservationStatusReason> {
    let units = match task.kind {
        CalibrationTestKind::SequentialStorageRead | CalibrationTestKind::MemoryCopyBandwidth => {
            task.work.bytes_per_iteration
        }
        _ => task.work.elements_per_iteration,
    };
    let mut measurement = Measurement::begin(task.work, units)?;
    let mut now = 0u64;
    let mut sample_start = 0u64;
    loop {
        match measurement.next_action() {
            MeasurementAction::Finish => return measurement.finish(),
            MeasurementAction::StartSample => sample_start = now,
            MeasurementAction::Warmup | MeasurementAction::Continue => {}
        }
        now += 1_000;
        measurement.record(now, now - sample_start)?;
    }
}

fn run(
    plan: &CalibrationPlan,
    user: &UserProfile,
    machine: &MachineProfile,
    model: &ModelProfile,
    storage: &StorageProfile,
    capabilities: &CapabilitySet,
) -> CalibrationResult {
    let mut session =
        CalibrationRunner.start(plan, user, machine, model, storage, capabilities).unwrap();
    while session.observations.len() < plan.tasks.len() {
        if session.begin_task(plan, capabilities, 0).unwrap() {
            let measured = measure(&plan.tasks[session.observations.len()]);
            session.end_task(plan, measured);
        }
    }
    session.finish(plan, Some(1)).unwrap()
}

#[test]
fn test_runner_returns_measured_and_unavailable_states() {
    let (user, machine, model, mut storage, mut capabilities) =
        profiles(CalibrationLevel::Quick, "/missing/model.gguf");
    storage.seekable = false;
    capabilities.storage_fingerprint = storage.fingerprint();
    capabilities.storage_usable = false;
    let plan =
        CalibrationPlan::build(&user, &machine, &model, &storage, &capabilities, test_limits())
            .unwrap();
    let result = run(&plan, &user, &machine, &model, &storage, &capabilities);
    assert_eq!(result.calibration_plan_identifier, plan.identifier);
    assert_eq!(result.calibration_plan_version, CALIBRATION_PLAN_VERSION);
    assert_eq!(result.calibration_ruleset_version, CALIBRATION_RULESET_VERSION);
    assert_eq!(result.observations.len(), 2);
    assert_eq!(result.observations[0].status, ObservationStatus::Measured);
    assert_eq!(result.observations[1].status, ObservationStatus::Unavailable);
    assert_eq!(
        result.observations[1].status_reason,
        Some(ObservationStatusReason::CapabilityUnavailable)
    );
}

#[test]
fn test_runner_enforces_resource_limits_with_skipped_state() {
    let (user, machine, model, storage, capabilities) =
        profiles(CalibrationLevel::Standard, "/missing/model.gguf");
    let mut limits = test_limits();
    limits.max_memory_bytes = 1;
    let plan =
        CalibrationPlan::build(&user, &machine, &model, &storage, &capabilities, limits).unwrap();
    let result = run(&plan, &user, &machine, &model, &storage, &capabilities);
    assert!(result.observations.iter().any(|observation| {
        observation.status == ObservationStatus::Skipped
            && observation.status_reason == Some(ObservationStatusReason::ResourceLimitExceeded)
    }));
}

#[test]
fn test_storage_measurement_is_bounded_and_structurally_valid() {
    let (user, machine, model, storage, capabilities) =
        profiles(CalibrationLevel::Quick, "/models/model.gguf");
    let plan =
        CalibrationPlan::build(&user, &machine, &model, &storage, &capabilities, test_limits())
            .unwrap();
    let result = run(&plan, &user, &machine, &model, &storage, &capabilities);
    let storage_observation = result
        .observations
        .iter()
        .find(|observation| observation.metric == ObservationMetric::SequentialReadThroughput)
        .unwrap();
    assert_eq!(storage_observation.status, ObservationStatus::Measured);
    assert!(storage_observation.value.is_some());
    assert!(storage_observation.sample_count > 0);
    assert!(storage_observation.workload_bytes <= 64 * 1024 * 8 * 7);
    storage_observation.validate().unwrap();
}

#[test]
fn test_observation_states_are_explicit_and_validated() {
    let task = cpu_task(CalibrationLevel::Quick, test_limits());
    for (status, reason) in [
        (ObservationStatus::Unavailable, ObservationStatusReason::CapabilityUnavailable),
        (ObservationStatus::Skipped, ObservationStatusReason::ResourceLimitExceeded),
        (ObservationStatus::Failed, ObservationStatusReason::InvalidWorkload),
    ] {
        non_measured_observation(&task, CalibrationLevel::Quick, status, reason)
            .validate()
            .unwrap();
    }
}

#[test]
fn test_strategy_measurement_is_explicitly_skipped_until_implemented() {
    let (user, machine, model, storage, capabilities) =
        profiles(CalibrationLevel::Thorough, "/missing/model.gguf");
    let mut plan =
        CalibrationPlan::build(&user, &machine, &model, &storage, &capabilities, test_limits())
            .unwrap();
    plan.tasks.clear();
    plan.identifier = calibration_plan_identifier(&plan);
    plan.request_strategy_measurement(StrategyId::CpuLayerStreaming).unwrap();
    let result = run(&plan, &user, &machine, &model, &storage, &capabilities);
    let observation = result.observations.last().unwrap();
    assert_eq!(observation.status, ObservationStatus::Skipped);
    assert_eq!(observation.status_reason, Some(ObservationStatusReason::TestNotImplemented));
}

#[test]
fn a_changed_plan_is_refused() {
    let (user, machine, model, storage, capabilities) =
        profiles(CalibrationLevel::Quick, "/missing/model.gguf");
    let mut plan =
        CalibrationPlan::build(&user, &machine, &model, &storage, &capabilities, test_limits())
            .unwrap();
    assert!(plan.validate().is_ok());
    plan.tasks[0].work.sample_count += 1;
    assert!(matches!(plan.validate(), Err(CalibrationError::InvalidPlan(_))));
    assert!(CalibrationRunner
        .start(&plan, &user, &machine, &model, &storage, &capabilities)
        .is_err());
}

#[test]
fn a_slow_task_keeps_what_it_measured() {
    let task = cpu_task(CalibrationLevel::Quick, test_limits());
    let mut measurement = Measurement::begin(task.work, task.work.elements_per_iteration).unwrap();
    while measurement.next_action() == MeasurementAction::Warmup {
        measurement.record(1, 0).unwrap();
    }
    assert_eq!(measurement.next_action(), MeasurementAction::StartSample);
    for _ in 0..task.work.iterations_per_sample {
        measurement.record(task.work.max_duration_ns, 10).unwrap();
    }
    assert_eq!(measurement.next_action(), MeasurementAction::Finish);
    let samples = measurement.finish().unwrap();
    assert_eq!(samples.len(), 1);
    assert_eq!(samples[0].elapsed_ns, 10);
}

#[test]
fn quantized_rows_have_whole_blocks() {
    for (format, name, elements, bytes) in [
        (CalibrationQuantization::Q4_0, "Q4_0", 32, 18),
        (CalibrationQuantization::Q8_0, "Q8_0", 32, 34),
        (CalibrationQuantization::Q4K, "Q4_K", 256, 144),
    ] {
        assert_eq!(format.format_name(), name);
        assert_eq!(format.block_elements(), elements);
        assert_eq!(format.block_bytes(), bytes);
        assert_eq!(make_quantized_row(format, 2 * elements).unwrap().len(), 2 * bytes);
        assert!(make_quantized_row(format, elements + 1).is_none());
    }
}

#[test]
fn workloads_follow_the_file() {
    assert_eq!(storage_read_length(65536, Some(4096), 4096), Ok(4096));
    assert_eq!(storage_read_length(1024, Some(8192), 8192), Ok(1024));
    assert_eq!(
        storage_read_length(1024, Some(4096), 8192),
        Err(ObservationStatusReason::DependencyUnavailable)
    );
    assert_eq!(workload_length(12), Ok(12));
    assert!(storage_read_length(0, None, 10).is_err());
}
