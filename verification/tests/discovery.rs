use ramforge_runtime::discovery::{
    classify_block_storage, classify_linux_storage, find_linux_mount, flag_content, gpu_inventory,
    gpu_vendor_name, is_drm_card_name, is_network_filesystem, machine_profile_from_facts,
    parse_linux_cpuinfo, parse_linux_meminfo, storage_details, storage_profile_from_facts,
    trimmed_content, BlockDeviceFacts, GpuCardFacts, MachineDiscoveryError, MachineFacts,
    StorageDetails, StorageDiscoveryError,
};
use ramforge_runtime::profiles::{
    Availability, CpuFeature, CpuFeatureSet, DiscoveryState, GpuDeviceProfile, MachineProfile,
    StorageKind, StoragePathState, StorageProfile, PROFILE_SCHEMA_VERSION,
};

fn synthetic_machine(available_ram_bytes: Option<u64>) -> MachineProfile {
    let mut cpu_features = CpuFeatureSet::new();
    cpu_features.insert(CpuFeature::Avx2);
    machine_profile_from_facts(MachineFacts {
        os: "linux".to_string(),
        architecture: "x86_64".to_string(),
        kernel_version: Some("test-kernel".to_string()),
        cpu_vendor: Some("GenuineTest".to_string()),
        cpu_model: Some("Test CPU".to_string()),
        physical_cpu_cores: Some(2),
        logical_cpu_cores: 4,
        cpu_features,
        total_ram_bytes: Some(16 * 1024 * 1024),
        available_ram_bytes,
        gpu_inventory_state: DiscoveryState::Complete,
        gpus: vec![
            GpuDeviceProfile {
                identifier: "gpu-a".to_string(),
                vendor: Some("Vendor A".to_string()),
                device_id: Some("device-a".to_string()),
                name: Some("GPU A".to_string()),
                dedicated_memory_bytes: Some(1024),
                backend: Availability { detected: true, supported: false, usable: false },
            },
            GpuDeviceProfile {
                identifier: "gpu-b".to_string(),
                vendor: Some("Vendor B".to_string()),
                device_id: Some("device-b".to_string()),
                name: None,
                dedicated_memory_bytes: None,
                backend: Availability { detected: true, supported: false, usable: false },
            },
        ],
    })
    .unwrap()
}

#[test]
fn test_machine_profile_from_synthetic_facts_is_deterministic() {
    let first = synthetic_machine(Some(12 * 1024 * 1024));
    let second = synthetic_machine(Some(12 * 1024 * 1024));
    assert_eq!(first, second);
    assert_eq!(first.architecture, "x86_64");
    assert_eq!(first.physical_cpu_cores, Some(2));
    assert_eq!(first.logical_cpu_cores, 4);
    assert!(first.cpu_features.contains(&CpuFeature::Avx2));
    assert_eq!(first.gpus.len(), 2);
    assert!(first.gpus.iter().all(|gpu| gpu.backend.detected));
    assert!(first.gpus.iter().all(|gpu| !gpu.backend.supported));
    assert!(first.gpus.iter().all(|gpu| !gpu.backend.usable));
}

#[test]
fn test_machine_fingerprint_excludes_available_ram_and_kernel_version() {
    let first = synthetic_machine(Some(12 * 1024 * 1024));
    let mut second = synthetic_machine(Some(4 * 1024 * 1024));
    second.kernel_version = Some("updated-kernel".to_string());
    assert_eq!(first.fingerprint(), second.fingerprint());
}

#[test]
fn the_machine_fingerprint_is_of_cores_memory_and_devices() {
    let mut first = synthetic_machine(None);
    assert_eq!(first.fingerprint(), 0x422742de7b3deadb);
    first.cpu_model = None;
    assert_eq!(first.fingerprint(), 0xae999d6515b9d8ad);
    // Devices are taken by identifier, and vendors do not count.
    let mut second = synthetic_machine(None);
    second.cpu_model = None;
    second.gpus.reverse();
    second.cpu_vendor = None;
    second.gpus[0].vendor = None;
    second.gpus[1].device_id = None;
    assert_eq!(first.fingerprint(), second.fingerprint());
    second.gpus[0].dedicated_memory_bytes = Some(1);
    assert_ne!(first.fingerprint(), second.fingerprint());
}

fn bare_facts(logical_cpu_cores: usize) -> MachineFacts {
    MachineFacts {
        os: "other".to_string(),
        architecture: "unknown-arch".to_string(),
        kernel_version: None,
        cpu_vendor: None,
        cpu_model: None,
        physical_cpu_cores: None,
        logical_cpu_cores,
        cpu_features: CpuFeatureSet::new(),
        total_ram_bytes: None,
        available_ram_bytes: None,
        gpu_inventory_state: DiscoveryState::Unavailable,
        gpus: Vec::new(),
    }
}

#[test]
fn test_machine_profile_allows_unknown_memory_and_gpu_inventory() {
    let profile = machine_profile_from_facts(bare_facts(1)).unwrap();
    assert_eq!(profile.total_ram_bytes, None);
    assert_eq!(profile.available_ram_bytes, None);
    assert_eq!(profile.gpu_inventory_state, DiscoveryState::Unavailable);
}

#[test]
fn impossible_machine_facts_are_refused() {
    assert_eq!(
        machine_profile_from_facts(bare_facts(0)).unwrap_err(),
        MachineDiscoveryError::InvalidDetectedFacts
    );
}

#[test]
fn test_linux_cpu_and_memory_parsers_use_explicit_fields() {
    let cpuinfo = "processor: 0\nphysical id: 0\ncore id: 0\nvendor_id: V\nmodel name: M\n\n\
                   processor: 1\nphysical id: 0\ncore id: 0\n\n\
                   processor: 2\nphysical id: 0\ncore id: 1\n\n\
                   processor: 3\nphysical id: 0\ncore id: 1\n";
    let cpu = parse_linux_cpuinfo(cpuinfo);
    assert_eq!(cpu.vendor.as_deref(), Some("V"));
    assert_eq!(cpu.model.as_deref(), Some("M"));
    assert_eq!(cpu.physical_cores, Some(2));

    let memory = parse_linux_meminfo("MemTotal: 16384 kB\nMemAvailable: 8192 kB\n");
    assert_eq!(memory, (Some(16 * 1024 * 1024), Some(8 * 1024 * 1024)));
    assert_eq!(parse_linux_meminfo("MemAvailable: 8 kB\n"), (None, None));
}

#[test]
fn incomplete_processor_sections_leave_the_core_count_open() {
    let cpu = parse_linux_cpuinfo("processor: 0\nphysical id: 0\ncore id: 0\n\nprocessor: 1\n");
    assert_eq!(cpu.physical_cores, None);
    assert_eq!(cpu.vendor, None);
    assert_eq!(parse_linux_cpuinfo("").physical_cores, None);
}

#[test]
fn test_storage_discovery_accepts_small_regular_file() {
    let details = StorageDetails {
        filesystem_type: None,
        filesystem_id: None,
        device_id: None,
        kind: StorageKind::Unknown,
    };
    let profile =
        storage_profile_from_facts("/tmp/model.gguf".to_string(), 64, true, details).unwrap();
    assert_eq!(profile.path_state, StoragePathState::Ready);
    assert!(profile.readable);
    assert!(profile.regular_file);
    assert_eq!(profile.file_size_bytes, Some(64));
    assert!(profile.seekable);
    assert!(profile.model_path.starts_with('/'));
}

#[test]
fn test_storage_fingerprint_omits_path_but_tracks_storage_identity() {
    let mut first = StorageProfile {
        schema_version: PROFILE_SCHEMA_VERSION,
        model_path: "/home/alice/model.gguf".to_string(),
        path_state: StoragePathState::Ready,
        readable: true,
        regular_file: true,
        file_size_bytes: Some(100),
        filesystem_type: Some("ext4".to_string()),
        filesystem_id: Some("ext4:8:1".to_string()),
        device_id: Some("linux-dev:8:1".to_string()),
        kind: StorageKind::SolidState,
        seekable: true,
    };
    let mut second = first.clone();
    second.model_path = "/home/bob/renamed.gguf".to_string();
    second.file_size_bytes = Some(200);
    assert_eq!(first.fingerprint(), second.fingerprint());
    first.device_id = Some("linux-dev:8:2".to_string());
    assert_ne!(first.fingerprint(), second.fingerprint());
}

#[test]
fn test_mount_parser_prefers_longest_matching_mount() {
    let mountinfo = "1 0 8:1 / / rw - ext4 /dev/root rw\n\
                     2 1 0:42 / /models rw - nfs server:/models rw\n";
    let mount = find_linux_mount(mountinfo, "/models/model.gguf").unwrap();
    assert_eq!(mount.mount_point, "/models");
    assert_eq!(mount.major_minor, "0:42");
    assert_eq!(mount.filesystem_type, "nfs");
    assert_eq!(classify_linux_storage(&mount.filesystem_type, &None), StorageKind::Network);
    assert!(is_network_filesystem("nfs"));

    let root = find_linux_mount(mountinfo, "/modelsets/model.gguf").unwrap();
    assert_eq!(root.mount_point, "/");
    let details = storage_details(&Some(root), 2049, &None);
    assert_eq!(details.filesystem_type.as_deref(), Some("ext4"));
    assert_eq!(details.kind, StorageKind::Unknown);
    assert!(find_linux_mount("", "/model").is_none());
}

#[test]
fn mount_points_are_unescaped() {
    let mount =
        find_linux_mount("7 1 8:2 / /my\\040models rw - ext4 /dev/x rw\n", "/my models/a").unwrap();
    assert_eq!(mount.mount_point, "/my models");
}

#[test]
fn test_block_storage_classification_uses_explicit_device_facts() {
    assert_eq!(
        classify_block_storage(Some(true), Some("nvme"), Some(false)),
        StorageKind::Removable
    );
    assert_eq!(classify_block_storage(Some(false), Some("nvme"), Some(false)), StorageKind::Nvme);
    assert_eq!(classify_block_storage(Some(false), None, Some(false)), StorageKind::SolidState);
    assert_eq!(classify_block_storage(Some(false), None, Some(true)), StorageKind::Rotational);
    assert_eq!(classify_block_storage(None, None, None), StorageKind::Local);
}

#[test]
fn block_facts_decide_local_storage() {
    let block = Some(BlockDeviceFacts {
        removable: Some(false),
        subsystem: Some("nvme".to_string()),
        rotational: Some(false),
    });
    assert_eq!(classify_linux_storage("ext4", &block), StorageKind::Nvme);
    assert_eq!(classify_linux_storage("nfs4", &block), StorageKind::Network);
    assert_eq!(classify_linux_storage("tmpfs", &block), StorageKind::MemoryBacked);
    assert_eq!(classify_linux_storage("ext4", &None), StorageKind::Unknown);
}

#[test]
fn test_drm_card_name_and_vendor_parsing_are_conservative() {
    assert!(is_drm_card_name("card0"));
    assert!(is_drm_card_name("card12"));
    assert!(!is_drm_card_name("card0-DP-1"));
    assert!(!is_drm_card_name("renderD128"));
    assert_eq!(gpu_vendor_name("0x10de").as_deref(), Some("NVIDIA"));
    assert_eq!(gpu_vendor_name("0xffff"), None);
}

fn card(name: &str, slot: &str) -> Option<GpuCardFacts> {
    Some(GpuCardFacts {
        card: name.to_string(),
        device_present: true,
        slot: Some(slot.to_string()),
        vendor_id: Some("0x10de".to_string()),
        device_id: Some("0x2204".to_string()),
        name: None,
        dedicated_memory: Some("1024".to_string()),
    })
}

#[test]
fn inventories_are_ordered_by_identifier() {
    let (state, gpus) = gpu_inventory(&vec![card("card1", "b"), card("card0", "a")]);
    assert_eq!(state, DiscoveryState::Complete);
    assert_eq!(gpus.len(), 2);
    assert!(gpus[0].identifier < gpus[1].identifier);
    assert_eq!(gpus[0].vendor.as_deref(), Some("NVIDIA"));
    assert_eq!(gpus[0].dedicated_memory_bytes, Some(1024));
    assert!(!gpus[0].backend.usable);
    let (state, gpus) = gpu_inventory(&vec![None, card("card0", "a")]);
    assert_eq!(state, DiscoveryState::Partial);
    assert_eq!(gpus.len(), 1);
}

#[test]
fn device_files_are_trimmed() {
    assert_eq!(trimmed_content("  nvme0\n").as_deref(), Some("nvme0"));
    assert_eq!(trimmed_content(" \n"), None);
    assert_eq!(flag_content("1"), Some(true));
    assert_eq!(flag_content("0"), Some(false));
    assert_eq!(flag_content("2"), None);
}

#[test]
fn discovery_errors_say_what_happened() {
    assert_ne!(
        StorageDiscoveryError::InvalidPath.message(),
        StorageDiscoveryError::PermissionDenied.message()
    );
    assert_ne!(
        StorageDiscoveryError::NotRegularFile.message(),
        StorageDiscoveryError::Unavailable.message()
    );
    assert_ne!(
        MachineDiscoveryError::LogicalCpuUnavailable.message(),
        MachineDiscoveryError::InvalidDetectedFacts.message()
    );
}
