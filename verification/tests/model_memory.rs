use ramforge_runtime::accounting::{estimate_grouped_layer_memory, estimate_layer_memory};
use ramforge_runtime::gguf::{
    GgmlType, GgufInfo, GgufModel, MetadataEntry, MetadataValue, TensorDescriptor,
};
use ramforge_runtime::layer::{group_layers, PersistentDescriptors};
use ramforge_runtime::layer_read::{
    build_layer_read_plan, MAX_COALESCED_GAP_BYTES, MAX_COALESCED_SPAN_BYTES,
};
use ramforge_runtime::model::{validate_required_tensors, LlamaConfig};
use ramforge_runtime::plan::max_complete_layers_for_capacity;
use ramforge_runtime::plan_model;

fn no_info() -> GgufInfo {
    GgufInfo {
        architecture: None,
        name: None,
        tokenizer_model: None,
        context_length: None,
        embedding_length: None,
        block_count: None,
        head_count: None,
        head_count_kv: None,
        expert_count: None,
        expert_used_count: None,
        file_type: None,
        vocab_size: None,
    }
}

fn descriptor(name: &str, offset: u64, length: u64) -> TensorDescriptor {
    TensorDescriptor {
        name: name.to_string(),
        dimensions: vec![length / 4],
        ggml_type: GgmlType::F32,
        offset,
        file_offset: offset,
        byte_length: Some(length),
        num_elements: length / 4,
    }
}

fn make_model_with_layers(n_layers: usize) -> GgufModel {
    let mut tensors = Vec::new();
    let mut offset = 0u64;
    for name in ["token_embd.weight", "output_norm.weight"] {
        tensors.push(descriptor(name, offset, 32));
        offset += 32;
    }
    for i in 0..n_layers {
        for suffix in [
            "attn_norm.weight",
            "attn_q.weight",
            "attn_k.weight",
            "attn_v.weight",
            "attn_output.weight",
            "ffn_norm.weight",
            "ffn_gate.weight",
            "ffn_up.weight",
            "ffn_down.weight",
        ] {
            tensors.push(descriptor(&format!("blk.{}.{}", i, suffix), offset, 32));
            offset += 32;
        }
    }
    GgufModel {
        path: "/tmp/layers.gguf".to_string(),
        file_size: offset,
        version: 3,
        info: no_info(),
        metadata: Vec::new(),
        tensors,
        alignment: 32,
    }
}

#[test]
fn test_layer_grouping() {
    let model = make_model_with_layers(3);
    let layers = group_layers(&model, 3);
    assert_eq!(layers.len(), 3);
    assert_eq!(layers[0].tensors.len(), 9);
    assert_eq!(layers[1].tensors.len(), 9);
    assert_eq!(layers[0].layer_idx, 0);
    assert_eq!(layers[2].total_bytes, Some(288));
    assert_eq!(layers[1].tensor_names()[0], "blk.1.attn_norm.weight");
}

#[test]
fn test_persistent_descriptors() {
    let model = make_model_with_layers(2);
    let pers = PersistentDescriptors::from_model(&model);
    assert!(pers.token_embd.is_some());
    assert!(pers.output_norm.is_some());
    assert!(pers.output.is_none());
    assert_eq!(pers.total_bytes(), Some(64));
}

#[test]
fn test_adjacent_and_arbitrarily_ordered_tensors_coalesce() {
    let descriptors =
        vec![descriptor("c", 108, 4), descriptor("a", 100, 4), descriptor("b", 104, 4)];
    let plan = build_layer_read_plan(&descriptors).unwrap();
    assert_eq!(plan.logical_tensor_count, 3);
    assert_eq!(plan.ranges.len(), 1);
    assert_eq!(plan.ranges[0].file_offset, 100);
    assert_eq!(plan.ranges[0].byte_length, 12);
    assert_eq!(plan.ranges[0].gap_bytes, 0);
    let indices: Vec<usize> =
        plan.ranges[0].tensors.iter().map(|tensor| tensor.descriptor_index).collect();
    assert_eq!(indices, vec![1, 2, 0]);
}

#[test]
fn test_small_gap_is_bounded_overhead_not_logical_data() {
    let descriptors = vec![descriptor("a", 100, 8), descriptor("b", 116, 8)];
    let plan = build_layer_read_plan(&descriptors).unwrap();
    assert_eq!(plan.ranges.len(), 1);
    assert_eq!(plan.logical_bytes, 16);
    assert_eq!(plan.physical_bytes, 24);
    assert_eq!(plan.gap_bytes, 8);
    assert_eq!(plan.ranges[0].tensors[1].offset_in_range, 16);
}

#[test]
fn test_large_gap_and_max_span_remain_separate() {
    let gap = MAX_COALESCED_GAP_BYTES + 1;
    let descriptors = vec![descriptor("a", 0, 8), descriptor("b", 8 + gap, 8)];
    assert_eq!(build_layer_read_plan(&descriptors).unwrap().ranges.len(), 2);

    let descriptors = vec![
        descriptor("a", 0, MAX_COALESCED_SPAN_BYTES),
        descriptor("b", MAX_COALESCED_SPAN_BYTES, 4),
    ];
    assert_eq!(build_layer_read_plan(&descriptors).unwrap().ranges.len(), 2);
}

#[test]
fn gaps_are_bounded_one_by_one() {
    let gap = MAX_COALESCED_GAP_BYTES;
    let joined =
        vec![descriptor("a", 0, 8), descriptor("b", 8 + gap, 8), descriptor("c", 16 + 2 * gap, 8)];
    let plan = build_layer_read_plan(&joined).unwrap();
    assert_eq!(plan.ranges.len(), 1);
    assert_eq!(plan.gap_bytes, 2 * gap);
    let split =
        vec![descriptor("a", 0, 8), descriptor("b", 8, 8), descriptor("c", 17 + gap, 8)];
    let plan = build_layer_read_plan(&split).unwrap();
    assert_eq!(plan.ranges.len(), 2);
    assert_eq!(plan.gap_bytes, 0);
    let overlapping = vec![descriptor("a", 0, 8), descriptor("b", 7, 8)];
    assert_eq!(
        build_layer_read_plan(&overlapping).unwrap_err(),
        "tensor ranges overlap at descriptor index 1"
    );
}

#[test]
fn grouped_and_single_loads_settle_on_the_same_bytes() {
    let descriptors =
        vec![descriptor("a", 0, 64), descriptor("b", 64, 32), descriptor("c", 1 << 30, 16)];
    let plan = build_layer_read_plan(&descriptors).unwrap();
    assert_eq!(plan.ranges.len(), 2);
    assert!(plan.has_grouped_range());
    assert_eq!(plan.reusable_group_buffer_bytes(), None);
    let single = estimate_layer_memory(&descriptors).unwrap();
    let grouped = estimate_grouped_layer_memory(&descriptors, &plan).unwrap();
    assert_eq!(single.resident_bytes, 112);
    assert_eq!(single.load_peak_bytes, 112);
    assert_eq!(grouped.resident_bytes, 112);
    assert!(grouped.load_peak_bytes >= single.load_peak_bytes);
}

#[test]
fn unknown_lengths_cannot_be_estimated() {
    let mut tensor = descriptor("a", 0, 8);
    tensor.byte_length = None;
    assert_eq!(
        estimate_layer_memory(&[tensor]).unwrap_err(),
        "tensor 'a' byte length is unknown"
    );
}

fn dummy_model(file_size: u64) -> GgufModel {
    GgufModel {
        path: "/tmp/dummy.gguf".to_string(),
        file_size,
        version: 3,
        info: no_info(),
        metadata: Vec::new(),
        tensors: Vec::new(),
        alignment: 32,
    }
}

fn unsigned(key: &str, value: u64) -> MetadataEntry {
    MetadataEntry {
        key: key.to_string(),
        value: MetadataValue { unsigned: Some(value), float_bits: None, array_length: None },
    }
}

fn supported_tiny_model() -> GgufModel {
    let metadata = vec![
        unsigned("llama.attention.head_count", 2),
        unsigned("llama.attention.head_count_kv", 2),
        unsigned("llama.block_count", 1),
        unsigned("llama.context_length", 64),
        unsigned("llama.embedding_length", 8),
        unsigned("llama.feed_forward_length", 16),
        unsigned("llama.vocab_size", 16),
    ];
    let definitions: Vec<(&str, Vec<u64>)> = vec![
        ("token_embd.weight", vec![8, 16]),
        ("output_norm.weight", vec![8]),
        ("blk.0.attn_norm.weight", vec![8]),
        ("blk.0.attn_q.weight", vec![8, 8]),
        ("blk.0.attn_k.weight", vec![8, 8]),
        ("blk.0.attn_v.weight", vec![8, 8]),
        ("blk.0.attn_output.weight", vec![8, 8]),
        ("blk.0.ffn_norm.weight", vec![8]),
        ("blk.0.ffn_gate.weight", vec![8, 16]),
        ("blk.0.ffn_up.weight", vec![8, 16]),
        ("blk.0.ffn_down.weight", vec![16, 8]),
    ];
    let mut offset = 0u64;
    let mut tensors = Vec::new();
    for (name, dimensions) in definitions {
        let num_elements = dimensions.iter().product::<u64>();
        let byte_length = num_elements * 4;
        tensors.push(TensorDescriptor {
            name: name.to_string(),
            dimensions,
            ggml_type: GgmlType::F32,
            offset,
            file_offset: offset,
            byte_length: Some(byte_length),
            num_elements,
        });
        offset += byte_length;
    }
    let mut info = no_info();
    info.architecture = Some("llama".to_string());
    info.context_length = Some(64);
    info.embedding_length = Some(8);
    info.block_count = Some(1);
    info.head_count = Some(2);
    info.head_count_kv = Some(2);
    info.vocab_size = Some(16);
    GgufModel {
        path: "/tmp/supported-tiny.gguf".to_string(),
        file_size: offset,
        version: 3,
        info,
        metadata,
        tensors,
        alignment: 32,
    }
}

#[test]
fn test_plan_fits() {
    let model = dummy_model(1_000_000);
    let plan = plan_model(&model, 8 * 1024 * 1024 * 1024).unwrap();
    assert!(plan.fits_in_ram);
    assert_eq!(plan.file_backed_needed, 0);
    assert!(plan.cache_capacity > 0);
    assert!(plan.cache_capacity <= plan.ram_requested);
    assert_eq!(plan.cache_capacity, 6871947673);
    let large = plan_model(&model, 2085250623837076).unwrap();
    assert_eq!(large.cache_capacity, 1668200499069661);
    assert!(plan.execution_memory.is_none());
    assert!(plan.execution_preflight_error.is_some());
}

#[test]
fn test_plan_exceeds() {
    let model = dummy_model(10 * 1024 * 1024 * 1024);
    let plan = plan_model(&model, 8 * 1024 * 1024 * 1024).unwrap();
    assert!(!plan.fits_in_ram);
    assert_eq!(plan.file_backed_needed, 2 * 1024 * 1024 * 1024);
}

#[test]
fn test_execution_preflight_matches_runtime_layer_accounting() {
    let model = supported_tiny_model();
    let plan = plan_model(&model, 10_000).unwrap();
    let execution = plan.execution_memory.unwrap();
    assert_eq!(execution.block_count, 1);
    assert_eq!(execution.resident_persistent_count, 2);
    assert_eq!(execution.streamed_persistent_count, 0);
    assert_eq!(execution.persistent_resident_bytes, 544);
    assert_eq!(execution.persistent_startup_peak_bytes, 544);
    assert_eq!(execution.largest_layer_index, 0);
    assert_eq!(execution.largest_layer_tensor_count, 9);
    assert_eq!(execution.largest_layer_resident_bytes, 2624);
    assert_eq!(execution.largest_layer_load_peak_bytes, 2624);
    assert_eq!(execution.managed_lower_bound_bytes, 3168);
    assert_eq!(execution.layer_cache_capacity_bytes, 6832);
    assert_eq!(execution.max_complete_cached_layers, 1);
    assert_eq!(execution.min_layer_resident_bytes, 2624);
    assert!(execution.layer_streaming_lower_bound_fits);
}

#[test]
fn test_planner_reports_maximum_complete_layer_capacity() {
    assert_eq!(max_complete_layers_for_capacity(&[100, 200, 300], 99), 0);
    assert_eq!(max_complete_layers_for_capacity(&[100, 200, 300], 300), 2);
    assert_eq!(max_complete_layers_for_capacity(&[100, 200, 300], 600), 3);
}

#[test]
fn test_execution_preflight_flags_too_small_layer_lower_bound() {
    let model = supported_tiny_model();
    let plan = plan_model(&model, 3_000).unwrap();
    let execution = plan.execution_memory.unwrap();
    assert_eq!(execution.managed_lower_bound_bytes, 3168);
    assert_eq!(execution.layer_cache_capacity_bytes, 0);
    assert_eq!(execution.max_complete_cached_layers, 0);
    assert!(!execution.layer_streaming_lower_bound_fits);
}

#[test]
fn a_zero_budget_cannot_be_planned() {
    assert_eq!(
        plan_model(&dummy_model(1), 0).unwrap_err(),
        "RAM budget must be greater than zero"
    );
}

#[test]
fn test_config_from_gguf() {
    let mut model = dummy_model(0);
    model.info.architecture = Some("bert".to_string());
    let err = LlamaConfig::from_gguf(&model).unwrap_err();
    assert!(err.contains("unsupported architecture"));
}

#[test]
fn config_reads_every_parameter() {
    let model = supported_tiny_model();
    let config = LlamaConfig::from_gguf(&model).unwrap();
    assert_eq!(config.vocab_size, 16);
    assert_eq!(config.context_length, 64);
    assert_eq!(config.embedding_length, 8);
    assert_eq!(config.block_count, 1);
    assert_eq!(config.feed_forward_length, 16);
    assert_eq!(config.head_count, 2);
    assert_eq!(config.head_count_kv, 2);
    assert_eq!(config.head_dim, 4);
    assert_eq!(f32::from_bits(config.rms_eps_bits), 1e-5);
    assert_eq!(f32::from_bits(config.rope_freq_base_bits), 10000.0);
    assert_eq!(validate_required_tensors(&model, &config), Ok(()));
}

#[test]
fn missing_tensors_are_listed() {
    let mut model = supported_tiny_model();
    let config = LlamaConfig::from_gguf(&model).unwrap();
    model.tensors.retain(|tensor| tensor.name != "blk.0.ffn_up.weight");
    let error = validate_required_tensors(&model, &config).unwrap_err();
    assert!(error.contains("blk.0.ffn_up.weight"), "got: {}", error);
}
