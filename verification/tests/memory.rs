use ramforge_runtime::accounting::tensor_load_charge_bytes;
use ramforge_runtime::budget::{MemoryBudget, MemoryError};
use ramforge_runtime::gguf::{GgmlType, TensorDescriptor};
use ramforge_runtime::kv_cache::KvCache;
use ramforge_runtime::layer_cache::{InsertOutcome, LayerCache};
use ramforge_runtime::memory_report::{parse_kib_field, MemoryReport};
use ramforge_runtime::persistent::{
    plan_streamed_matvec, row_bytes_for, should_keep_resident, EmbeddingRead, PersistentWeight,
    ResidentTensor,
};
use ramforge_runtime::profile::{ProfileEvent, ProfileSnapshot, Profiler};
use ramforge_runtime::residency::ResidencyStats;
use ramforge_runtime::runtime::{bounded_cache_capacity, settle_cache_insert, InsertFailure};
use ramforge_runtime::scaling::eighty_percent_of;

fn bits(values: &[f32]) -> Vec<u32> {
    values.iter().map(|value| value.to_bits()).collect()
}

#[test]
fn test_tensor_load_charge_factors_match_runtime_representations() {
    assert_eq!(tensor_load_charge_bytes(GgmlType::F32, 100).unwrap(), 100);
    assert_eq!(tensor_load_charge_bytes(GgmlType::Q4_K, 100).unwrap(), 100);
    assert_eq!(tensor_load_charge_bytes(GgmlType::F16, 100).unwrap(), 300);
    assert_eq!(tensor_load_charge_bytes(GgmlType::BF16, 100).unwrap(), 300);
}

#[test]
fn test_tensor_load_charge_overflow_is_rejected() {
    let error = tensor_load_charge_bytes(GgmlType::F16, u64::MAX).unwrap_err();
    assert!(error.contains("overflow"));
}

#[test]
fn test_kv_cache_append() {
    let mut cache = KvCache::new(2, 2, 4, 10).unwrap();
    assert_eq!(cache.seq_len(), 0);
    let k = bits(&[1.0; 8]);
    let v = bits(&[2.0; 8]);
    cache.append(0, &k, &v).unwrap();
    cache.append(1, &k, &v).unwrap();
    cache.increment_seq_len();
    assert_eq!(cache.seq_len(), 1);
    assert_eq!(cache.get_k(0).len(), 8);
}

#[test]
fn test_kv_cache_memory() {
    let cache = KvCache::new(2, 2, 4, 10).unwrap();
    assert_eq!(cache.total_bytes(), 1280);
}

#[test]
fn test_kv_cache_full() {
    let mut cache = KvCache::new(1, 1, 2, 1).unwrap();
    cache.append(0, &bits(&[1.0, 2.0]), &bits(&[3.0, 4.0])).unwrap();
    cache.increment_seq_len();
    let err = cache.append(0, &bits(&[1.0, 2.0]), &bits(&[3.0, 4.0])).unwrap_err();
    assert!(err.contains("full"));
}

#[test]
fn test_kv_cache_chunked_growth_preserves_data() {
    let mut cache = KvCache::new(2, 1, 2, 1).unwrap();
    assert_eq!(cache.capacity_tokens(), 1);
    cache.append(0, &bits(&[1.0, 2.0]), &bits(&[3.0, 4.0])).unwrap();
    cache.append(1, &bits(&[5.0, 6.0]), &bits(&[7.0, 8.0])).unwrap();
    cache.increment_seq_len();

    // Grow: the caller picks chunk-aligned granularity.
    let target = cache.chunk_aligned_capacity(2);
    assert_eq!(target, 256);
    cache.grow_to(target).unwrap();
    assert_eq!(cache.capacity_tokens(), 256);
    // Data preserved
    assert_eq!(cache.get_k(0), &bits(&[1.0, 2.0])[..]);
    assert_eq!(cache.get_k(1), &bits(&[5.0, 6.0])[..]);
    // Append at grown capacity works
    cache.append(0, &bits(&[9.0, 9.0]), &bits(&[8.0, 8.0])).unwrap();
    cache.append(1, &bits(&[1.0, 1.0]), &bits(&[2.0, 2.0])).unwrap();
    cache.increment_seq_len();
    assert_eq!(cache.seq_len(), 2);
    assert_eq!(cache.get_k(0), &bits(&[1.0, 2.0, 9.0, 9.0])[..]);
    // no-op when shrinking
    cache.grow_to(1).unwrap();
    assert_eq!(cache.capacity_tokens(), 256);
}

#[test]
fn test_kv_cache_bytes_for_tokens() {
    let cache = KvCache::new(2, 2, 4, 10).unwrap();
    assert_eq!(cache.bytes_for_tokens(10), 1280);
    assert_eq!(cache.total_bytes(), 1280);
    assert_eq!(cache.bytes_for_tokens(256), 256 * 2 * 4 * 4 * 2 * 2);
}

#[test]
fn kv_cache_messages_are_exact() {
    assert_eq!(KvCache::new(0, 1, 1, 1).unwrap_err(), "invalid KV cache dimensions");
    assert_eq!(KvCache::new(1, 1, 1, 0).unwrap_err(), "invalid KV cache dimensions");
    let mut cache = KvCache::new(1, 1, 2, 1).unwrap();
    assert_eq!(cache.append(4, &[], &[]).unwrap_err(), "layer 4 out of bounds");
    assert_eq!(
        cache.append(0, &[0, 0], &[0]).unwrap_err(),
        "K/V size mismatch: expected 2, got k=2, v=1"
    );
    cache.increment_seq_len();
    assert_eq!(cache.append(0, &[], &[]).unwrap_err(), "KV cache full");
    assert!(!cache.is_empty());
    cache.clear();
    assert!(cache.is_empty());
    assert_eq!(cache.get_v(0).len(), 0);
}

#[test]
fn kv_cache_charge_is_its_size() {
    let cache = KvCache::new(2, 2, 4, 10).unwrap();
    let mut budget = MemoryBudget::new(1280).unwrap();
    cache.allocate_from_budget(&mut budget).unwrap();
    assert_eq!(budget.get("kv_cache"), Some(1280));
    assert_eq!(budget.available_bytes(), 0);
    assert_eq!(
        cache.allocate_from_budget(&mut budget).unwrap_err(),
        MemoryError::DuplicateAllocation { name: "kv_cache".to_string() }
    );
}

#[test]
fn chunk_alignment_rounds_up() {
    let cache = KvCache::new(1, 1, 1, 1).unwrap();
    assert_eq!(cache.chunk_aligned_capacity(0), 0);
    assert_eq!(cache.chunk_aligned_capacity(1), 256);
    assert_eq!(cache.chunk_aligned_capacity(256), 256);
    assert_eq!(cache.chunk_aligned_capacity(257), 512);
}

fn charge_layer(budget: &mut MemoryBudget, index: usize, bytes: u64) {
    budget.allocate(&format!("layer:{}:weight", index), bytes).unwrap();
}

#[test]
fn test_cache_hit_and_lru_eviction_release_budget() {
    let mut budget = MemoryBudget::new(1000).unwrap();
    let mut cache = LayerCache::new(200);
    charge_layer(&mut budget, 0, 100);
    assert!(matches!(
        cache.insert_loaded(0, "zero", 100, &mut budget).unwrap(),
        InsertOutcome::Cached { .. }
    ));
    charge_layer(&mut budget, 1, 100);
    cache.insert_loaded(1, "one", 100, &mut budget).unwrap();

    assert_eq!(cache.with_entry(0, |value: &&str| *value), Some("zero"));
    charge_layer(&mut budget, 2, 100);
    let outcome = cache.insert_loaded(2, "two", 100, &mut budget).unwrap();
    assert!(matches!(outcome, InsertOutcome::Cached { evictions: 1 }));
    assert!(cache.contains(0));
    assert!(!cache.contains(1));
    assert!(cache.contains(2));
    assert!(budget.get("cache:layer:1:weight").is_none());
    assert_eq!(cache.used_bytes(), 200);
    assert!(cache.used_bytes() <= cache.capacity_bytes());
}

#[test]
fn test_oversized_insert_is_skipped_without_accounting_corruption() {
    let mut budget = MemoryBudget::new(1000).unwrap();
    let mut cache = LayerCache::new(100);
    charge_layer(&mut budget, 3, 200);
    let before = budget.used_bytes();
    let outcome = cache.insert_loaded(3, "large", 200, &mut budget).unwrap();
    assert!(matches!(outcome, InsertOutcome::Skipped { value: "large", evictions: 0 }));
    assert_eq!(budget.used_bytes(), before);
    assert_eq!(budget.get("layer:3:weight"), Some(200));
    assert_eq!(cache.used_bytes(), 0);
}

#[test]
fn test_headroom_eviction_and_clear_release_exact_charges() {
    let mut budget = MemoryBudget::new(300).unwrap();
    let mut cache = LayerCache::new(200);
    for index in 0..2 {
        charge_layer(&mut budget, index, 100);
        cache.insert_loaded(index, index, 100, &mut budget).unwrap();
    }
    assert_eq!(budget.used_bytes(), 200);
    assert_eq!(cache.evict_until_available(&mut budget, 200).unwrap(), 1);
    assert_eq!(budget.used_bytes(), 100);
    assert_eq!(cache.entry_count(), 1);
    assert_eq!(cache.clear(&mut budget).unwrap(), 1);
    assert_eq!(budget.used_bytes(), 0);
    assert_eq!(cache.entry_count(), 0);
    assert_eq!(cache.used_bytes(), 0);
}

#[test]
fn a_missing_cache_charge_is_reported() {
    let mut budget = MemoryBudget::new(300).unwrap();
    let mut cache = LayerCache::new(200);
    charge_layer(&mut budget, 7, 100);
    cache.insert_loaded(7, (), 100, &mut budget).unwrap();
    budget.release("cache:layer:7:weight").unwrap();
    assert_eq!(
        cache.clear(&mut budget).unwrap_err(),
        "cached layer 7 charge 'cache:layer:7:weight' missing before eviction"
    );
    assert!(cache.contains(7));
}

#[test]
fn test_parse_proc_memory_fields() {
    let input = "MemTotal:       16384 kB\nMemAvailable:    4096 kB\nVmRSS:             512 kB\n";
    assert_eq!(parse_kib_field(input, "MemTotal:"), Some(16 * 1024 * 1024));
    assert_eq!(parse_kib_field(input, "MemAvailable:"), Some(4 * 1024 * 1024));
    assert_eq!(parse_kib_field(input, "VmRSS:"), Some(512 * 1024));
}

#[test]
fn memory_fields_may_be_absent_or_unreadable() {
    assert_eq!(parse_kib_field("", "VmRSS:"), None);
    assert_eq!(parse_kib_field("VmRSS:", "VmRSS:"), None);
    assert_eq!(parse_kib_field("VmRSS: many kB", "VmRSS:"), None);
    assert_eq!(parse_kib_field("VmRSS: 18446744073709551615 kB", "VmRSS:"), None);
    // The first line with the key decides.
    assert_eq!(parse_kib_field("VmRSS: 1 kB\nVmRSS: 2 kB", "VmRSS:"), Some(1024));
}

#[test]
fn test_memory_report_keeps_managed_memory_separate() {
    let mut budget = MemoryBudget::new(1024).unwrap();
    budget.allocate("test", 256).unwrap();
    let report = MemoryReport::collect(&budget, None, None);
    assert_eq!(report.ramforge_current_bytes, 256);
    assert_eq!(report.ramforge_peak_bytes, 256);
    assert_eq!(report.ramforge_budget_bytes, 1024);
    assert_eq!(report.process_rss_bytes, None);

    let report = MemoryReport::collect(
        &budget,
        Some("VmRSS:   3 kB\n"),
        Some("MemTotal: 8 kB\nMemAvailable: 4 kB\n"),
    );
    assert_eq!(report.process_rss_bytes, Some(3072));
    assert_eq!(report.system_total_bytes, Some(8192));
    assert_eq!(report.system_available_bytes, Some(4096));
}

#[test]
fn test_profiler_disabled_is_noop_and_enabled_counts() {
    let mut profiler = Profiler::default();
    profiler.record(ProfileEvent::LayerLoad, 5_000_000);
    assert_eq!(profiler.snapshot(), ProfileSnapshot::default());

    profiler.set_enabled(true);
    profiler.reset();
    profiler.record(ProfileEvent::LayerLoad, 5_000_000);
    profiler.record(ProfileEvent::TokenLatency, 7_000_000);
    profiler.record_token();
    profiler.record_layer_load();
    let snapshot = profiler.snapshot();
    assert_eq!(snapshot.layer_load, 5_000_000);
    assert_eq!(snapshot.token_latency_total, 7_000_000);
    assert_eq!(snapshot.max_token_latency, 7_000_000);
    assert_eq!(snapshot.tokens, 1);
    assert_eq!(snapshot.layer_loads, 1);
    assert_eq!(snapshot.cache_misses, 1);
}

#[test]
fn profiler_events_reach_their_own_counters() {
    let mut profiler = Profiler::new();
    profiler.set_enabled(true);
    assert!(profiler.is_enabled());
    for (event, nanos) in [
        (ProfileEvent::Prompt, 1),
        (ProfileEvent::LayerCompute, 2),
        (ProfileEvent::LayerRelease, 3),
        (ProfileEvent::TensorConstruction, 4),
        (ProfileEvent::Dequantization, 5),
        (ProfileEvent::FloatMatvec, 6),
        (ProfileEvent::QuantizedMatvec, 7),
        (ProfileEvent::Allocation, 8),
        (ProfileEvent::Logits, 9),
        (ProfileEvent::Sampling, 10),
        (ProfileEvent::Output, 11),
        (ProfileEvent::TokenLatency, 13),
        (ProfileEvent::TokenLatency, 12),
        (ProfileEvent::Total, 14),
    ] {
        profiler.record(event, nanos);
    }
    profiler.record_layer_release();
    profiler.record_cache_hit();
    profiler.record_prompt_forward();
    profiler.record_decode_forward();
    profiler.record_terminal_forward_skipped();
    let expected = ProfileSnapshot {
        prompt: 1,
        layer_compute: 2,
        layer_release: 3,
        tensor_construction: 4,
        dequantization: 5,
        float_matvec: 6,
        quantized_matvec: 7,
        allocation: 8,
        logits: 9,
        sampling: 10,
        output: 11,
        token_latency_total: 25,
        max_token_latency: 13,
        total: 14,
        layer_releases: 1,
        cache_hits: 1,
        prompt_forwards: 1,
        decode_forwards: 1,
        terminal_forwards_skipped: 1,
        ..ProfileSnapshot::default()
    };
    assert_eq!(profiler.snapshot(), expected);
}

#[test]
fn test_residency_tracking() {
    let mut stats = ResidencyStats::new(1000);
    stats.on_layer_load(100, 500);
    assert_eq!(stats.current_resident_layer_bytes, 100);
    assert_eq!(stats.peak_resident_layer_bytes, 100);
    assert_eq!(stats.num_layer_loads, 1);
    stats.on_layer_load(200, 600);
    assert_eq!(stats.peak_resident_layer_bytes, 200);
    assert_eq!(stats.num_layer_loads, 2);
    stats.on_layer_release(400);
    assert_eq!(stats.current_resident_layer_bytes, 0);
    assert_eq!(stats.num_layer_releases, 1);
    assert_eq!(stats.peak_managed_bytes, 600);
}

#[test]
fn test_persistent_policy_uses_resident_bytes_and_is_overflow_safe() {
    assert!(should_keep_resident(250, 1000));
    assert!(!should_keep_resident(251, 1000));
    assert!(!should_keep_resident(u64::MAX, u64::MAX));
}

fn descriptor(name: &str, ggml_type: GgmlType, dimensions: &[u64]) -> TensorDescriptor {
    TensorDescriptor {
        name: name.to_string(),
        dimensions: dimensions.to_vec(),
        ggml_type,
        offset: 0,
        file_offset: 0,
        byte_length: None,
        num_elements: dimensions.iter().product(),
    }
}

/// One row of eight numbers per token: token two begins at number sixteen.
#[test]
fn test_persistent_streaming_embedding() {
    let desc = descriptor("token_embd.weight", GgmlType::F32, &[8, 4]);
    let streamed: PersistentWeight<()> = PersistentWeight::Streamed(desc);
    assert!(streamed.is_streamed());
    assert_eq!(streamed.resident_bytes(), 0);
    assert_eq!(
        streamed.get_embedding(2, 8).unwrap(),
        EmbeddingRead::Direct { element_offset: 16, element_count: 8, temp_bytes: 32 }
    );
}

/// Rows are sixteen bytes; the budget share of 56 bytes makes chunks of three.
#[test]
fn test_persistent_streamed_output_chunked() {
    let desc = descriptor("output.weight", GgmlType::F32, &[4, 6]);
    let mut budget = MemoryBudget::new(1024).unwrap();
    budget.allocate("pinned", 800).unwrap();
    let pass = plan_streamed_matvec(&desc, 4, 6, &budget).unwrap();
    assert!(pass.direct);
    assert_eq!(pass.row_bytes, 16);
    assert_eq!(pass.rows_per_chunk, 3);
    assert_eq!(pass.temp_bytes, 48);
    let mut row_start = 0;
    let mut reads = Vec::new();
    while row_start < pass.out_dim {
        let chunk = pass.next_chunk(row_start).unwrap();
        reads.push((chunk.offset, chunk.length));
        row_start += chunk.rows;
    }
    assert_eq!(reads, vec![(0, 12), (12, 12)]);
    assert_eq!(budget.used_bytes(), 800);
}

/// One direct F32 row is 1024 bytes; the budget is far below that.
#[test]
fn test_persistent_streamed_output_budget_too_small() {
    let desc = descriptor("output.weight", GgmlType::F32, &[256, 4]);
    let budget = MemoryBudget::new(256).unwrap();
    let err = plan_streamed_matvec(&desc, 256, 4, &budget).unwrap_err();
    assert!(err.contains("budget too small") || err.contains("insufficient"), "got: {}", err);
    assert_eq!(
        err,
        "RAM budget too small to stream tensor 'output.weight': need 1024 bytes of temporary working set (direct F32 chunk), available 256"
    );
}

#[test]
fn streamed_rows_follow_their_format() {
    for (ggml_type, expected) in [
        (GgmlType::F32, 2048),
        (GgmlType::F16, 1024),
        (GgmlType::BF16, 1024),
        (GgmlType::Q4_0, 288),
        (GgmlType::Q8_0, 544),
        (GgmlType::Q4_K, 288),
        (GgmlType::Q5_K, 352),
        (GgmlType::Q6_K, 420),
        (GgmlType::Q2_K, 168),
        (GgmlType::Q3_K, 220),
        (GgmlType::Q8_K, 584),
    ] {
        assert_eq!(row_bytes_for(&descriptor("w", ggml_type, &[512]), 512).unwrap(), expected);
    }
    assert_eq!(
        row_bytes_for(&descriptor("w", GgmlType::Q5_1, &[512]), 512).unwrap_err(),
        "unsupported persistent weight type for streaming: Q5_1"
    );
}

#[test]
fn quantized_streaming_owns_a_raw_chunk_and_a_decoded_row() {
    let desc = descriptor("output.weight", GgmlType::Q8_0, &[64, 100]);
    let budget = MemoryBudget::new(1000).unwrap();
    let pass = plan_streamed_matvec(&desc, 64, 100, &budget).unwrap();
    assert!(!pass.direct);
    assert_eq!(pass.row_bytes, 68);
    assert_eq!(pass.rows_per_chunk, 3);
    assert_eq!(pass.temp_bytes, 3 * 68 + 256);
    let last = pass.next_chunk(99).unwrap();
    assert_eq!((last.rows, last.offset, last.length), (1, 99 * 68, 68));

    let streamed: PersistentWeight<()> = PersistentWeight::Streamed(desc);
    assert_eq!(
        streamed.get_embedding(3, 64).unwrap(),
        EmbeddingRead::Decoded { byte_offset: 204, row_bytes: 68, temp_bytes: 324 }
    );
    assert_eq!(
        streamed.get_embedding(usize::MAX, 64).unwrap_err(),
        "embedding row element offset overflow"
    );
}

#[test]
fn streamed_matvec_rejects_foreign_shapes() {
    let budget = MemoryBudget::new(1000).unwrap();
    assert_eq!(
        plan_streamed_matvec(&descriptor("w", GgmlType::F32, &[2, 3, 4]), 2, 3, &budget)
            .unwrap_err(),
        "streamed matvec expects a 2D tensor, 'w' has shape [2, 3, 4]"
    );
    assert_eq!(
        plan_streamed_matvec(&descriptor("w", GgmlType::F32, &[2, 3]), 3, 2, &budget).unwrap_err(),
        "streamed matvec arity mismatch (ggml layout [in, out]): 'w' [2, 3] implies in=2, out=3, but got x.len()=3, y.len()=2"
    );
}

#[test]
fn resident_weights_answer_from_memory() {
    let weight = PersistentWeight::Resident(ResidentTensor { data: "w", resident_bytes: 96 });
    assert!(weight.is_resident());
    assert!(!weight.is_streamed());
    assert_eq!(weight.resident_bytes(), 96);
    assert_eq!(weight.get_embedding(5, 8).unwrap(), EmbeddingRead::Memory { temp_bytes: 32 });
}

#[test]
fn a_released_temporary_leaves_the_budget_as_it_was() {
    let mut budget = MemoryBudget::new(100).unwrap();
    budget.allocate("weight:a", 40).unwrap();
    budget.allocate("tmp:x", 60).unwrap();
    assert_eq!(
        budget.allocate("tmp:y", 1).unwrap_err(),
        MemoryError::InsufficientMemory { requested: 1, available: 0 }
    );
    budget.release("tmp:x").unwrap();
    assert_eq!(budget.used_bytes(), 40);
    assert_eq!(budget.peak_used_bytes(), 100);
    assert_eq!(
        budget.release("tmp:x").unwrap_err().message(),
        "allocation 'tmp:x' does not exist"
    );
    assert_eq!(
        budget.allocate("weight:a", 1).unwrap_err().message(),
        "allocation 'weight:a' already exists"
    );
    assert_eq!(MemoryBudget::new(0).unwrap_err(), MemoryError::ZeroBudget);
}

#[test]
fn charges_can_change_their_prefix() {
    let mut budget = MemoryBudget::new(100).unwrap();
    budget.allocate("layer:1:q", 10).unwrap();
    budget.allocate("other", 5).unwrap();
    budget.allocate("layer:1:k", 20).unwrap();
    assert_eq!(budget.bytes_with_prefix("layer:1:"), 30);
    let names = budget.rename_prefix("layer:1:", "cache:layer:1:").unwrap();
    assert_eq!(names, vec!["cache:layer:1:q", "cache:layer:1:k"]);
    assert_eq!(budget.get("cache:layer:1:k"), Some(20));
    assert_eq!(budget.used_bytes(), 35);
    budget.release_prefix("cache:");
    assert_eq!(budget.used_bytes(), 5);
}

#[test]
fn a_rename_names_the_first_clash() {
    let mut budget = MemoryBudget::new(100).unwrap();
    budget.allocate("cache:layer:1:k", 1).unwrap();
    budget.allocate("cache:layer:1:v", 1).unwrap();
    budget.allocate("layer:1:q", 1).unwrap();
    budget.allocate("layer:1:v", 1).unwrap();
    budget.allocate("layer:1:k", 1).unwrap();
    assert_eq!(
        budget.rename_prefix("layer:1:", "cache:layer:1:").unwrap_err(),
        MemoryError::DuplicateAllocation { name: "cache:layer:1:v".to_string() }
    );
    assert_eq!(budget.used_bytes(), 5);
    assert_eq!(budget.get("layer:1:q"), Some(1));
    let mut cache: LayerCache<()> = LayerCache::new(50);
    assert_eq!(
        cache.insert_loaded(1, (), 3, &mut budget).unwrap_err(),
        "failed to convert layer 1 charges to cache residency: \
         allocation 'cache:layer:1:v' already exists"
    );
    assert_eq!(budget.used_bytes(), 2);
}

#[test]
fn eighty_percent_rounds_like_doubles() {
    let mut value: u64 = 1;
    for step in 0..4000u64 {
        for near in [value, value - 1, value + step % 7, u64::MAX - value] {
            assert_eq!(eighty_percent_of(near), (near as f64 * 0.8) as u64, "at {}", near);
        }
        value = value.wrapping_mul(6364136223846793005).wrapping_add(1442695040888963407)
            >> (step % 64);
        value = value.clamp(1, u64::MAX - 7);
    }
    assert_eq!(eighty_percent_of(0), 0);
    assert_eq!(eighty_percent_of(u64::MAX), 14757395258967642112);
    assert_eq!(eighty_percent_of(2085250623837076), 1668200499069661);
}

#[test]
fn runtime_cache_keeps_a_margin_in_the_budget() {
    let mebibyte = 1024 * 1024;
    assert_eq!(bounded_cache_capacity(10 * mebibyte), 8 * mebibyte);
    assert_eq!(bounded_cache_capacity(3 * mebibyte), 2 * mebibyte);
    assert_eq!(bounded_cache_capacity(mebibyte + 7), 7);
    assert_eq!(bounded_cache_capacity(1), 0);
    assert_eq!(bounded_cache_capacity(2085250623837076), 1668200499069661);
    assert_eq!(settle_cache_insert(Ok(false)), Ok(()));
    assert_eq!(settle_cache_insert(Err(InsertFailure::TooLarge)), Ok(()));
    assert_eq!(
        settle_cache_insert(Err(InsertFailure::Failed { message: "full".to_string() })),
        Err("cache insert failed: full".to_string())
    );
}
