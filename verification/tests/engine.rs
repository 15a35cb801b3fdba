use ramforge_runtime::budget::MemoryBudget;
use ramforge_runtime::gguf::{GgmlType, TensorDescriptor};
use ramforge_runtime::inference::{
    generation_buffers, GenerationOutcome, GenerationStep, InferenceEngine, IoProfile, StopReason,
    TensorReadProfile,
};
use ramforge_runtime::kv_cache::KvCache;
use ramforge_runtime::layer_cache::InsertOutcome;
use ramforge_runtime::layer_read::build_layer_read_plan;
use ramforge_runtime::model::LlamaConfig;
use ramforge_runtime::persistent::should_keep_resident;
use ramforge_runtime::residency::ResidencyStats;
use ramforge_runtime::runtime_config::RuntimeConfig;
use ramforge_runtime::sampling::Sampler;

/// The bytes of the one layer: 2 norms, 4 attention and 3 feed-forward matrices.
const LAYER_BYTES: u64 = 2624;
const WEIGHT_BYTES: u64 = 512 + 32 + LAYER_BYTES;
const KV_WIDTH: usize = 8;
/// The tokens of the prompt "hello", behind the token that starts a text.
const HELLO: [u32; 2] = [1, 5];

fn config() -> LlamaConfig {
    LlamaConfig {
        vocab_size: 16,
        context_length: 32,
        embedding_length: 8,
        block_count: 1,
        feed_forward_length: 16,
        head_count: 2,
        head_count_kv: 2,
        head_dim: 4,
        rms_eps_bits: 1e-5f32.to_bits(),
        rope_freq_base_bits: 10000.0f32.to_bits(),
    }
}

fn layer_tensors() -> Vec<TensorDescriptor> {
    let names_and_dimensions = [
        ("blk.0.attn_norm.weight", vec![8]),
        ("blk.0.attn_q.weight", vec![8, 8]),
        ("blk.0.attn_k.weight", vec![8, 8]),
        ("blk.0.attn_v.weight", vec![8, 8]),
        ("blk.0.attn_output.weight", vec![8, 8]),
        ("blk.0.ffn_norm.weight", vec![8]),
        ("blk.0.ffn_gate.weight", vec![8, 16]),
        ("blk.0.ffn_up.weight", vec![8, 16]),
        ("blk.0.ffn_down.weight", vec![16, 8]),
    ];
    let mut offset = 512 + 32;
    let mut tensors = Vec::new();
    for (name, dimensions) in names_and_dimensions {
        let num_elements: u64 = dimensions.iter().product();
        tensors.push(TensorDescriptor {
            name: name.to_string(),
            dimensions,
            ggml_type: GgmlType::F32,
            offset,
            file_offset: offset,
            byte_length: Some(num_elements * 4),
            num_elements,
        });
        offset += num_elements * 4;
    }
    tensors
}

/// A budget that holds the persistent weights that are kept.
fn loaded_budget(ram_budget_bytes: u64) -> MemoryBudget {
    let mut budget = MemoryBudget::new(ram_budget_bytes).unwrap();
    for (name, bytes) in [("weight:token_embd.weight", 512), ("weight:output_norm.weight", 32)] {
        if should_keep_resident(bytes, ram_budget_bytes) {
            budget.allocate(name, bytes).unwrap();
        }
    }
    budget
}

fn engine_with(
    ram_budget_bytes: u64,
    capacity: u64,
    requested: Option<RuntimeConfig>,
) -> InferenceEngine<u32> {
    let budget = loaded_budget(ram_budget_bytes);
    InferenceEngine::assemble(config(), budget, capacity, WEIGHT_BYTES, requested, 4).unwrap()
}

fn engine(ram_budget_bytes: u64) -> InferenceEngine<u32> {
    engine_with(ram_budget_bytes, ram_budget_bytes / 2, None)
}

/// Where a run stands in for the model: the next token follows from the last.
fn logits_after(token: u32) -> Vec<u32> {
    let chosen = 3 + (token * 5 + 1) % 13;
    (0..16).map(|id| if id == chosen { 1.0f32 } else { 0.0 }.to_bits()).collect()
}

/// One token through the layer: weights from the cache or loaded, K and V kept.
fn forward(
    engine: &mut InferenceEngine<u32>,
    token: u32,
    position: usize,
    stats: &mut ResidencyStats,
) -> Result<(), String> {
    engine.make_room(256)?;
    engine.open_temp("tmp:forward", 256)?;
    let result = run_layer(engine, token, position, stats);
    engine.close_temp("tmp:forward");
    result
}

fn run_layer(
    engine: &mut InferenceEngine<u32>,
    token: u32,
    position: usize,
    stats: &mut ResidencyStats,
) -> Result<(), String> {
    if engine.layer_cache.with_entry(0, |_: &u32| ()).is_some() {
        engine.profiler.record_cache_hit();
    } else {
        engine.make_room(LAYER_BYTES)?;
        engine
            .budget
            .allocate("layer:0:weights", LAYER_BYTES)
            .map_err(|error| error.message())?;
        engine.profiler.record_layer_load();
        stats.on_layer_load(LAYER_BYTES, engine.budget.used_bytes());
        let outcome =
            engine.layer_cache.insert_loaded(0, 0, LAYER_BYTES, &mut engine.budget)?;
        if let InsertOutcome::Skipped { .. } = outcome {
            engine.budget.release("layer:0:weights").map_err(|error| error.message())?;
            engine.profiler.record_layer_release();
            stats.on_layer_release(engine.budget.used_bytes());
        }
    }
    let cache = engine.kv_cache.as_mut().unwrap();
    assert_eq!(cache.seq_len(), position);
    cache.append(0, &[token; KV_WIDTH], &[token; KV_WIDTH])?;
    cache.increment_seq_len();
    Ok(())
}

fn steps(
    engine: &mut InferenceEngine<u32>,
    prompt: &[u32],
    max_tokens: usize,
    eos_token_id: Option<u32>,
    on_text: &mut impl FnMut(&str) -> Result<(), String>,
) -> Result<(GenerationOutcome, ResidencyStats), String> {
    let sampler = Sampler::greedy();
    let mut run = engine.start_run(prompt.len(), max_tokens, eos_token_id, &sampler)?;
    let buffers = generation_buffers(&engine.config, &sampler);
    engine.open_temp("tmp:hidden", buffers.hidden_bytes)?;
    engine.open_temp("tmp:logits", buffers.logits_bytes)?;
    let mut last = 0;
    let mut text = String::new();
    loop {
        match run.next_step() {
            GenerationStep::Prompt { position } => {
                last = prompt[position];
                let mut stats = run.residency_stats;
                forward(engine, last, position, &mut stats)?;
                run.residency_stats = stats;
                run.prompt_forwarded(&mut engine.profiler);
            }
            GenerationStep::Sample => {
                let token = sampler.sample_without_chance(&logits_after(last)).unwrap();
                run.select(token, &mut engine.profiler);
                let piece = char::from(b'a' + token as u8).to_string();
                on_text(&piece)?;
                text.push_str(&piece);
            }
            GenerationStep::Forward { token, position } => {
                last = token;
                engine.ensure_kv_room(position, prompt.len() + max_tokens)?;
                let mut stats = run.residency_stats;
                forward(engine, token, position, &mut stats)?;
                run.residency_stats = stats;
                run.forwarded(&mut engine.profiler);
            }
            GenerationStep::Stop { .. } => break,
        }
    }
    Ok((run.outcome(text), run.residency_stats))
}

fn generate_with_callback(
    engine: &mut InferenceEngine<u32>,
    prompt: &[u32],
    max_tokens: usize,
    eos_token_id: Option<u32>,
    mut on_text: impl FnMut(&str) -> Result<(), String>,
) -> Result<GenerationOutcome, String> {
    engine.reset()?;
    let result = steps(engine, prompt, max_tokens, eos_token_id, &mut on_text);
    engine.close_temp("tmp:logits");
    engine.close_temp("tmp:hidden");
    engine.conclude(result)
}

fn outcome_of(engine: &mut InferenceEngine<u32>, max_tokens: usize) -> GenerationOutcome {
    generate_with_callback(engine, &HELLO, max_tokens, Some(2), |_| Ok(())).unwrap()
}

fn generate(
    engine: &mut InferenceEngine<u32>,
    max_tokens: usize,
) -> Result<(Vec<u32>, String), String> {
    generate_with_callback(engine, &HELLO, max_tokens, Some(2), |_| Ok(()))
        .map(|outcome| (outcome.generated_token_ids, outcome.generated_text))
}

fn no_io() -> IoProfile {
    IoProfile {
        bytes_read: 0,
        read_operations: 0,
        read_failures: 0,
        logical_tensor_reads: 0,
        coalesced_ranges: 0,
    }
}

#[test]
fn test_default_runtime_config_preserves_legacy_execution_behavior() {
    let mut legacy = engine(8 * 1024 * 1024);
    let default_config = legacy.runtime_config().clone();

    assert_eq!(default_config.cpu_thread_count, 4);
    assert_eq!(
        default_config.layer_cache_capacity_bytes,
        legacy.layer_cache.capacity_bytes()
    );
    assert!(default_config.read_coalescing_enabled);
    assert!(default_config.grouped_read_buffer_reuse_enabled);

    let capacity = default_config.layer_cache_capacity_bytes;
    let mut explicit = engine_with(8 * 1024 * 1024, capacity, Some(default_config));
    assert_eq!(explicit.layer_cache.capacity_bytes(), legacy.layer_cache.capacity_bytes());
    assert_eq!(generate(&mut legacy, 3).unwrap(), generate(&mut explicit, 3).unwrap());
}

#[test]
fn test_explicit_runtime_config_reaches_execution_components() {
    let config = RuntimeConfig::new(1, 8 * 1024 * 1024, false, 0, false, false).unwrap();
    let mut engine = engine_with(8 * 1024 * 1024, 0, Some(config.clone()));

    assert_eq!(engine.runtime_config(), &config);
    assert_eq!(engine.runtime_config().cpu_thread_count, 1);
    assert_eq!(engine.budget.total_bytes(), config.ram_budget_bytes);
    assert_eq!(engine.layer_cache.capacity_bytes(), 0);
    assert!(!engine.runtime_config().read_coalescing_enabled);
    assert!(!engine.runtime_config().grouped_read_buffer_reuse_enabled);

    engine.set_profiling(true);
    generate(&mut engine, 1).unwrap();
    let profile = engine.generation_profile(no_io(), &Vec::new());
    assert_eq!(profile.io.coalesced_ranges, 0);
    assert_eq!(profile.ramforge_budget_bytes, config.ram_budget_bytes);
    assert!(profile.ramforge_peak_bytes <= profile.ramforge_budget_bytes);
}

#[test]
fn test_streaming_output_profile_and_memory_report() {
    let mut engine = engine(8 * 1024 * 1024);
    engine.set_profiling(true);
    let mut streamed = String::new();
    let outcome = generate_with_callback(&mut engine, &HELLO, 3, Some(2), |piece| {
        streamed.push_str(piece);
        Ok(())
    })
    .unwrap();
    assert_eq!(outcome.generated_token_ids.len(), 3);
    assert_eq!(streamed, outcome.generated_text);

    let io = IoProfile { bytes_read: LAYER_BYTES, read_operations: 1, ..no_io() };
    let profile = engine.generation_profile(io, &Vec::new());
    assert_eq!(profile.runtime.tokens, 3);
    assert_eq!(profile.runtime.decode_forwards, 2);
    assert_eq!(profile.runtime.terminal_forwards_skipped, 1);
    assert!(profile.runtime.layer_loads > 0);
    assert!(profile.runtime.cache_hits > 0);
    assert!(profile.runtime.layer_loads < profile.runtime.prompt_forwards + 2);
    assert!(profile.io.read_operations > 0);
    assert!(profile.io.bytes_read > 0);
    assert!(profile.ramforge_peak_bytes <= profile.ramforge_budget_bytes);

    let memory = engine.memory_report(None, None);
    assert_eq!(memory.ramforge_budget_bytes, 8 * 1024 * 1024);
    assert!(memory.ramforge_peak_bytes >= memory.ramforge_current_bytes);
}

#[test]
fn test_single_token_skips_terminal_forward_and_redundant_layer_reads() {
    let mut engine = engine(8 * 1024 * 1024);
    let prompt_forwards = HELLO.len() as u64;
    let layer_count = engine.config().block_count as u64;
    engine.set_profiling(true);

    let (tokens, _) = generate(&mut engine, 1).unwrap();
    assert_eq!(tokens.len(), 1);

    // The layer was loaded once, by the plan for its nine tensors.
    let tensors = layer_tensors();
    let plan = build_layer_read_plan(&tensors).unwrap();
    let reads: Vec<TensorReadProfile> = tensors
        .iter()
        .map(|tensor| TensorReadProfile {
            name: tensor.name.clone(),
            bytes_read: tensor.byte_length.unwrap(),
            read_operations: 1,
            read_failures: 0,
        })
        .collect();
    let io = IoProfile {
        bytes_read: LAYER_BYTES,
        read_operations: plan.ranges.len() as u64,
        read_failures: 0,
        logical_tensor_reads: tensors.len() as u64,
        coalesced_ranges: 1,
    };
    let profile = engine.generation_profile(io, &reads);
    assert_eq!(profile.runtime.prompt_forwards, prompt_forwards);
    assert_eq!(profile.runtime.decode_forwards, 0);
    assert_eq!(profile.runtime.terminal_forwards_skipped, 1);
    assert_eq!(profile.runtime.layer_loads, layer_count);
    assert_eq!(profile.runtime.cache_misses, layer_count);
    assert_eq!(profile.runtime.cache_hits, (prompt_forwards - 1) * layer_count);
    assert_eq!(profile.io.logical_tensor_reads, layer_count * 9);
    assert_eq!(profile.io.read_operations, layer_count);
    assert!(profile.io.read_operations < profile.io.logical_tensor_reads);
    assert_eq!(profile.tensor_reads.len(), 9);
    for tensor in profile.tensor_reads.iter().filter(|tensor| tensor.name.starts_with("blk.0.")) {
        assert_eq!(tensor.read_operations, 1);
    }
}

#[test]
fn test_budget_too_small_failure() {
    // A zero budget is rejected.
    assert!(MemoryBudget::new(0).is_err());

    // A near-zero budget holds no persistent weight, and a run fails at the
    // first charge.
    let mut engine = engine(64);
    let err = generate(&mut engine, 2).unwrap_err();
    assert!(
        err.contains("budget") || err.contains("Budget"),
        "expected budget-related error, got: {}",
        err
    );
    assert!(engine.budget.used_bytes() <= engine.budget.total_bytes());
    assert!(engine.budget.get("kv_cache").is_none());
    assert!(engine.kv_cache.is_none());
}

#[test]
fn test_generate_twice_same_engine() {
    let mut engine = engine(8 * 1024 * 1024);

    let (tokens1, text1) = generate(&mut engine, 5).unwrap();
    assert_eq!(tokens1.len(), 5);
    // After a successful run the KV charge exists and matches the cache.
    let kv_charge_after_first = engine.budget.get("kv_cache").unwrap();
    assert_eq!(
        kv_charge_after_first as usize,
        engine.kv_cache.as_ref().unwrap().total_bytes()
    );

    let (tokens2, text2) = generate(&mut engine, 3).unwrap();
    assert_eq!(tokens2.len(), 3);
    assert_eq!(&tokens1[..3], &tokens2[..]);
    assert!(text1.starts_with(&text2) || text2.starts_with(&text1));

    // Exactly one KV charge, no temp leftovers.
    assert_eq!(engine.budget.bytes_with_prefix("tmp:"), 0);
    let kv_charge_after_second = engine.budget.get("kv_cache").unwrap();
    assert_eq!(engine.budget.bytes_with_prefix("kv_cache"), kv_charge_after_second);
    assert_eq!(
        kv_charge_after_second as usize,
        engine.kv_cache.as_ref().unwrap().total_bytes()
    );
}

#[test]
fn test_failed_generate_releases_kv_charge() {
    // The norm takes 32 bytes, the KV cache 128, logits and hidden state 96.
    // These fit; the layer's working set does not.
    let mut engine = engine(900);
    let used_before = engine.budget.used_bytes();
    assert_eq!(used_before, 32);

    let err = generate(&mut engine, 5).unwrap_err();
    assert!(
        err.contains("budget") || err.contains("Budget") || err.contains("insufficient"),
        "expected a budget-related error, got: {}",
        err
    );

    assert!(engine.kv_cache.is_none());
    assert!(engine.budget.get("kv_cache").is_none());
    assert_eq!(engine.budget.used_bytes(), used_before);
    assert!(engine.budget.used_bytes() <= engine.budget.total_bytes());
}

#[test]
fn test_engine_reusable_after_failed_generate() {
    // A failure inside a run: a second attempt fails alike, not on a stale charge.
    let mut tight = engine(900);
    let err1 = generate(&mut tight, 5).unwrap_err();
    let err2 = generate(&mut tight, 5).unwrap_err();
    assert!(!err1.contains("already exists"), "err1: {}", err1);
    assert!(!err2.contains("already exists"), "err2: {}", err2);
    assert!(
        (err1.contains("budget") || err1.contains("insufficient"))
            && (err2.contains("budget") || err2.contains("insufficient")),
        "err1 = {} ; err2 = {}",
        err1,
        err2
    );

    // A failure before any charge leaves the engine usable.
    let mut healthy = engine(8 * 1024 * 1024);
    let err_ctx = generate(&mut healthy, 100).unwrap_err();
    assert!(err_ctx.contains("context length"), "got: {}", err_ctx);
    assert!(healthy.budget.get("kv_cache").is_none());
    let (tokens, _text) = generate(&mut healthy, 3).unwrap();
    assert_eq!(tokens.len(), 3);
}

#[test]
fn test_clear_kv_cache_releases_charge() {
    let mut engine = engine(8 * 1024 * 1024);

    let (tokens, _) = generate(&mut engine, 3).unwrap();
    assert_eq!(tokens.len(), 3);
    let used_with_kv = engine.budget.used_bytes();
    let kv_bytes = engine.budget.get("kv_cache").unwrap();

    engine.clear_kv_cache();
    assert!(engine.kv_cache.is_none());
    assert!(engine.budget.get("kv_cache").is_none());
    assert_eq!(engine.budget.used_bytes(), used_with_kv - kv_bytes);

    // Clearing again changes nothing.
    engine.clear_kv_cache();
    assert_eq!(engine.budget.used_bytes(), used_with_kv - kv_bytes);

    let (tokens2, _) = generate(&mut engine, 2).unwrap();
    assert_eq!(tokens2.len(), 2);
}

#[test]
fn outcome_reports_max_tokens_stop_and_state_reset() {
    let mut engine = engine(8 * 1024 * 1024);
    let outcome = outcome_of(&mut engine, 3);
    assert_eq!(outcome.configured_max_tokens, 3);
    assert_eq!(outcome.generated_token_ids.len(), 3);
    assert_eq!(outcome.stop_reason, StopReason::MaxTokens);
    assert_eq!(outcome.eos_token_id, Some(2));
    assert!(!outcome.eos_encountered);
    assert!(outcome.kv_cache_reset);
    assert!(outcome.token_history_reset);
    assert!(outcome.sampler_is_stateless);
    assert_eq!(outcome.prompt_tokens, HELLO.len());
    assert_eq!(outcome.context_length, engine.config().context_length);
    assert_eq!(outcome.token_ids_sample.len(), 3);
    assert!(!outcome.token_ids_sample.contains(&2));
}

#[test]
fn greedy_runs_are_deterministic_not_an_error() {
    let mut engine = engine(8 * 1024 * 1024);
    let a = outcome_of(&mut engine, 4);
    let b = outcome_of(&mut engine, 4);
    assert_eq!(a.generated_token_ids, b.generated_token_ids);
    assert_eq!(a.generated_text, b.generated_text);
    assert_eq!(a.stop_reason, StopReason::MaxTokens);
    assert_eq!(b.stop_reason, StopReason::MaxTokens);
    assert!(a.kv_cache_reset && b.kv_cache_reset);
    assert!(a.token_history_reset && b.token_history_reset);
}

#[test]
fn outcome_marks_missing_eos_metadata_via_none() {
    let mut engine = engine(8 * 1024 * 1024);
    let outcome = generate_with_callback(&mut engine, &HELLO, 3, None, |_| Ok(())).unwrap();
    assert_eq!(outcome.eos_token_id, None);
    assert!(!outcome.eos_encountered);
    assert_eq!(outcome.stop_reason, StopReason::MaxTokens);
}

#[test]
fn second_generation_on_same_engine_reports_clean_reset() {
    let mut engine = engine(8 * 1024 * 1024);
    let a = outcome_of(&mut engine, 2);
    let b = outcome_of(&mut engine, 2);
    assert!(a.kv_cache_reset && b.kv_cache_reset);
    assert!(a.token_history_reset && b.token_history_reset);
    assert_eq!(a.generated_token_ids, b.generated_token_ids);
    // No duplicate KV charges after two runs.
    assert_eq!(
        engine.budget.bytes_with_prefix("kv_cache"),
        engine.budget.get("kv_cache").unwrap()
    );
}

#[test]
fn kv_cache_invariants_across_prompt_and_first_decodes() {
    let prompt = [1, 8, 9];
    let n = prompt.len();
    let mut kv = KvCache::new(1, 2, 4, n + 8).unwrap();
    let mut last = 0;
    for (pos, &token) in prompt.iter().enumerate() {
        assert_eq!(kv.seq_len(), pos);
        kv.append(0, &[token; KV_WIDTH], &[token; KV_WIDTH]).unwrap();
        kv.increment_seq_len();
        assert_eq!(kv.seq_len(), pos + 1);
        assert_eq!(kv.get_k(0).len(), (pos + 1) * KV_WIDTH);
        assert_eq!(kv.get_v(0).len(), (pos + 1) * KV_WIDTH);
        last = token;
    }
    for step in 0..3 {
        let pos = n + step;
        assert_eq!(kv.seq_len(), pos);
        let next = Sampler::greedy().sample_without_chance(&logits_after(last)).unwrap();
        kv.append(0, &[next; KV_WIDTH], &[next; KV_WIDTH]).unwrap();
        kv.increment_seq_len();
        assert_eq!(kv.seq_len(), pos + 1);
        assert_eq!(kv.get_k(0).len(), (pos + 1) * KV_WIDTH);
        assert_eq!(kv.get_v(0).len(), (pos + 1) * KV_WIDTH);
        assert_eq!(kv.get_k(0)[pos * KV_WIDTH], next);
        last = next;
    }
}

/// A freshly sampled token is what the next forward takes in.
#[test]
fn decode_consumes_the_sampled_token() {
    let mut engine = engine(8 * 1024 * 1024);
    let outcome = outcome_of(&mut engine, 3);
    let kept = engine.kv_cache.as_ref().unwrap();
    let fed: Vec<u32> = (0..kept.seq_len()).map(|at| kept.get_k(0)[at * KV_WIDTH]).collect();
    let mut expected = HELLO.to_vec();
    expected.extend_from_slice(&outcome.generated_token_ids[..2]);
    assert_eq!(fed, expected);
}
