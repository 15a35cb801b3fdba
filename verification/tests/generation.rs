use ramforge_runtime::backend::{CpuBackend, MatvecError, MatvecLayout};
use ramforge_runtime::budget::MemoryBudget;
use ramforge_runtime::compute_dispatch::{
    choose_kernel, make_row_chunks, record_kernel_work, MatvecKernel,
};
use ramforge_runtime::gguf::GgmlType;
use ramforge_runtime::inference::{
    generation_buffers, GenerationStep, InferenceEngine, IoProfile, StopReason, TensorReadProfile,
    TOKEN_ID_SAMPLE_LIMIT,
};
use ramforge_runtime::model::LlamaConfig;
use ramforge_runtime::model_executor::{ActivationLengths, ModelExecutor, StreamingLayerWeights};
use ramforge_runtime::persistent::ResidentTensor;
use ramforge_runtime::profile::Profiler;
use ramforge_runtime::runtime_config::RuntimeConfig;
use ramforge_runtime::sampling::{Sampler, NEG_INFINITY_BITS};

fn bits(values: &[f32]) -> Vec<u32> {
    values.iter().map(|value| value.to_bits()).collect()
}

#[test]
fn test_greedy() {
    let sampler = Sampler::greedy();
    let logits = bits(&[0.1, 0.5, 0.2]);
    assert_eq!(sampler.sample_without_chance(&logits), Some(1));
}

#[test]
fn test_temperature_zero_greedy() {
    let sampler = Sampler::new(0.0f32.to_bits(), None, None);
    let logits = bits(&[1.0, 5.0, 2.0]);
    assert_eq!(sampler.sample_without_chance(&logits), Some(1));
}

#[test]
fn test_top_k() {
    let sampler = Sampler::new(1.0f32.to_bits(), Some(1), None);
    let logits = bits(&[1.0, 5.0, 2.0]);
    assert_eq!(sampler.sample_without_chance(&logits), None);
    assert_eq!(
        sampler.apply_top_k(&logits),
        vec![NEG_INFINITY_BITS, 5.0f32.to_bits(), NEG_INFINITY_BITS]
    );
}

#[test]
fn greedy_sampling_compares_like_floating_point() {
    let sampler = Sampler::new((-1.0f32).to_bits(), None, None);
    assert_eq!(sampler.sample_without_chance(&vec![]), Some(0));
    assert_eq!(sampler.sample_without_chance(&bits(&[-3.0, -1.0, -2.0])), Some(1));
    // Zeros of both signs are equal, and the first of equals wins.
    assert_eq!(sampler.sample_without_chance(&bits(&[-0.0, 0.0])), Some(0));
    // Nothing is larger than what is not a number.
    assert_eq!(sampler.sample_without_chance(&bits(&[f32::NAN, 9.0])), Some(0));
    assert_eq!(sampler.sample_without_chance(&bits(&[1.0, f32::NAN, 2.0])), Some(2));
    assert_eq!(
        sampler.sample_without_chance(&bits(&[f32::NEG_INFINITY, f32::MIN, f32::INFINITY])),
        Some(2)
    );
}

#[test]
fn top_k_keeps_the_earliest_of_equals() {
    let sampler = Sampler::new(1.0f32.to_bits(), Some(2), None);
    let kept = sampler.apply_top_k(&bits(&[1.0, 3.0, 3.0, 3.0]));
    assert_eq!(
        kept,
        vec![NEG_INFINITY_BITS, 3.0f32.to_bits(), 3.0f32.to_bits(), NEG_INFINITY_BITS]
    );
    let all = bits(&[1.0, 2.0]);
    assert_eq!(sampler.apply_top_k(&all), all);
    assert!(!sampler.is_stateless());
    assert!(Sampler::greedy().is_stateless());
}

#[test]
fn test_matvec() {
    let backend = CpuBackend::new();
    // W = [[1,2],[3,4]] row-major [2,2], x=[1,1] => y=[3,7]
    let w = vec![1.0, 2.0, 3.0, 4.0];
    let x = vec![1.0, 1.0];
    let shape = vec![2, 2];
    let layout = backend.matvec_layout(w.len(), &shape, x.len(), 2).unwrap();
    let mut y = vec![0.0; 2];
    for output in 0..2 {
        let start = layout.row_start(output);
        for input in 0..2 {
            y[output] += w[start + input] * x[input];
        }
    }
    assert_eq!(y, vec![3.0, 7.0]);
}

#[test]
fn non_square_weights_lie_in_rows_of_inputs() {
    let backend = CpuBackend::new();
    // Three inputs and two outputs: W = [[1,2,3],[4,5,6]].
    let w = vec![1.0, 2.0, 3.0, 4.0, 5.0, 6.0];
    let x = vec![1.0, 10.0, 100.0];
    let layout = backend.matvec_layout(w.len(), &vec![3, 2], x.len(), 2).unwrap();
    assert_eq!(layout, MatvecLayout { in_dim: 3, out_dim: 2 });
    assert_eq!(layout.row_start(0), 0);
    assert_eq!(layout.row_start(1), 3);
    let mut y = vec![0.0; 2];
    for output in 0..2 {
        for input in 0..3 {
            y[output] += w[layout.row_start(output) + input] * x[input];
        }
    }
    assert_eq!(y, vec![321.0, 654.0]);
}

#[test]
fn products_that_do_not_fit_are_refused() {
    let backend = CpuBackend::new();
    let shape = vec![3, 2];
    assert_eq!(backend.matvec_layout(6, &shape, 2, 3), Err(MatvecError::ArityMismatch));
    assert_eq!(backend.matvec_layout(6, &shape, 3, 3), Err(MatvecError::ArityMismatch));
    assert_eq!(backend.matvec_layout(6, &shape, 4, 2), Err(MatvecError::ArityMismatch));
    assert_eq!(backend.matvec_layout(5, &shape, 3, 2), Err(MatvecError::WeightCountMismatch));
    assert_eq!(backend.matvec_layout(7, &shape, 3, 2), Err(MatvecError::WeightCountMismatch));
    assert_eq!(backend.matvec_layout(6, &vec![6], 3, 2), Err(MatvecError::NotTwoDimensional));
    assert_eq!(
        MatvecError::ArityMismatch.message(),
        "matvec arity mismatch (ggml layout [in, out])"
    );
    assert_eq!(MatvecError::NotTwoDimensional.message(), "matvec expects a 2D tensor");
    assert_eq!(
        MatvecError::WeightCountMismatch.message(),
        "matvec weights do not fill their shape"
    );
}

#[test]
fn row_chunks_partition_the_rows() {
    assert_eq!(make_row_chunks(10, 3), vec![(0, 4), (4, 3), (7, 3)]);
    assert_eq!(make_row_chunks(2, 8), vec![(0, 1), (1, 1)]);
    assert_eq!(make_row_chunks(5, 0), vec![(0, 5)]);
    assert_eq!(make_row_chunks(0, 4), vec![(0, 0)]);
}

#[test]
fn kernels_follow_the_representation() {
    assert_eq!(choose_kernel(GgmlType::F32, &vec![1], 4).unwrap(), MatvecKernel::Float);
    assert_eq!(
        choose_kernel(GgmlType::Q4_0, &vec![64, 127], 4).unwrap(),
        MatvecKernel::RowRange { ggml_type: GgmlType::Q4_0, out_dim: 127, in_dim: 64 }
    );
    assert_eq!(
        choose_kernel(GgmlType::Q6_K, &vec![256, 128], 2).unwrap(),
        MatvecKernel::ParallelRowRanges {
            ggml_type: GgmlType::Q6_K,
            out_dim: 128,
            in_dim: 256,
            row_bytes: 210,
            ranges: vec![(0, 64), (64, 64)],
        }
    );
    assert_eq!(
        choose_kernel(GgmlType::Q6_K, &vec![256, 128], 1).unwrap(),
        MatvecKernel::RowRange { ggml_type: GgmlType::Q6_K, out_dim: 128, in_dim: 256 }
    );
    assert_eq!(
        choose_kernel(GgmlType::Q8_0, &vec![32, 4], 8).unwrap(),
        MatvecKernel::Compact { ggml_type: GgmlType::Q8_0, out_dim: 4, in_dim: 32 }
    );
    assert_eq!(
        choose_kernel(GgmlType::Q8_0, &vec![32, 4, 2], 8).unwrap_err(),
        "Q8_0 matvec expects 2D tensor shape, got [32, 4, 2]"
    );
    assert_eq!(
        choose_kernel(GgmlType::Q4_0, &vec![32], 8).unwrap_err(),
        "optimized quantized dispatch received unsupported tensor variant Q4_0"
    );
}

#[test]
fn q4_0_work_is_counted() {
    let mut profiler = Profiler::new();
    profiler.set_enabled(true);
    record_kernel_work(&mut profiler, GgmlType::Q4_0, &vec![64, 10]);
    record_kernel_work(&mut profiler, GgmlType::Q8_0, &vec![64, 10]);
    let snapshot = profiler.snapshot();
    assert_eq!(snapshot.q4_0_matvecs, 1);
    assert_eq!(snapshot.q4_0_rows, 10);
    assert_eq!(snapshot.q4_0_columns, 64);
    assert_eq!(snapshot.q4_0_blocks, 20);
    assert_eq!(snapshot.q4_0_weight_bytes, 360);
}

fn config() -> LlamaConfig {
    LlamaConfig {
        vocab_size: 16,
        context_length: 1024,
        embedding_length: 8,
        block_count: 1,
        feed_forward_length: 16,
        head_count: 2,
        head_count_kv: 1,
        head_dim: 4,
        rms_eps_bits: 1e-5f32.to_bits(),
        rope_freq_base_bits: 10000.0f32.to_bits(),
    }
}

#[test]
fn activation_lengths_are_checked() {
    let lengths = ActivationLengths {
        hidden: 8,
        tmp: 8,
        q: 8,
        k: 4,
        v: 4,
        attn_proj: 8,
        ffn_out: 8,
    };
    assert_eq!(ModelExecutor::check_activations(3, &config(), &lengths), Ok(()));
    let short = ActivationLengths { v: 3, ..lengths };
    assert_eq!(
        ModelExecutor::check_activations(3, &config(), &short).unwrap_err(),
        "layer 3 activation shape mismatch for embedding 8, heads 2, kv heads 1, head_dim 4"
    );
}

fn tensor(resident_bytes: usize) -> ResidentTensor<()> {
    ResidentTensor { data: (), resident_bytes }
}

#[test]
fn layer_weights_know_their_size_and_biases() {
    let mut layer = StreamingLayerWeights {
        attn_norm: tensor(1),
        attn_q: tensor(2),
        attn_k: tensor(3),
        attn_v: tensor(4),
        attn_output: tensor(5),
        ffn_norm: tensor(6),
        ffn_gate: tensor(7),
        ffn_up: tensor(8),
        ffn_down: tensor(9),
        attn_q_bias: None,
        attn_k_bias: None,
        attn_v_bias: None,
    };
    assert_eq!(layer.total_resident_bytes(), 45);
    assert_eq!(layer.has_biases(0), Ok(false));
    layer.attn_q_bias = Some(tensor(10));
    assert_eq!(
        layer.has_biases(2).unwrap_err(),
        "internal error: incomplete Q/K/V bias set survived load of layer 2"
    );
    layer.attn_k_bias = Some(tensor(20));
    layer.attn_v_bias = Some(tensor(30));
    assert_eq!(layer.has_biases(2), Ok(true));
    assert_eq!(layer.total_resident_bytes(), 105);
}

fn engine(ram_budget_bytes: u64) -> InferenceEngine<()> {
    let budget = MemoryBudget::new(ram_budget_bytes).unwrap();
    InferenceEngine::assemble(config(), budget, 0, 500, None, 2).unwrap()
}

#[test]
fn defaults_come_from_the_backend() {
    let engine = engine(10_000);
    assert_eq!(engine.runtime_config().cpu_thread_count, 2);
    assert_eq!(engine.runtime_config().ram_budget_bytes, 10_000);
    assert_eq!(engine.config().vocab_size, 16);
    assert!(engine.kv_cache.is_none());
    let requested = RuntimeConfig::new(1, 10_000, false, 0, true, false).unwrap();
    let explicit: InferenceEngine<()> = InferenceEngine::assemble(
        config(),
        MemoryBudget::new(10_000).unwrap(),
        0,
        500,
        Some(requested),
        2,
    )
    .unwrap();
    assert_eq!(explicit.runtime_config().cpu_thread_count, 1);
    let failed: Result<InferenceEngine<()>, String> = InferenceEngine::assemble(
        config(),
        MemoryBudget::new(10_000).unwrap(),
        10_001,
        500,
        None,
        2,
    );
    assert!(failed.unwrap_err().starts_with("failed to materialize runtime defaults: "));
}

/// Each token takes thirty-two bytes of K and V.
#[test]
fn a_full_run_skips_the_terminal_forward() {
    let mut engine = engine(10_000);
    engine.set_profiling(true);
    engine.reset().unwrap();
    let mut run = engine.start_run(3, 2, Some(0), &Sampler::greedy()).unwrap();
    assert_eq!(engine.budget.get("kv_cache"), Some(96));
    for position in 0..3 {
        assert_eq!(run.next_step(), GenerationStep::Prompt { position });
        run.prompt_forwarded(&mut engine.profiler);
    }
    assert_eq!(run.next_step(), GenerationStep::Sample);
    assert_eq!(
        run.select(7, &mut engine.profiler),
        GenerationStep::Forward { token: 7, position: 3 }
    );
    engine.ensure_kv_room(3, 5).unwrap();
    assert_eq!(engine.kv_cache.as_ref().unwrap().capacity_tokens(), 5);
    assert_eq!(engine.budget.get("kv_cache"), Some(160));
    assert_eq!(run.next_step(), GenerationStep::Forward { token: 7, position: 3 });
    run.forwarded(&mut engine.profiler);
    assert_eq!(run.next_step(), GenerationStep::Sample);
    assert_eq!(
        run.select(8, &mut engine.profiler),
        GenerationStep::Stop { reason: StopReason::MaxTokens }
    );
    assert_eq!(run.next_step(), GenerationStep::Stop { reason: StopReason::MaxTokens });
    let outcome = run.outcome("ab".to_string());
    let outcome = engine.conclude(Ok((outcome, run.residency_stats))).unwrap();
    assert_eq!(outcome.generated_token_ids, vec![7, 8]);
    assert_eq!(outcome.token_ids_sample, vec![7, 8]);
    assert_eq!(outcome.generated_text, "ab");
    assert_eq!(outcome.prompt_tokens, 3);
    assert_eq!(outcome.configured_max_tokens, 2);
    assert_eq!(outcome.context_length, 1024);
    assert_eq!(outcome.stop_reason, StopReason::MaxTokens);
    assert_eq!(outcome.stop_reason.label(), "max_tokens");
    assert_eq!(outcome.eos_token_id, Some(0));
    assert!(!outcome.eos_encountered);
    assert!(outcome.kv_cache_reset);
    assert!(outcome.token_history_reset);
    assert!(outcome.sampler_is_stateless);
    let snapshot = engine.profiler.snapshot();
    assert_eq!(snapshot.tokens, 2);
    assert_eq!(snapshot.prompt_forwards, 3);
    assert_eq!(snapshot.decode_forwards, 1);
    assert_eq!(snapshot.terminal_forwards_skipped, 1);
    // The cache stays until the next run resets it.
    assert_eq!(engine.budget.get("kv_cache"), Some(160));
    engine.clear_kv_cache();
    assert!(engine.kv_cache.is_none());
    assert_eq!(engine.budget.get("kv_cache"), None);
    engine.clear_kv_cache();
    assert_eq!(engine.budget.used_bytes(), 0);
}

#[test]
fn eos_ends_a_run_without_being_kept() {
    let mut engine = engine(10_000);
    engine.set_profiling(true);
    let mut run = engine.start_run(1, 9, Some(5), &Sampler::greedy()).unwrap();
    run.prompt_forwarded(&mut engine.profiler);
    assert_eq!(
        run.select(5, &mut engine.profiler),
        GenerationStep::Stop { reason: StopReason::Eos }
    );
    let outcome = run.outcome(String::new());
    assert!(outcome.eos_encountered);
    assert_eq!(outcome.stop_reason.label(), "eos");
    assert!(outcome.generated_token_ids.is_empty());
    assert_eq!(engine.profiler.snapshot().tokens, 0);
}

#[test]
fn no_tokens_is_a_finished_run() {
    let mut engine = engine(10_000);
    let mut run =
        engine.start_run(1, 0, None, &Sampler::new(1.0f32.to_bits(), None, None)).unwrap();
    run.prompt_forwarded(&mut engine.profiler);
    assert_eq!(run.next_step(), GenerationStep::Stop { reason: StopReason::MaxTokens });
    let outcome = run.outcome(String::new());
    assert_eq!(outcome.stop_reason, StopReason::MaxTokens);
    assert_eq!(outcome.eos_token_id, None);
    assert!(!outcome.sampler_is_stateless);
}

#[test]
fn the_token_sample_is_bounded() {
    let mut engine = engine(100_000);
    let mut run = engine.start_run(1, 100, None, &Sampler::greedy()).unwrap();
    run.prompt_forwarded(&mut engine.profiler);
    for token in 0..100 {
        if let GenerationStep::Forward { position, .. } = run.select(token, &mut engine.profiler) {
            engine.ensure_kv_room(position, 101).unwrap();
            run.forwarded(&mut engine.profiler);
        }
    }
    let outcome = run.outcome(String::new());
    assert_eq!(outcome.generated_token_ids.len(), 100);
    assert_eq!(outcome.token_ids_sample.len(), TOKEN_ID_SAMPLE_LIMIT);
    assert_eq!(outcome.token_ids_sample[63], 63);
    assert_eq!(StopReason::ContextLength.label(), "context_length");
}

#[test]
fn runs_that_cannot_start_are_refused() {
    let mut engine = engine(95);
    assert_eq!(
        engine.start_run(0, 1, None, &Sampler::greedy()).unwrap_err(),
        "prompt tokenization produced no tokens"
    );
    assert_eq!(
        engine.start_run(1000, 25, None, &Sampler::greedy()).unwrap_err(),
        "prompt + max_tokens exceeds context length: 1000 + 25 > 1024"
    );
    assert_eq!(
        engine.start_run(3, 1, None, &Sampler::greedy()).unwrap_err(),
        "RAM budget too small for initial KV cache: need 96 bytes (1 layers, 1 kv_heads, head_dim 4, 3 prompt tokens): insufficient RAM budget: requested 96 bytes, available 95 bytes"
    );
    assert!(engine.kv_cache.is_none());
    assert_eq!(engine.budget.used_bytes(), 0);
    engine.config.head_dim = 0;
    assert_eq!(
        engine.start_run(3, 1, None, &Sampler::greedy()).unwrap_err(),
        "failed to create KV cache: invalid KV cache dimensions"
    );
}

#[test]
fn a_failed_growth_restores_the_old_charge() {
    let mut engine = engine(100);
    engine.start_run(3, 2, None, &Sampler::greedy()).unwrap();
    let message = engine.ensure_kv_room(3, 5).unwrap_err();
    assert_eq!(
        message,
        "RAM budget too small to grow KV cache from 3 to 5 tokens (96 -> 160 bytes): insufficient RAM budget: requested 160 bytes, available 100 bytes"
    );
    assert_eq!(engine.budget.get("kv_cache"), Some(96));
    assert_eq!(engine.budget.peak_used_bytes(), 96);
    assert_eq!(engine.kv_cache.as_ref().unwrap().capacity_tokens(), 3);
    let failed = engine.conclude(Err(message)).unwrap_err();
    assert!(failed.contains("grow KV cache"));
    assert!(engine.kv_cache.is_none());
    assert_eq!(engine.budget.get("kv_cache"), None);
    // The engine can be used again.
    engine.reset().unwrap();
    assert!(engine.start_run(3, 0, None, &Sampler::greedy()).is_ok());
}

#[test]
fn growth_takes_cached_layers_first() {
    let mut engine: InferenceEngine<&str> = InferenceEngine::assemble(
        config(),
        MemoryBudget::new(200).unwrap(),
        60,
        500,
        Some(RuntimeConfig::new(1, 200, true, 60, true, true).unwrap()),
        1,
    )
    .unwrap();
    engine.start_run(3, 2, None, &Sampler::greedy()).unwrap();
    engine.budget.allocate("layer:0:w", 60).unwrap();
    engine.layer_cache.insert_loaded(0, "layer", 60, &mut engine.budget).unwrap();
    engine.ensure_kv_room(3, 5).unwrap();
    assert_eq!(engine.layer_cache.entry_count(), 0);
    assert_eq!(engine.budget.get("kv_cache"), Some(160));
    assert_eq!(engine.budget.used_bytes(), 160);
}

#[test]
fn scoped_buffers_leave_no_charge() {
    let mut engine = engine(100);
    engine.open_temp("tmp:hidden", 60).unwrap();
    assert_eq!(
        engine.open_temp("tmp:hidden", 1).unwrap_err(),
        "allocation 'tmp:hidden' already exists"
    );
    assert_eq!(
        engine.open_temp("tmp:logits", 41).unwrap_err(),
        "insufficient RAM budget: requested 41 bytes, available 40 bytes"
    );
    engine.make_room(41).unwrap();
    engine.close_temp("tmp:hidden");
    assert_eq!(engine.budget.used_bytes(), 0);
    engine.close_temp("tmp:hidden");
    assert_eq!(engine.budget.used_bytes(), 0);
}

#[test]
fn buffers_follow_the_model_and_the_sampler() {
    let greedy = generation_buffers(&config(), &Sampler::greedy());
    assert_eq!(greedy.hidden_bytes, 32);
    assert_eq!(greedy.logits_bytes, 64);
    assert_eq!(greedy.sampling_bytes, 0);
    let warm = generation_buffers(&config(), &Sampler::new(0.5f32.to_bits(), None, None));
    assert_eq!(warm.sampling_bytes, 320);
}

fn read(name: &str, bytes_read: u64) -> TensorReadProfile {
    TensorReadProfile {
        name: name.to_string(),
        bytes_read,
        read_operations: 1,
        read_failures: 0,
    }
}

#[test]
fn tensor_reads_are_ordered_by_bytes_and_name() {
    let engine = engine(10_000);
    let profile = engine.generation_profile(
        IoProfile::default(),
        &vec![read("b", 5), read("c", 9), read("a", 5)],
    );
    let names: Vec<&str> = profile.tensor_reads.iter().map(|read| read.name.as_str()).collect();
    assert_eq!(names, vec!["c", "a", "b"]);
    assert_eq!(profile.ramforge_budget_bytes, 10_000);
    assert_eq!(profile.ramforge_current_bytes, 0);
    let report = engine.memory_report(Some("VmRSS: 1 kB"), None);
    assert_eq!(report.process_rss_bytes, Some(1024));
}

/// What a run charged and did not release goes with the run, failed or not.
#[test]
fn a_concluded_run_leaves_no_scoped_charge() {
    let mut engine = engine(10_000);
    engine.budget.allocate("weight:output_norm.weight", 32).unwrap();
    for _ in 0..2 {
        engine.reset().unwrap();
        engine.start_run(3, 2, None, &Sampler::greedy()).unwrap();
        engine.open_temp("tmp:hidden", 32).unwrap();
        engine.open_temp("tmp:logits", 64).unwrap();
        engine.budget.allocate("layer:0:weights", 500).unwrap();
        assert_eq!(engine.budget.used_bytes(), 32 + 96 + 32 + 64 + 500);
        assert_eq!(engine.budget.peak_used_bytes(), 32 + 96 + 32 + 64 + 500);
        let failed = engine.conclude(Err("forward failed".to_string()));
        assert_eq!(failed.unwrap_err(), "forward failed");
        assert!(engine.kv_cache.is_none());
        assert_eq!(engine.budget.bytes_with_prefix("tmp:"), 0);
        assert_eq!(engine.budget.get("kv_cache"), None);
        assert_eq!(engine.budget.used_bytes(), 32);
    }
    let run = engine.start_run(3, 0, None, &Sampler::greedy()).unwrap();
    engine.open_temp("tmp:hidden", 32).unwrap();
    let outcome = run.outcome(String::new());
    engine.conclude(Ok((outcome, run.residency_stats))).unwrap();
    assert_eq!(engine.budget.used_bytes(), 32 + 96);
    assert_eq!(engine.budget.get("kv_cache"), Some(96));
}
