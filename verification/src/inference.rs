//! Inference engine state for budgeted generation (llama/qwen2, out-of-core).
//!
//! Memory contract of a generation:
//! - every allocation that lives across a step is budget-charged for its
//!   lifetime: persistent weights (`weight:*`), streamed layers
//!   (`layer:{i}:*`), the KV cache (`kv_cache`), the single logits buffer
//!   (`tmp:logits`), and the caller-owned hidden state (`tmp:hidden`);
//! - the KV cache starts at the prompt length and grows chunk-wise
//!   (256-token chunks, capped at prompt+max_tokens) with budget checks
//!   and deterministic rollback on failure.

use vstd::prelude::*;
use vstd::string::*;

use crate::budget;
use crate::budget::{MemoryBudget, MemoryError};
use crate::kv_cache;
use crate::kv_cache::KvCache;
use crate::layer_cache;
use crate::layer_cache::LayerCache;
use crate::memory_report;
use crate::memory_report::MemoryReport;
use crate::model::LlamaConfig;
use crate::profile;
use crate::profile::{ProfileSnapshot, Profiler};
use crate::residency;
use crate::residency::ResidencyStats;
use crate::runtime_config;
use crate::runtime_config::RuntimeConfig;
use crate::sampling;
use crate::sampling::Sampler;
use crate::text;

verus! {

// ---------------------------------------------------------------------------
// Profiles
// ---------------------------------------------------------------------------
#[derive(Debug, Default, PartialEq, Eq)]
pub struct TensorReadProfile {
    pub name: String,
    pub bytes_read: u64,
    pub read_operations: u64,
    pub read_failures: u64,
}

/// The content of a tensor's read counters.
pub struct TensorReadFacts {
    pub name: Seq<char>,
    pub bytes_read: u64,
    pub read_operations: u64,
    pub read_failures: u64,
}

impl View for TensorReadProfile {
    type V = TensorReadFacts;

    open spec fn view(&self) -> TensorReadFacts {
        TensorReadFacts {
            name: self.name@,
            bytes_read: self.bytes_read,
            read_operations: self.read_operations,
            read_failures: self.read_failures,
        }
    }
}

impl Clone for TensorReadProfile {
    fn clone(&self) -> (copy: Self)
        ensures
            copy@ == self@,
    {
        TensorReadProfile {
            name: self.name.clone(),
            bytes_read: self.bytes_read,
            read_operations: self.read_operations,
            read_failures: self.read_failures,
        }
    }
}

pub open spec fn read_facts(reads: Seq<TensorReadProfile>) -> Seq<TensorReadFacts> {
    Seq::new(reads.len(), |i: int| reads[i]@)
}

/// More bytes come first; among equals the name decides.
pub open spec fn reads_before(left: TensorReadFacts, right: TensorReadFacts) -> bool {
    left.bytes_read > right.bytes_read || (left.bytes_read == right.bytes_read && text::text_less(
        left.name,
        right.name,
    ))
}

/// Where a tensor enters the ordered list: behind all that do not come after
/// it.
pub open spec fn read_place(reads: Seq<TensorReadFacts>, read: TensorReadFacts) -> int
    decreases reads.len(),
{
    if reads.len() == 0 || !reads_before(read, reads.last()) {
        reads.len() as int
    } else {
        read_place(reads.drop_last(), read)
    }
}

/// The tensors by bytes read, most first.
pub open spec fn ordered_reads(reads: Seq<TensorReadFacts>) -> Seq<TensorReadFacts>
    decreases reads.len(),
{
    if reads.len() == 0 {
        Seq::empty()
    } else {
        let earlier = ordered_reads(reads.drop_last());
        earlier.insert(read_place(earlier, reads.last()), reads.last())
    }
}

proof fn lemma_read_place(reads: Seq<TensorReadFacts>, read: TensorReadFacts)
    ensures
        0 <= read_place(reads, read) <= reads.len(),
        read_place(reads, read) > 0 ==> !reads_before(read, reads[read_place(reads, read) - 1]),
        forall|i: int|
            read_place(reads, read) <= i < reads.len() ==> reads_before(read, #[trigger] reads[i]),
    decreases reads.len(),
{
    if reads.len() > 0 && reads_before(read, reads.last()) {
        lemma_read_place(reads.drop_last(), read);
        assert forall|i: int| read_place(reads, read) <= i < reads.len() implies reads_before(
            read,
            #[trigger] reads[i],
        ) by {
            if i < reads.len() - 1 {
                assert(reads.drop_last()[i] == reads[i]);
            }
        }
    }
}

proof fn lemma_not_before_transitive(
    first: TensorReadFacts,
    second: TensorReadFacts,
    third: TensorReadFacts,
)
    requires
        !reads_before(second, first),
        !reads_before(third, second),
    ensures
        !reads_before(third, first),
{
    text::lemma_text_less_total(first.name, second.name);
    text::lemma_text_less_total(second.name, third.name);
    text::lemma_text_less_total(first.name, third.name);
    if text::text_less(first.name, second.name) && text::text_less(second.name, third.name) {
        text::lemma_text_less_transitive(first.name, second.name, third.name);
    }
}

proof fn lemma_before_asymmetric(left: TensorReadFacts, right: TensorReadFacts)
    requires
        reads_before(left, right),
    ensures
        !reads_before(right, left),
{
    text::lemma_text_less_total(left.name, right.name);
}

/// The ordered list holds the same tensors, and none comes before one that is
/// listed ahead of it.
pub proof fn lemma_reads_ordered(reads: Seq<TensorReadFacts>)
    ensures
        ordered_reads(reads).to_multiset() == reads.to_multiset(),
        ordered_reads(reads).len() == reads.len(),
        forall|i: int, j: int|
            0 <= i < j < reads.len() ==> !reads_before(
                #[trigger] ordered_reads(reads)[j],
                #[trigger] ordered_reads(reads)[i],
            ),
    decreases reads.len(),
{
    broadcast use vstd::seq_lib::group_to_multiset_ensures;

    if reads.len() > 0 {
        let rest = reads.drop_last();
        let read = reads.last();
        lemma_reads_ordered(rest);
        let earlier = ordered_reads(rest);
        let at = read_place(earlier, read);
        let all = ordered_reads(reads);
        lemma_read_place(earlier, read);
        assert(reads =~= rest.push(read));
        assert(all =~= earlier.insert(at, read));
        assert(all.to_multiset() =~= reads.to_multiset());
        assert forall|i: int, j: int| 0 <= i < j < reads.len() implies !reads_before(
            #[trigger] all[j],
            #[trigger] all[i],
        ) by {
            let a = if i < at {
                i
            } else {
                i - 1
            };
            let b = if j < at {
                j
            } else {
                j - 1
            };
            if i == at {
                assert(all[j] == earlier[b]);
                assert(reads_before(read, earlier[b]));
                lemma_before_asymmetric(read, earlier[b]);
            } else if j == at {
                assert(all[i] == earlier[a]);
                assert(!reads_before(read, earlier[at - 1]));
                if a < at - 1 {
                    assert(!reads_before(earlier[at - 1], earlier[a]));
                    lemma_not_before_transitive(earlier[a], earlier[at - 1], read);
                }
            } else {
                assert(all[i] == earlier[a] && all[j] == earlier[b]);
            }
        }
    } else {
        assert(ordered_reads(reads).to_multiset() =~= reads.to_multiset());
    }
}

fn comes_before(left: &TensorReadProfile, right: &TensorReadProfile) -> (before: bool)
    ensures
        before == reads_before(left@, right@),
{
    if left.bytes_read != right.bytes_read {
        return left.bytes_read > right.bytes_read;
    }
    text::str_less(left.name.as_str(), right.name.as_str())
}

fn order_reads(reads: &Vec<TensorReadProfile>) -> (ordered: Vec<TensorReadProfile>)
    ensures
        read_facts(ordered@) == ordered_reads(read_facts(reads@)),
{
    let ghost all = read_facts(reads@);
    let mut ordered: Vec<TensorReadProfile> = Vec::new();
    assert(read_facts(ordered@) =~= ordered_reads(all.take(0)));
    for i in 0..reads.len()
        invariant
            all == read_facts(reads@),
            read_facts(ordered@) == ordered_reads(all.take(i as int)),
    {
        let ghost earlier = read_facts(ordered@);
        let ghost before = ordered@;
        let mut at: usize = ordered.len();
        assert(earlier.take(at as int) =~= earlier);
        while at > 0 && comes_before(&reads[i], &ordered[at - 1])
            invariant
                i < reads@.len(),
                at <= ordered@.len(),
                earlier == read_facts(ordered@),
                read_place(earlier, reads@[i as int]@) == read_place(
                    earlier.take(at as int),
                    reads@[i as int]@,
                ),
            decreases at,
        {
            assert(earlier.take(at as int).drop_last() =~= earlier.take(at as int - 1));
            assert(earlier.take(at as int).last() == ordered@[at as int - 1]@);
            at = at - 1;
        }
        proof {
            if at > 0 {
                assert(earlier.take(at as int).last() == ordered@[at as int - 1]@);
            }
            assert(all.take(i as int + 1).drop_last() =~= all.take(i as int));
            assert(all.take(i as int + 1).last() == reads@[i as int]@);
        }
        ordered.insert(at, reads[i].clone());
        assert(read_facts(ordered@) =~= earlier.insert(at as int, reads@[i as int]@));
    }
    assert(all.take(all.len() as int) =~= all);
    ordered
}

/// The counters of a data source.
#[derive(Debug, Clone, Copy, Default, PartialEq, Eq)]
pub struct IoProfile {
    pub bytes_read: u64,
    pub read_operations: u64,
    pub read_failures: u64,
    pub logical_tensor_reads: u64,
    pub coalesced_ranges: u64,
}

#[derive(Debug, PartialEq, Eq)]
pub struct GenerationProfile {
    pub runtime: ProfileSnapshot,
    pub io: IoProfile,
    pub tensor_reads: Vec<TensorReadProfile>,
    pub layer_cache_capacity_bytes: u64,
    pub ramforge_current_bytes: u64,
    pub ramforge_peak_bytes: u64,
    pub ramforge_budget_bytes: u64,
}

// ---------------------------------------------------------------------------
// Runs
// ---------------------------------------------------------------------------
/// Precise reason generation exited the decode loop.
#[derive(Debug, Clone, Copy, PartialEq, Eq, Structural)]
pub enum StopReason {
    /// The EOS token was sampled.
    Eos,
    /// Exactly `max_tokens` generated tokens were produced (upper bound reached).
    MaxTokens,
    /// Generation would have exceeded the model's `context_length`.
    ContextLength,
}

impl StopReason {
    pub open spec fn spec_label(self) -> Seq<char> {
        match self {
            StopReason::Eos => "eos"@,
            StopReason::MaxTokens => "max_tokens"@,
            StopReason::ContextLength => "context_length"@,
        }
    }

    pub fn label(self) -> (label: &'static str)
        ensures
            label@ == self.spec_label(),
    {
        match self {
            StopReason::Eos => "eos",
            StopReason::MaxTokens => "max_tokens",
            StopReason::ContextLength => "context_length",
        }
    }
}

/// Outcome of a single generation. Exposes the data callers need to
/// distinguish EOS-vs-max-token stops and verify state resets between runs.
#[derive(Debug, Clone)]
pub struct GenerationOutcome {
    /// All generated token IDs (not including BOS, prompt, or EOS).
    pub generated_token_ids: Vec<u32>,
    /// Decoded text, with the trailing bytes that the decoder flushed.
    pub generated_text: String,
    /// Number of prompt tokens fed into the forward pass.
    pub prompt_tokens: usize,
    /// Configured upper bound of tokens to generate (the caller's `max_tokens`).
    pub configured_max_tokens: usize,
    /// Model `context_length` (context cap, not a hardcoded generation limit).
    pub context_length: usize,
    /// Why the loop stopped.
    pub stop_reason: StopReason,
    /// EOS token ID of the tokenizer, or `None` where it has none. Then EOS
    /// cannot be detected.
    pub eos_token_id: Option<u32>,
    /// Whether the EOS token was actually encountered during the run.
    /// Always `false` when `eos_token_id` is `None`.
    pub eos_encountered: bool,
    /// Bounded prefix of `generated_token_ids` for diagnostics (never
    /// contains the EOS id).
    pub token_ids_sample: Vec<u32>,
    /// KV cache was dropped/recreated at the start of the run.
    pub kv_cache_reset: bool,
    /// Per-run token history is local to the run.
    pub token_history_reset: bool,
    /// The sampler carries nothing from one run to the next.
    pub sampler_is_stateless: bool,
}

/// Maximum number of generated token IDs included in `token_ids_sample`.
pub const TOKEN_ID_SAMPLE_LIMIT: usize = 64;

/// What has to happen next.
#[derive(Debug, Clone, Copy, PartialEq, Eq, Structural)]
pub enum GenerationStep {
    /// The prompt's token of that place goes through the model.
    Prompt { position: usize },
    /// The logits of the last token are computed, and a token is sampled.
    Sample,
    /// The token goes through the model at that position.
    Forward { token: u32, position: usize },
    Stop { reason: StopReason },
}

/// A generation in progress. `position` is where the next token goes: behind
/// the prompt and the tokens that went through the model.
#[derive(Debug)]
pub struct GenerationRun {
    pub prompt_tokens: usize,
    /// The prompt's tokens that went through the model.
    pub prompt_done: usize,
    pub max_tokens: usize,
    pub context_length: usize,
    pub eos_token_id: Option<u32>,
    pub sampler_is_stateless: bool,
    pub generated: Vec<u32>,
    pub position: usize,
    pub stop: Option<StopReason>,
    pub residency_stats: ResidencyStats,
}

pub open spec fn context_message(prompt: nat, max_tokens: nat, context: nat) -> Seq<char> {
    "prompt + max_tokens exceeds context length: "@ + text::decimal(prompt) + " + "@
        + text::decimal(max_tokens) + " > "@ + text::decimal(context)
}

/// Whether a prompt can be run at all.
pub open spec fn prompt_error(prompt: int, max_tokens: int, context: int) -> Option<Seq<char>> {
    if prompt == 0 {
        Some("prompt tokenization produced no tokens"@)
    } else if prompt + max_tokens > context {
        Some(context_message(prompt as nat, max_tokens as nat, context as nat))
    } else {
        None
    }
}

fn check_prompt(prompt_tokens: usize, max_tokens: usize, context_length: usize) -> (result: Result<
    (),
    String,
>)
    requires
        prompt_tokens + max_tokens <= usize::MAX,
    ensures
        text::text_result(result) == (match prompt_error(
            prompt_tokens as int,
            max_tokens as int,
            context_length as int,
        ) {
            Some(message) => Err::<(), Seq<char>>(message),
            None => Ok(()),
        }),
{
    if prompt_tokens == 0 {
        return Err("prompt tokenization produced no tokens".to_owned());
    }
    if prompt_tokens + max_tokens > context_length {
        let mut message = "prompt + max_tokens exceeds context length: ".to_owned();
        text::push_decimal(&mut message, prompt_tokens as u64);
        message.append(" + ");
        text::push_decimal(&mut message, max_tokens as u64);
        message.append(" > ");
        text::push_decimal(&mut message, context_length as u64);
        return Err(message);
    }
    Ok(())
}

impl GenerationRun {
    /// Nothing is under way: every generated token went through the model.
    pub open spec fn ready(&self) -> bool {
        self.position == self.prompt_tokens + self.generated@.len()
    }

    /// The last generated token has not gone through the model yet.
    pub open spec fn forward_pending(&self) -> bool {
        self.position + 1 == self.prompt_tokens + self.generated@.len()
    }

    /// The run stays within its limits, and its stop reason tells how it ended:
    /// at the upper bound, or at EOS before it. It never holds EOS, and the last
    /// token of a full run does not go through the model.
    pub open spec fn wf(&self) -> bool {
        &&& self.prompt_tokens > 0
        &&& self.prompt_done <= self.prompt_tokens <= self.position
        &&& self.prompt_done < self.prompt_tokens ==> self.generated@.len() == 0 && self.ready()
        &&& self.prompt_tokens + self.max_tokens <= self.context_length
        &&& self.generated@.len() <= self.max_tokens
        &&& self.eos_token_id matches Some(eos) ==> !self.generated@.contains(eos)
        &&& self.ready() || self.forward_pending()
        &&& match self.stop {
            None => self.generated@.len() < self.max_tokens,
            Some(StopReason::Eos) => self.ready() && self.eos_token_id is Some
                && self.generated@.len() < self.max_tokens,
            Some(StopReason::MaxTokens) => self.generated@.len() == self.max_tokens && (
            self.max_tokens > 0 ==> self.forward_pending()),
            Some(StopReason::ContextLength) => false,
        }
    }

    /// The two runs have the same limits.
    pub open spec fn same_limits(&self, other: &GenerationRun) -> bool {
        &&& self.prompt_tokens == other.prompt_tokens
        &&& self.max_tokens == other.max_tokens
        &&& self.context_length == other.context_length
        &&& self.eos_token_id == other.eos_token_id
        &&& self.sampler_is_stateless == other.sampler_is_stateless
        &&& self.residency_stats == other.residency_stats
    }

    /// How many more steps the run can take at most.
    pub open spec fn steps_left(&self) -> int {
        (self.prompt_tokens - self.prompt_done) + if self.stop is Some {
            0
        } else {
            2 * (self.max_tokens - self.generated@.len()) + if self.forward_pending() {
                1int
            } else {
                0
            }
        }
    }

    /// The step that is due.
    pub open spec fn due(&self) -> GenerationStep {
        if self.prompt_done < self.prompt_tokens {
            GenerationStep::Prompt { position: self.prompt_done }
        } else {
            match self.stop {
                Some(reason) => GenerationStep::Stop { reason },
                None => if self.forward_pending() {
                    GenerationStep::Forward {
                        token: self.generated@.last(),
                        position: self.position,
                    }
                } else {
                    GenerationStep::Sample
                },
            }
        }
    }

    /// The step that a sampled token leads to.
    pub open spec fn step(&self, token: u32) -> GenerationStep {
        if self.eos_token_id == Some(token) {
            GenerationStep::Stop { reason: StopReason::Eos }
        } else if self.generated@.len() + 1 >= self.max_tokens {
            GenerationStep::Stop { reason: StopReason::MaxTokens }
        } else if self.position + 1 >= self.context_length {
            GenerationStep::Stop { reason: StopReason::ContextLength }
        } else {
            GenerationStep::Forward { token, position: self.position }
        }
    }

    /// What the caller has to do now.
    pub fn next_step(&self) -> (step: GenerationStep)
        requires
            self.wf(),
        ensures
            step == self.due(),
            step is Stop <==> self.steps_left() == 0,
    {
        if self.prompt_done < self.prompt_tokens {
            return GenerationStep::Prompt { position: self.prompt_done };
        }
        match self.stop {
            Some(reason) => GenerationStep::Stop { reason },
            None => {
                let count: usize = self.generated.len();
                if self.position + 1 == self.prompt_tokens + count {
                    GenerationStep::Forward {
                        token: self.generated[count - 1],
                        position: self.position,
                    }
                } else {
                    GenerationStep::Sample
                }
            },
        }
    }

    /// A token of the prompt went through the model.
    pub fn prompt_forwarded(&mut self, profiler: &mut Profiler)
        requires
            old(self).wf(),
            old(self).prompt_done < old(self).prompt_tokens,
        ensures
            final(self).wf(),
            final(self).same_limits(old(self)),
            final(self).prompt_done == old(self).prompt_done + 1,
            final(self).position == old(self).position,
            final(self).generated@ == old(self).generated@,
            final(self).stop == old(self).stop,
            final(self).steps_left() < old(self).steps_left(),
            final(profiler).spec_enabled() == old(profiler).spec_enabled(),
            final(profiler).spec_counters() == (if old(profiler).spec_enabled() {
                ProfileSnapshot {
                    prompt_forwards: profile::counted(
                        old(profiler).spec_counters().prompt_forwards,
                        1,
                    ),
                    ..old(profiler).spec_counters()
                }
            } else {
                old(profiler).spec_counters()
            }),
    {
        self.prompt_done = self.prompt_done + 1;
        profiler.record_prompt_forward();
    }

    /// Takes a sampled token: ends the run at EOS, and otherwise keeps the token
    /// and ends the run where no further token's logits will be read. A selected
    /// final token does not go through the model.
    pub fn select(&mut self, token: u32, profiler: &mut Profiler) -> (step: GenerationStep)
        requires
            old(self).wf(),
            old(self).due() == GenerationStep::Sample,
        ensures
            final(self).wf(),
            final(self).same_limits(old(self)),
            final(self).prompt_done == old(self).prompt_done,
            final(self).position == old(self).position,
            final(self).steps_left() < old(self).steps_left(),
            step == old(self).step(token),
            step == final(self).due(),
            final(self).generated@ == (if old(self).eos_token_id == Some(token) {
                old(self).generated@
            } else {
                old(self).generated@.push(token)
            }),
            final(self).stop == (match step {
                GenerationStep::Stop { reason } => Some(reason),
                _ => None,
            }),
            final(profiler).spec_enabled() == old(profiler).spec_enabled(),
            final(profiler).spec_counters() == (if old(profiler).spec_enabled() && step is Stop
                && old(self).eos_token_id != Some(token) {
                ProfileSnapshot {
                    tokens: profile::counted(old(profiler).spec_counters().tokens, 1),
                    terminal_forwards_skipped: profile::counted(
                        old(profiler).spec_counters().terminal_forwards_skipped,
                        1,
                    ),
                    ..old(profiler).spec_counters()
                }
            } else {
                old(profiler).spec_counters()
            }),
    {
        if let Some(eos) = self.eos_token_id {
            if token == eos {
                self.stop = Some(StopReason::Eos);
                return GenerationStep::Stop { reason: StopReason::Eos };
            }
        }
        let ghost before = self.generated@;
        let more_tokens_requested = self.generated.len() + 1 < self.max_tokens;
        let room_in_context = self.position + 1 < self.context_length;
        self.generated.push(token);
        proof {
            if let Some(eos) = self.eos_token_id {
                if self.generated@.contains(eos) {
                    let k = self.generated@.index_of(eos);
                    assert(k < before.len() ==> before[k] == eos);
                    assert(before.contains(eos));
                }
            }
        }
        if !more_tokens_requested {
            self.stop = Some(StopReason::MaxTokens);
            profiler.record_token();
            profiler.record_terminal_forward_skipped();
            return GenerationStep::Stop { reason: StopReason::MaxTokens };
        }
        if !room_in_context {
            self.stop = Some(StopReason::ContextLength);
            profiler.record_token();
            profiler.record_terminal_forward_skipped();
            return GenerationStep::Stop { reason: StopReason::ContextLength };
        }
        GenerationStep::Forward { token, position: self.position }
    }

    /// The pending token went through the model.
    pub fn forwarded(&mut self, profiler: &mut Profiler)
        requires
            old(self).wf(),
            old(self).due() is Forward,
        ensures
            final(self).wf(),
            final(self).same_limits(old(self)),
            final(self).prompt_done == old(self).prompt_done,
            final(self).steps_left() < old(self).steps_left(),
            final(self).due() == (if old(self).position + 1 >= old(self).context_length {
                GenerationStep::Stop { reason: StopReason::ContextLength }
            } else {
                GenerationStep::Sample
            }),
            final(self).generated@ == old(self).generated@,
            final(self).position == old(self).position + 1,
            final(self).stop == (if old(self).position + 1 >= old(self).context_length {
                Some(StopReason::ContextLength)
            } else {
                None
            }),
            final(profiler).spec_enabled() == old(profiler).spec_enabled(),
            final(profiler).spec_counters() == (if old(profiler).spec_enabled() {
                ProfileSnapshot {
                    tokens: profile::counted(old(profiler).spec_counters().tokens, 1),
                    decode_forwards: profile::counted(
                        old(profiler).spec_counters().decode_forwards,
                        1,
                    ),
                    ..old(profiler).spec_counters()
                }
            } else {
                old(profiler).spec_counters()
            }),
    {
        self.position = self.position + 1;
        profiler.record_decode_forward();
        profiler.record_token();
        if self.position >= self.context_length {
            self.stop = Some(StopReason::ContextLength);
        }
    }

    /// What the run came to, with the text that its tokens decode to.
    pub fn outcome(&self, generated_text: String) -> (outcome: GenerationOutcome)
        requires
            self.wf(),
            self.due() is Stop,
        ensures
            outcome.generated_token_ids@ == self.generated@,
            outcome.generated_text@ == generated_text@,
            outcome.prompt_tokens == self.prompt_tokens,
            outcome.configured_max_tokens == self.max_tokens,
            outcome.context_length == self.context_length,
            Some(outcome.stop_reason) == self.stop,
            outcome.eos_token_id == self.eos_token_id,
            outcome.eos_encountered == (self.stop == Some(StopReason::Eos)),
            outcome.token_ids_sample@ == (if self.generated@.len() <= TOKEN_ID_SAMPLE_LIMIT {
                self.generated@
            } else {
                self.generated@.take(TOKEN_ID_SAMPLE_LIMIT as int)
            }),
            outcome.kv_cache_reset,
            outcome.token_history_reset,
            outcome.sampler_is_stateless == self.sampler_is_stateless,
    {
        let stop_reason = match self.stop {
            Some(reason) => reason,
            None => StopReason::MaxTokens,
        };
        GenerationOutcome {
            generated_token_ids: first_tokens(&self.generated, self.generated.len()),
            generated_text,
            prompt_tokens: self.prompt_tokens,
            configured_max_tokens: self.max_tokens,
            context_length: self.context_length,
            stop_reason,
            eos_token_id: self.eos_token_id,
            eos_encountered: stop_reason == StopReason::Eos,
            token_ids_sample: first_tokens(&self.generated, TOKEN_ID_SAMPLE_LIMIT),
            kv_cache_reset: true,
            token_history_reset: true,
            sampler_is_stateless: self.sampler_is_stateless,
        }
    }
}

fn first_tokens(tokens: &Vec<u32>, limit: usize) -> (first: Vec<u32>)
    ensures
        first@ == (if tokens@.len() <= limit {
            tokens@
        } else {
            tokens@.take(limit as int)
        }),
{
    let count: usize = if tokens.len() <= limit {
        tokens.len()
    } else {
        limit
    };
    let mut first: Vec<u32> = Vec::new();
    for i in 0..count
        invariant
            count <= tokens@.len(),
            first@ =~= tokens@.take(i as int),
    {
        first.push(tokens[i]);
    }
    assert(tokens@.take(tokens@.len() as int) =~= tokens@);
    first
}

/// A run that was admitted never meets the end of the context: it stops at EOS
/// or at the requested number of tokens, whichever comes first.
pub proof fn lemma_context_never_exceeded(run: GenerationRun, token: u32)
    requires
        run.wf(),
        run.due() == GenerationStep::Sample,
    ensures
        run.step(token) != (GenerationStep::Stop { reason: StopReason::ContextLength }),
        run.position < run.context_length,
{
}

/// What a finished run holds: at most the requested tokens, none of them EOS,
/// and all but the last of a full run went through the model.
pub proof fn lemma_finished_run(run: GenerationRun)
    requires
        run.wf(),
        run.due() is Stop,
    ensures
        run.generated@.len() <= run.max_tokens,
        run.eos_token_id matches Some(eos) ==> !run.generated@.contains(eos),
        run.eos_token_id is None ==> run.stop == Some(StopReason::MaxTokens),
        run.stop == Some(StopReason::MaxTokens) ==> run.generated@.len() == run.max_tokens,
        run.stop == Some(StopReason::MaxTokens) && run.max_tokens > 0 ==> run.position
            - run.prompt_tokens == run.max_tokens - 1,
        run.stop == Some(StopReason::Eos) ==> run.position - run.prompt_tokens
            == run.generated@.len() < run.max_tokens,
{
}

/// The bytes of the buffers that a generation owns.
#[derive(Debug, Clone, Copy, PartialEq, Eq, Structural)]
pub struct GenerationBuffers {
    pub hidden_bytes: u64,
    pub logits_bytes: u64,
    /// Sampler scratch: scaled logits + kept-index table (non-greedy only).
    pub sampling_bytes: u64,
}

pub fn generation_buffers(config: &LlamaConfig, sampler: &Sampler) -> (buffers: GenerationBuffers)
    requires
        config.vocab_size * 4 <= usize::MAX,
        config.embedding_length * 4 <= usize::MAX,
        sampling::above(sampler.temperature_bits, 0) ==> config.vocab_size * 20 <= usize::MAX,
    ensures
        buffers == (GenerationBuffers {
            hidden_bytes: (config.embedding_length * 4) as u64,
            logits_bytes: (config.vocab_size * 4) as u64,
            sampling_bytes: if sampling::above(sampler.temperature_bits, 0) {
                (config.vocab_size * 20) as u64
            } else {
                0
            },
        }),
{
    GenerationBuffers {
        hidden_bytes: (config.embedding_length * 4) as u64,
        logits_bytes: (config.vocab_size * 4) as u64,
        sampling_bytes: if sampling::is_above(sampler.temperature_bits, 0) {
            (config.vocab_size * 4 * 5) as u64
        } else {
            0
        },
    }
}

// ---------------------------------------------------------------------------
// The engine
// ---------------------------------------------------------------------------
/// The managed state of an engine: its budget, the KV cache and the layer cache
/// that are charged to it, and what it observed.
#[derive(Debug)]
#[verifier::reject_recursive_types(T)]
pub struct InferenceEngine<T> {
    pub config: LlamaConfig,
    pub kv_cache: Option<KvCache>,
    pub layer_cache: LayerCache<T>,
    pub budget: MemoryBudget,
    pub runtime_config: RuntimeConfig,
    pub total_weight_bytes: u64,
    pub residency_stats: ResidencyStats,
    pub profiler: Profiler,
}

proof fn lemma_kv_not_cached()
    ensures
        !text::has_prefix("kv_cache"@, "cache:"@),
{
    reveal_strlit("kv_cache");
    reveal_strlit("cache:");
    assert("kv_cache"@[0] == 'k');
    assert("cache:"@[0] == 'c');
    if text::has_prefix("kv_cache"@, "cache:"@) {
        assert("kv_cache"@.subrange(0, "cache:"@.len() as int)[0] == 'k');
    }
}

/// Changing the KV charge keeps the layer cache backed.
proof fn lemma_kv_released<T>(
    entries: Seq<layer_cache::EntryFacts<T>>,
    charges: Seq<budget::ChargeFacts>,
)
    requires
        layer_cache::backed(entries, charges),
    ensures
        layer_cache::backed(entries, layer_cache::without_charge(charges, "kv_cache"@)),
        !budget::has_charge(layer_cache::without_charge(charges, "kv_cache"@), "kv_cache"@),
{
    let rest = layer_cache::without_charge(charges, "kv_cache"@);
    lemma_kv_not_cached();
    layer_cache::lemma_without_gone(charges, "kv_cache"@);
    assert forall|name: Seq<char>|
        text::has_prefix(name, "cache:"@) implies #[trigger] budget::charge_of(rest, name)
        == budget::charge_of(charges, name) by {
        layer_cache::lemma_without_keeps(charges, "kv_cache"@, name);
    }
    layer_cache::lemma_backed_elsewhere(entries, charges, rest);
}

proof fn lemma_kv_charged<T>(
    entries: Seq<layer_cache::EntryFacts<T>>,
    charges: Seq<budget::ChargeFacts>,
    bytes: u64,
)
    requires
        layer_cache::backed(entries, charges),
        !budget::has_charge(charges, "kv_cache"@),
    ensures
        ({
            let now = charges.push(budget::ChargeFacts { name: "kv_cache"@, bytes });
            &&& layer_cache::backed(entries, now)
            &&& budget::charge_of(now, "kv_cache"@) == Some(bytes)
        }),
{
    let now = charges.push(budget::ChargeFacts { name: "kv_cache"@, bytes });
    lemma_kv_not_cached();
    budget::lemma_new_charge(charges, "kv_cache"@, bytes, "kv_cache"@);
    assert forall|name: Seq<char>|
        text::has_prefix(name, "cache:"@) implies #[trigger] budget::charge_of(now, name)
        == budget::charge_of(charges, name) by {
        budget::lemma_new_charge(charges, "kv_cache"@, bytes, name);
    }
    layer_cache::lemma_backed_elsewhere(entries, charges, now);
}

/// The names of scoped buffers are neither the KV cache's nor the layer cache's.
proof fn lemma_temp_name(name: Seq<char>)
    requires
        text::has_prefix(name, "tmp:"@),
    ensures
        name != "kv_cache"@,
        !text::has_prefix(name, "cache:"@),
{
    reveal_strlit("kv_cache");
    reveal_strlit("cache:");
    reveal_strlit("tmp:");
    assert(name.subrange(0, 4)[0] == "tmp:"@[0]);
    assert(name[0] == 't');
    assert("kv_cache"@[0] == 'k');
    if text::has_prefix(name, "cache:"@) {
        assert(name.subrange(0, 6)[0] == "cache:"@[0]);
    }
}

proof fn lemma_temp_charged<T>(
    entries: Seq<layer_cache::EntryFacts<T>>,
    charges: Seq<budget::ChargeFacts>,
    name: Seq<char>,
    bytes: u64,
)
    requires
        layer_cache::backed(entries, charges),
        !budget::has_charge(charges, name),
        name != "kv_cache"@,
        !text::has_prefix(name, "cache:"@),
    ensures
        ({
            let now = charges.push(budget::ChargeFacts { name, bytes });
            &&& layer_cache::backed(entries, now)
            &&& budget::charge_of(now, "kv_cache"@) == budget::charge_of(charges, "kv_cache"@)
        }),
{
    let now = charges.push(budget::ChargeFacts { name, bytes });
    budget::lemma_new_charge(charges, name, bytes, "kv_cache"@);
    assert forall|other: Seq<char>|
        text::has_prefix(other, "cache:"@) implies #[trigger] budget::charge_of(now, other)
        == budget::charge_of(charges, other) by {
        budget::lemma_new_charge(charges, name, bytes, other);
    }
    layer_cache::lemma_backed_elsewhere(entries, charges, now);
}

proof fn lemma_temp_released<T>(
    entries: Seq<layer_cache::EntryFacts<T>>,
    charges: Seq<budget::ChargeFacts>,
    name: Seq<char>,
)
    requires
        layer_cache::backed(entries, charges),
        name != "kv_cache"@,
        !text::has_prefix(name, "cache:"@),
    ensures
        ({
            let rest = layer_cache::without_charge(charges, name);
            &&& layer_cache::backed(entries, rest)
            &&& budget::charge_of(rest, "kv_cache"@) == budget::charge_of(charges, "kv_cache"@)
        }),
{
    let rest = layer_cache::without_charge(charges, name);
    layer_cache::lemma_without_gone(charges, name);
    layer_cache::lemma_without_keeps(charges, name, "kv_cache"@);
    assert forall|other: Seq<char>|
        text::has_prefix(other, "cache:"@) implies #[trigger] budget::charge_of(rest, other)
        == budget::charge_of(charges, other) by {
        layer_cache::lemma_without_keeps(charges, name, other);
    }
    layer_cache::lemma_backed_elsewhere(entries, charges, rest);
}

/// Charges that do not outlive a run: scoped buffers, layers in flight and cached
/// layers.
pub open spec fn passes(name: Seq<char>) -> bool {
    text::has_prefix(name, "tmp:"@) || text::has_prefix(name, "layer:"@) || text::has_prefix(
        name,
        "cache:"@,
    )
}

/// Charges that runs make: those that pass, and that of the KV cache.
pub open spec fn made_by_runs(name: Seq<char>) -> bool {
    name == "kv_cache"@ || passes(name)
}

/// The charges without those that pass.
pub open spec fn settled(charges: Seq<budget::ChargeFacts>) -> Seq<budget::ChargeFacts> {
    budget::kept_charges(charges, |name: Seq<char>| passes(name))
}

/// The charges without those that runs make.
pub open spec fn lasting(charges: Seq<budget::ChargeFacts>) -> Seq<budget::ChargeFacts> {
    budget::kept_charges(charges, |name: Seq<char>| made_by_runs(name))
}

proof fn lemma_kv_does_not_pass()
    ensures
        !passes("kv_cache"@),
{
    lemma_kv_not_cached();
    if text::has_prefix("kv_cache"@, "tmp:"@) {
        lemma_temp_name("kv_cache"@);
    }
    reveal_strlit("kv_cache");
    reveal_strlit("layer:");
    if text::has_prefix("kv_cache"@, "layer:"@) {
        assert("kv_cache"@.subrange(0, "layer:"@.len() as int)[0] == 'k');
        assert("layer:"@[0] == 'l');
    }
}

/// Making or releasing a charge of a run keeps the lasting charges.
pub proof fn lemma_run_charge_passes(
    charges: Seq<budget::ChargeFacts>,
    name: Seq<char>,
    bytes: u64,
)
    requires
        made_by_runs(name),
    ensures
        lasting(charges.push(budget::ChargeFacts { name, bytes })) == lasting(charges),
        lasting(layer_cache::without_charge(charges, name)) == lasting(charges),
{
    let gone = |other: Seq<char>| made_by_runs(other);
    budget::lemma_kept_push(charges, budget::ChargeFacts { name, bytes }, gone);
    layer_cache::lemma_kept_without(charges, name, gone);
}

/// Evicting cached layers keeps the lasting charges.
pub proof fn lemma_eviction_passes<T>(
    entries: Seq<layer_cache::EntryFacts<T>>,
    charges: Seq<budget::ChargeFacts>,
    count: nat,
)
    requires
        layer_cache::backed(entries, charges),
    ensures
        lasting(layer_cache::evicted(entries, charges, count).charges) == lasting(charges),
        settled(layer_cache::evicted(entries, charges, count).charges) == settled(charges),
{
    layer_cache::lemma_kept_evicted(
        entries,
        charges,
        count,
        |name: Seq<char>| made_by_runs(name),
    );
    layer_cache::lemma_kept_evicted(entries, charges, count, |name: Seq<char>| passes(name));
}

/// Caching a loaded layer keeps the lasting charges, whatever comes of it.
pub proof fn lemma_insertion_passes<T>(
    cache: layer_cache::CacheFacts<T>,
    charges: Seq<budget::ChargeFacts>,
    layer_index: usize,
    bytes: u64,
)
    requires
        layer_cache::backed(cache.entries, charges),
    ensures
        ({
            let from = layer_cache::active_prefix(layer_index);
            let to = layer_cache::cache_prefix(layer_index);
            let room = layer_cache::room_made(cache, charges, layer_index, bytes).charges;
            &&& lasting(room) == lasting(charges)
            &&& lasting(budget::renamed_all(room, from, to)) == lasting(charges)
            &&& lasting(budget::without_prefix(room, from)) == lasting(charges)
        }),
{
    layer_cache::lemma_kept_inserted(
        cache,
        charges,
        layer_index,
        bytes,
        |name: Seq<char>| made_by_runs(name),
    );
}

/// Releasing the three prefixes settles the charges.
proof fn lemma_settled(charges: Seq<budget::ChargeFacts>)
    ensures
        budget::without_prefix(
            budget::without_prefix(budget::without_prefix(charges, "tmp:"@), "layer:"@),
            "cache:"@,
        ) == settled(charges),
{
    let temp = |name: Seq<char>| text::has_prefix(name, "tmp:"@);
    let layer = |name: Seq<char>| text::has_prefix(name, "layer:"@);
    let cache = |name: Seq<char>| text::has_prefix(name, "cache:"@);
    let two = |name: Seq<char>| temp(name) || layer(name);
    let all = |name: Seq<char>| passes(name);
    let first = budget::without_prefix(charges, "tmp:"@);
    let second = budget::without_prefix(first, "layer:"@);
    budget::lemma_kept_prefix(charges, "tmp:"@);
    budget::lemma_kept_prefix(first, "layer:"@);
    budget::lemma_kept_prefix(second, "cache:"@);
    budget::lemma_kept_twice(charges, temp, layer, two);
    budget::lemma_kept_twice(charges, two, cache, all);
}

/// Settled charges without that of the KV cache are the lasting ones.
proof fn lemma_settled_lasting(charges: Seq<budget::ChargeFacts>)
    requires
        budget::names_distinct(charges),
    ensures
        layer_cache::without_charge(settled(charges), "kv_cache"@) == lasting(charges),
        lasting(settled(charges)) == lasting(charges),
        budget::names_distinct(settled(charges)),
        budget::charge_of(settled(charges), "kv_cache"@) == budget::charge_of(
            charges,
            "kv_cache"@,
        ),
        forall|name: Seq<char>| passes(name) ==> !#[trigger] budget::has_charge(
            settled(charges),
            name,
        ),
        forall|name: Seq<char>| made_by_runs(name) ==> !#[trigger] budget::has_charge(
            lasting(charges),
            name,
        ),
{
    let all = |name: Seq<char>| passes(name);
    let cache = |name: Seq<char>| name == "kv_cache"@;
    let made = |name: Seq<char>| made_by_runs(name);
    let calm = settled(charges);
    lemma_kv_does_not_pass();
    budget::lemma_kept_charge_of(charges, all, "kv_cache"@);
    let left = layer_cache::without_charge(calm, "kv_cache"@);
    layer_cache::lemma_without_gone(calm, "kv_cache"@);
    layer_cache::lemma_kept_without(calm, "kv_cache"@, cache);
    assert forall|i: int| 0 <= i < left.len() implies !cache((#[trigger] left[i]).name) by {
        budget::lemma_charge_position(left, "kv_cache"@);
        if left[i].name == "kv_cache"@ {
            budget::lemma_charge_at(left, i);
        }
    }
    budget::lemma_kept_names(left, cache);
    budget::lemma_kept_twice(charges, all, cache, made);
    budget::lemma_kept_twice(charges, all, made, made);
    assert forall|name: Seq<char>| passes(name) implies !#[trigger] budget::has_charge(
        calm,
        name,
    ) by {
        budget::lemma_kept_has_none(charges, all, name);
    }
    assert forall|name: Seq<char>| made_by_runs(name) implies !#[trigger] budget::has_charge(
        lasting(charges),
        name,
    ) by {
        budget::lemma_kept_has_none(charges, made, name);
    }
}

/// A scoped buffer that is opened and closed leaves the charges as they were.
pub proof fn lemma_temp_leaves_nothing(
    charges: Seq<budget::ChargeFacts>,
    name: Seq<char>,
    bytes: u64,
)
    requires
        budget::names_distinct(charges),
        !budget::has_charge(charges, name),
    ensures
        layer_cache::without_charge(
            charges.push(budget::ChargeFacts { name, bytes }),
            name,
        ) == charges,
{
    budget::lemma_release_undoes_allocate(charges, name, bytes);
}

/// The capacity that the KV cache grows to for one more token at `position`.
pub open spec fn grown_capacity(position: int, needed_len: int) -> int {
    let aligned = kv_cache::chunk_aligned(position + 1);
    if aligned <= needed_len {
        aligned
    } else {
        needed_len
    }
}

pub open spec fn grow_message(
    capacity: nat,
    target: nat,
    old_bytes: nat,
    new_bytes: nat,
    error: MemoryError,
) -> Seq<char> {
    "RAM budget too small to grow KV cache from "@ + text::decimal(capacity) + " to "@
        + text::decimal(target) + " tokens ("@ + text::decimal(old_bytes) + " -> "@ + text::decimal(
        new_bytes,
    ) + " bytes): "@ + error.spec_message()
}

pub open spec fn initial_message(
    bytes: nat,
    config: LlamaConfig,
    prompt: nat,
    error: MemoryError,
) -> Seq<char> {
    "RAM budget too small for initial KV cache: need "@ + text::decimal(bytes) + " bytes ("@
        + text::decimal(config.block_count as nat) + " layers, "@ + text::decimal(
        config.head_count_kv as nat,
    ) + " kv_heads, head_dim "@ + text::decimal(config.head_dim as nat) + ", "@ + text::decimal(
        prompt,
    ) + " prompt tokens): "@ + error.spec_message()
}

impl<T> InferenceEngine<T> {
    /// The parts are sound, and the layer cache has its charges.
    pub open spec fn parts_wf(&self) -> bool {
        &&& self.budget.wf()
        &&& self.layer_cache.wf()
        &&& layer_cache::backed(self.layer_cache@.entries, self.budget@.charges)
    }

    /// The engine has an active KV cache exactly where the budget has a
    /// `kv_cache` charge, which is for the cache's bytes.
    pub open spec fn wf(&self) -> bool {
        &&& self.parts_wf()
        &&& match self.kv_cache {
            None => !budget::has_charge(self.budget@.charges, "kv_cache"@),
            Some(cache) => {
                &&& cache.wf()
                &&& cache.spec_total_bytes() <= usize::MAX
                &&& budget::charge_of(self.budget@.charges, "kv_cache"@) == Some(
                    cache.spec_total_bytes() as u64,
                )
            },
        }
    }

    /// Everything but the KV cache, the layer cache and the budget is the same.
    pub open spec fn same_setup(&self, other: &InferenceEngine<T>) -> bool {
        &&& self.config == other.config
        &&& self.runtime_config == other.runtime_config
        &&& self.total_weight_bytes == other.total_weight_bytes
        &&& self.residency_stats == other.residency_stats
        &&& self.profiler == other.profiler
        &&& self.layer_cache@.capacity_bytes == other.layer_cache@.capacity_bytes
        &&& self.budget@.total == other.budget@.total
    }

    /// An engine over loaded weights. Without a requested configuration the
    /// defaults for the backend's threads and the cache capacity are taken.
    pub fn assemble(
        config: LlamaConfig,
        budget: MemoryBudget,
        layer_cache_capacity_bytes: u64,
        total_weight_bytes: u64,
        requested_config: Option<RuntimeConfig>,
        backend_threads: usize,
    ) -> (result: Result<Self, String>)
        requires
            budget.wf(),
            !budget::has_charge(budget@.charges, "kv_cache"@),
        ensures
            match requested_config {
                Some(requested) => result is Ok && result->Ok_0.runtime_config == requested,
                None => {
                    let defaults = runtime_config::checked_config(
                        RuntimeConfig {
                            cpu_thread_count: backend_threads,
                            ram_budget_bytes: budget@.total,
                            layer_cache_enabled: layer_cache_capacity_bytes > 0,
                            layer_cache_capacity_bytes,
                            read_coalescing_enabled: true,
                            grouped_read_buffer_reuse_enabled: true,
                            execution_device: runtime_config::RuntimeExecutionDevice::Cpu,
                        },
                    );
                    match defaults {
                        Ok(defaults) => result is Ok && result->Ok_0.runtime_config == defaults,
                        Err(error) => text::text_result(result) == Err::<Self, Seq<char>>(
                            "failed to materialize runtime defaults: "@ + error.spec_message(),
                        ),
                    }
                },
            },
            result matches Ok(engine) ==> {
                &&& engine.wf()
                &&& engine.config == config
                &&& engine.kv_cache is None
                &&& engine.budget == budget
                &&& engine.layer_cache@ == (layer_cache::CacheFacts::<T> {
                    capacity_bytes: layer_cache_capacity_bytes,
                    entries: Seq::empty(),
                })
                &&& engine.total_weight_bytes == total_weight_bytes
                &&& engine.residency_stats == residency::no_residency(total_weight_bytes)
                &&& !engine.profiler.spec_enabled()
                &&& engine.profiler.spec_counters() == profile::no_profile()
            },
    {
        let runtime_config = match requested_config {
            Some(requested) => requested,
            None => match RuntimeConfig::current_defaults_with_thread_count(
                backend_threads,
                budget.total_bytes(),
                layer_cache_capacity_bytes,
            ) {
                Ok(defaults) => defaults,
                Err(error) => {
                    let mut message = "failed to materialize runtime defaults: ".to_owned();
                    message.append(error.message().as_str());
                    return Err(message);
                },
            },
        };
        proof {
            budget.lemma_wf();
        }
        Ok(
            InferenceEngine {
                config,
                kv_cache: None,
                layer_cache: LayerCache::new(layer_cache_capacity_bytes),
                budget,
                runtime_config,
                total_weight_bytes,
                residency_stats: ResidencyStats::new(total_weight_bytes),
                profiler: Profiler::new(),
            },
        )
    }

    pub fn config(&self) -> (config: &LlamaConfig)
        ensures
            *config == self.config,
    {
        &self.config
    }

    pub fn runtime_config(&self) -> (config: &RuntimeConfig)
        ensures
            *config == self.runtime_config,
    {
        &self.runtime_config
    }

    pub fn set_profiling(&mut self, enabled: bool)
        ensures
            final(self).profiler.spec_enabled() == enabled,
            final(self).profiler.spec_counters() == old(self).profiler.spec_counters(),
            *final(self) == (InferenceEngine { profiler: final(self).profiler, ..*old(self) }),
    {
        self.profiler.set_enabled(enabled);
    }

    /// The run's counters beside the data source's, the tensors ordered by bytes
    /// read, and the budget.
    pub fn generation_profile(&self, io: IoProfile, tensor_reads: &Vec<TensorReadProfile>)
        -> (profile: GenerationProfile)
        requires
            self.budget.wf(),
        ensures
            profile.runtime == self.profiler.spec_counters(),
            profile.io == io,
            read_facts(profile.tensor_reads@) == ordered_reads(read_facts(tensor_reads@)),
            profile.layer_cache_capacity_bytes == self.layer_cache@.capacity_bytes,
            profile.ramforge_current_bytes == self.budget@.used(),
            profile.ramforge_peak_bytes == self.budget@.peak,
            profile.ramforge_budget_bytes == self.budget@.total,
    {
        GenerationProfile {
            runtime: self.profiler.snapshot(),
            io,
            tensor_reads: order_reads(tensor_reads),
            layer_cache_capacity_bytes: self.layer_cache.capacity_bytes(),
            ramforge_current_bytes: self.budget.used_bytes(),
            ramforge_peak_bytes: self.budget.peak_used_bytes(),
            ramforge_budget_bytes: self.budget.total_bytes(),
        }
    }

    pub fn memory_report(&self, process_status: Option<&str>, memory_listing: Option<&str>)
        -> (report: MemoryReport)
        requires
            self.budget.wf(),
        ensures
            report.ramforge_current_bytes == self.budget@.used(),
            report.ramforge_peak_bytes == self.budget@.peak,
            report.ramforge_budget_bytes == self.budget@.total,
            report.process_rss_bytes == memory_report::content_bytes(process_status, "VmRSS:"@),
            report.system_total_bytes == memory_report::content_bytes(
                memory_listing,
                "MemTotal:"@,
            ),
            report.system_available_bytes == memory_report::content_bytes(
                memory_listing,
                "MemAvailable:"@,
            ),
    {
        MemoryReport::collect(&self.budget, process_status, memory_listing)
    }

    /// Drop any live KV cache together with its budget charge (idempotent).
    ///
    /// Guarantees the invariant "engine has an active KV cache" <=>
    /// "a `kv_cache` charge exists in the budget". After this call the
    /// engine can start (or retry) a generation from a clean state.
    pub fn clear_kv_cache(&mut self)
        requires
            old(self).parts_wf(),
        ensures
            final(self).wf(),
            final(self).kv_cache is None,
            final(self).same_setup(old(self)),
            final(self).layer_cache == old(self).layer_cache,
            final(self).budget@ == (budget::BudgetFacts {
                charges: layer_cache::without_charge(old(self).budget@.charges, "kv_cache"@),
                ..old(self).budget@
            }),
            lasting(final(self).budget@.charges) == lasting(old(self).budget@.charges),
    {
        proof {
            lemma_kv_released(self.layer_cache@.entries, self.budget@.charges);
            lemma_run_charge_passes(self.budget@.charges, "kv_cache"@, 0);
        }
        self.kv_cache = None;
        if self.budget.get("kv_cache").is_some() {
            let _ = self.budget.release("kv_cache");
        }
    }

    /// Evicts every cached layer.
    pub fn clear_layer_cache(&mut self) -> (result: Result<(), String>)
        requires
            old(self).wf(),
        ensures
            result is Ok,
            final(self).wf(),
            final(self).same_setup(old(self)),
            final(self).kv_cache == old(self).kv_cache,
            final(self).layer_cache@.entries.len() == 0,
            final(self).budget@.charges == layer_cache::evicted(
                old(self).layer_cache@.entries,
                old(self).budget@.charges,
                old(self).layer_cache@.entries.len(),
            ).charges,
            final(self).budget@.peak == old(self).budget@.peak,
            lasting(final(self).budget@.charges) == lasting(old(self).budget@.charges),
    {
        proof {
            let entries = self.layer_cache@.entries;
            let charges = self.budget@.charges;
            lemma_kv_not_cached();
            lemma_eviction_passes(entries, charges, entries.len());
            layer_cache::lemma_evicted_backed(entries, charges, entries.len());
            layer_cache::lemma_evicted_elsewhere(entries, charges, entries.len(), "kv_cache"@);
            lemma_all_evicted(entries, charges);
        }
        match self.layer_cache.clear(&mut self.budget) {
            Ok(_) => Ok(()),
            Err(error) => Err(error),
        }
    }

    /// Explicit reset of any previous run's KV and cached-layer state.
    pub fn reset(&mut self) -> (result: Result<(), String>)
        requires
            old(self).parts_wf(),
        ensures
            result is Ok,
            final(self).wf(),
            final(self).kv_cache is None,
            final(self).layer_cache@.entries.len() == 0,
            final(self).layer_cache@.capacity_bytes == old(self).layer_cache@.capacity_bytes,
            final(self).budget@.total == old(self).budget@.total,
            final(self).budget@.peak == old(self).budget@.peak,
            final(self).budget@.charges == layer_cache::evicted(
                old(self).layer_cache@.entries,
                layer_cache::without_charge(old(self).budget@.charges, "kv_cache"@),
                old(self).layer_cache@.entries.len(),
            ).charges,
            lasting(final(self).budget@.charges) == lasting(old(self).budget@.charges),
            final(self).profiler.spec_counters() == profile::no_profile(),
            final(self).profiler.spec_enabled() == old(self).profiler.spec_enabled(),
            final(self).config == old(self).config,
            final(self).runtime_config == old(self).runtime_config,
            final(self).residency_stats == old(self).residency_stats,
            final(self).total_weight_bytes == old(self).total_weight_bytes,
    {
        self.clear_kv_cache();
        match self.clear_layer_cache() {
            Ok(()) => {},
            Err(error) => {
                return Err(error);
            },
        }
        self.profiler.reset();
        Ok(())
    }

    /// The error that keeps a run from starting.
    pub open spec fn start_error(&self, prompt: int, max_tokens: int) -> Option<Seq<char>> {
        let config = self.config;
        match prompt_error(prompt, max_tokens, config.context_length as int) {
            Some(message) => Some(message),
            None => if config.block_count == 0 || config.head_count_kv == 0 || config.head_dim
                == 0 {
                Some("failed to create KV cache: invalid KV cache dimensions"@)
            } else {
                let bytes = kv_cache::layer_bytes(
                    prompt,
                    config.head_count_kv as int,
                    config.head_dim as int,
                ) * config.block_count;
                if bytes > self.budget@.available() {
                    Some(
                        initial_message(
                            bytes as nat,
                            config,
                            prompt as nat,
                            MemoryError::InsufficientMemory {
                                requested: bytes as u64,
                                available: self.budget@.available() as u64,
                            },
                        ),
                    )
                } else {
                    None
                }
            },
        }
    }

    /// Starts a run: checks the prompt against the context length, and creates
    /// and charges a KV cache for the prompt.
    pub fn start_run(
        &mut self,
        prompt_tokens: usize,
        max_tokens: usize,
        eos_token_id: Option<u32>,
        sampler: &Sampler,
    ) -> (result: Result<GenerationRun, String>)
        requires
            old(self).wf(),
            old(self).kv_cache is None,
            prompt_tokens + max_tokens <= usize::MAX,
            prompt_error(
                prompt_tokens as int,
                max_tokens as int,
                old(self).config.context_length as int,
            ) is None ==> kv_cache::layer_bytes(
                prompt_tokens as int,
                old(self).config.head_count_kv as int,
                old(self).config.head_dim as int,
            ) * old(self).config.block_count <= usize::MAX,
        ensures
            final(self).wf(),
            final(self).same_setup(old(self)),
            final(self).layer_cache == old(self).layer_cache,
            lasting(final(self).budget@.charges) == lasting(old(self).budget@.charges),
            match old(self).start_error(prompt_tokens as int, max_tokens as int) {
                Some(message) => {
                    &&& text::text_result(result) == Err::<GenerationRun, Seq<char>>(message)
                    &&& final(self).kv_cache is None
                    &&& final(self).budget@ == old(self).budget@
                },
                None => {
                    &&& result is Ok
                    &&& result->Ok_0.wf()
                    &&& result->Ok_0.ready()
                    &&& result->Ok_0.prompt_tokens == prompt_tokens
                    &&& result->Ok_0.prompt_done == 0
                    &&& result->Ok_0.max_tokens == max_tokens
                    &&& result->Ok_0.context_length == old(self).config.context_length
                    &&& result->Ok_0.eos_token_id == eos_token_id
                    &&& result->Ok_0.sampler_is_stateless == (sampler.is_greedy()
                        && sampler.top_k is None && sampler.top_p_bits is None)
                    &&& result->Ok_0.generated@.len() == 0
                    &&& result->Ok_0.stop == (if max_tokens == 0 {
                        Some(StopReason::MaxTokens)
                    } else {
                        None
                    })
                    &&& result->Ok_0.residency_stats == residency::no_residency(
                        old(self).total_weight_bytes,
                    ).managing(final(self).budget@.used() as u64)
                    &&& final(self).kv_cache matches Some(cache)
                    &&& cache.n_layers == old(self).config.block_count
                    &&& cache.n_kv_heads == old(self).config.head_count_kv
                    &&& cache.head_dim == old(self).config.head_dim
                    &&& cache.max_seq_len == prompt_tokens
                    &&& cache.seq_len == 0
                    &&& final(self).budget@.charges == old(self).budget@.charges.push(
                        budget::ChargeFacts {
                            name: "kv_cache"@,
                            bytes: cache.spec_total_bytes() as u64,
                        },
                    )
                    &&& final(self).budget@.peak == budget::larger(
                        old(self).budget@.peak,
                        final(self).budget@.used(),
                    )
                },
            },
    {
        match check_prompt(prompt_tokens, max_tokens, self.config.context_length) {
            Ok(()) => {},
            Err(error) => {
                return Err(error);
            },
        }
        proof {
            let layers = self.config.block_count as int;
            let bytes = kv_cache::layer_bytes(
                prompt_tokens as int,
                self.config.head_count_kv as int,
                self.config.head_dim as int,
            );
            if layers > 0 {
                assert(bytes <= bytes * layers || bytes < 0) by (nonlinear_arith)
                    requires
                        1 <= layers,
                ;
            }
        }
        let cache = match KvCache::new(
            self.config.block_count,
            self.config.head_count_kv,
            self.config.head_dim,
            prompt_tokens,
        ) {
            Ok(cache) => cache,
            Err(error) => {
                let mut message = "failed to create KV cache: ".to_owned();
                message.append(error.as_str());
                proof {
                    reveal_strlit("failed to create KV cache: ");
                    reveal_strlit("invalid KV cache dimensions");
                    reveal_strlit("failed to create KV cache: invalid KV cache dimensions");
                    assert(message@ =~= "failed to create KV cache: invalid KV cache dimensions"@);
                }
                return Err(message);
            },
        };
        let kv_bytes: u64 = cache.total_bytes() as u64;
        proof {
            lemma_kv_charged(self.layer_cache@.entries, self.budget@.charges, kv_bytes);
            lemma_run_charge_passes(self.budget@.charges, "kv_cache"@, kv_bytes);
            budget::lemma_charged_push(self.budget@.charges, "kv_cache"@, kv_bytes);
        }
        match self.budget.allocate("kv_cache", kv_bytes) {
            Ok(()) => {},
            Err(error) => {
                let mut message = "RAM budget too small for initial KV cache: need ".to_owned();
                text::push_decimal(&mut message, kv_bytes);
                message.append(" bytes (");
                text::push_decimal(&mut message, self.config.block_count as u64);
                message.append(" layers, ");
                text::push_decimal(&mut message, self.config.head_count_kv as u64);
                message.append(" kv_heads, head_dim ");
                text::push_decimal(&mut message, self.config.head_dim as u64);
                message.append(", ");
                text::push_decimal(&mut message, prompt_tokens as u64);
                message.append(" prompt tokens): ");
                message.append(error.message().as_str());
                return Err(message);
            },
        }
        self.kv_cache = Some(cache);
        let mut residency_stats = ResidencyStats::new(self.total_weight_bytes);
        residency_stats.update_managed(self.budget.used_bytes());
        Ok(
            GenerationRun {
                prompt_tokens,
                prompt_done: 0,
                max_tokens,
                context_length: self.config.context_length,
                eos_token_id,
                sampler_is_stateless: sampler.is_stateless(),
                generated: Vec::new(),
                position: prompt_tokens,
                stop: if max_tokens == 0 {
                    Some(StopReason::MaxTokens)
                } else {
                    None
                },
                residency_stats,
            },
        )
    }

    /// What evicting for the grown cache leads to.
    pub open spec fn growth_evictions(&self, new_bytes: u64) -> layer_cache::Evicted<T> {
        let released = layer_cache::without_charge(self.budget@.charges, "kv_cache"@);
        layer_cache::evicted(
            self.layer_cache@.entries,
            released,
            layer_cache::headroom_count(
                self.layer_cache@.entries,
                released,
                self.budget@.total,
                new_bytes,
            ),
        )
    }

    /// Makes room in the KV cache for a token at `position`: chunk-wise growth
    /// with deterministic rollback. The old charge is released, cached layers
    /// give way, and the new charge is tried; if it fails, the old charge is
    /// restored so the budget stays consistent.
    pub fn ensure_kv_room(&mut self, position: usize, needed_len: usize) -> (result: Result<
        (),
        String,
    >)
        requires
            old(self).wf(),
            old(self).kv_cache is Some,
            position < needed_len,
            kv_cache::chunk_aligned(position + 1) <= usize::MAX,
            old(self).kv_cache->0.spec_bytes_for_tokens(needed_len as int) <= usize::MAX,
        ensures
            final(self).wf(),
            final(self).same_setup(old(self)),
            final(self).kv_cache is Some,
            lasting(final(self).budget@.charges) == lasting(old(self).budget@.charges),
            ({
                let before = old(self).kv_cache->0;
                let after = final(self).kv_cache->0;
                let target = grown_capacity(position as int, needed_len as int);
                let old_bytes = before.spec_total_bytes() as u64;
                let new_bytes = before.spec_bytes_for_tokens(target) as u64;
                let gone = old(self).growth_evictions(new_bytes);
                if position + 1 <= before.max_seq_len {
                    &&& result is Ok
                    &&& after == before
                    &&& final(self).layer_cache == old(self).layer_cache
                    &&& final(self).budget@ == old(self).budget@
                } else {
                    &&& final(self).layer_cache@.entries == gone.entries
                    &&& result is Ok <==> budget::charged(gone.charges) + new_bytes
                        <= old(self).budget@.total
                    &&& result is Ok ==> {
                        &&& after.same_shape(&before)
                        &&& after.max_seq_len == target
                        &&& final(self).budget@.charges == gone.charges.push(
                            budget::ChargeFacts { name: "kv_cache"@, bytes: new_bytes },
                        )
                        &&& final(self).budget@.peak == budget::larger(
                            old(self).budget@.peak,
                            final(self).budget@.used(),
                        )
                        &&& forall|i: int|
                            0 <= i < before.n_layers ==> (#[trigger] after.k_rows()[i])
                                == kv_cache::extended(
                                before.k_rows()[i],
                                (target * before.width()) as nat,
                            )
                        &&& forall|i: int|
                            0 <= i < before.n_layers ==> (#[trigger] after.v_rows()[i])
                                == kv_cache::extended(
                                before.v_rows()[i],
                                (target * before.width()) as nat,
                            )
                    }
                    &&& result matches Err(message) ==> {
                        &&& after == before
                        &&& final(self).budget@.charges == gone.charges.push(
                            budget::ChargeFacts { name: "kv_cache"@, bytes: old_bytes },
                        )
                        &&& final(self).budget@.peak == old(self).budget@.peak
                        &&& message@ == grow_message(
                            before.max_seq_len as nat,
                            target as nat,
                            old_bytes as nat,
                            new_bytes as nat,
                            MemoryError::InsufficientMemory {
                                requested: new_bytes,
                                available: (old(self).budget@.total - budget::charged(
                                    gone.charges,
                                )) as u64,
                            },
                        )
                    }
                }
            }),
    {
        let mut cache = match self.kv_cache.take() {
            Some(cache) => cache,
            None => {
                return Ok(());
            },
        };
        if position + 1 <= cache.capacity_tokens() {
            self.kv_cache = Some(cache);
            return Ok(());
        }
        let ghost entries = self.layer_cache@.entries;
        let ghost charges = self.budget@.charges;
        let ghost before = cache;
        let mut target: usize = cache.chunk_aligned_capacity(position + 1);
        if target > needed_len {
            target = needed_len;
        }
        proof {
            kv_cache::lemma_chunk_aligned(position + 1);
            kv_cache::lemma_bytes_grow(cache, target as int, needed_len as int);
            kv_cache::lemma_bytes_grow(cache, target as int, target as int);
        }
        let old_bytes: u64 = cache.total_bytes() as u64;
        let new_bytes: u64 = cache.bytes_for_tokens(target) as u64;
        let ghost released = layer_cache::without_charge(charges, "kv_cache"@);
        let ghost count = layer_cache::headroom_count(
            entries,
            released,
            self.budget@.total,
            new_bytes,
        );
        let ghost gone = layer_cache::evicted(entries, released, count);
        proof {
            lemma_kv_not_cached();
            lemma_kv_released(entries, charges);
            layer_cache::lemma_evicted_backed(entries, released, count);
            layer_cache::lemma_evicted_elsewhere(entries, released, count, "kv_cache"@);
            layer_cache::lemma_evicted_shrinks(entries, released, count);
            lemma_kv_charged(gone.entries, gone.charges, old_bytes);
            lemma_kv_charged(gone.entries, gone.charges, new_bytes);
            lemma_run_charge_passes(charges, "kv_cache"@, 0);
            lemma_eviction_passes(entries, released, count);
            lemma_run_charge_passes(gone.charges, "kv_cache"@, old_bytes);
            lemma_run_charge_passes(gone.charges, "kv_cache"@, new_bytes);
            budget::lemma_charged_push(gone.charges, "kv_cache"@, old_bytes);
            budget::lemma_charged_push(gone.charges, "kv_cache"@, new_bytes);
            self.budget.lemma_wf();
        }
        let _ = self.budget.release("kv_cache");
        match self.layer_cache.evict_until_available(&mut self.budget, new_bytes) {
            Ok(_) => {},
            Err(error) => {
                let _ = self.budget.allocate("kv_cache", old_bytes);
                self.kv_cache = Some(cache);
                return Err(error);
            },
        }
        match self.budget.allocate("kv_cache", new_bytes) {
            Ok(()) => {},
            Err(error) => {
                let _ = self.budget.allocate("kv_cache", old_bytes);
                let mut message = "RAM budget too small to grow KV cache from ".to_owned();
                text::push_decimal(&mut message, cache.capacity_tokens() as u64);
                message.append(" to ");
                text::push_decimal(&mut message, target as u64);
                message.append(" tokens (");
                text::push_decimal(&mut message, old_bytes);
                message.append(" -> ");
                text::push_decimal(&mut message, new_bytes);
                message.append(" bytes): ");
                message.append(error.message().as_str());
                self.kv_cache = Some(cache);
                return Err(message);
            },
        }
        let _ = cache.grow_to(target);
        proof {
            kv_cache::lemma_charge_in_lockstep(cache);
        }
        self.kv_cache = Some(cache);
        Ok(())
    }

    /// Lets cached layers give way until `bytes` can be charged, or none is left.
    pub fn make_room(&mut self, bytes: u64) -> (result: Result<(), String>)
        requires
            old(self).wf(),
        ensures
            result is Ok,
            final(self).wf(),
            final(self).same_setup(old(self)),
            final(self).kv_cache == old(self).kv_cache,
            final(self).budget@.peak == old(self).budget@.peak,
            lasting(final(self).budget@.charges) == lasting(old(self).budget@.charges),
            ({
                let gone = layer_cache::evicted(
                    old(self).layer_cache@.entries,
                    old(self).budget@.charges,
                    layer_cache::headroom_count(
                        old(self).layer_cache@.entries,
                        old(self).budget@.charges,
                        old(self).budget@.total,
                        bytes,
                    ),
                );
                &&& final(self).layer_cache@.entries == gone.entries
                &&& final(self).budget@.charges == gone.charges
            }),
    {
        proof {
            let entries = self.layer_cache@.entries;
            let charges = self.budget@.charges;
            let count = layer_cache::headroom_count(entries, charges, self.budget@.total, bytes);
            lemma_kv_not_cached();
            lemma_eviction_passes(entries, charges, count);
            layer_cache::lemma_evicted_backed(entries, charges, count);
            layer_cache::lemma_evicted_elsewhere(entries, charges, count, "kv_cache"@);
        }
        match self.layer_cache.evict_until_available(&mut self.budget, bytes) {
            Ok(_) => Ok(()),
            Err(error) => Err(error),
        }
    }

    /// Charges a scoped buffer under a name of its own.
    pub fn open_temp(&mut self, name: &str, bytes: u64) -> (result: Result<(), String>)
        requires
            old(self).wf(),
            text::has_prefix(name@, "tmp:"@),
        ensures
            final(self).wf(),
            final(self).same_setup(old(self)),
            final(self).kv_cache == old(self).kv_cache,
            final(self).layer_cache == old(self).layer_cache,
            result is Ok <==> !budget::has_charge(old(self).budget@.charges, name@) && bytes
                <= old(self).budget@.available(),
            result is Ok ==> final(self).budget@.charges == old(self).budget@.charges.push(
                budget::ChargeFacts { name: name@, bytes },
            ),
            result is Ok ==> final(self).budget@.peak == budget::larger(
                old(self).budget@.peak,
                final(self).budget@.used(),
            ),
            result is Err ==> final(self).budget@ == old(self).budget@,
            lasting(final(self).budget@.charges) == lasting(old(self).budget@.charges),
            result matches Err(message) ==> message@ == (if budget::has_charge(
                old(self).budget@.charges,
                name@,
            ) {
                "allocation '"@ + name@ + "' already exists"@
            } else {
                (MemoryError::InsufficientMemory {
                    requested: bytes,
                    available: old(self).budget@.available() as u64,
                }).spec_message()
            }),
    {
        proof {
            lemma_temp_name(name@);
            lemma_run_charge_passes(self.budget@.charges, name@, bytes);
            budget::lemma_charged_push(self.budget@.charges, name@, bytes);
            if !budget::has_charge(self.budget@.charges, name@) {
                lemma_temp_charged(
                    self.layer_cache@.entries,
                    self.budget@.charges,
                    name@,
                    bytes,
                );
            }
        }
        match self.budget.allocate(name, bytes) {
            Ok(()) => Ok(()),
            Err(error) => Err(error.message()),
        }
    }

    /// Releases a scoped buffer.
    pub fn close_temp(&mut self, name: &str)
        requires
            old(self).wf(),
            text::has_prefix(name@, "tmp:"@),
        ensures
            final(self).wf(),
            final(self).same_setup(old(self)),
            final(self).kv_cache == old(self).kv_cache,
            final(self).layer_cache == old(self).layer_cache,
            final(self).budget@.charges == layer_cache::without_charge(
                old(self).budget@.charges,
                name@,
            ),
            final(self).budget@.peak == old(self).budget@.peak,
            lasting(final(self).budget@.charges) == lasting(old(self).budget@.charges),
    {
        proof {
            lemma_temp_name(name@);
            lemma_run_charge_passes(self.budget@.charges, name@, 0);
            lemma_temp_released(self.layer_cache@.entries, self.budget@.charges, name@);
        }
        let _ = self.budget.release(name);
    }

    /// Ends a generation: cached layers are evicted and whatever scoped buffers or
    /// layers in flight are left are released. A failed run leaves no KV cache and
    /// none of its charges, so the engine stays reusable. A run that succeeded
    /// hands over its residency statistics.
    pub fn conclude(
        &mut self,
        run: Result<(GenerationOutcome, ResidencyStats), String>,
    ) -> (result: Result<GenerationOutcome, String>)
        requires
            old(self).wf(),
        ensures
            final(self).wf(),
            result is Ok <==> run is Ok,
            result matches Ok(outcome) ==> outcome == run->Ok_0.0,
            result matches Err(error) ==> error == run->Err_0,
            result is Ok ==> final(self).kv_cache == old(self).kv_cache,
            result is Err ==> final(self).kv_cache is None,
            final(self).layer_cache@.entries.len() == 0,
            final(self).layer_cache@.capacity_bytes == old(self).layer_cache@.capacity_bytes,
            result is Ok ==> final(self).budget@.charges == settled(old(self).budget@.charges),
            result is Err ==> final(self).budget@.charges == lasting(old(self).budget@.charges),
            result is Err ==> forall|name: Seq<char>|
                made_by_runs(name) ==> !#[trigger] budget::has_charge(
                    final(self).budget@.charges,
                    name,
                ),
            forall|name: Seq<char>|
                text::has_prefix(name, "tmp:"@) ==> !#[trigger] budget::has_charge(
                    final(self).budget@.charges,
                    name,
                ),
            lasting(final(self).budget@.charges) == lasting(old(self).budget@.charges),
            ({
                let managed = budget::charged(settled(old(self).budget@.charges)) as u64;
                final(self).residency_stats == (match run {
                    Ok((outcome, stats)) => stats.managing(managed),
                    Err(error) => old(self).residency_stats.managing(managed),
                })
            }),
            final(self).budget@.total == old(self).budget@.total,
            final(self).budget@.peak == old(self).budget@.peak,
            final(self).config == old(self).config,
            final(self).runtime_config == old(self).runtime_config,
            final(self).total_weight_bytes == old(self).total_weight_bytes,
            final(self).profiler == old(self).profiler,
    {
        let ghost charges = self.budget@.charges;
        let ghost entries = self.layer_cache@.entries;
        let result = match run {
            Ok((outcome, stats)) => {
                self.residency_stats = stats;
                Ok(outcome)
            },
            Err(error) => Err(error),
        };
        let cleared = self.clear_layer_cache();
        proof {
            lemma_eviction_passes(entries, charges, entries.len());
            lemma_settled(self.budget@.charges);
            self.budget.lemma_wf();
            lemma_settled_lasting(self.budget@.charges);
        }
        self.budget.release_prefix("tmp:");
        self.budget.release_prefix("layer:");
        self.budget.release_prefix("cache:");
        if cleared.is_ok() {
            self.residency_stats.update_managed(self.budget.used_bytes());
        }
        assert(self.budget@.charges == settled(charges));
        match (result, cleared) {
            (Ok(outcome), Ok(())) => Ok(outcome),
            (Err(error), _) => {
                self.clear_kv_cache();
                Err(error)
            },
            (Ok(_), Err(error)) => {
                self.clear_kv_cache();
                Err(error)
            },
        }
    }
}

/// Evicting as many entries as there are leaves none.
proof fn lemma_all_evicted<T>(
    entries: Seq<layer_cache::EntryFacts<T>>,
    charges: Seq<budget::ChargeFacts>,
)
    requires
        layer_cache::backed(entries, charges),
    ensures
        layer_cache::evicted(entries, charges, entries.len()).entries.len() == 0,
    decreases entries.len(),
{
    if entries.len() > 0 {
        layer_cache::lemma_evicted_backed(entries, charges, 1);
        reveal_with_fuel(layer_cache::evicted, 3);
        lemma_all_evicted(
            entries.drop_last(),
            layer_cache::released(charges, entries.last().charge_names),
        );
    }
}

/// A failed run keeps nothing. `before` is what was charged when the run was asked
/// for, `during` what is charged when it fails; every step of a run keeps the
/// lasting charges, and a failed run ends with them. They are what was charged
/// before, less the charge of a KV cache that an earlier run had left, and hold
/// no charge that runs make.
pub proof fn lemma_failed_run_keeps_nothing(
    before: Seq<budget::ChargeFacts>,
    during: Seq<budget::ChargeFacts>,
)
    requires
        budget::names_distinct(before),
        forall|i: int| 0 <= i < before.len() ==> !passes((#[trigger] before[i]).name),
        lasting(during) == lasting(before),
    ensures
        lasting(during) == layer_cache::without_charge(before, "kv_cache"@),
        budget::charged(lasting(during)) == budget::charged(before) - (match budget::charge_of(
            before,
            "kv_cache"@,
        ) {
            Some(bytes) => bytes as int,
            None => 0,
        }),
        forall|name: Seq<char>|
            made_by_runs(name) ==> !#[trigger] budget::has_charge(lasting(during), name),
{
    lemma_settled_lasting(before);
    budget::lemma_kept_names(before, |name: Seq<char>| passes(name));
    assert(settled(before) == before);
    budget::lemma_charge_position(before, "kv_cache"@);
    if budget::has_charge(before, "kv_cache"@) {
        budget::lemma_charged_remove(before, budget::charge_position(before, "kv_cache"@));
    }
}

/// After a failed run the engine is as usable as before it: a run is refused for
/// the same cause as it would have been then, or starts as it would have, and no
/// scoped buffer is refused as existing already.
pub proof fn lemma_failed_run_repeats<T>(
    before: InferenceEngine<T>,
    after: InferenceEngine<T>,
    prompt: int,
    max_tokens: int,
    name: Seq<char>,
)
    requires
        budget::names_distinct(before.budget@.charges),
        !budget::has_charge(before.budget@.charges, "kv_cache"@),
        forall|i: int|
            0 <= i < before.budget@.charges.len() ==> !passes(
                (#[trigger] before.budget@.charges[i]).name,
            ),
        after.budget@.charges == lasting(before.budget@.charges),
        after.budget@.total == before.budget@.total,
        after.config == before.config,
        text::has_prefix(name, "tmp:"@),
    ensures
        after.budget@.charges == before.budget@.charges,
        after.start_error(prompt, max_tokens) == before.start_error(prompt, max_tokens),
        !budget::has_charge(after.budget@.charges, name),
{
    lemma_failed_run_keeps_nothing(before.budget@.charges, before.budget@.charges);
}

/// One step of a run: what every function that a run calls keeps of the engine.
pub open spec fn run_step<T>(before: InferenceEngine<T>, after: InferenceEngine<T>) -> bool {
    &&& lasting(after.budget@.charges) == lasting(before.budget@.charges)
    &&& after.budget@.total == before.budget@.total
    &&& after.config == before.config
}

proof fn lemma_run_steps<T>(states: Seq<InferenceEngine<T>>)
    requires
        states.len() > 0,
        forall|i: int, j: int|
            #![trigger states[i], states[j]]
            0 <= i && j == i + 1 && j < states.len() ==> run_step(states[i], states[j]),
    ensures
        run_step(states[0], states.last()),
    decreases states.len(),
{
    if states.len() > 1 {
        let before = states.drop_last();
        let end = states.len() - 1;
        assert forall|i: int, j: int|
            #![trigger before[i], before[j]]
            0 <= i && j == i + 1 && j < before.len() implies run_step(before[i], before[j]) by {
            assert(before[i] == states[i] && before[j] == states[j]);
        }
        lemma_run_steps(before);
        assert(run_step(states[end - 1], states[end]));
        assert(before.last() == states[end - 1]);
    }
}

/// A generation that fails, from the call to the error. `called` is the engine
/// when it was asked for, which no run is using; `states[0]` is the engine after
/// `reset`, and every further state follows from the one before by a step;
/// `failed` is what `conclude` leaves of the last one. Then there is no KV cache
/// and no charge that runs make, what is charged is what was charged at the call
/// less the KV cache held then, and the engine is usable: the next call finds
/// every run refused for the same cause, or started, as this one did, and no
/// scoped buffer exists already.
pub proof fn lemma_failed_generation<T>(
    called: InferenceEngine<T>,
    states: Seq<InferenceEngine<T>>,
    failed: InferenceEngine<T>,
    prompt: int,
    max_tokens: int,
)
    requires
        called.wf(),
        called.layer_cache@.entries.len() == 0,
        forall|i: int|
            0 <= i < called.budget@.charges.len() ==> !passes(
                (#[trigger] called.budget@.charges[i]).name,
            ),
        states.len() > 0,
        run_step(called, states[0]),
        states[0].budget@.charges == layer_cache::evicted(
            called.layer_cache@.entries,
            layer_cache::without_charge(called.budget@.charges, "kv_cache"@),
            called.layer_cache@.entries.len(),
        ).charges,
        forall|i: int, j: int|
            #![trigger states[i], states[j]]
            0 <= i && j == i + 1 && j < states.len() ==> run_step(states[i], states[j]),
        run_step(states.last(), failed),
        failed.wf(),
        failed.kv_cache is None,
        failed.budget@.charges == lasting(states.last().budget@.charges),
    ensures
        failed.kv_cache is None,
        forall|name: Seq<char>|
            made_by_runs(name) ==> !#[trigger] budget::has_charge(
                failed.budget@.charges,
                name,
            ),
        failed.budget@.charges == states[0].budget@.charges,
        failed.budget@.used() == called.budget@.used() - (match budget::charge_of(
            called.budget@.charges,
            "kv_cache"@,
        ) {
            Some(bytes) => bytes as int,
            None => 0,
        }),
        failed.start_error(prompt, max_tokens) == states[0].start_error(prompt, max_tokens),
        layer_cache::without_charge(failed.budget@.charges, "kv_cache"@)
            == failed.budget@.charges,
{
    lemma_run_steps(states);
    called.budget.lemma_wf();
    lemma_failed_run_keeps_nothing(called.budget@.charges, states.last().budget@.charges);
}

/// Dropping the KV cache twice is dropping it once.
pub proof fn lemma_clear_idempotent(charges: Seq<budget::ChargeFacts>)
    requires
        budget::names_distinct(charges),
    ensures
        layer_cache::without_charge(
            layer_cache::without_charge(charges, "kv_cache"@),
            "kv_cache"@,
        ) == layer_cache::without_charge(charges, "kv_cache"@),
{
    layer_cache::lemma_without_gone(charges, "kv_cache"@);
}

/// When a prompt is admitted: it has tokens, and together with all that may be
/// generated it fits the context.
pub proof fn lemma_prompt_admitted(prompt: int, max_tokens: int, context: int)
    requires
        0 <= prompt,
        0 <= max_tokens,
    ensures
        prompt_error(prompt, max_tokens, context) is None <==> prompt >= 1 && prompt + max_tokens
            <= context,
{
}

/// When a run starts: its prompt is admitted, the model has layers and heads with
/// numbers in them, and the budget has eight bytes left for each number of every
/// key and value head of every layer and every token of the prompt.
pub proof fn lemma_run_starts<T>(engine: InferenceEngine<T>, prompt: int, max_tokens: int)
    requires
        0 <= prompt,
        0 <= max_tokens,
    ensures
        ({
            let config = engine.config;
            let bytes = prompt * config.head_count_kv * config.head_dim * 8 * config.block_count;
            engine.start_error(prompt, max_tokens) is None <==> {
                &&& prompt >= 1 && prompt + max_tokens <= config.context_length
                &&& config.block_count > 0 && config.head_count_kv > 0 && config.head_dim > 0
                &&& bytes <= engine.budget@.available()
            }
        }),
{
}

/// What a run does next. The prompt goes through the model token by token, in
/// order; then a token is sampled wherever all tokens so far have been through
/// the model, and goes through it behind them, until the run has stopped.
pub proof fn lemma_next_step(run: GenerationRun)
    requires
        run.wf(),
    ensures
        ({
            let known = run.prompt_tokens + run.generated@.len();
            match run.due() {
                GenerationStep::Prompt { position } => position == run.prompt_done && position
                    < run.prompt_tokens,
                GenerationStep::Stop { reason } => run.prompt_done == run.prompt_tokens && run.stop
                    == Some(reason),
                GenerationStep::Sample => run.prompt_done == run.prompt_tokens && run.stop is None
                    && run.position == known,
                GenerationStep::Forward { token, position } => run.prompt_done == run.prompt_tokens
                    && run.stop is None && position == known - 1 && run.generated@.len() > 0
                    && token == run.generated@[run.generated@.len() - 1],
            }
        }),
        run.prompt_done < run.prompt_tokens ==> run.due() is Prompt,
        run.prompt_done == run.prompt_tokens && run.stop is Some ==> run.due() is Stop,
        run.prompt_done == run.prompt_tokens && run.stop is None ==> run.due() is Sample
            || run.due() is Forward,
{
}

/// What a sampled token leads to. The end-of-sequence token ends the run; any other
/// ends it where it is the last that was asked for, and otherwise goes through the
/// model behind the tokens before it.
pub proof fn lemma_sampled_token(run: GenerationRun, token: u32)
    requires
        run.wf(),
        run.due() == GenerationStep::Sample,
    ensures
        ({
            let last = run.generated@.len() + 1 == run.max_tokens;
            let ends = run.eos_token_id is Some && run.eos_token_id->0 == token;
            let step = run.step(token);
            &&& ends ==> step == (GenerationStep::Stop { reason: StopReason::Eos })
            &&& !ends && last ==> step == (GenerationStep::Stop { reason: StopReason::MaxTokens })
            &&& !ends && !last ==> step == (GenerationStep::Forward {
                token,
                position: (run.prompt_tokens + run.generated@.len()) as usize,
            })
        }),
{
    lemma_context_never_exceeded(run, token);
}

/// How far the KV cache grows: to the next multiple of 256 tokens that holds the
/// position, or to what the run needs in all where that is less.
pub proof fn lemma_grown_capacity(position: int, needed_len: int)
    requires
        0 <= position < needed_len,
    ensures
        ({
            let grown = grown_capacity(position, needed_len);
            &&& position < grown <= needed_len
            &&& grown == needed_len || (grown % 256 == 0 && grown <= position + 256)
        }),
{
    kv_cache::lemma_chunk_of_256(position + 1);
}

/// Reads are listed by how much was read, most first, and by name where as much was
/// read.
pub proof fn lemma_reads_by_size(reads: Seq<TensorReadFacts>, i: int, j: int)
    requires
        0 <= i < j < reads.len(),
    ensures
        ({
            let earlier = ordered_reads(reads)[i];
            let later = ordered_reads(reads)[j];
            &&& earlier.bytes_read >= later.bytes_read
            &&& earlier.bytes_read == later.bytes_read ==> !text::text_less(
                later.name,
                earlier.name,
            )
        }),
{
    lemma_reads_ordered(reads);
    assert(!reads_before(ordered_reads(reads)[j], ordered_reads(reads)[i]));
}

/// Which charges a run makes and which of them pass with it: scoped buffers,
/// loaded layers and cached layers pass, and the KV cache stays until it is
/// cleared.
pub proof fn lemma_run_charges(name: Seq<char>)
    ensures
        passes(name) <==> text::has_prefix(name, "tmp:"@) || text::has_prefix(name, "layer:"@)
            || text::has_prefix(name, "cache:"@),
        made_by_runs(name) <==> passes(name) || name == "kv_cache"@,
        !passes("kv_cache"@),
{
    reveal_strlit("kv_cache");
    reveal_strlit("tmp:");
    reveal_strlit("layer:");
    reveal_strlit("cache:");
    let kv = "kv_cache"@;
    assert(kv[0] == 'k');
    if text::has_prefix(kv, "tmp:"@) {
        assert(kv.subrange(0, 4)[0] == "tmp:"@[0]);
    }
    if text::has_prefix(kv, "layer:"@) {
        assert(kv.subrange(0, 6)[0] == "layer:"@[0]);
    }
    if text::has_prefix(kv, "cache:"@) {
        assert(kv.subrange(0, 6)[0] == "cache:"@[0]);
    }
}

} // verus!
