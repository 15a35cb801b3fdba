//! Planning logic for the `plan` command.
//!
//! The plan distinguishes *file size vs budget* (out-of-core viability) from
//! what the runtime actually charges. For directly executable architectures it
//! also computes a runtime-aligned lower bound for resident persistent weights
//! plus the largest streamed layer load. This lower bound deliberately excludes
//! prompt-dependent KV, activations, logits, and streamed-persistent workspaces.

use vstd::prelude::*;
use vstd::string::*;

use crate::accounting;
use crate::accounting::{estimate_layer_memory, tensor_load_charge_bytes};
use crate::budget;
use crate::budget::MemoryBudget;
use crate::gguf;
use crate::gguf::{resident_bytes_for, GgufModel, TensorDescriptor};
use crate::layer;
use crate::layer::{group_layers, PersistentDescriptors};
use crate::layer_read;
use crate::layer_read::build_layer_read_plan;
use crate::model;
use crate::model::{validate_required_tensors, LlamaConfig};
use crate::persistent::should_keep_resident;
use crate::scaling;
use crate::text;

verus! {

#[derive(Debug, Clone, Copy, PartialEq, Eq, Structural)]
pub struct ExecutionMemoryPlan {
    pub block_count: usize,
    pub resident_persistent_count: usize,
    pub streamed_persistent_count: usize,
    pub persistent_resident_bytes: u64,
    pub persistent_startup_peak_bytes: u64,
    pub largest_layer_index: usize,
    pub largest_layer_tensor_count: usize,
    pub largest_layer_resident_bytes: u64,
    pub largest_layer_load_peak_bytes: u64,
    /// Necessary managed-memory lower bound for startup or loading the largest
    /// layer alongside policy-resident persistent weights.
    pub managed_lower_bound_bytes: u64,
    /// Remaining budget after the necessary layer-streaming lower bound. The
    /// runtime uses the same value as its hard layer-cache byte capacity.
    pub layer_cache_capacity_bytes: u64,
    pub max_complete_cached_layers: usize,
    pub min_layer_resident_bytes: u64,
    /// Tensors that one forward pass reads from the streamed layers.
    pub logical_tensor_reads_per_forward: u64,
    /// Reads that one forward pass issues once tensors are grouped.
    pub estimated_physical_reads_per_forward: u64,
    pub logical_tensor_bytes_per_forward: u64,
    pub estimated_physical_bytes_per_forward: u64,
    pub estimated_gap_bytes_per_forward: u64,
    /// Necessary but not sufficient: forward activations, KV, logits, and
    /// streamed persistent workspaces are intentionally not included.
    pub layer_streaming_lower_bound_fits: bool,
}

#[derive(Debug, Clone)]
pub struct PlanResult {
    pub file_size: u64,
    pub architecture: Option<String>,
    pub tensor_count: usize,
    pub ram_requested: u64,
    /// Informational cache bound (charged per entry at runtime, not pre-reserved)
    pub cache_capacity: u64,
    /// Kept for CLI compatibility; the runtime reserves scoped temps on
    /// demand instead of a static overhead allocation, so this is 0.
    pub overhead_reserved: u64,
    pub available: u64,
    pub fits_in_ram: bool,
    pub file_backed_needed: u64,
    pub total_tensor_bytes: Option<u64>,
    pub execution_memory: Option<ExecutionMemoryPlan>,
    pub execution_preflight_error: Option<String>,
    pub budget: MemoryBudget,
}

pub const MEBIBYTE: u64 = 1048576;

/// Informational cache bound: 80% of the budget, kept at least one mebibyte away
/// from both ends, and 50% for budgets under two mebibytes.
pub open spec fn cache_bound(ram_budget_bytes: u64) -> int {
    let share = scaling::eighty_percent(ram_budget_bytes as nat) as int;
    if ram_budget_bytes < 2 * MEBIBYTE {
        ram_budget_bytes as int / 2
    } else if share < MEBIBYTE {
        MEBIBYTE as int
    } else if share > ram_budget_bytes - MEBIBYTE {
        ram_budget_bytes - MEBIBYTE
    } else {
        share
    }
}

fn cache_bound_for(ram_budget_bytes: u64) -> (bound: u64)
    ensures
        bound == cache_bound(ram_budget_bytes),
{
    if ram_budget_bytes < 2 * MEBIBYTE {
        ram_budget_bytes / 2
    } else {
        let share: u64 = scaling::eighty_percent_of(ram_budget_bytes);
        if share < MEBIBYTE {
            MEBIBYTE
        } else if share > ram_budget_bytes - MEBIBYTE {
            ram_budget_bytes - MEBIBYTE
        } else {
            share
        }
    }
}

/// What the persistent tensors charge at startup.
#[derive(Debug, Clone, Copy, PartialEq, Eq, Structural)]
pub struct PersistentTotals {
    pub resident_count: usize,
    pub streamed_count: usize,
    pub resident_bytes: u64,
    pub startup_peak_bytes: u64,
}

pub open spec fn overflow_message(label: Seq<char>, left: u64, right: u64) -> Seq<char> {
    label + " overflow: "@ + text::decimal(left as nat) + " + "@ + text::decimal(right as nat)
}

pub open spec fn persistent_error(name: Seq<char>, error: Seq<char>) -> Seq<char> {
    "cannot preflight persistent tensor '"@ + name + "': "@ + error
}

/// One more persistent tensor: it is kept resident where its representation is
/// at most a quarter of the budget, and streamed otherwise.
pub open spec fn add_persistent(
    totals: PersistentTotals,
    tensor: Option<gguf::TensorFacts>,
    ram_budget_bytes: u64,
) -> Result<PersistentTotals, Seq<char>> {
    match tensor {
        None => Ok(totals),
        Some(facts) => match facts.byte_length {
            None => Err(persistent_error(facts.name, "byte length is unknown"@)),
            Some(file_bytes) => match gguf::resident_bytes_spec(
                facts.ggml_type,
                facts.num_elements,
                file_bytes,
            ) {
                Err(error) => Err(persistent_error(facts.name, error)),
                Ok(resident) => if 4 * resident > ram_budget_bytes {
                    Ok(
                        PersistentTotals {
                            streamed_count: (totals.streamed_count + 1) as usize,
                            ..totals
                        },
                    )
                } else {
                    match accounting::load_charge(facts.ggml_type, file_bytes) {
                        Err(error) => Err(error),
                        Ok(raw) => keep_persistent(
                            totals,
                            accounting::at_least_one(raw),
                            accounting::at_least_one(resident),
                        ),
                    }
                },
            },
        },
    }
}

pub open spec fn keep_persistent(totals: PersistentTotals, charge: u64, settled: u64) -> Result<
    PersistentTotals,
    Seq<char>,
> {
    if totals.resident_bytes + charge > u64::MAX {
        Err(overflow_message("persistent startup peak"@, totals.resident_bytes, charge))
    } else if totals.resident_bytes + settled > u64::MAX {
        Err(overflow_message("persistent resident bytes"@, totals.resident_bytes, settled))
    } else {
        Ok(
            PersistentTotals {
                resident_count: (totals.resident_count + 1) as usize,
                streamed_count: totals.streamed_count,
                resident_bytes: (totals.resident_bytes + settled) as u64,
                startup_peak_bytes: accounting::larger(
                    totals.startup_peak_bytes,
                    (totals.resident_bytes + charge) as u64,
                ),
            },
        )
    }
}

pub open spec fn no_persistents() -> PersistentTotals {
    PersistentTotals {
        resident_count: 0,
        streamed_count: 0,
        resident_bytes: 0,
        startup_peak_bytes: 0,
    }
}

pub open spec fn and_then_persistent(
    earlier: Result<PersistentTotals, Seq<char>>,
    tensor: Option<gguf::TensorFacts>,
    ram_budget_bytes: u64,
) -> Result<PersistentTotals, Seq<char>> {
    match earlier {
        Err(error) => Err(error),
        Ok(totals) => add_persistent(totals, tensor, ram_budget_bytes),
    }
}

/// The startup charges of embedding, output norm and output projection.
pub open spec fn persistent_totals(tensors: Seq<gguf::TensorFacts>, ram_budget_bytes: u64) -> Result<
    PersistentTotals,
    Seq<char>,
> {
    and_then_persistent(
        and_then_persistent(
            add_persistent(
                no_persistents(),
                layer::first_named(tensors, "token_embd.weight"@),
                ram_budget_bytes,
            ),
            layer::first_named(tensors, "output_norm.weight"@),
            ram_budget_bytes,
        ),
        layer::first_named(tensors, "output.weight"@),
        ram_budget_bytes,
    )
}

/// What the streamed layers charge: the layer with the highest load peak (the
/// first of several) and the resident size of each layer.
pub struct LayerTotals {
    pub largest_index: nat,
    pub largest_tensor_count: nat,
    pub largest_resident_bytes: u64,
    pub largest_load_peak_bytes: u64,
    pub sizes: Seq<u64>,
}

pub open spec fn layer_totals(tensors: Seq<gguf::TensorFacts>, count: nat) -> Result<
    LayerTotals,
    Seq<char>,
>
    decreases count,
{
    if count == 0 {
        Ok(
            LayerTotals {
                largest_index: 0,
                largest_tensor_count: 0,
                largest_resident_bytes: 0,
                largest_load_peak_bytes: 0,
                sizes: Seq::empty(),
            },
        )
    } else {
        let index = (count - 1) as nat;
        let members = layer::layer_tensors(tensors, index);
        match layer_totals(tensors, index) {
            Err(error) => Err(error),
            Ok(totals) => match accounting::layer_memory(members) {
                Err(error) => Err(
                    "cannot preflight layer "@ + text::decimal(index) + ": "@ + error,
                ),
                Ok(estimate) => Ok(
                    if estimate.load_peak_bytes > totals.largest_load_peak_bytes {
                        LayerTotals {
                            largest_index: index,
                            largest_tensor_count: members.len(),
                            largest_resident_bytes: estimate.resident_bytes,
                            largest_load_peak_bytes: estimate.load_peak_bytes,
                            sizes: totals.sizes.push(estimate.resident_bytes),
                        }
                    } else {
                        LayerTotals {
                            sizes: totals.sizes.push(estimate.resident_bytes),
                            ..totals
                        }
                    },
                ),
            },
        }
    }
}

/// What one pass over the layers reads.
pub struct Traffic {
    pub logical_reads: int,
    pub physical_reads: int,
    pub logical_bytes: int,
    pub physical_bytes: int,
    pub gap_bytes: int,
}

pub open spec fn known_bytes(tensors: Seq<gguf::TensorFacts>) -> int
    decreases tensors.len(),
{
    if tensors.len() == 0 {
        0
    } else {
        known_bytes(tensors.drop_last()) + (match tensors.last().byte_length {
            Some(bytes) => bytes as int,
            None => 0,
        })
    }
}

/// The reads of one layer: those of its read plan, or one read per tensor where
/// the layer has no read plan.
pub open spec fn layer_traffic(tensors: Seq<gguf::TensorFacts>) -> Traffic {
    match layer_read::read_plan(tensors) {
        Ok(plan) => Traffic {
            logical_reads: plan.logical_tensor_count as int,
            physical_reads: plan.ranges.len() as int,
            logical_bytes: plan.logical_bytes,
            physical_bytes: plan.physical_bytes,
            gap_bytes: plan.gap_bytes,
        },
        Err(_) => Traffic {
            logical_reads: tensors.len() as int,
            physical_reads: tensors.len() as int,
            logical_bytes: known_bytes(tensors),
            physical_bytes: known_bytes(tensors),
            gap_bytes: 0,
        },
    }
}

pub open spec fn traffic(tensors: Seq<gguf::TensorFacts>, count: nat) -> Traffic
    decreases count,
{
    if count == 0 {
        Traffic {
            logical_reads: 0,
            physical_reads: 0,
            logical_bytes: 0,
            physical_bytes: 0,
            gap_bytes: 0,
        }
    } else {
        let earlier = traffic(tensors, (count - 1) as nat);
        let one = layer_traffic(layer::layer_tensors(tensors, (count - 1) as nat));
        Traffic {
            logical_reads: earlier.logical_reads + one.logical_reads,
            physical_reads: earlier.physical_reads + one.physical_reads,
            logical_bytes: earlier.logical_bytes + one.logical_bytes,
            physical_bytes: earlier.physical_bytes + one.physical_bytes,
            gap_bytes: earlier.gap_bytes + one.gap_bytes,
        }
    }
}

/// The nearest 64-bit count.
pub open spec fn saturated(value: int) -> u64 {
    if value > u64::MAX {
        u64::MAX
    } else {
        value as u64
    }
}

pub open spec fn sum_sizes(sizes: Seq<u64>) -> int
    decreases sizes.len(),
{
    if sizes.len() == 0 {
        0
    } else {
        sum_sizes(sizes.drop_last()) + sizes.last()
    }
}

/// How many of `sizes`, taken from the front, fit into `capacity` together.
pub open spec fn prefix_capacity(sizes: Seq<u64>, capacity: u64) -> nat
    decreases sizes.len(),
{
    if sizes.len() == 0 {
        0
    } else {
        let shorter = prefix_capacity(sizes.drop_last(), capacity);
        if shorter == sizes.len() - 1 && sum_sizes(sizes) <= capacity {
            sizes.len()
        } else {
            shorter
        }
    }
}

pub open spec fn smaller_first() -> spec_fn(u64, u64) -> bool {
    |left: u64, right: u64| left <= right
}

pub open spec fn ascending(sizes: Seq<u64>) -> Seq<u64> {
    sizes.sort_by(smaller_first())
}

/// The necessary memory of executing `tensors` as `config` says.
pub open spec fn execution_memory(
    tensors: Seq<gguf::TensorFacts>,
    config: LlamaConfig,
    ram_budget_bytes: u64,
) -> Result<ExecutionMemoryPlan, Seq<char>> {
    match persistent_totals(tensors, ram_budget_bytes) {
        Err(error) => Err(error),
        Ok(persistent) => match layer_totals(tensors, config.block_count as nat) {
            Err(error) => Err(error),
            Ok(layers) => if persistent.resident_bytes + layers.largest_load_peak_bytes
                > u64::MAX {
                Err(
                    overflow_message(
                        "persistent plus largest layer lower bound"@,
                        persistent.resident_bytes,
                        layers.largest_load_peak_bytes,
                    ),
                )
            } else {
                Ok(
                    assembled_plan(
                        persistent,
                        layers,
                        traffic(tensors, config.block_count as nat),
                        config.block_count,
                        ram_budget_bytes,
                    ),
                )
            },
        },
    }
}

pub open spec fn assembled_plan(
    persistent: PersistentTotals,
    layers: LayerTotals,
    reads: Traffic,
    block_count: usize,
    ram_budget_bytes: u64,
) -> ExecutionMemoryPlan {
    let bound = accounting::larger(
        persistent.startup_peak_bytes,
        (persistent.resident_bytes + layers.largest_load_peak_bytes) as u64,
    );
    let capacity = if bound <= ram_budget_bytes {
        (ram_budget_bytes - bound) as u64
    } else {
        0u64
    };
    let sizes = ascending(layers.sizes);
    ExecutionMemoryPlan {
        block_count,
        resident_persistent_count: persistent.resident_count,
        streamed_persistent_count: persistent.streamed_count,
        persistent_resident_bytes: persistent.resident_bytes,
        persistent_startup_peak_bytes: persistent.startup_peak_bytes,
        largest_layer_index: layers.largest_index as usize,
        largest_layer_tensor_count: layers.largest_tensor_count as usize,
        largest_layer_resident_bytes: layers.largest_resident_bytes,
        largest_layer_load_peak_bytes: layers.largest_load_peak_bytes,
        managed_lower_bound_bytes: bound,
        layer_cache_capacity_bytes: capacity,
        max_complete_cached_layers: prefix_capacity(sizes, capacity) as usize,
        min_layer_resident_bytes: if sizes.len() > 0 {
            sizes[0]
        } else {
            0
        },
        logical_tensor_reads_per_forward: saturated(reads.logical_reads),
        estimated_physical_reads_per_forward: saturated(reads.physical_reads),
        logical_tensor_bytes_per_forward: saturated(reads.logical_bytes),
        estimated_physical_bytes_per_forward: saturated(reads.physical_bytes),
        estimated_gap_bytes_per_forward: saturated(reads.gap_bytes),
        layer_streaming_lower_bound_fits: bound <= ram_budget_bytes,
    }
}

/// The execution preflight of a model.
pub open spec fn preflight(source: GgufModel, ram_budget_bytes: u64) -> Result<
    ExecutionMemoryPlan,
    Seq<char>,
> {
    let tensors = gguf::facts(source.tensors@);
    match model::model_config(source) {
        Err(error) => Err(error),
        Ok(config) => match model::required_tensors_result(tensors, config.block_count as nat) {
            Err(error) => Err(error),
            Ok(_) => execution_memory(tensors, config, ram_budget_bytes),
        },
    }
}

proof fn lemma_prefix_capacity_upto(sizes: Seq<u64>, capacity: u64, upto: int)
    requires
        0 <= upto < sizes.len(),
        sum_sizes(sizes.take(upto)) <= capacity,
        sum_sizes(sizes.take(upto + 1)) > capacity,
        prefix_capacity(sizes.take(upto), capacity) == upto,
    ensures
        prefix_capacity(sizes, capacity) == upto,
    decreases sizes.len(),
{
    assert(sizes.take(upto + 1).drop_last() =~= sizes.take(upto));
    if upto + 1 == sizes.len() {
        assert(sizes.take(upto + 1) =~= sizes);
    } else {
        assert(sizes.drop_last().take(upto) =~= sizes.take(upto));
        assert(sizes.drop_last().take(upto + 1) =~= sizes.take(upto + 1));
        lemma_prefix_capacity_upto(sizes.drop_last(), capacity, upto);
    }
}

/// `prefix_capacity` counts the longest prefix that fits: its sum is within the
/// capacity, and one element more is not.
pub proof fn lemma_prefix_capacity(sizes: Seq<u64>, capacity: u64)
    ensures
        prefix_capacity(sizes, capacity) <= sizes.len(),
        sum_sizes(sizes.take(prefix_capacity(sizes, capacity) as int)) <= capacity,
        prefix_capacity(sizes, capacity) < sizes.len() ==> sum_sizes(
            sizes.take(prefix_capacity(sizes, capacity) as int + 1),
        ) > capacity,
    decreases sizes.len(),
{
    if sizes.len() > 0 {
        let shorter = sizes.drop_last();
        lemma_prefix_capacity(shorter, capacity);
        let count = prefix_capacity(sizes, capacity) as int;
        assert(sizes.take(sizes.len() as int) =~= sizes);
        if count < sizes.len() {
            assert(shorter.take(count) =~= sizes.take(count));
            if count < shorter.len() {
                assert(shorter.take(count + 1) =~= sizes.take(count + 1));
            }
        }
    } else {
        assert(sizes.take(0) =~= sizes);
    }
}

pub fn max_complete_layers_for_capacity(sorted_layer_bytes: &[u64], capacity: u64) -> (count: usize)
    ensures
        count == prefix_capacity(sorted_layer_bytes@, capacity),
{
    let ghost sizes = sorted_layer_bytes@;
    let mut used: u64 = 0;
    assert(sum_sizes(sizes.take(0)) == 0);
    for count in 0..sorted_layer_bytes.len()
        invariant
            sizes == sorted_layer_bytes@,
            used == sum_sizes(sizes.take(count as int)),
            used <= capacity,
            prefix_capacity(sizes.take(count as int), capacity) == count,
    {
        proof {
            assert(sizes.take(count as int + 1).drop_last() =~= sizes.take(count as int));
        }
        match used.checked_add(sorted_layer_bytes[count]) {
            Some(next) => {
                if next > capacity {
                    proof {
                        lemma_prefix_capacity_upto(sizes, capacity, count as int);
                    }
                    return count;
                }
                used = next;
            },
            None => {
                proof {
                    lemma_prefix_capacity_upto(sizes, capacity, count as int);
                }
                return count;
            },
        }
    }
    assert(sizes.take(sizes.len() as int) =~= sizes);
    sorted_layer_bytes.len()
}

proof fn lemma_smaller_first_total()
    ensures
        vstd::relations::total_ordering(smaller_first()),
{
}

/// Sorts layer sizes in ascending order.
fn sort_sizes(sizes: &Vec<u64>) -> (sorted: Vec<u64>)
    ensures
        sorted@ == ascending(sizes@),
{
    let ghost leq = smaller_first();
    let mut sorted: Vec<u64> = Vec::new();
    assert(sorted@ =~= sizes@.take(0));
    for i in 0..sizes.len()
        invariant
            leq == smaller_first(),
            sorted@.len() == i,
            forall|j: int, k: int| 0 <= j < k < sorted@.len() ==> sorted@[j] <= sorted@[k],
            sorted@.to_multiset() =~= sizes@.take(i as int).to_multiset(),
    {
        let value: u64 = sizes[i];
        let mut at: usize = sorted.len();
        while at > 0 && sorted[at - 1] > value
            invariant
                at <= sorted@.len(),
                forall|k: int| at <= k < sorted@.len() ==> sorted@[k] > value,
            decreases at,
        {
            at -= 1;
        }
        let ghost before = sorted@;
        sorted.insert(at, value);
        proof {
            assert forall|j: int, k: int| 0 <= j < k < sorted@.len() implies sorted@[j]
                <= sorted@[k] by {
                let left = if j < at { before[j] } else if j == at { value } else { before[j - 1] };
                let right = if k < at { before[k] } else if k == at { value } else { before[k - 1] };
                assert(sorted@[j] == left && sorted@[k] == right);
                if k == at && at > 0 && j < at - 1 {
                    assert(before[j] <= before[at - 1]);
                }
            }
            assert(sizes@.take(i as int + 1) =~= sizes@.take(i as int).push(value));
            assert(sorted@ =~= before.insert(at as int, value));
            vstd::seq_lib::to_multiset_insert(before, at as int, value);
            vstd::seq_lib::to_multiset_build(sizes@.take(i as int), value);
        }
    }
    proof {
        assert(sizes@.take(sizes@.len() as int) =~= sizes@);
        lemma_smaller_first_total();
        sizes@.lemma_sort_by_ensures(leq);
        assert(vstd::relations::sorted_by(sorted@, leq));
        vstd::seq_lib::lemma_sorted_unique(sorted@, ascending(sizes@), leq);
    }
    sorted
}

fn persistent_message(name: &str, error: &str) -> (message: String)
    ensures
        message@ == persistent_error(name@, error@),
{
    let mut message = "cannot preflight persistent tensor '".to_owned();
    message.append(name);
    message.append("': ");
    message.append(error);
    message
}

fn checked_sum(left: u64, right: u64, label: &str) -> (result: Result<u64, String>)
    ensures
        text::text_result(result) == (if left + right <= u64::MAX {
            Ok::<u64, Seq<char>>((left + right) as u64)
        } else {
            Err(overflow_message(label@, left, right))
        }),
{
    match left.checked_add(right) {
        Some(sum) => Ok(sum),
        None => {
            let mut message = label.to_owned();
            message.append(" overflow: ");
            text::push_decimal(&mut message, left);
            message.append(" + ");
            text::push_decimal(&mut message, right);
            Err(message)
        },
    }
}

fn add_persistent_tensor(
    totals: PersistentTotals,
    tensor: &Option<TensorDescriptor>,
    ram_budget_bytes: u64,
) -> (result: Result<PersistentTotals, String>)
    requires
        totals.resident_count < 3,
        totals.streamed_count < 3,
    ensures
        text::text_result(result) == add_persistent(
            totals,
            layer::optional_facts(*tensor),
            ram_budget_bytes,
        ),
        result is Ok ==> result->Ok_0.resident_count <= totals.resident_count + 1
            && result->Ok_0.streamed_count <= totals.streamed_count + 1,
{
    let descriptor = match tensor {
        Some(descriptor) => descriptor,
        None => {
            return Ok(totals);
        },
    };
    let file_bytes: u64 = match descriptor.byte_length {
        Some(file_bytes) => file_bytes,
        None => {
            return Err(persistent_message(descriptor.name.as_str(), "byte length is unknown"));
        },
    };
    let resident: u64 = match resident_bytes_for(
        descriptor.ggml_type,
        descriptor.num_elements,
        file_bytes,
    ) {
        Ok(resident) => resident,
        Err(error) => {
            return Err(persistent_message(descriptor.name.as_str(), error.as_str()));
        },
    };
    if !should_keep_resident(resident, ram_budget_bytes) {
        return Ok(
            PersistentTotals {
                resident_count: totals.resident_count,
                streamed_count: totals.streamed_count + 1,
                resident_bytes: totals.resident_bytes,
                startup_peak_bytes: totals.startup_peak_bytes,
            },
        );
    }
    let raw: u64 = match tensor_load_charge_bytes(descriptor.ggml_type, file_bytes) {
        Ok(raw) => raw,
        Err(error) => {
            return Err(error);
        },
    };
    let charge: u64 = if raw == 0 {
        1
    } else {
        raw
    };
    let settled: u64 = if resident == 0 {
        1
    } else {
        resident
    };
    let peak: u64 = match checked_sum(totals.resident_bytes, charge, "persistent startup peak") {
        Ok(peak) => peak,
        Err(error) => {
            return Err(error);
        },
    };
    let resident_bytes: u64 = match checked_sum(
        totals.resident_bytes,
        settled,
        "persistent resident bytes",
    ) {
        Ok(sum) => sum,
        Err(error) => {
            return Err(error);
        },
    };
    Ok(
        PersistentTotals {
            resident_count: totals.resident_count + 1,
            streamed_count: totals.streamed_count,
            resident_bytes,
            startup_peak_bytes: if totals.startup_peak_bytes >= peak {
                totals.startup_peak_bytes
            } else {
                peak
            },
        },
    )
}

fn persistent_totals_of(source: &GgufModel, ram_budget_bytes: u64) -> (result: Result<
    PersistentTotals,
    String,
>)
    ensures
        text::text_result(result) == persistent_totals(
            gguf::facts(source.tensors@),
            ram_budget_bytes,
        ),
{
    let persistent = PersistentDescriptors::from_model(source);
    let start = PersistentTotals {
        resident_count: 0,
        streamed_count: 0,
        resident_bytes: 0,
        startup_peak_bytes: 0,
    };
    let embedding = match add_persistent_tensor(start, &persistent.token_embd, ram_budget_bytes) {
        Ok(totals) => totals,
        Err(error) => {
            return Err(error);
        },
    };
    let norm = match add_persistent_tensor(embedding, &persistent.output_norm, ram_budget_bytes) {
        Ok(totals) => totals,
        Err(error) => {
            return Err(error);
        },
    };
    add_persistent_tensor(norm, &persistent.output, ram_budget_bytes)
}

/// Saturating counters of what the layers read.
#[derive(Debug, Clone, Copy, PartialEq, Eq, Structural)]
struct TrafficCounters {
    logical_reads: u64,
    physical_reads: u64,
    logical_bytes: u64,
    physical_bytes: u64,
    gap_bytes: u64,
}

spec fn counts(counters: TrafficCounters, reads: Traffic) -> bool {
    &&& counters.logical_reads == saturated(reads.logical_reads)
    &&& counters.physical_reads == saturated(reads.physical_reads)
    &&& counters.logical_bytes == saturated(reads.logical_bytes)
    &&& counters.physical_bytes == saturated(reads.physical_bytes)
    &&& counters.gap_bytes == saturated(reads.gap_bytes)
    &&& traffic_nonnegative(reads)
}

spec fn traffic_nonnegative(reads: Traffic) -> bool {
    &&& 0 <= reads.logical_reads
    &&& 0 <= reads.physical_reads
    &&& 0 <= reads.logical_bytes
    &&& 0 <= reads.physical_bytes
    &&& 0 <= reads.gap_bytes
}

fn known_bytes_of(tensors: &[TensorDescriptor]) -> (bytes: u64)
    ensures
        bytes == saturated(known_bytes(gguf::facts(tensors@))),
        0 <= known_bytes(gguf::facts(tensors@)),
{
    let ghost all = gguf::facts(tensors@);
    let mut bytes: u64 = 0;
    for i in 0..tensors.len()
        invariant
            all == gguf::facts(tensors@),
            bytes == saturated(known_bytes(all.take(i as int))),
            0 <= known_bytes(all.take(i as int)),
    {
        proof {
            assert(all.take(i as int + 1).drop_last() =~= all.take(i as int));
            assert(all.take(i as int + 1).last() == tensors@[i as int]@);
        }
        let one: u64 = match tensors[i].byte_length {
            Some(length) => length,
            None => 0,
        };
        bytes = bytes.saturating_add(one);
    }
    assert(all.take(all.len() as int) =~= all);
    bytes
}

fn layer_traffic_of(tensors: &[TensorDescriptor]) -> (counters: TrafficCounters)
    ensures
        counts(counters, layer_traffic(gguf::facts(tensors@))),
{
    match build_layer_read_plan(tensors) {
        Ok(plan) => TrafficCounters {
            logical_reads: plan.logical_tensor_count as u64,
            physical_reads: plan.ranges.len() as u64,
            logical_bytes: plan.logical_bytes,
            physical_bytes: plan.physical_bytes,
            gap_bytes: plan.gap_bytes,
        },
        Err(_) => {
            let bytes = known_bytes_of(tensors);
            TrafficCounters {
                logical_reads: tensors.len() as u64,
                physical_reads: tensors.len() as u64,
                logical_bytes: bytes,
                physical_bytes: bytes,
                gap_bytes: 0,
            }
        },
    }
}

proof fn lemma_layer_totals_prefix(tensors: Seq<gguf::TensorFacts>, upto: nat, count: nat)
    requires
        upto <= count,
        layer_totals(tensors, upto) is Err,
    ensures
        layer_totals(tensors, count) == layer_totals(tensors, upto),
    decreases count,
{
    if upto < count {
        lemma_layer_totals_prefix(tensors, upto, (count - 1) as nat);
    }
}

fn layer_error(index: usize, error: &str) -> (message: String)
    ensures
        message@ == "cannot preflight layer "@ + text::decimal(index as nat) + ": "@ + error@,
{
    let mut message = "cannot preflight layer ".to_owned();
    text::push_decimal(&mut message, index as u64);
    message.append(": ");
    message.append(error);
    message
}

/// The necessary memory of executing a model whose configuration is known.
fn execution_memory_of(source: &GgufModel, config: &LlamaConfig, ram_budget_bytes: u64) -> (result:
    Result<ExecutionMemoryPlan, String>)
    ensures
        text::text_result(result) == execution_memory(
            gguf::facts(source.tensors@),
            *config,
            ram_budget_bytes,
        ),
{
    let ghost tensors = gguf::facts(source.tensors@);
    let persistent = match persistent_totals_of(source, ram_budget_bytes) {
        Ok(totals) => totals,
        Err(error) => {
            return Err(error);
        },
    };
    let layers = group_layers(source, config.block_count);
    let mut largest_layer_index: usize = 0;
    let mut largest_layer_tensor_count: usize = 0;
    let mut largest_layer_resident_bytes: u64 = 0;
    let mut largest_layer_load_peak_bytes: u64 = 0;
    let mut layer_resident_sizes: Vec<u64> = Vec::new();
    let mut reads = TrafficCounters {
        logical_reads: 0,
        physical_reads: 0,
        logical_bytes: 0,
        physical_bytes: 0,
        gap_bytes: 0,
    };
    let ghost state = layer_totals(tensors, 0)->Ok_0;
    assert(layer_resident_sizes@ =~= state.sizes);
    for i in 0..layers.len()
        invariant
            tensors == gguf::facts(source.tensors@),
            layers@.len() == config.block_count,
            persistent_totals(tensors, ram_budget_bytes) == Ok::<PersistentTotals, Seq<char>>(
                persistent,
            ),
            forall|j: int|
                0 <= j < layers@.len() ==> layer::is_layer(#[trigger] layers@[j], tensors, j as nat),
            layer_totals(tensors, i as nat) == Ok::<LayerTotals, Seq<char>>(state),
            largest_layer_index == state.largest_index,
            largest_layer_tensor_count == state.largest_tensor_count,
            largest_layer_resident_bytes == state.largest_resident_bytes,
            largest_layer_load_peak_bytes == state.largest_load_peak_bytes,
            layer_resident_sizes@ == state.sizes,
            layer_resident_sizes@.len() == i,
            counts(reads, traffic(tensors, i as nat)),
    {
        let layer = &layers[i];
        proof {
            assert(layer::is_layer(layers@[i as int], tensors, i as nat));
        }
        let estimate = match estimate_layer_memory(layer.tensors.as_slice()) {
            Ok(estimate) => estimate,
            Err(error) => {
                proof {
                    lemma_layer_totals_prefix(
                        tensors,
                        (i + 1) as nat,
                        config.block_count as nat,
                    );
                }
                return Err(layer_error(i, error.as_str()));
            },
        };
        layer_resident_sizes.push(estimate.resident_bytes);
        if estimate.load_peak_bytes > largest_layer_load_peak_bytes {
            largest_layer_index = layer.layer_idx;
            largest_layer_tensor_count = layer.tensors.len();
            largest_layer_resident_bytes = estimate.resident_bytes;
            largest_layer_load_peak_bytes = estimate.load_peak_bytes;
        }
        let one = layer_traffic_of(layer.tensors.as_slice());
        reads =
        TrafficCounters {
            logical_reads: reads.logical_reads.saturating_add(one.logical_reads),
            physical_reads: reads.physical_reads.saturating_add(one.physical_reads),
            logical_bytes: reads.logical_bytes.saturating_add(one.logical_bytes),
            physical_bytes: reads.physical_bytes.saturating_add(one.physical_bytes),
            gap_bytes: reads.gap_bytes.saturating_add(one.gap_bytes),
        };
        proof {
            state = layer_totals(tensors, (i + 1) as nat)->Ok_0;
        }
    }
    let layer_with_persistents: u64 = match checked_sum(
        persistent.resident_bytes,
        largest_layer_load_peak_bytes,
        "persistent plus largest layer lower bound",
    ) {
        Ok(sum) => sum,
        Err(error) => {
            return Err(error);
        },
    };
    let managed_lower_bound_bytes: u64 = if persistent.startup_peak_bytes
        >= layer_with_persistents {
        persistent.startup_peak_bytes
    } else {
        layer_with_persistents
    };
    let layer_cache_capacity_bytes: u64 = ram_budget_bytes.saturating_sub(
        managed_lower_bound_bytes,
    );
    let sorted = sort_sizes(&layer_resident_sizes);
    let min_layer_resident_bytes: u64 = if sorted.len() > 0 {
        sorted[0]
    } else {
        0
    };
    let max_complete_cached_layers: usize = max_complete_layers_for_capacity(
        sorted.as_slice(),
        layer_cache_capacity_bytes,
    );
    Ok(
        ExecutionMemoryPlan {
            block_count: config.block_count,
            resident_persistent_count: persistent.resident_count,
            streamed_persistent_count: persistent.streamed_count,
            persistent_resident_bytes: persistent.resident_bytes,
            persistent_startup_peak_bytes: persistent.startup_peak_bytes,
            largest_layer_index,
            largest_layer_tensor_count,
            largest_layer_resident_bytes,
            largest_layer_load_peak_bytes,
            managed_lower_bound_bytes,
            layer_cache_capacity_bytes,
            max_complete_cached_layers,
            min_layer_resident_bytes,
            logical_tensor_reads_per_forward: reads.logical_reads,
            estimated_physical_reads_per_forward: reads.physical_reads,
            logical_tensor_bytes_per_forward: reads.logical_bytes,
            estimated_physical_bytes_per_forward: reads.physical_bytes,
            estimated_gap_bytes_per_forward: reads.gap_bytes,
            layer_streaming_lower_bound_fits: managed_lower_bound_bytes <= ram_budget_bytes,
        },
    )
}

pub fn plan_execution_memory(source: &GgufModel, ram_budget_bytes: u64) -> (result: Result<
    ExecutionMemoryPlan,
    String,
>)
    requires
        !model::zero_head_count(*source),
    ensures
        text::text_result(result) == preflight(*source, ram_budget_bytes),
{
    let config = match LlamaConfig::from_gguf(source) {
        Ok(config) => config,
        Err(error) => {
            return Err(error);
        },
    };
    match validate_required_tensors(source, &config) {
        Ok(()) => {},
        Err(error) => {
            return Err(error);
        },
    }
    execution_memory_of(source, &config, ram_budget_bytes)
}

/// The plan of `source` under a budget greater than zero.
pub open spec fn is_plan_of(plan: PlanResult, source: GgufModel, ram_budget_bytes: u64) -> bool {
    &&& plan.file_size == source.file_size
    &&& text::text_option(plan.architecture) == text::text_option(source.info.architecture)
    &&& plan.tensor_count == source.tensors@.len()
    &&& plan.ram_requested == ram_budget_bytes
    &&& plan.cache_capacity == cache_bound(ram_budget_bytes)
    &&& plan.overhead_reserved == 0
    &&& plan.available == ram_budget_bytes
    &&& plan.fits_in_ram == (source.file_size <= ram_budget_bytes)
    &&& plan.file_backed_needed == (if source.file_size <= ram_budget_bytes {
        0
    } else {
        source.file_size - ram_budget_bytes
    })
    &&& plan.total_tensor_bytes == gguf::sum_byte_lengths(gguf::facts(source.tensors@))
    &&& match preflight(source, ram_budget_bytes) {
        Ok(memory) => plan.execution_memory == Some(memory)
            && plan.execution_preflight_error is None,
        Err(error) => plan.execution_memory is None && text::text_option(
            plan.execution_preflight_error,
        ) == Some(error),
    }
    &&& plan.budget.wf()
    &&& plan.budget@ == (budget::BudgetFacts {
        total: ram_budget_bytes,
        peak: 0,
        charges: Seq::empty(),
    })
}

pub fn plan_model(source: &GgufModel, ram_budget_bytes: u64) -> (result: Result<PlanResult, String>)
    requires
        !model::zero_head_count(*source),
    ensures
        match result {
            Ok(plan) => ram_budget_bytes > 0 && is_plan_of(plan, *source, ram_budget_bytes),
            Err(error) => ram_budget_bytes == 0 && error@
                == budget::MemoryError::ZeroBudget.spec_message(),
        },
{
    let budget = match MemoryBudget::new(ram_budget_bytes) {
        Ok(budget) => budget,
        Err(error) => {
            return Err(error.message());
        },
    };
    let file_size: u64 = source.file_size;
    let fits_in_ram = file_size <= ram_budget_bytes;
    let file_backed_needed: u64 = if fits_in_ram {
        0
    } else {
        file_size - ram_budget_bytes
    };
    let architecture = match &source.info.architecture {
        Some(name) => Some(name.clone()),
        None => None,
    };
    let available: u64 = budget.available_bytes();
    let (execution_memory, execution_preflight_error) = match plan_execution_memory(
        source,
        ram_budget_bytes,
    ) {
        Ok(memory) => (Some(memory), None),
        Err(error) => (None, Some(error)),
    };
    Ok(
        PlanResult {
            file_size,
            architecture,
            tensor_count: source.tensors.len(),
            ram_requested: ram_budget_bytes,
            cache_capacity: cache_bound_for(ram_budget_bytes),
            overhead_reserved: 0,
            available,
            fits_in_ram,
            file_backed_needed,
            total_tensor_bytes: source.total_tensor_bytes(),
            execution_memory,
            execution_preflight_error,
            budget,
        },
    )
}

proof fn lemma_layer_totals(tensors: Seq<gguf::TensorFacts>, count: nat)
    requires
        layer_totals(tensors, count) is Ok,
    ensures
        ({
            let totals = layer_totals(tensors, count)->Ok_0;
            let at = totals.largest_index;
            &&& totals.sizes.len() == count
            &&& forall|i: nat|
                i < count ==> {
                    let one = accounting::layer_memory(#[trigger] layer::layer_tensors(tensors, i));
                    &&& one is Ok
                    &&& one->Ok_0.load_peak_bytes <= totals.largest_load_peak_bytes
                    &&& i < at ==> one->Ok_0.load_peak_bytes < totals.largest_load_peak_bytes
                    &&& totals.sizes[i as int] == one->Ok_0.resident_bytes
                }
            &&& count > 0 ==> at < count && {
                let one = accounting::layer_memory(layer::layer_tensors(tensors, at))->Ok_0;
                &&& one.load_peak_bytes == totals.largest_load_peak_bytes
                &&& one.resident_bytes == totals.largest_resident_bytes
                &&& layer::layer_tensors(tensors, at).len() == totals.largest_tensor_count
            }
        }),
    decreases count,
{
    if count > 0 {
        let index = (count - 1) as nat;
        lemma_layer_totals(tensors, index);
        let members = layer::layer_tensors(tensors, index);
        let earlier = layer_totals(tensors, index)->Ok_0;
        let totals = layer_totals(tensors, count)->Ok_0;
        if accounting::layer_memory(members)->Ok_0.load_peak_bytes == 0 {
            lemma_unloaded(members);
        }
        if index == 0 {
            assert(earlier.largest_load_peak_bytes == 0);
        }
        assert forall|i: nat| i < count implies {
            let one = accounting::layer_memory(#[trigger] layer::layer_tensors(tensors, i));
            &&& one is Ok
            &&& one->Ok_0.load_peak_bytes <= totals.largest_load_peak_bytes
            &&& i < totals.largest_index ==> one->Ok_0.load_peak_bytes
                < totals.largest_load_peak_bytes
            &&& totals.sizes[i as int] == one->Ok_0.resident_bytes
        } by {
            if i < index {
                assert(accounting::layer_memory(layer::layer_tensors(tensors, i)) is Ok);
            }
        }
    }
}

proof fn lemma_unloaded(members: Seq<gguf::TensorFacts>)
    requires
        accounting::layer_memory(members) is Ok,
        accounting::layer_memory(members)->Ok_0.load_peak_bytes == 0,
    ensures
        members.len() == 0,
        accounting::layer_memory(members)->Ok_0.resident_bytes == 0,
{
    if members.len() > 0 {
        let at = accounting::lemma_peak_is_reached(members);
        accounting::lemma_tensor_charges(members[at]);
    }
}

/// The preflight covers every layer: none needs more memory to load than the
/// reported largest one, which is the first of those that need as much, and
/// whatever layer is loaded beside the resident persistent tensors stays within
/// the reported lower bound.
pub proof fn lemma_largest_layer(source: GgufModel, ram_budget_bytes: u64, index: nat)
    requires
        preflight(source, ram_budget_bytes) is Ok,
        index < preflight(source, ram_budget_bytes)->Ok_0.block_count,
    ensures
        ({
            let plan = preflight(source, ram_budget_bytes)->Ok_0;
            let tensors = gguf::facts(source.tensors@);
            let members = layer::layer_tensors(tensors, index);
            let one = accounting::layer_memory(members);
            let largest = layer::layer_tensors(tensors, plan.largest_layer_index as nat);
            let most = accounting::layer_memory(largest);
            &&& one is Ok
            &&& one->Ok_0.load_peak_bytes <= plan.largest_layer_load_peak_bytes
            &&& index < plan.largest_layer_index ==> one->Ok_0.load_peak_bytes
                < plan.largest_layer_load_peak_bytes
            &&& plan.persistent_resident_bytes + one->Ok_0.load_peak_bytes
                <= plan.managed_lower_bound_bytes
            &&& plan.min_layer_resident_bytes <= one->Ok_0.resident_bytes
            &&& plan.largest_layer_index < plan.block_count
            &&& most is Ok
            &&& most->Ok_0.load_peak_bytes == plan.largest_layer_load_peak_bytes
            &&& most->Ok_0.resident_bytes == plan.largest_layer_resident_bytes
            &&& largest.len() == plan.largest_layer_tensor_count
        }),
{
    let tensors = gguf::facts(source.tensors@);
    let config = model::model_config(source)->Ok_0;
    let totals = layer_totals(tensors, config.block_count as nat)->Ok_0;
    lemma_layer_totals(tensors, config.block_count as nat);
    assert(accounting::layer_memory(layer::layer_tensors(tensors, index)) is Ok);
    layer::lemma_layer_count(tensors, totals.largest_index);
    assert(tensors.len() == source.tensors@.len());
    assert(source.tensors@.len() == source.tensors.len());
    let at = totals.largest_index;
    assert(accounting::layer_memory(layer::layer_tensors(tensors, at)) is Ok);
    lemma_ascending(totals.sizes);
    let sizes = ascending(totals.sizes);
    let value = totals.sizes[index as int];
    assert(totals.sizes.to_multiset().count(value) > 0) by {
        totals.sizes.to_multiset_ensures();
        assert(totals.sizes.contains(value));
    }
    sizes.to_multiset_ensures();
    assert(sizes.contains(value));
    let place = choose|k: int| 0 <= k < sizes.len() && sizes[k] == value;
    assert(sizes[0] <= sizes[place]);
}

proof fn lemma_ascending(sizes: Seq<u64>)
    ensures
        ascending(sizes).len() == sizes.len(),
        ascending(sizes).to_multiset() == sizes.to_multiset(),
        forall|j: int, k: int|
            0 <= j <= k < sizes.len() ==> ascending(sizes)[j] <= ascending(sizes)[k],
{
    lemma_smaller_first_total();
    sizes.lemma_sort_by_ensures(smaller_first());
    assert(ascending(sizes).len() == sizes.len()) by {
        sizes.to_multiset_ensures();
        ascending(sizes).to_multiset_ensures();
    }
    assert forall|j: int, k: int| 0 <= j <= k < sizes.len() implies ascending(sizes)[j]
        <= ascending(sizes)[k] by {
        let sorted = ascending(sizes);
        assert(vstd::relations::sorted_by(sorted, smaller_first()));
        if j < k {
            assert((smaller_first())(sorted[j], sorted[k]));
        }
    }
}

/// The lower bound is what startup takes or what the largest layer takes beside
/// the resident persistent tensors, and no more; it fits exactly where it is
/// within the budget, and what it leaves of the budget is the layer cache's.
pub proof fn lemma_lower_bound(source: GgufModel, ram_budget_bytes: u64)
    requires
        preflight(source, ram_budget_bytes) is Ok,
    ensures
        ({
            let plan = preflight(source, ram_budget_bytes)->Ok_0;
            let streaming = plan.persistent_resident_bytes + plan.largest_layer_load_peak_bytes;
            &&& plan.managed_lower_bound_bytes >= plan.persistent_startup_peak_bytes
            &&& plan.managed_lower_bound_bytes >= streaming
            &&& plan.managed_lower_bound_bytes == plan.persistent_startup_peak_bytes
                || plan.managed_lower_bound_bytes == streaming
            &&& plan.layer_streaming_lower_bound_fits <==> plan.managed_lower_bound_bytes
                <= ram_budget_bytes
            &&& plan.layer_streaming_lower_bound_fits ==> plan.managed_lower_bound_bytes
                + plan.layer_cache_capacity_bytes == ram_budget_bytes
            &&& !plan.layer_streaming_lower_bound_fits ==> plan.layer_cache_capacity_bytes == 0
            &&& plan.block_count == model::model_config(source)->Ok_0.block_count
        }),
{
}

/// The layers of a model in ascending order of their resident bytes: as many of
/// the smallest as the cache capacity holds together are counted as cacheable,
/// and one more would not fit. The first of them gives the smallest layer size.
pub proof fn lemma_cacheable_layers(source: GgufModel, ram_budget_bytes: u64) -> (sorted: Seq<u64>)
    requires
        preflight(source, ram_budget_bytes) is Ok,
    ensures
        ({
            let plan = preflight(source, ram_budget_bytes)->Ok_0;
            let tensors = gguf::facts(source.tensors@);
            let count = plan.max_complete_cached_layers as int;
            &&& sorted.len() == plan.block_count
            &&& forall|j: int, k: int| 0 <= j <= k < sorted.len() ==> sorted[j] <= sorted[k]
            &&& sorted.to_multiset() == Seq::new(
                plan.block_count as nat,
                |i: int|
                    accounting::layer_memory(
                        layer::layer_tensors(tensors, i as nat),
                    )->Ok_0.resident_bytes,
            ).to_multiset()
            &&& 0 <= count <= sorted.len()
            &&& sum_sizes(sorted.take(count)) <= plan.layer_cache_capacity_bytes
            &&& count < sorted.len() ==> sum_sizes(sorted.take(count + 1))
                > plan.layer_cache_capacity_bytes
            &&& plan.min_layer_resident_bytes == (if sorted.len() > 0 {
                sorted[0]
            } else {
                0
            })
        }),
{
    let plan = preflight(source, ram_budget_bytes)->Ok_0;
    let tensors = gguf::facts(source.tensors@);
    let config = model::model_config(source)->Ok_0;
    let totals = layer_totals(tensors, config.block_count as nat)->Ok_0;
    lemma_layer_totals(tensors, config.block_count as nat);
    lemma_ascending(totals.sizes);
    let sorted = ascending(totals.sizes);
    lemma_prefix_capacity(sorted, plan.layer_cache_capacity_bytes);
    assert(totals.sizes =~= Seq::new(
        plan.block_count as nat,
        |i: int|
            accounting::layer_memory(
                layer::layer_tensors(tensors, i as nat),
            )->Ok_0.resident_bytes,
    )) by {
        assert forall|i: int| 0 <= i < plan.block_count implies #[trigger] totals.sizes[i]
            == accounting::layer_memory(
            layer::layer_tensors(tensors, i as nat),
        )->Ok_0.resident_bytes by {
            let at = i as nat;
            assert(accounting::layer_memory(layer::layer_tensors(tensors, at)) is Ok);
        }
    }
    sorted
}

/// A persistent tensor is kept in memory where it takes at most a quarter of the
/// budget there: four bytes an element as floats, its bytes in the file otherwise.
pub open spec fn within_a_quarter(tensor: gguf::TensorFacts, ram_budget_bytes: u64) -> bool {
    if tensor.ggml_type == gguf::GgmlType::F32 || tensor.ggml_type == gguf::GgmlType::F16
        || tensor.ggml_type == gguf::GgmlType::BF16 {
        16 * tensor.num_elements <= ram_budget_bytes
    } else {
        4 * tensor.byte_length->0 <= ram_budget_bytes
    }
}

/// The tensor, where there is one and it is kept in memory.
pub open spec fn kept_in_memory(tensor: Option<gguf::TensorFacts>, ram_budget_bytes: u64) -> Seq<
    gguf::TensorFacts,
> {
    match tensor {
        Some(facts) => if within_a_quarter(facts, ram_budget_bytes) {
            seq![facts]
        } else {
            Seq::empty()
        },
        None => Seq::empty(),
    }
}

proof fn lemma_add_persistent(
    totals: PersistentTotals,
    kept: Seq<gguf::TensorFacts>,
    tensor: Option<gguf::TensorFacts>,
    ram_budget_bytes: u64,
)
    requires
        accounting::layer_memory(kept) == Ok::<accounting::LayerMemoryEstimate, Seq<char>>(
            accounting::LayerMemoryEstimate {
                resident_bytes: totals.resident_bytes,
                load_peak_bytes: totals.startup_peak_bytes,
            },
        ),
        totals.resident_count == kept.len(),
        kept.len() < 3,
        totals.streamed_count < 3,
        add_persistent(totals, tensor, ram_budget_bytes) is Ok,
    ensures
        ({
            let next = add_persistent(totals, tensor, ram_budget_bytes)->Ok_0;
            let more = kept + kept_in_memory(tensor, ram_budget_bytes);
            &&& accounting::layer_memory(more) == Ok::<accounting::LayerMemoryEstimate, Seq<char>>(
                accounting::LayerMemoryEstimate {
                    resident_bytes: next.resident_bytes,
                    load_peak_bytes: next.startup_peak_bytes,
                },
            )
            &&& next.resident_count == more.len()
            &&& next.streamed_count == totals.streamed_count + (if tensor is Some && more.len()
                == kept.len() {
                1int
            } else {
                0
            })
        }),
{
    let more = kept + kept_in_memory(tensor, ram_budget_bytes);
    match tensor {
        None => {
            assert(more =~= kept);
        },
        Some(facts) => {
            gguf::lemma_resident_bytes(facts.ggml_type, facts.num_elements, facts.byte_length->0);
            if within_a_quarter(facts, ram_budget_bytes) {
                assert(more.drop_last() =~= kept);
                assert(more.last() == facts);
            } else {
                assert(more =~= kept);
            }
        },
    }
}

/// What the persistent tensors charge at startup is what loading those that are
/// kept in memory charges, one after another: embedding, output norm, output.
/// Those that are there and not kept are counted as streamed.
pub proof fn lemma_persistent_startup(source: GgufModel, ram_budget_bytes: u64)
    requires
        preflight(source, ram_budget_bytes) is Ok,
    ensures
        ({
            let plan = preflight(source, ram_budget_bytes)->Ok_0;
            let tensors = gguf::facts(source.tensors@);
            let embedding = layer::first_named(tensors, "token_embd.weight"@);
            let norm = layer::first_named(tensors, "output_norm.weight"@);
            let output = layer::first_named(tensors, "output.weight"@);
            let kept = kept_in_memory(embedding, ram_budget_bytes) + kept_in_memory(
                norm,
                ram_budget_bytes,
            ) + kept_in_memory(output, ram_budget_bytes);
            let loaded = accounting::layer_memory(kept);
            let present = (if embedding is Some {
                1int
            } else {
                0
            }) + (if norm is Some {
                1int
            } else {
                0
            }) + (if output is Some {
                1int
            } else {
                0
            });
            &&& loaded is Ok
            &&& plan.persistent_resident_bytes == loaded->Ok_0.resident_bytes
            &&& plan.persistent_startup_peak_bytes == loaded->Ok_0.load_peak_bytes
            &&& plan.resident_persistent_count == kept.len()
            &&& plan.resident_persistent_count + plan.streamed_persistent_count == present
        }),
{
    let tensors = gguf::facts(source.tensors@);
    let embedding = layer::first_named(tensors, "token_embd.weight"@);
    let norm = layer::first_named(tensors, "output_norm.weight"@);
    let output = layer::first_named(tensors, "output.weight"@);
    let none = Seq::<gguf::TensorFacts>::empty();
    let first = kept_in_memory(embedding, ram_budget_bytes);
    let second = kept_in_memory(norm, ram_budget_bytes);
    accounting::lemma_nothing_takes_nothing();
    let one = add_persistent(no_persistents(), embedding, ram_budget_bytes)->Ok_0;
    lemma_add_persistent(no_persistents(), none, embedding, ram_budget_bytes);
    assert(none + first =~= first);
    let two = add_persistent(one, norm, ram_budget_bytes)->Ok_0;
    lemma_add_persistent(one, first, norm, ram_budget_bytes);
    lemma_add_persistent(two, first + second, output, ram_budget_bytes);
}

/// The sum of `values`.
pub open spec fn summed(values: Seq<int>) -> int
    decreases values.len(),
{
    if values.len() == 0 {
        0
    } else {
        summed(values.drop_last()) + values.last()
    }
}

/// The bounds that the informational cache capacity keeps: half of a budget under
/// two mebibytes, and otherwise at least a mebibyte that leaves a mebibyte free.
pub proof fn lemma_cache_bound(ram_budget_bytes: u64)
    ensures
        ({
            let bound = cache_bound(ram_budget_bytes);
            &&& ram_budget_bytes < 2097152 ==> 2 * bound <= ram_budget_bytes < 2 * bound + 2
            &&& ram_budget_bytes >= 2097152 ==> 1048576 <= bound <= ram_budget_bytes - 1048576
            &&& 0 <= bound <= ram_budget_bytes
        }),
{
}

/// What a plan says of the file and the budget: whether the whole file fits, and
/// how much of it has to stay on disk.
pub proof fn lemma_plan_facts(plan: PlanResult, source: GgufModel, ram_budget_bytes: u64)
    requires
        is_plan_of(plan, source, ram_budget_bytes),
    ensures
        plan.file_size == source.file_size,
        plan.ram_requested == ram_budget_bytes,
        plan.available == ram_budget_bytes,
        plan.overhead_reserved == 0,
        plan.fits_in_ram <==> source.file_size <= ram_budget_bytes,
        plan.fits_in_ram ==> plan.file_backed_needed == 0,
        !plan.fits_in_ram ==> plan.file_backed_needed + ram_budget_bytes == source.file_size,
        plan.tensor_count == source.tensors@.len(),
        plan.execution_memory is Some <==> preflight(source, ram_budget_bytes) is Ok,
        plan.execution_preflight_error is Some <==> plan.execution_memory is None,
        plan.execution_memory is Some ==> plan.execution_memory->0 == preflight(
            source,
            ram_budget_bytes,
        )->Ok_0,
{
}

proof fn lemma_traffic(tensors: Seq<gguf::TensorFacts>, count: nat)
    requires
        tensors.len() <= usize::MAX,
    ensures
        ({
            let reads = traffic(tensors, count);
            &&& reads.logical_bytes + reads.gap_bytes == reads.physical_bytes
            &&& 0 <= reads.physical_reads <= reads.logical_reads
            &&& 0 <= reads.gap_bytes
            &&& 0 <= reads.logical_bytes
            &&& reads.logical_reads == summed(
                Seq::new(count, |i: int| layer::layer_tensors(tensors, i as nat).len() as int),
            )
            &&& reads.logical_bytes == summed(
                Seq::new(count, |i: int| known_bytes(layer::layer_tensors(tensors, i as nat))),
            )
        }),
    decreases count,
{
    let lengths = Seq::new(count, |i: int| layer::layer_tensors(tensors, i as nat).len() as int);
    let bytes = Seq::new(count, |i: int| known_bytes(layer::layer_tensors(tensors, i as nat)));
    if count > 0 {
        let last = (count - 1) as nat;
        lemma_traffic(tensors, last);
        let members = layer::layer_tensors(tensors, last);
        layer::lemma_layer_count(tensors, last);
        lemma_layer_traffic(members);
        assert(lengths.drop_last() =~= Seq::new(
            last,
            |i: int| layer::layer_tensors(tensors, i as nat).len() as int,
        ));
        assert(bytes.drop_last() =~= Seq::new(
            last,
            |i: int| known_bytes(layer::layer_tensors(tensors, i as nat)),
        ));
    }
}

proof fn lemma_layer_traffic(members: Seq<gguf::TensorFacts>)
    requires
        members.len() <= usize::MAX,
    ensures
        ({
            let one = layer_traffic(members);
            &&& one.logical_bytes + one.gap_bytes == one.physical_bytes
            &&& 0 <= one.physical_reads <= one.logical_reads
            &&& 0 <= one.gap_bytes
            &&& one.logical_reads == members.len()
            &&& one.logical_bytes == known_bytes(members)
            &&& one.logical_bytes >= 0
        }),
{
    lemma_known_bytes(members);
    if layer_read::read_plan(members) is Ok {
        layer_read::lemma_read_plan_bytes(members);
        layer_read::lemma_read_plan_exists(members);
        lemma_known_lengths(members);
    }
}

proof fn lemma_known_bytes(members: Seq<gguf::TensorFacts>)
    ensures
        known_bytes(members) >= 0,
    decreases members.len(),
{
    if members.len() > 0 {
        lemma_known_bytes(members.drop_last());
    }
}

proof fn lemma_known_lengths(members: Seq<gguf::TensorFacts>)
    requires
        layer_read::extents_known(members),
    ensures
        known_bytes(members) == layer_read::lengths_sum(members),
    decreases members.len(),
{
    if members.len() > 0 {
        let shorter = members.drop_last();
        assert(members[members.len() - 1].byte_length is Some);
        assert(forall|i: int| 0 <= i < shorter.len() ==> #[trigger] shorter[i] == members[i]);
        assert(layer_read::extents_known(shorter));
        lemma_known_lengths(shorter);
    }
}

/// What a pass over the layers reads: every tensor of every layer, with the bytes
/// of all of them as logical bytes; what is read besides are gaps, and no tensor
/// takes more than one read. Counts that exceed 64 bits are reported as the
/// largest such count.
pub proof fn lemma_forward_reads(source: GgufModel, ram_budget_bytes: u64)
    requires
        preflight(source, ram_budget_bytes) is Ok,
    ensures
        ({
            let plan = preflight(source, ram_budget_bytes)->Ok_0;
            let tensors = gguf::facts(source.tensors@);
            let count = plan.block_count as nat;
            let tensor_count = summed(
                Seq::new(count, |i: int| layer::layer_tensors(tensors, i as nat).len() as int),
            );
            let bytes = summed(
                Seq::new(count, |i: int| known_bytes(layer::layer_tensors(tensors, i as nat))),
            );
            &&& tensor_count <= u64::MAX ==> plan.logical_tensor_reads_per_forward == tensor_count
            &&& plan.estimated_physical_reads_per_forward <= plan.logical_tensor_reads_per_forward
            &&& bytes <= u64::MAX ==> plan.logical_tensor_bytes_per_forward == bytes
            &&& plan.estimated_physical_bytes_per_forward < u64::MAX
                ==> plan.estimated_physical_bytes_per_forward
                == plan.logical_tensor_bytes_per_forward + plan.estimated_gap_bytes_per_forward
        }),
{
    let tensors = gguf::facts(source.tensors@);
    let config = model::model_config(source)->Ok_0;
    assert(tensors.len() == source.tensors@.len());
    assert(source.tensors@.len() == source.tensors.len());
    lemma_traffic(tensors, config.block_count as nat);
}

} // verus!
