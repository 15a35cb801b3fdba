//! Shared runtime memory-accounting formulas.
//!
//! Planning and execution must use the same load-transient rules. These
//! helpers calculate charges only; they never allocate or read tensor data.

use vstd::prelude::*;
use vstd::string::*;

use crate::gguf;
use crate::gguf::{resident_bytes_for, GgmlType, TensorDescriptor};
use crate::layer_read;
use crate::layer_read::LayerReadPlan;
use crate::text;

verus! {

#[derive(Debug, Clone, Copy, PartialEq, Eq, Structural)]
pub struct LayerMemoryEstimate {
    pub resident_bytes: u64,
    pub load_peak_bytes: u64,
}

/// How many times the file bytes are owned while a tensor is constructed: floats
/// that are decoded own the raw 2-byte values and the F32 result together.
pub open spec fn load_factor(ggml_type: GgmlType) -> u64 {
    match ggml_type {
        GgmlType::F16 | GgmlType::BF16 => 3,
        _ => 1,
    }
}

pub open spec fn load_charge(ggml_type: GgmlType, file_bytes: u64) -> Result<u64, Seq<char>> {
    if file_bytes * load_factor(ggml_type) <= u64::MAX {
        Ok((file_bytes * load_factor(ggml_type)) as u64)
    } else {
        Err(
            "tensor size overflow computing load charge ("@ + text::decimal(file_bytes as nat)
                + " bytes x "@ + text::decimal(load_factor(ggml_type) as nat) + " for "@
                + ggml_type.spec_name() + ")"@,
        )
    }
}

/// Peak managed charge while constructing one tensor from `file_bytes`.
///
/// - Direct F32 and compact quantized tensors own one representation: 1x.
/// - F16/BF16 temporarily own raw 2-byte values plus decoded F32: 3x.
pub fn tensor_load_charge_bytes(ggml_type: GgmlType, file_bytes: u64) -> (result: Result<
    u64,
    String,
>)
    ensures
        text::text_result(result) == load_charge(ggml_type, file_bytes),
{
    let factor: u64 = match ggml_type {
        GgmlType::F16 | GgmlType::BF16 => 3,
        _ => 1,
    };
    match file_bytes.checked_mul(factor) {
        Some(charge) => Ok(charge),
        None => {
            let mut message = "tensor size overflow computing load charge (".to_owned();
            text::push_decimal(&mut message, file_bytes);
            message.append(" bytes x ");
            text::push_decimal(&mut message, factor);
            message.append(" for ");
            message.append(ggml_type.name().as_str());
            message.append(")");
            Err(message)
        },
    }
}

pub open spec fn at_least_one(value: u64) -> u64 {
    if value == 0 {
        1
    } else {
        value
    }
}

pub open spec fn larger(left: u64, right: u64) -> u64 {
    if left >= right {
        left
    } else {
        right
    }
}

/// The bytes one tensor keeps charged once it is loaded, never less than one.
pub open spec fn settled_charge(tensor: gguf::TensorFacts) -> Result<u64, Seq<char>> {
    match tensor.byte_length {
        None => Err("tensor '"@ + tensor.name + "' byte length is unknown"@),
        Some(file_bytes) => match gguf::resident_bytes_spec(
            tensor.ggml_type,
            tensor.num_elements,
            file_bytes,
        ) {
            Err(error) => Err("tensor '"@ + tensor.name + "': "@ + error),
            Ok(resident) => Ok(at_least_one(resident)),
        },
    }
}

/// The state after loading one more tensor on its own: its load charge raises
/// the peak over what has settled, then its resident bytes settle.
pub open spec fn load_one(state: LayerMemoryEstimate, tensor: gguf::TensorFacts) -> Result<
    LayerMemoryEstimate,
    Seq<char>,
> {
    match tensor.byte_length {
        None => Err("tensor '"@ + tensor.name + "' byte length is unknown"@),
        Some(file_bytes) => match load_charge(tensor.ggml_type, file_bytes) {
            Err(error) => Err(error),
            Ok(charge) => if state.resident_bytes + at_least_one(charge) > u64::MAX {
                Err("layer load peak overflow at tensor '"@ + tensor.name + "'"@)
            } else {
                match settled_charge(tensor) {
                    Err(error) => Err(error),
                    Ok(settled) => if state.resident_bytes + settled > u64::MAX {
                        Err("layer resident size overflow at tensor '"@ + tensor.name + "'"@)
                    } else {
                        Ok(
                            LayerMemoryEstimate {
                                resident_bytes: (state.resident_bytes + settled) as u64,
                                load_peak_bytes: larger(
                                    state.load_peak_bytes,
                                    (state.resident_bytes + at_least_one(charge)) as u64,
                                ),
                            },
                        )
                    },
                }
            },
        },
    }
}

pub open spec fn nothing_loaded() -> LayerMemoryEstimate {
    LayerMemoryEstimate { resident_bytes: 0, load_peak_bytes: 0 }
}

/// The charges of loading `tensors` one after another.
pub open spec fn layer_memory(tensors: Seq<gguf::TensorFacts>) -> Result<
    LayerMemoryEstimate,
    Seq<char>,
>
    decreases tensors.len(),
{
    if tensors.len() == 0 {
        Ok(nothing_loaded())
    } else {
        match layer_memory(tensors.drop_last()) {
            Err(error) => Err(error),
            Ok(state) => load_one(state, tensors.last()),
        }
    }
}

proof fn lemma_layer_memory_prefix(tensors: Seq<gguf::TensorFacts>, upto: int)
    requires
        0 <= upto <= tensors.len(),
        layer_memory(tensors.take(upto)) is Err,
    ensures
        layer_memory(tensors) == layer_memory(tensors.take(upto)),
    decreases tensors.len() - upto,
{
    if upto < tensors.len() {
        assert(tensors.take(upto + 1).drop_last() =~= tensors.take(upto));
        lemma_layer_memory_prefix(tensors, upto + 1);
    } else {
        assert(tensors.take(upto) =~= tensors);
    }
}

/// Loading further tensors lowers neither the resident bytes nor the load peak.
pub proof fn lemma_layer_memory_monotone(tensors: Seq<gguf::TensorFacts>, upto: int)
    requires
        0 <= upto <= tensors.len(),
        layer_memory(tensors) is Ok,
    ensures
        layer_memory(tensors.take(upto)) is Ok,
        layer_memory(tensors.take(upto))->Ok_0.resident_bytes <= layer_memory(
            tensors,
        )->Ok_0.resident_bytes,
        layer_memory(tensors.take(upto))->Ok_0.load_peak_bytes <= layer_memory(
            tensors,
        )->Ok_0.load_peak_bytes,
    decreases tensors.len(),
{
    if upto == tensors.len() {
        assert(tensors.take(upto) =~= tensors);
    } else {
        lemma_layer_memory_monotone(tensors.drop_last(), upto);
        assert(tensors.drop_last().take(upto) =~= tensors.take(upto));
    }
}

fn unknown_length(name: &str) -> (message: String)
    ensures
        message@ == "tensor '"@ + name@ + "' byte length is unknown"@,
{
    let mut message = "tensor '".to_owned();
    message.append(name);
    message.append("' byte length is unknown");
    message
}

fn settled_charge_of(descriptor: &TensorDescriptor) -> (result: Result<u64, String>)
    ensures
        text::text_result(result) == settled_charge(descriptor@),
{
    let file_bytes: u64 = match descriptor.byte_length {
        Some(file_bytes) => file_bytes,
        None => {
            return Err(unknown_length(descriptor.name.as_str()));
        },
    };
    match resident_bytes_for(descriptor.ggml_type, descriptor.num_elements, file_bytes) {
        Ok(resident) => Ok(
            if resident == 0 {
                1
            } else {
                resident
            },
        ),
        Err(error) => {
            let mut message = "tensor '".to_owned();
            message.append(descriptor.name.as_str());
            message.append("': ");
            message.append(error.as_str());
            Err(message)
        },
    }
}

fn load_one_tensor(state: LayerMemoryEstimate, descriptor: &TensorDescriptor) -> (result: Result<
    LayerMemoryEstimate,
    String,
>)
    ensures
        text::text_result(result) == load_one(state, descriptor@),
{
    let file_bytes: u64 = match descriptor.byte_length {
        Some(file_bytes) => file_bytes,
        None => {
            return Err(unknown_length(descriptor.name.as_str()));
        },
    };
    let raw_charge: u64 = match tensor_load_charge_bytes(descriptor.ggml_type, file_bytes) {
        Ok(charge) => charge,
        Err(error) => {
            return Err(error);
        },
    };
    let charge: u64 = if raw_charge == 0 {
        1
    } else {
        raw_charge
    };
    let peak: u64 = match state.resident_bytes.checked_add(charge) {
        Some(peak) => peak,
        None => {
            let mut message = "layer load peak overflow at tensor '".to_owned();
            message.append(descriptor.name.as_str());
            message.append("'");
            return Err(message);
        },
    };
    let settled: u64 = match settled_charge_of(descriptor) {
        Ok(settled) => settled,
        Err(error) => {
            return Err(error);
        },
    };
    match state.resident_bytes.checked_add(settled) {
        Some(resident_bytes) => Ok(
            LayerMemoryEstimate {
                resident_bytes,
                load_peak_bytes: if state.load_peak_bytes >= peak {
                    state.load_peak_bytes
                } else {
                    peak
                },
            },
        ),
        None => {
            let mut message = "layer resident size overflow at tensor '".to_owned();
            message.append(descriptor.name.as_str());
            message.append("'");
            Err(message)
        },
    }
}

pub fn estimate_layer_memory(tensors: &[TensorDescriptor]) -> (result: Result<
    LayerMemoryEstimate,
    String,
>)
    ensures
        text::text_result(result) == layer_memory(gguf::facts(tensors@)),
{
    let ghost all = gguf::facts(tensors@);
    let mut state = LayerMemoryEstimate { resident_bytes: 0, load_peak_bytes: 0 };
    for i in 0..tensors.len()
        invariant
            all == gguf::facts(tensors@),
            layer_memory(all.take(i as int)) == Ok::<LayerMemoryEstimate, Seq<char>>(state),
    {
        proof {
            assert(all.take(i as int + 1).drop_last() =~= all.take(i as int));
            assert(all.take(i as int + 1).last() == tensors@[i as int]@);
        }
        match load_one_tensor(state, &tensors[i]) {
            Ok(next) => {
                state = next;
            },
            Err(error) => {
                proof {
                    lemma_layer_memory_prefix(all, i as int + 1);
                }
                return Err(error);
            },
        }
    }
    assert(all.take(all.len() as int) =~= all);
    Ok(state)
}

/// The bytes that the tensors of one grouped read settle together.
pub open spec fn grouped_settled(
    tensors: Seq<gguf::TensorFacts>,
    planned: Seq<layer_read::PlannedTensor>,
) -> Result<u64, Seq<char>>
    decreases planned.len(),
{
    if planned.len() == 0 {
        Ok(0)
    } else {
        match grouped_settled(tensors, planned.drop_last()) {
            Err(error) => Err(error),
            Ok(total) => match settled_charge(tensors[planned.last().descriptor_index as int]) {
                Err(error) => Err(error),
                Ok(settled) => if total + settled > u64::MAX {
                    Err("coalesced range resident size overflow"@)
                } else {
                    Ok((total + settled) as u64)
                },
            },
        }
    }
}

/// The state after one planned read: a single tensor loads on its own; a grouped
/// read holds its whole buffer beside everything it settles.
pub open spec fn load_range(
    state: LayerMemoryEstimate,
    tensors: Seq<gguf::TensorFacts>,
    range: layer_read::RangeFacts,
) -> Result<LayerMemoryEstimate, Seq<char>> {
    if range.tensors.len() == 1 {
        load_one(state, tensors[range.tensors[0].descriptor_index as int])
    } else {
        match grouped_settled(tensors, range.tensors) {
            Err(error) => Err(error),
            Ok(settled) => if state.resident_bytes + range.byte_length + settled > u64::MAX {
                Err("coalesced layer load peak overflow"@)
            } else {
                Ok(
                    LayerMemoryEstimate {
                        resident_bytes: (state.resident_bytes + settled) as u64,
                        load_peak_bytes: larger(
                            state.load_peak_bytes,
                            (state.resident_bytes + range.byte_length + settled) as u64,
                        ),
                    },
                )
            },
        }
    }
}

/// The charges of loading a layer through its planned reads.
pub open spec fn grouped_layer_memory(
    tensors: Seq<gguf::TensorFacts>,
    ranges: Seq<layer_read::RangeFacts>,
) -> Result<LayerMemoryEstimate, Seq<char>>
    decreases ranges.len(),
{
    if ranges.len() == 0 {
        Ok(nothing_loaded())
    } else {
        match grouped_layer_memory(tensors, ranges.drop_last()) {
            Err(error) => Err(error),
            Ok(state) => load_range(state, tensors, ranges.last()),
        }
    }
}

/// Every tensor that the ranges name exists.
pub open spec fn ranges_name_tensors(ranges: Seq<layer_read::RangeFacts>, count: nat) -> bool {
    forall|i: int, k: int|
        0 <= i < ranges.len() && 0 <= k < ranges[i].tensors.len() ==> (
        #[trigger] ranges[i].tensors[k]).descriptor_index < count
}

proof fn lemma_grouped_settled_prefix(
    tensors: Seq<gguf::TensorFacts>,
    planned: Seq<layer_read::PlannedTensor>,
    upto: int,
)
    requires
        0 <= upto <= planned.len(),
        grouped_settled(tensors, planned.take(upto)) is Err,
    ensures
        grouped_settled(tensors, planned) == grouped_settled(tensors, planned.take(upto)),
    decreases planned.len() - upto,
{
    if upto < planned.len() {
        assert(planned.take(upto + 1).drop_last() =~= planned.take(upto));
        lemma_grouped_settled_prefix(tensors, planned, upto + 1);
    } else {
        assert(planned.take(upto) =~= planned);
    }
}

proof fn lemma_grouped_layer_memory_prefix(
    tensors: Seq<gguf::TensorFacts>,
    ranges: Seq<layer_read::RangeFacts>,
    upto: int,
)
    requires
        0 <= upto <= ranges.len(),
        grouped_layer_memory(tensors, ranges.take(upto)) is Err,
    ensures
        grouped_layer_memory(tensors, ranges) == grouped_layer_memory(tensors, ranges.take(upto)),
    decreases ranges.len() - upto,
{
    if upto < ranges.len() {
        assert(ranges.take(upto + 1).drop_last() =~= ranges.take(upto));
        lemma_grouped_layer_memory_prefix(tensors, ranges, upto + 1);
    } else {
        assert(ranges.take(upto) =~= ranges);
    }
}

fn grouped_settled_of(
    tensors: &[TensorDescriptor],
    planned: &Vec<layer_read::PlannedTensor>,
) -> (result: Result<u64, String>)
    requires
        forall|k: int|
            0 <= k < planned@.len() ==> (#[trigger] planned@[k]).descriptor_index < tensors@.len(),
    ensures
        text::text_result(result) == grouped_settled(gguf::facts(tensors@), planned@),
{
    let ghost all = gguf::facts(tensors@);
    let mut total: u64 = 0;
    for k in 0..planned.len()
        invariant
            all == gguf::facts(tensors@),
            forall|k: int|
                0 <= k < planned@.len() ==> (#[trigger] planned@[k]).descriptor_index
                    < tensors@.len(),
            grouped_settled(all, planned@.take(k as int)) == Ok::<u64, Seq<char>>(total),
    {
        proof {
            assert(planned@.take(k as int + 1).drop_last() =~= planned@.take(k as int));
        }
        let index: usize = planned[k].descriptor_index;
        assert(all[index as int] == tensors@[index as int]@);
        match settled_charge_of(&tensors[index]) {
            Ok(settled) => match total.checked_add(settled) {
                Some(sum) => {
                    total = sum;
                },
                None => {
                    proof {
                        lemma_grouped_settled_prefix(all, planned@, k as int + 1);
                    }
                    return Err("coalesced range resident size overflow".to_owned());
                },
            },
            Err(error) => {
                proof {
                    lemma_grouped_settled_prefix(all, planned@, k as int + 1);
                }
                return Err(error);
            },
        }
    }
    assert(planned@.take(planned@.len() as int) =~= planned@);
    Ok(total)
}

pub fn estimate_grouped_layer_memory(tensors: &[TensorDescriptor], plan: &LayerReadPlan) -> (result:
    Result<LayerMemoryEstimate, String>)
    requires
        ranges_name_tensors(plan@.ranges, tensors@.len()),
    ensures
        text::text_result(result) == grouped_layer_memory(gguf::facts(tensors@), plan@.ranges),
{
    let ghost all = gguf::facts(tensors@);
    let ghost ranges = plan@.ranges;
    let mut state = LayerMemoryEstimate { resident_bytes: 0, load_peak_bytes: 0 };
    for i in 0..plan.ranges.len()
        invariant
            all == gguf::facts(tensors@),
            ranges == plan@.ranges,
            ranges_name_tensors(plan@.ranges, tensors@.len()),
            grouped_layer_memory(all, ranges.take(i as int)) == Ok::<
                LayerMemoryEstimate,
                Seq<char>,
            >(state),
    {
        let range = &plan.ranges[i];
        proof {
            assert(ranges.take(i as int + 1).drop_last() =~= ranges.take(i as int));
            assert(ranges.take(i as int + 1).last() == range@);
            assert(ranges[i as int] == range@);
            assert forall|k: int| 0 <= k < range.tensors@.len() implies (
            #[trigger] range.tensors@[k]).descriptor_index < tensors@.len() by {
                assert(ranges[i as int].tensors[k] == range.tensors@[k]);
            }
        }
        if range.tensors.len() == 1 {
            let index: usize = range.tensors[0].descriptor_index;
            assert(all[index as int] == tensors@[index as int]@);
            match load_one_tensor(state, &tensors[index]) {
                Ok(next) => {
                    state = next;
                },
                Err(error) => {
                    proof {
                        lemma_grouped_layer_memory_prefix(all, ranges, i as int + 1);
                    }
                    return Err(error);
                },
            }
        } else {
            let settled: u64 = match grouped_settled_of(tensors, &range.tensors) {
                Ok(settled) => settled,
                Err(error) => {
                    proof {
                        lemma_grouped_layer_memory_prefix(all, ranges, i as int + 1);
                    }
                    return Err(error);
                },
            };
            let peak: Option<u64> = match state.resident_bytes.checked_add(range.byte_length) {
                Some(held) => held.checked_add(settled),
                None => None,
            };
            match peak {
                Some(peak) => {
                    state =
                    LayerMemoryEstimate {
                        resident_bytes: state.resident_bytes + settled,
                        load_peak_bytes: if state.load_peak_bytes >= peak {
                            state.load_peak_bytes
                        } else {
                            peak
                        },
                    };
                },
                None => {
                    proof {
                        lemma_grouped_layer_memory_prefix(all, ranges, i as int + 1);
                    }
                    return Err("coalesced layer load peak overflow".to_owned());
                },
            }
        }
    }
    assert(ranges.take(ranges.len() as int) =~= ranges);
    Ok(state)
}

proof fn lemma_load_factor(ggml_type: GgmlType, file_bytes: u64)
    ensures
        ggml_type == GgmlType::F16 || ggml_type == GgmlType::BF16 ==> file_bytes * load_factor(
            ggml_type,
        ) == 3 * file_bytes,
        ggml_type != GgmlType::F16 && ggml_type != GgmlType::BF16 ==> file_bytes * load_factor(
            ggml_type,
        ) == file_bytes,
{
    let factor = load_factor(ggml_type);
    assert(factor == 3 ==> file_bytes * factor == 3 * file_bytes) by (nonlinear_arith);
    assert(factor == 1 ==> file_bytes * factor == file_bytes) by (nonlinear_arith);
}

/// What a tensor occupies while it is loaded and once it is: 16-bit floats hold
/// two bytes in the file and four decoded beside each other, everything else is
/// read into its final form; floats stay as four bytes an element, quantized
/// tensors as they are in the file; and every tensor counts for a byte at least.
pub proof fn lemma_tensor_charges(tensor: gguf::TensorFacts)
    requires
        layer_memory(seq![tensor]) is Ok,
    ensures
        ({
            let one = layer_memory(seq![tensor])->Ok_0;
            let file = tensor.byte_length->0 as int;
            let elements = tensor.num_elements as int;
            &&& tensor.byte_length is Some
            &&& one.load_peak_bytes >= 1 && one.resident_bytes >= 1
            &&& tensor.ggml_type == GgmlType::F16 || tensor.ggml_type == GgmlType::BF16 ==> {
                &&& file > 0 ==> one.load_peak_bytes == 3 * file
                &&& elements > 0 ==> one.resident_bytes == 4 * elements
            }
            &&& tensor.ggml_type == GgmlType::F32 ==> {
                &&& file > 0 ==> one.load_peak_bytes == file
                &&& elements > 0 ==> one.resident_bytes == 4 * elements
            }
            &&& tensor.ggml_type != GgmlType::F32 && tensor.ggml_type != GgmlType::F16
                && tensor.ggml_type != GgmlType::BF16 && file > 0 ==> {
                &&& one.load_peak_bytes == file
                &&& one.resident_bytes == file
            }
            &&& file == 0 ==> one.load_peak_bytes == 1
        }),
{
    assert(seq![tensor].drop_last() =~= Seq::empty());
    assert(layer_memory(seq![tensor].drop_last()) == Ok::<LayerMemoryEstimate, Seq<char>>(
        nothing_loaded(),
    ));
    assert(seq![tensor].last() == tensor);
    if tensor.byte_length is Some {
        lemma_load_factor(tensor.ggml_type, tensor.byte_length->0);
    }
}

/// Which formats can be loaded at all.
pub proof fn lemma_loadable_formats(tensor: gguf::TensorFacts)
    ensures
        layer_memory(seq![tensor]) is Ok ==> tensor.byte_length is Some && match tensor.ggml_type {
            GgmlType::Q4_1 | GgmlType::Q5_0 | GgmlType::Q5_1 | GgmlType::Q8_1
            | GgmlType::Other(_) => false,
            _ => true,
        },
        tensor.byte_length is Some && 3 * tensor.byte_length->0 <= u64::MAX && 4
            * tensor.num_elements <= u64::MAX && (match tensor.ggml_type {
            GgmlType::Q4_1 | GgmlType::Q5_0 | GgmlType::Q5_1 | GgmlType::Q8_1
            | GgmlType::Other(_) => false,
            _ => true,
        }) ==> layer_memory(seq![tensor]) is Ok,
{
    assert(seq![tensor].drop_last() =~= Seq::empty());
    assert(layer_memory(seq![tensor].drop_last()) == Ok::<LayerMemoryEstimate, Seq<char>>(
        nothing_loaded(),
    ));
    assert(seq![tensor].last() == tensor);
    if tensor.byte_length is Some {
        lemma_load_factor(tensor.ggml_type, tensor.byte_length->0);
    }
}

/// Loading tensors one after another: what is resident adds up, and each tensor
/// is loaded beside all that is resident before it. The peak is reached by one of
/// them and exceeded by none.
pub proof fn lemma_loading_adds_up(tensors: Seq<gguf::TensorFacts>, at: int)
    requires
        layer_memory(tensors) is Ok,
        0 <= at < tensors.len(),
    ensures
        layer_memory(tensors.take(at)) is Ok,
        layer_memory(seq![tensors[at]]) is Ok,
        layer_memory(tensors.take(at + 1)) is Ok,
        ({
            let before = layer_memory(tensors.take(at))->Ok_0;
            let one = layer_memory(seq![tensors[at]])->Ok_0;
            let after = layer_memory(tensors.take(at + 1))->Ok_0;
            let all = layer_memory(tensors)->Ok_0;
            &&& after.resident_bytes == before.resident_bytes + one.resident_bytes
            &&& before.resident_bytes + one.load_peak_bytes <= all.load_peak_bytes
            &&& after.resident_bytes <= all.resident_bytes
        }),
    decreases tensors.len(),
{
    lemma_layer_memory_monotone(tensors, at);
    lemma_layer_memory_monotone(tensors, at + 1);
    let upto = tensors.take(at + 1);
    assert(upto.drop_last() =~= tensors.take(at));
    assert(upto.last() == tensors[at]);
    assert(seq![tensors[at]].drop_last() =~= Seq::empty());
    assert(layer_memory(seq![tensors[at]].drop_last()) == Ok::<LayerMemoryEstimate, Seq<char>>(
        nothing_loaded(),
    ));
    assert(seq![tensors[at]].last() == tensors[at]);
}

/// The load peak of a layer with tensors is the peak of loading one of them.
pub proof fn lemma_peak_is_reached(tensors: Seq<gguf::TensorFacts>) -> (at: int)
    requires
        layer_memory(tensors) is Ok,
        tensors.len() > 0,
    ensures
        0 <= at < tensors.len(),
        layer_memory(tensors.take(at)) is Ok,
        layer_memory(seq![tensors[at]]) is Ok,
        layer_memory(tensors)->Ok_0.load_peak_bytes == layer_memory(
            tensors.take(at),
        )->Ok_0.resident_bytes + layer_memory(seq![tensors[at]])->Ok_0.load_peak_bytes,
    decreases tensors.len(),
{
    let end = tensors.len() - 1;
    let shorter = tensors.drop_last();
    assert(shorter =~= tensors.take(end));
    lemma_loading_adds_up(tensors, end);
    let one = layer_memory(seq![tensors[end]])->Ok_0;
    let before = layer_memory(shorter)->Ok_0;
    assert(seq![tensors[end]].drop_last() =~= Seq::empty());
    assert(layer_memory(seq![tensors[end]].drop_last()) == Ok::<LayerMemoryEstimate, Seq<char>>(
        nothing_loaded(),
    ));
    assert(seq![tensors[end]].last() == tensors[end]);
    if layer_memory(tensors)->Ok_0.load_peak_bytes == before.resident_bytes + one.load_peak_bytes {
        end
    } else {
        assert(layer_memory(tensors)->Ok_0.load_peak_bytes == before.load_peak_bytes);
        if shorter.len() == 0 {
            assert(before == nothing_loaded());
            assert(false);
            end
        } else {
            let found = lemma_peak_is_reached(shorter);
            assert(shorter.take(found) =~= tensors.take(found));
            assert(shorter[found] == tensors[found]);
            found
        }
    }
}

/// Nothing to load takes nothing.
pub proof fn lemma_nothing_takes_nothing()
    ensures
        layer_memory(Seq::empty()) is Ok,
        layer_memory(Seq::empty())->Ok_0.resident_bytes == 0,
        layer_memory(Seq::empty())->Ok_0.load_peak_bytes == 0,
{
}

/// The resident bytes of the tensors that a read brings, one by one.
pub open spec fn range_resident(
    tensors: Seq<gguf::TensorFacts>,
    planned: Seq<layer_read::PlannedTensor>,
) -> int
    decreases planned.len(),
{
    if planned.len() == 0 {
        0
    } else {
        range_resident(tensors, planned.drop_last()) + layer_memory(
            seq![tensors[planned.last().descriptor_index as int]],
        )->Ok_0.resident_bytes
    }
}

proof fn lemma_settled_alone(tensor: gguf::TensorFacts)
    requires
        settled_charge(tensor) is Ok,
        layer_memory(seq![tensor]) is Ok,
    ensures
        layer_memory(seq![tensor])->Ok_0.resident_bytes == settled_charge(tensor)->Ok_0,
{
    assert(seq![tensor].drop_last() =~= Seq::empty());
    assert(layer_memory(seq![tensor].drop_last()) == Ok::<LayerMemoryEstimate, Seq<char>>(
        nothing_loaded(),
    ));
    assert(seq![tensor].last() == tensor);
}

proof fn lemma_grouped_settled(
    tensors: Seq<gguf::TensorFacts>,
    planned: Seq<layer_read::PlannedTensor>,
)
    requires
        grouped_settled(tensors, planned) is Ok,
        forall|k: int|
            0 <= k < planned.len() ==> layer_memory(
                seq![tensors[(#[trigger] planned[k]).descriptor_index as int]],
            ) is Ok,
    ensures
        grouped_settled(tensors, planned)->Ok_0 == range_resident(tensors, planned),
    decreases planned.len(),
{
    if planned.len() > 0 {
        let shorter = planned.drop_last();
        assert(forall|k: int| 0 <= k < shorter.len() ==> #[trigger] shorter[k] == planned[k]);
        assert forall|k: int| 0 <= k < shorter.len() implies layer_memory(
            seq![tensors[(#[trigger] shorter[k]).descriptor_index as int]],
        ) is Ok by {
            assert(layer_memory(seq![tensors[planned[k].descriptor_index as int]]) is Ok);
        }
        lemma_grouped_settled(tensors, shorter);
        assert(planned[planned.len() - 1] == planned.last());
        lemma_settled_alone(tensors[planned.last().descriptor_index as int]);
    }
}

/// Loading with grouped reads: what is resident adds up as it does without, and a
/// read of several tensors is held, in full, beside all its tensors and all that
/// is resident before. A read of a single tensor loads as that tensor does.
pub proof fn lemma_grouped_loading(
    tensors: Seq<gguf::TensorFacts>,
    ranges: Seq<layer_read::RangeFacts>,
)
    requires
        ranges.len() > 0,
        ranges.last().byte_length >= 0,
        grouped_layer_memory(tensors, ranges) is Ok,
        forall|k: int|
            0 <= k < ranges.last().tensors.len() ==> layer_memory(
                seq![tensors[(#[trigger] ranges.last().tensors[k]).descriptor_index as int]],
            ) is Ok,
    ensures
        grouped_layer_memory(tensors, ranges.drop_last()) is Ok,
        ({
            let before = grouped_layer_memory(tensors, ranges.drop_last())->Ok_0;
            let after = grouped_layer_memory(tensors, ranges)->Ok_0;
            let range = ranges.last();
            let own = range_resident(tensors, range.tensors);
            let single = layer_memory(seq![tensors[range.tensors[0].descriptor_index as int]])->Ok_0;
            let held = if range.tensors.len() == 1 {
                single.load_peak_bytes as int
            } else {
                range.byte_length + own
            };
            &&& after.resident_bytes == before.resident_bytes + own
            &&& after.load_peak_bytes >= before.load_peak_bytes
            &&& after.load_peak_bytes >= before.resident_bytes + held
            &&& after.load_peak_bytes == before.load_peak_bytes || after.load_peak_bytes
                == before.resident_bytes + held
        }),
{
    let range = ranges.last();
    if range.tensors.len() == 1 {
        let tensor = tensors[range.tensors[0].descriptor_index as int];
        assert(range.tensors.last() == range.tensors[0]);
        assert(layer_memory(seq![tensor]) is Ok);
        assert(range.tensors.drop_last() =~= Seq::empty());
        assert(range_resident(tensors, range.tensors.drop_last()) == 0);
        assert(seq![tensor].drop_last() =~= Seq::empty());
        assert(layer_memory(seq![tensor].drop_last()) == Ok::<LayerMemoryEstimate, Seq<char>>(
            nothing_loaded(),
        ));
        assert(seq![tensor].last() == tensor);
    } else {
        lemma_grouped_settled(tensors, range.tensors);
    }
}

/// The larger of two numbers is one of them and below neither.
pub proof fn lemma_larger(left: u64, right: u64)
    ensures
        larger(left, right) >= left,
        larger(left, right) >= right,
        larger(left, right) == left || larger(left, right) == right,
{
}

} // verus!
