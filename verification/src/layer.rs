//! Layer-oriented model representation for out-of-core streaming.
//!
//! Groups required tensors by transformer layer to enable loading one layer at a time.

use vstd::prelude::*;
use vstd::string::*;

use crate::gguf;
use crate::gguf::{total_byte_length, GgufModel, TensorDescriptor};
use crate::text;

verus! {

#[derive(Debug, Clone)]
pub struct LayerDescriptor {
    pub layer_idx: usize,
    pub tensors: Vec<TensorDescriptor>,
    /// Total byte length of all tensors in this layer when determinable
    pub total_bytes: Option<u64>,
}

impl LayerDescriptor {
    pub fn new(layer_idx: usize, tensors: Vec<TensorDescriptor>) -> (layer: Self)
        ensures
            layer.layer_idx == layer_idx,
            layer.tensors == tensors,
            layer.total_bytes == gguf::sum_byte_lengths(gguf::facts(tensors@)),
    {
        let total_bytes = total_byte_length(tensors.as_slice());
        LayerDescriptor { layer_idx, tensors, total_bytes }
    }

    pub fn tensor_names(&self) -> (names: Vec<String>)
        ensures
            names@.len() == self.tensors@.len(),
            forall|i: int|
                0 <= i < names@.len() ==> (#[trigger] names@[i])@ == self.tensors@[i].name@,
    {
        let mut names: Vec<String> = Vec::new();
        for i in 0..self.tensors.len()
            invariant
                names@.len() == i,
                forall|j: int|
                    0 <= j < names@.len() ==> (#[trigger] names@[j])@ == self.tensors@[j].name@,
        {
            names.push(self.tensors[i].name.clone());
        }
        names
    }
}

/// The name prefix of the tensors of layer `index`.
pub open spec fn layer_prefix(index: nat) -> Seq<char> {
    "blk."@ + text::decimal(index) + "."@
}

/// The tensors of layer `index`, in file order of their descriptors.
pub open spec fn layer_tensors(tensors: Seq<gguf::TensorFacts>, index: nat) -> Seq<
    gguf::TensorFacts,
> {
    tensors.filter(|tensor: gguf::TensorFacts| text::has_prefix(tensor.name, layer_prefix(index)))
}

/// Layer `index` as grouping builds it.
pub open spec fn is_layer(
    layer: LayerDescriptor,
    tensors: Seq<gguf::TensorFacts>,
    index: nat,
) -> bool {
    &&& layer.layer_idx == index
    &&& gguf::facts(layer.tensors@) == layer_tensors(tensors, index)
    &&& layer.total_bytes == gguf::sum_byte_lengths(layer_tensors(tensors, index))
}

fn layer_prefix_of(index: usize) -> (prefix: String)
    ensures
        prefix@ == layer_prefix(index as nat),
{
    let mut prefix = "blk.".to_owned();
    text::push_decimal(&mut prefix, index as u64);
    prefix.append(".");
    prefix
}

fn collect_layer(model: &GgufModel, index: usize) -> (layer: LayerDescriptor)
    ensures
        is_layer(layer, gguf::facts(model.tensors@), index as nat),
{
    let ghost all = gguf::facts(model.tensors@);
    let ghost wanted = |tensor: gguf::TensorFacts|
        text::has_prefix(tensor.name, layer_prefix(index as nat));
    let prefix = layer_prefix_of(index);
    let mut tensors: Vec<TensorDescriptor> = Vec::new();
    proof {
        reveal(Seq::filter);
        assert(gguf::facts(tensors@) =~= all.take(0).filter(wanted));
    }
    for i in 0..model.tensors.len()
        invariant
            all == gguf::facts(model.tensors@),
            wanted == (|tensor: gguf::TensorFacts|
                text::has_prefix(tensor.name, layer_prefix(index as nat))),
            prefix@ == layer_prefix(index as nat),
            gguf::facts(tensors@) == all.take(i as int).filter(wanted),
    {
        let descriptor = &model.tensors[i];
        let ghost before = tensors@;
        proof {
            reveal(Seq::filter);
            assert(all.take(i as int + 1).drop_last() =~= all.take(i as int));
            assert(all.take(i as int + 1).last() == descriptor@);
        }
        if text::starts_with(descriptor.name.as_str(), prefix.as_str()) {
            tensors.push(descriptor.clone());
            assert(gguf::facts(tensors@) =~= gguf::facts(before).push(descriptor@));
        }
    }
    assert(all.take(all.len() as int) =~= all);
    LayerDescriptor::new(index, tensors)
}

/// Group tensors by layer: layer `i` holds the tensors named `blk.{i}.*`.
/// The result is sorted by layer index.
pub fn group_layers(model: &GgufModel, block_count: usize) -> (layers: Vec<LayerDescriptor>)
    ensures
        layers@.len() == block_count,
        forall|i: int|
            0 <= i < block_count ==> is_layer(
                #[trigger] layers@[i],
                gguf::facts(model.tensors@),
                i as nat,
            ),
{
    let mut layers: Vec<LayerDescriptor> = Vec::new();
    for i in 0..block_count
        invariant
            layers@.len() == i,
            forall|j: int|
                0 <= j < i ==> is_layer(
                    #[trigger] layers@[j],
                    gguf::facts(model.tensors@),
                    j as nat,
                ),
    {
        layers.push(collect_layer(model, i));
    }
    layers
}

/// Persistent (non-layer) tensors
#[derive(Debug, Clone)]
pub struct PersistentDescriptors {
    pub token_embd: Option<TensorDescriptor>,
    pub output_norm: Option<TensorDescriptor>,
    pub output: Option<TensorDescriptor>,
}

/// The first tensor called `name`.
pub open spec fn first_named(tensors: Seq<gguf::TensorFacts>, name: Seq<char>) -> Option<
    gguf::TensorFacts,
>
    decreases tensors.len(),
{
    if tensors.len() == 0 {
        None
    } else if tensors[0].name == name {
        Some(tensors[0])
    } else {
        first_named(tensors.drop_first(), name)
    }
}

pub open spec fn optional_facts(tensor: Option<TensorDescriptor>) -> Option<gguf::TensorFacts> {
    match tensor {
        Some(descriptor) => Some(descriptor@),
        None => None,
    }
}

fn find_named(model: &GgufModel, name: &str) -> (found: Option<TensorDescriptor>)
    ensures
        optional_facts(found) == first_named(gguf::facts(model.tensors@), name@),
{
    let ghost all = gguf::facts(model.tensors@);
    assert(all.skip(0) =~= all);
    for i in 0..model.tensors.len()
        invariant
            all == gguf::facts(model.tensors@),
            first_named(all, name@) == first_named(all.skip(i as int), name@),
    {
        let descriptor = &model.tensors[i];
        assert(all.skip(i as int)[0] == descriptor@);
        if text::str_equal(descriptor.name.as_str(), name) {
            return Some(descriptor.clone());
        }
        assert(all.skip(i as int).drop_first() =~= all.skip(i as int + 1));
    }
    None
}

/// One more tensor's bytes in a running sum: the sum is lost where a length is
/// unknown or the total reaches the largest 64-bit value.
pub open spec fn add_known(sum: Option<u64>, tensor: Option<gguf::TensorFacts>) -> Option<u64> {
    match (sum, tensor) {
        (None, _) => None,
        (Some(total), None) => Some(total),
        (Some(total), Some(facts)) => match facts.byte_length {
            None => None,
            Some(bytes) => if total + bytes >= u64::MAX {
                None
            } else {
                Some((total + bytes) as u64)
            },
        },
    }
}

fn add_known_bytes(sum: Option<u64>, tensor: &Option<TensorDescriptor>) -> (total: Option<u64>)
    ensures
        total == add_known(sum, optional_facts(*tensor)),
{
    match (sum, tensor) {
        (None, _) => None,
        (Some(total), None) => Some(total),
        (Some(total), Some(descriptor)) => match descriptor.byte_length {
            None => None,
            Some(bytes) => {
                let next: u64 = total.saturating_add(bytes);
                if next == u64::MAX {
                    None
                } else {
                    Some(next)
                }
            },
        },
    }
}

impl PersistentDescriptors {
    pub fn from_model(model: &GgufModel) -> (found: Self)
        ensures
            optional_facts(found.token_embd) == first_named(
                gguf::facts(model.tensors@),
                "token_embd.weight"@,
            ),
            optional_facts(found.output_norm) == first_named(
                gguf::facts(model.tensors@),
                "output_norm.weight"@,
            ),
            optional_facts(found.output) == first_named(
                gguf::facts(model.tensors@),
                "output.weight"@,
            ),
    {
        PersistentDescriptors {
            token_embd: find_named(model, "token_embd.weight"),
            output_norm: find_named(model, "output_norm.weight"),
            output: find_named(model, "output.weight"),
        }
    }

    pub fn total_bytes(&self) -> (total: Option<u64>)
        ensures
            total == add_known(
                add_known(
                    add_known(Some(0), optional_facts(self.token_embd)),
                    optional_facts(self.output_norm),
                ),
                optional_facts(self.output),
            ),
    {
        let total = add_known_bytes(Some(0), &self.token_embd);
        let total = add_known_bytes(total, &self.output_norm);
        add_known_bytes(total, &self.output)
    }
}

/// Different layers have different prefixes, and no prefix continues another:
/// a tensor belongs to at most one layer.
pub proof fn lemma_layers_disjoint(name: Seq<char>, left: nat, right: nat)
    requires
        text::has_prefix(name, layer_prefix(left)),
        text::has_prefix(name, layer_prefix(right)),
    ensures
        left == right,
{
    reveal_strlit("blk.");
    reveal_strlit(".");
    let a = text::decimal(left);
    let b = text::decimal(right);
    text::lemma_decimal_digits(left);
    text::lemma_decimal_digits(right);
    let p = layer_prefix(left);
    let q = layer_prefix(right);
    assert(p.len() == 5 + a.len());
    assert(q.len() == 5 + b.len());
    assert forall|i: int| 0 <= i < a.len() implies #[trigger] a[i] == name[i + 4] by {
        assert(p[i + 4] == a[i]);
        assert(name.subrange(0, p.len() as int)[i + 4] == name[i + 4]);
    }
    assert forall|i: int| 0 <= i < b.len() implies #[trigger] b[i] == name[i + 4] by {
        assert(q[i + 4] == b[i]);
        assert(name.subrange(0, q.len() as int)[i + 4] == name[i + 4]);
    }
    assert(name[4 + a.len() as int] == '.') by {
        assert(p[4 + a.len() as int] == '.');
        assert(name.subrange(0, p.len() as int)[4 + a.len() as int] == name[4 + a.len() as int]);
    }
    assert(name[4 + b.len() as int] == '.') by {
        assert(q[4 + b.len() as int] == '.');
        assert(name.subrange(0, q.len() as int)[4 + b.len() as int] == name[4 + b.len() as int]);
    }
    if a.len() < b.len() {
        assert(b[a.len() as int] == '.');
        assert(text::is_decimal_digit(b[a.len() as int]));
    }
    if b.len() < a.len() {
        assert(a[b.len() as int] == '.');
        assert(text::is_decimal_digit(a[b.len() as int]));
    }
    assert(a =~= b);
    text::lemma_decimal_injective(left, right);
}

/// A layer holds the tensors whose name starts with `blk.`, its number and a
/// dot, in file order, and no others.
pub proof fn lemma_layer_members(tensors: Seq<gguf::TensorFacts>, index: nat, at: int)
    requires
        0 <= at < tensors.len(),
    ensures
        layer_tensors(tensors, index).contains(tensors[at]) <==> text::has_prefix(
            tensors[at].name,
            "blk."@ + text::decimal(index) + "."@,
        ),
        forall|k: int|
            0 <= k < layer_tensors(tensors, index).len() ==> tensors.contains(
                #[trigger] layer_tensors(tensors, index)[k],
            ) && text::has_prefix(
                layer_tensors(tensors, index)[k].name,
                "blk."@ + text::decimal(index) + "."@,
            ),
{
    let belongs = |tensor: gguf::TensorFacts|
        text::has_prefix(tensor.name, layer_prefix(index));
    broadcast use vstd::seq_lib::group_filter_ensures;

    let members = layer_tensors(tensors, index);
    if members.contains(tensors[at]) {
        let k = choose|k: int| 0 <= k < members.len() && members[k] == tensors[at];
        assert(belongs(members[k]));
    }
    assert forall|k: int| 0 <= k < members.len() implies tensors.contains(#[trigger] members[k])
        && text::has_prefix(members[k].name, "blk."@ + text::decimal(index) + "."@) by {
        assert(belongs(members[k]));
        lemma_filter_origin(tensors, belongs, k);
    }
}

proof fn lemma_filter_origin(
    tensors: Seq<gguf::TensorFacts>,
    belongs: spec_fn(gguf::TensorFacts) -> bool,
    k: int,
)
    requires
        0 <= k < tensors.filter(belongs).len(),
    ensures
        tensors.contains(tensors.filter(belongs)[k]),
    decreases tensors.len(),
{
    reveal(Seq::filter);
    let shorter = tensors.drop_last();
    if tensors.len() > 0 {
        if k < shorter.filter(belongs).len() {
            lemma_filter_origin(shorter, belongs, k);
            let found = tensors.filter(belongs)[k];
            let at = choose|at: int| 0 <= at < shorter.len() && shorter[at] == found;
            assert(tensors[at] == found);
        } else {
            assert(tensors[tensors.len() - 1] == tensors.filter(belongs)[k]);
        }
    }
}

proof fn lemma_filter_shorter(
    tensors: Seq<gguf::TensorFacts>,
    belongs: spec_fn(gguf::TensorFacts) -> bool,
)
    ensures
        tensors.filter(belongs).len() <= tensors.len(),
    decreases tensors.len(),
{
    reveal(Seq::filter);
    if tensors.len() > 0 {
        lemma_filter_shorter(tensors.drop_last(), belongs);
    }
}

/// A layer has no more tensors than the model.
pub proof fn lemma_layer_count(tensors: Seq<gguf::TensorFacts>, index: nat)
    ensures
        layer_tensors(tensors, index).len() <= tensors.len(),
{
    let belongs = |tensor: gguf::TensorFacts|
        text::has_prefix(tensor.name, layer_prefix(index));
    lemma_filter_shorter(tensors, belongs);
}

/// A persistent tensor is the first one of its name, and is absent exactly where
/// no tensor has the name.
pub proof fn lemma_first_named(tensors: Seq<gguf::TensorFacts>, name: Seq<char>)
    ensures
        match first_named(tensors, name) {
            Some(tensor) => tensor.name == name && exists|i: int|
                0 <= i < tensors.len() && #[trigger] tensors[i] == tensor && forall|j: int|
                    0 <= j < i ==> (#[trigger] tensors[j]).name != name,
            None => forall|i: int|
                0 <= i < tensors.len() ==> (#[trigger] tensors[i]).name != name,
        },
    decreases tensors.len(),
{
    if tensors.len() > 0 && tensors[0].name != name {
        let rest = tensors.drop_first();
        lemma_first_named(rest, name);
        match first_named(tensors, name) {
            Some(tensor) => {
                let i = choose|i: int|
                    0 <= i < rest.len() && #[trigger] rest[i] == tensor && forall|j: int|
                        0 <= j < i ==> (#[trigger] rest[j]).name != name;
                assert(tensors[i + 1] == tensor);
                assert forall|j: int| 0 <= j < i + 1 implies (#[trigger] tensors[j]).name
                    != name by {
                    if j > 0 {
                        assert(rest[j - 1] == tensors[j]);
                    }
                }
            },
            None => {
                assert forall|i: int| 0 <= i < tensors.len() implies (#[trigger] tensors[i]).name
                    != name by {
                    if i > 0 {
                        assert(rest[i - 1] == tensors[i]);
                    }
                }
            },
        }
    } else if tensors.len() > 0 {
        assert(tensors[0] == first_named(tensors, name)->0);
    }
}

/// The bytes that an optional tensor is known to take.
pub open spec fn known_length(tensor: Option<gguf::TensorFacts>) -> int {
    if tensor is Some && tensor->0.byte_length is Some {
        tensor->0.byte_length->0 as int
    } else {
        0
    }
}

/// The total over optional tensors is the sum of the lengths of those there are. It is
/// unknown where one of them has no known length or the sum does not stay below the
/// largest number.
pub proof fn lemma_known_total(
    first: Option<gguf::TensorFacts>,
    second: Option<gguf::TensorFacts>,
    third: Option<gguf::TensorFacts>,
)
    ensures
        ({
            let total = add_known(add_known(add_known(Some(0), first), second), third);
            let sum = known_length(first) + known_length(second) + known_length(third);
            let unknown = (first is Some && first->0.byte_length is None) || (second is Some
                && second->0.byte_length is None) || (third is Some && third->0.byte_length is None);
            &&& total is Some <==> !unknown && sum < u64::MAX
            &&& total is Some ==> total->0 == sum
        }),
{
}

} // verus!
