//! LLaMA/Qwen2 architecture configuration and tensor validation.
//!
//! Supported architecture families:
//! - "llama" (dense transformer)
//! - "qwen2" (same tensor layout as llama, with qwen2.* metadata keys)
//!
//! Supported GGUF metadata values:
//! - general.architecture = "llama" or "qwen2"
//! - {arch}.vocab_size, context_length, embedding_length, block_count,
//!   feed_forward_length, attention.head_count, attention.head_count_kv,
//!   attention.layer_norm_rms_epsilon, rope.freq_base

use vstd::prelude::*;
use vstd::string::*;

use crate::gguf;
use crate::gguf::{GgufModel, MetadataEntry};
use crate::text;

verus! {

/// Dimensions of a dense transformer. The two floating-point parameters are
/// carried by the bits of their 32-bit values.
#[derive(Debug, Clone, Copy, PartialEq, Eq, Structural)]
pub struct LlamaConfig {
    pub vocab_size: usize,
    pub context_length: usize,
    pub embedding_length: usize,
    pub block_count: usize,
    pub feed_forward_length: usize,
    pub head_count: usize,
    pub head_count_kv: usize,
    pub head_dim: usize,
    pub rms_eps_bits: u32,
    pub rope_freq_base_bits: u32,
}

/// The bits of 0.00001, the normalization epsilon of models that state none.
pub const DEFAULT_RMS_EPS_BITS: u32 = 0x3727c5ac;

/// The bits of 10000.0, the rotary base of models that state none.
pub const DEFAULT_ROPE_FREQ_BASE_BITS: u32 = 0x461c4000;

pub open spec fn metadata_key(prefix: Seq<char>, suffix: Seq<char>) -> Seq<char> {
    prefix + "."@ + suffix
}

pub open spec fn unsigned_at(entries: Seq<MetadataEntry>, key: Seq<char>) -> Option<u64> {
    match gguf::metadata_lookup(entries, key) {
        Some(value) => value.unsigned,
        None => None,
    }
}

pub open spec fn float_bits_at(entries: Seq<MetadataEntry>, key: Seq<char>) -> Option<u32> {
    match gguf::metadata_lookup(entries, key) {
        Some(value) => value.float_bits,
        None => None,
    }
}

pub open spec fn array_length_at(entries: Seq<MetadataEntry>, key: Seq<char>) -> Option<u64> {
    match gguf::metadata_lookup(entries, key) {
        Some(value) => value.array_length,
        None => None,
    }
}

pub open spec fn or_else<T>(first: Option<T>, second: Option<T>) -> Option<T> {
    if first is Some {
        first
    } else {
        second
    }
}

/// An integer parameter: the first usable value under the architecture's own
/// prefix, then `llama`, `qwen2` and `general`.
pub open spec fn unsigned_parameter(
    entries: Seq<MetadataEntry>,
    arch: Seq<char>,
    suffix: Seq<char>,
) -> Option<u64> {
    or_else(
        unsigned_at(entries, metadata_key(arch, suffix)),
        or_else(
            unsigned_at(entries, metadata_key("llama"@, suffix)),
            or_else(
                unsigned_at(entries, metadata_key("qwen2"@, suffix)),
                unsigned_at(entries, metadata_key("general"@, suffix)),
            ),
        ),
    )
}

/// A floating-point parameter, searched under the same prefixes.
pub open spec fn float_parameter(
    entries: Seq<MetadataEntry>,
    arch: Seq<char>,
    suffix: Seq<char>,
) -> Option<u32> {
    or_else(
        float_bits_at(entries, metadata_key(arch, suffix)),
        or_else(
            float_bits_at(entries, metadata_key("llama"@, suffix)),
            or_else(
                float_bits_at(entries, metadata_key("qwen2"@, suffix)),
                float_bits_at(entries, metadata_key("general"@, suffix)),
            ),
        ),
    )
}

pub open spec fn architecture_name(architecture: Option<String>) -> Seq<char> {
    match architecture {
        Some(name) => name@,
        None => "unknown"@,
    }
}

pub open spec fn is_supported_architecture(arch: Seq<char>) -> bool {
    arch == "llama"@ || arch == "qwen2"@
}

pub open spec fn vocab_parameter(entries: Seq<MetadataEntry>, arch: Seq<char>) -> Option<u64> {
    or_else(
        unsigned_parameter(entries, arch, "vocab_size"@),
        array_length_at(entries, "tokenizer.ggml.tokens"@),
    )
}

pub open spec fn feed_forward_parameter(entries: Seq<MetadataEntry>, arch: Seq<char>) -> Option<
    u64,
> {
    or_else(
        unsigned_parameter(entries, arch, "feed_forward_length"@),
        unsigned_parameter(entries, arch, "intermediate_size"@),
    )
}

pub open spec fn missing_parameter(arch: Seq<char>, suffix: Seq<char>) -> Seq<char> {
    "missing "@ + arch + "."@ + suffix
}

pub open spec fn unsupported_architecture(arch: Seq<char>) -> Seq<char> {
    "unsupported architecture '"@ + arch
        + "': only [\"llama\", \"qwen2\"] are supported (found general.architecture = '"@ + arch
        + "')"@
}

/// The configuration of a model with the given architecture and metadata, or
/// the message of the first parameter that is missing.
pub open spec fn llama_config(arch: Seq<char>, entries: Seq<MetadataEntry>) -> Result<
    LlamaConfig,
    Seq<char>,
> {
    let vocab = vocab_parameter(entries, arch);
    let context = unsigned_parameter(entries, arch, "context_length"@);
    let embedding = unsigned_parameter(entries, arch, "embedding_length"@);
    let blocks = unsigned_parameter(entries, arch, "block_count"@);
    let feed_forward = feed_forward_parameter(entries, arch);
    let heads = unsigned_parameter(entries, arch, "attention.head_count"@);
    let kv_heads = unsigned_parameter(entries, arch, "attention.head_count_kv"@);
    let rms_eps = or_else(
        float_parameter(entries, arch, "attention.layer_norm_rms_epsilon"@),
        float_parameter(entries, arch, "attention.layer_norm_epsilon"@),
    );
    let rope = float_parameter(entries, arch, "rope.freq_base"@);
    if !is_supported_architecture(arch) {
        Err(unsupported_architecture(arch))
    } else if vocab is None {
        Err("missing vocab_size (tried "@ + arch + ".vocab_size)"@)
    } else if context is None {
        Err(missing_parameter(arch, "context_length"@))
    } else if embedding is None {
        Err(missing_parameter(arch, "embedding_length"@))
    } else if blocks is None {
        Err(missing_parameter(arch, "block_count"@))
    } else if feed_forward is None {
        Err(missing_parameter(arch, "feed_forward_length"@))
    } else if heads is None {
        Err(missing_parameter(arch, "attention.head_count"@))
    } else {
        let head_count = heads->0 as usize;
        let embedding_length = embedding->0 as usize;
        Ok(
            LlamaConfig {
                vocab_size: vocab->0 as usize,
                context_length: context->0 as usize,
                embedding_length,
                block_count: blocks->0 as usize,
                feed_forward_length: feed_forward->0 as usize,
                head_count,
                head_count_kv: match kv_heads {
                    Some(count) => count as usize,
                    None => head_count,
                },
                head_dim: embedding_length / head_count,
                rms_eps_bits: match rms_eps {
                    Some(bits) => bits,
                    None => DEFAULT_RMS_EPS_BITS,
                },
                rope_freq_base_bits: match rope {
                    Some(bits) => bits,
                    None => DEFAULT_ROPE_FREQ_BASE_BITS,
                },
            },
        )
    }
}

/// The configuration of `model`.
pub open spec fn model_config(model: GgufModel) -> Result<LlamaConfig, Seq<char>> {
    llama_config(architecture_name(model.info.architecture), model.metadata@)
}

/// Every parameter is present and the head count is zero: the head dimension
/// would be a division by zero.
pub open spec fn zero_head_count(model: GgufModel) -> bool {
    model_config(model) is Ok && model_config(model)->Ok_0.head_count == 0
}

fn join_key(prefix: &str, suffix: &str) -> (key: String)
    ensures
        key@ == metadata_key(prefix@, suffix@),
{
    let mut key = prefix.to_owned();
    key.append(".");
    key.append(suffix);
    key
}

fn missing_message(arch: &str, suffix: &str) -> (message: String)
    ensures
        message@ == missing_parameter(arch@, suffix@),
{
    let mut message = "missing ".to_owned();
    message.append(arch);
    message.append(".");
    message.append(suffix);
    message
}

fn get_unsigned(model: &GgufModel, key: &str) -> (value: Option<u64>)
    ensures
        value == unsigned_at(model.metadata@, key@),
{
    match model.get_metadata(key) {
        Some(value) => value.unsigned,
        None => None,
    }
}

fn get_float_bits(model: &GgufModel, key: &str) -> (value: Option<u32>)
    ensures
        value == float_bits_at(model.metadata@, key@),
{
    match model.get_metadata(key) {
        Some(value) => value.float_bits,
        None => None,
    }
}

fn get_unsigned_parameter(model: &GgufModel, arch: &str, suffix: &str) -> (value: Option<u64>)
    ensures
        value == unsigned_parameter(model.metadata@, arch@, suffix@),
{
    let own = get_unsigned(model, join_key(arch, suffix).as_str());
    if own.is_some() {
        return own;
    }
    let llama = get_unsigned(model, join_key("llama", suffix).as_str());
    if llama.is_some() {
        return llama;
    }
    let qwen2 = get_unsigned(model, join_key("qwen2", suffix).as_str());
    if qwen2.is_some() {
        return qwen2;
    }
    get_unsigned(model, join_key("general", suffix).as_str())
}

fn get_float_parameter(model: &GgufModel, arch: &str, suffix: &str) -> (value: Option<u32>)
    ensures
        value == float_parameter(model.metadata@, arch@, suffix@),
{
    let own = get_float_bits(model, join_key(arch, suffix).as_str());
    if own.is_some() {
        return own;
    }
    let llama = get_float_bits(model, join_key("llama", suffix).as_str());
    if llama.is_some() {
        return llama;
    }
    let qwen2 = get_float_bits(model, join_key("qwen2", suffix).as_str());
    if qwen2.is_some() {
        return qwen2;
    }
    get_float_bits(model, join_key("general", suffix).as_str())
}

fn architecture_of(model: &GgufModel) -> (arch: String)
    ensures
        arch@ == architecture_name(model.info.architecture),
{
    match &model.info.architecture {
        Some(name) => name.clone(),
        None => "unknown".to_owned(),
    }
}

/// Tells the one case in which `LlamaConfig::from_gguf` has no answer.
pub fn has_zero_head_count(model: &GgufModel) -> (zero: bool)
    ensures
        zero == zero_head_count(*model),
{
    let name = architecture_of(model);
    let arch = name.as_str();
    if !text::str_equal(arch, "llama") && !text::str_equal(arch, "qwen2") {
        return false;
    }
    let array_vocab = match model.get_metadata("tokenizer.ggml.tokens") {
        Some(value) => value.array_length,
        None => None,
    };
    let heads: u64 = match get_unsigned_parameter(model, arch, "attention.head_count") {
        Some(value) => value,
        None => {
            return false;
        },
    };
    (get_unsigned_parameter(model, arch, "vocab_size").is_some() || array_vocab.is_some())
        && get_unsigned_parameter(model, arch, "context_length").is_some()
        && get_unsigned_parameter(model, arch, "embedding_length").is_some()
        && get_unsigned_parameter(model, arch, "block_count").is_some() && (get_unsigned_parameter(
        model,
        arch,
        "feed_forward_length",
    ).is_some() || get_unsigned_parameter(model, arch, "intermediate_size").is_some())
        && heads as usize == 0
}

impl LlamaConfig {
    pub fn from_gguf(model: &GgufModel) -> (result: Result<Self, String>)
        requires
            !zero_head_count(*model),
        ensures
            text::text_result(result) == model_config(*model),
    {
        let name = architecture_of(model);
        let arch = name.as_str();
        if !text::str_equal(arch, "llama") && !text::str_equal(arch, "qwen2") {
            let mut message = "unsupported architecture '".to_owned();
            message.append(arch);
            message.append(
                "': only [\"llama\", \"qwen2\"] are supported (found general.architecture = '",
            );
            message.append(arch);
            message.append("')");
            return Err(message);
        }
        let mut vocab = get_unsigned_parameter(model, arch, "vocab_size");
        if vocab.is_none() {
            vocab =
            match model.get_metadata("tokenizer.ggml.tokens") {
                Some(value) => value.array_length,
                None => None,
            };
        }
        let vocab_size: u64 = match vocab {
            Some(value) => value,
            None => {
                let mut message = "missing vocab_size (tried ".to_owned();
                message.append(arch);
                message.append(".vocab_size)");
                return Err(message);
            },
        };
        let context_length: u64 = match get_unsigned_parameter(model, arch, "context_length") {
            Some(value) => value,
            None => {
                return Err(missing_message(arch, "context_length"));
            },
        };
        let embedding: u64 = match get_unsigned_parameter(model, arch, "embedding_length") {
            Some(value) => value,
            None => {
                return Err(missing_message(arch, "embedding_length"));
            },
        };
        let block_count: u64 = match get_unsigned_parameter(model, arch, "block_count") {
            Some(value) => value,
            None => {
                return Err(missing_message(arch, "block_count"));
            },
        };
        let mut feed_forward = get_unsigned_parameter(model, arch, "feed_forward_length");
        if feed_forward.is_none() {
            feed_forward = get_unsigned_parameter(model, arch, "intermediate_size");
        }
        let feed_forward_length: u64 = match feed_forward {
            Some(value) => value,
            None => {
                return Err(missing_message(arch, "feed_forward_length"));
            },
        };
        let heads: u64 = match get_unsigned_parameter(model, arch, "attention.head_count") {
            Some(value) => value,
            None => {
                return Err(missing_message(arch, "attention.head_count"));
            },
        };
        let head_count: usize = heads as usize;
        let head_count_kv: usize = match get_unsigned_parameter(
            model,
            arch,
            "attention.head_count_kv",
        ) {
            Some(value) => value as usize,
            None => head_count,
        };
        let mut rms_eps = get_float_parameter(model, arch, "attention.layer_norm_rms_epsilon");
        if rms_eps.is_none() {
            rms_eps = get_float_parameter(model, arch, "attention.layer_norm_epsilon");
        }
        let rope = get_float_parameter(model, arch, "rope.freq_base");
        let embedding_length: usize = embedding as usize;
        Ok(
            LlamaConfig {
                vocab_size: vocab_size as usize,
                context_length: context_length as usize,
                embedding_length,
                block_count: block_count as usize,
                feed_forward_length: feed_forward_length as usize,
                head_count,
                head_count_kv,
                head_dim: embedding_length / head_count,
                rms_eps_bits: match rms_eps {
                    Some(bits) => bits,
                    None => DEFAULT_RMS_EPS_BITS,
                },
                rope_freq_base_bits: match rope {
                    Some(bits) => bits,
                    None => DEFAULT_ROPE_FREQ_BASE_BITS,
                },
            },
        )
    }
}

/// Some tensor is called `name`.
pub open spec fn has_tensor(tensors: Seq<gguf::TensorFacts>, name: Seq<char>) -> bool {
    exists|i: int| 0 <= i < tensors.len() && (#[trigger] tensors[i]).name == name
}

pub open spec fn layer_tensor_name(index: nat, part: Seq<char>) -> Seq<char> {
    "blk."@ + text::decimal(index) + "."@ + part
}

/// The tensors that one dense transformer layer needs.
pub open spec fn required_layer_names(index: nat) -> Seq<Seq<char>> {
    seq![
        layer_tensor_name(index, "attn_norm.weight"@),
        layer_tensor_name(index, "attn_q.weight"@),
        layer_tensor_name(index, "attn_k.weight"@),
        layer_tensor_name(index, "attn_v.weight"@),
        layer_tensor_name(index, "attn_output.weight"@),
        layer_tensor_name(index, "ffn_norm.weight"@),
        layer_tensor_name(index, "ffn_gate.weight"@),
        layer_tensor_name(index, "ffn_up.weight"@),
        layer_tensor_name(index, "ffn_down.weight"@),
    ]
}

/// The tensors that a model of `block_count` layers needs.
pub open spec fn required_names(block_count: nat) -> Seq<Seq<char>>
    decreases block_count,
{
    if block_count == 0 {
        seq!["token_embd.weight"@, "output_norm.weight"@]
    } else {
        required_names((block_count - 1) as nat) + required_layer_names((block_count - 1) as nat)
    }
}

/// Those of `names` that no tensor has, in order.
pub open spec fn missing_names(tensors: Seq<gguf::TensorFacts>, names: Seq<Seq<char>>) -> Seq<
    Seq<char>,
>
    decreases names.len(),
{
    if names.len() == 0 {
        Seq::empty()
    } else {
        let earlier = missing_names(tensors, names.drop_last());
        if has_tensor(tensors, names.last()) {
            earlier
        } else {
            earlier.push(names.last())
        }
    }
}

/// One line for each missing tensor.
pub open spec fn missing_lines(names: Seq<Seq<char>>) -> Seq<char>
    decreases names.len(),
{
    if names.len() == 0 {
        Seq::empty()
    } else {
        missing_lines(names.drop_last()) + "missing tensor '"@ + names.last() + "'\n"@
    }
}

/// The message lists at most the first twenty missing tensors.
pub open spec fn missing_report(names: Seq<Seq<char>>) -> Seq<char> {
    let shown = if names.len() > 20 {
        names.take(20)
    } else {
        names
    };
    let listed = "Unsupported or incomplete model:\n"@ + missing_lines(shown);
    if names.len() > 20 {
        listed + "... and "@ + text::decimal((names.len() - 20) as nat) + " more\n"@
    } else {
        listed
    }
}

pub open spec fn required_tensors_result(
    tensors: Seq<gguf::TensorFacts>,
    block_count: nat,
) -> Result<(), Seq<char>> {
    let missing = missing_names(tensors, required_names(block_count));
    if missing.len() == 0 {
        Ok(())
    } else {
        Err(missing_report(missing))
    }
}

fn model_has_tensor(model: &GgufModel, name: &str) -> (found: bool)
    ensures
        found == has_tensor(gguf::facts(model.tensors@), name@),
{
    let ghost all = gguf::facts(model.tensors@);
    for i in 0..model.tensors.len()
        invariant
            all == gguf::facts(model.tensors@),
            forall|j: int| 0 <= j < i ==> (#[trigger] all[j]).name != name@,
    {
        if text::str_equal(model.tensors[i].name.as_str(), name) {
            assert(all[i as int].name == name@);
            return true;
        }
    }
    false
}

fn note_if_missing(
    model: &GgufModel,
    missing: &mut Vec<String>,
    name: String,
    Ghost(names): Ghost<Seq<Seq<char>>>,
)
    requires
        text::texts(old(missing)@) == missing_names(gguf::facts(model.tensors@), names),
    ensures
        text::texts(final(missing)@) == missing_names(
            gguf::facts(model.tensors@),
            names.push(name@),
        ),
{
    assert(names.push(name@).drop_last() =~= names);
    if !model_has_tensor(model, name.as_str()) {
        let ghost before = missing@;
        let ghost text = name@;
        missing.push(name);
        assert(text::texts(missing@) =~= text::texts(before).push(text));
    }
}

fn layer_tensor_name_of(index: usize, part: &str) -> (name: String)
    ensures
        name@ == layer_tensor_name(index as nat, part@),
{
    let mut name = "blk.".to_owned();
    text::push_decimal(&mut name, index as u64);
    name.append(".");
    name.append(part);
    name
}

fn note_missing_layer(
    model: &GgufModel,
    missing: &mut Vec<String>,
    index: usize,
)
    requires
        text::texts(old(missing)@) == missing_names(
            gguf::facts(model.tensors@),
            required_names(index as nat),
        ),
    ensures
        text::texts(final(missing)@) == missing_names(
            gguf::facts(model.tensors@),
            required_names(index as nat + 1),
        ),
{
    let ghost start = required_names(index as nat);
    let ghost layer = required_layer_names(index as nat);
    let parts: [&str; 9] = [
        "attn_norm.weight",
        "attn_q.weight",
        "attn_k.weight",
        "attn_v.weight",
        "attn_output.weight",
        "ffn_norm.weight",
        "ffn_gate.weight",
        "ffn_up.weight",
        "ffn_down.weight",
    ];
    assert(start + layer.take(0) =~= start);
    for k in 0..9
        invariant
            parts@.len() == 9,
            layer.len() == 9,
            forall|j: int|
                0 <= j < 9 ==> #[trigger] layer[j] == layer_tensor_name(index as nat, parts@[j]@),
            text::texts(missing@) == missing_names(
                gguf::facts(model.tensors@),
                start + layer.take(k as int),
            ),
    {
        note_if_missing(
            model,
            missing,
            layer_tensor_name_of(index, parts[k]),
            Ghost(start + layer.take(k as int)),
        );
        assert((start + layer.take(k as int)).push(layer[k as int]) =~= start + layer.take(
            k as int + 1,
        ));
    }
    assert(start + layer.take(9) =~= start + layer);
}

/// Validate that all tensors required by the llama/qwen2 dense transformer
/// architecture are present in the model (used by the streaming loader).
///
/// Returns a descriptive error listing the first missing tensors.
pub fn validate_required_tensors(model: &GgufModel, config: &LlamaConfig) -> (result: Result<
    (),
    String,
>)
    ensures
        text::text_result(result) == required_tensors_result(
            gguf::facts(model.tensors@),
            config.block_count as nat,
        ),
{
    let ghost tensors = gguf::facts(model.tensors@);
    let mut missing: Vec<String> = Vec::new();
    proof {
        assert(text::texts(missing@) =~= missing_names(tensors, Seq::empty()));
        assert(Seq::<Seq<char>>::empty().push("token_embd.weight"@).push("output_norm.weight"@)
            =~= required_names(0));
    }
    note_if_missing(model, &mut missing, "token_embd.weight".to_owned(), Ghost(Seq::empty()));
    note_if_missing(
        model,
        &mut missing,
        "output_norm.weight".to_owned(),
        Ghost(Seq::<Seq<char>>::empty().push("token_embd.weight"@)),
    );
    for i in 0..config.block_count
        invariant
            tensors == gguf::facts(model.tensors@),
            text::texts(missing@) == missing_names(tensors, required_names(i as nat)),
    {
        note_missing_layer(model, &mut missing, i);
    }
    if missing.len() == 0 {
        return Ok(());
    }
    let ghost names = text::texts(missing@);
    let shown: usize = if missing.len() > 20 {
        20
    } else {
        missing.len()
    };
    let ghost head = "Unsupported or incomplete model:\n"@;
    let mut message = "Unsupported or incomplete model:\n".to_owned();
    assert(message@ =~= head + missing_lines(names.take(0)));
    for i in 0..shown
        invariant
            names == text::texts(missing@),
            shown <= missing@.len(),
            message@ == head + missing_lines(names.take(i as int)),
    {
        proof {
            assert(names.take(i as int + 1).drop_last() =~= names.take(i as int));
            assert(names.take(i as int + 1).last() == missing@[i as int]@);
        }
        message.append("missing tensor '");
        message.append(missing[i].as_str());
        message.append("'\n");
        assert(message@ =~= head + missing_lines(names.take(i as int + 1)));
    }
    if missing.len() > 20 {
        message.append("... and ");
        text::push_decimal(&mut message, (missing.len() - 20) as u64);
        message.append(" more\n");
    } else {
        assert(names.take(shown as int) =~= names);
    }
    Err(message)
}

/// The first entry under `key` holds the unsigned `number`.
pub open spec fn says(entries: Seq<MetadataEntry>, key: Seq<char>, number: u64) -> bool {
    exists|i: int|
        0 <= i < entries.len() && (#[trigger] entries[i]).key@ == key && entries[i].value.unsigned
            == Some(number) && forall|j: int| 0 <= j < i ==> (#[trigger] entries[j]).key@ != key
}

/// The first entry under `key` holds the float with the bits `bits`.
pub open spec fn says_float(entries: Seq<MetadataEntry>, key: Seq<char>, bits: u32) -> bool {
    exists|i: int|
        0 <= i < entries.len() && (#[trigger] entries[i]).key@ == key
            && entries[i].value.float_bits == Some(bits) && forall|j: int|
            0 <= j < i ==> (#[trigger] entries[j]).key@ != key
}

/// No unsigned number is stated under `key`.
pub open spec fn silent(entries: Seq<MetadataEntry>, key: Seq<char>) -> bool {
    forall|number: u64| !says(entries, key, number)
}

/// No float is stated under `key`.
pub open spec fn silent_float(entries: Seq<MetadataEntry>, key: Seq<char>) -> bool {
    forall|bits: u32| !says_float(entries, key, bits)
}

/// Where a parameter is looked for, in this order.
pub open spec fn parameter_prefixes(arch: Seq<char>) -> Seq<Seq<char>> {
    seq![arch, "llama"@, "qwen2"@, "general"@]
}

/// The first prefix that states the parameter states `number`.
pub open spec fn tells(
    entries: Seq<MetadataEntry>,
    arch: Seq<char>,
    suffix: Seq<char>,
    number: u64,
) -> bool {
    let prefixes = parameter_prefixes(arch);
    exists|k: int|
        0 <= k < 4 && says(entries, #[trigger] prefixes[k] + "."@ + suffix, number) && forall|j: int|
            0 <= j < k ==> silent(entries, #[trigger] prefixes[j] + "."@ + suffix)
}

pub open spec fn tells_float(
    entries: Seq<MetadataEntry>,
    arch: Seq<char>,
    suffix: Seq<char>,
    bits: u32,
) -> bool {
    let prefixes = parameter_prefixes(arch);
    exists|k: int|
        0 <= k < 4 && says_float(entries, #[trigger] prefixes[k] + "."@ + suffix, bits) && forall|j: int|
            0 <= j < k ==> silent_float(entries, #[trigger] prefixes[j] + "."@ + suffix)
}

/// No prefix states the parameter.
pub open spec fn untold(entries: Seq<MetadataEntry>, arch: Seq<char>, suffix: Seq<char>) -> bool {
    forall|number: u64| !tells(entries, arch, suffix, number)
}

pub open spec fn untold_float(
    entries: Seq<MetadataEntry>,
    arch: Seq<char>,
    suffix: Seq<char>,
) -> bool {
    forall|bits: u32| !tells_float(entries, arch, suffix, bits)
}

proof fn lemma_unsigned_at(entries: Seq<MetadataEntry>, key: Seq<char>)
    ensures
        forall|number: u64|
            says(entries, key, number) <==> unsigned_at(entries, key) == Some(number),
        forall|bits: u32|
            says_float(entries, key, bits) <==> float_bits_at(entries, key) == Some(bits),
{
    gguf::lemma_metadata_lookup(entries, key);
    match gguf::metadata_lookup(entries, key) {
        Some(value) => {
            let at = choose|i: int|
                0 <= i < entries.len() && (#[trigger] entries[i]).key@ == key && entries[i].value
                    == value && forall|j: int|
                    0 <= j < i ==> (#[trigger] entries[j]).key@ != key;
            assert forall|number: u64| says(entries, key, number) implies unsigned_at(entries, key)
                == Some(number) by {
                let i = choose|i: int|
                    0 <= i < entries.len() && (#[trigger] entries[i]).key@ == key
                        && entries[i].value.unsigned == Some(number) && forall|j: int|
                        0 <= j < i ==> (#[trigger] entries[j]).key@ != key;
                assert(entries[at].key@ == key);
                assert(i == at);
            }
            assert forall|bits: u32| says_float(entries, key, bits) implies float_bits_at(
                entries,
                key,
            ) == Some(bits) by {
                let i = choose|i: int|
                    0 <= i < entries.len() && (#[trigger] entries[i]).key@ == key
                        && entries[i].value.float_bits == Some(bits) && forall|j: int|
                        0 <= j < i ==> (#[trigger] entries[j]).key@ != key;
                assert(entries[at].key@ == key);
                assert(i == at);
            }
        },
        None => {},
    }
}

proof fn lemma_parameter(entries: Seq<MetadataEntry>, arch: Seq<char>, suffix: Seq<char>)
    ensures
        forall|number: u64|
            tells(entries, arch, suffix, number) <==> unsigned_parameter(entries, arch, suffix)
                == Some(number),
        untold(entries, arch, suffix) <==> unsigned_parameter(entries, arch, suffix) is None,
        forall|bits: u32|
            tells_float(entries, arch, suffix, bits) <==> float_parameter(entries, arch, suffix)
                == Some(bits),
        untold_float(entries, arch, suffix) <==> float_parameter(entries, arch, suffix) is None,
{
    let prefixes = parameter_prefixes(arch);
    lemma_unsigned_at(entries, prefixes[0] + "."@ + suffix);
    lemma_unsigned_at(entries, prefixes[1] + "."@ + suffix);
    lemma_unsigned_at(entries, prefixes[2] + "."@ + suffix);
    lemma_unsigned_at(entries, prefixes[3] + "."@ + suffix);
    assert(prefixes[0] == arch && prefixes[1] == "llama"@ && prefixes[2] == "qwen2"@ && prefixes[3]
        == "general"@);
    let found = unsigned_parameter(entries, arch, suffix);
    if found is Some {
        let number = found->0;
        if unsigned_at(entries, metadata_key(prefixes[0], suffix)) is Some {
            assert(says(entries, prefixes[0] + "."@ + suffix, number));
        } else if unsigned_at(entries, metadata_key(prefixes[1], suffix)) is Some {
            assert(says(entries, prefixes[1] + "."@ + suffix, number));
        } else if unsigned_at(entries, metadata_key(prefixes[2], suffix)) is Some {
            assert(says(entries, prefixes[2] + "."@ + suffix, number));
        } else {
            assert(says(entries, prefixes[3] + "."@ + suffix, number));
        }
        assert(tells(entries, arch, suffix, number));
    }
    assert forall|number: u64| tells(entries, arch, suffix, number) implies found == Some(
        number,
    ) by {
        let k = choose|k: int|
            0 <= k < 4 && says(entries, #[trigger] prefixes[k] + "."@ + suffix, number) && forall|j: int|
            0 <= j < k ==> silent(entries, #[trigger] prefixes[j] + "."@ + suffix);
        assert forall|j: int| 0 <= j < k implies unsigned_at(
            entries,
            metadata_key(#[trigger] prefixes[j], suffix),
        ) is None by {
            let value = unsigned_at(entries, metadata_key(prefixes[j], suffix));
            if value is Some {
                assert(says(entries, prefixes[j] + "."@ + suffix, value->0));
            }
        }
        assert(k == 0 || k == 1 || k == 2 || k == 3);
    }
    let float = float_parameter(entries, arch, suffix);
    if float is Some {
        let bits = float->0;
        if float_bits_at(entries, metadata_key(prefixes[0], suffix)) is Some {
            assert(says_float(entries, prefixes[0] + "."@ + suffix, bits));
        } else if float_bits_at(entries, metadata_key(prefixes[1], suffix)) is Some {
            assert(says_float(entries, prefixes[1] + "."@ + suffix, bits));
        } else if float_bits_at(entries, metadata_key(prefixes[2], suffix)) is Some {
            assert(says_float(entries, prefixes[2] + "."@ + suffix, bits));
        } else {
            assert(says_float(entries, prefixes[3] + "."@ + suffix, bits));
        }
        assert(tells_float(entries, arch, suffix, bits));
    }
    assert forall|bits: u32| tells_float(entries, arch, suffix, bits) implies float == Some(
        bits,
    ) by {
        let k = choose|k: int|
            0 <= k < 4 && says_float(entries, #[trigger] prefixes[k] + "."@ + suffix, bits)
                && forall|j: int|
            0 <= j < k ==> silent_float(entries, #[trigger] prefixes[j] + "."@ + suffix);
        assert forall|j: int| 0 <= j < k implies float_bits_at(
            entries,
            metadata_key(#[trigger] prefixes[j], suffix),
        ) is None by {
            let value = float_bits_at(entries, metadata_key(prefixes[j], suffix));
            if value is Some {
                assert(says_float(entries, prefixes[j] + "."@ + suffix, value->0));
            }
        }
        assert(k == 0 || k == 1 || k == 2 || k == 3);
    }
}

/// A configuration says what the metadata says. Each size is the number that the
/// first prefix stating it states: the architecture's own, then `llama`, `qwen2`
/// and `general`. Key and value heads are as many as are stated, and as many as
/// there are heads where no prefix states them; the feed-forward size goes by its
/// other name where it has none of its own; and what the floats leave open is
/// one hundred-thousandth and ten thousand.
pub proof fn lemma_config_says(model: GgufModel)
    requires
        model_config(model) is Ok,
    ensures
        ({
            let config = model_config(model)->Ok_0;
            let entries = model.metadata@;
            let arch = architecture_name(model.info.architecture);
            let heads = config.head_count as int;
            &&& arch == "llama"@ || arch == "qwen2"@
            &&& model.info.architecture is Some
            &&& forall|number: u64| #[trigger]
                tells(entries, arch, "context_length"@, number) ==> config.context_length
                    == number as usize
            &&& forall|number: u64| #[trigger]
                tells(entries, arch, "embedding_length"@, number) ==> config.embedding_length
                    == number as usize
            &&& forall|number: u64| #[trigger]
                tells(entries, arch, "block_count"@, number) ==> config.block_count
                    == number as usize
            &&& forall|number: u64| #[trigger]
                tells(entries, arch, "attention.head_count"@, number) ==> config.head_count
                    == number as usize
            &&& forall|number: u64| #[trigger]
                tells(entries, arch, "attention.head_count_kv"@, number) ==> config.head_count_kv
                    == number as usize
            &&& untold(entries, arch, "attention.head_count_kv"@) ==> config.head_count_kv
                == config.head_count
            &&& forall|number: u64| #[trigger]
                tells(entries, arch, "vocab_size"@, number) ==> config.vocab_size
                    == number as usize
            &&& untold(entries, arch, "vocab_size"@) ==> array_length_at(
                entries,
                "tokenizer.ggml.tokens"@,
            ) is Some && config.vocab_size == array_length_at(
                entries,
                "tokenizer.ggml.tokens"@,
            )->0 as usize
            &&& forall|number: u64| #[trigger]
                tells(entries, arch, "feed_forward_length"@, number) ==> config.feed_forward_length
                    == number as usize
            &&& untold(entries, arch, "feed_forward_length"@) ==> forall|number: u64| #[trigger]
                tells(entries, arch, "intermediate_size"@, number) ==> config.feed_forward_length
                    == number as usize
            &&& forall|bits: u32| #[trigger]
                tells_float(entries, arch, "attention.layer_norm_rms_epsilon"@, bits)
                    ==> config.rms_eps_bits == bits
            &&& untold_float(entries, arch, "attention.layer_norm_rms_epsilon"@) ==> {
                &&& forall|bits: u32| #[trigger]
                    tells_float(entries, arch, "attention.layer_norm_epsilon"@, bits)
                        ==> config.rms_eps_bits == bits
                &&& untold_float(entries, arch, "attention.layer_norm_epsilon"@)
                    ==> config.rms_eps_bits == 0x3727c5ac
            }
            &&& forall|bits: u32| #[trigger]
                tells_float(entries, arch, "rope.freq_base"@, bits) ==> config.rope_freq_base_bits
                    == bits
            &&& untold_float(entries, arch, "rope.freq_base"@) ==> config.rope_freq_base_bits
                == 0x461c4000
            &&& heads > 0 ==> config.head_dim * heads <= config.embedding_length < (config.head_dim
                + 1) * heads
        }),
{
    let entries = model.metadata@;
    let arch = architecture_name(model.info.architecture);
    lemma_all_parameters(entries, arch);
    let config = model_config(model)->Ok_0;
    reveal_strlit("llama");
    reveal_strlit("qwen2");
    reveal_strlit("unknown");
    if model.info.architecture is None {
        assert("unknown"@.len() == 7 && "llama"@.len() == 5 && "qwen2"@.len() == 5);
    }
    let heads = config.head_count as int;
    let length = config.embedding_length as int;
    if heads > 0 {
        vstd::arithmetic::div_mod::lemma_fundamental_div_mod(length, heads);
        vstd::arithmetic::div_mod::lemma_mod_bound(length, heads);
        let dim = length / heads;
        assert(heads * dim == dim * heads) by (nonlinear_arith);
        assert((dim + 1) * heads == dim * heads + heads) by (nonlinear_arith);
    }
}

proof fn lemma_all_parameters(entries: Seq<MetadataEntry>, arch: Seq<char>)
    ensures
        forall|suffix: Seq<char>, number: u64| #[trigger]
            tells(entries, arch, suffix, number) <==> unsigned_parameter(entries, arch, suffix)
                == Some(number),
        forall|suffix: Seq<char>| #[trigger]
            untold(entries, arch, suffix) <==> unsigned_parameter(entries, arch, suffix) is None,
        forall|suffix: Seq<char>, bits: u32| #[trigger]
            tells_float(entries, arch, suffix, bits) <==> float_parameter(entries, arch, suffix)
                == Some(bits),
        forall|suffix: Seq<char>| #[trigger]
            untold_float(entries, arch, suffix) <==> float_parameter(entries, arch, suffix) is None,
{
    assert forall|suffix: Seq<char>, number: u64| #[trigger]
        tells(entries, arch, suffix, number) <==> unsigned_parameter(entries, arch, suffix) == Some(
            number,
        ) by {
        lemma_parameter(entries, arch, suffix);
    }
    assert forall|suffix: Seq<char>| #[trigger]
        untold(entries, arch, suffix) <==> unsigned_parameter(entries, arch, suffix) is None by {
        lemma_parameter(entries, arch, suffix);
    }
    assert forall|suffix: Seq<char>, bits: u32| #[trigger]
        tells_float(entries, arch, suffix, bits) <==> float_parameter(entries, arch, suffix)
            == Some(bits) by {
        lemma_parameter(entries, arch, suffix);
    }
    assert forall|suffix: Seq<char>| #[trigger]
        untold_float(entries, arch, suffix) <==> float_parameter(entries, arch, suffix) is None by {
        lemma_parameter(entries, arch, suffix);
    }
}

/// A model has a configuration exactly where its architecture is supported and
/// its metadata states a vocabulary, a context, an embedding, blocks, a
/// feed-forward size and heads.
pub proof fn lemma_config_exists(model: GgufModel)
    ensures
        ({
            let entries = model.metadata@;
            let arch = architecture_name(model.info.architecture);
            model_config(model) is Ok <==> {
                &&& arch == "llama"@ || arch == "qwen2"@
                &&& !untold(entries, arch, "vocab_size"@) || array_length_at(
                    entries,
                    "tokenizer.ggml.tokens"@,
                ) is Some
                &&& !untold(entries, arch, "context_length"@)
                &&& !untold(entries, arch, "embedding_length"@)
                &&& !untold(entries, arch, "block_count"@)
                &&& !untold(entries, arch, "feed_forward_length"@) || !untold(
                    entries,
                    arch,
                    "intermediate_size"@,
                )
                &&& !untold(entries, arch, "attention.head_count"@)
            }
        }),
{
    lemma_all_parameters(model.metadata@, architecture_name(model.info.architecture));
}

/// A model passes the tensor check exactly where it has the token embedding, the
/// output norm, and the nine weights of every layer.
pub proof fn lemma_required_tensors(tensors: Seq<gguf::TensorFacts>, block_count: nat)
    ensures
        required_tensors_result(tensors, block_count) is Ok <==> {
            &&& has_tensor(tensors, "token_embd.weight"@)
            &&& has_tensor(tensors, "output_norm.weight"@)
            &&& forall|i: nat| #[trigger] layer_complete(tensors, i) || i >= block_count
        },
{
    lemma_none_missing(tensors, required_names(block_count));
    lemma_required_names(tensors, block_count);
}

/// The weights that a layer needs, by the names they have in the file.
pub open spec fn layer_complete(tensors: Seq<gguf::TensorFacts>, index: nat) -> bool {
    let layer = "blk."@ + text::decimal(index) + "."@;
    &&& has_tensor(tensors, layer + "attn_norm.weight"@)
    &&& has_tensor(tensors, layer + "attn_q.weight"@)
    &&& has_tensor(tensors, layer + "attn_k.weight"@)
    &&& has_tensor(tensors, layer + "attn_v.weight"@)
    &&& has_tensor(tensors, layer + "attn_output.weight"@)
    &&& has_tensor(tensors, layer + "ffn_norm.weight"@)
    &&& has_tensor(tensors, layer + "ffn_gate.weight"@)
    &&& has_tensor(tensors, layer + "ffn_up.weight"@)
    &&& has_tensor(tensors, layer + "ffn_down.weight"@)
}

spec fn all_present(tensors: Seq<gguf::TensorFacts>, names: Seq<Seq<char>>) -> bool {
    forall|k: int| 0 <= k < names.len() ==> has_tensor(tensors, #[trigger] names[k])
}

proof fn lemma_none_missing(tensors: Seq<gguf::TensorFacts>, names: Seq<Seq<char>>)
    ensures
        missing_names(tensors, names).len() == 0 <==> all_present(tensors, names),
    decreases names.len(),
{
    if names.len() > 0 {
        let shorter = names.drop_last();
        lemma_none_missing(tensors, shorter);
        assert(forall|k: int| 0 <= k < shorter.len() ==> #[trigger] shorter[k] == names[k]);
        if all_present(tensors, shorter) && has_tensor(tensors, names.last()) {
            assert forall|k: int| 0 <= k < names.len() implies has_tensor(
                tensors,
                #[trigger] names[k],
            ) by {
                if k < shorter.len() {
                    assert(has_tensor(tensors, shorter[k]));
                }
            }
        }
        if all_present(tensors, names) {
            assert(has_tensor(tensors, names[names.len() - 1]));
        }
    }
}

proof fn lemma_required_names(tensors: Seq<gguf::TensorFacts>, block_count: nat)
    ensures
        all_present(tensors, required_names(block_count)) <==> {
            &&& has_tensor(tensors, "token_embd.weight"@)
            &&& has_tensor(tensors, "output_norm.weight"@)
            &&& forall|i: nat| #[trigger] layer_complete(tensors, i) || i >= block_count
        },
    decreases block_count,
{
    let names = required_names(block_count);
    if block_count == 0 {
        assert(names[0] == "token_embd.weight"@ && names[1] == "output_norm.weight"@);
    } else {
        let last = (block_count - 1) as nat;
        lemma_required_names(tensors, last);
        let earlier = required_names(last);
        let own = required_layer_names(last);
        lemma_both_present(tensors, earlier, own);
        lemma_layer_complete(tensors, last);
        assert(names =~= earlier + own);
    }
}

proof fn lemma_both_present(
    tensors: Seq<gguf::TensorFacts>,
    left: Seq<Seq<char>>,
    right: Seq<Seq<char>>,
)
    ensures
        all_present(tensors, left + right) <==> all_present(tensors, left) && all_present(
            tensors,
            right,
        ),
{
    let both = left + right;
    if all_present(tensors, both) {
        assert forall|k: int| 0 <= k < left.len() implies has_tensor(
            tensors,
            #[trigger] left[k],
        ) by {
            assert(both[k] == left[k]);
        }
        assert forall|k: int| 0 <= k < right.len() implies has_tensor(
            tensors,
            #[trigger] right[k],
        ) by {
            assert(both[left.len() + k] == right[k]);
        }
    }
}

proof fn lemma_layer_complete(tensors: Seq<gguf::TensorFacts>, index: nat)
    ensures
        all_present(tensors, required_layer_names(index)) <==> layer_complete(tensors, index),
{
    let names = required_layer_names(index);
    let layer = "blk."@ + text::decimal(index) + "."@;
    assert(names[0] == layer + "attn_norm.weight"@);
    assert(names[1] == layer + "attn_q.weight"@);
    assert(names[2] == layer + "attn_k.weight"@);
    assert(names[3] == layer + "attn_v.weight"@);
    assert(names[4] == layer + "attn_output.weight"@);
    assert(names[5] == layer + "ffn_norm.weight"@);
    assert(names[6] == layer + "ffn_gate.weight"@);
    assert(names[7] == layer + "ffn_up.weight"@);
    assert(names[8] == layer + "ffn_down.weight"@);
}

/// A tensor is there where one of the tensors has its name, and not otherwise.
pub proof fn lemma_has_tensor(
    tensors: Seq<gguf::TensorFacts>,
    added: gguf::TensorFacts,
    name: Seq<char>,
)
    ensures
        !has_tensor(Seq::empty(), name),
        has_tensor(tensors.push(added), name) <==> has_tensor(tensors, name) || added.name == name,
{
    let longer = tensors.push(added);
    if has_tensor(tensors, name) {
        let i = choose|i: int| 0 <= i < tensors.len() && (#[trigger] tensors[i]).name == name;
        assert(longer[i].name == name);
    }
    if added.name == name {
        assert(longer[tensors.len() as int].name == name);
    }
    if has_tensor(longer, name) && added.name != name {
        let i = choose|i: int| 0 <= i < longer.len() && (#[trigger] longer[i]).name == name;
        assert(tensors[i].name == name);
    }
}

/// The missing names are those that are asked for and not there, in the order in which
/// they are asked for.
pub proof fn lemma_missing_names(
    tensors: Seq<gguf::TensorFacts>,
    names: Seq<Seq<char>>,
    more: Seq<Seq<char>>,
    name: Seq<char>,
)
    ensures
        missing_names(tensors, names + more) == missing_names(tensors, names) + missing_names(
            tensors,
            more,
        ),
        missing_names(tensors, names).contains(name) <==> names.contains(name) && !has_tensor(
            tensors,
            name,
        ),
        forall|i: int|
            0 <= i < names.len() ==> has_tensor(tensors, #[trigger] names[i]) ==> !missing_names(
                tensors,
                names,
            ).contains(names[i]),
{
    lemma_missing_joined(tensors, names, more);
    lemma_missing_listed(tensors, names, name);
    assert forall|i: int| 0 <= i < names.len() && has_tensor(tensors, #[trigger] names[i]) implies
        !missing_names(tensors, names).contains(names[i]) by {
        lemma_missing_listed(tensors, names, names[i]);
    }
}

proof fn lemma_missing_joined(
    tensors: Seq<gguf::TensorFacts>,
    names: Seq<Seq<char>>,
    more: Seq<Seq<char>>,
)
    ensures
        missing_names(tensors, names + more) == missing_names(tensors, names) + missing_names(
            tensors,
            more,
        ),
    decreases more.len(),
{
    if more.len() == 0 {
        assert(names + more =~= names);
        assert(missing_names(tensors, names) + missing_names(tensors, more) =~= missing_names(
            tensors,
            names,
        ));
    } else {
        lemma_missing_joined(tensors, names, more.drop_last());
        assert((names + more).drop_last() =~= names + more.drop_last());
        assert((names + more).last() == more.last());
        assert(missing_names(tensors, names + more) =~= missing_names(tensors, names)
            + missing_names(tensors, more));
    }
}

proof fn lemma_missing_listed(
    tensors: Seq<gguf::TensorFacts>,
    names: Seq<Seq<char>>,
    name: Seq<char>,
)
    ensures
        missing_names(tensors, names).contains(name) <==> names.contains(name) && !has_tensor(
            tensors,
            name,
        ),
    decreases names.len(),
{
    if names.len() > 0 {
        let shorter = names.drop_last();
        lemma_missing_listed(tensors, shorter, name);
        let earlier = missing_names(tensors, shorter);
        let found = missing_names(tensors, names);
        assert(names =~= shorter.push(names.last()));
        if shorter.contains(name) {
            let i = choose|i: int| 0 <= i < shorter.len() && shorter[i] == name;
            assert(names[i] == name);
        }
        if names.contains(name) && names.last() != name {
            let i = choose|i: int| 0 <= i < names.len() && names[i] == name;
            assert(shorter[i] == name);
        }
        if names.last() == name {
            assert(names[names.len() - 1] == name);
        }
        if !has_tensor(tensors, names.last()) {
            assert(found == earlier.push(names.last()));
            if earlier.contains(name) {
                let i = choose|i: int| 0 <= i < earlier.len() && earlier[i] == name;
                assert(found[i] == name);
            }
            if names.last() == name {
                assert(found[earlier.len() as int] == name);
            }
            if found.contains(name) && names.last() != name {
                let i = choose|i: int| 0 <= i < found.len() && found[i] == name;
                assert(earlier[i] == name);
            }
        }
    }
}

} // verus!
