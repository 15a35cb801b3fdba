//! Plain descriptions of a GGUF model file: tensor descriptors, the metadata
//! values that configuration reads, and the general facts of the model.
//!
//! Nothing here opens a file. Floating-point metadata is carried by its bits.

use vstd::prelude::*;
use vstd::string::*;

use crate::text;

verus! {

/// Element types of GGUF tensors.
#[allow(non_camel_case_types)]
#[derive(Debug, Clone, Copy, PartialEq, Eq, Structural)]
pub enum GgmlType {
    F32,
    F16,
    BF16,
    Q4_0,
    Q4_1,
    Q5_0,
    Q5_1,
    Q8_0,
    Q8_1,
    Q2_K,
    Q3_K,
    Q4_K,
    Q5_K,
    Q6_K,
    Q8_K,
    /// Any other type, by its number in the file format.
    Other(u32),
}

impl GgmlType {
    /// The type's number in the file format.
    pub open spec fn spec_id(self) -> u32 {
        match self {
            GgmlType::F32 => 0,
            GgmlType::F16 => 1,
            GgmlType::Q4_0 => 2,
            GgmlType::Q4_1 => 3,
            GgmlType::Q5_0 => 6,
            GgmlType::Q5_1 => 7,
            GgmlType::Q8_0 => 8,
            GgmlType::Q8_1 => 9,
            GgmlType::Q2_K => 10,
            GgmlType::Q3_K => 11,
            GgmlType::Q4_K => 12,
            GgmlType::Q5_K => 13,
            GgmlType::Q6_K => 14,
            GgmlType::Q8_K => 15,
            GgmlType::BF16 => 30,
            GgmlType::Other(id) => id,
        }
    }

    pub fn as_u32(self) -> (id: u32)
        ensures
            id == self.spec_id(),
    {
        match self {
            GgmlType::F32 => 0,
            GgmlType::F16 => 1,
            GgmlType::Q4_0 => 2,
            GgmlType::Q4_1 => 3,
            GgmlType::Q5_0 => 6,
            GgmlType::Q5_1 => 7,
            GgmlType::Q8_0 => 8,
            GgmlType::Q8_1 => 9,
            GgmlType::Q2_K => 10,
            GgmlType::Q3_K => 11,
            GgmlType::Q4_K => 12,
            GgmlType::Q5_K => 13,
            GgmlType::Q6_K => 14,
            GgmlType::Q8_K => 15,
            GgmlType::BF16 => 30,
            GgmlType::Other(id) => id,
        }
    }

    /// The type's conventional name; a type without one is named by its number.
    pub open spec fn spec_name(self) -> Seq<char> {
        match self {
            GgmlType::F32 => "F32"@,
            GgmlType::F16 => "F16"@,
            GgmlType::BF16 => "BF16"@,
            GgmlType::Q4_0 => "Q4_0"@,
            GgmlType::Q4_1 => "Q4_1"@,
            GgmlType::Q5_0 => "Q5_0"@,
            GgmlType::Q5_1 => "Q5_1"@,
            GgmlType::Q8_0 => "Q8_0"@,
            GgmlType::Q8_1 => "Q8_1"@,
            GgmlType::Q2_K => "Q2_K"@,
            GgmlType::Q3_K => "Q3_K"@,
            GgmlType::Q4_K => "Q4_K"@,
            GgmlType::Q5_K => "Q5_K"@,
            GgmlType::Q6_K => "Q6_K"@,
            GgmlType::Q8_K => "Q8_K"@,
            GgmlType::Other(id) => "TYPE_"@ + text::decimal(id as nat),
        }
    }

    pub fn name(self) -> (name: String)
        ensures
            name@ == self.spec_name(),
    {
        match self {
            GgmlType::F32 => "F32".to_owned(),
            GgmlType::F16 => "F16".to_owned(),
            GgmlType::BF16 => "BF16".to_owned(),
            GgmlType::Q4_0 => "Q4_0".to_owned(),
            GgmlType::Q4_1 => "Q4_1".to_owned(),
            GgmlType::Q5_0 => "Q5_0".to_owned(),
            GgmlType::Q5_1 => "Q5_1".to_owned(),
            GgmlType::Q8_0 => "Q8_0".to_owned(),
            GgmlType::Q8_1 => "Q8_1".to_owned(),
            GgmlType::Q2_K => "Q2_K".to_owned(),
            GgmlType::Q3_K => "Q3_K".to_owned(),
            GgmlType::Q4_K => "Q4_K".to_owned(),
            GgmlType::Q5_K => "Q5_K".to_owned(),
            GgmlType::Q6_K => "Q6_K".to_owned(),
            GgmlType::Q8_K => "Q8_K".to_owned(),
            GgmlType::Other(id) => {
                let mut name = "TYPE_".to_owned();
                text::push_decimal(&mut name, id as u64);
                name
            },
        }
    }
}

/// Where and how a tensor is stored.
#[derive(Debug, PartialEq, Eq)]
pub struct TensorDescriptor {
    pub name: String,
    pub dimensions: Vec<u64>,
    pub ggml_type: GgmlType,
    pub offset: u64,
    pub file_offset: u64,
    pub byte_length: Option<u64>,
    pub num_elements: u64,
}

/// The mathematical content of a tensor descriptor.
pub struct TensorFacts {
    pub name: Seq<char>,
    pub dimensions: Seq<u64>,
    pub ggml_type: GgmlType,
    pub offset: u64,
    pub file_offset: u64,
    pub byte_length: Option<u64>,
    pub num_elements: u64,
}

impl View for TensorDescriptor {
    type V = TensorFacts;

    open spec fn view(&self) -> TensorFacts {
        TensorFacts {
            name: self.name@,
            dimensions: self.dimensions@,
            ggml_type: self.ggml_type,
            offset: self.offset,
            file_offset: self.file_offset,
            byte_length: self.byte_length,
            num_elements: self.num_elements,
        }
    }
}

impl Clone for TensorDescriptor {
    fn clone(&self) -> (copy: Self)
        ensures
            copy@ == self@,
    {
        TensorDescriptor {
            name: self.name.clone(),
            dimensions: copy_u64s(&self.dimensions),
            ggml_type: self.ggml_type,
            offset: self.offset,
            file_offset: self.file_offset,
            byte_length: self.byte_length,
            num_elements: self.num_elements,
        }
    }
}

fn copy_u64s(values: &Vec<u64>) -> (copy: Vec<u64>)
    ensures
        copy@ == values@,
{
    let copy = values.clone();
    assert(copy@ =~= values@);
    copy
}

/// The contents of a list of descriptors.
pub open spec fn facts(tensors: Seq<TensorDescriptor>) -> Seq<TensorFacts> {
    Seq::new(tensors.len(), |i: int| tensors[i]@)
}

/// What configuration reads of one metadata value: its value as an unsigned
/// integer, its value as a 32-bit float (by its bits) and, of an array, its
/// length. Each is present only where the stored value has that reading.
#[derive(Debug, Clone, Copy, PartialEq, Eq, Structural)]
pub struct MetadataValue {
    pub unsigned: Option<u64>,
    pub float_bits: Option<u32>,
    pub array_length: Option<u64>,
}

#[derive(Debug, Clone, PartialEq, Eq)]
pub struct MetadataEntry {
    pub key: String,
    pub value: MetadataValue,
}

/// General facts of a model file.
#[derive(Debug, Clone, PartialEq, Eq)]
pub struct GgufInfo {
    pub architecture: Option<String>,
    pub name: Option<String>,
    pub tokenizer_model: Option<String>,
    pub context_length: Option<u64>,
    pub embedding_length: Option<u64>,
    pub block_count: Option<u64>,
    pub head_count: Option<u64>,
    pub head_count_kv: Option<u64>,
    pub expert_count: Option<u64>,
    pub expert_used_count: Option<u64>,
    pub file_type: Option<u32>,
    pub vocab_size: Option<usize>,
}

/// A parsed model file, without its tensor payloads.
#[derive(Debug, Clone, PartialEq, Eq)]
pub struct GgufModel {
    pub path: String,
    pub file_size: u64,
    pub version: u32,
    pub info: GgufInfo,
    pub metadata: Vec<MetadataEntry>,
    pub tensors: Vec<TensorDescriptor>,
    pub alignment: u64,
}

/// The value of the first entry under `key`.
pub open spec fn metadata_lookup(entries: Seq<MetadataEntry>, key: Seq<char>) -> Option<
    MetadataValue,
>
    decreases entries.len(),
{
    if entries.len() == 0 {
        None
    } else if entries[0].key@ == key {
        Some(entries[0].value)
    } else {
        metadata_lookup(entries.drop_first(), key)
    }
}

/// The sum of the tensors' byte lengths, where all are known and the sum fits.
pub open spec fn sum_byte_lengths(tensors: Seq<TensorFacts>) -> Option<u64>
    decreases tensors.len(),
{
    if tensors.len() == 0 {
        Some(0)
    } else {
        match (sum_byte_lengths(tensors.drop_last()), tensors.last().byte_length) {
            (Some(total), Some(bytes)) => if total + bytes <= u64::MAX {
                Some((total + bytes) as u64)
            } else {
                None
            },
            _ => None,
        }
    }
}

/// A prefix whose sum is missing leaves every longer sum missing.
pub proof fn lemma_sum_byte_lengths_missing(tensors: Seq<TensorFacts>, upto: int)
    requires
        0 <= upto <= tensors.len(),
        sum_byte_lengths(tensors.take(upto)) is None,
    ensures
        sum_byte_lengths(tensors) is None,
    decreases tensors.len() - upto,
{
    if upto < tensors.len() {
        assert(tensors.take(upto + 1).drop_last() =~= tensors.take(upto));
        lemma_sum_byte_lengths_missing(tensors, upto + 1);
    } else {
        assert(tensors.take(upto) =~= tensors);
    }
}

/// Sums the byte lengths of `tensors`.
pub fn total_byte_length(tensors: &[TensorDescriptor]) -> (total: Option<u64>)
    ensures
        total == sum_byte_lengths(facts(tensors@)),
{
    let mut total: u64 = 0;
    let ghost all = facts(tensors@);
    for i in 0..tensors.len()
        invariant
            all == facts(tensors@),
            sum_byte_lengths(all.take(i as int)) == Some(total),
    {
        proof {
            assert(all.take(i as int + 1).drop_last() =~= all.take(i as int));
            assert(all.take(i as int + 1).last() == tensors@[i as int]@);
        }
        let next: Option<u64> = match tensors[i].byte_length {
            Some(bytes) => total.checked_add(bytes),
            None => None,
        };
        match next {
            Some(sum) => {
                total = sum;
            },
            None => {
                proof {
                    lemma_sum_byte_lengths_missing(all, i as int + 1);
                }
                return None;
            },
        }
    }
    assert(all.take(all.len() as int) =~= all);
    Some(total)
}

impl GgufModel {
    pub fn info(&self) -> (info: &GgufInfo)
        ensures
            *info == self.info,
    {
        &self.info
    }

    pub fn get_metadata(&self, key: &str) -> (value: Option<MetadataValue>)
        ensures
            value == metadata_lookup(self.metadata@, key@),
    {
        proof {
            assert(self.metadata@.skip(0) =~= self.metadata@);
        }
        for i in 0..self.metadata.len()
            invariant
                metadata_lookup(self.metadata@, key@) == metadata_lookup(
                    self.metadata@.skip(i as int),
                    key@,
                ),
        {
            if text::str_equal(self.metadata[i].key.as_str(), key) {
                return Some(self.metadata[i].value);
            }
            proof {
                assert(self.metadata@.skip(i as int).drop_first() =~= self.metadata@.skip(
                    i as int + 1,
                ));
            }
        }
        None
    }

    /// The bytes of all tensors, where every length is known and the sum fits.
    pub fn total_tensor_bytes(&self) -> (total: Option<u64>)
        ensures
            total == sum_byte_lengths(facts(self.tensors@)),
    {
        total_byte_length(self.tensors.as_slice())
    }
}

/// Bytes a tensor of this type keeps resident: floats are held as decoded F32,
/// supported quantized tensors as their file bytes; other types cannot be held.
pub open spec fn resident_bytes_spec(
    ggml_type: GgmlType,
    num_elements: u64,
    file_bytes: u64,
) -> Result<u64, Seq<char>> {
    match ggml_type {
        GgmlType::F32 | GgmlType::F16 | GgmlType::BF16 => if num_elements * 4 <= u64::MAX {
            Ok((num_elements * 4) as u64)
        } else {
            Err("tensor size overflow: "@ + text::decimal(num_elements as nat) + " elements"@)
        },
        GgmlType::Q4_0 | GgmlType::Q8_0 | GgmlType::Q2_K | GgmlType::Q3_K | GgmlType::Q4_K
        | GgmlType::Q5_K | GgmlType::Q6_K | GgmlType::Q8_K => Ok(file_bytes),
        _ => Err("unsupported tensor type "@ + ggml_type.spec_name()),
    }
}

pub fn resident_bytes_for(ggml_type: GgmlType, num_elements: u64, file_bytes: u64) -> (result:
    Result<u64, String>)
    ensures
        text::text_result(result) == resident_bytes_spec(ggml_type, num_elements, file_bytes),
{
    match ggml_type {
        GgmlType::F32 | GgmlType::F16 | GgmlType::BF16 => match num_elements.checked_mul(4) {
            Some(bytes) => Ok(bytes),
            None => {
                let mut message = "tensor size overflow: ".to_owned();
                text::push_decimal(&mut message, num_elements);
                message.append(" elements");
                Err(message)
            },
        },
        GgmlType::Q4_0 | GgmlType::Q8_0 | GgmlType::Q2_K | GgmlType::Q3_K | GgmlType::Q4_K
        | GgmlType::Q5_K | GgmlType::Q6_K | GgmlType::Q8_K => Ok(file_bytes),
        _ => {
            let mut message = "unsupported tensor type ".to_owned();
            message.append(ggml_type.name().as_str());
            Err(message)
        },
    }
}

/// A lookup finds the value of the first entry under the key, and finds nothing
/// exactly where no entry has the key.
pub proof fn lemma_metadata_lookup(entries: Seq<MetadataEntry>, key: Seq<char>)
    ensures
        match metadata_lookup(entries, key) {
            Some(value) => exists|i: int|
                0 <= i < entries.len() && (#[trigger] entries[i]).key@ == key && entries[i].value
                    == value && forall|j: int|
                    0 <= j < i ==> (#[trigger] entries[j]).key@ != key,
            None => forall|i: int|
                0 <= i < entries.len() ==> (#[trigger] entries[i]).key@ != key,
        },
    decreases entries.len(),
{
    if entries.len() > 0 && entries[0].key@ != key {
        let rest = entries.drop_first();
        lemma_metadata_lookup(rest, key);
        match metadata_lookup(entries, key) {
            Some(value) => {
                let i = choose|i: int|
                    0 <= i < rest.len() && (#[trigger] rest[i]).key@ == key && rest[i].value
                        == value && forall|j: int|
                        0 <= j < i ==> (#[trigger] rest[j]).key@ != key;
                assert(entries[i + 1] == rest[i]);
                assert forall|j: int| 0 <= j < i + 1 implies (#[trigger] entries[j]).key@
                    != key by {
                    if j > 0 {
                        assert(rest[j - 1] == entries[j]);
                    }
                }
            },
            None => {
                assert forall|i: int| 0 <= i < entries.len() implies (#[trigger] entries[i]).key@
                    != key by {
                    if i > 0 {
                        assert(rest[i - 1] == entries[i]);
                    }
                }
            },
        }
    }
}

/// What a sum of byte lengths depends on: with one tensor more it grows by that
/// tensor's length, and it is unknown as soon as one length is unknown.
pub proof fn lemma_byte_lengths(tensors: Seq<TensorFacts>, at: int)
    requires
        0 <= at < tensors.len(),
    ensures
        tensors[at].byte_length is None ==> sum_byte_lengths(tensors) is None,
        sum_byte_lengths(tensors) is Some ==> sum_byte_lengths(tensors.take(at)) is Some
            && sum_byte_lengths(tensors.take(at + 1)) is Some && sum_byte_lengths(
            tensors.take(at + 1),
        )->0 == sum_byte_lengths(tensors.take(at))->0 + tensors[at].byte_length->0,
        sum_byte_lengths(tensors) is None && sum_byte_lengths(tensors.drop_last()) is Some
            && tensors.last().byte_length is Some ==> sum_byte_lengths(tensors.drop_last())->0
            + tensors.last().byte_length->0 > u64::MAX,
    decreases tensors.len(),
{
    let shorter = tensors.drop_last();
    if at < shorter.len() {
        lemma_byte_lengths(shorter, at);
        assert(shorter.take(at) =~= tensors.take(at));
        assert(shorter.take(at + 1) =~= tensors.take(at + 1));
    } else {
        assert(tensors.take(at) =~= shorter);
        assert(tensors.take(at + 1) =~= tensors);
    }
}

/// What a tensor occupies once it is loaded: four bytes an element for floats,
/// and its bytes in the file for the quantized formats that can be run.
pub proof fn lemma_resident_bytes(ggml_type: GgmlType, num_elements: u64, file_bytes: u64)
    ensures
        ({
            let result = resident_bytes_spec(ggml_type, num_elements, file_bytes);
            let float = ggml_type == GgmlType::F32 || ggml_type == GgmlType::F16 || ggml_type
                == GgmlType::BF16;
            let quantized = ggml_type == GgmlType::Q4_0 || ggml_type == GgmlType::Q8_0 || ggml_type
                == GgmlType::Q2_K || ggml_type == GgmlType::Q3_K || ggml_type == GgmlType::Q4_K
                || ggml_type == GgmlType::Q5_K || ggml_type == GgmlType::Q6_K || ggml_type
                == GgmlType::Q8_K;
            &&& float ==> (result is Ok <==> 4 * num_elements <= u64::MAX)
            &&& float && result is Ok ==> result->Ok_0 == 4 * num_elements
            &&& quantized ==> result is Ok && result->Ok_0 == file_bytes
            &&& !float && !quantized ==> result is Err
        }),
{
}

/// The numbers by which the file format knows its types.
pub proof fn lemma_type_numbers(id: u32)
    ensures
        GgmlType::F32.spec_id() == 0,
        GgmlType::F16.spec_id() == 1,
        GgmlType::Q4_0.spec_id() == 2,
        GgmlType::Q4_1.spec_id() == 3,
        GgmlType::Q5_0.spec_id() == 6,
        GgmlType::Q5_1.spec_id() == 7,
        GgmlType::Q8_0.spec_id() == 8,
        GgmlType::Q8_1.spec_id() == 9,
        GgmlType::Q2_K.spec_id() == 10,
        GgmlType::Q3_K.spec_id() == 11,
        GgmlType::Q4_K.spec_id() == 12,
        GgmlType::Q5_K.spec_id() == 13,
        GgmlType::Q6_K.spec_id() == 14,
        GgmlType::Q8_K.spec_id() == 15,
        GgmlType::BF16.spec_id() == 30,
        GgmlType::Other(id).spec_id() == id,
{
}

} // verus!
