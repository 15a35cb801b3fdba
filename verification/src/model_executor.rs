//! Model execution layer for the dense Llama/Qwen2 transformer path.
//!
//! The layer weights carry what they occupy in memory beside their data. The
//! checks here guard one execution of a transformer block; they load nothing,
//! own no budget and decide no residency.

use vstd::prelude::*;
use vstd::string::*;

use crate::model::LlamaConfig;
use crate::persistent::ResidentTensor;
use crate::text;

verus! {

#[derive(Debug, Clone)]
pub struct StreamingLayerWeights<T> {
    pub attn_norm: ResidentTensor<T>,
    pub attn_q: ResidentTensor<T>,
    pub attn_k: ResidentTensor<T>,
    pub attn_v: ResidentTensor<T>,
    pub attn_output: ResidentTensor<T>,
    pub ffn_norm: ResidentTensor<T>,
    pub ffn_gate: ResidentTensor<T>,
    pub ffn_up: ResidentTensor<T>,
    pub ffn_down: ResidentTensor<T>,
    /// Optional qwen2-style Q/K/V biases. Biases are applied after projection
    /// and before RoPE/KV-cache insertion.
    pub attn_q_bias: Option<ResidentTensor<T>>,
    pub attn_k_bias: Option<ResidentTensor<T>>,
    pub attn_v_bias: Option<ResidentTensor<T>>,
}

pub open spec fn optional_bytes<T>(tensor: Option<ResidentTensor<T>>) -> int {
    match tensor {
        Some(tensor) => tensor.resident_bytes as int,
        None => 0,
    }
}

fn bias_bytes<T>(tensor: &Option<ResidentTensor<T>>) -> (bytes: u64)
    ensures
        bytes == optional_bytes(*tensor),
{
    match tensor {
        Some(tensor) => tensor.resident_bytes as u64,
        None => 0,
    }
}

impl<T> StreamingLayerWeights<T> {
    pub open spec fn resident_total(&self) -> int {
        self.attn_norm.resident_bytes + self.attn_q.resident_bytes + self.attn_k.resident_bytes
            + self.attn_v.resident_bytes + self.attn_output.resident_bytes
            + self.ffn_norm.resident_bytes + self.ffn_gate.resident_bytes
            + self.ffn_up.resident_bytes + self.ffn_down.resident_bytes + optional_bytes(
            self.attn_q_bias,
        ) + optional_bytes(self.attn_k_bias) + optional_bytes(self.attn_v_bias)
    }

    pub fn total_resident_bytes(&self) -> (bytes: u64)
        requires
            self.resident_total() <= u64::MAX,
        ensures
            bytes == self.resident_total(),
    {
        let biases: u64 = bias_bytes(&self.attn_q_bias) + bias_bytes(&self.attn_k_bias)
            + bias_bytes(&self.attn_v_bias);
        self.attn_norm.resident_bytes as u64 + self.attn_q.resident_bytes as u64
            + self.attn_k.resident_bytes as u64 + self.attn_v.resident_bytes as u64
            + self.attn_output.resident_bytes as u64 + self.ffn_norm.resident_bytes as u64
            + self.ffn_gate.resident_bytes as u64 + self.ffn_up.resident_bytes as u64
            + self.ffn_down.resident_bytes as u64 + biases
    }

    /// Whether the layer adds biases to Q, K and V: all three are there, or
    /// none. A partial set is an error.
    pub fn has_biases(&self, layer_idx: usize) -> (result: Result<bool, String>)
        ensures
            text::text_result(result) == (if self.attn_q_bias is Some && self.attn_k_bias is Some
                && self.attn_v_bias is Some {
                Ok::<bool, Seq<char>>(true)
            } else if self.attn_q_bias is None && self.attn_k_bias is None && self.attn_v_bias is None {
                Ok(false)
            } else {
                Err(
                    "internal error: incomplete Q/K/V bias set survived load of layer "@
                        + text::decimal(layer_idx as nat),
                )
            }),
    {
        match (&self.attn_q_bias, &self.attn_k_bias, &self.attn_v_bias) {
            (None, None, None) => Ok(false),
            (Some(_), Some(_), Some(_)) => Ok(true),
            _ => {
                let mut message =
                    "internal error: incomplete Q/K/V bias set survived load of layer ".to_owned();
                text::push_decimal(&mut message, layer_idx as u64);
                Err(message)
            },
        }
    }
}

/// The lengths of the activation buffers that a caller lends for one layer.
#[derive(Debug, Clone, Copy, PartialEq, Eq, Structural)]
pub struct ActivationLengths {
    pub hidden: usize,
    pub tmp: usize,
    pub q: usize,
    pub k: usize,
    pub v: usize,
    pub attn_proj: usize,
    pub ffn_out: usize,
}

#[derive(Debug, Clone, Copy, Default)]
pub struct ModelExecutor;

/// The buffers have the model's shapes.
pub open spec fn lengths_fit(lengths: ActivationLengths, cfg: LlamaConfig) -> bool {
    &&& lengths.hidden == cfg.embedding_length
    &&& lengths.tmp == cfg.embedding_length
    &&& lengths.attn_proj == cfg.embedding_length
    &&& lengths.ffn_out == cfg.embedding_length
    &&& lengths.q == cfg.head_count * cfg.head_dim
    &&& lengths.k == cfg.head_count_kv * cfg.head_dim
    &&& lengths.v == cfg.head_count_kv * cfg.head_dim
}

pub open spec fn shape_mismatch(layer_idx: nat, cfg: LlamaConfig) -> Seq<char> {
    "layer "@ + text::decimal(layer_idx) + " activation shape mismatch for embedding "@
        + text::decimal(cfg.embedding_length as nat) + ", heads "@ + text::decimal(
        cfg.head_count as nat,
    ) + ", kv heads "@ + text::decimal(cfg.head_count_kv as nat) + ", head_dim "@ + text::decimal(
        cfg.head_dim as nat,
    )
}

fn is_product(value: usize, left: usize, right: usize) -> (same: bool)
    ensures
        same == (value == left * right),
{
    assert(0 <= left * right <= u64::MAX * u64::MAX) by (nonlinear_arith)
        requires
            0 <= left <= u64::MAX,
            0 <= right <= u64::MAX,
    ;
    value as u128 == (left as u128) * (right as u128)
}

impl ModelExecutor {
    /// Checks the caller-owned activation buffers before a layer executes.
    pub fn check_activations(
        layer_idx: usize,
        cfg: &LlamaConfig,
        lengths: &ActivationLengths,
    ) -> (result: Result<(), String>)
        ensures
            text::text_result(result) == (if lengths_fit(*lengths, *cfg) {
                Ok::<(), Seq<char>>(())
            } else {
                Err(shape_mismatch(layer_idx as nat, *cfg))
            }),
    {
        if lengths.hidden != cfg.embedding_length || lengths.tmp != cfg.embedding_length
            || lengths.attn_proj != cfg.embedding_length || lengths.ffn_out
            != cfg.embedding_length || !is_product(lengths.q, cfg.head_count, cfg.head_dim)
            || !is_product(lengths.k, cfg.head_count_kv, cfg.head_dim) || !is_product(
            lengths.v,
            cfg.head_count_kv,
            cfg.head_dim,
        ) {
            let mut message = "layer ".to_owned();
            text::push_decimal(&mut message, layer_idx as u64);
            message.append(" activation shape mismatch for embedding ");
            text::push_decimal(&mut message, cfg.embedding_length as u64);
            message.append(", heads ");
            text::push_decimal(&mut message, cfg.head_count as u64);
            message.append(", kv heads ");
            text::push_decimal(&mut message, cfg.head_count_kv as u64);
            message.append(", head_dim ");
            text::push_decimal(&mut message, cfg.head_dim as u64);
            return Err(message);
        }
        Ok(())
    }
}

/// The resident bytes of a layer are those of all its tensors: nine weights, and
/// the three biases as far as they are there.
pub proof fn lemma_resident_total<T>(weights: StreamingLayerWeights<T>)
    ensures
        ({
            let q = weights.attn_q_bias;
            let k = weights.attn_k_bias;
            let v = weights.attn_v_bias;
            let nine = weights.attn_norm.resident_bytes + weights.attn_q.resident_bytes
                + weights.attn_k.resident_bytes + weights.attn_v.resident_bytes
                + weights.attn_output.resident_bytes + weights.ffn_norm.resident_bytes
                + weights.ffn_gate.resident_bytes + weights.ffn_up.resident_bytes
                + weights.ffn_down.resident_bytes;
            &&& q is None && k is None && v is None ==> weights.resident_total() == nine
            &&& q is Some && k is Some && v is Some ==> weights.resident_total() == nine
                + q->0.resident_bytes + k->0.resident_bytes + v->0.resident_bytes
            &&& weights.resident_total() >= nine
        }),
{
}

/// Activations fit a model where hidden state, projections and feed-forward output
/// are as long as the embedding, queries as long as all heads, and keys and values
/// as long as all key and value heads.
pub proof fn lemma_activations(lengths: ActivationLengths, cfg: LlamaConfig)
    ensures
        lengths_fit(lengths, cfg) <==> {
            &&& lengths.hidden == cfg.embedding_length && lengths.tmp == lengths.hidden
                && lengths.attn_proj == lengths.hidden && lengths.ffn_out == lengths.hidden
            &&& lengths.q == cfg.head_count * cfg.head_dim
            &&& lengths.k == cfg.head_count_kv * cfg.head_dim && lengths.v == lengths.k
        },
{
}

} // verus!
