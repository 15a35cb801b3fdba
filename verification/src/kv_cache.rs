//! KV cache for autoregressive generation
//!
//! Explicitly represented, grows as tokens are generated, avoids recomputing
//! previous tokens, accounts for memory usage in the RAM budget. Cached numbers
//! are carried by the bits of their 32-bit floating-point values.

use vstd::prelude::*;
use vstd::slice::*;
use vstd::string::*;

use crate::budget;
use crate::budget::{MemoryBudget, MemoryError};
use crate::text;

verus! {

/// Growth granularity: capacity grows in chunks of this many tokens to
/// avoid paying a realloc per generated token, without allocating the
/// full possible context upfront.
pub const GROW_CHUNK_TOKENS: usize = 256;

/// Per-model cache that holds K and V for all layers. Each layer owns
/// `max_seq_len * n_kv_heads * head_dim` numbers of each, of which the first
/// `seq_len` tokens are in use.
#[derive(Debug, Clone)]
pub struct KvCache {
    pub n_layers: usize,
    pub n_kv_heads: usize,
    pub head_dim: usize,
    pub max_seq_len: usize,
    pub seq_len: usize,
    pub k_caches: Vec<Vec<u32>>,
    pub v_caches: Vec<Vec<u32>>,
    pub bytes_per_layer: usize,
}

pub open spec fn zeros(count: nat) -> Seq<u32> {
    Seq::new(count, |i: int| 0u32)
}

/// The rows with `values` written from `at` on.
pub open spec fn written(row: Seq<u32>, at: int, values: Seq<u32>) -> Seq<u32> {
    row.take(at) + values + row.skip(at + values.len())
}

/// The row extended by zeros to `count` numbers.
pub open spec fn extended(row: Seq<u32>, count: nat) -> Seq<u32> {
    row + zeros((count - row.len()) as nat)
}

/// The bytes of one layer's K and V for that many tokens.
pub open spec fn layer_bytes(tokens: int, n_kv_heads: int, head_dim: int) -> int {
    tokens * n_kv_heads * head_dim * 8
}

/// The smallest multiple of the growth chunk that is not below `required`.
pub open spec fn chunk_aligned(required: int) -> int {
    (required + GROW_CHUNK_TOKENS - 1) / GROW_CHUNK_TOKENS as int * GROW_CHUNK_TOKENS
}

fn zero_row(count: usize) -> (row: Vec<u32>)
    ensures
        row@ == zeros(count as nat),
{
    let mut row: Vec<u32> = Vec::new();
    for i in 0..count
        invariant
            row@ =~= zeros(i as nat),
    {
        row.push(0);
    }
    row
}

fn zero_rows(count: usize, length: usize) -> (rows: Vec<Vec<u32>>)
    ensures
        rows@.len() == count,
        forall|i: int| 0 <= i < count ==> (#[trigger] rows@[i])@ == zeros(length as nat),
{
    let mut rows: Vec<Vec<u32>> = Vec::new();
    for i in 0..count
        invariant
            rows@.len() == i,
            forall|k: int| 0 <= k < i ==> (#[trigger] rows@[k])@ == zeros(length as nat),
    {
        rows.push(zero_row(length));
    }
    rows
}

fn extend_row(row: &Vec<u32>, length: usize) -> (longer: Vec<u32>)
    requires
        row@.len() <= length,
    ensures
        longer@ == extended(row@, length as nat),
{
    let mut longer: Vec<u32> = Vec::new();
    let kept: usize = row.len();
    for i in 0..kept
        invariant
            kept == row@.len(),
            longer@ =~= row@.take(i as int),
    {
        longer.push(row[i]);
    }
    for i in kept..length
        invariant
            kept == row@.len(),
            kept <= length,
            longer@ =~= row@ + zeros((i - kept) as nat),
    {
        longer.push(0);
    }
    longer
}

fn extend_rows(rows: &mut Vec<Vec<u32>>, length: usize)
    requires
        forall|i: int| 0 <= i < old(rows)@.len() ==> (#[trigger] old(rows)@[i])@.len() <= length,
    ensures
        final(rows)@.len() == old(rows)@.len(),
        forall|i: int|
            0 <= i < old(rows)@.len() ==> (#[trigger] final(rows)@[i])@ == extended(
                old(rows)@[i]@,
                length as nat,
            ),
{
    let ghost before = rows@;
    let mut longer: Vec<Vec<u32>> = Vec::new();
    for i in 0..rows.len()
        invariant
            rows@ == before,
            forall|k: int| 0 <= k < before.len() ==> (#[trigger] before[k])@.len() <= length,
            longer@.len() == i,
            forall|k: int|
                0 <= k < i ==> (#[trigger] longer@[k])@ == extended(before[k]@, length as nat),
    {
        assert(before[i as int]@.len() <= length);
        longer.push(extend_row(&rows[i], length));
    }
    *rows = longer;
}

fn write_values(row: &mut Vec<u32>, at: usize, values: &[u32])
    requires
        at + values@.len() <= old(row)@.len(),
    ensures
        final(row)@ == written(old(row)@, at as int, values@),
{
    let ghost before = row@;
    let length: usize = row.len();
    for i in 0..values.len()
        invariant
            at + values@.len() <= length,
            before.len() == length,
            row@.len() == length,
            row@ =~= written(before, at as int, values@.take(i as int)),
    {
        row.set(at + i, values[i]);
    }
    assert(values@.take(values@.len() as int) =~= values@);
}

impl KvCache {
    /// The K numbers that each layer owns.
    pub open spec fn k_rows(&self) -> Seq<Seq<u32>> {
        Seq::new(self.k_caches@.len(), |i: int| self.k_caches@[i]@)
    }

    /// The V numbers that each layer owns.
    pub open spec fn v_rows(&self) -> Seq<Seq<u32>> {
        Seq::new(self.v_caches@.len(), |i: int| self.v_caches@[i]@)
    }

    /// The numbers of one token in one layer.
    pub open spec fn width(&self) -> int {
        self.n_kv_heads * self.head_dim
    }

    /// The dimensions are positive, and each layer owns K and V for exactly
    /// the capacity that is accounted for.
    pub open spec fn wf(&self) -> bool {
        &&& self.n_layers > 0
        &&& self.n_kv_heads > 0
        &&& self.head_dim > 0
        &&& self.max_seq_len > 0
        &&& self.bytes_per_layer == layer_bytes(
            self.max_seq_len as int,
            self.n_kv_heads as int,
            self.head_dim as int,
        )
        &&& self.k_rows().len() == self.n_layers
        &&& self.v_rows().len() == self.n_layers
        &&& forall|i: int|
            0 <= i < self.n_layers ==> (#[trigger] self.k_rows()[i]).len() == self.max_seq_len
                * self.width()
        &&& forall|i: int|
            0 <= i < self.n_layers ==> (#[trigger] self.v_rows()[i]).len() == self.max_seq_len
                * self.width()
    }

    /// The K numbers of the tokens in use.
    pub open spec fn k_history(&self, layer: int) -> Seq<u32> {
        self.k_rows()[layer].take(self.seq_len * self.width())
    }

    /// The V numbers of the tokens in use.
    pub open spec fn v_history(&self, layer: int) -> Seq<u32> {
        self.v_rows()[layer].take(self.seq_len * self.width())
    }

    /// The two caches have the same shape and hold the same number of tokens.
    pub open spec fn same_shape(&self, other: &KvCache) -> bool {
        &&& self.n_layers == other.n_layers
        &&& self.n_kv_heads == other.n_kv_heads
        &&& self.head_dim == other.head_dim
        &&& self.seq_len == other.seq_len
    }

    pub open spec fn spec_total_bytes(&self) -> int {
        self.bytes_per_layer * self.n_layers
    }

    pub open spec fn spec_bytes_for_tokens(&self, tokens: int) -> int {
        layer_bytes(tokens, self.n_kv_heads as int, self.head_dim as int) * self.n_layers
    }

    /// An empty cache for `max_seq_len` tokens, all zero.
    pub fn new(
        n_layers: usize,
        n_kv_heads: usize,
        head_dim: usize,
        max_seq_len: usize,
    ) -> (result: Result<Self, String>)
        requires
            n_layers > 0 ==> layer_bytes(max_seq_len as int, n_kv_heads as int, head_dim as int)
                <= usize::MAX,
        ensures
            n_layers == 0 || n_kv_heads == 0 || head_dim == 0 || max_seq_len == 0
                ==> text::text_result(result) == Err::<Self, Seq<char>>(
                "invalid KV cache dimensions"@,
            ),
            n_layers > 0 && n_kv_heads > 0 && head_dim > 0 && max_seq_len > 0 ==> {
                &&& result is Ok
                &&& result->Ok_0.wf()
                &&& result->Ok_0.n_layers == n_layers
                &&& result->Ok_0.n_kv_heads == n_kv_heads
                &&& result->Ok_0.head_dim == head_dim
                &&& result->Ok_0.max_seq_len == max_seq_len
                &&& result->Ok_0.seq_len == 0
                &&& forall|i: int|
                    0 <= i < n_layers ==> (#[trigger] result->Ok_0.k_rows()[i]) == zeros(
                        (max_seq_len * (n_kv_heads * head_dim)) as nat,
                    )
                &&& forall|i: int|
                    0 <= i < n_layers ==> (#[trigger] result->Ok_0.v_rows()[i]) == zeros(
                        (max_seq_len * (n_kv_heads * head_dim)) as nat,
                    )
            },
    {
        if n_layers == 0 || n_kv_heads == 0 || head_dim == 0 || max_seq_len == 0 {
            return Err("invalid KV cache dimensions".to_owned());
        }
        proof {
            lemma_sizes(max_seq_len as int, n_kv_heads as int, head_dim as int);
        }
        let elems_per_layer: usize = max_seq_len * n_kv_heads * head_dim;
        let bytes_per_layer: usize = elems_per_layer * 4 * 2;
        let k_caches = zero_rows(n_layers, elems_per_layer);
        let v_caches = zero_rows(n_layers, elems_per_layer);
        let cache = KvCache {
            n_layers,
            n_kv_heads,
            head_dim,
            max_seq_len,
            seq_len: 0,
            k_caches,
            v_caches,
            bytes_per_layer,
        };
        Ok(cache)
    }

    /// Current capacity in tokens
    pub fn capacity_tokens(&self) -> (tokens: usize)
        ensures
            tokens == self.max_seq_len,
    {
        self.max_seq_len
    }

    /// Bytes a cache with capacity `tokens` would occupy across all layers.
    pub fn bytes_for_tokens(&self, tokens: usize) -> (bytes: usize)
        requires
            self.wf(),
            self.spec_bytes_for_tokens(tokens as int) <= usize::MAX,
        ensures
            bytes == self.spec_bytes_for_tokens(tokens as int),
    {
        proof {
            lemma_sizes(tokens as int, self.n_kv_heads as int, self.head_dim as int);
            let one = layer_bytes(tokens as int, self.n_kv_heads as int, self.head_dim as int);
            let layers = self.n_layers as int;
            assert(one <= one * layers) by (nonlinear_arith)
                requires
                    0 <= one,
                    1 <= layers,
            ;
        }
        tokens * self.n_kv_heads * self.head_dim * 4 * 2 * self.n_layers
    }

    /// Smallest chunk-aligned capacity that can hold `required` tokens.
    pub fn chunk_aligned_capacity(&self, required: usize) -> (tokens: usize)
        requires
            chunk_aligned(required as int) <= usize::MAX,
        ensures
            tokens == chunk_aligned(required as int),
    {
        let chunk: usize = GROW_CHUNK_TOKENS;
        let whole: usize = required / chunk;
        let chunks: usize = if required % chunk == 0 {
            whole
        } else {
            whole + 1
        };
        chunks * chunk
    }

    /// Grow the backing buffers to exactly `new_capacity` tokens.
    ///
    /// Chunk granularity is the caller's responsibility (see
    /// `chunk_aligned_capacity`); exact accounting keeps the budget charge
    /// (`bytes_for_tokens`) in lockstep with the backing buffers.
    /// Callers must reconcile the byte delta with the memory budget BEFORE
    /// calling this; existing entries are preserved. Shrinking
    /// is not supported.
    pub fn grow_to(&mut self, new_capacity: usize) -> (result: Result<(), String>)
        requires
            old(self).wf(),
            layer_bytes(
                new_capacity as int,
                old(self).n_kv_heads as int,
                old(self).head_dim as int,
            ) <= usize::MAX,
        ensures
            result is Ok,
            final(self).wf(),
            final(self).same_shape(old(self)),
            new_capacity <= old(self).max_seq_len ==> *final(self) == *old(self),
            new_capacity > old(self).max_seq_len ==> {
                &&& final(self).max_seq_len == new_capacity
                &&& forall|i: int|
                    0 <= i < old(self).n_layers ==> (#[trigger] final(self).k_rows()[i])
                        == extended(
                        old(self).k_rows()[i],
                        (new_capacity * old(self).width()) as nat,
                    )
                &&& forall|i: int|
                    0 <= i < old(self).n_layers ==> (#[trigger] final(self).v_rows()[i])
                        == extended(
                        old(self).v_rows()[i],
                        (new_capacity * old(self).width()) as nat,
                    )
            },
    {
        if new_capacity <= self.max_seq_len {
            return Ok(());
        }
        let ghost width = self.width();
        let ghost before = self.max_seq_len as int;
        proof {
            lemma_sizes(new_capacity as int, self.n_kv_heads as int, self.head_dim as int);
            assert(before * width <= new_capacity * width) by (nonlinear_arith)
                requires
                    before <= new_capacity,
                    0 <= width,
            ;
            assert forall|i: int| 0 <= i < self.n_layers implies (#[trigger] self.k_caches@[i])@
                == self.k_rows()[i] by {}
            assert forall|i: int| 0 <= i < self.n_layers implies (#[trigger] self.v_caches@[i])@
                == self.v_rows()[i] by {}
        }
        let elems_per_layer: usize = new_capacity * self.n_kv_heads * self.head_dim;
        extend_rows(&mut self.k_caches, elems_per_layer);
        extend_rows(&mut self.v_caches, elems_per_layer);
        self.max_seq_len = new_capacity;
        self.bytes_per_layer = elems_per_layer * 4 * 2;
        Ok(())
    }

    /// Total bytes for all layers (current capacity)
    pub fn total_bytes(&self) -> (bytes: usize)
        requires
            self.spec_total_bytes() <= usize::MAX,
        ensures
            bytes == self.spec_total_bytes(),
    {
        self.bytes_per_layer * self.n_layers
    }

    /// Try to allocate KV cache memory from budget
    pub fn allocate_from_budget(&self, budget: &mut MemoryBudget) -> (result: Result<
        (),
        MemoryError,
    >)
        requires
            old(budget).wf(),
            self.spec_total_bytes() <= usize::MAX,
        ensures
            final(budget).wf(),
            final(budget)@.total == old(budget)@.total,
            result is Ok <==> !budget::has_charge(old(budget)@.charges, "kv_cache"@)
                && self.spec_total_bytes() <= old(budget)@.available(),
            result is Ok ==> final(budget)@.charges == old(budget)@.charges.push(
                budget::ChargeFacts {
                    name: "kv_cache"@,
                    bytes: self.spec_total_bytes() as u64,
                },
            ),
            result is Ok ==> final(budget)@.peak == budget::larger(
                old(budget)@.peak,
                final(budget)@.used(),
            ),
            result is Err ==> final(budget)@ == old(budget)@,
            result matches Err(error) ==> if budget::has_charge(
                old(budget)@.charges,
                "kv_cache"@,
            ) {
                error matches MemoryError::DuplicateAllocation { name } && name@ == "kv_cache"@
            } else {
                error == (MemoryError::InsufficientMemory {
                    requested: self.spec_total_bytes() as u64,
                    available: old(budget)@.available() as u64,
                })
            },
    {
        let bytes: u64 = self.total_bytes() as u64;
        proof {
            budget::lemma_charged_push(budget@.charges, "kv_cache"@, bytes);
        }
        budget.allocate("kv_cache", bytes)
    }

    /// The message of a rejected append.
    pub open spec fn append_error(&self, layer: int, k_len: nat, v_len: nat) -> Option<
        Seq<char>,
    > {
        if layer >= self.n_layers {
            Some("layer "@ + text::decimal(layer as nat) + " out of bounds"@)
        } else if self.seq_len >= self.max_seq_len {
            Some("KV cache full"@)
        } else if k_len != self.width() || v_len != self.width() {
            Some(
                "K/V size mismatch: expected "@ + text::decimal(self.width() as nat)
                    + ", got k="@ + text::decimal(k_len) + ", v="@ + text::decimal(v_len),
            )
        } else {
            None
        }
    }

    /// Writes K and V of a new token at the current seq_len position
    /// k and v are [n_kv_heads * head_dim] each
    pub fn append(&mut self, layer: usize, k: &[u32], v: &[u32]) -> (result: Result<(), String>)
        requires
            old(self).wf(),
        ensures
            final(self).wf(),
            final(self).same_shape(old(self)),
            final(self).max_seq_len == old(self).max_seq_len,
            match old(self).append_error(layer as int, k@.len(), v@.len()) {
                Some(message) => {
                    &&& text::text_result(result) == Err::<(), Seq<char>>(message)
                    &&& *final(self) == *old(self)
                },
                None => {
                    &&& result is Ok
                    &&& final(self).k_rows() == old(self).k_rows().update(
                        layer as int,
                        written(
                            old(self).k_rows()[layer as int],
                            old(self).seq_len * old(self).width(),
                            k@,
                        ),
                    )
                    &&& final(self).v_rows() == old(self).v_rows().update(
                        layer as int,
                        written(
                            old(self).v_rows()[layer as int],
                            old(self).seq_len * old(self).width(),
                            v@,
                        ),
                    )
                },
            },
    {
        if layer >= self.n_layers {
            let mut message = "layer ".to_owned();
            text::push_decimal(&mut message, layer as u64);
            message.append(" out of bounds");
            return Err(message);
        }
        if self.seq_len >= self.max_seq_len {
            return Err("KV cache full".to_owned());
        }
        proof {
            lemma_sizes(self.max_seq_len as int, self.n_kv_heads as int, self.head_dim as int);
            let width = self.width();
            let used = self.seq_len as int;
            let all = self.max_seq_len as int;
            assert(used * width + width <= all * width && 0 <= used * width) by (nonlinear_arith)
                requires
                    0 <= used,
                    used + 1 <= all,
                    0 <= width,
            ;
        }
        let expected: usize = self.n_kv_heads * self.head_dim;
        if k.len() != expected || v.len() != expected {
            let mut message = "K/V size mismatch: expected ".to_owned();
            text::push_decimal(&mut message, expected as u64);
            message.append(", got k=");
            text::push_decimal(&mut message, k.len() as u64);
            message.append(", v=");
            text::push_decimal(&mut message, v.len() as u64);
            return Err(message);
        }
        let ghost before_k = self.k_rows();
        let ghost before_v = self.v_rows();
        assert(self.k_caches@[layer as int]@ == before_k[layer as int]);
        assert(self.v_caches@[layer as int]@ == before_v[layer as int]);
        let offset: usize = self.seq_len * expected;
        let mut k_row = self.k_caches.remove(layer);
        write_values(&mut k_row, offset, k);
        self.k_caches.insert(layer, k_row);
        let mut v_row = self.v_caches.remove(layer);
        write_values(&mut v_row, offset, v);
        self.v_caches.insert(layer, v_row);
        proof {
            assert(self.k_rows() =~= before_k.update(
                layer as int,
                written(before_k[layer as int], offset as int, k@),
            ));
            assert(self.v_rows() =~= before_v.update(
                layer as int,
                written(before_v[layer as int], offset as int, v@),
            ));
            assert forall|i: int| 0 <= i < self.n_layers implies (#[trigger] self.k_rows()[i]).len()
                == self.max_seq_len * self.width() by {}
            assert forall|i: int| 0 <= i < self.n_layers implies (#[trigger] self.v_rows()[i]).len()
                == self.max_seq_len * self.width() by {}
        }
        Ok(())
    }

    /// Increment seq_len after appending for all layers
    pub fn increment_seq_len(&mut self)
        requires
            old(self).seq_len < usize::MAX,
        ensures
            *final(self) == (KvCache { seq_len: (old(self).seq_len + 1) as usize, ..*old(self) }),
            final(self).k_rows() == old(self).k_rows(),
            final(self).v_rows() == old(self).v_rows(),
            old(self).wf() ==> final(self).wf(),
    {
        self.seq_len = self.seq_len + 1;
    }

    /// Get K cache for a layer up to current seq_len (flattened)
    pub fn get_k(&self, layer: usize) -> (values: &[u32])
        requires
            self.wf(),
            layer < self.n_layers,
            self.seq_len <= self.max_seq_len,
        ensures
            values@ == self.k_history(layer as int),
    {
        let len: usize = self.used_numbers();
        assert(self.k_caches@[layer as int]@ == self.k_rows()[layer as int]);
        slice_subrange(self.k_caches[layer].as_slice(), 0, len)
    }

    pub fn get_v(&self, layer: usize) -> (values: &[u32])
        requires
            self.wf(),
            layer < self.n_layers,
            self.seq_len <= self.max_seq_len,
        ensures
            values@ == self.v_history(layer as int),
    {
        let len: usize = self.used_numbers();
        assert(self.v_caches@[layer as int]@ == self.v_rows()[layer as int]);
        slice_subrange(self.v_caches[layer].as_slice(), 0, len)
    }

    fn used_numbers(&self) -> (count: usize)
        requires
            self.wf(),
            self.seq_len <= self.max_seq_len,
        ensures
            count == self.seq_len * self.width(),
            count <= self.max_seq_len * self.width(),
    {
        proof {
            lemma_sizes(self.max_seq_len as int, self.n_kv_heads as int, self.head_dim as int);
            let width = self.width();
            let used = self.seq_len as int;
            let all = self.max_seq_len as int;
            assert(0 <= used * width <= all * width) by (nonlinear_arith)
                requires
                    0 <= used <= all,
                    0 <= width,
            ;
        }
        let expected: usize = self.n_kv_heads * self.head_dim;
        self.seq_len * expected
    }

    pub fn seq_len(&self) -> (tokens: usize)
        ensures
            tokens == self.seq_len,
    {
        self.seq_len
    }

    pub fn is_empty(&self) -> (empty: bool)
        ensures
            empty == (self.seq_len == 0),
    {
        self.seq_len == 0
    }

    pub fn clear(&mut self)
        ensures
            *final(self) == (KvCache { seq_len: 0, ..*old(self) }),
            final(self).k_rows() == old(self).k_rows(),
            final(self).v_rows() == old(self).v_rows(),
            old(self).wf() ==> final(self).wf(),
    {
        self.seq_len = 0;
    }
}

proof fn lemma_sizes(tokens: int, n_kv_heads: int, head_dim: int)
    requires
        0 <= tokens,
        0 < n_kv_heads,
        0 < head_dim,
    ensures
        layer_bytes(tokens, n_kv_heads, head_dim) == tokens * (n_kv_heads * head_dim) * 8,
        tokens * n_kv_heads * head_dim == tokens * (n_kv_heads * head_dim),
        0 <= tokens * n_kv_heads <= tokens * n_kv_heads * head_dim,
        tokens > 0 ==> n_kv_heads * head_dim <= tokens * (n_kv_heads * head_dim),
        0 < n_kv_heads * head_dim,
{
    assert(tokens * n_kv_heads * head_dim == tokens * (n_kv_heads * head_dim))
        by (nonlinear_arith);
    let part = tokens * n_kv_heads;
    assert(0 <= part) by (nonlinear_arith)
        requires
            part == tokens * n_kv_heads,
            0 <= tokens,
            0 < n_kv_heads,
    ;
    assert(part <= part * head_dim) by (nonlinear_arith)
        requires
            0 <= part,
            0 < head_dim,
    ;
    let width = n_kv_heads * head_dim;
    assert(0 < width) by (nonlinear_arith)
        requires
            width == n_kv_heads * head_dim,
            0 < n_kv_heads,
            0 < head_dim,
    ;
    if tokens > 0 {
        assert(width <= tokens * width) by (nonlinear_arith)
            requires
                0 < tokens,
                0 < width,
        ;
    }
}

/// A chunk-aligned capacity holds what is required, and wastes less than one
/// chunk.
pub proof fn lemma_chunk_aligned(required: int)
    requires
        0 <= required,
    ensures
        required <= chunk_aligned(required) < required + GROW_CHUNK_TOKENS,
        chunk_aligned(required) % GROW_CHUNK_TOKENS as int == 0,
{
}

/// What is charged for a capacity is what a cache of that capacity occupies.
pub proof fn lemma_charge_in_lockstep(cache: KvCache)
    requires
        cache.wf(),
    ensures
        cache.spec_bytes_for_tokens(cache.max_seq_len as int) == cache.spec_total_bytes(),
{
}

/// More tokens never occupy less.
pub proof fn lemma_bytes_grow(cache: KvCache, fewer: int, more: int)
    requires
        cache.wf(),
        0 <= fewer <= more,
    ensures
        0 <= cache.spec_bytes_for_tokens(fewer) <= cache.spec_bytes_for_tokens(more),
        layer_bytes(more, cache.n_kv_heads as int, cache.head_dim as int)
            <= cache.spec_bytes_for_tokens(more),
{
    lemma_sizes(fewer, cache.n_kv_heads as int, cache.head_dim as int);
    lemma_sizes(more, cache.n_kv_heads as int, cache.head_dim as int);
    let width = cache.width();
    let layers = cache.n_layers as int;
    assert(0 <= fewer * width * 8 <= more * width * 8) by (nonlinear_arith)
        requires
            0 <= fewer <= more,
            0 < width,
    ;
    let small = fewer * width * 8;
    let large = more * width * 8;
    assert(0 <= small * layers <= large * layers && large <= large * layers) by (nonlinear_arith)
        requires
            0 <= small <= large,
            1 <= layers,
    ;
}

/// Growth keeps every token in use.
pub proof fn lemma_growth_preserves(row: Seq<u32>, length: nat, used: int)
    requires
        row.len() <= length,
        0 <= used <= row.len(),
    ensures
        extended(row, length).take(used) == row.take(used),
{
    assert(extended(row, length).take(used) =~= row.take(used));
}

/// Writing one token behind the tokens in use extends the history by exactly
/// that token, and keeps the history itself.
pub proof fn lemma_append_extends(row: Seq<u32>, used: int, values: Seq<u32>)
    requires
        0 <= used,
        used + values.len() <= row.len(),
    ensures
        written(row, used, values).take(used) == row.take(used),
        written(row, used, values).take(used + values.len()) == row.take(used) + values,
{
    assert(written(row, used, values).take(used) =~= row.take(used));
    assert(written(row, used, values).take(used + values.len()) =~= row.take(used) + values);
}

/// A token that was written in a layer and counted extends the layer's history
/// by exactly that token.
pub proof fn lemma_token_extends_history(before: KvCache, after: KvCache, layer: int, k: Seq<u32>)
    requires
        before.wf(),
        before.seq_len < before.max_seq_len,
        0 <= layer < before.n_layers,
        k.len() == before.width(),
        after.width() == before.width(),
        after.seq_len == before.seq_len + 1,
    ensures
        after.k_rows()[layer] == written(
            before.k_rows()[layer],
            before.seq_len * before.width(),
            k,
        ) ==> after.k_history(layer) == before.k_history(layer) + k,
        after.v_rows()[layer] == written(
            before.v_rows()[layer],
            before.seq_len * before.width(),
            k,
        ) ==> after.v_history(layer) == before.v_history(layer) + k,
{
    let width = before.width();
    let used = before.seq_len as int;
    let all = before.max_seq_len as int;
    lemma_sizes(all, before.n_kv_heads as int, before.head_dim as int);
    assert((used + 1) * width == used * width + width && 0 <= used * width && used * width + width
        <= all * width) by (nonlinear_arith)
        requires
            0 <= used,
            used + 1 <= all,
            0 < width,
    ;
    lemma_append_extends(before.k_rows()[layer], used * width, k);
    lemma_append_extends(before.v_rows()[layer], used * width, k);
}

/// What a cached token takes: eight bytes for each number of a head, four as key
/// and four as value, in every head of every layer.
pub proof fn lemma_token_bytes(cache: KvCache, tokens: int)
    ensures
        cache.spec_bytes_for_tokens(0) == 0,
        cache.spec_bytes_for_tokens(tokens + 1) == cache.spec_bytes_for_tokens(tokens)
            + cache.n_layers * cache.n_kv_heads * cache.head_dim * 2 * 4,
{
    let heads = cache.n_kv_heads as int;
    let dim = cache.head_dim as int;
    let layers = cache.n_layers as int;
    assert(0 * heads * dim * 8 * layers == 0) by (nonlinear_arith);
    assert((tokens + 1) * heads * dim * 8 * layers == tokens * heads * dim * 8 * layers + layers
        * heads * dim * 2 * 4) by (nonlinear_arith);
}

/// Capacity grows by whole chunks of 256 tokens, as few as hold what is required.
pub proof fn lemma_chunk_of_256(required: int)
    requires
        0 <= required,
    ensures
        chunk_aligned(required) % 256 == 0,
        required <= chunk_aligned(required) < required + 256,
{
    lemma_chunk_aligned(required);
}

/// When a token is refused: in a layer that does not exist, in a full cache, and
/// where its numbers are not as many as the heads hold.
pub proof fn lemma_append_refused(cache: KvCache, layer: int, k_len: nat, v_len: nat)
    ensures
        cache.append_error(layer, k_len, v_len) is None <==> layer < cache.n_layers
            && cache.seq_len < cache.max_seq_len && k_len == cache.n_kv_heads * cache.head_dim
            && v_len == cache.n_kv_heads * cache.head_dim,
        layer < cache.n_layers && cache.seq_len >= cache.max_seq_len ==> cache.append_error(
            layer,
            k_len,
            v_len,
        ) == Some("KV cache full"@),
{
}

/// Writing replaces the numbers at its place and no others, and growing adds zeros
/// behind what is there.
pub proof fn lemma_written(row: Seq<u32>, at: int, values: Seq<u32>, length: nat)
    requires
        0 <= at,
        at + values.len() <= row.len() <= length,
    ensures
        written(row, at, values).len() == row.len(),
        forall|i: int|
            0 <= i < row.len() ==> #[trigger] written(row, at, values)[i] == (if at <= i < at
                + values.len() {
                values[i - at]
            } else {
                row[i]
            }),
        extended(row, length).len() == length,
        forall|i: int|
            0 <= i < length ==> #[trigger] extended(row, length)[i] == (if i < row.len() {
                row[i]
            } else {
                0
            }),
{
}

} // verus!
