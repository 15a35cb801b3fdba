//! Persistent weight streaming – token_embd, output_norm, output.
//!
//! Policy: a persistent tensor whose actual resident representation consumes
//! at most 25% of the total budget is kept resident; a larger one is streamed
//! on demand.
//!
//! Memory contract:
//! - streamed embedding lookup reads exactly one row and is budget-charged;
//!   F32 goes directly into final storage, while converted/quantized formats
//!   retain their raw-plus-decoded workspace accounting;
//! - streamed matvec/logits run in row chunks sized by the *available*
//!   budget (bounded temp, no full-tensor reads, no full F32 expansions).

use vstd::prelude::*;
use vstd::string::*;

use crate::budget::MemoryBudget;
use crate::gguf;
use crate::gguf::{GgmlType, TensorDescriptor};
use crate::text;

verus! {

/// Upper bound for a single streamed chunk read (also requires budget room).
pub const MAX_STREAM_CHUNK_BYTES: u64 = 16777216;

/// Never leave less than this fraction of the budget outside chunk temps.
pub const STREAM_CHUNK_BUDGET_SHARE: u64 = 4;

/// A tensor held in memory, with the bytes that it occupies there.
#[derive(Debug, Clone)]
pub struct ResidentTensor<T> {
    pub data: T,
    pub resident_bytes: usize,
}

#[derive(Debug, Clone)]
pub enum PersistentWeight<T> {
    Resident(ResidentTensor<T>),
    Streamed(TensorDescriptor),
}

/// How one embedding row is obtained, and what is charged for it meanwhile.
#[derive(Debug, Clone, Copy, PartialEq, Eq, Structural)]
pub enum EmbeddingRead {
    /// From memory.
    Memory { temp_bytes: u64 },
    /// Straight from the file into the returned numbers.
    Direct { element_offset: u64, element_count: u64, temp_bytes: u64 },
    /// A raw row from the file, decoded into the returned numbers.
    Decoded { byte_offset: u64, row_bytes: u64, temp_bytes: u64 },
}

/// Bytes of a contiguous row of `elements` numbers, for the formats that can be
/// streamed.
pub open spec fn row_bytes(ggml_type: GgmlType, elements: int) -> Option<int> {
    match ggml_type {
        GgmlType::F32 => Some(elements * 4),
        GgmlType::F16 | GgmlType::BF16 => Some(elements * 2),
        GgmlType::Q4_0 => Some(elements / 32 * 18),
        GgmlType::Q8_0 => Some(elements / 32 * 34),
        GgmlType::Q4_K => Some(elements / 256 * 144),
        GgmlType::Q5_K => Some(elements / 256 * 176),
        GgmlType::Q6_K => Some(elements / 256 * 210),
        GgmlType::Q2_K => Some(elements / 256 * 84),
        GgmlType::Q3_K => Some(elements / 256 * 110),
        GgmlType::Q8_K => Some(elements / 256 * 292),
        _ => None,
    }
}

pub open spec fn unsupported_streaming(ggml_type: GgmlType) -> Seq<char> {
    "unsupported persistent weight type for streaming: "@ + ggml_type.spec_name()
}

/// A row never takes more than four bytes for each of its numbers.
pub proof fn lemma_row_bytes_bounded(ggml_type: GgmlType, elements: int)
    requires
        0 <= elements,
    ensures
        row_bytes(ggml_type, elements) matches Some(bytes) ==> 0 <= bytes <= 4 * elements,
{
}

/// Row bytes for a contiguous ggml row of `in_dim` elements of `desc`'s type.
pub fn row_bytes_for(desc: &TensorDescriptor, in_dim: usize) -> (result: Result<usize, String>)
    requires
        row_bytes(desc.ggml_type, in_dim as int) matches Some(bytes) ==> bytes <= usize::MAX,
    ensures
        text::text_result(result) == (match row_bytes(desc.ggml_type, in_dim as int) {
            Some(bytes) => Ok::<usize, Seq<char>>(bytes as usize),
            None => Err(unsupported_streaming(desc.ggml_type)),
        }),
{
    match desc.ggml_type {
        GgmlType::F32 => Ok(in_dim * 4),
        GgmlType::F16 | GgmlType::BF16 => Ok(in_dim * 2),
        GgmlType::Q4_0 => Ok((in_dim / 32) * 18),
        GgmlType::Q8_0 => Ok((in_dim / 32) * 34),
        GgmlType::Q4_K => Ok((in_dim / 256) * 144),
        GgmlType::Q5_K => Ok((in_dim / 256) * 176),
        GgmlType::Q6_K => Ok((in_dim / 256) * 210),
        GgmlType::Q2_K => Ok((in_dim / 256) * 84),
        GgmlType::Q3_K => Ok((in_dim / 256) * 110),
        GgmlType::Q8_K => Ok((in_dim / 256) * 292),
        _ => {
            let mut message = "unsupported persistent weight type for streaming: ".to_owned();
            message.append(desc.ggml_type.name().as_str());
            Err(message)
        },
    }
}

/// The read of one streamed embedding row.
pub open spec fn streamed_row(ggml_type: GgmlType, token_id: int, n_embd: int) -> Result<
    EmbeddingRead,
    Seq<char>,
> {
    if token_id * n_embd > u64::MAX {
        Err("embedding row element offset overflow"@)
    } else if ggml_type == GgmlType::F32 {
        if n_embd * 4 > u64::MAX {
            Err("embedding row byte size overflow"@)
        } else {
            Ok(
                EmbeddingRead::Direct {
                    element_offset: (token_id * n_embd) as u64,
                    element_count: n_embd as u64,
                    temp_bytes: (n_embd * 4) as u64,
                },
            )
        }
    } else {
        match row_bytes(ggml_type, n_embd) {
            None => Err(unsupported_streaming(ggml_type)),
            Some(bytes) => if token_id * bytes > u64::MAX {
                Err("embedding row byte offset overflow"@)
            } else {
                Ok(
                    EmbeddingRead::Decoded {
                        byte_offset: (token_id * bytes) as u64,
                        row_bytes: bytes as u64,
                        temp_bytes: (bytes + n_embd * 4) as u64,
                    },
                )
            },
        }
    }
}

impl<T> PersistentWeight<T> {
    pub fn resident_bytes(&self) -> (bytes: usize)
        ensures
            bytes == (match self {
                PersistentWeight::Resident(tensor) => tensor.resident_bytes,
                PersistentWeight::Streamed(desc) => 0,
            }),
    {
        match self {
            PersistentWeight::Resident(tensor) => tensor.resident_bytes,
            PersistentWeight::Streamed(_) => 0,
        }
    }

    pub fn is_resident(&self) -> (yes: bool)
        ensures
            yes == (self is Resident),
    {
        match self {
            PersistentWeight::Resident(_) => true,
            PersistentWeight::Streamed(_) => false,
        }
    }

    pub fn is_streamed(&self) -> (yes: bool)
        ensures
            yes == (self is Streamed),
    {
        match self {
            PersistentWeight::Resident(_) => false,
            PersistentWeight::Streamed(_) => true,
        }
    }

    /// Embedding lookup for `token_id` of `n_embd` numbers.
    ///
    /// Resident tensors answer from memory. Streamed tensors read exactly one
    /// row: F32 is loaded directly into the returned vector; converted or
    /// quantized rows retain their raw-plus-decoded temporary accounting.
    pub fn get_embedding(&self, token_id: usize, n_embd: usize) -> (result: Result<
        EmbeddingRead,
        String,
    >)
        requires
            !(self matches PersistentWeight::Streamed(desc) && desc.ggml_type == GgmlType::F32)
                ==> n_embd * 4 <= isize::MAX,
        ensures
            text::text_result(result) == (match self {
                PersistentWeight::Resident(tensor) => Ok::<EmbeddingRead, Seq<char>>(
                    EmbeddingRead::Memory { temp_bytes: (n_embd * 4) as u64 },
                ),
                PersistentWeight::Streamed(desc) => streamed_row(
                    desc.ggml_type,
                    token_id as int,
                    n_embd as int,
                ),
            }),
    {
        match self {
            PersistentWeight::Resident(_) => {
                Ok(EmbeddingRead::Memory { temp_bytes: (n_embd * 4) as u64 })
            },
            PersistentWeight::Streamed(desc) => {
                let element_offset: u64 = match (token_id as u64).checked_mul(n_embd as u64) {
                    Some(offset) => offset,
                    None => {
                        return Err("embedding row element offset overflow".to_owned());
                    },
                };
                if desc.ggml_type == GgmlType::F32 {
                    return match (n_embd as u64).checked_mul(4) {
                        None => Err("embedding row byte size overflow".to_owned()),
                        Some(temp_bytes) => Ok(
                            EmbeddingRead::Direct {
                                element_offset,
                                element_count: n_embd as u64,
                                temp_bytes,
                            },
                        ),
                    };
                }
                proof {
                    lemma_row_bytes_bounded(desc.ggml_type, n_embd as int);
                }
                match row_bytes_for(desc, n_embd) {
                    Err(error) => Err(error),
                    Ok(bytes) => match (token_id as u64).checked_mul(bytes as u64) {
                        None => Err("embedding row byte offset overflow".to_owned()),
                        Some(byte_offset) => Ok(
                            EmbeddingRead::Decoded {
                                byte_offset,
                                row_bytes: bytes as u64,
                                temp_bytes: bytes as u64 + (n_embd * 4) as u64,
                            },
                        ),
                    },
                }
            },
        }
    }
}

/// A chunked pass over the rows of a tensor that is not resident. Direct
/// passes read numbers straight into their final storage; the others own a raw
/// chunk and one decoded row.
#[derive(Debug, Clone, Copy, PartialEq, Eq, Structural)]
pub struct StreamedMatvec {
    pub direct: bool,
    pub in_dim: usize,
    pub out_dim: usize,
    pub row_bytes: u64,
    pub rows_per_chunk: u64,
    pub temp_bytes: u64,
}

/// One read of a streamed pass. Offset and length count numbers in a direct
/// pass and bytes otherwise.
#[derive(Debug, Clone, Copy, PartialEq, Eq, Structural)]
pub struct StreamedChunk {
    pub rows: usize,
    pub offset: u64,
    pub length: u64,
}

/// The chunk size aimed at: the budget share under the absolute cap, but at
/// least one row.
pub open spec fn chunk_target(available: int, row_bytes: int) -> int {
    let share = available / STREAM_CHUNK_BUDGET_SHARE as int;
    let capped = if share <= MAX_STREAM_CHUNK_BYTES {
        share
    } else {
        MAX_STREAM_CHUNK_BYTES as int
    };
    if capped >= row_bytes {
        capped
    } else {
        row_bytes
    }
}

pub open spec fn rows_in_chunk(available: int, row_bytes: int) -> int {
    chunk_target(available, row_bytes) / row_bytes
}

/// What a pass owns while it runs.
pub open spec fn pass_bytes(direct: bool, chunk_bytes: int, in_dim: int) -> int {
    if direct {
        chunk_bytes
    } else {
        chunk_bytes + in_dim * 4
    }
}

pub open spec fn temp_detail(direct: bool) -> Seq<char> {
    if direct {
        "direct F32 chunk"@
    } else {
        "raw chunk + decoded row buffer"@
    }
}

pub open spec fn arity_message(tensor: gguf::TensorFacts, x_len: nat, y_len: nat) -> Seq<char> {
    "streamed matvec arity mismatch (ggml layout [in, out]): '"@ + tensor.name + "' "@
        + text::shown_list(text::naturals(tensor.dimensions)) + " implies in="@ + text::decimal(
        tensor.dimensions[0] as nat,
    ) + ", out="@ + text::decimal(tensor.dimensions[1] as nat) + ", but got x.len()="@
        + text::decimal(x_len) + ", y.len()="@ + text::decimal(y_len)
}

pub open spec fn small_budget_message(
    name: Seq<char>,
    temp_bytes: nat,
    direct: bool,
    available: nat,
) -> Seq<char> {
    "RAM budget too small to stream tensor '"@ + name + "': need "@ + text::decimal(temp_bytes)
        + " bytes of temporary working set ("@ + temp_detail(direct) + "), available "@
        + text::decimal(available)
}

/// The pass that streams a tensor against `x_len` inputs and `y_len` outputs.
pub open spec fn streamed_pass(
    tensor: gguf::TensorFacts,
    x_len: usize,
    y_len: usize,
    available: int,
) -> Result<StreamedMatvec, Seq<char>> {
    if tensor.dimensions.len() != 2 {
        Err(
            "streamed matvec expects a 2D tensor, '"@ + tensor.name + "' has shape "@
                + text::shown_list(text::naturals(tensor.dimensions)),
        )
    } else if x_len != tensor.dimensions[0] || y_len != tensor.dimensions[1] {
        Err(arity_message(tensor, x_len as nat, y_len as nat))
    } else {
        match row_bytes(tensor.ggml_type, x_len as int) {
            None => Err(unsupported_streaming(tensor.ggml_type)),
            Some(bytes) => {
                let direct = tensor.ggml_type == GgmlType::F32;
                let rows = rows_in_chunk(available, bytes);
                let temp = pass_bytes(direct, rows * bytes, x_len as int);
                if temp > available {
                    Err(
                        small_budget_message(
                            tensor.name,
                            temp as nat,
                            direct,
                            available as nat,
                        ),
                    )
                } else {
                    Ok(
                        StreamedMatvec {
                            direct,
                            in_dim: x_len,
                            out_dim: y_len,
                            row_bytes: bytes as u64,
                            rows_per_chunk: rows as u64,
                            temp_bytes: temp as u64,
                        },
                    )
                }
            },
        }
    }
}

/// The chunk holds at least one row, and no more bytes than were aimed at.
pub proof fn lemma_chunk_bounded(available: int, row_bytes: int)
    requires
        0 <= available,
        0 < row_bytes,
    ensures
        1 <= rows_in_chunk(available, row_bytes),
        row_bytes <= rows_in_chunk(available, row_bytes) * row_bytes <= chunk_target(
            available,
            row_bytes,
        ),
        chunk_target(available, row_bytes) <= row_bytes || chunk_target(available, row_bytes)
            <= MAX_STREAM_CHUNK_BYTES,
        chunk_target(available, row_bytes) <= row_bytes || STREAM_CHUNK_BUDGET_SHARE * chunk_target(
            available,
            row_bytes,
        ) <= available,
{
    let target = chunk_target(available, row_bytes);
    let rows = target / row_bytes;
    assert(1 <= rows && row_bytes <= rows * row_bytes <= target) by (nonlinear_arith)
        requires
            rows == target / row_bytes,
            0 < row_bytes <= target,
    ;
}

/// Chunked, budget-aware streamed matvec for a non-resident 2D tensor.
///
/// Layout: ggml `[in, out]`; the file stores `out` contiguous rows of `in`
/// elements. The chunk buffer is bounded by `min(16 MiB, available/share)` but
/// holds at least one row; the exact owned workspace must fit the budget.
/// A row has to have at least one byte.
pub fn plan_streamed_matvec(
    desc: &TensorDescriptor,
    x_len: usize,
    y_len: usize,
    budget: &MemoryBudget,
) -> (result: Result<StreamedMatvec, String>)
    requires
        budget.wf(),
        x_len * 4 <= isize::MAX,
        desc@.dimensions.len() == 2 && x_len == desc@.dimensions[0] && y_len
            == desc@.dimensions[1] ==> row_bytes(desc.ggml_type, x_len as int) != Some(0int),
    ensures
        text::text_result(result) == streamed_pass(desc@, x_len, y_len, budget@.available()),
{
    if desc.dimensions.len() != 2 {
        let mut message = "streamed matvec expects a 2D tensor, '".to_owned();
        message.append(desc.name.as_str());
        message.append("' has shape ");
        text::push_list(&mut message, &desc.dimensions);
        return Err(message);
    }
    let in_dim: u64 = desc.dimensions[0];
    let out_dim: u64 = desc.dimensions[1];
    if x_len as u64 != in_dim || y_len as u64 != out_dim {
        let mut message =
            "streamed matvec arity mismatch (ggml layout [in, out]): '".to_owned();
        message.append(desc.name.as_str());
        message.append("' ");
        text::push_list(&mut message, &desc.dimensions);
        message.append(" implies in=");
        text::push_decimal(&mut message, in_dim);
        message.append(", out=");
        text::push_decimal(&mut message, out_dim);
        message.append(", but got x.len()=");
        text::push_decimal(&mut message, x_len as u64);
        message.append(", y.len()=");
        text::push_decimal(&mut message, y_len as u64);
        return Err(message);
    }
    proof {
        lemma_row_bytes_bounded(desc.ggml_type, x_len as int);
    }
    let row: u64 = match row_bytes_for(desc, x_len) {
        Ok(bytes) => bytes as u64,
        Err(error) => {
            return Err(error);
        },
    };
    proof {
        budget.lemma_wf();
        lemma_chunk_bounded(budget@.available(), row as int);
    }
    let row_f32_bytes: u64 = (x_len * 4) as u64;
    let available: u64 = budget.available_bytes();
    let mut target: u64 = available / STREAM_CHUNK_BUDGET_SHARE;
    if target > MAX_STREAM_CHUNK_BYTES {
        target = MAX_STREAM_CHUNK_BYTES;
    }
    if target < row {
        target = row;
    }
    let rows_per_chunk: u64 = target / row;
    let chunk_bytes: u64 = rows_per_chunk * row;
    let direct = desc.ggml_type == GgmlType::F32;
    let temp_bytes: u64 = if direct {
        chunk_bytes
    } else {
        chunk_bytes + row_f32_bytes
    };
    if !budget.can_allocate(temp_bytes) {
        let mut message = "RAM budget too small to stream tensor '".to_owned();
        message.append(desc.name.as_str());
        message.append("': need ");
        text::push_decimal(&mut message, temp_bytes);
        message.append(" bytes of temporary working set (");
        if direct {
            message.append("direct F32 chunk");
        } else {
            message.append("raw chunk + decoded row buffer");
        }
        message.append("), available ");
        text::push_decimal(&mut message, available);
        return Err(message);
    }
    Ok(
        StreamedMatvec {
            direct,
            in_dim: x_len,
            out_dim: y_len,
            row_bytes: row,
            rows_per_chunk,
            temp_bytes,
        },
    )
}

/// A streamed pass fits what the budget has left, reads at least one row at a
/// time, and never reads more than one row above the smaller of its share and
/// the cap.
pub proof fn lemma_pass_bounded(
    tensor: gguf::TensorFacts,
    x_len: usize,
    y_len: usize,
    available: int,
)
    requires
        0 <= available <= u64::MAX,
        x_len * 4 <= isize::MAX,
        row_bytes(tensor.ggml_type, x_len as int) != Some(0int),
    ensures
        streamed_pass(tensor, x_len, y_len, available) matches Ok(pass) ==> {
            &&& pass.temp_bytes <= available
            &&& pass.rows_per_chunk >= 1
            &&& pass.row_bytes >= 1
            &&& pass.rows_per_chunk * pass.row_bytes <= pass.row_bytes || pass.rows_per_chunk
                * pass.row_bytes <= MAX_STREAM_CHUNK_BYTES
            &&& pass.rows_per_chunk * pass.row_bytes <= pass.row_bytes
                || STREAM_CHUNK_BUDGET_SHARE * (pass.rows_per_chunk * pass.row_bytes) <= available
            &&& pass.temp_bytes == pass_bytes(
                pass.direct,
                pass.rows_per_chunk * pass.row_bytes,
                x_len as int,
            )
        },
{
    lemma_row_bytes_bounded(tensor.ggml_type, x_len as int);
    match row_bytes(tensor.ggml_type, x_len as int) {
        None => {},
        Some(bytes) => {
            lemma_chunk_bounded(available, bytes);
            let rows = rows_in_chunk(available, bytes);
            assert(rows <= rows * bytes) by (nonlinear_arith)
                requires
                    1 <= rows,
                    1 <= bytes,
            ;
        },
    }
}

impl StreamedMatvec {
    /// The rows that are read from `row_start` on.
    pub open spec fn rows_at(self, row_start: int) -> int {
        if self.rows_per_chunk <= self.out_dim - row_start {
            self.rows_per_chunk as int
        } else {
            self.out_dim - row_start
        }
    }

    /// What one row takes in the pass's unit.
    pub open spec fn row_units(self) -> int {
        if self.direct {
            self.in_dim as int
        } else {
            self.row_bytes as int
        }
    }

    pub open spec fn chunk_at(self, row_start: int) -> Result<StreamedChunk, Seq<char>> {
        if self.direct && row_start * self.row_units() > u64::MAX {
            Err("streamed F32 element offset overflow"@)
        } else if self.direct && self.rows_at(row_start) * self.row_units() > u64::MAX {
            Err("streamed F32 element count overflow"@)
        } else {
            Ok(
                StreamedChunk {
                    rows: self.rows_at(row_start) as usize,
                    offset: (row_start * self.row_units()) as u64,
                    length: (self.rows_at(row_start) * self.row_units()) as u64,
                },
            )
        }
    }

    /// The read of the rows from `row_start` on.
    pub fn next_chunk(&self, row_start: usize) -> (result: Result<StreamedChunk, String>)
        requires
            row_start < self.out_dim,
            !self.direct ==> self.out_dim * self.row_bytes <= u64::MAX,
        ensures
            text::text_result(result) == self.chunk_at(row_start as int),
    {
        let left: usize = self.out_dim - row_start;
        let rows: usize = if self.rows_per_chunk <= left as u64 {
            self.rows_per_chunk as usize
        } else {
            left
        };
        if self.direct {
            let offset: u64 = match (row_start as u64).checked_mul(self.in_dim as u64) {
                Some(offset) => offset,
                None => {
                    return Err("streamed F32 element offset overflow".to_owned());
                },
            };
            let length: u64 = match (rows as u64).checked_mul(self.in_dim as u64) {
                Some(length) => length,
                None => {
                    return Err("streamed F32 element count overflow".to_owned());
                },
            };
            return Ok(StreamedChunk { rows, offset, length });
        }
        proof {
            let unit = self.row_bytes as int;
            let all = self.out_dim as int;
            assert(0 <= row_start * unit <= all * unit && 0 <= rows * unit <= all * unit)
                by (nonlinear_arith)
                requires
                    0 <= row_start <= all,
                    0 <= rows <= all,
                    0 <= unit,
            ;
        }
        let offset: u64 = (row_start as u64) * self.row_bytes;
        let length: u64 = (rows as u64) * self.row_bytes;
        Ok(StreamedChunk { rows, offset, length })
    }
}

/// Each chunk has at least one row and stays inside the tensor; it begins where
/// the rows before it end, and the next one begins where it ends.
pub proof fn lemma_chunks_advance(pass: StreamedMatvec, row_start: int)
    requires
        0 <= row_start < pass.out_dim,
        pass.rows_per_chunk >= 1,
    ensures
        1 <= pass.rows_at(row_start),
        row_start + pass.rows_at(row_start) <= pass.out_dim,
        pass.chunk_at(row_start) matches Ok(chunk) ==> pass.out_dim * pass.row_units() <= u64::MAX
            ==> {
            &&& chunk.rows == pass.rows_at(row_start)
            &&& chunk.offset == row_start * pass.row_units()
            &&& chunk.offset + chunk.length == (row_start + chunk.rows) * pass.row_units()
            &&& chunk.offset + chunk.length <= pass.out_dim * pass.row_units()
        },
{
    let unit = pass.row_units();
    let rows = pass.rows_at(row_start);
    let all = pass.out_dim as int;
    assert(0 <= row_start * unit && 0 <= rows * unit && row_start * unit + rows * unit == (row_start
        + rows) * unit && (row_start + rows) * unit <= all * unit) by (nonlinear_arith)
        requires
            0 <= row_start,
            0 <= rows,
            row_start + rows <= all,
            0 <= unit,
    ;
}

/// Keep a persistent tensor resident only when its actual in-memory
/// representation is at most one quarter of the configured budget.
/// Division avoids overflow while preserving the 25% boundary.
pub fn should_keep_resident(resident_bytes: u64, budget_total: u64) -> (keep: bool)
    ensures
        keep == (4 * resident_bytes <= budget_total),
{
    resident_bytes <= budget_total / 4
}

/// How long a row is: four bytes a number as 32-bit floats, two as 16-bit ones,
/// and for each whole block of 32 or 256 numbers the bytes of a block of the
/// format. Other formats are not streamed.
pub proof fn lemma_row_bytes(blocks: int, rest: int, small: int)
    requires
        0 <= blocks,
        0 <= rest < 256,
        0 <= small < 32,
    ensures
        row_bytes(GgmlType::F32, blocks) == Some(4 * blocks),
        row_bytes(GgmlType::F16, blocks) == Some(2 * blocks),
        row_bytes(GgmlType::BF16, blocks) == Some(2 * blocks),
        row_bytes(GgmlType::Q4_0, 32 * blocks + small) == Some(18 * blocks),
        row_bytes(GgmlType::Q8_0, 32 * blocks + small) == Some(34 * blocks),
        row_bytes(GgmlType::Q2_K, 256 * blocks + rest) == Some(84 * blocks),
        row_bytes(GgmlType::Q3_K, 256 * blocks + rest) == Some(110 * blocks),
        row_bytes(GgmlType::Q4_K, 256 * blocks + rest) == Some(144 * blocks),
        row_bytes(GgmlType::Q5_K, 256 * blocks + rest) == Some(176 * blocks),
        row_bytes(GgmlType::Q6_K, 256 * blocks + rest) == Some(210 * blocks),
        row_bytes(GgmlType::Q8_K, 256 * blocks + rest) == Some(292 * blocks),
        forall|ggml_type: GgmlType|
            (#[trigger] row_bytes(ggml_type, blocks)) is None <==> ggml_type == GgmlType::Q4_1
                || ggml_type == GgmlType::Q5_0 || ggml_type == GgmlType::Q5_1 || ggml_type
                == GgmlType::Q8_1 || ggml_type is Other,
{
    assert((32 * blocks + small) / 32 == blocks);
    assert((256 * blocks + rest) / 256 == blocks);
}

/// Which part of the file holds a token's row: rows follow one another without
/// gaps from the start of the tensor, each as long as a row is. Floats are read
/// as they are and take four bytes each; anything else is read raw and decoded
/// into floats beside it.
pub proof fn lemma_streamed_row(ggml_type: GgmlType, token_id: int, n_embd: int)
    requires
        0 <= token_id,
        0 <= n_embd,
        4 * n_embd <= isize::MAX,
        streamed_row(ggml_type, token_id, n_embd) is Ok,
    ensures
        ({
            let read = streamed_row(ggml_type, token_id, n_embd)->Ok_0;
            let next = streamed_row(ggml_type, token_id + 1, n_embd);
            &&& ggml_type == GgmlType::F32 <==> read is Direct
            &&& !(read is Memory)
            &&& read matches EmbeddingRead::Direct { element_offset, element_count, temp_bytes } ==> {
                &&& element_offset == token_id * n_embd
                &&& element_count == n_embd
                &&& temp_bytes == 4 * n_embd
                &&& next matches Ok(EmbeddingRead::Direct { element_offset: after, .. }) ==> after
                    == element_offset + element_count
            }
            &&& read matches EmbeddingRead::Decoded { byte_offset, row_bytes: length, temp_bytes }
                ==> {
                &&& row_bytes(ggml_type, n_embd) == Some(length as int)
                &&& byte_offset == token_id * length
                &&& temp_bytes == length + 4 * n_embd
                &&& next matches Ok(EmbeddingRead::Decoded { byte_offset: after, .. }) ==> after
                    == byte_offset + length
            }
        }),
{
    lemma_row_bytes_bounded(ggml_type, n_embd);
    assert(token_id * n_embd >= 0) by (nonlinear_arith)
        requires
            0 <= token_id,
            0 <= n_embd,
    ;
    assert((token_id + 1) * n_embd == token_id * n_embd + n_embd) by (nonlinear_arith);
    if row_bytes(ggml_type, n_embd) is Some {
        let length = row_bytes(ggml_type, n_embd)->0;
        assert(token_id * length >= 0) by (nonlinear_arith)
            requires
                0 <= token_id,
                0 <= length,
        ;
        assert((token_id + 1) * length == token_id * length + length) by (nonlinear_arith);
    }
}

/// When a row cannot be read: where its place cannot be counted, and where the
/// format is not streamed.
pub proof fn lemma_streamed_row_fails(ggml_type: GgmlType, token_id: int, n_embd: int)
    requires
        0 <= token_id,
        0 <= n_embd,
        4 * n_embd <= isize::MAX,
    ensures
        streamed_row(ggml_type, token_id, n_embd) is Err <==> token_id * n_embd > u64::MAX || (
        ggml_type != GgmlType::F32 && (row_bytes(ggml_type, n_embd) is None || token_id * row_bytes(
            ggml_type,
            n_embd,
        )->0 > u64::MAX)),
{
}

/// A streamed pass works on the tensor that it names, and takes as many rows at a
/// time as fit into a quarter of what is free and into 16 MiB, or a single row
/// where not even one fits. Its working set is those rows, and beside them one
/// decoded row where the format has to be decoded.
pub proof fn lemma_streamed_pass(
    tensor: gguf::TensorFacts,
    x_len: usize,
    y_len: usize,
    available: int,
)
    requires
        0 <= available <= u64::MAX,
        x_len * 4 <= isize::MAX,
        row_bytes(tensor.ggml_type, x_len as int) != Some(0int),
        streamed_pass(tensor, x_len, y_len, available) is Ok,
    ensures
        ({
            let pass = streamed_pass(tensor, x_len, y_len, available)->Ok_0;
            let chunk = pass.rows_per_chunk * pass.row_bytes;
            let longer = (pass.rows_per_chunk + 1) * pass.row_bytes;
            &&& tensor.dimensions.len() == 2 && tensor.dimensions[0] == x_len
                && tensor.dimensions[1] == y_len
            &&& pass.in_dim == x_len && pass.out_dim == y_len
            &&& pass.direct <==> tensor.ggml_type == GgmlType::F32
            &&& row_bytes(tensor.ggml_type, x_len as int) == Some(pass.row_bytes as int)
            &&& pass.rows_per_chunk == 1 || (chunk <= 16 * 1024 * 1024 && 4 * chunk <= available)
            &&& longer > 16 * 1024 * 1024 || 4 * longer > available
            &&& pass.direct ==> pass.temp_bytes == chunk
            &&& !pass.direct ==> pass.temp_bytes == chunk + 4 * x_len
            &&& pass.temp_bytes <= available
        }),
{
    let bytes = row_bytes(tensor.ggml_type, x_len as int)->0;
    lemma_row_bytes_bounded(tensor.ggml_type, x_len as int);
    lemma_pass_bounded(tensor, x_len, y_len, available);
    lemma_chunk_bounded(available, bytes);
    let pass = streamed_pass(tensor, x_len, y_len, available)->Ok_0;
    let target = chunk_target(available, bytes);
    let rows = rows_in_chunk(available, bytes);
    vstd::arithmetic::div_mod::lemma_fundamental_div_mod(target, bytes);
    vstd::arithmetic::div_mod::lemma_mod_bound(target, bytes);
    assert(bytes * rows == rows * bytes) by (nonlinear_arith);
    assert((rows + 1) * bytes == rows * bytes + bytes) by (nonlinear_arith);
    assert(pass_bytes(pass.direct, rows * bytes, x_len as int) <= available);
    assert(rows <= rows * bytes) by (nonlinear_arith)
        requires
            rows >= 1,
            bytes >= 1,
    ;
    assert(pass.rows_per_chunk == rows && pass.row_bytes == bytes);
    if rows > 1 {
        assert(rows * bytes > bytes) by (nonlinear_arith)
            requires
                rows > 1,
                bytes >= 1,
        ;
    }
}

} // verus!
