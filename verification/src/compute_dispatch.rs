//! Representation dispatch and work partitioning of matrix-vector products.
//!
//! Nothing here computes a product: the functions choose the kernel for a
//! tensor, count its work, and split its rows among workers.

use vstd::prelude::*;
use vstd::string::*;

use crate::gguf::GgmlType;
use crate::profile;
use crate::profile::{ProfileSnapshot, Profiler};
use crate::text;

verus! {

/// Minimum output rows before Q4_0 / Q6_K work is handed to the backend thread
/// pool. Below this threshold the fused scalar kernel avoids the pool's
/// overhead.
pub const QUANT_PARALLEL_ROW_THRESHOLD: usize = 128;

/// Elements and bytes of one Q4_0 block, and of one Q6_K block.
pub const QK4_0: usize = 32;
pub const BLOCK_SIZE_Q4_0: usize = 18;
pub const QK_K: usize = 256;
pub const BLOCK_SIZE_Q6_K: usize = 210;

/// How many chunks the rows are split into: as many as asked for, but no more
/// than there are rows, and at least one.
pub open spec fn chunk_count(out_dim: int, n_chunks: int) -> int {
    if out_dim == 0 || n_chunks <= 0 {
        1
    } else if n_chunks <= out_dim {
        n_chunks
    } else {
        out_dim
    }
}

/// The rows of chunk `i` out of `count`: the first `out_dim % count` chunks
/// have one row more than the others.
pub open spec fn chunk_rows(out_dim: int, count: int, i: int) -> int {
    out_dim / count + if i < out_dim % count {
        1int
    } else {
        0
    }
}

/// Where chunk `i` begins.
pub open spec fn chunk_start(out_dim: int, count: int, i: int) -> int {
    i * (out_dim / count) + if i < out_dim % count {
        i
    } else {
        out_dim % count
    }
}

proof fn lemma_chunk_step(out_dim: int, count: int, i: int)
    requires
        0 <= out_dim,
        1 <= count,
        0 <= i < count,
    ensures
        chunk_start(out_dim, count, i + 1) == chunk_start(out_dim, count, i) + chunk_rows(
            out_dim,
            count,
            i,
        ),
        0 <= chunk_rows(out_dim, count, i),
        0 <= chunk_start(out_dim, count, i),
        chunk_start(out_dim, count, i + 1) <= out_dim,
        chunk_start(out_dim, count, count) == out_dim,
        chunk_start(out_dim, count, 0) == 0,
{
    let base = out_dim / count;
    let extra = out_dim % count;
    assert(0 <= base && 0 <= extra < count && out_dim == count * base + extra)
        by (nonlinear_arith)
        requires
            base == out_dim / count,
            extra == out_dim % count,
            0 <= out_dim,
            1 <= count,
    ;
    assert((i + 1) * base == i * base + base) by (nonlinear_arith);
    assert(0 <= i * base && (i + 1) * base <= count * base) by (nonlinear_arith)
        requires
            0 <= i,
            i + 1 <= count,
            0 <= base,
    ;
    assert(0 * base == 0) by (nonlinear_arith);
}

/// Split `out_dim` rows into `n_chunks` contiguous (start, count) ranges
/// with at most one row of imbalance across chunks.
pub fn make_row_chunks(out_dim: usize, n_chunks: usize) -> (chunks: Vec<(usize, usize)>)
    ensures
        chunks@.len() == chunk_count(out_dim as int, n_chunks as int),
        forall|i: int|
            0 <= i < chunks@.len() ==> (#[trigger] chunks@[i]).0 == chunk_start(
                out_dim as int,
                chunks@.len() as int,
                i,
            ) && chunks@[i].1 == chunk_rows(out_dim as int, chunks@.len() as int, i),
{
    let mut n: usize = n_chunks;
    if out_dim < n {
        n = out_dim;
    }
    if n < 1 {
        n = 1;
    }
    let base: usize = out_dim / n;
    let extra: usize = out_dim % n;
    let mut chunks: Vec<(usize, usize)> = Vec::new();
    let mut cursor: usize = 0;
    proof {
        lemma_chunk_step(out_dim as int, n as int, 0);
    }
    for i in 0..n
        invariant
            n == chunk_count(out_dim as int, n_chunks as int),
            n >= 1,
            base == out_dim / n,
            extra == out_dim % n,
            cursor == chunk_start(out_dim as int, n as int, i as int),
            chunks@.len() == i,
            forall|k: int|
                0 <= k < i ==> (#[trigger] chunks@[k]).0 == chunk_start(
                    out_dim as int,
                    n as int,
                    k,
                ) && chunks@[k].1 == chunk_rows(out_dim as int, n as int, k),
    {
        proof {
            lemma_chunk_step(out_dim as int, n as int, i as int);
        }
        let count: usize = if i < extra {
            base + 1
        } else {
            base
        };
        chunks.push((cursor, count));
        cursor = cursor + count;
    }
    chunks
}

/// The chunks are a partition of the rows: they begin at row zero, each begins
/// where the one before it ends, and the last ends at the last row. Their sizes
/// differ by at most one row, and none is empty unless there are no rows.
pub proof fn lemma_row_chunks_partition(out_dim: int, n_chunks: int, i: int, j: int)
    requires
        0 <= out_dim,
        0 <= n_chunks,
        0 <= i < chunk_count(out_dim, n_chunks),
        0 <= j < chunk_count(out_dim, n_chunks),
    ensures
        ({
            let count = chunk_count(out_dim, n_chunks);
            &&& chunk_start(out_dim, count, 0) == 0
            &&& chunk_start(out_dim, count, i + 1) == chunk_start(out_dim, count, i) + chunk_rows(
                out_dim,
                count,
                i,
            )
            &&& chunk_start(out_dim, count, count) == out_dim
            &&& chunk_rows(out_dim, count, i) - chunk_rows(out_dim, count, j) <= 1
            &&& out_dim > 0 ==> chunk_rows(out_dim, count, i) >= 1
        }),
{
    let count = chunk_count(out_dim, n_chunks);
    lemma_chunk_step(out_dim, count, i);
    if out_dim > 0 {
        let base = out_dim / count;
        assert(base >= 1) by (nonlinear_arith)
            requires
                base == out_dim / count,
                1 <= count <= out_dim,
        ;
    }
}

/// No two workers share a row.
pub proof fn lemma_row_chunks_disjoint(out_dim: int, n_chunks: int, i: int, j: int)
    requires
        0 <= out_dim,
        0 <= n_chunks,
        0 <= i < j < chunk_count(out_dim, n_chunks),
    ensures
        chunk_start(out_dim, chunk_count(out_dim, n_chunks), i) + chunk_rows(
            out_dim,
            chunk_count(out_dim, n_chunks),
            i,
        ) <= chunk_start(out_dim, chunk_count(out_dim, n_chunks), j),
    decreases j - i,
{
    let count = chunk_count(out_dim, n_chunks);
    lemma_chunk_step(out_dim, count, i);
    if i + 1 < j {
        lemma_row_chunks_disjoint(out_dim, n_chunks, i + 1, j);
        lemma_chunk_step(out_dim, count, i + 1);
    }
}

/// The kernel that runs a matrix-vector product.
#[derive(Debug, PartialEq, Eq)]
pub enum MatvecKernel {
    /// Resident F32 data goes through the compute backend.
    Float,
    /// One call of the fused row kernel over all rows.
    RowRange { ggml_type: GgmlType, out_dim: usize, in_dim: usize },
    /// The fused row kernel on each range of rows, on the worker pool. Rows are
    /// `row_bytes` bytes long.
    ParallelRowRanges {
        ggml_type: GgmlType,
        out_dim: usize,
        in_dim: usize,
        row_bytes: usize,
        ranges: Vec<(usize, usize)>,
    },
    /// The compact block-wise kernel of the format.
    Compact { ggml_type: GgmlType, out_dim: usize, in_dim: usize },
}

pub open spec fn row_parallel_format(ggml_type: GgmlType) -> bool {
    ggml_type == GgmlType::Q4_0 || ggml_type == GgmlType::Q6_K
}

pub open spec fn compact_format(ggml_type: GgmlType) -> bool {
    match ggml_type {
        GgmlType::Q2_K | GgmlType::Q3_K | GgmlType::Q4_K | GgmlType::Q5_K | GgmlType::Q8_0
        | GgmlType::Q8_K => true,
        _ => false,
    }
}

pub open spec fn runs_parallel(out_dim: int, n_threads: int) -> bool {
    n_threads > 1 && out_dim >= QUANT_PARALLEL_ROW_THRESHOLD
}

/// Bytes of one row of a row-parallel format.
pub open spec fn kernel_row_bytes(ggml_type: GgmlType, in_dim: int) -> int {
    if ggml_type == GgmlType::Q4_0 {
        in_dim / QK4_0 as int * BLOCK_SIZE_Q4_0
    } else {
        in_dim / QK_K as int * BLOCK_SIZE_Q6_K
    }
}

/// A shape as `[a, b, c]`.
pub open spec fn shown_shape(shape: Seq<usize>) -> Seq<char> {
    text::shown_list(Seq::new(shape.len(), |i: int| shape[i] as nat))
}

fn push_shape(out: &mut String, shape: &Vec<usize>)
    ensures
        final(out)@ == old(out)@ + shown_shape(shape@),
{
    let mut items: Vec<u64> = Vec::new();
    for i in 0..shape.len()
        invariant
            items@.len() == i,
            forall|k: int| 0 <= k < i ==> (#[trigger] items@[k]) == shape@[k],
    {
        items.push(shape[i] as u64);
    }
    assert(text::naturals(items@) =~= Seq::new(shape@.len(), |i: int| shape@[i] as nat));
    text::push_list(out, &items);
}

/// What a chosen kernel is: every field is fixed by the tensor and the number
/// of worker threads.
pub open spec fn kernel_is(
    kernel: MatvecKernel,
    ggml_type: GgmlType,
    shape: Seq<usize>,
    n_threads: int,
) -> bool {
    if ggml_type == GgmlType::F32 {
        kernel == MatvecKernel::Float
    } else if row_parallel_format(ggml_type) {
        if runs_parallel(shape[1] as int, n_threads) {
            kernel matches MatvecKernel::ParallelRowRanges {
                ggml_type: kind,
                out_dim,
                in_dim,
                row_bytes,
                ranges,
            } && kind == ggml_type && out_dim == shape[1] && in_dim == shape[0] && row_bytes
                == kernel_row_bytes(ggml_type, in_dim as int) && ranges@.len() == chunk_count(
                out_dim as int,
                n_threads,
            ) && forall|i: int|
                0 <= i < ranges@.len() ==> (#[trigger] ranges@[i]).0 == chunk_start(
                    out_dim as int,
                    ranges@.len() as int,
                    i,
                ) && ranges@[i].1 == chunk_rows(out_dim as int, ranges@.len() as int, i)
        } else {
            kernel == (MatvecKernel::RowRange { ggml_type, out_dim: shape[1], in_dim: shape[0] })
        }
    } else {
        kernel == (MatvecKernel::Compact { ggml_type, out_dim: shape[1], in_dim: shape[0] })
    }
}

/// Why no kernel takes the tensor.
pub open spec fn kernel_error(ggml_type: GgmlType, shape: Seq<usize>) -> Option<Seq<char>> {
    if ggml_type == GgmlType::F32 {
        None
    } else if row_parallel_format(ggml_type) && shape.len() == 2 {
        None
    } else if !compact_format(ggml_type) {
        Some(
            "optimized quantized dispatch received unsupported tensor variant "@
                + ggml_type.spec_name(),
        )
    } else if shape.len() != 2 {
        Some(
            ggml_type.spec_name() + " matvec expects 2D tensor shape, got "@ + shown_shape(shape),
        )
    } else {
        None
    }
}

/// Matvec dispatch under the single explicit ggml layout (`shape = [in, out]`):
/// resident F32 data goes through the compute backend; all other
/// types use the compact block-wise kernels (no full F32 expansion, no
/// orientation guessing).
pub fn choose_kernel(ggml_type: GgmlType, shape: &Vec<usize>, n_threads: usize) -> (result: Result<
    MatvecKernel,
    String,
>)
    ensures
        match kernel_error(ggml_type, shape@) {
            Some(message) => text::text_result(result) == Err::<MatvecKernel, Seq<char>>(message),
            None => result is Ok && kernel_is(
                result->Ok_0,
                ggml_type,
                shape@,
                n_threads as int,
            ),
        },
{
    if ggml_type == GgmlType::F32 {
        return Ok(MatvecKernel::Float);
    }
    let row_parallel = ggml_type == GgmlType::Q4_0 || ggml_type == GgmlType::Q6_K;
    if row_parallel && shape.len() == 2 {
        let out_dim: usize = shape[1];
        let in_dim: usize = shape[0];
        if n_threads > 1 && out_dim >= QUANT_PARALLEL_ROW_THRESHOLD {
            let row_bytes: usize = if ggml_type == GgmlType::Q4_0 {
                (in_dim / QK4_0) * BLOCK_SIZE_Q4_0
            } else {
                (in_dim / QK_K) * BLOCK_SIZE_Q6_K
            };
            let ranges = make_row_chunks(out_dim, n_threads);
            return Ok(
                MatvecKernel::ParallelRowRanges { ggml_type, out_dim, in_dim, row_bytes, ranges },
            );
        }
        return Ok(MatvecKernel::RowRange { ggml_type, out_dim, in_dim });
    }
    let compact = match ggml_type {
        GgmlType::Q2_K | GgmlType::Q3_K | GgmlType::Q4_K | GgmlType::Q5_K | GgmlType::Q8_0
        | GgmlType::Q8_K => true,
        _ => false,
    };
    if !compact {
        let mut message =
            "optimized quantized dispatch received unsupported tensor variant ".to_owned();
        message.append(ggml_type.name().as_str());
        return Err(message);
    }
    if shape.len() != 2 {
        let mut message = ggml_type.name();
        message.append(" matvec expects 2D tensor shape, got ");
        push_shape(&mut message, shape);
        return Err(message);
    }
    Ok(MatvecKernel::Compact { ggml_type, out_dim: shape[1], in_dim: shape[0] })
}

/// Multiplication that stops at the largest number.
pub open spec fn capped_product(left: int, right: int) -> u64 {
    if left * right > u64::MAX {
        u64::MAX
    } else {
        (left * right) as u64
    }
}

pub open spec fn q4_0_blocks(out_dim: usize, in_dim: usize) -> u64 {
    capped_product(out_dim as int, in_dim as int / QK4_0 as int)
}

/// The counters after one Q4_0 product of that shape.
pub open spec fn with_q4_0_matvec(
    counters: ProfileSnapshot,
    out_dim: usize,
    in_dim: usize,
) -> ProfileSnapshot {
    let blocks = q4_0_blocks(out_dim, in_dim);
    ProfileSnapshot {
        q4_0_matvecs: profile::counted(counters.q4_0_matvecs, 1),
        q4_0_rows: profile::counted(counters.q4_0_rows, out_dim as u64),
        q4_0_columns: profile::counted(counters.q4_0_columns, in_dim as u64),
        q4_0_blocks: profile::counted(counters.q4_0_blocks, blocks),
        q4_0_weight_bytes: profile::counted(
            counters.q4_0_weight_bytes,
            capped_product(blocks as int, BLOCK_SIZE_Q4_0 as int),
        ),
        ..counters
    }
}

fn saturating_product(left: u64, right: u64) -> (product: u64)
    ensures
        product == capped_product(left as int, right as int),
{
    match left.checked_mul(right) {
        Some(product) => product,
        None => u64::MAX,
    }
}

/// Counts the work of a two-dimensional Q4_0 product; other formats are not
/// counted.
pub fn record_kernel_work(profiler: &mut Profiler, ggml_type: GgmlType, shape: &Vec<usize>)
    ensures
        final(profiler).spec_enabled() == old(profiler).spec_enabled(),
        final(profiler).spec_counters() == (if old(profiler).spec_enabled() && ggml_type
            == GgmlType::Q4_0 && shape@.len() == 2 {
            with_q4_0_matvec(old(profiler).spec_counters(), shape@[1], shape@[0])
        } else {
            old(profiler).spec_counters()
        }),
{
    if ggml_type == GgmlType::Q4_0 && shape.len() == 2 {
        let out_dim: usize = shape[1];
        let in_dim: usize = shape[0];
        let blocks: u64 = saturating_product(out_dim as u64, (in_dim / QK4_0) as u64);
        let weight_bytes: u64 = saturating_product(blocks, BLOCK_SIZE_Q4_0 as u64);
        profiler.record_q4_0_matvec(out_dim as u64, in_dim as u64, blocks, weight_bytes);
    }
}

/// Each worker's rows lie inside the tensor: its bytes end where the next
/// worker's begin, and the last ends at the tensor's end.
pub proof fn lemma_row_bytes_within(out_dim: int, n_chunks: int, row_bytes: int, i: int)
    requires
        0 <= out_dim,
        0 <= n_chunks,
        0 <= row_bytes,
        0 <= i < chunk_count(out_dim, n_chunks),
    ensures
        ({
            let count = chunk_count(out_dim, n_chunks);
            let start = chunk_start(out_dim, count, i);
            let rows = chunk_rows(out_dim, count, i);
            &&& 0 <= start * row_bytes
            &&& start * row_bytes + rows * row_bytes == (start + rows) * row_bytes
            &&& start * row_bytes + rows * row_bytes <= out_dim * row_bytes
        }),
{
    let count = chunk_count(out_dim, n_chunks);
    let start = chunk_start(out_dim, count, i);
    let rows = chunk_rows(out_dim, count, i);
    lemma_chunk_step(out_dim, count, i);
    assert(0 <= start * row_bytes && start * row_bytes + rows * row_bytes == (start + rows)
        * row_bytes && (start + rows) * row_bytes <= out_dim * row_bytes) by (nonlinear_arith)
        requires
            0 <= start,
            0 <= row_bytes,
            start + rows <= out_dim,
    ;
}

/// Which kernel a product takes. Floats go to the backend; Q4_0 and Q6_K are
/// shared out to the workers from 128 rows on where there is more than one, and
/// else go through the row kernel in one piece; the other formats take their own
/// kernels. A matrix of shape `[in, out]` has `out` rows of `in` numbers.
pub proof fn lemma_kernel_choice(
    kernel: MatvecKernel,
    ggml_type: GgmlType,
    shape: Seq<usize>,
    n_threads: int,
)
    requires
        kernel_error(ggml_type, shape) is None,
        kernel_is(kernel, ggml_type, shape, n_threads),
    ensures
        ({
            let by_rows = ggml_type == GgmlType::Q4_0 || ggml_type == GgmlType::Q6_K;
            let shared = by_rows && n_threads > 1 && shape[1] >= 128;
            &&& ggml_type != GgmlType::F32 ==> shape.len() == 2
            &&& kernel is Float <==> ggml_type == GgmlType::F32
            &&& kernel is ParallelRowRanges <==> shared
            &&& kernel is RowRange <==> by_rows && !shared
            &&& kernel is Compact <==> ggml_type != GgmlType::F32 && !by_rows
            &&& kernel matches MatvecKernel::RowRange { ggml_type: kind, out_dim, in_dim } ==> kind
                == ggml_type && out_dim == shape[1] && in_dim == shape[0]
            &&& kernel matches MatvecKernel::Compact { ggml_type: kind, out_dim, in_dim } ==> kind
                == ggml_type && out_dim == shape[1] && in_dim == shape[0]
            &&& kernel matches MatvecKernel::ParallelRowRanges {
                ggml_type: kind,
                out_dim,
                in_dim,
                row_bytes,
                ranges,
            } ==> {
                &&& kind == ggml_type && out_dim == shape[1] && in_dim == shape[0]
                &&& ggml_type == GgmlType::Q4_0 ==> row_bytes == in_dim as int / 32 * 18
                &&& ggml_type == GgmlType::Q6_K ==> row_bytes == in_dim as int / 256 * 210
                &&& ranges@.len() <= n_threads && ranges@.len() <= out_dim
                &&& ranges@.len() == n_threads || ranges@.len() == out_dim
                &&& ranges@[0].0 == 0
                &&& ranges@[ranges@.len() - 1].0 + ranges@[ranges@.len() - 1].1 == out_dim
                &&& forall|i: int, j: int|
                    #![trigger ranges@[i], ranges@[j]]
                    0 <= i && j == i + 1 && j < ranges@.len() ==> ranges@[j].0 == ranges@[i].0
                        + ranges@[i].1
                &&& forall|i: int, j: int|
                    #![trigger ranges@[i], ranges@[j]]
                    0 <= i < ranges@.len() && 0 <= j < ranges@.len() ==> ranges@[i].1
                        <= ranges@[j].1 + 1 && ranges@[i].1 >= 1
            }
        }),
{
    if kernel is ParallelRowRanges {
        let out_dim = kernel->ParallelRowRanges_out_dim;
        let ranges = kernel->ranges;
        let count = ranges@.len() as int;
        let rows = out_dim as int;
        assert(ranges@[0].0 == chunk_start(rows, count, 0));
        assert(ranges@[count - 1].0 == chunk_start(rows, count, count - 1));
        lemma_row_chunks_partition(rows, n_threads, count - 1, 0);
        assert forall|i: int, j: int|
            #![trigger ranges@[i], ranges@[j]]
            0 <= i && j == i + 1 && j < ranges@.len() implies ranges@[j].0 == ranges@[i].0
            + ranges@[i].1 by {
            lemma_row_chunks_partition(rows, n_threads, i, j);
        }
        assert forall|i: int, j: int|
            #![trigger ranges@[i], ranges@[j]]
            0 <= i < ranges@.len() && 0 <= j < ranges@.len() implies ranges@[i].1 <= ranges@[j].1
            + 1 && ranges@[i].1 >= 1 by {
            lemma_row_chunks_partition(rows, n_threads, i, j);
        }
    }
}

/// Which products have a kernel: floats of any shape, and matrices of the
/// quantized formats that can be run.
pub proof fn lemma_kernel_exists(ggml_type: GgmlType, shape: Seq<usize>)
    ensures
        kernel_error(ggml_type, shape) is None <==> ggml_type == GgmlType::F32 || (shape.len() == 2
            && (ggml_type == GgmlType::Q4_0 || ggml_type == GgmlType::Q6_K || ggml_type
            == GgmlType::Q2_K || ggml_type == GgmlType::Q3_K || ggml_type == GgmlType::Q4_K
            || ggml_type == GgmlType::Q5_K || ggml_type == GgmlType::Q8_0 || ggml_type
            == GgmlType::Q8_K)),
{
}

/// What a Q4_0 product adds to the counters: itself, its rows and columns, its
/// blocks of 32 numbers and their 18 bytes each.
pub proof fn lemma_q4_0_work(counters: ProfileSnapshot, out_dim: usize, in_dim: usize)
    requires
        counters.q4_0_matvecs < u64::MAX,
        counters.q4_0_rows + out_dim <= u64::MAX,
        counters.q4_0_columns + in_dim <= u64::MAX,
        out_dim * (in_dim as int / 32) * 18 + counters.q4_0_weight_bytes <= u64::MAX,
        out_dim * (in_dim as int / 32) + counters.q4_0_blocks <= u64::MAX,
    ensures
        ({
            let after = with_q4_0_matvec(counters, out_dim, in_dim);
            let blocks = out_dim * (in_dim as int / 32);
            &&& after.q4_0_matvecs == counters.q4_0_matvecs + 1
            &&& after.q4_0_rows == counters.q4_0_rows + out_dim
            &&& after.q4_0_columns == counters.q4_0_columns + in_dim
            &&& after.q4_0_blocks == counters.q4_0_blocks + blocks
            &&& after.q4_0_weight_bytes == counters.q4_0_weight_bytes + blocks * 18
            &&& after.total == counters.total && after.tokens == counters.tokens
                && after.quantized_matvec == counters.quantized_matvec
        }),
{
    let blocks = out_dim * (in_dim as int / 32);
    assert(blocks >= 0) by (nonlinear_arith)
        requires
            blocks == out_dim * (in_dim as int / 32),
    ;
}

} // verus!
