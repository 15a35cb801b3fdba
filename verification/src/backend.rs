//! Which weight a matrix-vector product multiplies with which input.
//!
//! There is one layout: a weight matrix of shape `[in, out]` lies in memory as
//! `out` rows of `in` weights, and output `o` is the sum over all inputs `i` of
//! the weight at `o * in + i` times input `i`. Operands that do not have the
//! lengths that the shape names are refused; no other orientation is tried.

use vstd::prelude::*;

verus! {

#[derive(Debug, Clone, Copy, Default)]
pub struct CpuBackend;

/// A weight matrix whose operands fit it.
#[derive(Debug, Clone, Copy, PartialEq, Eq, Structural)]
pub struct MatvecLayout {
    pub in_dim: usize,
    pub out_dim: usize,
}

/// Why a product is refused.
#[derive(Debug, Clone, Copy, PartialEq, Eq, Structural)]
pub enum MatvecError {
    /// The shape does not have two dimensions.
    NotTwoDimensional,
    /// The inputs or the outputs are not as many as the shape names.
    ArityMismatch,
    /// The weights do not fill the shape, or overflow it.
    WeightCountMismatch,
}

impl MatvecError {
    pub open spec fn spec_message(self) -> Seq<char> {
        match self {
            MatvecError::NotTwoDimensional => "matvec expects a 2D tensor"@,
            MatvecError::ArityMismatch => "matvec arity mismatch (ggml layout [in, out])"@,
            MatvecError::WeightCountMismatch => "matvec weights do not fill their shape"@,
        }
    }

    pub fn message(&self) -> (message: &'static str)
        ensures
            message@ == self.spec_message(),
    {
        match self {
            MatvecError::NotTwoDimensional => "matvec expects a 2D tensor",
            MatvecError::ArityMismatch => "matvec arity mismatch (ggml layout [in, out])",
            MatvecError::WeightCountMismatch => "matvec weights do not fill their shape",
        }
    }
}

/// The layout of `w_len` weights of that shape against `x_len` inputs and
/// `y_len` outputs.
pub open spec fn layout_of(w_len: int, shape: Seq<usize>, x_len: int, y_len: int) -> Result<
    MatvecLayout,
    MatvecError,
> {
    if shape.len() != 2 {
        Err(MatvecError::NotTwoDimensional)
    } else if shape[0] != x_len || shape[1] != y_len {
        Err(MatvecError::ArityMismatch)
    } else if w_len != shape[0] * shape[1] {
        Err(MatvecError::WeightCountMismatch)
    } else {
        Ok(MatvecLayout { in_dim: shape[0], out_dim: shape[1] })
    }
}

impl MatvecLayout {
    /// The number of weights that the matrix holds.
    pub open spec fn weights(self) -> int {
        self.in_dim * self.out_dim
    }

    /// The place of the weight that takes input `input` to output `output`.
    pub open spec fn place(self, output: int, input: int) -> int {
        output * self.in_dim + input
    }

    /// The first weight of an output's row; the others follow it.
    pub fn row_start(&self, output: usize) -> (start: usize)
        requires
            output < self.out_dim,
            self.weights() <= usize::MAX,
        ensures
            start == self.place(output as int, 0),
            start + self.in_dim <= self.weights(),
    {
        assert(0 <= output * self.in_dim && output * self.in_dim + self.in_dim <= self.in_dim
            * self.out_dim) by (nonlinear_arith)
            requires
                0 <= output,
                output + 1 <= self.out_dim,
                0 <= self.in_dim,
        ;
        output * self.in_dim
    }
}

fn is_product(value: usize, left: usize, right: usize) -> (same: bool)
    ensures
        same == (value == left * right),
{
    assert(0 <= left * right <= u64::MAX * u64::MAX) by (nonlinear_arith)
        requires
            0 <= left <= u64::MAX,
            0 <= right <= u64::MAX,
    ;
    value as u128 == (left as u128) * (right as u128)
}

impl CpuBackend {
    pub fn new() -> (backend: Self)
        ensures
            backend == CpuBackend,
    {
        CpuBackend
    }

    /// `w_len` weights of that shape against `x_len` inputs and `y_len` outputs.
    pub fn matvec_layout(&self, w_len: usize, shape: &Vec<usize>, x_len: usize, y_len: usize)
        -> (layout: Result<MatvecLayout, MatvecError>)
        ensures
            layout == layout_of(w_len as int, shape@, x_len as int, y_len as int),
    {
        if shape.len() != 2 {
            return Err(MatvecError::NotTwoDimensional);
        }
        if shape[0] != x_len || shape[1] != y_len {
            return Err(MatvecError::ArityMismatch);
        }
        if !is_product(w_len, shape[0], shape[1]) {
            return Err(MatvecError::WeightCountMismatch);
        }
        Ok(MatvecLayout { in_dim: shape[0], out_dim: shape[1] })
    }
}

/// The place of each weight lies within the matrix.
pub proof fn lemma_place_within(layout: MatvecLayout, output: int, input: int)
    requires
        0 <= output < layout.out_dim,
        0 <= input < layout.in_dim,
    ensures
        0 <= layout.place(output, input) < layout.weights(),
{
    assert(0 <= output * layout.in_dim && output * layout.in_dim + layout.in_dim <= layout.in_dim
        * layout.out_dim) by (nonlinear_arith)
        requires
            0 <= output,
            output + 1 <= layout.out_dim,
            0 <= layout.in_dim,
    ;
}

/// No two pairs of an output and an input share a weight.
pub proof fn lemma_place_unique(
    layout: MatvecLayout,
    output: int,
    input: int,
    other_output: int,
    other_input: int,
)
    requires
        0 <= input < layout.in_dim,
        0 <= other_input < layout.in_dim,
        layout.place(output, input) == layout.place(other_output, other_input),
    ensures
        output == other_output,
        input == other_input,
{
    assert(output == other_output) by (nonlinear_arith)
        requires
            0 <= input < layout.in_dim,
            0 <= other_input < layout.in_dim,
            output * layout.in_dim + input == other_output * layout.in_dim + other_input,
    ;
}

/// Every weight of the matrix takes some input to some output.
pub proof fn lemma_weight_used(layout: MatvecLayout, at: int) -> (pair: (int, int))
    requires
        0 <= at < layout.weights(),
    ensures
        0 <= pair.0 < layout.out_dim,
        0 <= pair.1 < layout.in_dim,
        layout.place(pair.0, pair.1) == at,
{
    let columns = layout.in_dim as int;
    assert(columns > 0) by (nonlinear_arith)
        requires
            0 <= columns,
            0 < columns * layout.out_dim,
    ;
    let output = at / columns;
    let input = at % columns;
    vstd::arithmetic::div_mod::lemma_fundamental_div_mod(at, columns);
    vstd::arithmetic::div_mod::lemma_mod_bound(at, columns);
    assert(0 <= output < layout.out_dim && output * columns + input == at) by (nonlinear_arith)
        requires
            0 <= input < columns,
            at == columns * output + input,
            0 <= at < columns * layout.out_dim,
    ;
    (output, input)
}

/// A product whose operands do not have the lengths that its shape names is
/// refused, also where they would fit the transposed matrix.
pub proof fn lemma_no_other_orientation(
    w_len: int,
    in_dim: usize,
    out_dim: usize,
    x_len: int,
    y_len: int,
)
    requires
        x_len != in_dim || y_len != out_dim,
    ensures
        layout_of(w_len, seq![in_dim, out_dim], x_len, y_len) == Err::<MatvecLayout, MatvecError>(
            MatvecError::ArityMismatch,
        ),
{
}

/// When a product is accepted: its shape has two dimensions, the inputs are as
/// many as the first names, the outputs as many as the second, and the weights
/// as many as both together.
pub proof fn lemma_layout_accepted(w_len: int, shape: Seq<usize>, x_len: int, y_len: int)
    ensures
        ({
            let result = layout_of(w_len, shape, x_len, y_len);
            &&& result is Ok <==> shape.len() == 2 && x_len == shape[0] && y_len == shape[1]
                && w_len == x_len * y_len
            &&& result is Ok ==> result->Ok_0.in_dim == x_len && result->Ok_0.out_dim == y_len
            &&& shape.len() != 2 ==> result == Err::<MatvecLayout, MatvecError>(
                MatvecError::NotTwoDimensional,
            )
            &&& shape.len() == 2 && x_len == shape[0] && y_len == shape[1] && result is Err
                ==> result->Err_0 == MatvecError::WeightCountMismatch
        }),
{
}

/// The weights of an output stand in one row behind those of the output before.
pub proof fn lemma_rows_follow(layout: MatvecLayout, output: int, input: int)
    ensures
        layout.place(0, input) == input,
        layout.place(output, input + 1) == layout.place(output, input) + 1,
        layout.place(output + 1, 0) == layout.place(output, layout.in_dim as int),
{
    assert((output + 1) * layout.in_dim == output * layout.in_dim + layout.in_dim)
        by (nonlinear_arith);
    assert(0 * layout.in_dim == 0);
}

} // verus!
