//! Linear layers with Q4_0 weights.
use vstd::prelude::*;

use crate::gguf::op::{q4_matmul, Kernel, MatmulLaunch, Platform};
use crate::gguf::tensor::Q4Tensor;

verus! {

/// The products of `q4_matmul` have sizes that fit in memory, and the input rows
/// have as many elements as the weight rows.
pub open spec fn input_fits(weights: Q4Tensor, x_shape: Seq<usize>) -> bool {
    &&& x_shape[2] == weights.in_features()
    &&& x_shape[0] * x_shape[1] <= usize::MAX
    &&& x_shape[0] * x_shape[1] * x_shape[2] <= usize::MAX
    &&& x_shape[0] * x_shape[1] * weights.out_features() * 4 <= usize::MAX
}

/// The launch multiplies an input of shape `x_shape` by the transposed weights.
pub open spec fn multiplies(
    launch: MatmulLaunch,
    platform: Platform,
    weights: Q4Tensor,
    x_shape: Seq<usize>,
) -> bool {
    launch.multiplies(
        platform,
        x_shape[0] as int,
        x_shape[1] as int,
        x_shape[2] as int,
        weights.out_features() as int,
    )
}

// ---------------------------------------------------------------------------
// Linear layer
// ---------------------------------------------------------------------------

/// A linear layer with Q4_0 weights of shape `[out_features, in_features]` and an
/// optional bias vector.
#[derive(Clone, Copy, Debug)]
pub struct Q4Linear {
    weights: Q4Tensor,
    bias_len: Option<usize>,
}

/// The steps of a linear layer's forward pass.
#[derive(Debug)]
pub struct LinearForward {
    /// `x @ weights^T`.
    pub matmul: MatmulLaunch,
    /// The shape that the bias takes before it is added to the product, if there is one.
    pub bias_shape: Option<[usize; 3]>,
    /// The shape of the result.
    pub output_shape: [usize; 3],
}

/// A vector of `bias_len` elements can be added to every row of a product of shape
/// `[b, m, n]` that has rows: both have the same length, or one of them has one element
/// that serves for all of the other.
pub open spec fn bias_fits(bias_len: Option<usize>, b: int, m: int, n: int) -> bool {
    bias_len matches Some(len) ==> {
        &&& 0 < b
        &&& 0 < m
        &&& len == n || (len == 1 && 0 < n) || (n == 1 && 0 < len)
    }
}

/// The width of the sum of a product with `n` columns and a bias.
pub open spec fn output_width(bias_len: Option<usize>, n: usize) -> usize {
    match bias_len {
        Some(len) if n < len => len,
        _ => n,
    }
}

/// The shape that a bias takes before it is added: one row of one batch, which serves
/// for all rows of all batches.
pub open spec fn bias_row(len: usize) -> Seq<usize> {
    seq![1usize, 1usize, len]
}

impl Q4Linear {
    /// The weights.
    pub closed spec fn weight_tensor(self) -> Q4Tensor {
        self.weights
    }

    /// The length of the bias vector, if there is one.
    pub closed spec fn bias(self) -> Option<usize> {
        self.bias_len
    }

    /// Makes a layer of weights of shape `[out_features, in_features]` and a bias
    /// vector of `bias_len` elements, if any.
    pub fn new(weights: Q4Tensor, bias_len: Option<usize>) -> (layer: Self)
        ensures
            layer.weight_tensor() == weights,
            layer.bias() == bias_len,
    {
        Q4Linear { weights, bias_len }
    }

    /// The weights.
    pub fn weights(&self) -> (weights: &Q4Tensor)
        ensures
            *weights == self.weight_tensor(),
    {
        &self.weights
    }

    /// The forward pass `x @ weights^T + bias` for `x` of shape `[B, M, K]`.
    pub fn forward(&self, platform: Platform, x_shape: [usize; 3]) -> (pass: LinearForward)
        requires
            input_fits(self.weight_tensor(), x_shape@),
            bias_fits(
                self.bias(),
                x_shape@[0] as int,
                x_shape@[1] as int,
                self.weight_tensor().out_features() as int,
            ),
        ensures
            multiplies(pass.matmul, platform, self.weight_tensor(), x_shape@),
            pass.matmul.weights_u32_len == 5 * self.weight_tensor().blocks(),
            pass.matmul.output_shape@ == seq![
                x_shape@[0],
                x_shape@[1],
                self.weight_tensor().out_features(),
            ],
            platform == Platform::Wasm ==> pass.matmul.dispatch.kernel == Kernel::Naive,
            match self.bias() {
                Some(len) => pass.bias_shape matches Some(shape) && shape@ == bias_row(len)
                    && shape@ == seq![1usize, 1usize, len],
                None => pass.bias_shape is None,
            },
            pass.output_shape@ == seq![
                x_shape@[0],
                x_shape@[1],
                output_width(self.bias(), self.weight_tensor().out_features()),
            ],
    {
        let out: MatmulLaunch = q4_matmul(platform, x_shape, &self.weights);
        let n: usize = self.weights.shape()[0];
        match self.bias_len {
            Some(len) => {
                let bias_shape: [usize; 3] = [1, 1, len];
                let width: usize = if len < n {
                    n
                } else {
                    len
                };
                let output_shape: [usize; 3] = [x_shape[0], x_shape[1], width];
                assert(bias_shape@ =~= bias_row(len));
                assert(output_shape@ =~= seq![x_shape@[0], x_shape@[1], width]);
                LinearForward { matmul: out, bias_shape: Some(bias_shape), output_shape }
            },
            None => {
                let output_shape: [usize; 3] = out.output_shape;
                assert(output_shape@ =~= seq![x_shape@[0], x_shape@[1], n]);
                LinearForward { matmul: out, bias_shape: None, output_shape }
            },
        }
    }
}

// ---------------------------------------------------------------------------
// Fused projections
// ---------------------------------------------------------------------------

/// A range of one dimension of a tensor.
#[derive(Clone, Copy, Debug, PartialEq, Eq, Structural)]
pub struct Narrow {
    pub dim: usize,
    pub start: usize,
    pub length: usize,
}

/// The `length` columns from `start` on of a tensor with three dimensions.
pub open spec fn columns(start: int, length: int) -> Narrow {
    Narrow { dim: 2, start: start as usize, length: length as usize }
}

/// Fused query, key and value projection: one weight matrix
/// `[q_out + k_out + v_out, in_features]`, one launch, and the output split in three.
#[derive(Clone, Copy, Debug)]
pub struct Q4FusedQKV {
    weights: Q4Tensor,
    q_out: usize,
    k_out: usize,
    v_out: usize,
}

/// The steps of a fused query, key and value projection.
#[derive(Debug)]
pub struct QkvForward {
    pub matmul: MatmulLaunch,
    pub q: Narrow,
    pub k: Narrow,
    pub v: Narrow,
}

/// Fused gate and up projection of a SwiGLU: one weight matrix
/// `[gate_out + up_out, in_features]`, one launch, and the output split in two.
#[derive(Clone, Copy, Debug)]
pub struct Q4FusedGateUp {
    weights: Q4Tensor,
    gate_out: usize,
    up_out: usize,
}

/// The steps of a fused gate and up projection.
#[derive(Debug)]
pub struct GateUpForward {
    pub matmul: MatmulLaunch,
    pub gate: Narrow,
    pub up: Narrow,
}

impl Q4FusedGateUp {
    /// The weights.
    pub closed spec fn weight_tensor(self) -> Q4Tensor {
        self.weights
    }

    /// The widths of gate and up.
    pub closed spec fn widths(self) -> (usize, usize) {
        (self.gate_out, self.up_out)
    }

    /// Makes a projection of a concatenated weight tensor.
    pub fn new(weights: Q4Tensor, gate_out: usize, up_out: usize) -> (layer: Self)
        ensures
            layer.weight_tensor() == weights,
            layer.widths() == (gate_out, up_out),
    {
        Q4FusedGateUp { weights, gate_out, up_out }
    }

    /// The forward pass for `x` of shape `[B, M, K]`: one launch, whose output is
    /// split along its last dimension into gate and up.
    pub fn forward(&self, platform: Platform, x_shape: [usize; 3]) -> (pass: GateUpForward)
        requires
            input_fits(self.weight_tensor(), x_shape@),
            0 < self.widths().0,
            0 < self.widths().1,
            self.widths().0 + self.widths().1 <= self.weight_tensor().out_features(),
        ensures
            multiplies(pass.matmul, platform, self.weight_tensor(), x_shape@),
            pass.matmul.weights_u32_len == 5 * self.weight_tensor().blocks(),
            pass.matmul.output_shape@ == seq![
                x_shape@[0],
                x_shape@[1],
                self.weight_tensor().out_features(),
            ],
            platform == Platform::Wasm ==> pass.matmul.dispatch.kernel == Kernel::Naive,
            pass.gate == columns(0, self.widths().0 as int),
            pass.up == columns(self.widths().0 as int, self.widths().1 as int),
            pass.gate.dim == 2 && pass.up.dim == 2,
            pass.gate.start == 0 && pass.gate.length == self.widths().0,
            pass.up.start == self.widths().0 && pass.up.length == self.widths().1,
    {
        let fused: MatmulLaunch = q4_matmul(platform, x_shape, &self.weights);
        let gate: Narrow = Narrow { dim: 2, start: 0, length: self.gate_out };
        let up: Narrow = Narrow { dim: 2, start: self.gate_out, length: self.up_out };
        GateUpForward { matmul: fused, gate, up }
    }
}

impl Q4FusedQKV {
    /// The weights.
    pub closed spec fn weight_tensor(self) -> Q4Tensor {
        self.weights
    }

    /// The widths of the query, key and value projections.
    pub closed spec fn widths(self) -> (usize, usize, usize) {
        (self.q_out, self.k_out, self.v_out)
    }

    /// Makes a projection of a concatenated weight tensor.
    pub fn new(weights: Q4Tensor, q_out: usize, k_out: usize, v_out: usize) -> (layer: Self)
        ensures
            layer.weight_tensor() == weights,
            layer.widths() == (q_out, k_out, v_out),
    {
        Q4FusedQKV { weights, q_out, k_out, v_out }
    }

    /// The forward pass for `x` of shape `[B, M, K]`: one launch, whose output is
    /// split along its last dimension into query, key and value.
    pub fn forward(&self, platform: Platform, x_shape: [usize; 3]) -> (pass: QkvForward)
        requires
            input_fits(self.weight_tensor(), x_shape@),
            0 < self.widths().0,
            0 < self.widths().1,
            0 < self.widths().2,
            self.widths().0 + self.widths().1 + self.widths().2
                <= self.weight_tensor().out_features(),
        ensures
            multiplies(pass.matmul, platform, self.weight_tensor(), x_shape@),
            pass.matmul.weights_u32_len == 5 * self.weight_tensor().blocks(),
            pass.matmul.output_shape@ == seq![
                x_shape@[0],
                x_shape@[1],
                self.weight_tensor().out_features(),
            ],
            platform == Platform::Wasm ==> pass.matmul.dispatch.kernel == Kernel::Naive,
            pass.q == columns(0, self.widths().0 as int),
            pass.k == columns(self.widths().0 as int, self.widths().1 as int),
            pass.v == columns(self.widths().0 + self.widths().1, self.widths().2 as int),
            pass.q.dim == 2 && pass.k.dim == 2 && pass.v.dim == 2,
            pass.q.start == 0 && pass.q.length == self.widths().0,
            pass.k.start == self.widths().0 && pass.k.length == self.widths().1,
            pass.v.start == self.widths().0 + self.widths().1 && pass.v.length == self.widths().2,
    {
        let fused: MatmulLaunch = q4_matmul(platform, x_shape, &self.weights);
        let q: Narrow = Narrow { dim: 2, start: 0, length: self.q_out };
        let k: Narrow = Narrow { dim: 2, start: self.q_out, length: self.k_out };
        let v: Narrow = Narrow { dim: 2, start: self.q_out + self.k_out, length: self.v_out };
        QkvForward { matmul: fused, q, k, v }
    }
}

} // verus!
