pub mod features;
pub mod evaluation;
pub mod format;

pub use features::NNUEAccumulator;
pub use evaluation::{NNUEEvaluationCache, NNUEContext};
pub use format::NnueFileError;

use vstd::prelude::*;
use rand::Rng;
use rand::rngs::ThreadRng;
use crate::engine::eval::nnue::wrap32;

verus! {

/// Inputs of the network: piece kind, colour, king rank and file of the
/// piece.
pub const FEATURE_SIZE: usize = 768;

/// Neurons of the first hidden layer (the accumulator).
pub const HIDDEN_SIZE_1: usize = 512;

/// Neurons of the second hidden layer.
pub const HIDDEN_SIZE_2: usize = 256;

/// Neurons of the third hidden layer.
pub const HIDDEN_SIZE_3: usize = 128;

/// Outputs of the network.
pub const OUTPUT_SIZE: usize = 1;

/// The random generator of the current thread.
#[verifier::external_type_specification]
#[verifier::external_body]
pub struct ExThreadRng(ThreadRng);

/// `rand::thread_rng`: the generator of the current thread. Nothing is
/// claimed of its state.
#[verifier::external_body]
fn thread_rng() -> ThreadRng {
    rand::thread_rng()
}

/// `Rng::gen_range` over `lo..=hi`: a random number; the source returns
/// `lo` plus a number below the width of the range, so it lies within the
/// range. Which one it is depends on chance and is not claimed.
#[verifier::external_body]
fn gen_range(rng: &mut ThreadRng, lo: i16, hi: i16) -> (r: i16)
    requires
        lo <= hi,
    ensures
        lo <= r <= hi,
{
    rng.gen_range(lo..=hi)
}

/// Division rounding toward zero.
pub open spec fn trunc_div(x: int, d: int) -> int {
    let ax = if x < 0 {
        -x
    } else {
        x
    };
    let ad = if d < 0 {
        -d
    } else {
        d
    };
    if (x < 0) != (d < 0) {
        -(ax / ad)
    } else {
        ax / ad
    }
}

/// The larger of `x` and 0.
pub open spec fn relu(x: int) -> int {
    if x < 0 {
        0
    } else {
        x
    }
}

/// `x / d`, rounding toward zero.
fn trunc_div_i64(x: i64, d: i64) -> (r: i64)
    requires
        d != 0,
        -0x1_0000_0000_0000 <= x <= 0x1_0000_0000_0000,
        -0x1_0000_0000_0000 <= d <= 0x1_0000_0000_0000,
    ensures
        r == trunc_div(x as int, d as int),
        -0x1_0000_0000_0000 <= r <= 0x1_0000_0000_0000,
{
    let ax: i64 = if x < 0 {
        -x
    } else {
        x
    };
    let ad: i64 = if d < 0 {
        -d
    } else {
        d
    };
    let q = ax / ad;
    assert(q <= ax) by (nonlinear_arith)
        requires
            q == ax / ad,
            ax >= 0,
            ad >= 1,
    ;
    if (x < 0) != (d < 0) {
        -q
    } else {
        q
    }
}

/// `x` reduced to a two's-complement 32-bit number.
pub fn wrap_to_i32(x: i64) -> (r: i32)
    requires
        -0x1000_0000_0000_0000 <= x <= 0x1000_0000_0000_0000,
    ensures
        r == wrap32(x as int),
{
    let y: u64 = (x + 0x8000_0000 + 0x1000_0000_0000_0000) as u64;
    let m: u64 = y % 0x1_0000_0000;
    proof {
        vstd::arithmetic::div_mod::lemma_mod_multiples_vanish(0x1000_0000, x + 0x8000_0000, 0x1_0000_0000);
    }
    (m as i64 - 0x8000_0000) as i32
}

/// A network of three hidden layers over 768 piece inputs, with integer
/// weights and the scales that divide the activations between layers.
pub struct NNUE {
    pub feature_weights: Vec<i16>,
    pub feature_bias: Vec<i32>,
    pub hidden1_weights: Vec<i8>,
    pub hidden1_bias: Vec<i16>,
    pub hidden2_weights: Vec<i8>,
    pub hidden2_bias: Vec<i16>,
    pub output_weights: Vec<i8>,
    pub output_bias: i32,
    pub feature_scale: i32,
    pub hidden_scale: i32,
    pub output_scale: i32,
}

/// The first layer's activation of accumulator neuron `j`: its positive
/// part over the feature scale.
pub open spec fn act1(n: NNUE, acc: Seq<i32>, j: int) -> int {
    trunc_div(relu(acc[j] as int), n.feature_scale as int)
}

/// The weighted activations of the first `k` accumulator neurons into
/// second-layer neuron `i`.
pub open spec fn h1_sum(n: NNUE, acc: Seq<i32>, i: int, k: int) -> int
    decreases k,
{
    if k <= 0 {
        0
    } else {
        h1_sum(n, acc, i, k - 1) + act1(n, acc, k - 1) * n.hidden1_weights@[(k - 1) * 256 + i]
    }
}

/// Second-layer neuron `i`: bias plus weighted activations, in 32-bit
/// wrapping arithmetic, then its positive part.
pub open spec fn h1_out(n: NNUE, acc: Seq<i32>, i: int) -> int {
    relu(wrap32(n.hidden1_bias@[i] + h1_sum(n, acc, i, 512)))
}

/// The weighted activations of the first `k` second-layer neurons into
/// third-layer neuron `i`.
pub open spec fn h2_sum(n: NNUE, acc: Seq<i32>, i: int, k: int) -> int
    decreases k,
{
    if k <= 0 {
        0
    } else {
        h2_sum(n, acc, i, k - 1) + trunc_div(h1_out(n, acc, k - 1), n.hidden_scale as int)
            * n.hidden2_weights@[(k - 1) * 128 + i]
    }
}

/// Third-layer neuron `i`: bias plus weighted activations, in 32-bit
/// wrapping arithmetic, then its positive part.
pub open spec fn h2_out(n: NNUE, acc: Seq<i32>, i: int) -> int {
    relu(wrap32(n.hidden2_bias@[i] + h2_sum(n, acc, i, 256)))
}

/// The weighted activations of the first `k` third-layer neurons.
pub open spec fn out_sum(n: NNUE, acc: Seq<i32>, k: int) -> int
    decreases k,
{
    if k <= 0 {
        0
    } else {
        out_sum(n, acc, k - 1) + trunc_div(h2_out(n, acc, k - 1), n.hidden_scale as int) * n.output_weights@[k
            - 1]
    }
}

/// The output neuron: bias plus weighted activations, in 32-bit wrapping
/// arithmetic.
pub open spec fn raw_output(n: NNUE, acc: Seq<i32>) -> int {
    wrap32(n.output_bias + out_sum(n, acc, 128))
}

/// The network's value: the output times 100 (wrapping) over the output
/// scale, rounded toward zero.
pub open spec fn network_value(n: NNUE, acc: Seq<i32>) -> int {
    trunc_div(wrap32(raw_output(n, acc) * 100), n.output_scale as int)
}

impl NNUE {
    /// The layers are large enough for the network's sizes.
    pub open spec fn shape_ok(&self) -> bool {
        &&& self.feature_weights@.len() >= FEATURE_SIZE * HIDDEN_SIZE_1
        &&& self.feature_bias@.len() >= HIDDEN_SIZE_1
        &&& self.hidden1_weights@.len() >= HIDDEN_SIZE_1 * HIDDEN_SIZE_2
        &&& self.hidden1_bias@.len() >= HIDDEN_SIZE_2
        &&& self.hidden2_weights@.len() >= HIDDEN_SIZE_2 * HIDDEN_SIZE_3
        &&& self.hidden2_bias@.len() >= HIDDEN_SIZE_3
        &&& self.output_weights@.len() >= HIDDEN_SIZE_3
    }

    /// The layers after the feature transformer are large enough: those
    /// that the evaluation of an accumulator reads.
    pub open spec fn layers_ok(&self) -> bool {
        &&& self.hidden1_weights@.len() >= HIDDEN_SIZE_1 * HIDDEN_SIZE_2
        &&& self.hidden1_bias@.len() >= HIDDEN_SIZE_2
        &&& self.hidden2_weights@.len() >= HIDDEN_SIZE_2 * HIDDEN_SIZE_3
        &&& self.hidden2_bias@.len() >= HIDDEN_SIZE_3
        &&& self.output_weights@.len() >= HIDDEN_SIZE_3
    }

    /// The scales can divide: none is zero, and the output scale is not -1
    /// where the scaled output is the least 32-bit number.
    pub open spec fn scales_ok(&self, acc: Seq<i32>) -> bool {
        &&& self.feature_scale != 0
        &&& self.hidden_scale != 0
        &&& self.output_scale != 0
        &&& (self.output_scale == -1 ==> wrap32(raw_output(*self, acc) * 100) != i32::MIN)
    }

    /// A network with random weights: feature weights within ±8, hidden
    /// weights within ±2 and ±4, output weights within ±6 (the Xavier
    /// ranges of each layer at its scale, rounded toward zero), zero biases,
    /// and scales 128, 64 and 400.
    pub fn new() -> (n: Self)
        ensures
            n.feature_weights@.len() == FEATURE_SIZE * HIDDEN_SIZE_1,
            n.feature_bias@.len() == HIDDEN_SIZE_1,
            n.hidden1_weights@.len() == HIDDEN_SIZE_1 * HIDDEN_SIZE_2,
            n.hidden1_bias@.len() == HIDDEN_SIZE_2,
            n.hidden2_weights@.len() == HIDDEN_SIZE_2 * HIDDEN_SIZE_3,
            n.hidden2_bias@.len() == HIDDEN_SIZE_3,
            n.output_weights@.len() == HIDDEN_SIZE_3,
            forall|k: int| 0 <= k < n.feature_weights@.len() ==> -8 <= #[trigger] n.feature_weights@[k] <= 8,
            forall|k: int| 0 <= k < n.hidden1_weights@.len() ==> -2 <= #[trigger] n.hidden1_weights@[k] <= 2,
            forall|k: int| 0 <= k < n.hidden2_weights@.len() ==> -4 <= #[trigger] n.hidden2_weights@[k] <= 4,
            forall|k: int| 0 <= k < n.output_weights@.len() ==> -6 <= #[trigger] n.output_weights@[k] <= 6,
            forall|k: int| 0 <= k < n.feature_bias@.len() ==> #[trigger] n.feature_bias@[k] == 0,
            forall|k: int| 0 <= k < n.hidden1_bias@.len() ==> #[trigger] n.hidden1_bias@[k] == 0,
            forall|k: int| 0 <= k < n.hidden2_bias@.len() ==> #[trigger] n.hidden2_bias@[k] == 0,
            n.output_bias == 0,
            n.feature_scale == 128,
            n.hidden_scale == 64,
            n.output_scale == 400,
    {
        let mut rng = thread_rng();
        let feature_range: i16 = 8;
        let hidden1_range: i16 = 2;
        let hidden2_range: i16 = 4;
        let output_range: i16 = 6;
        let mut feature_weights: Vec<i16> = Vec::new();
        let mut i: usize = 0;
        while i < FEATURE_SIZE * HIDDEN_SIZE_1
            invariant
                i <= FEATURE_SIZE * HIDDEN_SIZE_1,
                feature_weights@.len() == i,
                feature_range == 8,
                forall|k: int| 0 <= k < i ==> -8 <= #[trigger] feature_weights@[k] <= 8,
            decreases FEATURE_SIZE * HIDDEN_SIZE_1 - i,
        {
            feature_weights.push(gen_range(&mut rng, -feature_range, feature_range));
            i = i + 1;
        }
        let hidden1_weights = Self::random_i8s(&mut rng, HIDDEN_SIZE_1 * HIDDEN_SIZE_2, hidden1_range);
        let hidden2_weights = Self::random_i8s(&mut rng, HIDDEN_SIZE_2 * HIDDEN_SIZE_3, hidden2_range);
        let output_weights = Self::random_i8s(&mut rng, HIDDEN_SIZE_3, output_range);
        let mut feature_bias: Vec<i32> = Vec::new();
        let mut i: usize = 0;
        while i < HIDDEN_SIZE_1
            invariant
                i <= HIDDEN_SIZE_1,
                feature_bias@.len() == i,
                forall|k: int| 0 <= k < i ==> #[trigger] feature_bias@[k] == 0,
            decreases HIDDEN_SIZE_1 - i,
        {
            feature_bias.push(0);
            i = i + 1;
        }
        let mut hidden1_bias: Vec<i16> = Vec::new();
        let mut i: usize = 0;
        while i < HIDDEN_SIZE_2
            invariant
                i <= HIDDEN_SIZE_2,
                hidden1_bias@.len() == i,
                forall|k: int| 0 <= k < i ==> #[trigger] hidden1_bias@[k] == 0,
            decreases HIDDEN_SIZE_2 - i,
        {
            hidden1_bias.push(0);
            i = i + 1;
        }
        let mut hidden2_bias: Vec<i16> = Vec::new();
        let mut i: usize = 0;
        while i < HIDDEN_SIZE_3
            invariant
                i <= HIDDEN_SIZE_3,
                hidden2_bias@.len() == i,
                forall|k: int| 0 <= k < i ==> #[trigger] hidden2_bias@[k] == 0,
            decreases HIDDEN_SIZE_3 - i,
        {
            hidden2_bias.push(0);
            i = i + 1;
        }
        NNUE {
            feature_weights,
            feature_bias,
            hidden1_weights,
            hidden1_bias,
            hidden2_weights,
            hidden2_bias,
            output_weights,
            output_bias: 0,
            feature_scale: 128,
            hidden_scale: 64,
            output_scale: 400,
        }
    }

    /// `len` random 8-bit weights within `-range..=range`.
    fn random_i8s(rng: &mut ThreadRng, len: usize, range: i16) -> (v: Vec<i8>)
        requires
            0 <= range <= 127,
        ensures
            v@.len() == len,
            forall|k: int| 0 <= k < len ==> -range <= #[trigger] v@[k] <= range,
    {
        let mut v: Vec<i8> = Vec::new();
        let mut i: usize = 0;
        while i < len
            invariant
                0 <= range <= 127,
                i <= len,
                v@.len() == i,
                forall|k: int| 0 <= k < i ==> -range <= #[trigger] v@[k] <= range,
            decreases len - i,
        {
            let x = gen_range(rng, -range, range);
            v.push(x as i8);
            i = i + 1;
        }
        v
    }

    /// The network's value for the accumulator of `features`: each layer
    /// takes the positive part of the previous one over its scale, times
    /// its weights, plus its bias, in 32-bit wrapping arithmetic; the output
    /// is scaled to centipawns by 100 over the output scale.
    pub fn evaluate_incremental(&self, features: &NNUEAccumulator) -> (r: i32)
        requires
            self.layers_ok(),
            features.accumulator@.len() >= HIDDEN_SIZE_1,
            self.scales_ok(features.accumulator@),
        ensures
            r == network_value(*self, features.accumulator@),
    {
        let acc = &features.accumulator;
        let mut hidden1_output: Vec<i32> = Vec::new();
        let mut i: usize = 0;
        while i < HIDDEN_SIZE_2
            invariant
                self.layers_ok(),
                acc@.len() >= HIDDEN_SIZE_1,
                self.feature_scale != 0,
                i <= HIDDEN_SIZE_2,
                hidden1_output@.len() == i,
                forall|k: int| 0 <= k < i ==> #[trigger] hidden1_output@[k] == h1_out(*self, acc@, k),
            decreases HIDDEN_SIZE_2 - i,
        {
            let mut sum: i64 = self.hidden1_bias[i] as i64;
            let mut j: usize = 0;
            while j < HIDDEN_SIZE_1
                invariant
                    self.layers_ok(),
                    acc@.len() >= HIDDEN_SIZE_1,
                    self.feature_scale != 0,
                    i < HIDDEN_SIZE_2,
                    j <= HIDDEN_SIZE_1,
                    sum == self.hidden1_bias@[i as int] + h1_sum(*self, acc@, i as int, j as int),
                    -0x40_0000_0000 * j <= h1_sum(*self, acc@, i as int, j as int) <= 0x40_0000_0000 * j,
                decreases HIDDEN_SIZE_1 - j,
            {
                let a: i64 = if acc[j] > 0 {
                    acc[j] as i64
                } else {
                    0
                };
                let activated = trunc_div_i64(a, self.feature_scale as i64);
                proof {
                    assert(j * 256 + i < 131072) by (nonlinear_arith)
                        requires
                            j < 512,
                            i < 256,
                    ;
                }
                let w = self.hidden1_weights[j * 256 + i] as i64;
                proof {
                    assert(-0x8000_0000 <= activated <= 0x8000_0000) by (nonlinear_arith)
                        requires
                            activated == trunc_div(a as int, self.feature_scale as int),
                            0 <= a < 0x8000_0000,
                            self.feature_scale != 0,
                    {
                        let ad = if self.feature_scale < 0 {
                            -self.feature_scale
                        } else {
                            self.feature_scale as int
                        };
                        assert((a as int) / ad <= a);
                    }
                    assert(-0x40_0000_0000 <= activated * w <= 0x40_0000_0000) by (nonlinear_arith)
                        requires
                            -0x8000_0000 <= activated <= 0x8000_0000,
                            -128 <= w < 128,
                    ;
                }
                sum = sum + activated * w;
                j = j + 1;
            }
            let h = wrap_to_i32(sum);
            hidden1_output.push(if h > 0 {
                h
            } else {
                0
            });
            i = i + 1;
        }
        let mut hidden2_output: Vec<i32> = Vec::new();
        let mut i: usize = 0;
        while i < HIDDEN_SIZE_3
            invariant
                self.layers_ok(),
                self.hidden_scale != 0,
                i <= HIDDEN_SIZE_3,
                hidden1_output@.len() == HIDDEN_SIZE_2,
                forall|k: int| 0 <= k < HIDDEN_SIZE_2 ==> #[trigger] hidden1_output@[k] == h1_out(*self, acc@, k),
                hidden2_output@.len() == i,
                forall|k: int| 0 <= k < i ==> #[trigger] hidden2_output@[k] == h2_out(*self, acc@, k),
            decreases HIDDEN_SIZE_3 - i,
        {
            let mut sum: i64 = self.hidden2_bias[i] as i64;
            let mut j: usize = 0;
            while j < HIDDEN_SIZE_2
                invariant
                    self.layers_ok(),
                    self.hidden_scale != 0,
                    i < HIDDEN_SIZE_3,
                    j <= HIDDEN_SIZE_2,
                    hidden1_output@.len() == HIDDEN_SIZE_2,
                    forall|k: int| 0 <= k < HIDDEN_SIZE_2 ==> #[trigger] hidden1_output@[k] == h1_out(*self, acc@, k),
                    sum == self.hidden2_bias@[i as int] + h2_sum(*self, acc@, i as int, j as int),
                    -0x40_0000_0000 * j <= h2_sum(*self, acc@, i as int, j as int) <= 0x40_0000_0000 * j,
                decreases HIDDEN_SIZE_2 - j,
            {
                let h = hidden1_output[j];
                proof {
                    assert(0 <= h);
                }
                let activated = trunc_div_i64(h as i64, self.hidden_scale as i64);
                proof {
                    assert(j * 128 + i < 32768) by (nonlinear_arith)
                        requires
                            j < 256,
                            i < 128,
                    ;
                }
                let w = self.hidden2_weights[j * 128 + i] as i64;
                proof {
                    assert(-0x8000_0000 <= activated <= 0x8000_0000) by (nonlinear_arith)
                        requires
                            activated == trunc_div(h as int, self.hidden_scale as int),
                            0 <= h < 0x8000_0000,
                            self.hidden_scale != 0,
                    {
                        let ad = if self.hidden_scale < 0 {
                            -self.hidden_scale
                        } else {
                            self.hidden_scale as int
                        };
                        assert((h as int) / ad <= h);
                    }
                    assert(-0x40_0000_0000 <= activated * w <= 0x40_0000_0000) by (nonlinear_arith)
                        requires
                            -0x8000_0000 <= activated <= 0x8000_0000,
                            -128 <= w < 128,
                    ;
                }
                sum = sum + activated * w;
                j = j + 1;
            }
            let h = wrap_to_i32(sum);
            hidden2_output.push(if h > 0 {
                h
            } else {
                0
            });
            i = i + 1;
        }
        let mut final_sum: i64 = self.output_bias as i64;
        let mut i: usize = 0;
        while i < HIDDEN_SIZE_3
            invariant
                self.layers_ok(),
                self.hidden_scale != 0,
                i <= HIDDEN_SIZE_3,
                hidden2_output@.len() == HIDDEN_SIZE_3,
                forall|k: int| 0 <= k < HIDDEN_SIZE_3 ==> #[trigger] hidden2_output@[k] == h2_out(*self, acc@, k),
                final_sum == self.output_bias + out_sum(*self, acc@, i as int),
                -0x40_0000_0000 * i <= out_sum(*self, acc@, i as int) <= 0x40_0000_0000 * i,
            decreases HIDDEN_SIZE_3 - i,
        {
            let h = hidden2_output[i];
            let activated = trunc_div_i64(h as i64, self.hidden_scale as i64);
            let w = self.output_weights[i] as i64;
            proof {
                assert(-0x8000_0000 <= activated <= 0x8000_0000) by (nonlinear_arith)
                    requires
                        activated == trunc_div(h as int, self.hidden_scale as int),
                        0 <= h < 0x8000_0000,
                        self.hidden_scale != 0,
                {
                    let ad = if self.hidden_scale < 0 {
                        -self.hidden_scale
                    } else {
                        self.hidden_scale as int
                    };
                    assert((h as int) / ad <= h);
                }
                assert(-0x40_0000_0000 <= activated * w <= 0x40_0000_0000) by (nonlinear_arith)
                    requires
                        -0x8000_0000 <= activated <= 0x8000_0000,
                        -128 <= w < 128,
                ;
            }
            final_sum = final_sum + activated * w;
            i = i + 1;
        }
        let raw = wrap_to_i32(final_sum);
        let scaled = wrap_to_i32(raw as i64 * 100);
        let r = trunc_div_i64(scaled as i64, self.output_scale as i64);
        proof {
            let os = self.output_scale as int;
            let ax: int = if scaled < 0 {
                -scaled
            } else {
                scaled as int
            };
            let ad: int = if os < 0 {
                -os
            } else {
                os
            };
            let q = ax / ad;
            assert(0 <= q <= ax) by (nonlinear_arith)
                requires
                    q == ax / ad,
                    ax >= 0,
                    ad >= 1,
            ;
            if ad >= 2 {
                assert(2 * q <= ax) by (nonlinear_arith)
                    requires
                        q == ax / ad,
                        ax >= 0,
                        ad >= 2,
                {
                    assert(q * ad <= ax);
                    assert(2 * q <= q * ad);
                }
            } else {
                assert(ad == 1);
                vstd::arithmetic::div_mod::lemma_div_basics(ax);
                assert(q == ax);
            }
        }
        r as i32
    }
}

} // verus!
