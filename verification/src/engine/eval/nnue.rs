use vstd::prelude::*;
use vstd::string::StringExecFns;
use std::sync::Arc;
use crate::types::{Color, PieceKind, kind_index};
use crate::board::Board;
use crate::bits::sq_in;
use crate::engine::traits::{Evaluator, Score};
use crate::engine::eval::material::{material_eval_spec, material_sum};
use crate::search::evaluation::tdiv;

verus! {

broadcast use crate::bits::group_bits;

/// Inputs of the network: one per colour, kind and square.
pub const INPUT_SIZE: usize = 768;

/// Neurons of the feature transformer, per perspective.
pub const FT_SIZE: usize = 256;

/// Neurons of the hidden layer.
pub const HIDDEN_SIZE: usize = 8;

/// The file's first four bytes, "PLNN".
pub const MAGIC: [u8; 4] = [80u8, 76u8, 78u8, 78u8];

/// The format version this evaluator reads.
pub const VERSION: u32 = 2;

/// Where the feature-transformer weights start: after the magic, the
/// version and the three layer sizes.
pub const FT_WEIGHT_AT: usize = 20;

/// Where the feature-transformer biases start.
pub const FT_BIAS_AT: usize = 393236;

/// Where the hidden-layer weights start.
pub const HIDDEN_WEIGHT_AT: usize = 393748;

/// Where the hidden-layer biases start.
pub const HIDDEN_BIAS_AT: usize = 397844;

/// Where the output weights start.
pub const OUTPUT_WEIGHT_AT: usize = 397876;

/// Where the output bias stands.
pub const OUTPUT_BIAS_AT: usize = 397884;

/// The length of a complete weights file.
pub const FILE_LEN: usize = 397888;

/// The little-endian unsigned 32-bit number at `o`.
pub open spec fn le_u32(d: Seq<u8>, o: int) -> int {
    d[o] + 256 * d[o + 1] + 65536 * d[o + 2] + 16777216 * d[o + 3]
}

/// The little-endian two's-complement 32-bit number at `o`.
pub open spec fn le_i32(d: Seq<u8>, o: int) -> int {
    let u = le_u32(d, o);
    if u >= 0x8000_0000 {
        u - 0x1_0000_0000
    } else {
        u
    }
}

/// The little-endian two's-complement 16-bit number at `o`.
pub open spec fn le_i16(d: Seq<u8>, o: int) -> int {
    let u = d[o] + 256 * d[o + 1];
    if u >= 0x8000 {
        u - 0x1_0000
    } else {
        u
    }
}

/// A byte read as a two's-complement 8-bit number.
pub open spec fn byte_i8(x: u8) -> int {
    if x >= 128 {
        x - 256
    } else {
        x as int
    }
}

/// The header is complete and announces this format: the magic, version 2,
/// and 768 inputs, 256 transformer neurons and 8 hidden neurons.
pub open spec fn header_ok(d: Seq<u8>) -> bool {
    &&& d.len() >= 20
    &&& d[0] == MAGIC[0] && d[1] == MAGIC[1] && d[2] == MAGIC[2] && d[3] == MAGIC[3]
    &&& le_u32(d, 4) == VERSION
    &&& le_u32(d, 8) == INPUT_SIZE
    &&& le_u32(d, 12) == FT_SIZE
    &&& le_u32(d, 16) == HIDDEN_SIZE
}

/// The character of a decimal digit.
pub open spec fn digit_char(d: int) -> char {
    if d == 0 {
        '0'
    } else if d == 1 {
        '1'
    } else if d == 2 {
        '2'
    } else if d == 3 {
        '3'
    } else if d == 4 {
        '4'
    } else if d == 5 {
        '5'
    } else if d == 6 {
        '6'
    } else if d == 7 {
        '7'
    } else if d == 8 {
        '8'
    } else {
        '9'
    }
}

/// The decimal writing of `n`, without leading zeros.
pub open spec fn decimal(n: nat) -> Seq<char>
    decreases n,
{
    if n < 10 {
        seq![digit_char(n as int)]
    } else {
        decimal(n / 10).push(digit_char((n % 10) as int))
    }
}

/// The message for a header that is not accepted: too short, a wrong magic,
/// a wrong version (given in decimal), or other layer sizes.
pub open spec fn header_error(d: Seq<u8>) -> Seq<char> {
    if d.len() < 20 {
        "NNUE file too small"@
    } else if !(d[0] == MAGIC[0] && d[1] == MAGIC[1] && d[2] == MAGIC[2] && d[3] == MAGIC[3]) {
        "Bad magic"@
    } else if le_u32(d, 4) != VERSION {
        "Bad version: "@ + decimal(le_u32(d, 4) as nat)
    } else {
        "Architecture mismatch"@
    }
}

/// The one-character string of digit `d`.
fn digit_str(d: u32) -> (r: &'static str)
    requires
        d < 10,
    ensures
        r@ == seq![digit_char(d as int)],
{
    proof {
        reveal_strlit("0");
        reveal_strlit("1");
        reveal_strlit("2");
        reveal_strlit("3");
        reveal_strlit("4");
        reveal_strlit("5");
        reveal_strlit("6");
        reveal_strlit("7");
        reveal_strlit("8");
        reveal_strlit("9");
    }
    if d == 0 {
        "0"
    } else if d == 1 {
        "1"
    } else if d == 2 {
        "2"
    } else if d == 3 {
        "3"
    } else if d == 4 {
        "4"
    } else if d == 5 {
        "5"
    } else if d == 6 {
        "6"
    } else if d == 7 {
        "7"
    } else if d == 8 {
        "8"
    } else {
        "9"
    }
}

/// Appends the decimal writing of `n` to `s`.
fn push_decimal(s: &mut String, n: u32)
    ensures
        final(s)@ == old(s)@ + decimal(n as nat),
    decreases n,
{
    if n >= 10 {
        push_decimal(s, n / 10);
    }
    s.append(digit_str(n % 10));
    proof {
        if n >= 10 {
            assert(decimal(n as nat) == decimal((n / 10) as nat).push(digit_char((n % 10) as int)));
        }
    }
}

/// Whether `data` begins with a header of this format; a weights file with
/// such a header must then hold all `FILE_LEN` bytes.
pub fn header_accepted(data: &[u8]) -> (r: bool)
    ensures
        r == header_ok(data@),
{
    data.len() >= 20 && data[0] == MAGIC[0] && data[1] == MAGIC[1] && data[2] == MAGIC[2]
        && data[3] == MAGIC[3] && read_u32(data, 4) == VERSION && read_u32(data, 8) == 768
        && read_u32(data, 12) == 256 && read_u32(data, 16) == 8
}

/// The little-endian unsigned 32-bit number at `o`.
pub(crate) fn read_u32(d: &[u8], o: usize) -> (r: u32)
    requires
        o + 4 <= d@.len(),
    ensures
        r == le_u32(d@, o as int),
{
    d[o] as u32 + d[o + 1] as u32 * 256 + d[o + 2] as u32 * 65536 + d[o + 3] as u32 * 16777216
}

/// The little-endian two's-complement 32-bit number at `o`.
pub(crate) fn read_i32(d: &[u8], o: usize) -> (r: i32)
    requires
        o + 4 <= d@.len(),
    ensures
        r == le_i32(d@, o as int),
{
    let u = read_u32(d, o);
    if u >= 0x8000_0000 {
        (u as i64 - 0x1_0000_0000i64) as i32
    } else {
        u as i32
    }
}

/// The little-endian two's-complement 16-bit number at `o`.
pub(crate) fn read_i16(d: &[u8], o: usize) -> (r: i16)
    requires
        o + 2 <= d@.len(),
    ensures
        r == le_i16(d@, o as int),
{
    let u: u32 = d[o] as u32 + d[o + 1] as u32 * 256;
    if u >= 0x8000 {
        (u as i32 - 0x1_0000i32) as i16
    } else {
        u as i16
    }
}

/// The byte at `o`, read as a two's-complement 8-bit number.
pub(crate) fn read_i8(d: &[u8], o: usize) -> (r: i16)
    requires
        o < d@.len(),
    ensures
        r == byte_i8(d@[o as int]),
        -128 <= r < 128,
{
    let x = d[o];
    if x >= 128 {
        x as i16 - 256
    } else {
        x as i16
    }
}

/// The weights of the network, as read from a file.
pub struct NnueWeights {
    ft_weight_t: Vec<i16>,
    ft_bias: Vec<i16>,
    hidden_weight: Vec<i16>,
    hidden_bias: Vec<i32>,
    output_weight: Vec<i16>,
    output_bias: i32,
}

impl NnueWeights {
    /// Every layer has its size, and the hidden and output weights are
    /// 8-bit numbers.
    #[verifier::type_invariant]
    spec fn shape_ok(self) -> bool {
        &&& self.ft_weight_t@.len() == INPUT_SIZE * FT_SIZE
        &&& self.ft_bias@.len() == FT_SIZE
        &&& self.hidden_weight@.len() == HIDDEN_SIZE * FT_SIZE * 2
        &&& self.hidden_bias@.len() == HIDDEN_SIZE
        &&& self.output_weight@.len() == HIDDEN_SIZE
        &&& forall|k: int| 0 <= k < self.hidden_weight@.len() ==> -128 <= #[trigger] self.hidden_weight@[k] < 128
        &&& forall|k: int| 0 <= k < self.output_weight@.len() ==> -128 <= #[trigger] self.output_weight@[k] < 128
    }

    /// The transformer weights, feature by feature: entry `f * 256 + n`
    /// joins feature `f` to neuron `n`.
    pub closed spec fn ft_weights(self) -> Seq<i16> {
        self.ft_weight_t@
    }

    /// The transformer biases.
    pub closed spec fn ft_biases(self) -> Seq<i16> {
        self.ft_bias@
    }

    /// The hidden weights, neuron by neuron: entry `i * 512 + j` joins input
    /// `j` to hidden neuron `i`.
    pub closed spec fn hidden_weights(self) -> Seq<i16> {
        self.hidden_weight@
    }

    /// The hidden biases.
    pub closed spec fn hidden_biases(self) -> Seq<i32> {
        self.hidden_bias@
    }

    /// The output weights.
    pub closed spec fn output_weights(self) -> Seq<i16> {
        self.output_weight@
    }

    /// The output bias.
    pub closed spec fn output_bias_of(self) -> i32 {
        self.output_bias
    }

    /// These weights are the ones written in `d`: the transformer weights
    /// neuron by neuron, then the transformer biases, the hidden weights and
    /// biases, the output weights and the output bias.
    pub open spec fn read_from(self, d: Seq<u8>) -> bool {
        &&& forall|k: int|
            0 <= k < INPUT_SIZE * FT_SIZE ==> #[trigger] self.ft_weights()[k] == le_i16(
                d,
                FT_WEIGHT_AT + 2 * ((k % 256) * 768 + k / 256),
            )
        &&& forall|n: int|
            0 <= n < FT_SIZE ==> #[trigger] self.ft_biases()[n] == le_i16(d, FT_BIAS_AT + 2 * n)
        &&& forall|k: int|
            0 <= k < HIDDEN_SIZE * FT_SIZE * 2 ==> #[trigger] self.hidden_weights()[k] == byte_i8(
                d[HIDDEN_WEIGHT_AT + k],
            )
        &&& forall|i: int|
            0 <= i < HIDDEN_SIZE ==> #[trigger] self.hidden_biases()[i] == le_i32(
                d,
                HIDDEN_BIAS_AT + 4 * i,
            )
        &&& forall|i: int|
            0 <= i < HIDDEN_SIZE ==> #[trigger] self.output_weights()[i] == byte_i8(
                d[OUTPUT_WEIGHT_AT + i],
            )
        &&& self.output_bias_of() == le_i32(d, OUTPUT_BIAS_AT as int)
    }

    /// Reads the weights from the bytes of a weights file. A header that is
    /// too short, has another magic, another version or other layer sizes is
    /// refused with its message.
    pub fn from_bytes(data: &[u8]) -> (r: Result<NnueWeights, String>)
        requires
            header_ok(data@) ==> data@.len() >= FILE_LEN,
        ensures
            match r {
                Ok(w) => header_ok(data@) && w.read_from(data@),
                Err(e) => !header_ok(data@) && e@ == header_error(data@),
            },
    {
        if data.len() < 20 {
            return Err(String::from_str("NNUE file too small"));
        }
        if !(data[0] == MAGIC[0] && data[1] == MAGIC[1] && data[2] == MAGIC[2] && data[3] == MAGIC[3]) {
            return Err(String::from_str("Bad magic"));
        }
        let ver = read_u32(data, 4);
        if ver != VERSION {
            let mut msg = String::from_str("Bad version: ");
            push_decimal(&mut msg, ver);
            return Err(msg);
        }
        let is = read_u32(data, 8);
        let fs = read_u32(data, 12);
        let hs = read_u32(data, 16);
        if is != 768 || fs != 256 || hs != 8 {
            return Err(String::from_str("Architecture mismatch"));
        }
        let ft_weight_t = read_ft_weights(data);
        let mut ft_bias: Vec<i16> = Vec::new();
        let mut n: usize = 0;
        while n < FT_SIZE
            invariant
                n <= FT_SIZE,
                data@.len() >= FILE_LEN,
                ft_bias@.len() == n,
                forall|m: int| 0 <= m < n ==> #[trigger] ft_bias@[m] == le_i16(data@, FT_BIAS_AT + 2 * m),
            decreases FT_SIZE - n,
        {
            ft_bias.push(read_i16(data, FT_BIAS_AT + 2 * n));
            n = n + 1;
        }
        let mut hidden_weight: Vec<i16> = Vec::new();
        let mut k: usize = 0;
        while k < HIDDEN_SIZE * FT_SIZE * 2
            invariant
                k <= HIDDEN_SIZE * FT_SIZE * 2,
                data@.len() >= FILE_LEN,
                hidden_weight@.len() == k,
                forall|m: int|
                    0 <= m < k ==> #[trigger] hidden_weight@[m] == byte_i8(data@[HIDDEN_WEIGHT_AT + m]),
                forall|m: int| 0 <= m < k ==> -128 <= #[trigger] hidden_weight@[m] < 128,
            decreases HIDDEN_SIZE * FT_SIZE * 2 - k,
        {
            hidden_weight.push(read_i8(data, HIDDEN_WEIGHT_AT + k));
            k = k + 1;
        }
        let mut hidden_bias: Vec<i32> = Vec::new();
        let mut output_weight: Vec<i16> = Vec::new();
        let mut i: usize = 0;
        while i < HIDDEN_SIZE
            invariant
                i <= HIDDEN_SIZE,
                data@.len() >= FILE_LEN,
                hidden_bias@.len() == i,
                output_weight@.len() == i,
                forall|m: int|
                    0 <= m < i ==> #[trigger] hidden_bias@[m] == le_i32(data@, HIDDEN_BIAS_AT + 4 * m),
                forall|m: int|
                    0 <= m < i ==> #[trigger] output_weight@[m] == byte_i8(data@[OUTPUT_WEIGHT_AT + m]),
                forall|m: int| 0 <= m < i ==> -128 <= #[trigger] output_weight@[m] < 128,
            decreases HIDDEN_SIZE - i,
        {
            hidden_bias.push(read_i32(data, HIDDEN_BIAS_AT + 4 * i));
            output_weight.push(read_i8(data, OUTPUT_WEIGHT_AT + i));
            i = i + 1;
        }
        let output_bias = read_i32(data, OUTPUT_BIAS_AT);
        Ok(NnueWeights { ft_weight_t, ft_bias, hidden_weight, hidden_bias, output_weight, output_bias })
    }
}

/// The transformer weights of a complete file, feature by feature, from the
/// neuron-by-neuron order of the file.
fn read_ft_weights(data: &[u8]) -> (v: Vec<i16>)
    requires
        data@.len() >= FILE_LEN,
    ensures
        v@.len() == INPUT_SIZE * FT_SIZE,
        forall|k: int|
            0 <= k < INPUT_SIZE * FT_SIZE ==> #[trigger] v@[k] == le_i16(
                data@,
                FT_WEIGHT_AT + 2 * ((k % 256) * 768 + k / 256),
            ),
{
    let mut v: Vec<i16> = Vec::new();
    let mut f: usize = 0;
    while f < INPUT_SIZE
        invariant
            f <= INPUT_SIZE,
            data@.len() >= FILE_LEN,
            v@.len() == f * 256,
            forall|k: int|
                0 <= k < v@.len() ==> #[trigger] v@[k] == le_i16(
                    data@,
                    FT_WEIGHT_AT + 2 * ((k % 256) * 768 + k / 256),
                ),
        decreases INPUT_SIZE - f,
    {
        let mut n: usize = 0;
        while n < FT_SIZE
            invariant
                f < INPUT_SIZE,
                n <= FT_SIZE,
                data@.len() >= FILE_LEN,
                v@.len() == f * 256 + n,
                forall|k: int|
                    0 <= k < v@.len() ==> #[trigger] v@[k] == le_i16(
                        data@,
                        FT_WEIGHT_AT + 2 * ((k % 256) * 768 + k / 256),
                    ),
            decreases FT_SIZE - n,
        {
            proof {
                let k = f * 256 + n;
                vstd::arithmetic::div_mod::lemma_fundamental_div_mod_converse(
                    k as int,
                    256,
                    f as int,
                    n as int,
                );
                assert(n * 768 + f < 196608) by (nonlinear_arith)
                    requires
                        n < 256,
                        f < 768,
                ;
            }
            let x = read_i16(data, FT_WEIGHT_AT + 2 * (n * 768 + f));
            v.push(x);
            n = n + 1;
        }
        f = f + 1;
    }
    v
}

/// `x` reduced to a two's-complement 16-bit number.
pub open spec fn wrap16(x: int) -> int {
    (x + 0x8000) % 0x1_0000 - 0x8000
}

/// `x` reduced to a two's-complement 32-bit number.
pub open spec fn wrap32(x: int) -> int {
    (x + 0x8000_0000) % 0x1_0000_0000 - 0x8000_0000
}

/// `x` held within `lo..=hi`.
pub open spec fn clamp(x: int, lo: int, hi: int) -> int {
    if x < lo {
        lo
    } else if x > hi {
        hi
    } else {
        x
    }
}

/// The piece kind of index `i`: pawn, knight, bishop, rook, queen, king.
pub open spec fn kind_at_index(i: int) -> PieceKind {
    if i == 0 {
        PieceKind::Pawn
    } else if i == 1 {
        PieceKind::Knight
    } else if i == 2 {
        PieceKind::Bishop
    } else if i == 3 {
        PieceKind::Rook
    } else if i == 4 {
        PieceKind::Queen
    } else {
        PieceKind::King
    }
}

/// The input of a piece of colour `c` and kind `k` on square `s`, seen from
/// `persp`: the pieces of `persp` come first, and Black sees the board with
/// its ranks turned over.
pub open spec fn feature(c: Color, k: PieceKind, s: int, persp: Color) -> int {
    let own = if c == persp {
        0int
    } else {
        1int
    };
    let sq = match persp {
        Color::White => s,
        Color::Black => (7 - s / 8) * 8 + s % 8,
    };
    own * 384 + kind_index(k) * 64 + sq
}

/// What slot `t` adds to neuron `n` of the transformer: slots run over the
/// kinds, for each kind White then Black, for each colour the squares; an
/// occupied slot adds the weight of its input.
pub open spec fn feature_term(w: NnueWeights, b: Board, persp: Color, t: int, n: int) -> int {
    let k = kind_at_index(t / 128);
    let c = if (t / 64) % 2 == 0 {
        Color::White
    } else {
        Color::Black
    };
    let s = t % 64;
    if sq_in(b.kind_bb(k) & b.color_bb(c), s) {
        w.ft_weights()[feature(c, k, s, persp) * 256 + n] as int
    } else {
        0
    }
}

/// The sum of what the first `t` slots add to neuron `n`.
pub open spec fn features_upto(w: NnueWeights, b: Board, persp: Color, n: int, t: int) -> int
    decreases t,
{
    if t <= 0 {
        0
    } else {
        features_upto(w, b, persp, n, t - 1) + feature_term(w, b, persp, t - 1, n)
    }
}

/// Neuron `n` of the transformer from `persp`: its bias plus the weights of
/// the pieces on the board, in 16-bit wrapping arithmetic.
pub open spec fn accumulator(w: NnueWeights, b: Board, persp: Color, n: int) -> int {
    wrap16(w.ft_biases()[n] + features_upto(w, b, persp, n, 768))
}

/// Input `j` of the hidden layer: the transformer of the side to move, then
/// that of the other side, each neuron held within `0..=64`.
pub open spec fn input_value(w: NnueWeights, b: Board, j: int) -> int {
    if j < 256 {
        clamp(accumulator(w, b, b.to_move, j), 0, 64)
    } else {
        clamp(accumulator(w, b, b.to_move.flip(), j - 256), 0, 64)
    }
}

/// The weighted sum of the first `j` inputs of hidden neuron `i`.
pub open spec fn dot_upto(w: NnueWeights, b: Board, i: int, j: int) -> int
    decreases j,
{
    if j <= 0 {
        0
    } else {
        dot_upto(w, b, i, j - 1) + w.hidden_weights()[i * 512 + j - 1] * input_value(w, b, j - 1)
    }
}

/// Hidden neuron `i`: its bias plus the weighted inputs, in 32-bit wrapping
/// arithmetic, held within `0..=4096`.
pub open spec fn hidden_value(w: NnueWeights, b: Board, i: int) -> int {
    clamp(wrap32(w.hidden_biases()[i] + dot_upto(w, b, i, 512)), 0, 4096)
}

/// The output bias plus the first `k` weighted hidden neurons.
pub open spec fn output_upto(w: NnueWeights, b: Board, k: int) -> int
    decreases k,
{
    if k <= 0 {
        w.output_bias_of() as int
    } else {
        output_upto(w, b, k - 1) + w.output_weights()[k - 1] * hidden_value(w, b, k - 1)
    }
}

/// The network's score: the output times 400 over the three quantisation
/// scales, rounded toward zero.
pub open spec fn network_score(w: NnueWeights, b: Board) -> int {
    tdiv(output_upto(w, b, 8) * 400, 262144)
}

/// The evaluation: four parts network to one part material, rounded toward
/// zero.
pub open spec fn nnue_eval_spec(w: NnueWeights, b: Board) -> int {
    tdiv(network_score(w, b) * 4 + material_eval_spec(b), 5)
}

/// `x` reduced to a two's-complement 16-bit number.
fn wrap_i16(x: i32) -> (r: i16)
    requires
        -0x8000 * 800 <= x <= 0x8000 * 800,
    ensures
        r == wrap16(x as int),
{
    let y: u64 = (x as i64 + 0x8000 + 0x1_0000 * 800) as u64;
    let m: u64 = y % 0x1_0000;
    proof {
        vstd::arithmetic::div_mod::lemma_mod_multiples_vanish(800, x + 0x8000, 0x1_0000);
    }
    (m as i32 - 0x8000) as i16
}

/// `x` reduced to a two's-complement 32-bit number.
fn wrap_i32(x: i64) -> (r: i32)
    requires
        -0x1_0000_0000 * 4 <= x <= 0x1_0000_0000 * 4,
    ensures
        r == wrap32(x as int),
{
    let y: u64 = (x + 0x8000_0000 + 0x1_0000_0000 * 8) as u64;
    let m: u64 = y % 0x1_0000_0000;
    proof {
        vstd::arithmetic::div_mod::lemma_mod_multiples_vanish(8, x + 0x8000_0000, 0x1_0000_0000);
    }
    (m as i64 - 0x8000_0000) as i32
}

/// The kind of index `i`.
fn kind_of_index(i: usize) -> (k: PieceKind)
    requires
        i < 6,
    ensures
        k == kind_at_index(i as int),
        kind_index(k) == i,
{
    if i == 0 {
        PieceKind::Pawn
    } else if i == 1 {
        PieceKind::Knight
    } else if i == 2 {
        PieceKind::Bishop
    } else if i == 3 {
        PieceKind::Rook
    } else if i == 4 {
        PieceKind::Queen
    } else {
        PieceKind::King
    }
}

/// The input of a piece of colour `c` and kind `k` on square `s`, seen from
/// `persp`.
fn feature_index(c: Color, k: PieceKind, s: usize, persp: Color) -> (r: usize)
    requires
        s < 64,
    ensures
        r == feature(c, k, s as int, persp),
        r < INPUT_SIZE,
{
    let own: usize = if c == persp {
        0
    } else {
        1
    };
    let sq: usize = match persp {
        Color::White => s,
        Color::Black => (7 - s / 8) * 8 + s % 8,
    };
    let ki: usize = match k {
        PieceKind::Pawn => 0,
        PieceKind::Knight => 1,
        PieceKind::Bishop => 2,
        PieceKind::Rook => 3,
        PieceKind::Queen => 4,
        PieceKind::King => 5,
    };
    own * 384 + ki * 64 + sq
}

/// The evaluator that runs the network of a weights file.
pub struct NnueEvaluator {
    weights: Arc<NnueWeights>,
}

impl NnueEvaluator {
    /// The weights the evaluator runs.
    pub closed spec fn weights(self) -> NnueWeights {
        *self.weights
    }

    /// Reads the weights from the bytes of a weights file, as
    /// `NnueWeights::from_bytes` does.
    pub fn from_bytes(data: &[u8]) -> (r: Result<NnueEvaluator, String>)
        requires
            header_ok(data@) ==> data@.len() >= FILE_LEN,
        ensures
            match r {
                Ok(e) => header_ok(data@) && e.weights().read_from(data@),
                Err(m) => !header_ok(data@) && m@ == header_error(data@),
            },
    {
        match NnueWeights::from_bytes(data) {
            Ok(w) => Ok(NnueEvaluator { weights: Arc::new(w) }),
            Err(e) => Err(e),
        }
    }

    /// The transformer neurons seen from `persp`.
    fn accumulate(w: &NnueWeights, board: &Board, persp: Color) -> (acc: Vec<i16>)
        ensures
            acc@.len() == FT_SIZE,
            forall|n: int| 0 <= n < FT_SIZE ==> #[trigger] acc@[n] == accumulator(*w, *board, persp, n),
    {
        proof {
            use_type_invariant(w);
        }
        let mut sums: Vec<i32> = Vec::new();
        let mut n: usize = 0;
        while n < FT_SIZE
            invariant
                n <= FT_SIZE,
                w.ft_bias@.len() == FT_SIZE,
                sums@.len() == n,
                forall|m: int| 0 <= m < n ==> #[trigger] sums@[m] == w.ft_bias@[m],
            decreases FT_SIZE - n,
        {
            sums.push(w.ft_bias[n] as i32);
            n = n + 1;
        }
        let mut t: usize = 0;
        while t < 768
            invariant
                t <= 768,
                w.ft_bias@.len() == FT_SIZE,
                w.ft_weight_t@.len() == INPUT_SIZE * FT_SIZE,
                sums@.len() == FT_SIZE,
                forall|m: int|
                    0 <= m < FT_SIZE ==> #[trigger] sums@[m] == w.ft_bias@[m] + features_upto(
                        *w,
                        *board,
                        persp,
                        m,
                        t as int,
                    ),
                forall|m: int|
                    0 <= m < FT_SIZE ==> -0x8000 * (t + 1) <= #[trigger] sums@[m] <= 0x8000 * (t + 1),
            decreases 768 - t,
        {
            let k = kind_of_index(t / 128);
            let c = if (t / 64) % 2 == 0 {
                Color::White
            } else {
                Color::Black
            };
            let s: usize = t % 64;
            let kind_bb = match k {
                PieceKind::Pawn => board.pawns,
                PieceKind::Knight => board.knights,
                PieceKind::Bishop => board.bishops,
                PieceKind::Rook => board.rooks,
                PieceKind::Queen => board.queens,
                PieceKind::King => board.kings,
            };
            let color_bb = match c {
                Color::White => board.white_pieces,
                Color::Black => board.black_pieces,
            };
            let bb = kind_bb & color_bb;
            assert(bb == board.kind_bb(k) & board.color_bb(c));
            let occupied = bb & (1u64 << (s as u64)) != 0;
            if occupied {
                let f = feature_index(c, k, s, persp);
                let mut m: usize = 0;
                while m < FT_SIZE
                    invariant
                        t < 768,
                        s == t % 64,
                        f == feature(c, k, s as int, persp),
                        f < INPUT_SIZE,
                        k == kind_at_index(t as int / 128),
                        c == (if (t as int / 64) % 2 == 0 {
                            Color::White
                        } else {
                            Color::Black
                        }),
                        sq_in(board.kind_bb(k) & board.color_bb(c), s as int),
                        m <= FT_SIZE,
                        w.ft_bias@.len() == FT_SIZE,
                        w.ft_weight_t@.len() == INPUT_SIZE * FT_SIZE,
                        sums@.len() == FT_SIZE,
                        forall|j: int|
                            0 <= j < m ==> #[trigger] sums@[j] == w.ft_bias@[j] + features_upto(
                                *w,
                                *board,
                                persp,
                                j,
                                t + 1,
                            ),
                        forall|j: int|
                            m <= j < FT_SIZE ==> #[trigger] sums@[j] == w.ft_bias@[j] + features_upto(
                                *w,
                                *board,
                                persp,
                                j,
                                t as int,
                            ),
                        forall|j: int|
                            0 <= j < m ==> -0x8000 * (t + 2) <= #[trigger] sums@[j] <= 0x8000 * (t + 2),
                        forall|j: int|
                            m <= j < FT_SIZE ==> -0x8000 * (t + 1) <= #[trigger] sums@[j] <= 0x8000 * (t + 1),
                    decreases FT_SIZE - m,
                {
                    proof {
                        assert(f * 256 + m < INPUT_SIZE * FT_SIZE) by (nonlinear_arith)
                            requires
                                f < 768,
                                m < 256,
                        ;
                    }
                    let wv = w.ft_weight_t[f * 256 + m];
                    let v = sums[m] + wv as i32;
                    sums.set(m, v);
                    m = m + 1;
                }
            } else {
                assert(!sq_in(board.kind_bb(k) & board.color_bb(c), s as int));
                assert forall|j: int| 0 <= j < FT_SIZE implies #[trigger] feature_term(
                    *w,
                    *board,
                    persp,
                    t as int,
                    j,
                ) == 0 by {}
            }
            t = t + 1;
        }
        let mut acc: Vec<i16> = Vec::new();
        let mut n: usize = 0;
        while n < FT_SIZE
            invariant
                n <= FT_SIZE,
                w.ft_bias@.len() == FT_SIZE,
                sums@.len() == FT_SIZE,
                acc@.len() == n,
                forall|m: int|
                    0 <= m < FT_SIZE ==> #[trigger] sums@[m] == w.ft_bias@[m] + features_upto(
                        *w,
                        *board,
                        persp,
                        m,
                        768,
                    ),
                forall|m: int| 0 <= m < FT_SIZE ==> -0x8000 * 769 <= #[trigger] sums@[m] <= 0x8000 * 769,
                forall|m: int| 0 <= m < n ==> #[trigger] acc@[m] == accumulator(*w, *board, persp, m),
            decreases FT_SIZE - n,
        {
            acc.push(wrap_i16(sums[n]));
            n = n + 1;
        }
        acc
    }
}

/// Neuron `v` of the transformer held within `0..=64`.
fn clamp_input(v: i16) -> (r: i16)
    ensures
        r == clamp(v as int, 0, 64),
{
    if v < 0 {
        0
    } else if v > 64 {
        64
    } else {
        v
    }
}

/// The network's score from the two transformers of `board`: the side to
/// move's and the other side's.
fn forward(w: &NnueWeights, board: &Board, stm: &Vec<i16>, nstm: &Vec<i16>) -> (r: i32)
    requires
        stm@.len() == FT_SIZE,
        nstm@.len() == FT_SIZE,
        forall|n: int| 0 <= n < FT_SIZE ==> #[trigger] stm@[n] == accumulator(*w, *board, board.to_move, n),
        forall|n: int|
            0 <= n < FT_SIZE ==> #[trigger] nstm@[n] == accumulator(*w, *board, board.to_move.flip(), n),
    ensures
        r == network_score(*w, *board),
        -3_300_000 <= r <= 3_300_000,
{
    proof {
        use_type_invariant(w);
    }
    let mut input: Vec<i16> = Vec::new();
    let mut j: usize = 0;
    while j < FT_SIZE * 2
        invariant
            j <= FT_SIZE * 2,
            stm@.len() == FT_SIZE,
            nstm@.len() == FT_SIZE,
            forall|n: int| 0 <= n < FT_SIZE ==> #[trigger] stm@[n] == accumulator(*w, *board, board.to_move, n),
            forall|n: int|
                0 <= n < FT_SIZE ==> #[trigger] nstm@[n] == accumulator(*w, *board, board.to_move.flip(), n),
            input@.len() == j,
            forall|m: int| 0 <= m < j ==> #[trigger] input@[m] == input_value(*w, *board, m),
            forall|m: int| 0 <= m < j ==> 0 <= #[trigger] input@[m] <= 64,
        decreases FT_SIZE * 2 - j,
    {
        let v = if j < FT_SIZE {
            clamp_input(stm[j])
        } else {
            clamp_input(nstm[j - FT_SIZE])
        };
        input.push(v);
        j = j + 1;
    }
    let mut hidden: Vec<i32> = Vec::new();
    let mut i: usize = 0;
    while i < HIDDEN_SIZE
        invariant
            i <= HIDDEN_SIZE,
            input@.len() == FT_SIZE * 2,
            forall|m: int| 0 <= m < FT_SIZE * 2 ==> #[trigger] input@[m] == input_value(*w, *board, m),
            forall|m: int| 0 <= m < FT_SIZE * 2 ==> 0 <= #[trigger] input@[m] <= 64,
            w.hidden_weight@.len() == HIDDEN_SIZE * FT_SIZE * 2,
            w.hidden_bias@.len() == HIDDEN_SIZE,
            forall|k: int| 0 <= k < w.hidden_weight@.len() ==> -128 <= #[trigger] w.hidden_weight@[k] < 128,
            hidden@.len() == i,
            forall|m: int| 0 <= m < i ==> #[trigger] hidden@[m] == hidden_value(*w, *board, m),
            forall|m: int| 0 <= m < i ==> 0 <= #[trigger] hidden@[m] <= 4096,
        decreases HIDDEN_SIZE - i,
    {
        let mut sum: i64 = w.hidden_bias[i] as i64;
        let mut j: usize = 0;
        while j < FT_SIZE * 2
            invariant
                i < HIDDEN_SIZE,
                j <= FT_SIZE * 2,
                input@.len() == FT_SIZE * 2,
                forall|m: int| 0 <= m < FT_SIZE * 2 ==> #[trigger] input@[m] == input_value(*w, *board, m),
                forall|m: int| 0 <= m < FT_SIZE * 2 ==> 0 <= #[trigger] input@[m] <= 64,
                w.hidden_weight@.len() == HIDDEN_SIZE * FT_SIZE * 2,
                w.hidden_bias@.len() == HIDDEN_SIZE,
                forall|k: int| 0 <= k < w.hidden_weight@.len() ==> -128 <= #[trigger] w.hidden_weight@[k] < 128,
                sum == w.hidden_bias@[i as int] + dot_upto(*w, *board, i as int, j as int),
                -8192 * j <= dot_upto(*w, *board, i as int, j as int) <= 8192 * j,
            decreases FT_SIZE * 2 - j,
        {
            proof {
                assert(i * 512 + j < 4096) by (nonlinear_arith)
                    requires
                        i < 8,
                        j < 512,
                ;
            }
            let hw = w.hidden_weight[i * 512 + j];
            let x = input[j];
            proof {
                assert(-8192 <= hw * x <= 8192) by (nonlinear_arith)
                    requires
                        -128 <= hw < 128,
                        0 <= x <= 64,
                ;
            }
            sum = sum + hw as i64 * x as i64;
            j = j + 1;
        }
        let h = wrap_i32(sum);
        let hc: i32 = if h < 0 {
            0
        } else if h > 4096 {
            4096
        } else {
            h
        };
        hidden.push(hc);
        i = i + 1;
    }
    let mut out: i64 = w.output_bias as i64;
    let mut i: usize = 0;
    while i < HIDDEN_SIZE
        invariant
            i <= HIDDEN_SIZE,
            hidden@.len() == HIDDEN_SIZE,
            forall|m: int| 0 <= m < HIDDEN_SIZE ==> #[trigger] hidden@[m] == hidden_value(*w, *board, m),
            forall|m: int| 0 <= m < HIDDEN_SIZE ==> 0 <= #[trigger] hidden@[m] <= 4096,
            w.output_weight@.len() == HIDDEN_SIZE,
            forall|k: int| 0 <= k < w.output_weight@.len() ==> -128 <= #[trigger] w.output_weight@[k] < 128,
            out == output_upto(*w, *board, i as int),
            -524288 * i <= out - w.output_bias <= 524288 * i,
        decreases HIDDEN_SIZE - i,
    {
        let ow = w.output_weight[i];
        let hv = hidden[i];
        proof {
            assert(-524288 <= ow * hv <= 524288) by (nonlinear_arith)
                requires
                    -128 <= ow < 128,
                    0 <= hv <= 4096,
            ;
        }
        out = out + ow as i64 * hv as i64;
        i = i + 1;
    }
    let v = out * 400;
    let q: i64 = if v >= 0 {
        v / 262144
    } else {
        -((-v) / 262144)
    };
    q as i32
}

impl Evaluator for NnueEvaluator {
    open spec fn value(&self, b: Board) -> int {
        nnue_eval_spec(self.weights(), b)
    }

    fn evaluate(&self, board: &Board) -> (s: Score)
        ensures
            s == nnue_eval_spec(self.weights(), *board),
    {
        let w: &NnueWeights = &*self.weights;
        let stm = Self::accumulate(w, board, board.to_move);
        let nstm = Self::accumulate(w, board, board.to_move.opposite());
        let nn = forward(w, board, &stm, &nstm);
        let mat = material_sum(board, board.to_move) - material_sum(board, board.to_move.opposite());
        let v = nn * 4 + mat;
        if v >= 0 {
            v / 5
        } else {
            -((-v) / 5)
        }
    }

    fn name(&self) -> &str {
        "nnue-v3"
    }
}

} // verus!
