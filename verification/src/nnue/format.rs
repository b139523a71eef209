use vstd::prelude::*;
use crate::engine::eval::nnue::{le_i16, le_i32, le_u32, byte_i8, read_i16, read_i32, read_i8};
use crate::nnue::{NNUE, FEATURE_SIZE, HIDDEN_SIZE_1, HIDDEN_SIZE_2, HIDDEN_SIZE_3};

verus! {

/// The first four bytes of a network file, "PLC2".
pub const NETWORK_MAGIC: [u8; 4] = [80u8, 76u8, 67u8, 50u8];

/// Where the feature weights start: after the magic and the three scales.
pub const FEATURE_WEIGHTS_AT: usize = 16;

/// Where the feature biases start.
pub const FEATURE_BIAS_AT: usize = 786448;

/// Where the first hidden weights start.
pub const HIDDEN1_WEIGHTS_AT: usize = 788496;

/// Where the first hidden biases start.
pub const HIDDEN1_BIAS_AT: usize = 919568;

/// Where the second hidden weights start.
pub const HIDDEN2_WEIGHTS_AT: usize = 920080;

/// Where the second hidden biases start.
pub const HIDDEN2_BIAS_AT: usize = 952848;

/// Where the output weights start.
pub const OUTPUT_WEIGHTS_AT: usize = 953104;

/// Where the output bias stands.
pub const OUTPUT_BIAS_AT: usize = 953232;

/// The length of a complete network file.
pub const NETWORK_LEN: usize = 953236;

/// Why a network file is refused: it ends too early, or does not start
/// with the magic.
#[derive(Debug, Clone, Copy, PartialEq, Eq, Structural)]
pub enum NnueFileError {
    Truncated,
    BadHeader,
}

/// The two little-endian bytes of a 16-bit number in two's complement.
pub open spec fn bytes16(x: int) -> Seq<u8> {
    let u = if x < 0 {
        x + 0x1_0000
    } else {
        x
    };
    seq![(u % 256) as u8, (u / 256) as u8]
}

/// The four little-endian bytes of a 32-bit number in two's complement.
pub open spec fn bytes32(x: int) -> Seq<u8> {
    let u = if x < 0 {
        x + 0x1_0000_0000
    } else {
        x
    };
    seq![(u % 256) as u8, ((u / 256) % 256) as u8, ((u / 256 / 256) % 256) as u8, (u / 256 / 256 / 256) as u8]
}

/// The byte of an 8-bit number in two's complement.
pub open spec fn byte8(x: i8) -> u8 {
    if x < 0 {
        (x + 256) as u8
    } else {
        x as u8
    }
}

/// 16-bit numbers written one after the other.
pub open spec fn enc16s(v: Seq<i16>) -> Seq<u8>
    decreases v.len(),
{
    if v.len() == 0 {
        Seq::empty()
    } else {
        enc16s(v.drop_last()) + bytes16(v.last() as int)
    }
}

/// 32-bit numbers written one after the other.
pub open spec fn enc32s(v: Seq<i32>) -> Seq<u8>
    decreases v.len(),
{
    if v.len() == 0 {
        Seq::empty()
    } else {
        enc32s(v.drop_last()) + bytes32(v.last() as int)
    }
}

/// 8-bit numbers written one after the other.
pub open spec fn enc8s(v: Seq<i8>) -> Seq<u8> {
    v.map_values(|x: i8| byte8(x))
}

/// The file of a network: the magic, the feature, hidden and output
/// scales, then the weights and biases of each layer, every number little
/// endian.
pub open spec fn network_bytes(n: NNUE) -> Seq<u8> {
    seq![80u8, 76u8, 67u8, 50u8] + bytes32(n.feature_scale as int) + bytes32(n.hidden_scale as int) + bytes32(
        n.output_scale as int,
    ) + enc16s(n.feature_weights@) + enc32s(n.feature_bias@) + enc8s(n.hidden1_weights@) + enc16s(
        n.hidden1_bias@,
    ) + enc8s(n.hidden2_weights@) + enc16s(n.hidden2_bias@) + enc8s(n.output_weights@) + bytes32(
        n.output_bias as int,
    )
}

/// `d` starts with the magic.
pub open spec fn header_is(d: Seq<u8>) -> bool {
    d.len() >= 4 && d[0] == 80 && d[1] == 76 && d[2] == 67 && d[3] == 50
}

impl NNUE {
    /// Every layer has exactly its size.
    pub open spec fn exact_shape(&self) -> bool {
        &&& self.feature_weights@.len() == FEATURE_SIZE * HIDDEN_SIZE_1
        &&& self.feature_bias@.len() == HIDDEN_SIZE_1
        &&& self.hidden1_weights@.len() == HIDDEN_SIZE_1 * HIDDEN_SIZE_2
        &&& self.hidden1_bias@.len() == HIDDEN_SIZE_2
        &&& self.hidden2_weights@.len() == HIDDEN_SIZE_2 * HIDDEN_SIZE_3
        &&& self.hidden2_bias@.len() == HIDDEN_SIZE_3
        &&& self.output_weights@.len() == HIDDEN_SIZE_3
    }

    /// The network is the one written at the start of `d`: each number read
    /// little endian at its place.
    pub open spec fn read_from(&self, d: Seq<u8>) -> bool {
        &&& self.exact_shape()
        &&& self.feature_scale == le_i32(d, 4)
        &&& self.hidden_scale == le_i32(d, 8)
        &&& self.output_scale == le_i32(d, 12)
        &&& forall|k: int|
            0 <= k < FEATURE_SIZE * HIDDEN_SIZE_1 ==> #[trigger] self.feature_weights@[k] == le_i16(
                d,
                FEATURE_WEIGHTS_AT + 2 * k,
            )
        &&& forall|k: int|
            0 <= k < HIDDEN_SIZE_1 ==> #[trigger] self.feature_bias@[k] == le_i32(d, FEATURE_BIAS_AT + 4 * k)
        &&& forall|k: int|
            0 <= k < HIDDEN_SIZE_1 * HIDDEN_SIZE_2 ==> #[trigger] self.hidden1_weights@[k] == byte_i8(
                d[HIDDEN1_WEIGHTS_AT + k],
            )
        &&& forall|k: int|
            0 <= k < HIDDEN_SIZE_2 ==> #[trigger] self.hidden1_bias@[k] == le_i16(d, HIDDEN1_BIAS_AT + 2 * k)
        &&& forall|k: int|
            0 <= k < HIDDEN_SIZE_2 * HIDDEN_SIZE_3 ==> #[trigger] self.hidden2_weights@[k] == byte_i8(
                d[HIDDEN2_WEIGHTS_AT + k],
            )
        &&& forall|k: int|
            0 <= k < HIDDEN_SIZE_3 ==> #[trigger] self.hidden2_bias@[k] == le_i16(d, HIDDEN2_BIAS_AT + 2 * k)
        &&& forall|k: int|
            0 <= k < HIDDEN_SIZE_3 ==> #[trigger] self.output_weights@[k] == byte_i8(d[OUTPUT_WEIGHTS_AT + k])
        &&& self.output_bias == le_i32(d, OUTPUT_BIAS_AT as int)
    }
}

/// Appends the bytes of a 16-bit number.
fn push16(out: &mut Vec<u8>, x: i16)
    ensures
        final(out)@ == old(out)@ + bytes16(x as int),
{
    let u: u32 = if x < 0 {
        (x as i32 + 0x1_0000) as u32
    } else {
        x as u32
    };
    out.push((u % 256) as u8);
    out.push((u / 256) as u8);
    proof {
        assert(out@ =~= old(out)@ + bytes16(x as int));
    }
}

/// Appends the bytes of a 32-bit number.
fn push32(out: &mut Vec<u8>, x: i32)
    ensures
        final(out)@ == old(out)@ + bytes32(x as int),
{
    let u: u64 = if x < 0 {
        (x as i64 + 0x1_0000_0000) as u64
    } else {
        x as u64
    };
    out.push((u % 256) as u8);
    out.push(((u / 256) % 256) as u8);
    out.push(((u / 256 / 256) % 256) as u8);
    out.push((u / 256 / 256 / 256) as u8);
    proof {
        assert(out@ =~= old(out)@ + bytes32(x as int));
    }
}

/// Appends the bytes of 16-bit numbers.
fn push16s(out: &mut Vec<u8>, v: &Vec<i16>)
    ensures
        final(out)@ == old(out)@ + enc16s(v@),
{
    let mut i: usize = 0;
    while i < v.len()
        invariant
            i <= v.len(),
            out@ == old(out)@ + enc16s(v@.subrange(0, i as int)),
        decreases v.len() - i,
    {
        proof {
            assert(v@.subrange(0, i + 1).drop_last() =~= v@.subrange(0, i as int));
        }
        push16(out, v[i]);
        i = i + 1;
        proof {
            assert(out@ =~= old(out)@ + enc16s(v@.subrange(0, i as int)));
        }
    }
    proof {
        assert(v@.subrange(0, v.len() as int) =~= v@);
    }
}

/// Appends the bytes of 32-bit numbers.
fn push32s(out: &mut Vec<u8>, v: &Vec<i32>)
    ensures
        final(out)@ == old(out)@ + enc32s(v@),
{
    let mut i: usize = 0;
    while i < v.len()
        invariant
            i <= v.len(),
            out@ == old(out)@ + enc32s(v@.subrange(0, i as int)),
        decreases v.len() - i,
    {
        proof {
            assert(v@.subrange(0, i + 1).drop_last() =~= v@.subrange(0, i as int));
        }
        push32(out, v[i]);
        i = i + 1;
        proof {
            assert(out@ =~= old(out)@ + enc32s(v@.subrange(0, i as int)));
        }
    }
    proof {
        assert(v@.subrange(0, v.len() as int) =~= v@);
    }
}

/// Appends the bytes of 8-bit numbers.
fn push8s(out: &mut Vec<u8>, v: &Vec<i8>)
    ensures
        final(out)@ == old(out)@ + enc8s(v@),
{
    let mut i: usize = 0;
    while i < v.len()
        invariant
            i <= v.len(),
            out@ == old(out)@ + enc8s(v@.subrange(0, i as int)),
        decreases v.len() - i,
    {
        let x = v[i];
        let b: u8 = if x < 0 {
            (x as i16 + 256) as u8
        } else {
            x as u8
        };
        out.push(b);
        i = i + 1;
        proof {
            assert(out@ =~= old(out)@ + enc8s(v@.subrange(0, i as int)));
        }
    }
    proof {
        assert(v@.subrange(0, v.len() as int) =~= v@);
    }
}

/// `len` 16-bit numbers read from `d` at `at`.
fn read16s(d: &[u8], at: usize, len: usize) -> (v: Vec<i16>)
    requires
        at + 2 * len <= d@.len(),
    ensures
        v@.len() == len,
        forall|k: int| 0 <= k < len ==> #[trigger] v@[k] == le_i16(d@, at + 2 * k),
{
    let dl = d.len();
    let mut v: Vec<i16> = Vec::new();
    let mut i: usize = 0;
    while i < len
        invariant
            i <= len,
            at + 2 * len <= d@.len(),
            d@.len() == dl,
            v@.len() == i,
            forall|k: int| 0 <= k < i ==> #[trigger] v@[k] == le_i16(d@, at + 2 * k),
        decreases len - i,
    {
        v.push(read_i16(d, at + 2 * i));
        i = i + 1;
    }
    v
}

/// `len` 32-bit numbers read from `d` at `at`.
fn read32s(d: &[u8], at: usize, len: usize) -> (v: Vec<i32>)
    requires
        at + 4 * len <= d@.len(),
    ensures
        v@.len() == len,
        forall|k: int| 0 <= k < len ==> #[trigger] v@[k] == le_i32(d@, at + 4 * k),
{
    let dl = d.len();
    let mut v: Vec<i32> = Vec::new();
    let mut i: usize = 0;
    while i < len
        invariant
            i <= len,
            at + 4 * len <= d@.len(),
            d@.len() == dl,
            v@.len() == i,
            forall|k: int| 0 <= k < i ==> #[trigger] v@[k] == le_i32(d@, at + 4 * k),
        decreases len - i,
    {
        v.push(read_i32(d, at + 4 * i));
        i = i + 1;
    }
    v
}

/// `len` 8-bit numbers read from `d` at `at`.
fn read8s(d: &[u8], at: usize, len: usize) -> (v: Vec<i8>)
    requires
        at + len <= d@.len(),
    ensures
        v@.len() == len,
        forall|k: int| 0 <= k < len ==> #[trigger] v@[k] == byte_i8(d@[at + k]),
{
    let dl = d.len();
    let mut v: Vec<i8> = Vec::new();
    let mut i: usize = 0;
    while i < len
        invariant
            i <= len,
            at + len <= d@.len(),
            d@.len() == dl,
            v@.len() == i,
            forall|k: int| 0 <= k < i ==> #[trigger] v@[k] == byte_i8(d@[at + k]),
        decreases len - i,
    {
        let x = read_i8(d, at + i);
        v.push(x as i8);
        i = i + 1;
    }
    v
}

impl NNUE {
    /// The bytes of the network's file (see `network_bytes`).
    pub fn to_bytes(&self) -> (r: Vec<u8>)
        ensures
            r@ == network_bytes(*self),
    {
        let mut out: Vec<u8> = Vec::new();
        out.push(80);
        out.push(76);
        out.push(67);
        out.push(50);
        proof {
            assert(out@ =~= seq![80u8, 76u8, 67u8, 50u8]);
        }
        push32(&mut out, self.feature_scale);
        push32(&mut out, self.hidden_scale);
        push32(&mut out, self.output_scale);
        push16s(&mut out, &self.feature_weights);
        push32s(&mut out, &self.feature_bias);
        push8s(&mut out, &self.hidden1_weights);
        push16s(&mut out, &self.hidden1_bias);
        push8s(&mut out, &self.hidden2_weights);
        push16s(&mut out, &self.hidden2_bias);
        push8s(&mut out, &self.output_weights);
        push32(&mut out, self.output_bias);
        out
    }

    /// Reads a network from the bytes of a file: refused as truncated
    /// when shorter than the magic, as a bad header when the magic differs,
    /// as truncated again when shorter than a complete network.
    pub fn from_bytes(data: &[u8]) -> (r: Result<NNUE, NnueFileError>)
        ensures
            match r {
                Ok(n) => header_is(data@) && data@.len() >= NETWORK_LEN && n.read_from(data@),
                Err(e) => !(header_is(data@) && data@.len() >= NETWORK_LEN) && e == (if data@.len() < 4 {
                    NnueFileError::Truncated
                } else if !header_is(data@) {
                    NnueFileError::BadHeader
                } else {
                    NnueFileError::Truncated
                }),
            },
    {
        if data.len() < 4 {
            return Err(NnueFileError::Truncated);
        }
        if !(data[0] == 80 && data[1] == 76 && data[2] == 67 && data[3] == 50) {
            return Err(NnueFileError::BadHeader);
        }
        if data.len() < NETWORK_LEN {
            return Err(NnueFileError::Truncated);
        }
        let feature_scale = read_i32(data, 4);
        let hidden_scale = read_i32(data, 8);
        let output_scale = read_i32(data, 12);
        let feature_weights = read16s(data, FEATURE_WEIGHTS_AT, FEATURE_SIZE * HIDDEN_SIZE_1);
        let feature_bias = read32s(data, FEATURE_BIAS_AT, HIDDEN_SIZE_1);
        let hidden1_weights = read8s(data, HIDDEN1_WEIGHTS_AT, HIDDEN_SIZE_1 * HIDDEN_SIZE_2);
        let hidden1_bias = read16s(data, HIDDEN1_BIAS_AT, HIDDEN_SIZE_2);
        let hidden2_weights = read8s(data, HIDDEN2_WEIGHTS_AT, HIDDEN_SIZE_2 * HIDDEN_SIZE_3);
        let hidden2_bias = read16s(data, HIDDEN2_BIAS_AT, HIDDEN_SIZE_3);
        let output_weights = read8s(data, OUTPUT_WEIGHTS_AT, HIDDEN_SIZE_3);
        let output_bias = read_i32(data, OUTPUT_BIAS_AT);
        Ok(
            NNUE {
                feature_weights,
                feature_bias,
                hidden1_weights,
                hidden1_bias,
                hidden2_weights,
                hidden2_bias,
                output_weights,
                output_bias,
                feature_scale,
                hidden_scale,
                output_scale,
            },
        )
    }
}

/// Two networks with the same layers, biases and scales.
pub open spec fn same_network(n: NNUE, m: NNUE) -> bool {
    &&& n.feature_weights@ == m.feature_weights@
    &&& n.feature_bias@ == m.feature_bias@
    &&& n.hidden1_weights@ == m.hidden1_weights@
    &&& n.hidden1_bias@ == m.hidden1_bias@
    &&& n.hidden2_weights@ == m.hidden2_weights@
    &&& n.hidden2_bias@ == m.hidden2_bias@
    &&& n.output_weights@ == m.output_weights@
    &&& n.output_bias == m.output_bias
    &&& n.feature_scale == m.feature_scale
    &&& n.hidden_scale == m.hidden_scale
    &&& n.output_scale == m.output_scale
}

/// The bytes of the `k`th 16-bit number stand at `2k`.
proof fn lemma_enc16s(v: Seq<i16>)
    ensures
        enc16s(v).len() == 2 * v.len(),
        forall|k: int|
            #![trigger v[k]]
            0 <= k < v.len() ==> enc16s(v)[2 * k] == bytes16(v[k] as int)[0] && enc16s(v)[2 * k + 1] == bytes16(
                v[k] as int,
            )[1],
    decreases v.len(),
{
    if v.len() > 0 {
        lemma_enc16s(v.drop_last());
        assert forall|k: int|
            #![trigger v[k]]
            0 <= k < v.len() implies enc16s(v)[2 * k] == bytes16(v[k] as int)[0] && enc16s(v)[2 * k + 1] == bytes16(
                v[k] as int,
            )[1] by {
            if k < v.len() - 1 {
                assert(v.drop_last()[k] == v[k]);
            }
        }
    }
}

/// The bytes of the `k`th 32-bit number stand at `4k`.
proof fn lemma_enc32s(v: Seq<i32>)
    ensures
        enc32s(v).len() == 4 * v.len(),
        forall|k: int|
            #![trigger v[k]]
            0 <= k < v.len() ==> enc32s(v)[4 * k] == bytes32(v[k] as int)[0] && enc32s(v)[4 * k + 1] == bytes32(
                v[k] as int,
            )[1] && enc32s(v)[4 * k + 2] == bytes32(v[k] as int)[2] && enc32s(v)[4 * k + 3] == bytes32(
                v[k] as int,
            )[3],
    decreases v.len(),
{
    if v.len() > 0 {
        lemma_enc32s(v.drop_last());
        assert forall|k: int|
            #![trigger v[k]]
            0 <= k < v.len() implies enc32s(v)[4 * k] == bytes32(v[k] as int)[0] && enc32s(v)[4 * k + 1] == bytes32(
                v[k] as int,
            )[1] && enc32s(v)[4 * k + 2] == bytes32(v[k] as int)[2] && enc32s(v)[4 * k + 3] == bytes32(
                v[k] as int,
            )[3] by {
            if k < v.len() - 1 {
                assert(v.drop_last()[k] == v[k]);
            }
        }
    }
}

/// Reading back the bytes of a 16-bit number gives the number.
proof fn lemma_le16(x: i16, d: Seq<u8>, o: int)
    requires
        0 <= o,
        o + 1 < d.len(),
        d[o] == bytes16(x as int)[0],
        d[o + 1] == bytes16(x as int)[1],
    ensures
        le_i16(d, o) == x,
{
}

/// Reading back the bytes of a 32-bit number gives the number.
proof fn lemma_le32(x: i32, d: Seq<u8>, o: int)
    requires
        0 <= o,
        o + 3 < d.len(),
        d[o] == bytes32(x as int)[0],
        d[o + 1] == bytes32(x as int)[1],
        d[o + 2] == bytes32(x as int)[2],
        d[o + 3] == bytes32(x as int)[3],
    ensures
        le_i32(d, o) == x,
{
    let u = if x < 0 {
        x + 0x1_0000_0000
    } else {
        x as int
    };
    assert(u == u % 256 + 256 * ((u / 256) % 256) + 65536 * ((u / 256 / 256) % 256) + 16777216 * (u / 256
        / 256 / 256));
}

/// What a network of the right shape writes is a complete file with the
/// magic, from which that very network is read.
pub proof fn lemma_bytes_read_back(n: NNUE)
    requires
        n.exact_shape(),
    ensures
        network_bytes(n).len() == NETWORK_LEN,
        header_is(network_bytes(n)),
        n.read_from(network_bytes(n)),
{
    let fw = n.feature_weights@;
    let fb = n.feature_bias@;
    let h1w = n.hidden1_weights@;
    let h1b = n.hidden1_bias@;
    let h2w = n.hidden2_weights@;
    let h2b = n.hidden2_bias@;
    let ow = n.output_weights@;
    lemma_enc16s(fw);
    lemma_enc32s(fb);
    lemma_enc16s(h1b);
    lemma_enc16s(h2b);
    let p3 = seq![80u8, 76u8, 67u8, 50u8] + bytes32(n.feature_scale as int) + bytes32(n.hidden_scale as int) + bytes32(
        n.output_scale as int,
    );
    let p4 = p3 + enc16s(fw);
    let p5 = p4 + enc32s(fb);
    let p6 = p5 + enc8s(h1w);
    let p7 = p6 + enc16s(h1b);
    let p8 = p7 + enc8s(h2w);
    let p9 = p8 + enc16s(h2b);
    let p10 = p9 + enc8s(ow);
    let d = p10 + bytes32(n.output_bias as int);
    assert(d == network_bytes(n));
    assert(p3.len() == 16);
    assert(p4.len() == FEATURE_BIAS_AT);
    assert(p5.len() == HIDDEN1_WEIGHTS_AT);
    assert(p6.len() == HIDDEN1_BIAS_AT);
    assert(p7.len() == HIDDEN2_WEIGHTS_AT);
    assert(p8.len() == HIDDEN2_BIAS_AT);
    assert(p9.len() == OUTPUT_WEIGHTS_AT);
    assert(p10.len() == OUTPUT_BIAS_AT);
    assert(d[0] == 80 && d[1] == 76 && d[2] == 67 && d[3] == 50);
    lemma_le32(n.feature_scale, d, 4);
    lemma_le32(n.hidden_scale, d, 8);
    lemma_le32(n.output_scale, d, 12);
    lemma_le32(n.output_bias, d, OUTPUT_BIAS_AT as int);
    assert forall|k: int| 0 <= k < FEATURE_SIZE * HIDDEN_SIZE_1 implies #[trigger] fw[k] == le_i16(
        d,
        FEATURE_WEIGHTS_AT + 2 * k,
    ) by {
        assert(fw[k] == fw[k]);
        assert(d[16 + 2 * k] == p4[16 + 2 * k]);
        assert(d[16 + 2 * k + 1] == p4[16 + 2 * k + 1]);
        lemma_le16(fw[k], d, 16 + 2 * k);
    }
    assert forall|k: int| 0 <= k < HIDDEN_SIZE_1 implies #[trigger] fb[k] == le_i32(d, FEATURE_BIAS_AT + 4 * k) by {
        assert(fb[k] == fb[k]);
        let o = FEATURE_BIAS_AT + 4 * k;
        assert(d[o] == p5[o] && d[o + 1] == p5[o + 1] && d[o + 2] == p5[o + 2] && d[o + 3] == p5[o + 3]);
        lemma_le32(fb[k], d, o);
    }
    assert forall|k: int| 0 <= k < HIDDEN_SIZE_1 * HIDDEN_SIZE_2 implies #[trigger] h1w[k] == byte_i8(
        d[HIDDEN1_WEIGHTS_AT + k],
    ) by {
        assert(d[HIDDEN1_WEIGHTS_AT + k] == p6[HIDDEN1_WEIGHTS_AT + k]);
    }
    assert forall|k: int| 0 <= k < HIDDEN_SIZE_2 implies #[trigger] h1b[k] == le_i16(d, HIDDEN1_BIAS_AT + 2 * k) by {
        assert(h1b[k] == h1b[k]);
        let o = HIDDEN1_BIAS_AT + 2 * k;
        assert(d[o] == p7[o] && d[o + 1] == p7[o + 1]);
        lemma_le16(h1b[k], d, o);
    }
    assert forall|k: int| 0 <= k < HIDDEN_SIZE_2 * HIDDEN_SIZE_3 implies #[trigger] h2w[k] == byte_i8(
        d[HIDDEN2_WEIGHTS_AT + k],
    ) by {
        assert(d[HIDDEN2_WEIGHTS_AT + k] == p8[HIDDEN2_WEIGHTS_AT + k]);
    }
    assert forall|k: int| 0 <= k < HIDDEN_SIZE_3 implies #[trigger] h2b[k] == le_i16(d, HIDDEN2_BIAS_AT + 2 * k) by {
        assert(h2b[k] == h2b[k]);
        let o = HIDDEN2_BIAS_AT + 2 * k;
        assert(d[o] == p9[o] && d[o + 1] == p9[o + 1]);
        lemma_le16(h2b[k], d, o);
    }
    assert forall|k: int| 0 <= k < HIDDEN_SIZE_3 implies #[trigger] ow[k] == byte_i8(d[OUTPUT_WEIGHTS_AT + k]) by {
        assert(d[OUTPUT_WEIGHTS_AT + k] == p10[OUTPUT_WEIGHTS_AT + k]);
    }
}

/// Loading a saved network gives it back: whatever network is read from
/// the bytes a network of the right shape writes has its layers, biases
/// and scales.
pub proof fn lemma_save_load_roundtrip(n: NNUE, m: NNUE)
    requires
        n.exact_shape(),
        m.read_from(network_bytes(n)),
    ensures
        same_network(n, m),
{
    lemma_bytes_read_back(n);
    assert(n.feature_weights@ =~= m.feature_weights@);
    assert(n.feature_bias@ =~= m.feature_bias@);
    assert(n.hidden1_weights@ =~= m.hidden1_weights@);
    assert(n.hidden1_bias@ =~= m.hidden1_bias@);
    assert(n.hidden2_weights@ =~= m.hidden2_weights@);
    assert(n.hidden2_bias@ =~= m.hidden2_bias@);
    assert(n.output_weights@ =~= m.output_weights@);
}

} // verus!
