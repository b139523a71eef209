use vstd::prelude::*;
use vstd::std_specs::bits::{u64_trailing_zeros, u64_leading_zeros, axiom_u64_trailing_zeros};
use crate::bits::{bit, sq_in, squares, pop, group_bits, lemma_lowest_bit, lemma_squares_finite};
use crate::types::Bitboard;

verus! {

broadcast use group_bits;

/// Removing the lowest square of a non-empty bitboard.
pub proof fn lemma_clear_lowest(x: u64)
    requires
        x != 0,
    ensures
        u64_trailing_zeros(x) < 64,
        sq_in(x, u64_trailing_zeros(x) as int),
        squares(x & ((x - 1u64) as u64)) == squares(x).remove(u64_trailing_zeros(x) as int),
        pop(x & ((x - 1u64) as u64)) + 1 == pop(x),
        x & ((x - 1u64) as u64) < x,
        forall|i: int| 0 <= i < u64_trailing_zeros(x) ==> !#[trigger] sq_in(x, i),
        forall|i: int|
            #[trigger] sq_in(x & ((x - 1u64) as u64), i) == (sq_in(x, i) && i != u64_trailing_zeros(x) as int),
{
    lemma_lowest_bit(x);
    let t = u64_trailing_zeros(x) as int;
    let y = x & ((x - 1u64) as u64);
    assert(squares(y) =~= squares(x).remove(t)) by {
        assert forall|i: int| squares(y).contains(i) == squares(x).remove(t).contains(i) by {
            if 0 <= i < 64 {
                assert(bit(y, i as u64) == (bit(x, i as u64) && i as u64 != t as u64));
            }
        }
    }
    lemma_squares_finite(x);
    assert forall|i: int| #[trigger] sq_in(y, i) == (sq_in(x, i) && i != t) by {
        if 0 <= i < 64 {
            assert(bit(y, i as u64) == (bit(x, i as u64) && i as u64 != t as u64));
        }
    }
    assert forall|i: int| 0 <= i < t implies !#[trigger] sq_in(x, i) by {
        assert(!bit(x, i as u64));
    }
}

/// Counts the set bits of a bitboard.
pub fn popcount(bb: Bitboard) -> (r: u32)
    ensures
        r == pop(bb),
{
    let mut b = bb;
    let mut count: u32 = 0;
    proof {
        lemma_squares_finite(bb);
    }
    while b != 0
        invariant
            count + pop(b) == pop(bb),
            pop(bb) <= 64,
        decreases b,
    {
        proof {
            lemma_clear_lowest(b);
        }
        b = b & (b - 1);
        count = count + 1;
    }
    proof {
        assert(squares(0u64) =~= Set::<int>::empty()) by {
            assert forall|i: int| !squares(0u64).contains(i) by {
                if 0 <= i < 64 {
                    assert(!bit(0u64, i as u64));
                }
            }
        }
    }
    count
}

/// The index of the lowest set bit (64 for an empty bitboard).
pub fn trailing_zeros(bb: Bitboard) -> (r: u32)
    ensures
        r == u64_trailing_zeros(bb),
{
    bb.trailing_zeros()
}

/// The number of leading zero bits (64 for an empty bitboard).
pub fn leading_zeros(bb: Bitboard) -> (r: u32)
    ensures
        r == u64_leading_zeros(bb),
{
    bb.leading_zeros()
}

/// Removes the lowest square of `bb` and returns its index.
pub fn pop_lsb(bb: &mut Bitboard) -> (r: u32)
    requires
        *old(bb) != 0,
    ensures
        r == u64_trailing_zeros(*old(bb)),
        r < 64,
        sq_in(*old(bb), r as int),
        squares(*final(bb)) == squares(*old(bb)).remove(r as int),
{
    let lsb_index = trailing_zeros(*bb);
    proof {
        lemma_clear_lowest(*bb);
    }
    *bb = *bb & (*bb - 1);
    lsb_index
}

/// The lowest set bit alone (0 for an empty bitboard).
pub fn isolate_lsb(bb: Bitboard) -> (r: Bitboard)
    ensures
        bb == 0 ==> r == 0,
        bb != 0 ==> r == 1u64 << u64_trailing_zeros(bb),
{
    if bb == 0 {
        return 0;
    }
    proof {
        axiom_u64_trailing_zeros(bb);
        let t = u64_trailing_zeros(bb) as u64;
        assert((t < 64 && bb != 0 && (bb >> t) & 1u64 == 1u64 && bb << ((64u64 - t) as u64) == 0u64)
            ==> bb & ((0u64 - bb + 0x1_0000_0000_0000_0000) as u64) == 1u64 << t) by (bit_vector);
    }
    bb & 0u64.wrapping_sub(bb)
}

/// The bitboard without its lowest set bit (0 stays 0).
pub fn reset_lsb(bb: Bitboard) -> (r: Bitboard)
    ensures
        bb == 0 ==> r == 0,
        bb != 0 ==> squares(r) == squares(bb).remove(u64_trailing_zeros(bb) as int),
        bb != 0 ==> r < bb,
{
    if bb == 0 {
        0
    } else {
        proof {
            lemma_clear_lowest(bb);
        }
        bb & (bb - 1)
    }
}

/// The bitboard has exactly one set bit.
pub fn is_single_bit(bb: Bitboard) -> (r: bool)
    ensures
        r == (pop(bb) == 1),
{
    if bb == 0 {
        proof {
            assert(squares(0u64) =~= Set::<int>::empty()) by {
                assert forall|i: int| !squares(0u64).contains(i) by {
                    if 0 <= i < 64 {
                        assert(!bit(0u64, i as u64));
                    }
                }
            }
        }
        false
    } else {
        proof {
            lemma_clear_lowest(bb);
            let y = bb & ((bb - 1u64) as u64);
            lemma_squares_finite(y);
            if y != 0 {
                lemma_clear_lowest(y);
            } else {
                assert(squares(0u64) =~= Set::<int>::empty()) by {
                    assert forall|i: int| !squares(0u64).contains(i) by {
                        if 0 <= i < 64 {
                            assert(!bit(0u64, i as u64));
                        }
                    }
                }
            }
        }
        (bb & (bb - 1)) == 0
    }
}

/// The bitboard is empty.
pub fn is_empty(bb: Bitboard) -> (r: bool)
    ensures
        r == (bb == 0),
{
    bb == 0
}

/// The bitboard is not empty.
pub fn is_not_empty(bb: Bitboard) -> (r: bool)
    ensures
        r == (bb != 0),
{
    bb != 0
}

/// The bits of `occ` at the set bits of `mask`, packed from the lowest
/// set bit of `mask` up.
pub open spec fn pext_spec(occ: u64, mask: u64) -> nat
    decreases mask,
{
    if mask == 0 {
        0
    } else {
        proof {
            lemma_lowest_bit(mask);
        }
        (if bit(occ, u64_trailing_zeros(mask) as u64) {
            1nat
        } else {
            0nat
        }) + 2 * pext_spec(occ, mask & ((mask - 1u64) as u64))
    }
}

/// The bits of `source` at the set bits of `mask`, packed from the lowest
/// set bit of `mask` up (a parallel bit extraction).
pub fn parallel_extract(source: Bitboard, mask: Bitboard) -> (r: Bitboard)
    ensures
        r == pext_spec(source, mask),
{
    let mut result: u64 = 0;
    let mut m = mask;
    let mut b: u64 = 0;
    proof {
        lemma_squares_finite(mask);
        vstd::arithmetic::power2::lemma2_to64();
    }
    while m != 0
        invariant
            b + pop(m) == pop(mask),
            pop(mask) <= 64,
            b <= 64,
            result < vstd::arithmetic::power2::pow2(b as nat),
            result + vstd::arithmetic::power2::pow2(b as nat) * pext_spec(source, m) == pext_spec(source, mask),
        decreases m,
    {
        proof {
            lemma_clear_lowest(m);
            lemma_squares_finite(m);
        }
        let low = isolate_lsb(m);
        let ghost t = u64_trailing_zeros(m) as u64;
        proof {
            vstd::arithmetic::power2::lemma_pow2_pos(b as nat);
            vstd::bits::lemma_u64_pow2_no_overflow(b as nat);
            vstd::bits::lemma_u64_shl_is_mul(1, b);
            vstd::arithmetic::power2::lemma_pow2_unfold((b + 1) as nat);
        }
        let ghost old_result = result;
        let ghost rest = m & ((m - 1u64) as u64);
        if (source & low) != 0 {
            let w = 1u64 << b;
            assert(result | w == result + w) by (bit_vector)
                requires
                    result < w,
                    w == 1u64 << b,
                    b < 64,
            ;
            result = result | w;
        }
        proof {
            let p = vstd::arithmetic::power2::pow2(b as nat);
            let bv: nat = if bit(source, t) {
                1
            } else {
                0
            };
            assert((source & low != 0) == bit(source, t));
            assert(pext_spec(source, m) == bv + 2 * pext_spec(source, rest));
            assert(result == old_result + bv * p);
            assert(result + 2 * p * pext_spec(source, rest) == old_result + p * pext_spec(source, m)) by (nonlinear_arith)
                requires
                    result == old_result + bv * p,
                    pext_spec(source, m) == bv + 2 * pext_spec(source, rest),
            ;
        }
        b = b + 1;
        m = m & (m - 1);
    }
    proof {
        assert(pext_spec(source, m) == 0);
        assert(vstd::arithmetic::power2::pow2(b as nat) * pext_spec(source, m) == 0) by (nonlinear_arith)
            requires
                pext_spec(source, m) == 0,
        ;
    }
    result
}

/// The low bits of `src` spread over the set bits of `mask`, from the
/// lowest set bit of `mask` up (a parallel bit deposit).
pub open spec fn pdep_spec(src: u64, mask: u64) -> u64
    decreases mask,
{
    if mask == 0 {
        0
    } else {
        proof {
            lemma_lowest_bit(mask);
        }
        (if src & 1 != 0 {
            1u64 << u64_trailing_zeros(mask)
        } else {
            0u64
        }) | pdep_spec(src >> 1, mask & ((mask - 1u64) as u64))
    }
}

proof fn lemma_or_laws()
    by (bit_vector)
    ensures
        forall|a: u64, b: u64, c: u64| #[trigger] ((a | b) | c) == a | (b | c),
        forall|a: u64| #[trigger] (a | 0u64) == a,
        forall|a: u64| #[trigger] (0u64 | a) == a,
{
}

/// The low bits of `source` placed at the set bits of `mask`, from the
/// lowest up (a parallel bit deposit).
pub fn parallel_deposit(source: Bitboard, mask: Bitboard) -> (r: Bitboard)
    ensures
        r == pdep_spec(source, mask),
{
    let mut result: u64 = 0;
    let mut src = source;
    let mut msk = mask;
    proof {
        lemma_or_laws();
    }
    while msk != 0
        invariant
            result | pdep_spec(src, msk) == pdep_spec(source, mask),
        decreases msk,
    {
        proof {
            lemma_lowest_bit(msk);
            lemma_or_laws();
        }
        let lsb = isolate_lsb(msk);
        let ghost l: u64 = if src & 1 != 0 {
            lsb
        } else {
            0u64
        };
        let ghost old_result = result;
        assert(pdep_spec(src, msk) == l | pdep_spec(src >> 1, msk & ((msk - 1u64) as u64)));
        if (src & 1) != 0 {
            result = result | lsb;
        }
        assert(result == old_result | l);
        src = src >> 1;
        msk = msk & (msk - 1);
    }
    result
}

/// The index of the occupancy of `mask`'s squares in `occupancy`: the bits
/// of `occupancy` at the set bits of `mask`, packed from the lowest (a
/// parallel bit extraction).
pub fn get_occupancy_index(occupancy: Bitboard, mask: Bitboard) -> (r: u64)
    ensures
        r == pext_spec(occupancy & mask, mask),
{
    parallel_extract(occupancy & mask, mask)
}

/// The squares of a bitboard, handed out from the lowest.
pub struct BitboardIterator {
    bb: Bitboard,
}

impl BitboardIterator {
    /// The squares not handed out yet.
    pub closed spec fn remaining(&self) -> Bitboard {
        self.bb
    }

    /// An iterator over the squares of `bb`.
    pub fn new(bb: Bitboard) -> (it: BitboardIterator)
        ensures
            it.remaining() == bb,
    {
        BitboardIterator { bb }
    }

    /// The lowest square not handed out yet, if any, which is then removed.
    pub fn next_square(&mut self) -> (r: Option<u8>)
        ensures
            old(self).remaining() == 0 ==> r is None && final(self).remaining() == 0,
            old(self).remaining() != 0 ==> r == Some(u64_trailing_zeros(old(self).remaining()) as u8)
                && squares(final(self).remaining()) == squares(old(self).remaining()).remove(
                u64_trailing_zeros(old(self).remaining()) as int,
            ) && final(self).remaining() < old(self).remaining(),
    {
        if self.bb == 0 {
            None
        } else {
            proof {
                lemma_clear_lowest(self.bb);
            }
            let square = trailing_zeros(self.bb) as u8;
            self.bb = reset_lsb(self.bb);
            Some(square)
        }
    }

    /// All the remaining squares, lowest first.
    pub fn collect_squares(&mut self) -> (v: Vec<u8>)
        ensures
            final(self).remaining() == 0,
            forall|s: int| #![trigger sq_in(old(self).remaining(), s)] sq_in(old(self).remaining(), s) <==> v@.contains(
                s as u8,
            ) && 0 <= s < 64,
            forall|i: int| 0 <= i < v.len() ==> #[trigger] v@[i] < 64,
            forall|i: int, j: int| 0 <= i < j < v.len() ==> v@[i] < v@[j],
    {
        let ghost start = self.bb;
        let mut v: Vec<u8> = Vec::new();
        while self.bb != 0
            invariant
                forall|i: int| 0 <= i < v.len() ==> #[trigger] v@[i] < 64,
                forall|s: int|
                    #![trigger sq_in(start, s)]
                    0 <= s < 64 ==> (sq_in(start, s) <==> (v@.contains(s as u8) || sq_in(self.bb, s))),
                forall|i: int| 0 <= i < v.len() ==> sq_in(start, #[trigger] v@[i] as int),
                forall|i: int, j: int| 0 <= i < j < v.len() ==> v@[i] < v@[j],
                forall|i: int, s: int| 0 <= i < v.len() && #[trigger] sq_in(self.bb, s) ==> #[trigger] v@[i] < s,
            decreases self.bb,
        {
            let ghost before = self.bb;
            let ghost vb = v@;
            match self.next_square() {
                Some(sq) => {
                    v.push(sq);
                    proof {
                        lemma_clear_lowest(before);
                        assert forall|s: int| #![trigger sq_in(start, s)] 0 <= s < 64 implies (sq_in(start, s) <==> (
                        v@.contains(s as u8) || sq_in(self.bb, s))) by {
                            assert(squares(self.bb).contains(s) == squares(before).remove(sq as int).contains(s));
                            if v@.contains(s as u8) && s as u8 != sq {
                                let k = choose|k: int| 0 <= k < v.len() && v@[k] == s as u8;
                                assert(vb[k] == s as u8);
                            }
                            if vb.contains(s as u8) {
                                let k = choose|k: int| 0 <= k < vb.len() && vb[k] == s as u8;
                                assert(v@[k] == s as u8);
                            }
                            if s as u8 == sq {
                                assert(v@[vb.len() as int] == sq);
                            }
                        }
                        assert forall|i: int| 0 <= i < v.len() implies sq_in(start, #[trigger] v@[i] as int) by {
                            if i < vb.len() {
                                assert(v@[i] == vb[i]);
                            }
                        }
                        assert(sq_in(before, sq as int));
                        assert forall|i: int, j: int| 0 <= i < j < v.len() implies v@[i] < v@[j] by {
                            if j < vb.len() {
                                assert(v@[i] == vb[i] && v@[j] == vb[j]);
                            } else {
                                assert(v@[i] == vb[i]);
                                assert(vb[i] < sq as int);
                            }
                        }
                        assert forall|i: int, s: int| 0 <= i < v.len() && #[trigger] sq_in(self.bb, s) implies #[trigger] v@[i] < s by {
                            assert(squares(self.bb).contains(s) == squares(before).remove(sq as int).contains(s));
                            assert(sq_in(before, s) && s != sq as int);
                            if i < vb.len() {
                                assert(v@[i] == vb[i]);
                            } else {
                                if s < sq as int {
                                    assert(!sq_in(before, s));
                                }
                            }
                        }
                    }
                },
                None => {},
            }
        }
        proof {
            assert forall|s: int| #![trigger sq_in(start, s)] sq_in(start, s) <==> v@.contains(s as u8) && 0 <= s < 64 by {
                if 0 <= s < 64 {
                    assert(!sq_in(0u64, s));
                }
                if v@.contains(s as u8) && 0 <= s < 64 {
                    let k = choose|k: int| 0 <= k < v.len() && v@[k] == s as u8;
                    assert(sq_in(start, v@[k] as int));
                }
            }
        }
        v
    }
}

/// Bit tricks on bitboards.
pub trait BitboardOps {
    /// The squares, lowest first.
    fn iter_squares(self) -> BitboardIterator;

    /// The number of squares.
    fn popcount_fast(self) -> u32;

    /// The lowest square (64 when empty).
    fn lsb_fast(self) -> u32;

    /// The highest square.
    fn msb_fast(self) -> u32;

    /// Exactly one square.
    fn is_single_bit_fast(self) -> bool;

    /// The lowest square alone.
    fn isolate_lsb_fast(self) -> Bitboard;

    /// Without the lowest square.
    fn reset_lsb_fast(self) -> Bitboard;
}

impl BitboardOps for Bitboard {
    fn iter_squares(self) -> (it: BitboardIterator)
        ensures
            it.remaining() == self,
    {
        BitboardIterator::new(self)
    }

    fn popcount_fast(self) -> (r: u32)
        ensures
            r == pop(self),
    {
        popcount(self)
    }

    fn lsb_fast(self) -> (r: u32)
        ensures
            r == u64_trailing_zeros(self),
    {
        trailing_zeros(self)
    }

    /// For an empty bitboard the subtraction wraps (to `u32::MAX`).
    fn msb_fast(self) -> (r: u32)
        ensures
            r == (if u64_leading_zeros(self) <= 63 {
                63 - u64_leading_zeros(self)
            } else {
                u32::MAX as int
            }),
    {
        63u32.wrapping_sub(leading_zeros(self))
    }

    fn is_single_bit_fast(self) -> (r: bool)
        ensures
            r == (pop(self) == 1),
    {
        is_single_bit(self)
    }

    fn isolate_lsb_fast(self) -> (r: Bitboard)
        ensures
            self == 0 ==> r == 0,
            self != 0 ==> r == 1u64 << u64_trailing_zeros(self),
    {
        isolate_lsb(self)
    }

    fn reset_lsb_fast(self) -> (r: Bitboard)
        ensures
            self == 0 ==> r == 0,
            self != 0 ==> squares(r) == squares(self).remove(u64_trailing_zeros(self) as int),
    {
        reset_lsb(self)
    }
}

} // verus!
