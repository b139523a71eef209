use vstd::prelude::*;
use vstd::std_specs::bits::u64_trailing_zeros;
use vstd::std_specs::bits::axiom_u64_trailing_zeros;
use vstd::set_lib::set_int_range;

verus! {

/// Bit `i` of the bitboard `b` is set (`i` counts from a1 = 0 to h8 = 63).
pub open spec fn bit(b: u64, i: u64) -> bool {
    (b >> i) & 1u64 == 1u64
}

/// Square `s` (an integer) is a member of the bitboard `b`.
pub open spec fn sq_in(b: u64, s: int) -> bool {
    0 <= s < 64 && bit(b, s as u64)
}

/// The set of squares of a bitboard.
pub open spec fn squares(b: u64) -> Set<int> {
    Set::new(|s: int| sq_in(b, s))
}

/// The number of squares of a bitboard.
pub open spec fn pop(b: u64) -> nat {
    squares(b).len()
}

/// The bitboard with the single square `s`.
pub open spec fn single(s: int) -> u64 {
    1u64 << (s as u64)
}

pub broadcast proof fn lemma_bit_and(a: u64, b: u64, i: u64)
    requires
        i < 64,
    ensures
        #[trigger] bit(a & b, i) == (bit(a, i) && bit(b, i)),
{
    assert(((a & b) >> i) & 1u64 == 1u64 <==> ((a >> i) & 1u64 == 1u64 && (b >> i) & 1u64
        == 1u64)) by (bit_vector)
        requires
            i < 64,
    ;
}

pub broadcast proof fn lemma_bit_or(a: u64, b: u64, i: u64)
    requires
        i < 64,
    ensures
        #[trigger] bit(a | b, i) == (bit(a, i) || bit(b, i)),
{
    assert(((a | b) >> i) & 1u64 == 1u64 <==> ((a >> i) & 1u64 == 1u64 || (b >> i) & 1u64
        == 1u64)) by (bit_vector)
        requires
            i < 64,
    ;
}

pub broadcast proof fn lemma_bit_not(a: u64, i: u64)
    requires
        i < 64,
    ensures
        #[trigger] bit(!a, i) == !bit(a, i),
{
    assert(((!a) >> i) & 1u64 == 1u64 <==> !((a >> i) & 1u64 == 1u64)) by (bit_vector)
        requires
            i < 64,
    ;
}

pub broadcast proof fn lemma_bit_xor(a: u64, b: u64, i: u64)
    requires
        i < 64,
    ensures
        #[trigger] bit(a ^ b, i) == (bit(a, i) != bit(b, i)),
{
    assert(((a ^ b) >> i) & 1u64 == 1u64 <==> ((a >> i) & 1u64 == 1u64) != ((b >> i) & 1u64
        == 1u64)) by (bit_vector)
        requires
            i < 64,
    ;
}

pub broadcast proof fn lemma_bit_single(s: u64, i: u64)
    requires
        s < 64,
        i < 64,
    ensures
        #[trigger] bit(1u64 << s, i) == (i == s),
{
    assert(((1u64 << s) >> i) & 1u64 == 1u64 <==> i == s) by (bit_vector)
        requires
            s < 64,
            i < 64,
    ;
}

pub broadcast proof fn lemma_bit_zero(i: u64)
    ensures
        !#[trigger] bit(0u64, i),
{
    assert(!((0u64 >> i) & 1u64 == 1u64)) by (bit_vector);
}

/// Testing a square with a one-bit mask.
pub broadcast proof fn lemma_test_square(x: u64, t: u64)
    requires
        t < 64,
    ensures
        (#[trigger] (x & (1u64 << t)) != 0) == bit(x, t),
{
    assert(((x & (1u64 << t)) != 0) == ((x >> t) & 1u64 == 1u64)) by (bit_vector)
        requires
            t < 64,
    ;
}

pub broadcast group group_bits {
    lemma_test_square,
    lemma_bit_and,
    lemma_bit_or,
    lemma_bit_not,
    lemma_bit_xor,
    lemma_bit_single,
    lemma_bit_zero,
}

/// Two bitboards with the same bits are equal.
pub proof fn lemma_bits_ext(a: u64, b: u64)
    requires
        forall|i: u64| i < 64 ==> bit(a, i) == bit(b, i),
    ensures
        a == b,
{
    lemma_low_bits_equal(a, b, 64);
}

proof fn lemma_low_bits_equal(a: u64, b: u64, n: u64)
    requires
        n <= 64,
        forall|i: u64| i < n ==> bit(a, i) == bit(b, i),
    ensures
        n == 64 ==> a == b,
        n < 64 ==> a & ((1u64 << n) - 1u64) as u64 == b & ((1u64 << n) - 1u64) as u64,
    decreases n,
{
    if n == 0 {
        assert(a & ((1u64 << 0u64) - 1u64) as u64 == 0u64 && b & ((1u64 << 0u64) - 1u64) as u64 == 0u64)
            by (bit_vector);
    } else {
        let m = (n - 1) as u64;
        lemma_low_bits_equal(a, b, m);
        assert(bit(a, m) == bit(b, m));
        assert(
            (m < 64 && a & ((1u64 << m) - 1u64) as u64 == b & ((1u64 << m) - 1u64) as u64 && (((a >> m)
                & 1u64 == 1u64) == ((b >> m) & 1u64 == 1u64))) ==> (if m == 63 {
                a == b
            } else {
                a & ((1u64 << ((m + 1u64) as u64)) - 1u64) as u64 == b & ((1u64 << ((m + 1u64) as u64)) - 1u64) as u64
            })) by (bit_vector);
    }
}

/// Facts on the lowest set bit of a non-empty bitboard: the bit is set, and
/// `x & (x - 1)` holds exactly the other bits of `x`, and is smaller.
pub proof fn lemma_lowest_bit(x: u64)
    requires
        x != 0,
    ensures
        u64_trailing_zeros(x) < 64,
        bit(x, u64_trailing_zeros(x) as u64),
        forall|i: u64| #![trigger bit(x & ((x - 1u64) as u64), i)] i < 64 ==> bit(x & ((x - 1u64) as u64), i) == (bit(x, i) && i != u64_trailing_zeros(x) as u64),
        x & ((x - 1u64) as u64) < x,
        forall|i: u64| i < u64_trailing_zeros(x) ==> !bit(x, i),
{
    axiom_u64_trailing_zeros(x);
    let t = u64_trailing_zeros(x) as u64;
    assert forall|i: u64| i < 64 implies bit(x & ((x - 1u64) as u64), i) == (bit(x, i) && i != t) by {
        assert((t < 64 && x != 0 && (x >> t) & 1u64 == 1u64 && x << ((64u64 - t) as u64) == 0u64 && i < 64)
            ==> ((((x & ((x - 1u64) as u64)) >> i) & 1u64 == 1u64) == ((x >> i) & 1u64 == 1u64 && i != t)))
            by (bit_vector);
    }
    assert(x != 0 ==> x & ((x - 1u64) as u64) < x) by (bit_vector);
}

/// Shifting a bitboard left by `k` moves each square `k` places up.
pub proof fn lemma_sq_shl(x: u64, k: u64)
    requires
        k < 64,
    ensures
        forall|t: int| #[trigger] sq_in(x << k, t) == (k <= t < 64 && sq_in(x, t - k)),
{
    assert forall|t: int| #[trigger] sq_in(x << k, t) == (k <= t < 64 && sq_in(x, t - k)) by {
        if 0 <= t < 64 {
            let tu = t as u64;
            assert((((x << k) >> tu) & 1u64 == 1u64) == (tu >= k && ((x >> ((tu - k) as u64)) & 1u64 == 1u64)))
                by (bit_vector)
                requires
                    k < 64,
                    tu < 64,
            ;
        }
    }
}

/// Shifting a bitboard right by `k` moves each square `k` places down.
pub proof fn lemma_sq_shr(x: u64, k: u64)
    requires
        k < 64,
    ensures
        forall|t: int| #[trigger] sq_in(x >> k, t) == (0 <= t && t + k < 64 && sq_in(x, t + k)),
{
    assert forall|t: int| #[trigger] sq_in(x >> k, t) == (0 <= t && t + k < 64 && sq_in(x, t + k)) by {
        if 0 <= t < 64 {
            let tu = t as u64;
            assert((((x >> k) >> tu) & 1u64 == 1u64) == (tu + k < 64 && ((x >> ((tu + k) as u64)) & 1u64 == 1u64)))
                by (bit_vector)
                requires
                    k < 64,
                    tu < 64,
            ;
        }
    }
}

/// All squares but those of the a-file.
pub const NOT_A_FILE: u64 = 0xfefefefefefefefe;

/// All squares but those of the h-file.
pub const NOT_H_FILE: u64 = 0x7f7f7f7f7f7f7f7f;

/// The third rank.
pub const RANK_3: u64 = 0x0000000000FF0000;

/// The sixth rank.
pub const RANK_6: u64 = 0x0000FF0000000000;

/// The squares of the file and rank masks.
pub proof fn lemma_masks()
    ensures
        forall|t: int| #[trigger] sq_in(NOT_A_FILE, t) == (0 <= t < 64 && t % 8 != 0),
        forall|t: int| #[trigger] sq_in(NOT_H_FILE, t) == (0 <= t < 64 && t % 8 != 7),
        forall|t: int| #[trigger] sq_in(RANK_3, t) == (0 <= t < 64 && t / 8 == 2),
        forall|t: int| #[trigger] sq_in(RANK_6, t) == (0 <= t < 64 && t / 8 == 5),
{
    assert forall|t: int| #[trigger] sq_in(NOT_A_FILE, t) == (0 <= t < 64 && t % 8 != 0) by {
        if 0 <= t < 64 {
            let tu = t as u64;
            assert(((0xfefefefefefefefeu64 >> tu) & 1u64 == 1u64) == (tu % 8 != 0)) by (bit_vector)
                requires
                    tu < 64,
            ;
        }
    }
    assert forall|t: int| #[trigger] sq_in(NOT_H_FILE, t) == (0 <= t < 64 && t % 8 != 7) by {
        if 0 <= t < 64 {
            let tu = t as u64;
            assert(((0x7f7f7f7f7f7f7f7fu64 >> tu) & 1u64 == 1u64) == (tu % 8 != 7)) by (bit_vector)
                requires
                    tu < 64,
            ;
        }
    }
    assert forall|t: int| #[trigger] sq_in(RANK_3, t) == (0 <= t < 64 && t / 8 == 2) by {
        if 0 <= t < 64 {
            let tu = t as u64;
            assert(((0x0000000000FF0000u64 >> tu) & 1u64 == 1u64) == (tu / 8 == 2)) by (bit_vector)
                requires
                    tu < 64,
            ;
        }
    }
    assert forall|t: int| #[trigger] sq_in(RANK_6, t) == (0 <= t < 64 && t / 8 == 5) by {
        if 0 <= t < 64 {
            let tu = t as u64;
            assert(((0x0000FF0000000000u64 >> tu) & 1u64 == 1u64) == (tu / 8 == 5)) by (bit_vector)
                requires
                    tu < 64,
            ;
        }
    }
}

/// The squares of a bitboard form a finite set of at most 64 squares.
pub proof fn lemma_squares_finite(b: u64)
    ensures
        squares(b).finite(),
        squares(b).subset_of(set_int_range(0, 64)),
        pop(b) <= 64,
{
    vstd::set_lib::lemma_int_range(0, 64);
    assert(squares(b).subset_of(set_int_range(0, 64)));
    vstd::set_lib::lemma_len_subset(squares(b), set_int_range(0, 64));
}

/// Two bitboards with the same squares are equal.
pub proof fn lemma_sq_ext(a: u64, b: u64)
    requires
        forall|i: int| 0 <= i < 64 ==> sq_in(a, i) == sq_in(b, i),
    ensures
        a == b,
{
    assert forall|i: u64| i < 64 implies bit(a, i) == bit(b, i) by {
        assert(sq_in(a, i as int) == sq_in(b, i as int));
    }
    lemma_bits_ext(a, b);
}

/// Adding a square that is not in `x` counts one more.
pub proof fn lemma_pop_add(x: u64, s: int)
    requires
        0 <= s < 64,
        !sq_in(x, s),
    ensures
        pop(x | (1u64 << (s as u64))) == pop(x) + 1,
        forall|i: int| #[trigger] sq_in(x | (1u64 << (s as u64)), i) == (sq_in(x, i) || i == s),
{
    let m = 1u64 << (s as u64);
    assert forall|i: int| #[trigger] sq_in(x | m, i) == (sq_in(x, i) || i == s) by {
        if 0 <= i < 64 {
            lemma_bit_or(x, m, i as u64);
            lemma_bit_single(s as u64, i as u64);
        }
    }
    lemma_squares_finite(x);
    assert(squares(x | m) =~= squares(x).insert(s));
}

} // verus!
