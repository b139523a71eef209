use vstd::prelude::*;
use crate::bits::{bit, sq_in, group_bits, lemma_sq_shl};
use crate::moves::attacks::absd;

verus! {

broadcast use group_bits;

/// The bitboard of file `f`.
pub open spec fn file_bits(f: int) -> u64 {
    0x0101010101010101u64 << (f as u64)
}

/// The squares of file `f` (0 is the a-file).
pub fn file_mask(f: u8) -> (m: u64)
    requires
        f < 8,
    ensures
        m == file_bits(f as int),
        forall|t: int| #[trigger] sq_in(m, t) == (0 <= t < 64 && t % 8 == f),
{
    let m = 0x0101010101010101u64 << (f as u64);
    proof {
        lemma_sq_shl(0x0101010101010101u64, f as u64);
        assert forall|t: int| #[trigger] sq_in(0x0101010101010101u64, t) == (0 <= t < 64 && t % 8 == 0) by {
            if 0 <= t < 64 {
                let tu = t as u64;
                assert(((0x0101010101010101u64 >> tu) & 1u64 == 1u64) == (tu % 8 == 0)) by (bit_vector)
                    requires
                        tu < 64,
                ;
            }
        }
        assert forall|t: int| #[trigger] sq_in(m, t) == (0 <= t < 64 && t % 8 == f) by {
            if 0 <= t < 64 && t >= f {
                assert(sq_in(0x0101010101010101u64, t - f) == ((t - f) % 8 == 0));
            }
        }
    }
    m
}

/// The squares of the files next to file `f`.
pub fn adjacent_files(f: u8) -> (m: u64)
    requires
        f < 8,
    ensures
        forall|t: int| #[trigger] sq_in(m, t) == (0 <= t < 64 && absd(t % 8 - f) == 1),
{
    let left = if f > 0 {
        file_mask(f - 1)
    } else {
        0
    };
    let right = if f < 7 {
        file_mask(f + 1)
    } else {
        0
    };
    let m = left | right;
    proof {
        assert forall|t: int| #[trigger] sq_in(m, t) == (0 <= t < 64 && absd(t % 8 - f) == 1) by {
            if 0 <= t < 64 {
                assert(!sq_in(0u64, t));
                assert(sq_in(m, t) == (sq_in(left, t) || sq_in(right, t)));
            }
        }
    }
    m
}

/// The squares of rank `r` (0 is the first rank).
pub fn rank_mask(r: u8) -> (m: u64)
    requires
        r < 8,
    ensures
        forall|t: int| #[trigger] sq_in(m, t) == (0 <= t < 64 && t / 8 == r),
{
    let m = 0xFFu64 << (8 * r as u64);
    proof {
        lemma_sq_shl(0xFFu64, (8 * r) as u64);
        assert forall|t: int| #[trigger] sq_in(0xFFu64, t) == (0 <= t < 8) by {
            if 0 <= t < 64 {
                let tu = t as u64;
                assert(((0xFFu64 >> tu) & 1u64 == 1u64) == (tu < 8)) by (bit_vector)
                    requires
                        tu < 64,
                ;
            }
        }
        assert forall|t: int| #[trigger] sq_in(m, t) == (0 <= t < 64 && t / 8 == r) by {
            if 0 <= t < 64 && t >= 8 * r {
                assert(sq_in(0xFFu64, t - 8 * r) == (0 <= t - 8 * r < 8));
            }
        }
    }
    m
}

/// The squares below square `k` (numbers `0 .. k`).
pub fn below_mask(k: u8) -> (m: u64)
    requires
        k < 64,
    ensures
        forall|t: int| #[trigger] sq_in(m, t) == (0 <= t < k),
{
    let ku = k as u64;
    assert(1u64 << ku >= 1) by (bit_vector)
        requires
            ku < 64,
    ;
    let m = (1u64 << ku) - 1;
    proof {
        assert forall|t: int| #[trigger] sq_in(m, t) == (0 <= t < k) by {
            if 0 <= t < 64 {
                let tu = t as u64;
                let ku = k as u64;
                assert(((((1u64 << ku) - 1u64) as u64 >> tu) & 1u64 == 1u64) == (tu < ku)) by (bit_vector)
                    requires
                        tu < 64,
                        ku < 64,
                ;
            }
        }
    }
    m
}

} // verus!
