use vstd::prelude::*;
use crate::bits::{sq_in};
use crate::types::Bitboard;
use crate::moves::attacks::{rook_attack, bishop_attack, queen_attack, ray_attacks, lemma_rook_attack_symmetric, lemma_bishop_attack_symmetric};
use crate::bits::group_bits;

verus! {

broadcast use group_bits;

/// Magic bitboard parameters of one square.
#[derive(Clone, Copy)]
pub struct MagicBitboard {
    pub mask: Bitboard,
    pub magic: u64,
    pub shift: u8,
    pub offset: usize,
}

/// The squares a rook on `square` attacks, walking each of its four rays
/// until the first occupied square (included).
fn calculate_rook_attacks(square: u8, occupancy: Bitboard) -> (r: Bitboard)
    requires
        square < 64,
    ensures
        forall|t: int| #[trigger] sq_in(r, t) == rook_attack(square as int, occupancy, t),
{
    let r = ray_attacks(square, 0, 1, occupancy, 0);
    let r = ray_attacks(square, 0, -1, occupancy, r);
    let r = ray_attacks(square, 1, 0, occupancy, r);
    let r = ray_attacks(square, -1, 0, occupancy, r);
    assert forall|t: int| #[trigger] sq_in(r, t) == rook_attack(square as int, occupancy, t) by {
        assert(!sq_in(0u64, t)) by {
            if 0 <= t < 64 {
                assert(!crate::bits::bit(0u64, t as u64)) by {
                    crate::bits::lemma_bit_zero(t as u64);
                }
            }
        }
    }
    r
}

/// The squares a bishop on `square` attacks, walking each of its four
/// diagonals until the first occupied square (included).
fn calculate_bishop_attacks(square: u8, occupancy: Bitboard) -> (r: Bitboard)
    requires
        square < 64,
    ensures
        forall|t: int| #[trigger] sq_in(r, t) == bishop_attack(square as int, occupancy, t),
{
    let r = ray_attacks(square, 1, 1, occupancy, 0);
    let r = ray_attacks(square, 1, -1, occupancy, r);
    let r = ray_attacks(square, -1, 1, occupancy, r);
    let r = ray_attacks(square, -1, -1, occupancy, r);
    assert forall|t: int| #[trigger] sq_in(r, t) == bishop_attack(square as int, occupancy, t) by {
        assert(!sq_in(0u64, t)) by {
            if 0 <= t < 64 {
                assert(!crate::bits::bit(0u64, t as u64)) by {
                    crate::bits::lemma_bit_zero(t as u64);
                }
            }
        }
    }
    r
}

/// The squares a rook on `square` attacks given the occupied squares.
pub fn get_rook_attacks_magic(square: u8, occupancy: Bitboard) -> (r: Bitboard)
    requires
        square < 64,
    ensures
        forall|t: int| #[trigger] sq_in(r, t) == rook_attack(square as int, occupancy, t),
{
    calculate_rook_attacks(square, occupancy)
}

/// The squares a bishop on `square` attacks given the occupied squares.
pub fn get_bishop_attacks_magic(square: u8, occupancy: Bitboard) -> (r: Bitboard)
    requires
        square < 64,
    ensures
        forall|t: int| #[trigger] sq_in(r, t) == bishop_attack(square as int, occupancy, t),
{
    calculate_bishop_attacks(square, occupancy)
}

/// The squares a queen on `square` attacks (rook and bishop attacks together).
pub fn get_queen_attacks_magic(square: u8, occupancy: Bitboard) -> (r: Bitboard)
    requires
        square < 64,
    ensures
        forall|t: int| #[trigger] sq_in(r, t) == queen_attack(square as int, occupancy, t),
{
    let ra = get_rook_attacks_magic(square, occupancy);
    let ba = get_bishop_attacks_magic(square, occupancy);
    let r = ra | ba;
    assert forall|t: int| #[trigger] sq_in(r, t) == queen_attack(square as int, occupancy, t) by {
        if 0 <= t < 64 {
            crate::bits::lemma_bit_or(ra, ba, t as u64);
            assert(sq_in(ra, t) == rook_attack(square as int, occupancy, t));
            assert(sq_in(ba, t) == bishop_attack(square as int, occupancy, t));
        }
    }
    r
}

/// Whether a rook or queen of `enemy_rooks | enemy_queens`, or a bishop or
/// queen of `enemy_bishops | enemy_queens`, attacks `square`, given the
/// occupied squares.
pub fn is_square_attacked_by_sliding(
    square: u8,
    occupancy: Bitboard,
    enemy_rooks: Bitboard,
    enemy_bishops: Bitboard,
    enemy_queens: Bitboard,
) -> (r: bool)
    requires
        square < 64,
    ensures
        r == exists|a: int|
            (#[trigger] sq_in(enemy_rooks | enemy_queens, a) && rook_attack(a, occupancy, square as int)) || (sq_in(
                enemy_bishops | enemy_queens,
                a,
            ) && bishop_attack(a, occupancy, square as int)),
{
    let rook_attacks = get_rook_attacks_magic(square, occupancy);
    let bishop_attacks = get_bishop_attacks_magic(square, occupancy);
    let rq = rook_attacks & (enemy_rooks | enemy_queens);
    let bq = bishop_attacks & (enemy_bishops | enemy_queens);
    let r = (rq != 0) || (bq != 0);
    proof {
        crate::game::check::lemma_nonzero_square(rq);
        crate::game::check::lemma_nonzero_square(bq);
        assert forall|a: int| 0 <= a < 64 implies (sq_in(rq, a) == (sq_in(enemy_rooks | enemy_queens, a) && rook_attack(
            a,
            occupancy,
            square as int,
        ))) && (sq_in(bq, a) == (sq_in(enemy_bishops | enemy_queens, a) && bishop_attack(
            a,
            occupancy,
            square as int,
        ))) by {
            lemma_rook_attack_symmetric(square as int, occupancy, a);
            lemma_bishop_attack_symmetric(square as int, occupancy, a);
            assert(sq_in(rook_attacks, a) == rook_attack(square as int, occupancy, a));
            assert(sq_in(bishop_attacks, a) == bishop_attack(square as int, occupancy, a));
        }
        if r {
            if rq != 0 {
                let a = choose|a: int| #[trigger] sq_in(rq, a);
                assert(sq_in(enemy_rooks | enemy_queens, a) && rook_attack(a, occupancy, square as int));
            } else {
                let a = choose|a: int| #[trigger] sq_in(bq, a);
                assert(sq_in(enemy_bishops | enemy_queens, a) && bishop_attack(a, occupancy, square as int));
            }
        } else {
            assert forall|a: int| !((#[trigger] sq_in(enemy_rooks | enemy_queens, a) && rook_attack(a, occupancy, square as int))
                || (sq_in(enemy_bishops | enemy_queens, a) && bishop_attack(a, occupancy, square as int))) by {
                if 0 <= a < 64 {
                    assert(!sq_in(rq, a));
                    assert(!sq_in(bq, a));
                }
            }
        }
    }
    r
}

} // verus!
