use vstd::prelude::*;
use vstd::std_specs::bits::{u64_trailing_zeros, u64_leading_zeros};
use crate::bits::{sq_in, pop, group_bits, lemma_squares_finite, lemma_sq_ext, lemma_pop_add};
use crate::board::lemma_with_piece;
use crate::board::Board;
use crate::types::{Color, PieceKind};
use crate::intrinsics::{popcount, lemma_clear_lowest};
use crate::moves::attacks::absd;
use crate::engine::traits::{Evaluator, Score};
use crate::engine::eval::masks::{file_mask, file_bits, adjacent_files, rank_mask, below_mask};

verus! {

broadcast use group_bits;

// Piece-square tables, indexed by square from White's side (a1 = 0).

pub const PAWN_MG: [i32; 64] = [
    0, 0, 0, 0, 0, 0, 0, 0,
    -1, -7, -11, -35, -13, 5, 3, -5,
    -6, -8, 5, 11, 11, 5, -8, -7,
    -9, -1, -8, 21, 23, -5, -2, -11,
    -13, 2, -5, 12, 17, 6, 10, -13,
    -4, -2, 14, 24, 26, 16, 2, -6,
    98, 134, 61, 95, 68, 126, 134, 100,
    0, 0, 0, 0, 0, 0, 0, 0,
];

pub const PAWN_EG: [i32; 64] = [
    0, 0, 0, 0, 0, 0, 0, 0,
    15, 15, 17, 21, 21, 17, 15, 15,
    12, 16, 6, 3, 3, 6, 16, 12,
    10, 17, 14, 13, 13, 14, 17, 10,
    22, 25, 22, 20, 20, 22, 25, 22,
    56, 63, 55, 48, 48, 55, 63, 56,
    178, 173, 158, 134, 134, 158, 173, 178,
    0, 0, 0, 0, 0, 0, 0, 0,
];

pub const KNIGHT_MG: [i32; 64] = [
    -105, -21, -58, -33, -17, -28, -19, -23,
    -29, -53, -12, -3, -1, 18, -14, -19,
    -23, -9, 12, 10, 19, 17, 25, -16,
    -13, 4, 16, 13, 28, 19, 21, -8,
    -9, 17, 19, 53, 37, 69, 18, 22,
    -47, 60, 37, 65, 84, 129, 73, 44,
    -73, -41, 72, 36, 23, 62, 7, -17,
    -167, -89, -34, -49, 61, -97, 50, -75,
];

pub const KNIGHT_EG: [i32; 64] = [
    -29, -51, -23, -15, -22, -18, -50, -64,
    -42, -20, -10, -5, -2, -20, -23, -44,
    -23, -3, -1, 15, 10, -3, -20, -22,
    -18, -6, 16, 25, 16, 17, 4, -18,
    -17, 3, 22, 22, 22, 11, 8, -18,
    -24, -20, 10, 9, -1, -9, -19, -41,
    -25, -8, -25, -2, -9, -25, -24, -52,
    -58, -38, -13, -28, -31, -27, -63, -99,
];

pub const BISHOP_MG: [i32; 64] = [
    -33, -3, -14, -21, -13, -12, -39, -21,
    4, 15, 16, 0, 7, 21, 33, 1,
    0, 15, 15, 15, 14, 27, 18, 10,
    -6, 13, 13, 26, 34, 12, 10, 4,
    -4, 5, 19, 50, 37, 37, 7, -2,
    -16, 37, 43, 40, 35, 50, 37, -2,
    -26, 16, -18, -13, 30, 59, 18, -47,
    -29, 4, -82, -37, -25, -42, 7, -8,
];

pub const BISHOP_EG: [i32; 64] = [
    -23, -9, -23, -5, -9, -16, -5, -17,
    -14, -18, -7, -1, 4, -9, -15, -27,
    -12, -3, 8, 10, 13, 3, -7, -15,
    -6, 3, 13, 19, 7, 10, -3, -9,
    -3, 9, 12, 9, 14, 10, 3, 2,
    2, -8, 0, -1, -2, 6, 0, 4,
    -8, -4, 7, -12, -3, -13, -4, -14,
    -14, -21, -11, -8, -14, -5, -14, -16,
];

pub const ROOK_MG: [i32; 64] = [
    -19, -13, 1, 17, 16, 7, -37, -26,
    -44, -16, -20, -9, -1, 11, -6, -71,
    -45, -25, -16, -17, 3, 0, -16, -28,
    -36, -26, -12, -1, 9, -7, 6, -23,
    -24, -11, 7, 26, 24, 35, -8, -20,
    -5, 19, 26, 36, 17, 45, 61, 16,
    27, 32, 58, 62, 80, 67, 26, 44,
    32, 42, 32, 51, 63, 9, 31, 43,
];

pub const ROOK_EG: [i32; 64] = [
    -9, 2, 3, -1, -5, -13, 4, -20,
    -6, -6, 0, 2, -9, -9, -11, -3,
    -4, 0, -5, -1, -7, -12, -8, -16,
    3, 5, 8, 4, -5, -6, -8, -11,
    4, 3, 13, 1, 2, 1, -1, 2,
    0, 0, 0, 7, 0, -2, -1, -2,
    -2, -5, 8, 10, 5, 5, -10, -6,
    8, 11, 13, 18, -3, 3, -4, -1,
];

pub const QUEEN_MG: [i32; 64] = [
    -1, -18, -9, 10, -15, -25, -31, -50,
    -35, -8, 11, 2, 8, 15, -3, 1,
    -14, 2, -11, -2, -5, 2, 14, 5,
    -9, -26, -9, -10, -2, -4, 3, -3,
    -27, -27, -16, -16, -1, 17, -2, 1,
    -13, -17, 7, 8, 29, 56, 47, 57,
    -24, -39, -5, 1, -16, 57, 28, 54,
    -28, 0, 29, 12, 59, 44, 43, 45,
];

pub const QUEEN_EG: [i32; 64] = [
    -33, -28, -22, -43, -5, -32, -20, -41,
    -22, -23, -30, -16, -16, -23, -36, -32,
    -16, -27, 15, 6, 9, 17, 10, 5,
    -18, 28, 19, 47, 31, 34, 39, 23,
    3, 22, 24, 45, 57, 40, 57, 36,
    -20, 6, 9, 49, 47, 35, 19, 9,
    -17, 20, 32, 41, 58, 25, 30, 0,
    -9, 22, 22, 27, 27, 19, 10, 20,
];

pub const KING_MG: [i32; 64] = [
    -15, 36, 12, -54, 8, -28, 24, 14,
    1, 7, -8, -64, -43, -16, 9, 8,
    -14, -14, -22, -46, -44, -30, -15, -27,
    -49, -1, -27, -39, -46, -44, -33, -51,
    -17, -20, -12, -27, -30, -25, -14, -36,
    -9, 24, 2, -16, -20, 6, 22, -22,
    29, -1, -20, -7, -8, -4, -38, -29,
    -65, 23, 16, -15, -56, -34, 2, 13,
];

pub const KING_EG: [i32; 64] = [
    -53, -34, -21, -11, -28, -14, -24, -43,
    -27, -11, 4, 13, 14, 4, -5, -17,
    -19, -3, 11, 21, 23, 16, 7, -9,
    -18, -4, 21, 24, 27, 23, 9, -11,
    -8, 22, 24, 27, 26, 33, 26, 3,
    10, 17, 23, 15, 20, 23, 20, -16,
    -18, 7, 14, 12, 13, 14, -1, -14,
    -35, -1, -7, -2, 6, -10, 3, -28,
];

/// Every entry of `t` before `n` lies within `m` of 0.
pub open spec fn bounded(t: Seq<i32>, n: int, m: int) -> bool
    decreases n,
{
    if n <= 0 {
        true
    } else {
        -m <= t[n - 1] <= m && bounded(t, n - 1, m)
    }
}

pub proof fn lemma_bounded(t: Seq<i32>, n: int, m: int)
    requires
        bounded(t, n, m),
    ensures
        forall|i: int| 0 <= i < n ==> -m <= #[trigger] t[i] <= m,
    decreases n,
{
    if n > 0 {
        lemma_bounded(t, n - 1, m);
    }
}

/// The middlegame table of a piece kind.
pub open spec fn mg_table(k: PieceKind) -> Seq<i32> {
    match k {
        PieceKind::Pawn => PAWN_MG@,
        PieceKind::Knight => KNIGHT_MG@,
        PieceKind::Bishop => BISHOP_MG@,
        PieceKind::Rook => ROOK_MG@,
        PieceKind::Queen => QUEEN_MG@,
        PieceKind::King => KING_MG@,
    }
}

/// The endgame table of a piece kind.
pub open spec fn eg_table(k: PieceKind) -> Seq<i32> {
    match k {
        PieceKind::Pawn => PAWN_EG@,
        PieceKind::Knight => KNIGHT_EG@,
        PieceKind::Bishop => BISHOP_EG@,
        PieceKind::Rook => ROOK_EG@,
        PieceKind::Queen => QUEEN_EG@,
        PieceKind::King => KING_EG@,
    }
}

/// All table entries lie within 200 of 0.
proof fn lemma_tables_bounded()
    ensures
        forall|k: PieceKind, i: int| 0 <= i < 64 ==> -200 <= #[trigger] mg_table(k)[i] <= 200,
        forall|k: PieceKind, i: int| 0 <= i < 64 ==> -200 <= #[trigger] eg_table(k)[i] <= 200,
{
    reveal_with_fuel(bounded, 65);
    assert(bounded(PAWN_MG@, 64, 200));
    assert(bounded(PAWN_EG@, 64, 200));
    assert(bounded(KNIGHT_MG@, 64, 200));
    assert(bounded(KNIGHT_EG@, 64, 200));
    assert(bounded(BISHOP_MG@, 64, 200));
    assert(bounded(BISHOP_EG@, 64, 200));
    assert(bounded(ROOK_MG@, 64, 200));
    assert(bounded(ROOK_EG@, 64, 200));
    assert(bounded(QUEEN_MG@, 64, 200));
    assert(bounded(QUEEN_EG@, 64, 200));
    assert(bounded(KING_MG@, 64, 200));
    assert(bounded(KING_EG@, 64, 200));
    lemma_bounded(PAWN_MG@, 64, 200);
    lemma_bounded(PAWN_EG@, 64, 200);
    lemma_bounded(KNIGHT_MG@, 64, 200);
    lemma_bounded(KNIGHT_EG@, 64, 200);
    lemma_bounded(BISHOP_MG@, 64, 200);
    lemma_bounded(BISHOP_EG@, 64, 200);
    lemma_bounded(ROOK_MG@, 64, 200);
    lemma_bounded(ROOK_EG@, 64, 200);
    lemma_bounded(QUEEN_MG@, 64, 200);
    lemma_bounded(QUEEN_EG@, 64, 200);
    lemma_bounded(KING_MG@, 64, 200);
    lemma_bounded(KING_EG@, 64, 200);
}

/// A middlegame and an endgame score.
#[derive(Clone, Copy)]
pub struct S {
    pub mg: i32,
    pub eg: i32,
}

/// A pair of scores as integers.
pub open spec fn sv(s: S) -> (int, int) {
    (s.mg as int, s.eg as int)
}

pub open spec fn padd(a: (int, int), b: (int, int)) -> (int, int) {
    (a.0 + b.0, a.1 + b.1)
}

pub open spec fn pscale(a: (int, int), k: int) -> (int, int) {
    (a.0 * k, a.1 * k)
}

/// Both scores lie within `m` of 0.
pub open spec fn pbound(a: (int, int), m: int) -> bool {
    -m <= a.0 <= m && -m <= a.1 <= m
}

impl S {
    fn add(self, o: S) -> (r: S)
        requires
            pbound(sv(self), 10_000_000),
            pbound(sv(o), 10_000_000),
        ensures
            sv(r) == padd(sv(self), sv(o)),
    {
        S { mg: self.mg + o.mg, eg: self.eg + o.eg }
    }
}

/// The table index of square `sq` for colour `c`: Black reads the board
/// upside down.
pub open spec fn pst_index(sq: int, c: Color) -> int {
    match c {
        Color::White => sq,
        Color::Black => (7 - sq / 8) * 8 + sq % 8,
    }
}

/// The table scores of a piece of kind `k` and colour `c` on `sq`.
pub open spec fn pst_spec(k: PieceKind, sq: int, c: Color) -> (int, int) {
    (mg_table(k)[pst_index(sq, c)] as int, eg_table(k)[pst_index(sq, c)] as int)
}

fn pst_pair(k: PieceKind, sq: u8, color: Color) -> (r: S)
    requires
        sq < 64,
    ensures
        sv(r) == pst_spec(k, sq as int, color),
        pbound(sv(r), 200),
{
    proof {
        lemma_tables_bounded();
    }
    let idx: usize = match color {
        Color::White => sq as usize,
        Color::Black => (sq ^ 56) as usize,
    };
    proof {
        assert((sq ^ 56u8) as int == (7 - sq / 8) * 8 + sq % 8) by (bit_vector)
            requires
                sq < 64,
        ;
    }
    let (mg, eg) = match k {
        PieceKind::Pawn => (PAWN_MG[idx], PAWN_EG[idx]),
        PieceKind::Knight => (KNIGHT_MG[idx], KNIGHT_EG[idx]),
        PieceKind::Bishop => (BISHOP_MG[idx], BISHOP_EG[idx]),
        PieceKind::Rook => (ROOK_MG[idx], ROOK_EG[idx]),
        PieceKind::Queen => (QUEEN_MG[idx], QUEEN_EG[idx]),
        PieceKind::King => (KING_MG[idx], KING_EG[idx]),
    };
    S { mg, eg }
}

/// The material value (middlegame, endgame) of a piece kind; the king has none.
pub open spec fn value_spec(k: PieceKind) -> (int, int) {
    match k {
        PieceKind::Pawn => (82, 114),
        PieceKind::Knight => (337, 281),
        PieceKind::Bishop => (365, 297),
        PieceKind::Rook => (477, 512),
        PieceKind::Queen => (1025, 936),
        PieceKind::King => (0, 0),
    }
}

fn piece_value(k: PieceKind) -> (r: S)
    ensures
        sv(r) == value_spec(k),
{
    match k {
        PieceKind::Pawn => S { mg: 82, eg: 114 },
        PieceKind::Knight => S { mg: 337, eg: 281 },
        PieceKind::Bishop => S { mg: 365, eg: 297 },
        PieceKind::Rook => S { mg: 477, eg: 512 },
        PieceKind::Queen => S { mg: 1025, eg: 936 },
        PieceKind::King => S { mg: 0, eg: 0 },
    }
}

/// The rank of `sq` counted from colour `c`'s side (0 is its back rank).
pub open spec fn rel_rank(sq: int, c: Color) -> int {
    match c {
        Color::White => sq / 8,
        Color::Black => 7 - sq / 8,
    }
}

/// A pawn of `our_pawns` (of colour `c`) defends `sq`.
pub open spec fn pawn_protected(sq: int, our_pawns: u64, c: Color) -> bool {
    let f = sq % 8;
    match c {
        Color::White => (f > 0 && sq >= 9 && sq_in(our_pawns, sq - 9)) || (f < 7 && sq >= 7 && sq_in(
            our_pawns,
            sq - 7,
        )),
        Color::Black => (f > 0 && sq + 7 < 64 && sq_in(our_pawns, sq + 7)) || (f < 7 && sq + 9 < 64 && sq_in(
            our_pawns,
            sq + 9,
        )),
    }
}

/// No enemy pawn on a file next to `sq` stands level with it or further
/// up the board (from colour `c`'s side): none can ever chase a piece away.
pub open spec fn outpost_safe(sq: int, enemy_pawns: u64, c: Color) -> bool {
    !exists|t: int|
        #![trigger sq_in(enemy_pawns, t)]
        sq_in(enemy_pawns, t) && absd(t % 8 - sq % 8) == 1 && (match c {
            Color::White => t / 8 >= sq / 8,
            Color::Black => t / 8 <= sq / 8,
        })
}

/// The central squares c3-f6.
pub open spec fn is_center(sq: int) -> bool {
    2 <= sq % 8 <= 5 && 2 <= sq / 8 <= 5
}

/// The bonus of a knight on `sq`: on the fourth to sixth rank (from its
/// side), defended by a pawn and safe from enemy pawns, 30/18, and 16/6
/// more in the centre.
pub open spec fn outpost_spec(sq: int, our_pawns: u64, enemy_pawns: u64, c: Color) -> (int, int) {
    let rr = rel_rank(sq, c);
    if rr < 3 || rr > 5 || !pawn_protected(sq, our_pawns, c) || !outpost_safe(sq, enemy_pawns, c) {
        (0, 0)
    } else if is_center(sq) {
        (46, 24)
    } else {
        (30, 18)
    }
}

fn knight_outpost(sq: u8, our_pawns: u64, enemy_pawns: u64, color: Color) -> (r: S)
    requires
        sq < 64,
    ensures
        sv(r) == outpost_spec(sq as int, our_pawns, enemy_pawns, color),
{
    let rank = sq / 8;
    let rel_rank: u8 = match color {
        Color::White => rank,
        Color::Black => 7 - rank,
    };
    if rel_rank < 3 || rel_rank > 5 {
        return S { mg: 0, eg: 0 };
    }
    let file = sq % 8;
    let protected_by_pawn = match color {
        Color::White => {
            let mut protected = false;
            if file > 0 && sq >= 9 {
                protected = protected || (our_pawns & (1u64 << (sq - 9) as u64)) != 0;
            }
            if file < 7 && sq >= 7 {
                protected = protected || (our_pawns & (1u64 << (sq - 7) as u64)) != 0;
            }
            protected
        },
        Color::Black => {
            let mut protected = false;
            if file > 0 && sq + 7 < 64 {
                protected = protected || (our_pawns & (1u64 << (sq + 7) as u64)) != 0;
            }
            if file < 7 && sq + 9 < 64 {
                protected = protected || (our_pawns & (1u64 << (sq + 9) as u64)) != 0;
            }
            protected
        },
    };
    if !protected_by_pawn {
        return S { mg: 0, eg: 0 };
    }
    let adj = adjacent_files(file);
    let lim: u8 = match color {
        Color::White => rank * 8,
        Color::Black => (rank + 1) * 8,
    };
    let below = below_mask(lim);
    let outpost_mask = match color {
        Color::White => adj & !below,
        Color::Black => adj & below,
    };
    let chasers = enemy_pawns & outpost_mask;
    proof {
        crate::game::check::lemma_nonzero_square(chasers);
        assert forall|t: int| #[trigger] sq_in(chasers, t) == (sq_in(enemy_pawns, t) && absd(t % 8 - sq % 8) == 1 && (
        match color {
            Color::White => t / 8 >= sq / 8,
            Color::Black => t / 8 <= sq / 8,
        })) by {
            if 0 <= t < 64 {
                assert(sq_in(adj, t) == (absd(t % 8 - file) == 1));
                assert(sq_in(below, t) == (t < lim));
                assert(sq_in(chasers, t) == (sq_in(enemy_pawns, t) && sq_in(outpost_mask, t)));
            }
        }
    }
    if chasers != 0 {
        proof {
            let t = choose|t: int| #[trigger] sq_in(chasers, t);
            assert(sq_in(enemy_pawns, t));
        }
        return S { mg: 0, eg: 0 };
    }
    let center = ((1u64 << (sq as u64)) & 0x00003C3C3C3C0000u64) != 0;
    proof {
        assert forall|t: int| !(#[trigger] sq_in(enemy_pawns, t) && absd(t % 8 - sq % 8) == 1 && (match color {
            Color::White => t / 8 >= sq / 8,
            Color::Black => t / 8 <= sq / 8,
        })) by {
            if sq_in(enemy_pawns, t) && absd(t % 8 - sq % 8) == 1 && (match color {
                Color::White => t / 8 >= sq / 8,
                Color::Black => t / 8 <= sq / 8,
            }) {
                assert(sq_in(chasers, t));
            }
        }
        assert(outpost_safe(sq as int, enemy_pawns, color));
        let su = sq as u64;
        assert((((1u64 << su) & 0x00003C3C3C3C0000u64) != 0) == (2 <= su % 8 <= 5 && 2 <= su / 8 <= 5)) by (bit_vector)
            requires
                su < 64,
        ;
    }
    if center {
        S { mg: 46, eg: 24 }
    } else {
        S { mg: 30, eg: 18 }
    }
}

/// No pawn of `pawns` stands on file `f`.
pub open spec fn file_free(pawns: u64, f: int) -> bool {
    !exists|t: int| #![trigger sq_in(pawns, t)] sq_in(pawns, t) && t % 8 == f
}

/// The file bonus of a rook on `sq`: 47/21 on a file without pawns, 20/10 on
/// one without pawns of its own side.
pub open spec fn rook_file_spec(sq: int, our_pawns: u64, enemy_pawns: u64) -> (int, int) {
    if file_free(our_pawns, sq % 8) {
        if file_free(enemy_pawns, sq % 8) {
            (47, 21)
        } else {
            (20, 10)
        }
    } else {
        (0, 0)
    }
}

/// The bonus of a rook on its seventh rank (from its side): 11/26.
pub open spec fn seventh_spec(sq: int, c: Color) -> (int, int) {
    if rel_rank(sq, c) == 6 {
        (11, 26)
    } else {
        (0, 0)
    }
}

/// Whether `pawns` has a pawn on file `f`.
fn has_pawn_on_file(pawns: u64, f: u8) -> (r: bool)
    requires
        f < 8,
    ensures
        r == !file_free(pawns, f as int),
{
    let fm = file_mask(f);
    let m = pawns & fm;
    proof {
        assert forall|t: int| #[trigger] sq_in(m, t) == (sq_in(pawns, t) && t % 8 == f) by {
            if 0 <= t < 64 {
                assert(sq_in(m, t) == (sq_in(pawns, t) && sq_in(fm, t)));
            }
        }
        crate::game::check::lemma_nonzero_square(m);
        if m != 0 {
            let t = choose|t: int| #[trigger] sq_in(m, t);
            assert(sq_in(pawns, t) && t % 8 == f);
        } else {
            assert forall|t: int| #![trigger sq_in(pawns, t)] !(sq_in(pawns, t) && t % 8 == f) by {
                if sq_in(pawns, t) && t % 8 == f {
                    assert(sq_in(m, t));
                }
            }
        }
    }
    m != 0
}

/// The score of one piece of kind `k` (not the king) and colour `c` on
/// `sq`: material, table, the knight's outpost, the rook's file and
/// seventh-rank bonuses.
pub open spec fn term_spec(k: PieceKind, sq: int, c: Color, our_pawns: u64, enemy_pawns: u64) -> (int, int) {
    let base = padd(value_spec(k), pst_spec(k, sq, c));
    match k {
        PieceKind::Knight => padd(base, outpost_spec(sq, our_pawns, enemy_pawns, c)),
        PieceKind::Rook => padd(base, padd(rook_file_spec(sq, our_pawns, enemy_pawns), seventh_spec(sq, c))),
        _ => base,
    }
}

fn piece_term(k: PieceKind, sq: u8, color: Color, our_pawns: u64, enemy_pawns: u64) -> (r: S)
    requires
        sq < 64,
    ensures
        sv(r) == term_spec(k, sq as int, color, our_pawns, enemy_pawns),
        pbound(sv(r), 1500),
{
    let base = piece_value(k).add(pst_pair(k, sq, color));
    match k {
        PieceKind::Knight => base.add(knight_outpost(sq, our_pawns, enemy_pawns, color)),
        PieceKind::Rook => {
            let file = sq % 8;
            let rank = sq / 8;
            let file_bonus = if !has_pawn_on_file(our_pawns, file) {
                if !has_pawn_on_file(enemy_pawns, file) {
                    S { mg: 47, eg: 21 }
                } else {
                    S { mg: 20, eg: 10 }
                }
            } else {
                S { mg: 0, eg: 0 }
            };
            let on_seventh = match color {
                Color::White => rank == 6,
                Color::Black => rank == 1,
            };
            let seventh = if on_seventh {
                S { mg: 11, eg: 26 }
            } else {
                S { mg: 0, eg: 0 }
            };
            base.add(file_bonus.add(seventh))
        },
        _ => base,
    }
}

/// The scores of the pieces of kind `k` on the squares of `bb`.
pub open spec fn sum_terms(bb: u64, k: PieceKind, c: Color, our_pawns: u64, enemy_pawns: u64) -> (int, int)
    decreases bb,
{
    if bb == 0 {
        (0, 0)
    } else {
        proof {
            lemma_clear_lowest(bb);
        }
        padd(
            term_spec(k, u64_trailing_zeros(bb) as int, c, our_pawns, enemy_pawns),
            sum_terms(bb & ((bb - 1) as u64), k, c, our_pawns, enemy_pawns),
        )
    }
}

fn kind_terms(pieces: u64, k: PieceKind, color: Color, our_pawns: u64, enemy_pawns: u64) -> (r: S)
    ensures
        sv(r) == sum_terms(pieces, k, color, our_pawns, enemy_pawns),
        pbound(sv(r), 1500 * pop(pieces) as int),
{
    let mut acc = S { mg: 0, eg: 0 };
    let mut bb = pieces;
    proof {
        lemma_squares_finite(pieces);
    }
    while bb != 0
        invariant
            padd(sv(acc), sum_terms(bb, k, color, our_pawns, enemy_pawns)) == sum_terms(
                pieces,
                k,
                color,
                our_pawns,
                enemy_pawns,
            ),
            pop(bb) <= pop(pieces) <= 64,
            pbound(sv(acc), 1500 * (pop(pieces) - pop(bb))),
        decreases bb,
    {
        proof {
            lemma_clear_lowest(bb);
        }
        let sq = bb.trailing_zeros() as u8;
        let t = piece_term(k, sq, color, our_pawns, enemy_pawns);
        acc = acc.add(t);
        bb = bb & (bb - 1);
    }
    acc
}

/// Some pawn of `pawns` stands on a file next to file `f`.
pub open spec fn adjacent_pawn(pawns: u64, f: int) -> bool {
    exists|t: int| #![trigger sq_in(pawns, t)] sq_in(pawns, t) && absd(t % 8 - f) == 1
}

/// The penalties of file `f`: 11/56 per pawn beyond the first (doubled
/// pawns), and 5/15 per pawn when no pawn of ours stands on a neighbouring
/// file (isolated pawns).
pub open spec fn file_term(our_pawns: u64, f: int) -> (int, int) {
    let count = pop(our_pawns & file_bits(f)) as int;
    padd(
        if count > 1 {
            pscale((-11, -56), count - 1)
        } else {
            (0, 0)
        },
        if count > 0 && !adjacent_pawn(our_pawns, f) {
            pscale((-5, -15), count)
        } else {
            (0, 0)
        },
    )
}

/// The file penalties of files `0 .. n`.
pub open spec fn file_terms(our_pawns: u64, n: int) -> (int, int)
    decreases n,
{
    if n <= 0 {
        (0, 0)
    } else {
        padd(file_terms(our_pawns, n - 1), file_term(our_pawns, n - 1))
    }
}

/// Whether some pawn of `pawns` stands on a file next to `f`.
fn has_adjacent_pawn(pawns: u64, f: u8) -> (r: bool)
    requires
        f < 8,
    ensures
        r == adjacent_pawn(pawns, f as int),
{
    let adj = adjacent_files(f);
    let m = pawns & adj;
    proof {
        crate::game::check::lemma_nonzero_square(m);
        assert forall|t: int| #[trigger] sq_in(m, t) == (sq_in(pawns, t) && absd(t % 8 - f) == 1) by {
            if 0 <= t < 64 {
                assert(sq_in(m, t) == (sq_in(pawns, t) && sq_in(adj, t)));
            }
        }
        if m != 0 {
            let t = choose|t: int| #[trigger] sq_in(m, t);
            assert(sq_in(pawns, t));
        } else {
            assert forall|t: int| #![trigger sq_in(pawns, t)] !(sq_in(pawns, t) && absd(t % 8 - f) == 1) by {
                if sq_in(pawns, t) && absd(t % 8 - f) == 1 {
                    assert(sq_in(m, t));
                }
            }
        }
    }
    m != 0
}

fn file_penalties(our_pawns: u64) -> (r: S)
    ensures
        sv(r) == file_terms(our_pawns, 8),
        pbound(sv(r), 4800),
{
    let mut acc = S { mg: 0, eg: 0 };
    let mut f: u8 = 0;
    while f < 8
        invariant
            f <= 8,
            sv(acc) == file_terms(our_pawns, f as int),
            pbound(sv(acc), 600 * f as int),
        decreases 8 - f,
    {
        let fm = file_mask(f);
        let on_file = our_pawns & fm;
        let count = popcount(on_file);
        proof {
            lemma_squares_finite(on_file);
            assert(pop(on_file) <= 8) by {
                assert forall|t: int| crate::bits::squares(on_file).contains(t) implies 0 <= t < 64 && t % 8 == f by {
                    assert(sq_in(on_file, t) == (sq_in(our_pawns, t) && sq_in(fm, t)));
                }
                assert(crate::bits::squares(on_file).subset_of(
                    Set::new(|t: int| 0 <= t < 64 && t % 8 == f),
                ));
                lemma_file_squares(f as int);
                vstd::set_lib::lemma_len_subset(
                    crate::bits::squares(on_file),
                    Set::new(|t: int| 0 <= t < 64 && t % 8 == f),
                );
            }
        }
        let c = count as i32;
        let doubled = if count > 1 {
            S { mg: -11 * (c - 1), eg: -56 * (c - 1) }
        } else {
            S { mg: 0, eg: 0 }
        };
        let isolated = if count > 0 && !has_adjacent_pawn(our_pawns, f) {
            S { mg: -5 * c, eg: -15 * c }
        } else {
            S { mg: 0, eg: 0 }
        };
        acc = acc.add(doubled.add(isolated));
        f = f + 1;
    }
    acc
}

/// A file has eight squares.
proof fn lemma_file_squares(f: int)
    requires
        0 <= f < 8,
    ensures
        Set::new(|t: int| 0 <= t < 64 && t % 8 == f).finite(),
        Set::new(|t: int| 0 <= t < 64 && t % 8 == f).len() == 8,
{
    let s = Set::new(|t: int| 0 <= t < 64 && t % 8 == f);
    let e = set![f, f + 8, f + 16, f + 24, f + 32, f + 40, f + 48, f + 56];
    assert(s =~= e);
    assert(e.len() == 8);
}

/// Square `t` is further up the board than `sq`, seen from colour `c`.
pub open spec fn ahead(c: Color, t: int, sq: int) -> bool {
    match c {
        Color::White => t / 8 > sq / 8,
        Color::Black => t / 8 < sq / 8,
    }
}

/// No enemy pawn stands ahead of `sq` on its file or a neighbouring file.
pub open spec fn passed_spec(sq: int, enemy_pawns: u64, c: Color) -> bool {
    !exists|t: int|
        #![trigger sq_in(enemy_pawns, t)]
        sq_in(enemy_pawns, t) && absd(t % 8 - sq % 8) <= 1 && ahead(c, t, sq)
}

/// The bonus of a passed pawn on relative rank `r`.
pub open spec fn passed_bonus_spec(r: int) -> (int, int) {
    if r == 1 {
        (2, 10)
    } else if r == 2 {
        (5, 17)
    } else if r == 3 {
        (12, 33)
    } else if r == 4 {
        (32, 72)
    } else if r == 5 {
        (70, 177)
    } else if r == 6 {
        (172, 260)
    } else {
        (0, 0)
    }
}

fn passed_bonus(r: u8) -> (s: S)
    ensures
        sv(s) == passed_bonus_spec(r as int),
{
    match r {
        1 => S { mg: 2, eg: 10 },
        2 => S { mg: 5, eg: 17 },
        3 => S { mg: 12, eg: 33 },
        4 => S { mg: 32, eg: 72 },
        5 => S { mg: 70, eg: 177 },
        6 => S { mg: 172, eg: 260 },
        _ => S { mg: 0, eg: 0 },
    }
}

/// A pawn of ours on a neighbouring file stands level with `sq` or one
/// rank behind it.
pub open spec fn connected_spec(sq: int, our_pawns: u64, c: Color) -> bool {
    exists|t: int|
        #![trigger sq_in(our_pawns, t)]
        sq_in(our_pawns, t) && absd(t % 8 - sq % 8) == 1 && (t / 8 == sq / 8 || t / 8 == sq / 8 - crate::moves::attacks::forward(c))
}

/// A pawn of ours on a neighbouring file stands level with `sq` or behind it.
pub open spec fn friend_behind_spec(sq: int, our_pawns: u64, c: Color) -> bool {
    exists|t: int|
        #![trigger sq_in(our_pawns, t)]
        sq_in(our_pawns, t) && absd(t % 8 - sq % 8) == 1 && !ahead(c, t, sq)
}

/// The square in front of `sq` (itself on the last rank).
pub open spec fn advance_spec(sq: int, c: Color) -> int {
    match c {
        Color::White => if sq / 8 < 7 {
            sq + 8
        } else {
            sq
        },
        Color::Black => if sq / 8 > 0 {
            sq - 8
        } else {
            sq
        },
    }
}

/// An enemy pawn attacks `a`.
pub open spec fn pawn_controls(a: int, enemy_pawns: u64, c: Color) -> bool {
    match c {
        Color::White => (a % 8 > 0 && a + 7 < 64 && sq_in(enemy_pawns, a + 7)) || (a % 8 < 7 && a + 9 < 64 && sq_in(
            enemy_pawns,
            a + 9,
        )),
        Color::Black => (a % 8 > 0 && a >= 9 && sq_in(enemy_pawns, a - 9)) || (a % 8 < 7 && a >= 7 && sq_in(
            enemy_pawns,
            a - 7,
        )),
    }
}

/// The score of one pawn of ours on `sq`: a passed pawn gets its rank's
/// bonus and 7/21 more when connected; a pawn that is not passed, has
/// pawns of ours on neighbouring files but all of them ahead, and whose
/// advance square an enemy pawn attacks, is backward: -9/-24.
pub open spec fn pawn_term_spec(sq: int, our_pawns: u64, enemy_pawns: u64, c: Color) -> (int, int) {
    let passed = passed_spec(sq, enemy_pawns, c);
    padd(
        if passed {
            padd(
                passed_bonus_spec(rel_rank(sq, c)),
                if connected_spec(sq, our_pawns, c) {
                    (7, 21)
                } else {
                    (0, 0)
                },
            )
        } else {
            (0, 0)
        },
        if !passed && adjacent_pawn(our_pawns, sq % 8) && !friend_behind_spec(sq, our_pawns, c) && pawn_controls(
            advance_spec(sq, c),
            enemy_pawns,
            c,
        ) {
            (-9, -24)
        } else {
            (0, 0)
        },
    )
}

/// Whether the pawn on `sq` is passed.
fn is_passed_pawn(sq: u8, enemy_pawns: u64, color: Color) -> (r: bool)
    requires
        sq < 64,
    ensures
        r == passed_spec(sq as int, enemy_pawns, color),
{
    let file = sq % 8;
    let rank = sq / 8;
    let fm = file_mask(file);
    let adj = adjacent_files(file);
    let files = fm | adj;
    let lim: u8 = match color {
        Color::White => if rank < 7 {
            (rank + 1) * 8
        } else {
            0
        },
        Color::Black => rank * 8,
    };
    let below = below_mask(lim);
    let mask: u64 = match color {
        Color::White => if rank < 7 {
            files & !below
        } else {
            0
        },
        Color::Black => if rank > 0 {
            files & below
        } else {
            0
        },
    };
    let blockers = enemy_pawns & mask;
    proof {
        crate::game::check::lemma_nonzero_square(blockers);
        assert forall|t: int| #[trigger] sq_in(blockers, t) == (sq_in(enemy_pawns, t) && absd(t % 8 - sq % 8) <= 1
            && ahead(color, t, sq as int)) by {
            if 0 <= t < 64 {
                assert(sq_in(fm, t) == (t % 8 == file));
                assert(sq_in(adj, t) == (absd(t % 8 - file) == 1));
                assert(sq_in(below, t) == (t < lim));
                assert(sq_in(files, t) == (sq_in(fm, t) || sq_in(adj, t)));
                assert(!sq_in(0u64, t));
            }
        }
        if blockers != 0 {
            let t = choose|t: int| #[trigger] sq_in(blockers, t);
            assert(sq_in(enemy_pawns, t));
        } else {
            assert forall|t: int| #![trigger sq_in(enemy_pawns, t)] !(sq_in(enemy_pawns, t) && absd(t % 8 - sq % 8) <= 1
                && ahead(color, t, sq as int)) by {
                if sq_in(enemy_pawns, t) && absd(t % 8 - sq % 8) <= 1 && ahead(color, t, sq as int) {
                    assert(sq_in(blockers, t));
                }
            }
        }
    }
    blockers == 0
}

/// Whether the square `a` (on the board) holds a pawn of `pawns`.
fn pawn_on(pawns: u64, a: u8) -> (r: bool)
    requires
        a < 64,
    ensures
        r == sq_in(pawns, a as int),
{
    (pawns & (1u64 << (a as u64))) != 0
}

fn pawn_term(sq: u8, our_pawns: u64, enemy_pawns: u64, color: Color) -> (r: S)
    requires
        sq < 64,
    ensures
        sv(r) == pawn_term_spec(sq as int, our_pawns, enemy_pawns, color),
        pbound(sv(r), 400),
{
    let file = sq % 8;
    let rank = sq / 8;
    let rel: u8 = match color {
        Color::White => rank,
        Color::Black => 7 - rank,
    };
    let is_passed = is_passed_pawn(sq, enemy_pawns, color);
    let mut first = S { mg: 0, eg: 0 };
    if is_passed {
        let adj = adjacent_files(file);
        let same = rank_mask(rank);
        let has_behind = rel > 0 && match color {
            Color::White => rank > 0,
            Color::Black => rank < 7,
        };
        let behind_rank: u8 = match color {
            Color::White => if rank > 0 {
                rank - 1
            } else {
                0
            },
            Color::Black => if rank < 7 {
                rank + 1
            } else {
                7
            },
        };
        let behind_mask = rank_mask(behind_rank);
        let behind: u64 = if has_behind {
            behind_mask
        } else {
            0
        };
        let linked = our_pawns & adj & (same | behind);
        proof {
            crate::game::check::lemma_nonzero_square(linked);
            assert forall|t: int| #[trigger] sq_in(linked, t) == (sq_in(our_pawns, t) && absd(t % 8 - sq % 8) == 1 && (t
                / 8 == sq / 8 || t / 8 == sq / 8 - crate::moves::attacks::forward(color))) by {
                if 0 <= t < 64 {
                    assert(!sq_in(0u64, t));
                    assert(sq_in(adj, t) == (absd(t % 8 - file) == 1));
                    assert(sq_in(same, t) == (t / 8 == rank));
                    assert(sq_in(behind_mask, t) == (t / 8 == behind_rank));
                    assert(sq_in(linked, t) == (sq_in(our_pawns, t) && sq_in(adj, t) && (sq_in(same, t) || sq_in(
                        behind,
                        t,
                    ))));
                }
            }
            if linked != 0 {
                let t = choose|t: int| #[trigger] sq_in(linked, t);
                assert(sq_in(our_pawns, t));
            } else {
                assert forall|t: int| #![trigger sq_in(our_pawns, t)] !(sq_in(our_pawns, t) && absd(t % 8 - sq % 8) == 1
                    && (t / 8 == sq / 8 || t / 8 == sq / 8 - crate::moves::attacks::forward(color))) by {
                    if sq_in(our_pawns, t) && absd(t % 8 - sq % 8) == 1 && (t / 8 == sq / 8 || t / 8 == sq / 8
                        - crate::moves::attacks::forward(color)) {
                        assert(sq_in(linked, t));
                    }
                }
            }
        }
        let bonus = passed_bonus(rel);
        first = if linked != 0 {
            bonus.add(S { mg: 7, eg: 21 })
        } else {
            bonus
        };
    }
    let mut second = S { mg: 0, eg: 0 };
    if !is_passed && has_adjacent_pawn(our_pawns, file) {
        let adj = adjacent_files(file);
        let adjacent_friendly = our_pawns & adj;
        let lim: u8 = match color {
            Color::White => if rank < 7 {
                (rank + 1) * 8
            } else {
                0
            },
            Color::Black => rank * 8,
        };
        let below = below_mask(lim);
        let friend_behind = match color {
            Color::White => if rank < 7 {
                adjacent_friendly & below
            } else {
                adjacent_friendly
            },
            Color::Black => adjacent_friendly & !below,
        };
        proof {
            crate::game::check::lemma_nonzero_square(friend_behind);
            assert forall|t: int| #[trigger] sq_in(friend_behind, t) == (sq_in(our_pawns, t) && absd(t % 8 - sq % 8) == 1
                && !ahead(color, t, sq as int)) by {
                if 0 <= t < 64 {
                    assert(sq_in(adj, t) == (absd(t % 8 - file) == 1));
                    assert(sq_in(below, t) == (t < lim));
                    assert(sq_in(adjacent_friendly, t) == (sq_in(our_pawns, t) && sq_in(adj, t)));
                }
            }
            if friend_behind != 0 {
                let t = choose|t: int| #[trigger] sq_in(friend_behind, t);
                assert(sq_in(our_pawns, t));
            } else {
                assert forall|t: int| #![trigger sq_in(our_pawns, t)] !(sq_in(our_pawns, t) && absd(t % 8 - sq % 8) == 1
                    && !ahead(color, t, sq as int)) by {
                    if sq_in(our_pawns, t) && absd(t % 8 - sq % 8) == 1 && !ahead(color, t, sq as int) {
                        assert(sq_in(friend_behind, t));
                    }
                }
            }
        }
        if friend_behind == 0 {
            let advance_sq: u8 = match color {
                Color::White => if rank < 7 {
                    sq + 8
                } else {
                    sq
                },
                Color::Black => if rank > 0 {
                    sq - 8
                } else {
                    sq
                },
            };
            let af = advance_sq % 8;
            let enemy_controls = match color {
                Color::White => (af > 0 && advance_sq + 7 < 64 && pawn_on(enemy_pawns, advance_sq + 7)) || (af < 7
                    && advance_sq + 9 < 64 && pawn_on(enemy_pawns, advance_sq + 9)),
                Color::Black => (af > 0 && advance_sq >= 9 && pawn_on(enemy_pawns, advance_sq - 9)) || (af < 7
                    && advance_sq >= 7 && pawn_on(enemy_pawns, advance_sq - 7)),
            };
            if enemy_controls {
                second = S { mg: -9, eg: -24 };
            }
        }
    }
    first.add(second)
}

/// The scores of our pawns on the squares of `bb`.
pub open spec fn sum_pawn_terms(bb: u64, our_pawns: u64, enemy_pawns: u64, c: Color) -> (int, int)
    decreases bb,
{
    if bb == 0 {
        (0, 0)
    } else {
        proof {
            lemma_clear_lowest(bb);
        }
        padd(
            pawn_term_spec(u64_trailing_zeros(bb) as int, our_pawns, enemy_pawns, c),
            sum_pawn_terms(bb & ((bb - 1) as u64), our_pawns, enemy_pawns, c),
        )
    }
}

/// The pawn structure of one side: file penalties and the pawns' own terms.
pub open spec fn pawn_structure_spec(our_pawns: u64, enemy_pawns: u64, c: Color) -> (int, int) {
    padd(file_terms(our_pawns, 8), sum_pawn_terms(our_pawns, our_pawns, enemy_pawns, c))
}

fn eval_pawn_structure(our_pawns: u64, enemy_pawns: u64, color: Color) -> (r: S)
    ensures
        sv(r) == pawn_structure_spec(our_pawns, enemy_pawns, color),
        pbound(sv(r), 30400),
{
    let files = file_penalties(our_pawns);
    let mut acc = S { mg: 0, eg: 0 };
    let mut bb = our_pawns;
    proof {
        lemma_squares_finite(our_pawns);
    }
    while bb != 0
        invariant
            padd(sv(acc), sum_pawn_terms(bb, our_pawns, enemy_pawns, color)) == sum_pawn_terms(
                our_pawns,
                our_pawns,
                enemy_pawns,
                color,
            ),
            pop(bb) <= pop(our_pawns) <= 64,
            pbound(sv(acc), 400 * (pop(our_pawns) - pop(bb))),
        decreases bb,
    {
        proof {
            lemma_clear_lowest(bb);
        }
        let sq = bb.trailing_zeros() as u8;
        let t = pawn_term(sq, our_pawns, enemy_pawns, color);
        acc = acc.add(t);
        bb = bb & (bb - 1);
    }
    files.add(acc)
}

/// The shield term of file `f` in front of a castled king: 17/0 for a pawn
/// of ours on the two ranks in front of the back rank, -11/0 for a pawn
/// further up, -23/0 for none.
pub open spec fn shield_spec(f: int, our_pawns: u64, c: Color) -> (int, int) {
    if file_free(our_pawns, f) {
        (-23, 0)
    } else if exists|t: int|
        #![trigger sq_in(our_pawns, t)]
        sq_in(our_pawns, t) && t % 8 == f && (match c {
            Color::White => t / 8 == 1 || t / 8 == 2,
            Color::Black => t / 8 == 5 || t / 8 == 6,
        }) {
        (17, 0)
    } else {
        (-11, 0)
    }
}

fn shield_term(f: u8, our_pawns: u64, color: Color) -> (r: S)
    requires
        f < 8,
    ensures
        sv(r) == shield_spec(f as int, our_pawns, color),
        pbound(sv(r), 100),
{
    if !has_pawn_on_file(our_pawns, f) {
        return S { mg: -23, eg: 0 };
    }
    let fm = file_mask(f);
    let (r1, r2): (u8, u8) = match color {
        Color::White => (1, 2),
        Color::Black => (5, 6),
    };
    let m1 = rank_mask(r1);
    let m2 = rank_mask(r2);
    let zone = our_pawns & fm & (m1 | m2);
    proof {
        crate::game::check::lemma_nonzero_square(zone);
        assert forall|t: int| #[trigger] sq_in(zone, t) == (sq_in(our_pawns, t) && t % 8 == f && (match color {
            Color::White => t / 8 == 1 || t / 8 == 2,
            Color::Black => t / 8 == 5 || t / 8 == 6,
        })) by {
            if 0 <= t < 64 {
                assert(sq_in(fm, t) == (t % 8 == f));
                assert(sq_in(m1, t) == (t / 8 == r1));
                assert(sq_in(m2, t) == (t / 8 == r2));
                assert(sq_in(zone, t) == (sq_in(our_pawns, t) && sq_in(fm, t) && (sq_in(m1, t) || sq_in(m2, t))));
            }
        }
        if zone != 0 {
            let t = choose|t: int| #[trigger] sq_in(zone, t);
            assert(sq_in(our_pawns, t));
        } else {
            assert forall|t: int| #![trigger sq_in(our_pawns, t)] !(sq_in(our_pawns, t) && t % 8 == f && (match color {
                Color::White => t / 8 == 1 || t / 8 == 2,
                Color::Black => t / 8 == 5 || t / 8 == 6,
            })) by {
                if sq_in(our_pawns, t) && t % 8 == f && (match color {
                    Color::White => t / 8 == 1 || t / 8 == 2,
                    Color::Black => t / 8 == 5 || t / 8 == 6,
                }) {
                    assert(sq_in(zone, t));
                }
            }
        }
    }
    if zone != 0 {
        S { mg: 17, eg: 0 }
    } else {
        S { mg: -11, eg: 0 }
    }
}

/// The open-file term of file `f` next to the king: -41/-9 without pawns,
/// -18/-3 without pawns of ours.
pub open spec fn king_file_spec(f: int, our_pawns: u64, enemy_pawns: u64) -> (int, int) {
    if file_free(our_pawns, f) {
        if file_free(enemy_pawns, f) {
            (-41, -9)
        } else {
            (-18, -3)
        }
    } else {
        (0, 0)
    }
}

fn king_file_term(f: u8, our_pawns: u64, enemy_pawns: u64) -> (r: S)
    requires
        f < 8,
    ensures
        sv(r) == king_file_spec(f as int, our_pawns, enemy_pawns),
        pbound(sv(r), 100),
{
    if !has_pawn_on_file(our_pawns, f) {
        if !has_pawn_on_file(enemy_pawns, f) {
            S { mg: -41, eg: -9 }
        } else {
            S { mg: -18, eg: -3 }
        }
    } else {
        S { mg: 0, eg: 0 }
    }
}

/// The pawn-storm term of file `f`: for the enemy pawn on it nearest our
/// side, -7/0 per rank it still has to go when that is 2 or more.
pub open spec fn storm_spec(f: int, enemy_pawns: u64, c: Color) -> (int, int) {
    let x = enemy_pawns & file_bits(f);
    if x == 0 {
        (0, 0)
    } else {
        let most = match c {
            Color::White => u64_trailing_zeros(x) as int,
            Color::Black => 63 - u64_leading_zeros(x),
        };
        let adv = most / 8;
        let dist = match c {
            Color::White => if adv <= 6 {
                6 - adv
            } else {
                0
            },
            Color::Black => if adv >= 1 {
                adv - 1
            } else {
                0
            },
        };
        if dist >= 2 {
            (-7 * dist, 0)
        } else {
            (0, 0)
        }
    }
}

fn storm_term(f: u8, enemy_pawns: u64, color: Color) -> (r: S)
    requires
        f < 8,
    ensures
        sv(r) == storm_spec(f as int, enemy_pawns, color),
        pbound(sv(r), 100),
{
    let x = enemy_pawns & file_mask(f);
    if x == 0 {
        return S { mg: 0, eg: 0 };
    }
    let most: u32 = match color {
        Color::White => x.trailing_zeros(),
        Color::Black => {
            proof {
                vstd::std_specs::bits::axiom_u64_leading_zeros(x);
            }
            63 - x.leading_zeros()
        },
    };
    proof {
        vstd::std_specs::bits::axiom_u64_trailing_zeros(x);
        vstd::std_specs::bits::axiom_u64_leading_zeros(x);
    }
    assert(most < 64);
    let adv = most / 8;
    let dist: u32 = match color {
        Color::White => 6u32.saturating_sub(adv),
        Color::Black => adv.saturating_sub(1),
    };
    assert(dist <= 7);
    if dist >= 2 {
        let d: i32 = dist as i32;
        assert(0 <= d <= 7);
        S { mg: 0 - 7 * d, eg: 0 }
    } else {
        S { mg: 0, eg: 0 }
    }
}

/// The pawn shield of a castled king on file `kf` (three files next to it,
/// towards the centre when on the queenside) and the open or half-open
/// file on its inner side.
pub open spec fn king_cover_spec(kf: int, queenside: bool, our_pawns: u64, enemy_pawns: u64, c: Color) -> (int, int) {
    let s1 = if queenside {
        kf
    } else if kf >= 2 {
        kf - 2
    } else {
        0
    };
    let s2 = if queenside {
        kf + 1
    } else if kf >= 1 {
        kf - 1
    } else {
        0
    };
    let s3 = if queenside {
        if kf + 2 <= 7 {
            kf + 2
        } else {
            kf + 1
        }
    } else {
        kf
    };
    let z1 = if kf == 0 {
        0
    } else if kf == 7 {
        6
    } else {
        kf - 1
    };
    padd(
        padd(shield_spec(s1, our_pawns, c), shield_spec(s2, our_pawns, c)),
        padd(shield_spec(s3, our_pawns, c), king_file_spec(z1, our_pawns, enemy_pawns)),
    )
}

/// The open or half-open file on the outer side of a castled king on file
/// `kf`, and the enemy pawn storm on the three files of its wing.
pub open spec fn king_storm_spec(kf: int, queenside: bool, our_pawns: u64, enemy_pawns: u64, c: Color) -> (int, int) {
    let z2 = if kf == 0 {
        1
    } else if kf == 7 {
        7
    } else {
        kf + 1
    };
    let b = if queenside {
        0
    } else {
        5
    };
    padd(
        padd(king_file_spec(z2, our_pawns, enemy_pawns), storm_spec(b, enemy_pawns, c)),
        padd(storm_spec(b + 1, enemy_pawns, c), storm_spec(b + 2, enemy_pawns, c)),
    )
}

/// King safety of a king of colour `c` on `ksq`, when castled (files a-c or
/// f-h, on its first two ranks): the pawn shield, open files next to the
/// king and enemy pawn storms; nothing otherwise.
pub open spec fn king_safety_spec(ksq: int, our_pawns: u64, enemy_pawns: u64, c: Color) -> (int, int) {
    let kf = ksq % 8;
    let kr = ksq / 8;
    let kingside = kf >= 5;
    let queenside = kf <= 2;
    let on_back = match c {
        Color::White => kr <= 1,
        Color::Black => kr >= 6,
    };
    if !((kingside || queenside) && on_back) {
        (0, 0)
    } else {
        padd(
            king_cover_spec(kf, queenside, our_pawns, enemy_pawns, c),
            king_storm_spec(kf, queenside, our_pawns, enemy_pawns, c),
        )
    }
}

fn king_cover(king_file: u8, on_queenside: bool, our_pawns: u64, enemy_pawns: u64, color: Color) -> (r: S)
    requires
        king_file < 8,
        on_queenside == (king_file <= 2),
    ensures
        sv(r) == king_cover_spec(king_file as int, on_queenside, our_pawns, enemy_pawns, color),
        pbound(sv(r), 400),
{
    let (s1, s2, s3): (u8, u8, u8) = if on_queenside {
        (king_file, king_file + 1, if king_file + 2 <= 7 {
            king_file + 2
        } else {
            king_file + 1
        })
    } else {
        (if king_file >= 2 {
            king_file - 2
        } else {
            0
        }, if king_file >= 1 {
            king_file - 1
        } else {
            0
        }, king_file)
    };
    let z1: u8 = if king_file == 0 {
        0
    } else if king_file == 7 {
        6
    } else {
        king_file - 1
    };
    let a = shield_term(s1, our_pawns, color).add(shield_term(s2, our_pawns, color));
    let b = shield_term(s3, our_pawns, color).add(king_file_term(z1, our_pawns, enemy_pawns));
    a.add(b)
}

fn king_storm(king_file: u8, on_queenside: bool, our_pawns: u64, enemy_pawns: u64, color: Color) -> (r: S)
    requires
        king_file < 8,
        on_queenside == (king_file <= 2),
    ensures
        sv(r) == king_storm_spec(king_file as int, on_queenside, our_pawns, enemy_pawns, color),
        pbound(sv(r), 400),
{
    let z2: u8 = if king_file == 0 {
        1
    } else if king_file == 7 {
        7
    } else {
        king_file + 1
    };
    let b: u8 = if on_queenside {
        0
    } else {
        5
    };
    let x = king_file_term(z2, our_pawns, enemy_pawns).add(storm_term(b, enemy_pawns, color));
    let y = storm_term(b + 1, enemy_pawns, color).add(storm_term(b + 2, enemy_pawns, color));
    x.add(y)
}

fn eval_king_safety(king_sq: u8, our_pawns: u64, enemy_pawns: u64, color: Color) -> (r: S)
    requires
        king_sq < 64,
    ensures
        sv(r) == king_safety_spec(king_sq as int, our_pawns, enemy_pawns, color),
        pbound(sv(r), 1000),
{
    let king_file = king_sq % 8;
    let king_rank = king_sq / 8;
    let on_kingside = king_file >= 5;
    let on_queenside = king_file <= 2;
    let on_back = match color {
        Color::White => king_rank <= 1,
        Color::Black => king_rank >= 6,
    };
    if !((on_kingside || on_queenside) && on_back) {
        return S { mg: 0, eg: 0 };
    }
    king_cover(king_file, on_queenside, our_pawns, enemy_pawns, color).add(
        king_storm(king_file, on_queenside, our_pawns, enemy_pawns, color),
    )
}

/// The score of one side: material, tables and piece bonuses of pawns,
/// knights, bishops (with 23/62 for the pair), rooks and queens; its (lowest)
/// king's table score and safety; its pawn structure.
#[verifier::opaque]
pub open spec fn side_spec(b: Board, c: Color) -> (int, int) {
    let our = b.color_bb(c);
    let enemy = b.color_bb(c.flip());
    let op = b.pawns & our;
    let ep = b.pawns & enemy;
    let kb = b.kings & our;
    let k = u64_trailing_zeros(kb) as int;
    padd(
        padd(
            padd(sum_terms(op, PieceKind::Pawn, c, op, ep), sum_terms(b.knights & our, PieceKind::Knight, c, op, ep)),
            padd(
                sum_terms(b.bishops & our, PieceKind::Bishop, c, op, ep),
                if pop(b.bishops & our) >= 2 {
                    (23, 62)
                } else {
                    (0, 0)
                },
            ),
        ),
        padd(
            padd(sum_terms(b.rooks & our, PieceKind::Rook, c, op, ep), sum_terms(b.queens & our, PieceKind::Queen, c, op, ep)),
            padd(
                if kb != 0 {
                    padd(pst_spec(PieceKind::King, k, c), king_safety_spec(k, op, ep, c))
                } else {
                    (0, 0)
                },
                pawn_structure_spec(op, ep, c),
            ),
        ),
    )
}

/// Adding the square `s` (not in `bb`) to the pieces summed adds the score
/// of a piece on `s`.
proof fn lemma_sum_terms_add(bb: u64, s: int, k: PieceKind, c: Color, op: u64, ep: u64)
    requires
        0 <= s < 64,
        !sq_in(bb, s),
    ensures
        sum_terms(bb | (1u64 << (s as u64)), k, c, op, ep) == padd(term_spec(k, s, c, op, ep), sum_terms(bb, k, c, op, ep)),
    decreases bb,
{
    let m = 1u64 << (s as u64);
    let x = bb | m;
    lemma_pop_add(bb, s);
    assert(sq_in(x, s));
    assert(x != 0) by {
        if x == 0 {
            assert(!sq_in(0u64, s));
        }
    }
    lemma_clear_lowest(x);
    let t = u64_trailing_zeros(x) as int;
    let x1 = x & ((x - 1u64) as u64);
    if bb == 0 {
        assert(t == s) by {
            if t < s {
                assert(!sq_in(x, t) || t == s);
            }
        }
        assert forall|i: int| 0 <= i < 64 implies sq_in(x1, i) == sq_in(0u64, i) by {}
        lemma_sq_ext(x1, 0u64);
    } else {
        lemma_clear_lowest(bb);
        let l = u64_trailing_zeros(bb) as int;
        let bb1 = bb & ((bb - 1u64) as u64);
        if s < l {
            assert(t == s) by {
                if t < s {
                    assert(sq_in(x, t));
                    assert(!sq_in(bb, t));
                }
                if t > s {
                    assert(!sq_in(x, s));
                }
            }
            assert forall|i: int| 0 <= i < 64 implies sq_in(x1, i) == sq_in(bb, i) by {}
            lemma_sq_ext(x1, bb);
        } else {
            assert(s != l);
            assert(t == l) by {
                if t < l {
                    assert(sq_in(x, t));
                    assert(!sq_in(bb, t));
                }
                if t > l {
                    assert(!sq_in(x, l));
                }
            }
            lemma_pop_add(bb1, s);
            assert forall|i: int| 0 <= i < 64 implies sq_in(x1, i) == sq_in(bb1 | m, i) by {}
            lemma_sq_ext(x1, bb1 | m);
            lemma_sum_terms_add(bb1, s, k, c, op, ep);
        }
    }
}

/// Putting a knight, bishop, rook or queen of colour `c` on an empty square
/// `s` adds the score of that piece to `c`'s side score (for a bishop, with
/// the pair bonus when it makes a pair) and leaves the other side's score
/// as it was; a queen adds 1025 in the middlegame and 936 in the endgame
/// plus its table score on `s`.
#[verifier::rlimit(60)]
pub proof fn law_side_score_of_added_piece(b: Board, s: int, k: PieceKind, c: Color)
    requires
        b.wf(),
        0 <= s < 64,
        !sq_in(b.white_pieces | b.black_pieces, s),
        k == PieceKind::Knight || k == PieceKind::Bishop || k == PieceKind::Rook || k == PieceKind::Queen,
    ensures
        k != PieceKind::Bishop ==> side_spec(b.with_piece(s, k, c), c) == padd(
            side_spec(b, c),
            term_spec(k, s, c, b.pawns & b.color_bb(c), b.pawns & b.color_bb(c.flip())),
        ),
        k == PieceKind::Queen ==> side_spec(b.with_piece(s, k, c), c) == padd(
            side_spec(b, c),
            padd((1025, 936), pst_spec(PieceKind::Queen, s, c)),
        ),
        k == PieceKind::Bishop ==> side_spec(b.with_piece(s, k, c), c) == padd(
            padd(
                side_spec(b, c),
                term_spec(k, s, c, b.pawns & b.color_bb(c), b.pawns & b.color_bb(c.flip())),
            ),
            if pop(b.bishops & b.color_bb(c)) == 1 {
                (23, 62)
            } else {
                (0, 0)
            },
        ),
        side_spec(b.with_piece(s, k, c), c.flip()) == side_spec(b, c.flip()),
{
    let b2 = b.with_piece(s, k, c);
    lemma_with_piece(b, s, k, c, PieceKind::Pawn, c);
    lemma_with_piece(b, s, k, c, PieceKind::Knight, c);
    lemma_with_piece(b, s, k, c, PieceKind::Bishop, c);
    lemma_with_piece(b, s, k, c, PieceKind::Rook, c);
    lemma_with_piece(b, s, k, c, PieceKind::Queen, c);
    lemma_with_piece(b, s, k, c, PieceKind::King, c);
    lemma_with_piece(b, s, k, c, PieceKind::Pawn, c.flip());
    lemma_with_piece(b, s, k, c, PieceKind::Knight, c.flip());
    lemma_with_piece(b, s, k, c, PieceKind::Bishop, c.flip());
    lemma_with_piece(b, s, k, c, PieceKind::Rook, c.flip());
    lemma_with_piece(b, s, k, c, PieceKind::Queen, c.flip());
    lemma_with_piece(b, s, k, c, PieceKind::King, c.flip());
    let op = b.pawns & b.color_bb(c);
    let ep = b.pawns & b.color_bb(c.flip());
    assert(b2.pawns & b2.color_bb(c) == op);
    assert(b2.pawns & b2.color_bb(c.flip()) == ep);
    lemma_sum_terms_add(b.kind_bb(k) & b.color_bb(c), s, k, c, op, ep);
    if k == PieceKind::Bishop {
        lemma_squares_finite(b.bishops & b.color_bb(c));
        lemma_pop_add(b.bishops & b.color_bb(c), s);
    }
    assert(b2.kings & b2.color_bb(c) == b.kings & b.color_bb(c));
    assert(b2.kings & b2.color_bb(c.flip()) == b.kings & b.color_bb(c.flip()));
    lemma_side_spec_change(b, b2, c);
    lemma_side_spec_change(b, b2, c.flip());
}

/// Two boards with the same pawns and king of `c` and the same enemy
/// pawns: their side scores for `c` differ by the difference of their
/// knight, bishop (with the pair), rook and queen parts.
proof fn lemma_side_spec_change(b: Board, b2: Board, c: Color)
    requires
        b2.pawns & b2.color_bb(c) == b.pawns & b.color_bb(c),
        b2.pawns & b2.color_bb(c.flip()) == b.pawns & b.color_bb(c.flip()),
        b2.kings & b2.color_bb(c) == b.kings & b.color_bb(c),
    ensures
        ({
            let op = b.pawns & b.color_bb(c);
            let ep = b.pawns & b.color_bb(c.flip());
            let pair = |x: u64| if pop(x) >= 2 { (23int, 62int) } else { (0int, 0int) };
            let d = |bb: Board| padd(
                padd(sum_terms(bb.knights & bb.color_bb(c), PieceKind::Knight, c, op, ep), sum_terms(bb.bishops & bb.color_bb(c), PieceKind::Bishop, c, op, ep)),
                padd(
                    pair(bb.bishops & bb.color_bb(c)),
                    padd(sum_terms(bb.rooks & bb.color_bb(c), PieceKind::Rook, c, op, ep), sum_terms(bb.queens & bb.color_bb(c), PieceKind::Queen, c, op, ep)),
                ),
            );
            &&& side_spec(b2, c).0 - side_spec(b, c).0 == d(b2).0 - d(b).0
            &&& side_spec(b2, c).1 - side_spec(b, c).1 == d(b2).1 - d(b).1
        }),
{
    reveal(side_spec);
}

fn eval_side(board: &Board, color: Color) -> (r: S)
    ensures
        sv(r) == side_spec(*board, color),
        pbound(sv(r), 600_000),
{
    proof {
        reveal(side_spec);
    }
    let our_pieces = match color {
        Color::White => board.white_pieces,
        Color::Black => board.black_pieces,
    };
    let enemy_pieces = match color {
        Color::White => board.black_pieces,
        Color::Black => board.white_pieces,
    };
    let our_pawns = board.pawns & our_pieces;
    let enemy_pawns = board.pawns & enemy_pieces;
    proof {
        lemma_squares_finite(our_pawns);
        lemma_squares_finite(board.knights & our_pieces);
        lemma_squares_finite(board.bishops & our_pieces);
        lemma_squares_finite(board.rooks & our_pieces);
        lemma_squares_finite(board.queens & our_pieces);
    }
    let pawns = kind_terms(our_pawns, PieceKind::Pawn, color, our_pawns, enemy_pawns);
    let knights = kind_terms(board.knights & our_pieces, PieceKind::Knight, color, our_pawns, enemy_pawns);
    let bishop_bb = board.bishops & our_pieces;
    let bishops = kind_terms(bishop_bb, PieceKind::Bishop, color, our_pawns, enemy_pawns);
    let pair = if popcount(bishop_bb) >= 2 {
        S { mg: 23, eg: 62 }
    } else {
        S { mg: 0, eg: 0 }
    };
    let rooks = kind_terms(board.rooks & our_pieces, PieceKind::Rook, color, our_pawns, enemy_pawns);
    let queens = kind_terms(board.queens & our_pieces, PieceKind::Queen, color, our_pawns, enemy_pawns);
    let king_bb = board.kings & our_pieces;
    let king = if king_bb != 0 {
        proof {
            lemma_clear_lowest(king_bb);
        }
        let king_sq = king_bb.trailing_zeros() as u8;
        pst_pair(PieceKind::King, king_sq, color).add(eval_king_safety(king_sq, our_pawns, enemy_pawns, color))
    } else {
        S { mg: 0, eg: 0 }
    };
    let structure = eval_pawn_structure(our_pawns, enemy_pawns, color);
    let a = pawns.add(knights).add(bishops.add(pair));
    let b = rooks.add(queens).add(king.add(structure));
    a.add(b)
}

/// The game phase, 256 with all pieces (knight and bishop 1, rook 2,
/// queen 4, at most 24 counted) down to 0 with none.
pub open spec fn phase_spec(b: Board) -> int {
    let p: int = (pop(b.knights) + pop(b.bishops) + 2 * pop(b.rooks) + 4 * pop(b.queens)) as int;
    let q: int = if p < 24 {
        p
    } else {
        24
    };
    q * 256 / 24
}

fn compute_phase(board: &Board) -> (r: i32)
    ensures
        r == phase_spec(*board),
        0 <= r <= 256,
{
    proof {
        lemma_squares_finite(board.knights);
        lemma_squares_finite(board.bishops);
        lemma_squares_finite(board.rooks);
        lemma_squares_finite(board.queens);
    }
    let mut phase: i32 = 0;
    phase = phase + popcount(board.knights) as i32;
    phase = phase + popcount(board.bishops) as i32;
    phase = phase + popcount(board.rooks) as i32 * 2;
    phase = phase + popcount(board.queens) as i32 * 4;
    let phase = if phase < 24 {
        phase
    } else {
        24
    };
    (phase * 256) / 24
}

/// Division by 256 rounding toward zero.
pub open spec fn div256(x: int) -> int {
    if x >= 0 {
        x / 256
    } else {
        -((-x) / 256)
    }
}

fn div256_exec(x: i32) -> (r: i32)
    requires
        x > i32::MIN,
    ensures
        r == div256(x as int),
{
    if x >= 0 {
        x / 256
    } else {
        -((-x) / 256)
    }
}

/// The piece-square evaluation of `b` for the side to move: White's side
/// score minus Black's plus a tempo of 28/15, the middlegame and endgame
/// parts blended by the phase.
pub open spec fn pst_eval_spec(b: Board) -> int {
    let ph = phase_spec(b);
    let w = side_spec(b, Color::White);
    let bl = side_spec(b, Color::Black);
    let mg = w.0 - bl.0 + 28;
    let eg = w.1 - bl.1 + 15;
    let v = div256(mg * ph + eg * (256 - ph));
    match b.to_move {
        Color::White => v,
        Color::Black => -v,
    }
}

/// Evaluation by piece-square tables, pawn structure, piece placement and
/// king safety, tapered between middlegame and endgame.
pub struct PstEvaluator;

impl Evaluator for PstEvaluator {
    open spec fn value(&self, b: Board) -> int {
        pst_eval_spec(b)
    }

    fn evaluate(&self, board: &Board) -> (s: Score)
        ensures
            s == pst_eval_spec(*board),
    {
        let phase = compute_phase(board);
        let white_score = eval_side(board, Color::White);
        let black_score = eval_side(board, Color::Black);
        let mg = white_score.mg - black_score.mg + 28;
        let eg = white_score.eg - black_score.eg + 15;
        proof {
            assert(-1_300_000 * 256 <= mg * phase <= 1_300_000 * 256) by (nonlinear_arith)
                requires
                    -1_300_000 <= mg <= 1_300_000,
                    0 <= phase <= 256,
            ;
            assert(-1_300_000 * 256 <= eg * (256 - phase) <= 1_300_000 * 256) by (nonlinear_arith)
                requires
                    -1_300_000 <= eg <= 1_300_000,
                    0 <= phase <= 256,
            ;
        }
        let score = div256_exec(mg * phase + eg * (256 - phase));
        if board.to_move == Color::White {
            score
        } else {
            -score
        }
    }

    fn name(&self) -> &str {
        "pst-eval-v3"
    }
}

/// Turning the board over to the other side to move negates the
/// evaluation: it scores the same position from the other side.
pub proof fn lemma_pst_antisymmetric(b: Board, b2: Board)
    requires
        b2 == (Board { to_move: b.to_move.flip(), ..b }),
    ensures
        pst_eval_spec(b2) == -pst_eval_spec(b),
{
    reveal(side_spec);
    assert(side_spec(b2, Color::White) == side_spec(b, Color::White));
    assert(side_spec(b2, Color::Black) == side_spec(b, Color::Black));
    assert(phase_spec(b2) == phase_spec(b));
}

} // verus!
