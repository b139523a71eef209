use vstd::prelude::*;
use vstd::std_specs::bits::{u64_trailing_zeros, u64_leading_zeros, axiom_u64_trailing_zeros, axiom_u64_leading_zeros};
use crate::bits::{pop, lemma_squares_finite};
use crate::board::Board;
use crate::types::{Color, PieceKind, Move, kind_value};
use crate::intrinsics::popcount;
use crate::engine::eval::pst::{bounded, lemma_bounded};
use crate::engine::eval::masks::{file_bits, file_mask};
use crate::game::movegen::pseudo_legal;

verus! {

/// Pawn placement bonuses, from White's side (a1 first).
pub const PAWN_PST: [i32; 64] = [
    0, 0, 0, 0, 0, 0, 0, 0,
    5, 10, 10, -20, -20, 10, 10, 5,
    5, -5, -10, 0, 0, -10, -5, 5,
    0, 0, 0, 20, 20, 0, 0, 0,
    5, 5, 10, 25, 25, 10, 5, 5,
    10, 10, 20, 30, 30, 20, 10, 10,
    50, 50, 50, 50, 50, 50, 50, 50,
    0, 0, 0, 0, 0, 0, 0, 0,
];

/// Knight placement bonuses.
pub const KNIGHT_PST: [i32; 64] = [
    -50, -40, -30, -30, -30, -30, -40, -50,
    -40, -20, 0, 0, 0, 0, -20, -40,
    -30, 0, 10, 15, 15, 10, 0, -30,
    -30, 5, 15, 20, 20, 15, 5, -30,
    -30, 0, 15, 20, 20, 15, 0, -30,
    -30, 5, 10, 15, 15, 10, 5, -30,
    -40, -20, 0, 5, 5, 0, -20, -40,
    -50, -40, -30, -30, -30, -30, -40, -50,
];

/// Bishop placement bonuses.
pub const BISHOP_PST: [i32; 64] = [
    -20, -10, -10, -10, -10, -10, -10, -20,
    -10, 0, 0, 0, 0, 0, 0, -10,
    -10, 0, 5, 10, 10, 5, 0, -10,
    -10, 5, 5, 10, 10, 5, 5, -10,
    -10, 0, 10, 10, 10, 10, 0, -10,
    -10, 10, 10, 10, 10, 10, 10, -10,
    -10, 5, 0, 0, 0, 0, 5, -10,
    -20, -10, -10, -10, -10, -10, -10, -20,
];

/// Rook placement bonuses.
pub const ROOK_PST: [i32; 64] = [
    0, 0, 0, 0, 0, 0, 0, 0,
    5, 10, 10, 10, 10, 10, 10, 5,
    -5, 0, 0, 0, 0, 0, 0, -5,
    -5, 0, 0, 0, 0, 0, 0, -5,
    -5, 0, 0, 0, 0, 0, 0, -5,
    -5, 0, 0, 0, 0, 0, 0, -5,
    -5, 0, 0, 0, 0, 0, 0, -5,
    0, 0, 0, 5, 5, 0, 0, 0,
];

/// Queen placement bonuses.
pub const QUEEN_PST: [i32; 64] = [
    -20, -10, -10, -5, -5, -10, -10, -20,
    -10, 0, 0, 0, 0, 0, 0, -10,
    -10, 0, 5, 5, 5, 5, 0, -10,
    -5, 0, 5, 5, 5, 5, 0, -5,
    0, 0, 5, 5, 5, 5, 0, -5,
    -10, 5, 5, 5, 5, 5, 0, -10,
    -10, 0, 5, 0, 0, 0, 0, -10,
    -20, -10, -10, -5, -5, -10, -10, -20,
];

/// King placement bonuses.
pub const KING_PST: [i32; 64] = [
    -30, -40, -40, -50, -50, -40, -40, -30,
    -30, -40, -40, -50, -50, -40, -40, -30,
    -30, -40, -40, -50, -50, -40, -40, -30,
    -30, -40, -40, -50, -50, -40, -40, -30,
    -20, -30, -30, -40, -40, -30, -30, -20,
    -10, -20, -20, -20, -20, -20, -20, -10,
    20, 20, 0, 0, 0, 0, 20, 20,
    20, 30, 10, 0, 0, 10, 30, 20,
];

/// The placement table of a piece kind.
pub open spec fn table_of(k: PieceKind) -> Seq<i32> {
    match k {
        PieceKind::Pawn => PAWN_PST@,
        PieceKind::Knight => KNIGHT_PST@,
        PieceKind::Bishop => BISHOP_PST@,
        PieceKind::Rook => ROOK_PST@,
        PieceKind::Queen => QUEEN_PST@,
        PieceKind::King => KING_PST@,
    }
}

/// Every placement bonus is within 50.
proof fn lemma_tables_small()
    ensures
        forall|k: PieceKind, i: int| 0 <= i < 64 ==> -50 <= #[trigger] table_of(k)[i] <= 50,
{
    reveal_with_fuel(bounded, 65);
    assert(bounded(PAWN_PST@, 64, 50));
    assert(bounded(KNIGHT_PST@, 64, 50));
    assert(bounded(BISHOP_PST@, 64, 50));
    assert(bounded(ROOK_PST@, 64, 50));
    assert(bounded(QUEEN_PST@, 64, 50));
    assert(bounded(KING_PST@, 64, 50));
    lemma_bounded(PAWN_PST@, 64, 50);
    lemma_bounded(KNIGHT_PST@, 64, 50);
    lemma_bounded(BISHOP_PST@, 64, 50);
    lemma_bounded(ROOK_PST@, 64, 50);
    lemma_bounded(QUEEN_PST@, 64, 50);
    lemma_bounded(KING_PST@, 64, 50);
}

/// The table index of square `s` for colour `c`: the square itself for
/// White, mirrored across the middle rank for Black.
pub open spec fn table_index(s: int, c: Color) -> int {
    match c {
        Color::White => s,
        Color::Black => 56 - (s / 8) * 8 + s % 8,
    }
}

/// The placement bonus of a piece of kind `k` and colour `c` on `s`.
pub open spec fn placement(k: PieceKind, s: int, c: Color) -> int {
    table_of(k)[table_index(s, c)] as int
}

/// `v` for White, `-v` for Black.
pub open spec fn signed(c: Color, v: int) -> int {
    match c {
        Color::White => v,
        Color::Black => -v,
    }
}

/// The material and placement of the piece on `s` (if any), for White.
pub open spec fn square_worth(b: Board, s: int) -> int {
    match b.piece_at(s) {
        None => 0,
        Some(p) => signed(p.color, kind_value(p.kind) + placement(p.kind, s, p.color)),
    }
}

/// The material and placement of squares `0..n`, for White.
pub open spec fn worth_upto(b: Board, n: int) -> int
    decreases n,
{
    if n <= 0 {
        0
    } else {
        worth_upto(b, n - 1) + square_worth(b, n - 1)
    }
}

/// Division rounding toward zero.
pub open spec fn tdiv(x: int, d: int) -> int {
    if x >= 0 {
        x / d
    } else {
        -((-x) / d)
    }
}

/// Distance of `a` from `b`.
pub open spec fn dist(a: int, b: int) -> int {
    if a >= b {
        a - b
    } else {
        b - a
    }
}

/// The pawn shield term of file `f` for a king of colour `c` on rank `kr`:
/// the most advanced own pawn of the file one or two ranks ahead earns
/// 20 or 10; no own pawn on the file costs 15; off the board, nothing.
pub open spec fn shield_file(b: Board, c: Color, kr: int, f: int) -> int {
    if f < 0 || f > 7 {
        0
    } else {
        let fp = b.pawns & b.color_bb(c) & file_bits(f);
        if fp != 0 {
            let psq = match c {
                Color::White => 63 - u64_leading_zeros(fp),
                Color::Black => u64_trailing_zeros(fp) as int,
            };
            let pr = psq / 8;
            let rd = match c {
                Color::White => pr - kr,
                Color::Black => kr - pr,
            };
            if 1 <= rd <= 2 {
                (3 - rd) * 10
            } else {
                0
            }
        } else {
            -15
        }
    }
}

/// The open-file penalty of file `f` next to a king of colour `c`: 25 with
/// no pawn, 15 with only enemy pawns.
pub open spec fn open_file(b: Board, c: Color, f: int) -> int {
    if f < 0 || f > 7 {
        0
    } else {
        let fp = b.pawns & file_bits(f);
        if fp == 0 {
            25
        } else if fp & b.color_bb(c) == 0 {
            15
        } else {
            0
        }
    }
}

/// The safety of the king of colour `c`: without a king -1000; otherwise
/// a penalty for a central king while queens remain, 30 for a castled
/// king, the pawn shield and the open files around it.
pub open spec fn king_safety_of(b: Board, c: Color) -> int {
    let kb = b.kings & b.color_bb(c);
    if kb == 0 {
        -1000
    } else {
        let ks = u64_trailing_zeros(kb) as int;
        let kf = ks % 8;
        let kr = ks / 8;
        let d = dist(kf, 3) + dist(kr, 3);
        let center = if b.queens != 0 && d < 3 {
            -(3 - d) * 20
        } else {
            0
        };
        let castled = match c {
            Color::White => ks == 6 || ks == 2,
            Color::Black => ks == 62 || ks == 58,
        };
        center + (if castled {
            30int
        } else {
            0int
        }) + (shield_file(b, c, kr, kf - 1) + shield_file(b, c, kr, kf) + shield_file(b, c, kr, kf + 1)) - (
        open_file(b, c, kf - 1) + open_file(b, c, kf) + open_file(b, c, kf + 1))
    }
}

/// King safety for White: 100 for each king in check (against its side)
/// and the difference of the kings' safety.
pub open spec fn king_safety_spec(b: Board) -> int {
    (if b.white_king_in_check {
        -100int
    } else {
        0int
    }) + (if b.black_king_in_check {
        100int
    } else {
        0int
    }) + king_safety_of(b, Color::White) - king_safety_of(b, Color::Black)
}

/// The squares from which a pawn of colour `c` would attack `sq`.
pub open spec fn pawn_attack_pattern(sq: int, c: Color) -> u64 {
    let t = 1u64 << (sq as u64);
    match c {
        Color::White => ((t >> 7u64) & 0xFEFEFEFEFEFEFEFEu64) | ((t >> 9u64) & 0x7F7F7F7F7F7F7F7Fu64),
        Color::Black => ((t << 9u64) & 0xFEFEFEFEFEFEFEFEu64) | ((t << 7u64) & 0x7F7F7F7F7F7F7F7Fu64),
    }
}

/// The attackers of `sq` of colour `c` that are counted: 1 when a pawn of
/// `c` attacks it, 0 otherwise.
pub open spec fn attackers_count(b: Board, sq: int, c: Color) -> int {
    if (b.pawns & b.color_bb(c)) & pawn_attack_pattern(sq, c) != 0 {
        1
    } else {
        0
    }
}

/// The penalty of the piece on `s`, for White: a fifth of its value when
/// it has more attackers than defenders.
pub open spec fn attacked_term(b: Board, s: int) -> int {
    match b.piece_at(s) {
        None => 0,
        Some(p) => if attackers_count(b, s, p.color.flip()) > attackers_count(b, s, p.color) {
            -signed(p.color, kind_value(p.kind) / 5)
        } else {
            0
        },
    }
}

/// The attacked-piece penalties of squares `0..n`, for White.
pub open spec fn attacked_upto(b: Board, n: int) -> int
    decreases n,
{
    if n <= 0 {
        0
    } else {
        attacked_upto(b, n - 1) + attacked_term(b, n - 1)
    }
}

/// 15 for each bishop, rook or queen that could pin, for White.
pub open spec fn pins_spec(b: Board) -> int {
    let diag = b.bishops | b.queens;
    let straight = b.rooks | b.queens;
    (15 * pop(diag & b.white_pieces) - 15 * pop(diag & b.black_pieces)) + (15 * pop(straight & b.white_pieces)
        - 15 * pop(straight & b.black_pieces))
}

/// The eight knight jumps, as square offsets.
pub open spec fn knight_delta(k: int) -> int {
    if k == 0 {
        17
    } else if k == 1 {
        15
    } else if k == 2 {
        10
    } else if k == 3 {
        6
    } else if k == 4 {
        -6
    } else if k == 5 {
        -10
    } else if k == 6 {
        -15
    } else {
        -17
    }
}

/// The jump by `d` from `sq` lands on the board a knight's move away.
pub open spec fn knight_jump_ok(sq: int, d: int) -> bool {
    let t = sq + d;
    &&& 0 <= t < 64
    &&& {
        let fd = dist(t % 8, sq % 8);
        let rd = dist(t / 8, sq / 8);
        (fd == 2 && rd == 1) || (fd == 1 && rd == 2)
    }
}

/// The squares reached by the first `k` knight jumps from `sq`.
pub open spec fn knight_jumps(sq: int, k: int) -> u64
    decreases k,
{
    if k <= 0 {
        0
    } else {
        let d = knight_delta(k - 1);
        if knight_jump_ok(sq, d) {
            knight_jumps(sq, k - 1) | (1u64 << ((sq + d) as u64))
        } else {
            knight_jumps(sq, k - 1)
        }
    }
}

/// The fork bonus of a knight of colour `c` on `s`: 100 per enemy piece
/// it attacks, when it attacks at least two.
pub open spec fn fork_term(b: Board, s: int, c: Color) -> int {
    let a = knight_jumps(s, 8) & b.color_bb(c.flip());
    if pop(a) >= 2 {
        (100 * pop(a)) as int
    } else {
        0
    }
}

/// The fork bonuses of the knights in `kn` on squares `0..n`.
pub open spec fn forks_upto(b: Board, kn: u64, c: Color, n: int) -> int
    decreases n,
{
    if n <= 0 {
        0
    } else {
        forks_upto(b, kn, c, n - 1) + (if kn & (1u64 << ((n - 1) as u64)) != 0 {
            fork_term(b, n - 1, c)
        } else {
            0
        })
    }
}

/// The eight king steps, as square offsets.
pub open spec fn king_delta(k: int) -> int {
    if k == 0 {
        -9
    } else if k == 1 {
        -8
    } else if k == 2 {
        -7
    } else if k == 3 {
        -1
    } else if k == 4 {
        1
    } else if k == 5 {
        7
    } else if k == 6 {
        8
    } else {
        9
    }
}

/// Of the first `k` king steps from `kp`, those landing on the board on a
/// square without a piece of colour `c`.
pub open spec fn escapes_upto(b: Board, kp: int, c: Color, k: int) -> int
    decreases k,
{
    if k <= 0 {
        0
    } else {
        let t = kp + king_delta(k - 1);
        escapes_upto(b, kp, c, k - 1) + (if 0 <= t < 64 && b.color_bb(c) & (1u64 << (t as u64)) == 0 {
            1int
        } else {
            0int
        })
    }
}

/// The back-rank threats, for White: a king on its first rank with no
/// escape square costs 150.
pub open spec fn back_rank_spec(b: Board) -> int {
    let wk = u64_trailing_zeros(b.kings & b.white_pieces) as int;
    let bk = u64_trailing_zeros(b.kings & b.black_pieces) as int;
    (if wk < 8 && escapes_upto(b, wk, Color::White, 8) == 0 {
        -150int
    } else {
        0int
    }) + (if bk >= 56 && escapes_upto(b, bk, Color::Black, 8) == 0 {
        150int
    } else {
        0int
    })
}

/// The tactical patterns, for White: attacked pieces, possible pins,
/// knight forks and back-rank threats.
pub open spec fn tactical_spec(b: Board) -> int {
    attacked_upto(b, 64) + pins_spec(b) + (forks_upto(b, b.knights & b.white_pieces, Color::White, 64) - forks_upto(
        b,
        b.knights & b.black_pieces,
        Color::Black,
        64,
    )) + back_rank_spec(b)
}

/// Piece activity, for White: 25 for each undeveloped minor piece on its
/// first rank (against its side), 30 for each knight on the fourth to sixth
/// ranks.
pub open spec fn activity_spec(b: Board) -> int {
    let wm = (b.knights | b.bishops) & b.white_pieces;
    let bm = (b.knights | b.bishops) & b.black_pieces;
    let outposts = 0x0000FFFFFF000000u64;
    (-(pop(wm & 0x00000000000000FFu64) * 25) + pop(bm & 0xFF00000000000000u64) * 25) + (pop(
        (b.knights & b.white_pieces) & outposts,
    ) * 30 - pop((b.knights & b.black_pieces) & outposts) * 30)
}

/// Doubled-pawn penalties of files `0..n`, for White: 25 for each pawn
/// beyond the first on a file.
pub open spec fn doubled_upto(b: Board, n: int) -> int
    decreases n,
{
    if n <= 0 {
        0
    } else {
        let w = pop((b.pawns & b.white_pieces) & file_bits(n - 1)) as int;
        let k = pop((b.pawns & b.black_pieces) & file_bits(n - 1)) as int;
        doubled_upto(b, n - 1) + (if w > 1 {
            -25 * (w - 1)
        } else {
            0
        }) + (if k > 1 {
            25 * (k - 1)
        } else {
            0
        })
    }
}

/// The files next to file `f`.
pub open spec fn adjacent_bits(f: int) -> u64 {
    (if f > 0 {
        file_bits(f - 1)
    } else {
        0u64
    }) | (if f < 7 {
        file_bits(f + 1)
    } else {
        0u64
    })
}

/// Isolated-pawn penalties of files `0..n`, for White: 20 for a file
/// with pawns and none next to it.
pub open spec fn isolated_upto(b: Board, n: int) -> int
    decreases n,
{
    if n <= 0 {
        0
    } else {
        let f = n - 1;
        let w = b.pawns & b.white_pieces;
        let k = b.pawns & b.black_pieces;
        isolated_upto(b, n - 1) + (if (w & file_bits(f)) != 0 && (w & adjacent_bits(f)) == 0 {
            -20int
        } else {
            0int
        }) + (if (k & file_bits(f)) != 0 && (k & adjacent_bits(f)) == 0 {
            20int
        } else {
            0int
        })
    }
}

/// The number of pseudo-legal moves of colour `c` on `b`.
pub open spec fn pseudo_count(b: Board, c: Color) -> nat {
    Set::new(|m: Move| pseudo_legal(Board { to_move: c, ..b }, m)).len()
}

/// The material of squares `0..n`, kings included.
pub open spec fn material_upto(b: Board, n: int) -> int
    decreases n,
{
    if n <= 0 {
        0
    } else {
        material_upto(b, n - 1) + match b.piece_at(n - 1) {
            Some(p) => kind_value(p.kind) as int,
            None => 0,
        }
    }
}

/// The endgame: no queens, or less than 2000 of material.
pub open spec fn endgame_spec(b: Board) -> bool {
    b.queens == 0 || material_upto(b, 64) < 2000
}

/// Mobility, for White: White's pseudo-legal moves minus Black's (as
/// 32-bit numbers), halved before the endgame.
pub open spec fn mobility_spec(b: Board) -> int {
    let d = (pseudo_count(b, Color::White) as i32).wrapping_sub(pseudo_count(b, Color::Black) as i32);
    if endgame_spec(b) {
        d as int
    } else {
        tdiv(d as int, 2)
    }
}

/// The evaluation of `b`, positive when White is better, whoever is to
/// move: the sum for White of material and placement, king safety, tactical
/// patterns, activity, pawn structure and a quarter of the mobility.
pub open spec fn evaluate_spec(b: Board) -> int {
    worth_upto(b, 64) + king_safety_spec(b) + tactical_spec(b) + activity_spec(b) + (doubled_upto(b, 8)
        + isolated_upto(b, 8)) + tdiv(mobility_spec(b), 4)
}

/// A sequence without repeats holding exactly the elements satisfying `p`
/// is as long as the set of them.
proof fn lemma_count_set(s: Seq<Move>, p: spec_fn(Move) -> bool)
    requires
        s.no_duplicates(),
        forall|m: Move| #[trigger] s.contains(m) <==> p(m),
    ensures
        s.len() == Set::new(p).len(),
{
    s.unique_seq_to_set();
    assert(s.to_set() =~= Set::new(p));
}

/// The squares a knight on `square` attacks.
pub fn knight_attack_bits(square: u8) -> (r: u64)
    requires
        square < 64,
    ensures
        r == knight_jumps(square as int, 8),
{
    let sq = square as i8;
    let mut attacks: u64 = 0;
    let mut k: usize = 0;
    while k < 8
        invariant
            k <= 8,
            sq == square,
            square < 64,
            attacks == knight_jumps(square as int, k as int),
        decreases 8 - k,
    {
        let delta: i8 = if k == 0 {
            17
        } else if k == 1 {
            15
        } else if k == 2 {
            10
        } else if k == 3 {
            6
        } else if k == 4 {
            -6
        } else if k == 5 {
            -10
        } else if k == 6 {
            -15
        } else {
            -17
        };
        assert(delta == knight_delta(k as int));
        let mv = sq + delta;
        let ghost before = attacks;
        if mv >= 0 && mv < 64 {
            let fa = mv % 8;
            let fb = sq % 8;
            let ra = mv / 8;
            let rb = sq / 8;
            let file_diff = if fa >= fb {
                fa - fb
            } else {
                fb - fa
            };
            let rank_diff = if ra >= rb {
                ra - rb
            } else {
                rb - ra
            };
            assert(fa == mv as int % 8 && fb == square as int % 8 && ra == mv as int / 8 && rb == square as int / 8);
            if (file_diff == 2 && rank_diff == 1) || (file_diff == 1 && rank_diff == 2) {
                attacks = attacks | (1u64 << (mv as u64));
            }
        }
        assert(attacks == knight_jumps(square as int, k + 1));
        k = k + 1;
    }
    attacks
}

/// The evaluation of the search engine: material, placement, king safety,
/// tactics, activity, pawn structure and a quarter of the mobility.
pub struct Evaluator {}

impl Evaluator {
    pub fn new() -> (e: Self) {
        Evaluator {  }
    }

    /// The placement bonus of a piece.
    fn get_pst_value(&self, piece: PieceKind, square: u8, color: Color) -> (r: i32)
        requires
            square < 64,
        ensures
            r == placement(piece, square as int, color),
            -50 <= r <= 50,
    {
        proof {
            lemma_tables_small();
            assert(square < 64 ==> (square & 56) == (square / 8) * 8 && (square & 7) == square % 8) by (bit_vector);
        }
        let pst_index = if color == Color::White {
            square as usize
        } else {
            (56 - (square & 56) + (square & 7)) as usize
        };
        match piece {
            PieceKind::Pawn => PAWN_PST[pst_index],
            PieceKind::Knight => KNIGHT_PST[pst_index],
            PieceKind::Bishop => BISHOP_PST[pst_index],
            PieceKind::Rook => ROOK_PST[pst_index],
            PieceKind::Queen => QUEEN_PST[pst_index],
            PieceKind::King => KING_PST[pst_index],
        }
    }

    /// Material and placement of all pieces, for White.
    fn evaluate_material_and_position(&self, board: &Board) -> (r: i32)
        requires
            board.wf(),
        ensures
            r == worth_upto(*board, 64),
            -64 * 20050 <= r <= 64 * 20050,
    {
        let mut score: i32 = 0;
        let mut square: u8 = 0;
        while square < 64
            invariant
                board.wf(),
                square <= 64,
                score == worth_upto(*board, square as int),
                -square * 20050 <= score <= square * 20050,
            decreases 64 - square,
        {
            if let Some(piece) = board.get_piece_at(square) {
                let piece_value = piece.kind.value();
                let position_bonus = self.get_pst_value(piece.kind, square, piece.color);
                let total_value = piece_value + position_bonus;
                match piece.color {
                    Color::White => score = score + total_value,
                    Color::Black => score = score - total_value,
                }
            }
            square = square + 1;
        }
        score
    }

    /// The shield term of one file next to the king.
    fn shield_for_file(&self, board: &Board, color: Color, king_rank: u8, check_file: i32) -> (r: i32)
        ensures
            r == shield_file(*board, color, king_rank as int, check_file as int),
            -15 <= r <= 20,
    {
        if check_file < 0 || check_file > 7 {
            return 0;
        }
        let pawn_bb = board.pawns & if color == Color::White {
            board.white_pieces
        } else {
            board.black_pieces
        };
        let file_pawns = pawn_bb & file_mask(check_file as u8);
        if file_pawns != 0 {
            proof {
                axiom_u64_leading_zeros(file_pawns);
                axiom_u64_trailing_zeros(file_pawns);
            }
            let pawn_square: u8 = if color == Color::White {
                63 - file_pawns.leading_zeros() as u8
            } else {
                file_pawns.trailing_zeros() as u8
            };
            let pawn_rank = pawn_square / 8;
            let rank_diff: i32 = if color == Color::White {
                pawn_rank as i32 - king_rank as i32
            } else {
                king_rank as i32 - pawn_rank as i32
            };
            if rank_diff >= 1 && rank_diff <= 2 {
                (3 - rank_diff) * 10
            } else {
                0
            }
        } else {
            -15
        }
    }

    /// The pawn shield of the king of `color` on `king_square`: the three
    /// files around it.
    fn evaluate_pawn_shield(&self, board: &Board, color: Color, king_square: u8) -> (r: i32)
        requires
            king_square < 64,
        ensures
            r == shield_file(*board, color, king_square as int / 8, king_square as int % 8 - 1) + shield_file(
                *board,
                color,
                king_square as int / 8,
                king_square as int % 8,
            ) + shield_file(*board, color, king_square as int / 8, king_square as int % 8 + 1),
            -45 <= r <= 60,
    {
        let king_file = king_square % 8;
        let king_rank = king_square / 8;
        let a = self.shield_for_file(board, color, king_rank, king_file as i32 - 1);
        let b = self.shield_for_file(board, color, king_rank, king_file as i32);
        let c = self.shield_for_file(board, color, king_rank, king_file as i32 + 1);
        a + b + c
    }

    /// The open-file penalty of one file next to the king.
    fn open_file_penalty(&self, board: &Board, color: Color, check_file: i32) -> (r: i32)
        ensures
            r == open_file(*board, color, check_file as int),
            0 <= r <= 25,
    {
        if check_file < 0 || check_file > 7 {
            return 0;
        }
        let file_pawns = board.pawns & file_mask(check_file as u8);
        if file_pawns == 0 {
            25
        } else {
            let our_pawns = file_pawns & if color == Color::White {
                board.white_pieces
            } else {
                board.black_pieces
            };
            if our_pawns == 0 {
                15
            } else {
                0
            }
        }
    }

    /// The open-file penalty of the three files around the king.
    fn evaluate_open_files_near_king(&self, board: &Board, color: Color, king_square: u8) -> (r: i32)
        requires
            king_square < 64,
        ensures
            r == open_file(*board, color, king_square as int % 8 - 1) + open_file(*board, color, king_square as int % 8)
                + open_file(*board, color, king_square as int % 8 + 1),
            0 <= r <= 75,
    {
        let king_file = king_square % 8;
        let a = self.open_file_penalty(board, color, king_file as i32 - 1);
        let b = self.open_file_penalty(board, color, king_file as i32);
        let c = self.open_file_penalty(board, color, king_file as i32 + 1);
        a + b + c
    }

    /// Queens are on the board.
    fn is_middlegame(&self, board: &Board) -> (r: bool)
        ensures
            r == (board.queens != 0),
    {
        board.queens != 0
    }

    /// The safety of the king of `color`.
    fn evaluate_king_safety_for_color(&self, board: &Board, color: Color) -> (r: i32)
        ensures
            r == king_safety_of(*board, color),
            -1000 <= r <= 200,
    {
        let mut safety_score: i32 = 0;
        let king_bb = board.kings & if color == Color::White {
            board.white_pieces
        } else {
            board.black_pieces
        };
        if king_bb == 0 {
            return -1000;
        }
        proof {
            axiom_u64_trailing_zeros(king_bb);
        }
        let king_square = king_bb.trailing_zeros() as u8;
        let king_file = king_square % 8;
        let king_rank = king_square / 8;
        if self.is_middlegame(board) {
            let df: i32 = if king_file >= 3 {
                king_file as i32 - 3
            } else {
                3 - king_file as i32
            };
            let dr: i32 = if king_rank >= 3 {
                king_rank as i32 - 3
            } else {
                3 - king_rank as i32
            };
            let center_distance = df + dr;
            if center_distance < 3 {
                safety_score = safety_score - (3 - center_distance) * 20;
            }
        }
        if color == Color::White {
            if king_square == 6 || king_square == 2 {
                safety_score = safety_score + 30;
            }
        } else {
            if king_square == 62 || king_square == 58 {
                safety_score = safety_score + 30;
            }
        }
        safety_score = safety_score + self.evaluate_pawn_shield(board, color, king_square);
        safety_score = safety_score - self.evaluate_open_files_near_king(board, color, king_square);
        safety_score
    }

    /// King safety for White.
    fn evaluate_king_safety(&self, board: &Board) -> (r: i32)
        ensures
            r == king_safety_spec(*board),
            -1400 <= r <= 1400,
    {
        let mut score: i32 = 0;
        if board.white_king_in_check {
            score = score - 100;
        }
        if board.black_king_in_check {
            score = score + 100;
        }
        score = score + self.evaluate_king_safety_for_color(board, Color::White);
        score = score - self.evaluate_king_safety_for_color(board, Color::Black);
        score
    }

    /// 1 when a pawn of `color` attacks `square`, 0 otherwise.
    fn count_attackers(&self, board: &Board, square: u8, color: Color) -> (r: u8)
        requires
            square < 64,
        ensures
            r == attackers_count(*board, square as int, color),
    {
        let mut count: u8 = 0;
        let target_bb = 1u64 << square;
        let pawn_attacks = if color == Color::White {
            let left_attack = (target_bb >> 7u64) & 0xFEFEFEFEFEFEFEFEu64;
            let right_attack = (target_bb >> 9u64) & 0x7F7F7F7F7F7F7F7Fu64;
            left_attack | right_attack
        } else {
            let left_attack = (target_bb << 9u64) & 0xFEFEFEFEFEFEFEFEu64;
            let right_attack = (target_bb << 7u64) & 0x7F7F7F7F7F7F7F7Fu64;
            left_attack | right_attack
        };
        let our_pawns = board.pawns & if color == Color::White {
            board.white_pieces
        } else {
            board.black_pieces
        };
        if (our_pawns & pawn_attacks) != 0 {
            count = count + 1;
        }
        count
    }

    /// Penalties for pieces with more attackers than defenders, for White.
    fn evaluate_attacked_pieces(&self, board: &Board) -> (r: i32)
        requires
            board.wf(),
        ensures
            r == attacked_upto(*board, 64),
            -64 * 4000 <= r <= 64 * 4000,
    {
        let mut score: i32 = 0;
        let mut square: u8 = 0;
        while square < 64
            invariant
                board.wf(),
                square <= 64,
                score == attacked_upto(*board, square as int),
                -square * 4000 <= score <= square * 4000,
            decreases 64 - square,
        {
            if let Some(piece) = board.get_piece_at(square) {
                let attackers = self.count_attackers(board, square, piece.color.opposite());
                let defenders = self.count_attackers(board, square, piece.color);
                if attackers > defenders {
                    let penalty = piece.kind.value() / 5;
                    if piece.color == Color::White {
                        score = score - penalty;
                    } else {
                        score = score + penalty;
                    }
                }
            }
            square = square + 1;
        }
        score
    }

    /// 15 for each piece that could pin.
    fn find_pins_from_pieces(&self, pieces: u64) -> (r: i32)
        ensures
            r == 15 * pop(pieces),
            0 <= r <= 15 * 64,
    {
        proof {
            lemma_squares_finite(pieces);
        }
        popcount(pieces) as i32 * 15
    }

    /// Possible pins along diagonals, for White.
    fn check_diagonal_pins(&self, board: &Board) -> (r: i32)
        ensures
            r == 15 * pop((board.bishops | board.queens) & board.white_pieces) - 15 * pop((board.bishops
                | board.queens) & board.black_pieces),
            -15 * 64 <= r <= 15 * 64,
    {
        let white_diagonal_pieces = (board.bishops | board.queens) & board.white_pieces;
        let black_diagonal_pieces = (board.bishops | board.queens) & board.black_pieces;
        self.find_pins_from_pieces(white_diagonal_pieces) - self.find_pins_from_pieces(black_diagonal_pieces)
    }

    /// Possible pins along ranks and files, for White.
    fn check_straight_pins(&self, board: &Board) -> (r: i32)
        ensures
            r == 15 * pop((board.rooks | board.queens) & board.white_pieces) - 15 * pop((board.rooks
                | board.queens) & board.black_pieces),
            -15 * 64 <= r <= 15 * 64,
    {
        let white_straight_pieces = (board.rooks | board.queens) & board.white_pieces;
        let black_straight_pieces = (board.rooks | board.queens) & board.black_pieces;
        self.find_pins_from_pieces(white_straight_pieces) - self.find_pins_from_pieces(black_straight_pieces)
    }

    /// Pins and skewers, for White.
    fn evaluate_pins_and_skewers(&self, board: &Board) -> (r: i32)
        ensures
            r == pins_spec(*board),
            -4000 <= r <= 4000,
    {
        self.check_diagonal_pins(board) + self.check_straight_pins(board)
    }

    /// The squares a knight on `square` attacks.
    fn generate_knight_attacks(&self, square: u8) -> (r: u64)
        requires
            square < 64,
        ensures
            r == knight_jumps(square as int, 8),
    {
        knight_attack_bits(square)
    }

    /// Fork bonuses of the knights `knights` of `color`.
    fn count_knight_forks(&self, board: &Board, knights: u64, color: Color) -> (r: i32)
        ensures
            r == forks_upto(*board, knights, color, 64),
            0 <= r <= 64 * 6400,
    {
        let mut fork_score: i32 = 0;
        let enemy_pieces = if color == Color::White {
            board.black_pieces
        } else {
            board.white_pieces
        };
        let mut square: u8 = 0;
        while square < 64
            invariant
                square <= 64,
                enemy_pieces == board.color_bb(color.flip()),
                fork_score == forks_upto(*board, knights, color, square as int),
                0 <= fork_score <= square * 6400,
            decreases 64 - square,
        {
            if knights & (1u64 << square) != 0 {
                let knight_attacks = self.generate_knight_attacks(square);
                let attacked_enemies = knight_attacks & enemy_pieces;
                proof {
                    lemma_squares_finite(attacked_enemies);
                }
                let n = popcount(attacked_enemies);
                if n >= 2 {
                    fork_score = fork_score + 100 * n as i32;
                }
            }
            square = square + 1;
        }
        fork_score
    }

    /// Knight forks, for White.
    fn evaluate_forks(&self, board: &Board) -> (r: i32)
        ensures
            r == forks_upto(*board, board.knights & board.white_pieces, Color::White, 64) - forks_upto(
                *board,
                board.knights & board.black_pieces,
                Color::Black,
                64,
            ),
            -64 * 6400 <= r <= 64 * 6400,
    {
        let white_knights = board.knights & board.white_pieces;
        let black_knights = board.knights & board.black_pieces;
        self.count_knight_forks(board, white_knights, Color::White) - self.count_knight_forks(
            board,
            black_knights,
            Color::Black,
        )
    }

    /// The king steps from `king_pos` to a square on the board without a
    /// piece of `color`.
    fn count_king_escape_squares(&self, board: &Board, king_pos: u8, color: Color) -> (r: u8)
        requires
            king_pos <= 64,
        ensures
            r == escapes_upto(*board, king_pos as int, color, 8),
            r <= 8,
    {
        let mut escape_count: u8 = 0;
        let mut k: usize = 0;
        while k < 8
            invariant
                k <= 8,
                king_pos <= 64,
                escape_count == escapes_upto(*board, king_pos as int, color, k as int),
                escape_count <= k,
            decreases 8 - k,
        {
            let delta: i8 = if k == 0 {
                -9
            } else if k == 1 {
                -8
            } else if k == 2 {
                -7
            } else if k == 3 {
                -1
            } else if k == 4 {
                1
            } else if k == 5 {
                7
            } else if k == 6 {
                8
            } else {
                9
            };
            let new_pos = king_pos as i8 + delta;
            if new_pos >= 0 && new_pos < 64 {
                let new_square = new_pos as u8;
                let target_bb = 1u64 << new_square;
                let our_pieces = if color == Color::White {
                    board.white_pieces
                } else {
                    board.black_pieces
                };
                if (our_pieces & target_bb) == 0 {
                    escape_count = escape_count + 1;
                }
            }
            k = k + 1;
        }
        escape_count
    }

    /// Back-rank threats, for White.
    fn evaluate_back_rank_threats(&self, board: &Board) -> (r: i32)
        ensures
            r == back_rank_spec(*board),
            -150 <= r <= 150,
    {
        let mut score: i32 = 0;
        proof {
            axiom_u64_trailing_zeros(board.kings & board.white_pieces);
            axiom_u64_trailing_zeros(board.kings & board.black_pieces);
        }
        let white_king_pos = (board.kings & board.white_pieces).trailing_zeros() as u8;
        let black_king_pos = (board.kings & board.black_pieces).trailing_zeros() as u8;
        if white_king_pos < 8 {
            let escape_squares = self.count_king_escape_squares(board, white_king_pos, Color::White);
            if escape_squares == 0 {
                score = score - 150;
            }
        }
        if black_king_pos >= 56 {
            let escape_squares = self.count_king_escape_squares(board, black_king_pos, Color::Black);
            if escape_squares == 0 {
                score = score + 150;
            }
        }
        score
    }

    /// Tactical patterns, for White.
    fn evaluate_tactical_patterns(&self, board: &Board) -> (r: i32)
        requires
            board.wf(),
        ensures
            r == tactical_spec(*board),
            -700_000 <= r <= 700_000,
    {
        let a = self.evaluate_attacked_pieces(board);
        let p = self.evaluate_pins_and_skewers(board);
        let f = self.evaluate_forks(board);
        let k = self.evaluate_back_rank_threats(board);
        a + p + f + k
    }

    /// The king of the side not to move has at most two escape squares.
    pub fn has_mate_potential(&self, board: &Board) -> (r: bool)
        ensures
            r == {
                let kb = board.kings & board.color_bb(board.to_move.flip());
                kb != 0 && escapes_upto(*board, u64_trailing_zeros(kb) as int, board.to_move.flip(), 8) <= 2
            },
    {
        let enemy_color = board.to_move.opposite();
        let enemy_king_bb = board.kings & if enemy_color == Color::White {
            board.white_pieces
        } else {
            board.black_pieces
        };
        if enemy_king_bb == 0 {
            return false;
        }
        proof {
            axiom_u64_trailing_zeros(enemy_king_bb);
        }
        let king_square = enemy_king_bb.trailing_zeros() as u8;
        let escape_squares = self.count_king_escape_squares(board, king_square, enemy_color);
        escape_squares <= 2
    }

    /// Undeveloped minor pieces, for White.
    fn evaluate_piece_development(&self, board: &Board) -> (r: i32)
        ensures
            r == -(pop(((board.knights | board.bishops) & board.white_pieces) & 0x00000000000000FFu64) * 25) + pop(
                ((board.knights | board.bishops) & board.black_pieces) & 0xFF00000000000000u64,
            ) * 25,
            -1600 <= r <= 1600,
    {
        let white_back_rank = 0x00000000000000FFu64;
        let black_back_rank = 0xFF00000000000000u64;
        let white_minor_pieces = (board.knights | board.bishops) & board.white_pieces;
        let black_minor_pieces = (board.knights | board.bishops) & board.black_pieces;
        proof {
            lemma_squares_finite(white_minor_pieces & white_back_rank);
            lemma_squares_finite(black_minor_pieces & black_back_rank);
        }
        let white_undeveloped = popcount(white_minor_pieces & white_back_rank) as i32;
        let black_undeveloped = popcount(black_minor_pieces & black_back_rank) as i32;
        let mut score: i32 = 0;
        score = score - white_undeveloped * 25;
        score = score + black_undeveloped * 25;
        score
    }

    /// Knights on outpost ranks, for White.
    fn evaluate_outposts(&self, board: &Board) -> (r: i32)
        ensures
            r == pop((board.knights & board.white_pieces) & 0x0000FFFFFF000000u64) * 30 - pop((board.knights
                & board.black_pieces) & 0x0000FFFFFF000000u64) * 30,
            -1920 <= r <= 1920,
    {
        let white_knights = board.knights & board.white_pieces;
        let black_knights = board.knights & board.black_pieces;
        let white_outpost_ranks = 0x0000FFFFFF000000u64;
        let black_outpost_ranks = 0x0000FFFFFF000000u64;
        proof {
            lemma_squares_finite(white_knights & white_outpost_ranks);
            lemma_squares_finite(black_knights & black_outpost_ranks);
        }
        let mut score: i32 = 0;
        score = score + popcount(white_knights & white_outpost_ranks) as i32 * 30;
        score = score - popcount(black_knights & black_outpost_ranks) as i32 * 30;
        score
    }

    /// Piece activity, for White.
    fn evaluate_piece_activity(&self, board: &Board) -> (r: i32)
        ensures
            r == activity_spec(*board),
            -3600 <= r <= 3600,
    {
        self.evaluate_piece_development(board) + self.evaluate_outposts(board)
    }

    /// Doubled pawns, for White.
    fn evaluate_doubled_pawns(&self, board: &Board) -> (r: i32)
        ensures
            r == doubled_upto(*board, 8),
            -1600 * 8 <= r <= 1600 * 8,
    {
        let mut score: i32 = 0;
        let white_pawns = board.pawns & board.white_pieces;
        let black_pawns = board.pawns & board.black_pieces;
        let mut file: u8 = 0;
        while file < 8
            invariant
                file <= 8,
                white_pawns == board.pawns & board.white_pieces,
                black_pawns == board.pawns & board.black_pieces,
                score == doubled_upto(*board, file as int),
                -1600 * file <= score <= 1600 * file,
            decreases 8 - file,
        {
            let fm = file_mask(file);
            proof {
                lemma_squares_finite(white_pawns & fm);
                lemma_squares_finite(black_pawns & fm);
            }
            let white_pawns_in_file = popcount(white_pawns & fm);
            let black_pawns_in_file = popcount(black_pawns & fm);
            if white_pawns_in_file > 1 {
                score = score - 25 * (white_pawns_in_file - 1) as i32;
            }
            if black_pawns_in_file > 1 {
                score = score + 25 * (black_pawns_in_file - 1) as i32;
            }
            file = file + 1;
        }
        score
    }

    /// Isolated pawns, for White.
    fn evaluate_isolated_pawns(&self, board: &Board) -> (r: i32)
        ensures
            r == isolated_upto(*board, 8),
            -160 <= r <= 160,
    {
        let mut score: i32 = 0;
        let white_pawns = board.pawns & board.white_pieces;
        let black_pawns = board.pawns & board.black_pieces;
        let mut file: u8 = 0;
        while file < 8
            invariant
                file <= 8,
                white_pawns == board.pawns & board.white_pieces,
                black_pawns == board.pawns & board.black_pieces,
                score == isolated_upto(*board, file as int),
                -20 * file <= score <= 20 * file,
            decreases 8 - file,
        {
            let file_bb = file_mask(file);
            let left = if file > 0 {
                file_mask(file - 1)
            } else {
                0
            };
            let right = if file < 7 {
                file_mask(file + 1)
            } else {
                0
            };
            let adjacent_files = left | right;
            if (white_pawns & file_bb) != 0 && (white_pawns & adjacent_files) == 0 {
                score = score - 20;
            }
            if (black_pawns & file_bb) != 0 && (black_pawns & adjacent_files) == 0 {
                score = score + 20;
            }
            file = file + 1;
        }
        score
    }

    /// Passed pawns are not scored yet.
    fn evaluate_passed_pawns(&self, board: &Board) -> (r: i32)
        ensures
            r == 0,
    {
        0
    }

    /// Pawn structure, for White.
    fn evaluate_pawn_structure(&self, board: &Board) -> (r: i32)
        ensures
            r == doubled_upto(*board, 8) + isolated_upto(*board, 8),
            -13000 <= r <= 13000,
    {
        let d = self.evaluate_doubled_pawns(board);
        let i = self.evaluate_isolated_pawns(board);
        let p = self.evaluate_passed_pawns(board);
        d + i + p
    }

    /// The pseudo-legal moves of `color` on `board`.
    fn moves_of(&self, board: &Board, color: Color) -> (r: usize)
        requires
            board.wf(),
        ensures
            r == pseudo_count(*board, color),
    {
        let ghost b2 = Board { to_move: color, ..*board };
        proof {
            assert(b2.wf()) by {
                assert forall|s: int| 0 <= s < 64 implies #[trigger] b2.square_wf(s) by {
                    assert(board.square_wf(s));
                }
            }
        }
        let moves = if board.to_move == color {
            assert(*board == b2);
            board.generate_all_moves()
        } else {
            let mut board_copy = *board;
            board_copy.to_move = color;
            assert(board_copy == b2);
            board_copy.generate_all_moves()
        };
        proof {
            lemma_count_set(moves@, |m: Move| pseudo_legal(b2, m));
        }
        moves.len()
    }

    /// The material of all pieces, kings included.
    fn total_material(&self, board: &Board) -> (r: i32)
        requires
            board.wf(),
        ensures
            r == material_upto(*board, 64),
    {
        let mut material: i32 = 0;
        let mut square: u8 = 0;
        while square < 64
            invariant
                board.wf(),
                square <= 64,
                material == material_upto(*board, square as int),
                0 <= material <= square * 20000,
            decreases 64 - square,
        {
            if let Some(piece) = board.get_piece_at(square) {
                material = material + piece.kind.value();
            }
            square = square + 1;
        }
        material
    }

    /// No queens, or little material.
    fn is_endgame(&self, board: &Board) -> (r: bool)
        requires
            board.wf(),
        ensures
            r == endgame_spec(*board),
    {
        board.queens == 0 || self.total_material(board) < 2000
    }

    /// Mobility, for White.
    fn evaluate_mobility(&self, board: &Board) -> (r: i32)
        requires
            board.wf(),
        ensures
            r == mobility_spec(*board),
    {
        let white_moves = self.moves_of(board, Color::White);
        let black_moves = self.moves_of(board, Color::Black);
        let mobility_score = (white_moves as i32).wrapping_sub(black_moves as i32);
        if self.is_endgame(board) {
            mobility_score
        } else if mobility_score >= 0 {
            mobility_score / 2
        } else {
            -((-(mobility_score as i64)) / 2) as i32
        }
    }

    /// The evaluation of `board` in centipawns, positive when White is
    /// better, whoever is to move.
    pub fn evaluate(&self, board: &Board) -> (r: i32)
        requires
            board.wf(),
        ensures
            r == evaluate_spec(*board),
            -540_000_000 <= r <= 540_000_000,
    {
        let mut score: i32 = 0;
        score = score + self.evaluate_material_and_position(board);
        score = score + self.evaluate_king_safety(board);
        score = score + self.evaluate_tactical_patterns(board);
        score = score + self.evaluate_piece_activity(board);
        score = score + self.evaluate_pawn_structure(board);
        let m = self.evaluate_mobility(board);
        let q = if m >= 0 {
            m / 4
        } else {
            -((-(m as i64)) / 4) as i32
        };
        score + q
    }

    /// The score is a mate score.
    pub fn is_mate_score(score: i32) -> (r: bool)
        requires
            score > i32::MIN,
        ensures
            r == (score >= crate::search::MATE_IN_MAX || score <= -crate::search::MATE_IN_MAX),
    {
        let a = if score < 0 {
            -score
        } else {
            score
        };
        a >= crate::search::MATE_IN_MAX
    }

    /// The score of a mate in `n` plies.
    pub fn mate_in_n(n: u8) -> (r: i32)
        ensures
            r == crate::search::MATE_SCORE - n,
    {
        crate::search::MATE_SCORE - n as i32
    }
}

/// The square sums do not depend on the side to move.
proof fn lemma_sums_ignore_side(b: Board, b2: Board, n: int)
    requires
        b2 == (Board { to_move: b2.to_move, ..b }),
    ensures
        worth_upto(b2, n) == worth_upto(b, n),
        attacked_upto(b2, n) == attacked_upto(b, n),
        material_upto(b2, n) == material_upto(b, n),
        doubled_upto(b2, n) == doubled_upto(b, n),
        isolated_upto(b2, n) == isolated_upto(b, n),
        forall|kn: u64, c: Color| #[trigger] forks_upto(b2, kn, c, n) == forks_upto(b, kn, c, n),
        forall|kp: int, c: Color| #[trigger] escapes_upto(b2, kp, c, n) == escapes_upto(b, kp, c, n),
    decreases n,
{
    if n > 0 {
        lemma_sums_ignore_side(b, b2, n - 1);
        assert forall|kn: u64, c: Color| #[trigger] forks_upto(b2, kn, c, n) == forks_upto(b, kn, c, n) by {
            assert(forks_upto(b2, kn, c, n - 1) == forks_upto(b, kn, c, n - 1));
        }
        assert forall|kp: int, c: Color| #[trigger] escapes_upto(b2, kp, c, n) == escapes_upto(b, kp, c, n) by {
            assert(escapes_upto(b2, kp, c, n - 1) == escapes_upto(b, kp, c, n - 1));
        }
    }
}

proof fn lemma_king_safety_ignores_side(b: Board, b2: Board)
    requires
        b2 == (Board { to_move: b2.to_move, ..b }),
    ensures
        king_safety_spec(b2) == king_safety_spec(b),
{
    assert(king_safety_of(b2, Color::White) == king_safety_of(b, Color::White));
    assert(king_safety_of(b2, Color::Black) == king_safety_of(b, Color::Black));
}

proof fn lemma_tactics_ignore_side(b: Board, b2: Board)
    requires
        b2 == (Board { to_move: b2.to_move, ..b }),
    ensures
        tactical_spec(b2) == tactical_spec(b),
{
    lemma_sums_ignore_side(b, b2, 64);
    lemma_sums_ignore_side(b, b2, 8);
    assert(back_rank_spec(b2) == back_rank_spec(b));
    assert(pins_spec(b2) == pins_spec(b));
}

proof fn lemma_mobility_ignores_side(b: Board, b2: Board)
    requires
        b2 == (Board { to_move: b2.to_move, ..b }),
    ensures
        mobility_spec(b2) == mobility_spec(b),
{
    lemma_sums_ignore_side(b, b2, 64);
    assert(Board { to_move: Color::White, ..b2 } == Board { to_move: Color::White, ..b });
    assert(Board { to_move: Color::Black, ..b2 } == Board { to_move: Color::Black, ..b });
    assert(pseudo_count(b2, Color::White) == pseudo_count(b, Color::White));
    assert(pseudo_count(b2, Color::Black) == pseudo_count(b, Color::Black));
}

/// The evaluation is from White's point of view whoever is to move: handing
/// the move to the other side leaves it unchanged.
pub proof fn lemma_evaluate_ignores_side_to_move(b: Board, b2: Board)
    requires
        b2 == (Board { to_move: b.to_move.flip(), ..b }),
    ensures
        evaluate_spec(b2) == evaluate_spec(b),
{
    lemma_sums_ignore_side(b, b2, 64);
    lemma_sums_ignore_side(b, b2, 8);
    lemma_king_safety_ignores_side(b, b2);
    lemma_tactics_ignore_side(b, b2);
    lemma_mobility_ignores_side(b, b2);
    assert(activity_spec(b2) == activity_spec(b));
}

} // verus!
