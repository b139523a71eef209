use vstd::prelude::*;
use crate::bits::{pop, sq_in, squares, lemma_squares_finite, lemma_pop_add};
use crate::board::lemma_with_piece;
use crate::types::{Color, PieceKind, kind_value};
use crate::board::Board;
use crate::engine::traits::{Evaluator, Score};

verus! {

/// The material of `c` on `b`: each pawn, knight, bishop, rook and queen at
/// its value; the king does not count.
pub open spec fn material_spec(b: Board, c: Color) -> int {
    pop(b.pawns & b.color_bb(c)) * kind_value(PieceKind::Pawn)
        + pop(b.knights & b.color_bb(c)) * kind_value(PieceKind::Knight)
        + pop(b.bishops & b.color_bb(c)) * kind_value(PieceKind::Bishop)
        + pop(b.rooks & b.color_bb(c)) * kind_value(PieceKind::Rook)
        + pop(b.queens & b.color_bb(c)) * kind_value(PieceKind::Queen)
}

/// The material balance of `b` for the side to move.
pub open spec fn material_eval_spec(b: Board) -> int {
    material_spec(b, b.to_move) - material_spec(b, b.to_move.flip())
}

/// The material of one colour: the sum, over pawn to queen, of the count of
/// that kind times its value.
pub(crate) fn material_sum(board: &Board, color: Color) -> (r: Score)
    ensures
        r == material_spec(*board, color),
        0 <= r <= 64 * 900 * 5,
{
    let mut total: Score = 0;
    let mut i: usize = 0;
    proof {
        lemma_squares_finite(board.pawns & board.color_bb(color));
        lemma_squares_finite(board.knights & board.color_bb(color));
        lemma_squares_finite(board.bishops & board.color_bb(color));
        lemma_squares_finite(board.rooks & board.color_bb(color));
        lemma_squares_finite(board.queens & board.color_bb(color));
    }
    while i < 5
        invariant
            0 <= i <= 5,
            pop(board.pawns & board.color_bb(color)) <= 64,
            pop(board.knights & board.color_bb(color)) <= 64,
            pop(board.bishops & board.color_bb(color)) <= 64,
            pop(board.rooks & board.color_bb(color)) <= 64,
            pop(board.queens & board.color_bb(color)) <= 64,
            0 <= total <= 64 * 900 * i,
            total == partial_material(*board, color, i as int),
        decreases 5 - i,
    {
        let kind = if i == 0 {
            PieceKind::Pawn
        } else if i == 1 {
            PieceKind::Knight
        } else if i == 2 {
            PieceKind::Bishop
        } else if i == 3 {
            PieceKind::Rook
        } else {
            PieceKind::Queen
        };
        let count = board.piece_count(color, kind);
        let value = kind.value();
        assert(0 <= count * value <= 64 * 900) by (nonlinear_arith)
            requires
                0 <= count <= 64,
                0 <= value <= 900,
        ;
        let add = count as Score * value;
        total = total + add;
        i = i + 1;
    }
    proof {
        reveal_with_fuel(partial_material, 6);
    }
    total
}

/// The material of `c` counted over the first `n` kinds, pawn first.
pub open spec fn partial_material(b: Board, c: Color, n: int) -> int
    decreases n,
{
    if n <= 0 {
        0
    } else {
        let k = if n == 1 {
            PieceKind::Pawn
        } else if n == 2 {
            PieceKind::Knight
        } else if n == 3 {
            PieceKind::Bishop
        } else if n == 4 {
            PieceKind::Rook
        } else {
            PieceKind::Queen
        };
        partial_material(b, c, n - 1) + pop(b.kind_bb(k) & b.color_bb(c)) * kind_value(k)
    }
}

/// Evaluation by material alone: the side to move's material minus the
/// opponent's, in centipawns.
pub struct MaterialEvaluator;

impl Evaluator for MaterialEvaluator {
    open spec fn value(&self, b: Board) -> int {
        material_eval_spec(b)
    }

    fn evaluate(&self, board: &Board) -> (s: Score)
        ensures
            s == material_eval_spec(*board),
    {
        let side = board.to_move;
        let us = material_sum(board, side);
        let them = material_sum(board, side.opposite());
        us - them
    }

    fn name(&self) -> &str {
        "material"
    }
}

/// Material is zero-sum: turning the board over to the other side to move
/// negates the material evaluation.
pub proof fn lemma_material_antisymmetric(b: Board, b2: Board)
    requires
        b2 == (Board { to_move: b.to_move.flip(), ..b }),
    ensures
        material_eval_spec(b2) == -material_eval_spec(b),
{
}

/// Putting a piece on an empty square adds its value to its side's
/// material, 100 for a pawn, 320 a knight, 330 a bishop, 500 a rook and 900
/// a queen (nothing for a king), and leaves the other side's material as
/// it was; for the side to move the material balance rises by as much.
pub proof fn law_material_of_added_piece(b: Board, s: int, k: PieceKind, c: Color)
    requires
        b.wf(),
        0 <= s < 64,
        !sq_in(b.white_pieces | b.black_pieces, s),
    ensures
        material_spec(b.with_piece(s, k, c), c) == material_spec(b, c) + match k {
            PieceKind::Pawn => 100int,
            PieceKind::Knight => 320int,
            PieceKind::Bishop => 330int,
            PieceKind::Rook => 500int,
            PieceKind::Queen => 900int,
            PieceKind::King => 0int,
        },
        material_spec(b.with_piece(s, k, c), c.flip()) == material_spec(b, c.flip()),
{
    lemma_with_piece(b, s, k, c, PieceKind::Pawn, c);
    lemma_with_piece(b, s, k, c, PieceKind::Knight, c);
    lemma_with_piece(b, s, k, c, PieceKind::Bishop, c);
    lemma_with_piece(b, s, k, c, PieceKind::Rook, c);
    lemma_with_piece(b, s, k, c, PieceKind::Queen, c);
    lemma_with_piece(b, s, k, c, PieceKind::Pawn, c.flip());
    lemma_with_piece(b, s, k, c, PieceKind::Knight, c.flip());
    lemma_with_piece(b, s, k, c, PieceKind::Bishop, c.flip());
    lemma_with_piece(b, s, k, c, PieceKind::Rook, c.flip());
    lemma_with_piece(b, s, k, c, PieceKind::Queen, c.flip());
    if k != PieceKind::King {
        lemma_pop_add(b.kind_bb(k) & b.color_bb(c), s);
    }
    let b2 = b.with_piece(s, k, c);
    let x = pop(b.kind_bb(k) & b.color_bb(c)) as int;
    match k {
        PieceKind::Pawn => {
            assert(pop(b2.pawns & b2.color_bb(c)) == x + 1);
            assert((x + 1) * 100 == x * 100 + 100) by (nonlinear_arith);
        },
        PieceKind::Knight => {
            assert(pop(b2.knights & b2.color_bb(c)) == x + 1);
            assert((x + 1) * 320 == x * 320 + 320) by (nonlinear_arith);
        },
        PieceKind::Bishop => {
            assert(pop(b2.bishops & b2.color_bb(c)) == x + 1);
            assert((x + 1) * 330 == x * 330 + 330) by (nonlinear_arith);
        },
        PieceKind::Rook => {
            assert(pop(b2.rooks & b2.color_bb(c)) == x + 1);
            assert((x + 1) * 500 == x * 500 + 500) by (nonlinear_arith);
        },
        PieceKind::Queen => {
            assert(pop(b2.queens & b2.color_bb(c)) == x + 1);
            assert((x + 1) * 900 == x * 900 + 900) by (nonlinear_arith);
        },
        PieceKind::King => {},
    }
}

/// The material balance for the side to move rises by the value of a piece
/// of its own put on an empty square.
pub proof fn law_material_balance_of_added_piece(b: Board, s: int, k: PieceKind)
    requires
        b.wf(),
        0 <= s < 64,
        !sq_in(b.white_pieces | b.black_pieces, s),
    ensures
        material_eval_spec(b.with_piece(s, k, b.to_move)) == material_eval_spec(b) + match k {
            PieceKind::Pawn => 100int,
            PieceKind::Knight => 320int,
            PieceKind::Bishop => 330int,
            PieceKind::Rook => 500int,
            PieceKind::Queen => 900int,
            PieceKind::King => 0int,
        },
{
    law_material_of_added_piece(b, s, k, b.to_move);
}

/// A side with no pawn, knight, bishop, rook or queen has no material.
pub proof fn law_material_of_bare_king(b: Board, c: Color)
    requires
        (b.pawns | b.knights | b.bishops | b.rooks | b.queens) & b.color_bb(c) == 0,
    ensures
        material_spec(b, c) == 0,
{
    let x = b.color_bb(c);
    let (p, n, bi, r, q) = (b.pawns, b.knights, b.bishops, b.rooks, b.queens);
    assert((p | n | bi | r | q) & x == 0u64 ==> (p & x == 0u64 && n & x == 0u64 && bi & x == 0u64 && r & x == 0u64
        && q & x == 0u64)) by (bit_vector);
    assert(squares(0u64) =~= Set::<int>::empty()) by {
        assert forall|i: int| !#[trigger] squares(0u64).contains(i) by {
            if 0 <= i < 64 {
                let j = i as u64;
                assert(!(((0u64 >> j) & 1u64) == 1u64)) by (bit_vector);
            }
        }
    }    assert(pop(0u64) == 0);
    assert(b.pawns & b.color_bb(c) == 0u64);
    assert(b.knights & b.color_bb(c) == 0u64);
    assert(b.bishops & b.color_bb(c) == 0u64);
    assert(b.rooks & b.color_bb(c) == 0u64);
    assert(b.queens & b.color_bb(c) == 0u64);
}

} // verus!
