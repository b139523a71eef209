use vstd::prelude::*;
use crate::bits::{pop, bit, sq_in, squares, group_bits, lemma_bits_ext, lemma_sq_ext, lemma_squares_finite};
use crate::board::Board;
use crate::types::{Color, Move};
use crate::intrinsics::popcount;
use crate::game::movegen::{pseudo_legal, legal_move};

verus! {

broadcast use group_bits;

/// The light squares (b1, d1, ..., a2, c2, ...).
pub const LIGHT_SQUARES: u64 = 0x55AA55AA55AA55AA;

/// The cached check flag of the side to move.
pub open spec fn side_in_check(b: Board) -> bool {
    match b.to_move {
        Color::White => b.white_king_in_check,
        Color::Black => b.black_king_in_check,
    }
}

/// The side to move has no legal move.
pub open spec fn no_legal_move(b: Board) -> bool {
    forall|m: Move| #[trigger] pseudo_legal(b, m) ==> !legal_move(b, m)
}

/// Checkmate: the side to move is in check and has no legal move.
pub open spec fn checkmate_spec(b: Board) -> bool {
    side_in_check(b) && no_legal_move(b)
}

/// Stalemate: the side to move is not in check and has no legal move.
pub open spec fn stalemate_spec(b: Board) -> bool {
    !side_in_check(b) && no_legal_move(b)
}

/// Too little material to mate: two kings alone; a king and one minor
/// piece against a king; or one bishop each, on squares of one colour.
pub open spec fn insufficient_material(b: Board) -> bool {
    let total = pop(b.white_pieces | b.black_pieces);
    ||| total == 2
    ||| (total == 3 && (b.pawns | b.rooks | b.queens) == 0 && pop(b.knights | b.bishops) == 1)
    ||| (total == 4 && (b.pawns | b.rooks | b.queens | b.knights) == 0 && pop(b.bishops & b.white_pieces) == 1
        && pop(b.bishops & b.black_pieces) == 1 && ((b.bishops & b.white_pieces & LIGHT_SQUARES) != 0)
        == ((b.bishops & b.black_pieces & LIGHT_SQUARES) != 0))
}

/// The fifty-move rule: a hundred half-moves without a capture or a pawn
/// move.
pub open spec fn fifty_moves(b: Board) -> bool {
    b.halfmove_clock >= 100
}

impl Board {
    /// Whether the side to move has no legal move.
    fn has_no_legal_move(&self) -> (r: bool)
        requires
            self.wf(),
        ensures
            r == no_legal_move(*self),
    {
        let moves = self.generate_all_moves();
        let mut i: usize = 0;
        while i < moves.len()
            invariant
                self.wf(),
                i <= moves.len(),
                forall|m: Move| #![trigger moves@.contains(m)] moves@.contains(m) <==> pseudo_legal(*self, m),
                forall|j: int| 0 <= j < i ==> !legal_move(*self, #[trigger] moves@[j]),
            decreases moves.len() - i,
        {
            if self.is_legal_move(moves[i]) {
                proof {
                    assert(moves@.contains(moves@[i as int]));
                }
                return false;
            }
            i = i + 1;
        }
        proof {
            assert forall|m: Move| #[trigger] pseudo_legal(*self, m) implies !legal_move(*self, m) by {
                assert(moves@.contains(m));
                let j = choose|j: int| 0 <= j < moves.len() && moves@[j] == m;
            }
        }
        true
    }

    /// Whether the side to move is checkmated: in check, and every move
    /// leaves its king attacked.
    pub fn is_checkmate(&self) -> (r: bool)
        requires
            self.wf(),
        ensures
            r == checkmate_spec(*self),
    {
        if !self.is_king_in_check(self.to_move) {
            return false;
        }
        self.has_no_legal_move()
    }

    /// Whether the side to move is stalemated: not in check, and every move
    /// leaves its king attacked.
    pub fn is_stalemate(&self) -> (r: bool)
        requires
            self.wf(),
        ensures
            r == stalemate_spec(*self),
    {
        if self.is_king_in_check(self.to_move) {
            return false;
        }
        self.has_no_legal_move()
    }

    /// Whether neither side has the material to mate.
    pub fn is_draw_by_insufficient_material(&self) -> (r: bool)
        ensures
            r == insufficient_material(*self),
    {
        let total_pieces = self.white_pieces | self.black_pieces;
        let piece_count = popcount(total_pieces);
        if piece_count == 2 {
            return true;
        }
        if piece_count == 3 {
            let has_major_pieces = (self.pawns | self.rooks | self.queens) != 0;
            if !has_major_pieces {
                let minors = self.knights | self.bishops;
                return popcount(minors) == 1;
            }
        }
        if piece_count == 4 && (self.pawns | self.rooks | self.queens | self.knights) == 0 {
            let white_bishops = self.bishops & self.white_pieces;
            let black_bishops = self.bishops & self.black_pieces;
            if popcount(white_bishops) == 1 && popcount(black_bishops) == 1 {
                let white_on_light = (white_bishops & LIGHT_SQUARES) != 0;
                let black_on_light = (black_bishops & LIGHT_SQUARES) != 0;
                return white_on_light == black_on_light;
            }
        }
        false
    }

    /// Whether the fifty-move rule applies (a hundred half-moves).
    pub fn is_draw_by_50_moves(&self) -> (r: bool)
        ensures
            r == fifty_moves(*self),
    {
        self.halfmove_clock >= 100
    }

    /// Whether the game is over: checkmate, stalemate, insufficient
    /// material or the fifty-move rule.
    pub fn is_game_over(&self) -> (r: bool)
        requires
            self.wf(),
        ensures
            r == (checkmate_spec(*self) || stalemate_spec(*self) || insufficient_material(*self) || fifty_moves(
                *self,
            )),
    {
        self.is_checkmate() || self.is_stalemate() || self.is_draw_by_insufficient_material()
            || self.is_draw_by_50_moves()
    }
}

/// A draw by insufficient material leaves no pawn, rook or queen on a board
/// with both kings: king and queen (or rook, or pawn) against king is never
/// a dead draw.
pub proof fn law_material_draw_has_no_major_piece(b: Board, wk: int, bk: int)
    requires
        b.wf(),
        sq_in(b.kings & b.white_pieces, wk),
        sq_in(b.kings & b.black_pieces, bk),
        insufficient_material(b),
    ensures
        (b.pawns | b.rooks | b.queens) == 0,
{
    let occ = b.white_pieces | b.black_pieces;
    let x = b.pawns | b.rooks | b.queens;
    let n = b.knights;
    if (x | n) == 0u64 {
        assert forall|i: int| 0 <= i < 64 implies sq_in(x, i) == sq_in(0u64, i) by {
            let j = i as u64;
            assert(bit(x | n, j) == (bit(x, j) || bit(n, j)));
        }
        lemma_sq_ext(x, 0u64);
    }
    if pop(occ) == 2 {
        lemma_squares_finite(occ);
        assert(b.square_wf(wk));
        assert(b.square_wf(bk));
        assert forall|i: u64| i < 64 implies bit(x, i) == bit(0u64, i) by {
            if bit(x, i) {
                let s = i as int;
                assert(b.square_wf(s));
                let t = Set::<int>::empty().insert(wk).insert(bk).insert(s);
                assert(t.subset_of(squares(occ)));
                vstd::set_lib::lemma_len_subset(t, squares(occ));
                assert(t.len() == 3);
            }
        }
        lemma_bits_ext(x, 0u64);
    }
}

/// Two kings alone cannot mate: a board whose only pieces are its two kings
/// is a draw by insufficient material.
pub proof fn law_bare_kings_are_material_draw(b: Board, wk: int, bk: int)
    requires
        b.wf(),
        sq_in(b.kings & b.white_pieces, wk),
        sq_in(b.kings & b.black_pieces, bk),
        forall|t: int| #[trigger] sq_in(b.white_pieces | b.black_pieces, t) ==> t == wk || t == bk,
    ensures
        insufficient_material(b),
{
    let occ = b.white_pieces | b.black_pieces;
    assert(b.square_wf(wk));
    assert(b.square_wf(bk));
    assert(squares(occ) =~= Set::<int>::empty().insert(wk).insert(bk));
}

/// King and one knight or bishop against king cannot mate: a board whose
/// only pieces are the two kings and one knight or bishop is a draw by
/// insufficient material.
pub proof fn law_lone_minor_is_material_draw(b: Board, wk: int, bk: int, s: int)
    requires
        b.wf(),
        sq_in(b.kings & b.white_pieces, wk),
        sq_in(b.kings & b.black_pieces, bk),
        sq_in(b.knights | b.bishops, s),
        forall|t: int| #[trigger] sq_in(b.white_pieces | b.black_pieces, t) ==> t == wk || t == bk || t == s,
    ensures
        insufficient_material(b),
{
    let occ = b.white_pieces | b.black_pieces;
    let x = b.pawns | b.rooks | b.queens;
    let nb = b.knights | b.bishops;
    assert(b.square_wf(wk));
    assert(b.square_wf(bk));
    assert(b.square_wf(s));
    assert(squares(occ) =~= Set::<int>::empty().insert(wk).insert(bk).insert(s));
    assert(squares(nb) =~= Set::<int>::empty().insert(s)) by {
        assert forall|t: int| #[trigger] squares(nb).contains(t) implies t == s by {
            assert(b.square_wf(t));
            let j = t as u64;
            assert(bit(nb, j) == (bit(b.knights, j) || bit(b.bishops, j)));
            assert(bit(occ, j) == (bit(b.white_pieces, j) || bit(b.black_pieces, j)));
            assert(sq_in(occ, t));
        }
    }
    assert forall|i: int| 0 <= i < 64 implies sq_in(x, i) == sq_in(0u64, i) by {
        assert(b.square_wf(i));
        let j = i as u64;
        assert(bit(x, j) == (bit(b.pawns, j) || bit(b.rooks, j) || bit(b.queens, j)));
        assert(bit(occ, j) == (bit(b.white_pieces, j) || bit(b.black_pieces, j)));
        assert(bit(nb, j) == (bit(b.knights, j) || bit(b.bishops, j)));
        if sq_in(x, i) {
            assert(sq_in(occ, i));
        }
    }
    lemma_sq_ext(x, 0u64);
}

/// King and bishop against king and bishop cannot mate when the bishops
/// run on squares of one colour, and can when they do not: on a board whose
/// only pieces are the two kings, one white bishop on `ws` and one black
/// bishop on `bs`, the material draw holds exactly when both squares are
/// light or both are dark.
pub proof fn law_bishops_material_draw(b: Board, wk: int, bk: int, ws: int, bs: int)
    requires
        b.wf(),
        sq_in(b.kings & b.white_pieces, wk),
        sq_in(b.kings & b.black_pieces, bk),
        sq_in(b.bishops & b.white_pieces, ws),
        sq_in(b.bishops & b.black_pieces, bs),
        forall|t: int| #[trigger] sq_in(b.white_pieces | b.black_pieces, t) ==> t == wk || t == bk || t == ws || t == bs,
    ensures
        insufficient_material(b) == (sq_in(LIGHT_SQUARES, ws) == sq_in(LIGHT_SQUARES, bs)),
{
    let occ = b.white_pieces | b.black_pieces;
    let x = b.pawns | b.rooks | b.queens | b.knights;
    let wb = b.bishops & b.white_pieces;
    let bb = b.bishops & b.black_pieces;
    assert(b.square_wf(wk));
    assert(b.square_wf(bk));
    assert(b.square_wf(ws));
    assert(b.square_wf(bs));
    assert(squares(occ) =~= Set::<int>::empty().insert(wk).insert(bk).insert(ws).insert(bs));
    assert(squares(occ).len() == 4);
    assert forall|i: int| 0 <= i < 64 implies sq_in(x, i) == sq_in(0u64, i) by {
        assert(b.square_wf(i));
        let j = i as u64;
        assert(bit(x, j) == (bit(b.pawns, j) || bit(b.rooks, j) || bit(b.queens, j) || bit(b.knights, j)));
        assert(bit(occ, j) == (bit(b.white_pieces, j) || bit(b.black_pieces, j)));
        if sq_in(x, i) {
            assert(sq_in(occ, i));
        }
    }
    lemma_sq_ext(x, 0u64);
    let mw = 1u64 << (ws as u64);
    let mb = 1u64 << (bs as u64);
    assert forall|i: int| 0 <= i < 64 implies sq_in(wb, i) == sq_in(mw, i) by {
        assert(b.square_wf(i));
        let j = i as u64;
        assert(bit(mw, j) == (j == ws as u64));
        assert(bit(occ, j) == (bit(b.white_pieces, j) || bit(b.black_pieces, j)));
        if sq_in(wb, i) {
            assert(sq_in(occ, i));
        }
    }
    lemma_sq_ext(wb, mw);
    assert forall|i: int| 0 <= i < 64 implies sq_in(bb, i) == sq_in(mb, i) by {
        assert(b.square_wf(i));
        let j = i as u64;
        assert(bit(mb, j) == (j == bs as u64));
        assert(bit(occ, j) == (bit(b.white_pieces, j) || bit(b.black_pieces, j)));
        if sq_in(bb, i) {
            assert(sq_in(occ, i));
        }
    }
    lemma_sq_ext(bb, mb);
    assert(squares(wb) =~= Set::<int>::empty().insert(ws));
    assert(squares(bb) =~= Set::<int>::empty().insert(bs));
    let l = LIGHT_SQUARES;
    let a = ws as u64;
    let c = bs as u64;
    assert((mw & l) != 0u64 == bit(l, a)) by {
        assert(mw & l == l & mw) by {
            assert forall|i: int| 0 <= i < 64 implies sq_in(mw & l, i) == sq_in(l & mw, i) by {
                let j = i as u64;
                assert(bit(mw & l, j) == (bit(mw, j) && bit(l, j)));
                assert(bit(l & mw, j) == (bit(l, j) && bit(mw, j)));
            }
            lemma_sq_ext(mw & l, l & mw);
        }
    }
    assert((mb & l) != 0u64 == bit(l, c)) by {
        assert(mb & l == l & mb) by {
            assert forall|i: int| 0 <= i < 64 implies sq_in(mb & l, i) == sq_in(l & mb, i) by {
                let j = i as u64;
                assert(bit(mb & l, j) == (bit(mb, j) && bit(l, j)));
                assert(bit(l & mb, j) == (bit(l, j) && bit(mb, j)));
            }
            lemma_sq_ext(mb & l, l & mb);
        }
    }
}

} // verus!
