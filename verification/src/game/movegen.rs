use vstd::prelude::*;
use vstd::std_specs::bits::u64_trailing_zeros;
use crate::bits::{sq_in, group_bits};
use crate::board::Board;
use crate::types::{Color, PieceKind, Move, UndoInfo};
use crate::intrinsics::lemma_clear_lowest;
use crate::game::check::{occupancy, piece_attacks, in_check_spec, lemma_same_bitboards_same_attacks};
use crate::make_move::{move_shape_ok, made, castling_rook_sqs};
use crate::moves::attacks::king_step;
use crate::moves::gen::{quiet, kind_move, piece_move, push_piece_moves, push_targets};
use crate::moves::pawn::{pawn_move, pawn_capture, generate_pawn_moves_into, generate_pawn_captures_into};
use crate::moves::knight::generate_knight_moves_into;
use crate::moves::queen::generate_queen_moves_into;
use crate::moves::king::{king_move, generate_king_moves_into};
use crate::moves::king::get_king_attacks;

verus! {

broadcast use group_bits;

/// `m` is a pseudo-legal move of the side to move: a move of one of its
/// pieces by the piece's rules, whether or not it leaves its king attacked.
pub open spec fn pseudo_legal(b: Board, m: Move) -> bool {
    ||| pawn_move(b, m)
    ||| kind_move(b, PieceKind::Knight, m)
    ||| kind_move(b, PieceKind::Bishop, m)
    ||| kind_move(b, PieceKind::Rook, m)
    ||| kind_move(b, PieceKind::Queen, m)
    ||| king_move(b, m)
}

/// `m` is a capture by a piece of kind `k` (not a pawn) of the side to move.
pub open spec fn kind_capture(b: Board, k: PieceKind, m: Move) -> bool {
    &&& sq_in(b.kind_bb(k) & b.color_bb(b.to_move), m.from as int)
    &&& m == quiet(m.from as int, m.to as int)
    &&& m.to < 64
    &&& piece_attacks(k, b.to_move, m.from as int, occupancy(b), m.to as int)
    &&& sq_in(b.color_bb(b.to_move.flip()), m.to as int)
}

/// `m` is a capture by the (lowest) king of the side to move.
pub open spec fn king_capture(b: Board, m: Move) -> bool {
    let kb = b.kings & b.color_bb(b.to_move);
    let k = u64_trailing_zeros(kb) as int;
    &&& kb != 0
    &&& m == quiet(k, m.to as int)
    &&& m.to < 64
    &&& king_step(k, m.to as int)
    &&& sq_in(b.color_bb(b.to_move.flip()), m.to as int)
}

/// `m` is a pseudo-legal capture of the side to move (castling excluded).
pub open spec fn capture_move(b: Board, m: Move) -> bool {
    ||| pawn_capture(b, m)
    ||| kind_capture(b, PieceKind::Knight, m)
    ||| kind_capture(b, PieceKind::Bishop, m)
    ||| kind_capture(b, PieceKind::Rook, m)
    ||| kind_capture(b, PieceKind::Queen, m)
    ||| king_capture(b, m)
}

/// After `mv`, the king of the side that played it is not attacked.
pub open spec fn leaves_king_safe(b: Board, mv: Move) -> bool {
    forall|a: Board, u: UndoInfo| #[trigger] made(b, mv, a, u) ==> !in_check_spec(a, b.to_move)
}

/// `mv` is legal on `b`: it can be played, and leaves the mover's king safe.
pub open spec fn legal_move(b: Board, mv: Move) -> bool {
    move_shape_ok(b, mv) && leaves_king_safe(b, mv)
}

/// A pseudo-legal move goes from a square of the board to a square of the
/// board.
pub proof fn lemma_pseudo_on_board(b: Board, m: Move)
    requires
        pseudo_legal(b, m),
    ensures
        m.from < 64,
        m.to < 64,
{
    if king_move(b, m) && !crate::moves::king::castle_move(b, m) {
        let kb = b.kings & b.color_bb(b.to_move);
        vstd::std_specs::bits::axiom_u64_trailing_zeros(kb);
    }
}

/// Two results of the same move agree on every check.
pub proof fn lemma_made_same_checks(b: Board, mv: Move, a1: Board, u1: UndoInfo, a2: Board, u2: UndoInfo)
    requires
        made(b, mv, a1, u1),
        made(b, mv, a2, u2),
    ensures
        forall|c: Color| #[trigger] in_check_spec(a1, c) == in_check_spec(a2, c),
{
    assert forall|t: int| 0 <= t < 64 implies #[trigger] a1.piece_at(t) == a2.piece_at(t) by {
        assert(a1.piece_at(t) == crate::make_move::after_move(b, mv, t));
        assert(a2.piece_at(t) == crate::make_move::after_move(b, mv, t));
    }
    Board::lemma_same_pieces_same_bitboards(a1, a2);
    lemma_same_bitboards_same_attacks(a1, a2);
}

impl Board {
    /// Appends the bishop moves, then the rook moves, of the side to move.
    pub fn generate_sliding_moves(&self, moves: &mut Vec<Move>)
        requires
            self.wf(),
            old(moves)@.no_duplicates(),
            forall|i: int|
                0 <= i < old(moves).len() ==> !sq_in(self.bishops & self.color_bb(self.to_move), old(moves)@[i].from as int)
                    && !sq_in(self.rooks & self.color_bb(self.to_move), old(moves)@[i].from as int),
        ensures
            final(moves)@.no_duplicates(),
            final(moves).len() >= old(moves).len(),
            forall|i: int| 0 <= i < old(moves).len() ==> final(moves)@[i] == old(moves)@[i],
            forall|i: int|
                old(moves).len() <= i < final(moves).len() ==> sq_in(
                    self.bishops & self.color_bb(self.to_move),
                    final(moves)@[i].from as int,
                ) || sq_in(self.rooks & self.color_bb(self.to_move), final(moves)@[i].from as int),
            forall|m: Move|
                #![trigger final(moves)@.contains(m)]
                final(moves)@.contains(m) <==> (old(moves)@.contains(m) || kind_move(*self, PieceKind::Bishop, m)
                    || kind_move(*self, PieceKind::Rook, m)),
    {
        let ghost start = moves@;
        let our_pieces = if self.to_move == Color::White {
            self.white_pieces
        } else {
            self.black_pieces
        };
        let all_pieces = self.white_pieces | self.black_pieces;
        push_piece_moves(moves, self.bishops & our_pieces, PieceKind::Bishop, self.to_move, all_pieces, our_pieces);
        let ghost mid = moves@;
        proof {
            assert forall|i: int| 0 <= i < moves.len() implies !sq_in(self.rooks & our_pieces, moves@[i].from as int) by {
                if i < start.len() {
                    assert(moves@[i] == start[i]);
                } else {
                    let f = moves@[i].from as int;
                    assert(sq_in(self.bishops & our_pieces, f));
                    assert(self.square_wf(f));
                }
            }
        }
        push_piece_moves(moves, self.rooks & our_pieces, PieceKind::Rook, self.to_move, all_pieces, our_pieces);
        proof {
            assert forall|i: int| start.len() <= i < moves.len() implies sq_in(
                self.bishops & self.color_bb(self.to_move),
                moves@[i].from as int,
            ) || sq_in(self.rooks & self.color_bb(self.to_move), moves@[i].from as int) by {
                if i < mid.len() {
                    assert(moves@[i] == mid[i]);
                }
            }
        }
    }

    /// All pseudo-legal moves of the side to move: pawn, knight, bishop,
    /// rook, queen and king moves, in that order, each once.
    pub fn generate_all_moves(&self) -> (moves: Vec<Move>)
        requires
            self.wf(),
        ensures
            moves@.no_duplicates(),
            forall|m: Move| #![trigger moves@.contains(m)] moves@.contains(m) <==> pseudo_legal(*self, m),
    {
        let ghost own = self.color_bb(self.to_move);
        let mut moves: Vec<Move> = Vec::with_capacity(100);
        generate_pawn_moves_into(self, &mut moves);
        proof {
            assert forall|i: int| 0 <= i < moves.len() implies !sq_in(self.knights & own, moves@[i].from as int) by {
                let f = moves@[i].from as int;
                assert(sq_in(self.pawns & own, f));
                assert(self.square_wf(f));
            }
        }
        let ghost m1 = moves@;
        generate_knight_moves_into(self, &mut moves);
        proof {
            assert forall|i: int| 0 <= i < moves.len() implies !sq_in(self.bishops & own, moves@[i].from as int)
                && !sq_in(self.rooks & own, moves@[i].from as int) by {
                let f = moves@[i].from as int;
                if i < m1.len() {
                    assert(moves@[i] == m1[i]);
                    assert(sq_in(self.pawns & own, f));
                } else {
                    assert(sq_in(self.knights & own, f));
                }
                assert(self.square_wf(f));
            }
        }
        let ghost m2 = moves@;
        self.generate_sliding_moves(&mut moves);
        proof {
            assert forall|i: int| 0 <= i < moves.len() implies !sq_in(self.queens & own, moves@[i].from as int) by {
                let f = moves@[i].from as int;
                if i < m1.len() {
                    assert(moves@[i] == m1[i]);
                    assert(sq_in(self.pawns & own, f));
                } else if i < m2.len() {
                    assert(moves@[i] == m2[i]);
                    assert(sq_in(self.knights & own, f));
                }
                assert(self.square_wf(f));
            }
        }
        let ghost m3 = moves@;
        generate_queen_moves_into(self, &mut moves);
        proof {
            assert forall|i: int| 0 <= i < moves.len() implies !sq_in(self.kings & own, moves@[i].from as int)
                && !moves@[i].is_castling by {
                let f = moves@[i].from as int;
                if i < m1.len() {
                    assert(moves@[i] == m1[i]);
                    assert(sq_in(self.pawns & own, f));
                } else if i < m2.len() {
                    assert(moves@[i] == m2[i]);
                    assert(sq_in(self.knights & own, f));
                } else if i < m3.len() {
                    assert(moves@[i] == m3[i]);
                } else {
                    assert(sq_in(self.queens & own, f));
                }
                assert(self.square_wf(f));
                assert(moves@.contains(moves@[i]));
            }
        }
        generate_king_moves_into(self, &mut moves);
        moves
    }

    /// Whether `mv` can be played (see `move_shape_ok`).
    pub fn can_play(&self, mv: Move) -> (r: bool)
        requires
            self.wf(),
        ensures
            r == move_shape_ok(*self, mv),
    {
        if mv.from >= 64 || mv.to >= 64 || mv.from == mv.to {
            return false;
        }
        let p = match self.get_piece_at(mv.from) {
            None => {
                return false;
            },
            Some(p) => p,
        };
        if p.color != self.to_move {
            return false;
        }
        if mv.promotion.is_some() && p.kind != PieceKind::Pawn {
            return false;
        }
        let white = self.to_move == Color::White;
        let cap: u8 = if mv.is_en_passant {
            if mv.is_castling {
                return false;
            }
            if white && mv.to < 8 {
                return false;
            }
            if !white && mv.to >= 56 {
                return false;
            }
            let cap: u8 = if white {
                mv.to - 8
            } else {
                mv.to + 8
            };
            if cap == mv.from {
                return false;
            }
            if self.get_piece_at(mv.to).is_some() {
                return false;
            }
            cap
        } else {
            mv.to
        };
        match self.get_piece_at(cap) {
            Some(q) => {
                if q.color == self.to_move {
                    return false;
                }
            },
            None => {},
        }
        if mv.is_castling {
            let ok = match self.to_move {
                Color::White => mv.from == 4 && (mv.to == 6 || mv.to == 2),
                Color::Black => mv.from == 60 && (mv.to == 62 || mv.to == 58),
            };
            if !ok {
                return false;
            }
            let (_rf, rt) = castling_rook_sqs(self.to_move, mv.to);
            if self.get_piece_at(rt).is_some() {
                return false;
            }
        }
        true
    }

    /// Whether `mv` is legal: it can be played and the mover's king is not
    /// attacked afterwards.
    pub fn is_legal_move(&self, mv: Move) -> (r: bool)
        requires
            self.wf(),
        ensures
            r == legal_move(*self, mv),
    {
        if !self.can_play(mv) {
            return false;
        }
        let mut temp = *self;
        let safe = temp.make_move(mv);
        proof {
            let u = choose|u: UndoInfo| made(*self, mv, temp, u);
            assert forall|a: Board, u2: UndoInfo| #[trigger] made(*self, mv, a, u2) implies !in_check_spec(a, self.to_move)
                == safe by {
                lemma_made_same_checks(*self, mv, temp, u, a, u2);
            }
            if !safe {
                assert(made(*self, mv, temp, u));
            }
        }
        safe
    }

    /// The legal moves of the side to move: the pseudo-legal moves that can
    /// be played and leave its king safe, each once.
    pub fn generate_legal_moves(&self) -> (legal: Vec<Move>)
        requires
            self.wf(),
        ensures
            legal@.no_duplicates(),
            forall|m: Move|
                #![trigger legal@.contains(m)]
                legal@.contains(m) <==> (pseudo_legal(*self, m) && legal_move(*self, m)),
    {
        let pseudo = self.generate_all_moves();
        let mut legal: Vec<Move> = Vec::new();
        let mut i: usize = 0;
        while i < pseudo.len()
            invariant
                self.wf(),
                i <= pseudo.len(),
                pseudo@.no_duplicates(),
                forall|m: Move| #![trigger pseudo@.contains(m)] pseudo@.contains(m) <==> pseudo_legal(*self, m),
                legal@.no_duplicates(),
                forall|m: Move|
                    #![trigger legal@.contains(m)]
                    legal@.contains(m) <==> (exists|j: int| 0 <= j < i && pseudo@[j] == m) && legal_move(*self, m),
            decreases pseudo.len() - i,
        {
            let mv = pseudo[i];
            if self.is_legal_move(mv) {
                proof {
                    if legal@.contains(mv) {
                        let j = choose|j: int| 0 <= j < i && pseudo@[j] == mv;
                        assert(pseudo@[j] == pseudo@[i as int]);
                    }
                    crate::moves::gen::lemma_push_distinct(legal@, mv);
                }
                let ghost before = legal@;
                legal.push(mv);
                proof {
                    assert forall|m: Move| #![trigger legal@.contains(m)] legal@.contains(m) <==> (exists|j: int|
                        0 <= j < i + 1 && pseudo@[j] == m) && legal_move(*self, m) by {
                        if legal@.contains(m) {
                            let k = choose|k: int| 0 <= k < legal.len() && legal@[k] == m;
                            if k < before.len() {
                                assert(before[k] == m);
                                assert(before.contains(m));
                            } else {
                                assert(pseudo@[i as int] == m);
                            }
                        }
                        if (exists|j: int| 0 <= j < i + 1 && pseudo@[j] == m) && legal_move(*self, m) {
                            let j = choose|j: int| 0 <= j < i + 1 && pseudo@[j] == m;
                            if j < i {
                                assert(before.contains(m));
                                let k = choose|k: int| 0 <= k < before.len() && before[k] == m;
                                assert(legal@[k] == m);
                            } else {
                                assert(legal@[before.len() as int] == m);
                            }
                        }
                    }
                }
            } else {
                proof {
                    assert forall|m: Move| #![trigger legal@.contains(m)] legal@.contains(m) <==> (exists|j: int|
                        0 <= j < i + 1 && pseudo@[j] == m) && legal_move(*self, m) by {
                        if (exists|j: int| 0 <= j < i + 1 && pseudo@[j] == m) && legal_move(*self, m) {
                            let j = choose|j: int| 0 <= j < i + 1 && pseudo@[j] == m;
                            assert(j < i);
                        }
                    }
                }
            }
            i = i + 1;
        }
        proof {
            assert forall|m: Move| #![trigger legal@.contains(m)] legal@.contains(m) <==> (pseudo_legal(*self, m)
                && legal_move(*self, m)) by {
                if pseudo_legal(*self, m) {
                    assert(pseudo@.contains(m));
                    let j = choose|j: int| 0 <= j < pseudo.len() && pseudo@[j] == m;
                    assert(pseudo@[j] == m);
                }
                if legal@.contains(m) {
                    let j = choose|j: int| 0 <= j < i && pseudo@[j] == m;
                    assert(pseudo@.contains(m));
                }
            }
        }
        legal
    }

    /// The pseudo-legal captures of the side to move (for quiescence
    /// search): pawn captures with en passant, then knight, bishop, rook,
    /// queen and king captures, each once.
    pub fn generate_capture_moves(&self) -> (moves: Vec<Move>)
        requires
            self.wf(),
        ensures
            moves@.no_duplicates(),
            forall|m: Move| #![trigger moves@.contains(m)] moves@.contains(m) <==> capture_move(*self, m),
    {
        let ghost b = *self;
        let ghost own = self.color_bb(self.to_move);
        let mut moves: Vec<Move> = Vec::with_capacity(32);
        let our_pieces = if self.to_move == Color::White {
            self.white_pieces
        } else {
            self.black_pieces
        };
        let enemy_pieces = if self.to_move == Color::White {
            self.black_pieces
        } else {
            self.white_pieces
        };
        let all_pieces = self.white_pieces | self.black_pieces;
        let not_enemy = !enemy_pieces;
        proof {
            assert forall|k: PieceKind, m: Move| #[trigger] piece_move(k, self.to_move, all_pieces, not_enemy, self.kind_bb(k) & our_pieces, m)
                == kind_capture(b, k, m) by {
                if m.to < 64 {
                    assert(sq_in(not_enemy, m.to as int) == !sq_in(enemy_pieces, m.to as int));
                }
            }
        }
        generate_pawn_captures_into(self, &mut moves);
        let ghost m1 = moves@;
        proof {
            assert forall|i: int| 0 <= i < moves.len() implies !sq_in(self.knights & our_pieces, moves@[i].from as int) by {
                let f = moves@[i].from as int;
                assert(pawn_capture(b, moves@[i]));
                assert(self.square_wf(f));
            }
        }
        push_piece_moves(&mut moves, self.knights & our_pieces, PieceKind::Knight, self.to_move, all_pieces, not_enemy);
        let ghost m2 = moves@;
        proof {
            assert forall|i: int| 0 <= i < moves.len() implies !sq_in(self.bishops & our_pieces, moves@[i].from as int) by {
                let f = moves@[i].from as int;
                if i < m1.len() {
                    assert(moves@[i] == m1[i]);
                    assert(pawn_capture(b, moves@[i]));
                }
                assert(self.square_wf(f));
            }
        }
        push_piece_moves(&mut moves, self.bishops & our_pieces, PieceKind::Bishop, self.to_move, all_pieces, not_enemy);
        let ghost m3 = moves@;
        proof {
            assert forall|i: int| 0 <= i < moves.len() implies !sq_in(self.rooks & our_pieces, moves@[i].from as int) by {
                let f = moves@[i].from as int;
                if i < m1.len() {
                    assert(moves@[i] == m1[i]);
                    assert(pawn_capture(b, moves@[i]));
                } else if i < m2.len() {
                    assert(moves@[i] == m2[i]);
                }
                assert(self.square_wf(f));
            }
        }
        push_piece_moves(&mut moves, self.rooks & our_pieces, PieceKind::Rook, self.to_move, all_pieces, not_enemy);
        let ghost m4 = moves@;
        proof {
            assert forall|i: int| 0 <= i < moves.len() implies !sq_in(self.queens & our_pieces, moves@[i].from as int) by {
                let f = moves@[i].from as int;
                if i < m1.len() {
                    assert(moves@[i] == m1[i]);
                    assert(pawn_capture(b, moves@[i]));
                } else if i < m2.len() {
                    assert(moves@[i] == m2[i]);
                } else if i < m3.len() {
                    assert(moves@[i] == m3[i]);
                }
                assert(self.square_wf(f));
            }
        }
        push_piece_moves(&mut moves, self.queens & our_pieces, PieceKind::Queen, self.to_move, all_pieces, not_enemy);
        let ghost m5 = moves@;
        let our_king = self.kings & our_pieces;
        if our_king != 0 {
            proof {
                lemma_clear_lowest(our_king);
            }
            let from_sq = our_king.trailing_zeros() as u8;
            let king_attacks = get_king_attacks(from_sq);
            let captures = king_attacks & enemy_pieces;
            proof {
                assert forall|i: int| 0 <= i < moves.len() implies moves@[i].from != from_sq by {
                    let f = moves@[i].from as int;
                    if i < m1.len() {
                        assert(moves@[i] == m1[i]);
                        assert(pawn_capture(b, moves@[i]));
                    } else if i < m2.len() {
                        assert(moves@[i] == m2[i]);
                    } else if i < m3.len() {
                        assert(moves@[i] == m3[i]);
                    } else if i < m4.len() {
                        assert(moves@[i] == m4[i]);
                    }
                    assert(self.square_wf(f));
                }
            }
            push_targets(&mut moves, from_sq, captures);
            proof {
                assert forall|m: Move| #![trigger moves@.contains(m)] moves@.contains(m) <==> capture_move(b, m) by {
                    if m.to < 64 {
                        assert(sq_in(king_attacks, m.to as int) == king_step(from_sq as int, m.to as int));
                        assert(sq_in(captures, m.to as int) == (sq_in(king_attacks, m.to as int) && sq_in(enemy_pieces, m.to as int)));
                    }
                    assert(m5.contains(m) == (m4.contains(m) || kind_capture(b, PieceKind::Queen, m)));
                    assert(m4.contains(m) == (m3.contains(m) || kind_capture(b, PieceKind::Rook, m)));
                    assert(m3.contains(m) == (m2.contains(m) || kind_capture(b, PieceKind::Bishop, m)));
                    assert(m2.contains(m) == (m1.contains(m) || kind_capture(b, PieceKind::Knight, m)));
                }
            }
        } else {
            proof {
                assert forall|m: Move| #![trigger moves@.contains(m)] moves@.contains(m) <==> capture_move(b, m) by {
                    assert(m5.contains(m) == (m4.contains(m) || kind_capture(b, PieceKind::Queen, m)));
                    assert(m4.contains(m) == (m3.contains(m) || kind_capture(b, PieceKind::Rook, m)));
                    assert(m3.contains(m) == (m2.contains(m) || kind_capture(b, PieceKind::Bishop, m)));
                    assert(m2.contains(m) == (m1.contains(m) || kind_capture(b, PieceKind::Knight, m)));
                }
            }
        }
        moves
    }
}

} // verus!
