use vstd::prelude::*;
use vstd::std_specs::bits::{u64_trailing_zeros, axiom_u64_trailing_zeros};
use crate::bits::{sq_in, lemma_lowest_bit, group_bits};
use crate::board::Board;
use crate::types::{Color, PieceKind, Move, UndoInfo, kind_value};
use crate::game::check::{attacked_by, in_check_spec};
use crate::game::movegen::leaves_king_safe;
use crate::make_move::{made, move_shape_ok};
use crate::perft::lemma_safe_after;

verus! {

broadcast use group_bits;

/// The value of a piece in an exchange: its material value, 10000 for a
/// king.
pub open spec fn see_value(k: PieceKind) -> int {
    if k == PieceKind::King {
        10000
    } else {
        kind_value(k) as int
    }
}

/// The recapture of `to` by the piece on `from`.
pub open spec fn recapture(from: u8, to: u8) -> Move {
    Move { from, to, promotion: None, is_castling: false, is_en_passant: false }
}

/// The pieces of kind `k` and colour `c`.
pub open spec fn kind_of_color(b: Board, k: PieceKind, c: Color) -> u64 {
    b.kind_bb(k) & b.color_bb(c)
}

/// The recapturing piece chosen on `sq` for colour `c`: when `sq` is
/// attacked by `c` at all, the lowest square of the first kind of `c`
/// present, in the order pawn, knight, bishop, rook, queen, king.
pub open spec fn lva_square(b: Board, sq: int, c: Color) -> Option<u8> {
    if !attacked_by(b, sq, c) {
        None
    } else if kind_of_color(b, PieceKind::Pawn, c) != 0 {
        Some(u64_trailing_zeros(kind_of_color(b, PieceKind::Pawn, c)) as u8)
    } else if kind_of_color(b, PieceKind::Knight, c) != 0 {
        Some(u64_trailing_zeros(kind_of_color(b, PieceKind::Knight, c)) as u8)
    } else if kind_of_color(b, PieceKind::Bishop, c) != 0 {
        Some(u64_trailing_zeros(kind_of_color(b, PieceKind::Bishop, c)) as u8)
    } else if kind_of_color(b, PieceKind::Rook, c) != 0 {
        Some(u64_trailing_zeros(kind_of_color(b, PieceKind::Rook, c)) as u8)
    } else if kind_of_color(b, PieceKind::Queen, c) != 0 {
        Some(u64_trailing_zeros(kind_of_color(b, PieceKind::Queen, c)) as u8)
    } else if kind_of_color(b, PieceKind::King, c) != 0 {
        Some(u64_trailing_zeros(kind_of_color(b, PieceKind::King, c)) as u8)
    } else {
        None
    }
}

/// The recaptures on `sq` from `b`, `c` to move, at most `steps` of them,
/// take the values `gs`: while `c` attacks `sq` and a piece stands there,
/// its value is taken, and the exchange goes on from the position after
/// the recapture when that is legal.
pub open spec fn exchange(b: Board, sq: int, c: Color, steps: int, gs: Seq<int>) -> bool
    decreases steps,
{
    if steps <= 0 {
        gs.len() == 0
    } else {
        match lva_square(b, sq, c) {
            None => gs.len() == 0,
            Some(from) => match b.piece_at(sq) {
                None => gs.len() == 0,
                Some(p) => {
                    &&& gs.len() >= 1
                    &&& gs[0] == see_value(p.kind)
                    &&& {
                        let rm = recapture(from, sq as u8);
                        if move_shape_ok(b, rm) && leaves_king_safe(b, rm) {
                            exists|a: Board, u: UndoInfo|
                                made(b, rm, a, u) && exchange(a, sq, c.flip(), steps - 1, gs.drop_first())
                        } else {
                            gs.len() == 1
                        }
                    }
                },
            },
        }
    }
}

/// The result of the exchange whose values taken are `g[i..]`: each side
/// takes, and the other answers.
pub open spec fn see_minimax(g: Seq<int>, i: int) -> int
    decreases g.len() - i,
{
    if i < 0 || i >= g.len() {
        0
    } else if i == g.len() - 1 {
        g[i]
    } else {
        g[i] - see_minimax(g, i + 1)
    }
}

/// The value taken by the capture `mv` first: the piece on its destination,
/// a pawn for en passant.
pub open spec fn first_victim(b: Board, mv: Move) -> int {
    match b.piece_at(mv.to as int) {
        Some(p) => see_value(p.kind),
        None => 100,
    }
}

/// Static exchange evaluation of captures.
pub struct SEE;

impl SEE {
    /// The value of a piece in an exchange.
    fn get_piece_value(piece_kind: PieceKind) -> (r: i32)
        ensures
            r == see_value(piece_kind),
            0 <= r <= 10000,
    {
        if piece_kind == PieceKind::King {
            10000
        } else {
            piece_kind.value()
        }
    }

    /// The move takes something: a piece on its destination, or en passant.
    fn is_capture_move(board: &Board, mv: Move) -> (r: bool)
        requires
            board.wf(),
            mv.to < 64,
        ensures
            r == (board.piece_at(mv.to as int) is Some || mv.is_en_passant),
    {
        board.get_piece_at(mv.to).is_some() || mv.is_en_passant
    }

    /// The lowest square of the pieces of `piece_kind` in
    /// `attacking_pieces`, when `square` is attacked by `color` at all.
    fn find_piece_attacker(board: &Board, square: u8, color: Color, piece_kind: PieceKind, attacking_pieces: u64) -> (r: Option<u8>)
        requires
            board.wf(),
            square < 64,
            attacking_pieces == board.color_bb(color),
        ensures
            r == (if kind_of_color(*board, piece_kind, color) != 0 && attacked_by(*board, square as int, color) {
                Some(u64_trailing_zeros(kind_of_color(*board, piece_kind, color)) as u8)
            } else {
                None
            }),
    {
        let piece_bb = match piece_kind {
            PieceKind::Pawn => board.pawns,
            PieceKind::Knight => board.knights,
            PieceKind::Bishop => board.bishops,
            PieceKind::Rook => board.rooks,
            PieceKind::Queen => board.queens,
            PieceKind::King => board.kings,
        };
        let candidates = piece_bb & attacking_pieces;
        if candidates == 0 {
            return None;
        }
        proof {
            lemma_lowest_bit(candidates);
            axiom_u64_trailing_zeros(candidates);
        }
        let mut candidate_square: u8 = 0;
        while candidate_square < 64
            invariant
                board.wf(),
                square < 64,
                candidates == kind_of_color(*board, piece_kind, color),
                candidates != 0,
                candidate_square <= u64_trailing_zeros(candidates),
                forall|s: int| 0 <= s < u64_trailing_zeros(candidates) ==> !sq_in(candidates, s),
                sq_in(candidates, u64_trailing_zeros(candidates) as int),
            decreases 64 - candidate_square,
        {
            let candidate_bb = 1u64 << candidate_square;
            if (candidates & candidate_bb) != 0 {
                proof {
                    assert(sq_in(candidates, candidate_square as int));
                    assert(candidate_square == u64_trailing_zeros(candidates));
                    assert(board.square_wf(candidate_square as int));
                }
                if Self::can_piece_attack(board, candidate_square, square, piece_kind, color) {
                    return Some(candidate_square);
                }
                return None;
            }
            proof {
                assert(!sq_in(candidates, candidate_square as int));
            }
            candidate_square = candidate_square + 1;
        }
        None
    }

    /// A piece of `color` stands on `from` and `to` is attacked by `color`.
    fn can_piece_attack(board: &Board, from: u8, to: u8, _piece_kind: PieceKind, color: Color) -> (r: bool)
        requires
            board.wf(),
            from < 64,
            to < 64,
        ensures
            r == (board.piece_at(from as int) matches Some(p) && p.color == color && attacked_by(
                *board,
                to as int,
                color,
            )),
    {
        if let Some(piece) = board.get_piece_at(from) {
            if piece.color == color {
                board.is_square_attacked_by(to, color)
            } else {
                false
            }
        } else {
            false
        }
    }

    /// The recapturing piece for `color` on `square`.
    fn find_least_valuable_attacker(board: &Board, square: u8, color: Color) -> (r: Option<u8>)
        requires
            board.wf(),
            square < 64,
        ensures
            r == lva_square(*board, square as int, color),
    {
        let attacking_pieces = if color == Color::White {
            board.white_pieces
        } else {
            board.black_pieces
        };
        if let Some(a) = Self::find_piece_attacker(board, square, color, PieceKind::Pawn, attacking_pieces) {
            return Some(a);
        }
        if let Some(a) = Self::find_piece_attacker(board, square, color, PieceKind::Knight, attacking_pieces) {
            return Some(a);
        }
        if let Some(a) = Self::find_piece_attacker(board, square, color, PieceKind::Bishop, attacking_pieces) {
            return Some(a);
        }
        if let Some(a) = Self::find_piece_attacker(board, square, color, PieceKind::Rook, attacking_pieces) {
            return Some(a);
        }
        if let Some(a) = Self::find_piece_attacker(board, square, color, PieceKind::Queen, attacking_pieces) {
            return Some(a);
        }
        if let Some(a) = Self::find_piece_attacker(board, square, color, PieceKind::King, attacking_pieces) {
            return Some(a);
        }
        None
    }

    /// The minimax of the values taken, from the last capture back.
    fn minimax_see(gains: &Vec<i32>) -> (r: i32)
        requires
            gains.len() <= 11,
            forall|i: int| 0 <= i < gains.len() ==> 0 <= #[trigger] gains@[i] <= 10000,
        ensures
            r == see_minimax(gains@.map_values(|v: i32| v as int), 0),
    {
        let ghost g = gains@.map_values(|v: i32| v as int);
        if gains.len() == 0 {
            return 0;
        }
        let n = gains.len();
        let mut acc: i32 = gains[n - 1];
        let mut i: usize = n - 1;
        while i > 0
            invariant
                n == gains.len(),
                n <= 11,
                1 <= n,
                i < n,
                g == gains@.map_values(|v: i32| v as int),
                forall|j: int| 0 <= j < gains.len() ==> 0 <= #[trigger] gains@[j] <= 10000,
                acc == see_minimax(g, i as int),
                -10000 * (n - i) <= acc <= 10000 * (n - i),
            decreases i,
        {
            i = i - 1;
            acc = gains[i] - acc;
        }
        acc
    }

    /// The static exchange evaluation of the capture `mv`: the values taken
    /// by it and the recaptures on its square (at most ten), each side
    /// taking with its least valuable piece, scored by minimax; 0 for a
    /// move that takes nothing or cannot be played.
    pub fn evaluate_capture(board: &Board, mv: Move) -> (r: i32)
        requires
            board.wf(),
            mv.to < 64,
        ensures
            !(board.piece_at(mv.to as int) is Some || mv.is_en_passant) ==> r == 0,
            !(move_shape_ok(*board, mv) && leaves_king_safe(*board, mv)) ==> r == 0,
            (board.piece_at(mv.to as int) is Some || mv.is_en_passant) && move_shape_ok(*board, mv)
                && leaves_king_safe(*board, mv) ==> exists|a: Board, u: UndoInfo, gs: Seq<int>|
                made(*board, mv, a, u) && exchange(a, mv.to as int, board.to_move.flip(), 10, gs) && r
                    == see_minimax(seq![first_victim(*board, mv)] + gs, 0),
    {
        if !Self::is_capture_move(board, mv) {
            return 0;
        }
        let mut board_copy = *board;
        let mut gain: Vec<i32> = Vec::new();
        let initial_victim = if let Some(piece) = board.get_piece_at(mv.to) {
            Self::get_piece_value(piece.kind)
        } else {
            100
        };
        gain.push(initial_victim);
        if !board.can_play(mv) {
            return 0;
        }
        let legal = board_copy.make_move(mv);
        let ghost u0 = choose|u: UndoInfo| made(*board, mv, board_copy, u);
        proof {
            lemma_safe_after(*board, mv, board_copy, u0);
        }
        if !legal {
            return 0;
        }
        let ghost a0 = board_copy;
        let current_square = mv.to;
        let mut attacking_color = board.to_move.opposite();
        let mut depth: usize = 1;
        let mut stopped = false;
        proof {
            assert forall|rest: Seq<int>|
                #[trigger] exchange(board_copy, current_square as int, attacking_color, 10, rest) implies exchange(
                a0,
                current_square as int,
                board.to_move.flip(),
                10,
                gain@.map_values(|v: i32| v as int).drop_first() + rest,
            ) by {
                assert(gain@.map_values(|v: i32| v as int).drop_first() + rest =~= rest);
            }
        }
        while depth <= 10 && !stopped
            invariant
                1 <= depth <= 11,
                board_copy.wf(),
                current_square < 64,
                gain.len() == depth || (stopped && gain.len() == depth + 1),
                gain.len() <= 11,
                gain@[0] == first_victim(*board, mv),
                forall|i: int| 0 <= i < gain.len() ==> 0 <= #[trigger] gain@[i] <= 10000,
                current_square == mv.to,
                stopped ==> exchange(a0, current_square as int, board.to_move.flip(), 10, gain@.map_values(|v: i32| v as int).drop_first()),
                !stopped ==> forall|rest: Seq<int>|
                    #[trigger] exchange(board_copy, current_square as int, attacking_color, 11 - depth, rest) ==> exchange(
                        a0,
                        current_square as int,
                        board.to_move.flip(),
                        10,
                        gain@.map_values(|v: i32| v as int).drop_first() + rest,
                    ),
            decreases 11 - depth + (if stopped {
                0int
            } else {
                1int
            }),
        {
            let ghost g0 = gain@.map_values(|v: i32| v as int);
            let ghost bc = board_copy;
            let ghost c = attacking_color;
            let ghost k = 11 - depth;
            match Self::find_least_valuable_attacker(&board_copy, current_square, attacking_color) {
                Some(next_attacker) => {
                    match board_copy.get_piece_at(current_square) {
                        Some(piece) => {
                            let victim_value = Self::get_piece_value(piece.kind);
                            gain.push(victim_value);
                            let recapture_move = Move {
                                from: next_attacker,
                                to: current_square,
                                promotion: None,
                                is_castling: false,
                                is_en_passant: false,
                            };
                            let ghost g1 = gain@.map_values(|v: i32| v as int);
                            proof {
                                assert(g1 =~= g0.push(victim_value as int));
                                assert(recapture_move == recapture(next_attacker, current_square as int as u8));
                            }
                            if board_copy.can_play(recapture_move) {
                                let ghost before = board_copy;
                                let ok = board_copy.make_move(recapture_move);
                                let ghost u = choose|u: UndoInfo| made(before, recapture_move, board_copy, u);
                                proof {
                                    lemma_safe_after(before, recapture_move, board_copy, u);
                                }
                                if ok {
                                    attacking_color = attacking_color.opposite();
                                    depth = depth + 1;
                                    proof {
                                        assert forall|rest: Seq<int>|
                                            #[trigger] exchange(board_copy, current_square as int, attacking_color, 11 - depth, rest) implies exchange(
                                            a0,
                                            current_square as int,
                                            board.to_move.flip(),
                                            10,
                                            g1.drop_first() + rest,
                                        ) by {
                                            let r2 = seq![victim_value as int] + rest;
                                            assert(r2.drop_first() =~= rest);
                                            assert(exchange(bc, current_square as int, c, k, r2));
                                            assert(g0.drop_first() + r2 =~= g1.drop_first() + rest);
                                        }
                                    }
                                } else {
                                    stopped = true;
                                    proof {
                                        assert(exchange(bc, current_square as int, c, k, seq![victim_value as int]));
                                        assert(g0.drop_first() + seq![victim_value as int] =~= g1.drop_first());
                                    }
                                }
                            } else {
                                stopped = true;
                                proof {
                                    assert(exchange(bc, current_square as int, c, k, seq![victim_value as int]));
                                    assert(g0.drop_first() + seq![victim_value as int] =~= g1.drop_first());
                                }
                            }
                        },
                        None => {
                            stopped = true;
                            proof {
                                assert(exchange(bc, current_square as int, c, k, Seq::<int>::empty()));
                                assert(g0.drop_first() + Seq::<int>::empty() =~= g0.drop_first());
                            }
                        },
                    }
                },
                None => {
                    stopped = true;
                    proof {
                        assert(exchange(bc, current_square as int, c, k, Seq::<int>::empty()));
                        assert(g0.drop_first() + Seq::<int>::empty() =~= g0.drop_first());
                    }
                },
            }
        }
        proof {
            if !stopped {
                assert(exchange(board_copy, current_square as int, attacking_color, 11 - depth, Seq::<int>::empty()));
                assert(gain@.map_values(|v: i32| v as int).drop_first() + Seq::<int>::empty() =~= gain@.map_values(
                    |v: i32| v as int,
                ).drop_first());
            }
            let g = gain@.map_values(|v: i32| v as int);
            assert(g =~= seq![first_victim(*board, mv)] + g.drop_first());
        }
        Self::minimax_see(&gain)
    }

    /// A quick estimate of a capture: the victim's value less the
    /// attacker's plus 50 when it gains, less a further 100 when it loses
    /// more than 200, 0 otherwise; 0 for a move that takes nothing.
    pub fn quick_capture_eval(board: &Board, mv: Move) -> (r: i32)
        requires
            board.wf(),
            mv.from < 64,
            mv.to < 64,
        ensures
            r == (if !(board.piece_at(mv.to as int) is Some || mv.is_en_passant) {
                0
            } else if board.piece_at(mv.from as int) is None {
                0
            } else {
                let v = first_victim(*board, mv);
                let a = see_value(board.piece_at(mv.from as int)->0.kind);
                if v >= a {
                    v - a + 50
                } else if v + 200 < a {
                    v - a - 100
                } else {
                    0
                }
            }),
    {
        if !Self::is_capture_move(board, mv) {
            return 0;
        }
        let victim_value = if let Some(victim) = board.get_piece_at(mv.to) {
            Self::get_piece_value(victim.kind)
        } else {
            100
        };
        let attacker_value = if let Some(attacker) = board.get_piece_at(mv.from) {
            Self::get_piece_value(attacker.kind)
        } else {
            return 0;
        };
        if victim_value >= attacker_value {
            victim_value - attacker_value + 50
        } else if victim_value + 200 < attacker_value {
            victim_value - attacker_value - 100
        } else {
            0
        }
    }
}

/// Prefixing a value shifts the positions of the later values by one.
proof fn lemma_see_shift(x: int, g: Seq<int>, i: int)
    requires
        0 <= i,
    ensures
        see_minimax(seq![x] + g, i + 1) == see_minimax(g, i),
    decreases g.len() - i,
{
    let h = seq![x] + g;
    if i < g.len() {
        assert(h[i + 1] == g[i]);
        if i < g.len() - 1 {
            lemma_see_shift(x, g, i + 1);
        }
    }
}

/// The exchange alternates sides: with no capture it is worth nothing,
/// with one capture the value taken, and a capture taking `x` that the
/// opponent answers with the exchange `g` is worth `x` minus what the
/// opponent's exchange is worth to the opponent. So a knight taking a pawn
/// and lost to the recapture scores 100 - 320.
pub proof fn law_see_alternates(x: int, g: Seq<int>)
    ensures
        see_minimax(Seq::<int>::empty(), 0) == 0,
        see_minimax(seq![x], 0) == x,
        g.len() > 0 ==> see_minimax(seq![x] + g, 0) == x - see_minimax(g, 0),
        see_minimax(seq![x, 320int], 0) == x - 320,
{
    if g.len() > 0 {
        lemma_see_shift(x, g, 0);
        assert((seq![x] + g).len() == g.len() + 1);
        assert((seq![x] + g)[0] == x);
    }
    lemma_see_shift(x, seq![320int], 0);
    assert(seq![x] + seq![320int] =~= seq![x, 320int]);
}

} // verus!
