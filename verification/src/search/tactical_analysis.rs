use vstd::prelude::*;
use vstd::std_specs::bits::{u64_trailing_zeros, axiom_u64_trailing_zeros};
use crate::bits::{sq_in, group_bits, lemma_lowest_bit};
use crate::board::Board;
use crate::types::Color;
use crate::game::check::{attacked_by, in_check_spec, check_cache_ok, occupancy, lemma_nonzero_square};
use crate::moves::attacks::{king_step, knight_step, pawn_attack_step, bishop_attack};
use crate::moves::king::get_king_attacks;
use crate::moves::knight::get_knight_attacks;
use crate::moves::pawn::get_pawn_attacks;
use crate::moves::magic_bitboards::get_bishop_attacks_magic;

verus! {

broadcast use group_bits;

/// A piece of the side not to move, neither pawn nor king, that no piece
/// of its own side attacks.
pub open spec fn undefended_spec(b: Board) -> bool {
    let them = b.to_move.flip();
    exists|s: int| #[trigger] sq_in(b.color_bb(them) & !(b.pawns | b.kings), s) && !attacked_by(b, s, them)
}

/// The king steps from `ks` among squares `0..n` to squares without a
/// piece of `c` and not attacked by the other side.
pub open spec fn safe_escapes(b: Board, ks: int, c: Color, n: int) -> int
    decreases n,
{
    if n <= 0 {
        0
    } else {
        let t = n - 1;
        safe_escapes(b, ks, c, n - 1) + (if king_step(ks, t) && !sq_in(b.color_bb(c), t) && !attacked_by(
            b,
            t,
            c.flip(),
        ) {
            1int
        } else {
            0int
        })
    }
}

/// The king of the side not to move is exposed: in the centre (files c-f,
/// ranks 3-6) or with at most two safe escape squares.
pub open spec fn exposed_spec(b: Board) -> bool {
    let them = b.to_move.flip();
    let kb = b.kings & b.color_bb(them);
    kb != 0 && {
        let ks = u64_trailing_zeros(kb) as int;
        let f = ks % 8;
        let r = ks / 8;
        (2 <= f <= 5 && 2 <= r <= 5) || safe_escapes(b, ks, them, 64) <= 2
    }
}

/// A pawn of `c` stands where a pawn of the other colour on `s` would
/// attack.
pub open spec fn pawn_attacked(b: Board, s: int, c: Color) -> bool {
    exists|t: int| #[trigger] sq_in(b.pawns & b.color_bb(c), t) && pawn_attack_step(c.flip(), s, t)
}

/// A knight or bishop of `c` attacks `s`.
pub open spec fn minor_attacked(b: Board, s: int, c: Color) -> bool {
    ||| exists|t: int| #[trigger] sq_in(b.knights & b.color_bb(c), t) && knight_step(s, t)
    ||| exists|t: int| #[trigger] sq_in(b.bishops & b.color_bb(c), t) && bishop_attack(s, occupancy(b), t)
}

/// A knight or bishop of the side not to move attacked by a pawn of the
/// side to move, or a rook of it attacked by a knight or bishop.
pub open spec fn hanging_spec(b: Board) -> bool {
    let us = b.to_move;
    let enemy = b.color_bb(us.flip());
    ||| exists|s: int| #[trigger] sq_in(enemy & (b.knights | b.bishops), s) && pawn_attacked(b, s, us)
    ||| exists|s: int| #[trigger] sq_in(enemy & b.rooks, s) && minor_attacked(b, s, us)
}

/// The position has tactical potential: the side to move is in check, or
/// an enemy piece is undefended, the enemy king exposed, or an enemy piece
/// hanging.
pub open spec fn tactical_potential_spec(b: Board) -> bool {
    in_check_spec(b, b.to_move) || undefended_spec(b) || exposed_spec(b) || hanging_spec(b)
}

/// Quick detection of tactical patterns.
pub struct TacticalAnalyzer;

impl TacticalAnalyzer {
    /// Whether the position has tactical potential.
    pub fn has_tactical_potential(board: &Board) -> (r: bool)
        requires
            board.wf(),
            check_cache_ok(*board),
        ensures
            r == tactical_potential_spec(*board),
    {
        if board.is_king_in_check(board.to_move) {
            return true;
        }
        if Self::has_undefended_pieces(board) {
            return true;
        }
        if Self::is_king_exposed(board) {
            return true;
        }
        if Self::has_hanging_pieces(board) {
            return true;
        }
        false
    }

    /// Whether an enemy piece, neither pawn nor king, is undefended.
    fn has_undefended_pieces(board: &Board) -> (r: bool)
        requires
            board.wf(),
        ensures
            r == undefended_spec(*board),
    {
        let them = board.to_move.opposite();
        let enemy_pieces = if board.to_move == Color::White {
            board.black_pieces
        } else {
            board.white_pieces
        };
        let valuable_pieces = enemy_pieces & !(board.pawns | board.kings);
        let mut square: u8 = 0;
        while square < 64
            invariant
                board.wf(),
                square <= 64,
                them == board.to_move.flip(),
                valuable_pieces == board.color_bb(them) & !(board.pawns | board.kings),
                forall|s: int| 0 <= s < square && sq_in(valuable_pieces, s) ==> attacked_by(*board, s, them),
            decreases 64 - square,
        {
            if valuable_pieces & (1u64 << square) != 0 {
                proof {
                    assert(sq_in(valuable_pieces, square as int));
                }
                if !Self::is_square_defended(board, square, them) {
                    return true;
                }
            }
            square = square + 1;
        }
        false
    }

    /// The square is attacked by a piece of `color`.
    fn is_square_defended(board: &Board, square: u8, color: Color) -> (r: bool)
        requires
            board.wf(),
            square < 64,
        ensures
            r == attacked_by(*board, square as int, color),
    {
        board.is_square_attacked_by(square, color)
    }

    /// The king steps from `king_square` to squares without a piece of
    /// `king_color` and not attacked by the other side.
    fn count_king_escape_squares(board: &Board, king_square: u8, king_color: Color) -> (r: u32)
        requires
            board.wf(),
            king_square < 64,
        ensures
            r == safe_escapes(*board, king_square as int, king_color, 64),
    {
        let king_attacks = get_king_attacks(king_square);
        let own_pieces = if king_color == Color::White {
            board.white_pieces
        } else {
            board.black_pieces
        };
        let possible_squares = king_attacks & !own_pieces;
        let mut safe_count: u32 = 0;
        let mut square: u8 = 0;
        while square < 64
            invariant
                board.wf(),
                square <= 64,
                king_square < 64,
                forall|t: int| #[trigger] sq_in(king_attacks, t) == king_step(king_square as int, t),
                own_pieces == board.color_bb(king_color),
                possible_squares == king_attacks & !own_pieces,
                safe_count == safe_escapes(*board, king_square as int, king_color, square as int),
                safe_count <= square,
            decreases 64 - square,
        {
            proof {
                assert(sq_in(possible_squares, square as int) == (sq_in(king_attacks, square as int) && sq_in(
                    !own_pieces,
                    square as int,
                )));
                assert(sq_in(!own_pieces, square as int) == !sq_in(own_pieces, square as int));
            }
            if possible_squares & (1u64 << square) != 0 {
                proof {
                    assert(sq_in(possible_squares, square as int));
                }
                if !board.is_square_attacked_by(square, king_color.opposite()) {
                    safe_count = safe_count + 1;
                }
            } else {
                proof {
                    assert(!sq_in(possible_squares, square as int));
                }
            }
            square = square + 1;
        }
        safe_count
    }

    /// Whether the enemy king is exposed.
    fn is_king_exposed(board: &Board) -> (r: bool)
        requires
            board.wf(),
        ensures
            r == exposed_spec(*board),
    {
        let enemy_color = board.to_move.opposite();
        let enemy_king = if enemy_color == Color::White {
            board.kings & board.white_pieces
        } else {
            board.kings & board.black_pieces
        };
        if enemy_king == 0 {
            return false;
        }
        proof {
            axiom_u64_trailing_zeros(enemy_king);
        }
        let king_square = enemy_king.trailing_zeros() as u8;
        let king_file = king_square % 8;
        let king_rank = king_square / 8;
        if king_file >= 2 && king_file <= 5 && king_rank >= 2 && king_rank <= 5 {
            return true;
        }
        let escape_squares = Self::count_king_escape_squares(board, king_square, enemy_color);
        escape_squares <= 2
    }

    /// Whether a pawn of `attacking_color` attacks `square`, in the sense of
    /// `pawn_attacked`.
    fn is_attacked_by_pawns(board: &Board, square: u8, attacking_color: Color) -> (r: bool)
        requires
            square < 64,
        ensures
            r == pawn_attacked(*board, square as int, attacking_color),
    {
        let pawn_attackers = get_pawn_attacks(square, attacking_color.opposite());
        let attacking_pawns = if attacking_color == Color::White {
            board.white_pieces & board.pawns
        } else {
            board.black_pieces & board.pawns
        };
        proof {
            assert(attacking_pawns == board.pawns & board.color_bb(attacking_color)) by {
                crate::bits::lemma_bits_ext(attacking_pawns, board.pawns & board.color_bb(attacking_color));
            }
            lemma_nonzero_square(pawn_attackers & attacking_pawns);
            assert forall|t: int| #[trigger] sq_in(pawn_attackers & attacking_pawns, t) == (sq_in(
                board.pawns & board.color_bb(attacking_color),
                t,
            ) && pawn_attack_step(attacking_color.flip(), square as int, t)) by {
                assert(sq_in(pawn_attackers & attacking_pawns, t) == (sq_in(pawn_attackers, t) && sq_in(attacking_pawns, t)));
            }
            let x = pawn_attackers & attacking_pawns;
            if x != 0 {
                let a = choose|a: int| sq_in(x, a);
                assert(sq_in(board.pawns & board.color_bb(attacking_color), a));
            } else {
                assert forall|t: int| !(#[trigger] sq_in(board.pawns & board.color_bb(attacking_color), t)
                    && pawn_attack_step(attacking_color.flip(), square as int, t)) by {
                    if sq_in(board.pawns & board.color_bb(attacking_color), t) && pawn_attack_step(
                        attacking_color.flip(),
                        square as int,
                        t,
                    ) {
                        assert(sq_in(x, t));
                    }
                }
            }
        }
        (pawn_attackers & attacking_pawns) != 0
    }

    /// Whether a knight or bishop of `attacking_color` attacks `square`.
    fn is_attacked_by_minor_pieces(board: &Board, square: u8, attacking_color: Color) -> (r: bool)
        requires
            square < 64,
        ensures
            r == minor_attacked(*board, square as int, attacking_color),
    {
        let attacking_pieces = if attacking_color == Color::White {
            board.white_pieces
        } else {
            board.black_pieces
        };
        let knight_attacks = get_knight_attacks(square);
        proof {
            lemma_nonzero_square(knight_attacks & board.knights & attacking_pieces);
            assert forall|t: int| #[trigger] sq_in(knight_attacks & board.knights & attacking_pieces, t) == (sq_in(
                board.knights & board.color_bb(attacking_color),
                t,
            ) && knight_step(square as int, t)) by {
                assert(sq_in(knight_attacks & board.knights & attacking_pieces, t) == (sq_in(knight_attacks & board.knights, t)
                    && sq_in(attacking_pieces, t)));
                assert(sq_in(knight_attacks & board.knights, t) == (sq_in(knight_attacks, t) && sq_in(board.knights, t)));
                assert(sq_in(board.knights & board.color_bb(attacking_color), t) == (sq_in(board.knights, t) && sq_in(
                    board.color_bb(attacking_color),
                    t,
                )));
            }
        }
        if (knight_attacks & board.knights & attacking_pieces) != 0 {
            proof {
                let a = choose|a: int| sq_in(knight_attacks & board.knights & attacking_pieces, a);
                assert(sq_in(board.knights & board.color_bb(attacking_color), a));
            }
            return true;
        }
        proof {
            assert forall|t: int| !(#[trigger] sq_in(board.knights & board.color_bb(attacking_color), t) && knight_step(
                square as int,
                t,
            )) by {
                if sq_in(board.knights & board.color_bb(attacking_color), t) && knight_step(square as int, t) {
                    assert(sq_in(knight_attacks & board.knights & attacking_pieces, t));
                }
            }
        }
        let all_pieces = board.white_pieces | board.black_pieces;
        let bishop_attacks = get_bishop_attacks_magic(square, all_pieces);
        proof {
            lemma_nonzero_square(bishop_attacks & board.bishops & attacking_pieces);
            assert forall|t: int| #[trigger] sq_in(bishop_attacks & board.bishops & attacking_pieces, t) == (sq_in(
                board.bishops & board.color_bb(attacking_color),
                t,
            ) && bishop_attack(square as int, occupancy(*board), t)) by {
                assert(sq_in(bishop_attacks & board.bishops & attacking_pieces, t) == (sq_in(bishop_attacks & board.bishops, t)
                    && sq_in(attacking_pieces, t)));
                assert(sq_in(bishop_attacks & board.bishops, t) == (sq_in(bishop_attacks, t) && sq_in(board.bishops, t)));
                assert(sq_in(board.bishops & board.color_bb(attacking_color), t) == (sq_in(board.bishops, t) && sq_in(
                    board.color_bb(attacking_color),
                    t,
                )));
            }
        }
        if (bishop_attacks & board.bishops & attacking_pieces) != 0 {
            proof {
                let a = choose|a: int| sq_in(bishop_attacks & board.bishops & attacking_pieces, a);
                assert(sq_in(board.bishops & board.color_bb(attacking_color), a));
            }
            return true;
        }
        proof {
            assert forall|t: int| !(#[trigger] sq_in(board.bishops & board.color_bb(attacking_color), t) && bishop_attack(
                square as int,
                occupancy(*board),
                t,
            )) by {
                if sq_in(board.bishops & board.color_bb(attacking_color), t) && bishop_attack(
                    square as int,
                    occupancy(*board),
                    t,
                ) {
                    assert(sq_in(bishop_attacks & board.bishops & attacking_pieces, t));
                }
            }
        }
        false
    }

    /// Whether an enemy piece is hanging.
    fn has_hanging_pieces(board: &Board) -> (r: bool)
        requires
            board.wf(),
        ensures
            r == hanging_spec(*board),
    {
        let us = board.to_move;
        let enemy_pieces = if board.to_move == Color::White {
            board.black_pieces
        } else {
            board.white_pieces
        };
        let minor_pieces = enemy_pieces & (board.knights | board.bishops);
        let mut square: u8 = 0;
        while square < 64
            invariant
                square <= 64,
                us == board.to_move,
                minor_pieces == board.color_bb(us.flip()) & (board.knights | board.bishops),
                forall|s: int| 0 <= s < square && sq_in(minor_pieces, s) ==> !pawn_attacked(*board, s, us),
            decreases 64 - square,
        {
            if minor_pieces & (1u64 << square) != 0 {
                proof {
                    assert(sq_in(minor_pieces, square as int));
                }
                if Self::is_attacked_by_pawns(board, square, us) {
                    return true;
                }
            }
            square = square + 1;
        }
        let rooks = enemy_pieces & board.rooks;
        let mut square: u8 = 0;
        while square < 64
            invariant
                square <= 64,
                us == board.to_move,
                minor_pieces == board.color_bb(us.flip()) & (board.knights | board.bishops),
                forall|s: int| 0 <= s < 64 && sq_in(minor_pieces, s) ==> !pawn_attacked(*board, s, us),
                rooks == board.color_bb(us.flip()) & board.rooks,
                forall|s: int| 0 <= s < square && sq_in(rooks, s) ==> !minor_attacked(*board, s, us),
            decreases 64 - square,
        {
            if rooks & (1u64 << square) != 0 {
                proof {
                    assert(sq_in(rooks, square as int));
                }
                if Self::is_attacked_by_minor_pieces(board, square, us) {
                    return true;
                }
            }
            square = square + 1;
        }
        false
    }
}

} // verus!
