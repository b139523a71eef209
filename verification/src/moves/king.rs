use vstd::prelude::*;
use vstd::std_specs::bits::u64_trailing_zeros;
use crate::bits::{bit, sq_in, group_bits};
use crate::types::{Bitboard, Color, Move};
use crate::board::Board;
use crate::intrinsics::lemma_clear_lowest;
use crate::game::check::{attacked_by, occupancy};
use crate::moves::attacks::{king_step, leaper_attacks, Leaper, leaper_step};
use crate::moves::gen::{quiet, push_targets, push_new};

verus! {

broadcast use group_bits;

/// The squares a king on `square` attacks.
pub fn get_king_attacks(square: u8) -> (r: Bitboard)
    requires
        square < 64,
    ensures
        forall|t: int| #[trigger] sq_in(r, t) == king_step(square as int, t),
{
    let r = leaper_attacks(Leaper::King, Color::White, square);
    assert forall|t: int| #[trigger] sq_in(r, t) == king_step(square as int, t) by {
        assert(leaper_step(Leaper::King, Color::White, square as int, t) == king_step(square as int, t));
    }
    r
}

/// The castling move of a king from `from` to `to`.
pub open spec fn castle(from: int, to: int) -> Move {
    Move { from: from as u8, to: to as u8, promotion: None, is_castling: true, is_en_passant: false }
}

/// `m` castles for the side to move: the right is held, the squares between
/// king and rook are empty, the king is not in check and does not pass over
/// or land on an attacked square.
pub open spec fn castle_move(b: Board, m: Move) -> bool {
    let occ = occupancy(b);
    let r = b.castling_rights;
    match b.to_move {
        Color::White => {
            ||| (m == castle(4, 6) && r & 1 != 0 && !sq_in(occ, 5) && !sq_in(occ, 6) && !b.white_king_in_check
                && !attacked_by(b, 5, Color::Black) && !attacked_by(b, 6, Color::Black))
            ||| (m == castle(4, 2) && r & 2 != 0 && !sq_in(occ, 1) && !sq_in(occ, 2) && !sq_in(occ, 3)
                && !b.white_king_in_check && !attacked_by(b, 3, Color::Black) && !attacked_by(b, 2, Color::Black))
        },
        Color::Black => {
            ||| (m == castle(60, 62) && r & 4 != 0 && !sq_in(occ, 61) && !sq_in(occ, 62) && !b.black_king_in_check
                && !attacked_by(b, 61, Color::White) && !attacked_by(b, 62, Color::White))
            ||| (m == castle(60, 58) && r & 8 != 0 && !sq_in(occ, 57) && !sq_in(occ, 58) && !sq_in(occ, 59)
                && !b.black_king_in_check && !attacked_by(b, 59, Color::White) && !attacked_by(b, 58, Color::White))
        },
    }
}

/// `m` is a king move of the side to move: a step of its (lowest) king to a
/// square without a piece of its own, or castling; none without a king.
pub open spec fn king_move(b: Board, m: Move) -> bool {
    let own = b.color_bb(b.to_move);
    let kb = b.kings & own;
    let k = u64_trailing_zeros(kb) as int;
    &&& kb != 0
    &&& ((m == quiet(k, m.to as int) && m.to < 64 && king_step(k, m.to as int) && !sq_in(own, m.to as int))
        || castle_move(b, m))
}

/// The masks of the squares between king and rook.
proof fn lemma_castle_masks(x: u64)
    ensures
        (x & 0x60u64 == 0) == (!bit(x, 5) && !bit(x, 6)),
        (x & 0x0eu64 == 0) == (!bit(x, 1) && !bit(x, 2) && !bit(x, 3)),
        (x & 0x6000000000000000u64 == 0) == (!bit(x, 61) && !bit(x, 62)),
        (x & 0x0e00000000000000u64 == 0) == (!bit(x, 57) && !bit(x, 58) && !bit(x, 59)),
{
    assert(((x & 0x60u64 == 0) == (!((x >> 5u64) & 1u64 == 1u64) && !((x >> 6u64) & 1u64 == 1u64))) && ((x
        & 0x0eu64 == 0) == (!((x >> 1u64) & 1u64 == 1u64) && !((x >> 2u64) & 1u64 == 1u64) && !((x >> 3u64) & 1u64
        == 1u64)))) by (bit_vector);
    assert(((x & 0x6000000000000000u64 == 0) == (!((x >> 61u64) & 1u64 == 1u64) && !((x >> 62u64) & 1u64
        == 1u64))) && ((x & 0x0e00000000000000u64 == 0) == (!((x >> 57u64) & 1u64 == 1u64) && !((x >> 58u64) & 1u64
        == 1u64) && !((x >> 59u64) & 1u64 == 1u64)))) by (bit_vector);
}

/// Appends the king moves of the side to move: steps of its king, then the
/// castling moves.
pub fn generate_king_moves_into(board: &Board, moves: &mut Vec<Move>)
    requires
        board.wf(),
        old(moves)@.no_duplicates(),
        forall|i: int|
            0 <= i < old(moves).len() ==> !sq_in(board.kings & board.color_bb(board.to_move), old(moves)@[i].from as int)
                && !old(moves)@[i].is_castling,
    ensures
        final(moves)@.no_duplicates(),
        forall|m: Move|
            #![trigger final(moves)@.contains(m)]
            final(moves)@.contains(m) <==> (old(moves)@.contains(m) || king_move(*board, m)),
{
    let ghost start = moves@;
    let our_pieces = if board.to_move == Color::White {
        board.white_pieces
    } else {
        board.black_pieces
    };
    let our_king = board.kings & our_pieces;
    if our_king == 0 {
        return;
    }
    proof {
        lemma_clear_lowest(our_king);
        lemma_castle_masks(board.white_pieces | board.black_pieces);
        assert forall|i: int| 0 <= i < moves.len() implies moves@[i].from != u64_trailing_zeros(our_king) by {
            assert(!sq_in(our_king, moves@[i].from as int));
        }
    }
    let from_sq = our_king.trailing_zeros() as u8;
    let king_attacks = get_king_attacks(from_sq);
    let valid_moves = king_attacks & !our_pieces;
    push_targets(moves, from_sq, valid_moves);
    let ghost after_steps = moves@;
    proof {
        assert forall|m: Move| #[trigger] moves@.contains(m) && m.is_castling implies false by {
            if start.contains(m) {
                let i = choose|i: int| 0 <= i < start.len() && start[i] == m;
            }
        }
    }
    if board.to_move == Color::White {
        if (board.castling_rights & 0b0001) != 0 {
            if (board.white_pieces | board.black_pieces) & 0b01100000 == 0 {
                if !board.is_king_in_check(Color::White) && !board.is_square_attacked_by(5, Color::Black)
                    && !board.is_square_attacked_by(6, Color::Black) {
                    push_new(moves, Move { from: 4, to: 6, promotion: None, is_castling: true, is_en_passant: false });
                }
            }
        }
        if (board.castling_rights & 0b0010) != 0 {
            if (board.white_pieces | board.black_pieces) & 0b00001110 == 0 {
                if !board.is_king_in_check(Color::White) && !board.is_square_attacked_by(3, Color::Black)
                    && !board.is_square_attacked_by(2, Color::Black) {
                    push_new(moves, Move { from: 4, to: 2, promotion: None, is_castling: true, is_en_passant: false });
                }
            }
        }
    } else {
        if (board.castling_rights & 0b0100) != 0 {
            if (board.white_pieces | board.black_pieces) & 0x6000000000000000 == 0 {
                if !board.is_king_in_check(Color::Black) && !board.is_square_attacked_by(61, Color::White)
                    && !board.is_square_attacked_by(62, Color::White) {
                    push_new(moves, Move { from: 60, to: 62, promotion: None, is_castling: true, is_en_passant: false });
                }
            }
        }
        if (board.castling_rights & 0b1000) != 0 {
            if (board.white_pieces | board.black_pieces) & 0x0e00000000000000 == 0 {
                if !board.is_king_in_check(Color::Black) && !board.is_square_attacked_by(59, Color::White)
                    && !board.is_square_attacked_by(58, Color::White) {
                    push_new(moves, Move { from: 60, to: 58, promotion: None, is_castling: true, is_en_passant: false });
                }
            }
        }
    }
    proof {
        assert forall|m: Move| #![trigger moves@.contains(m)] moves@.contains(m) <==> (start.contains(m) || king_move(
            *board,
            m,
        )) by {
            if m.to < 64 {
                assert(sq_in(king_attacks, m.to as int) == king_step(from_sq as int, m.to as int));
                assert(sq_in(valid_moves, m.to as int) == (king_step(from_sq as int, m.to as int) && !sq_in(
                    our_pieces,
                    m.to as int,
                )));
            }
            assert(after_steps.contains(m) == (start.contains(m) || (m == quiet(from_sq as int, m.to as int)
                && sq_in(valid_moves, m.to as int))));
        }
    }
}

/// The king moves of the side to move: steps of its king to squares without
/// a piece of its own, and the castling moves the position allows.
pub fn generate_king_moves(board: &Board) -> (moves: Vec<Move>)
    requires
        board.wf(),
    ensures
        moves@.no_duplicates(),
        forall|m: Move| #![trigger moves@.contains(m)] moves@.contains(m) <==> king_move(*board, m),
{
    let mut moves: Vec<Move> = Vec::with_capacity(8);
    generate_king_moves_into(board, &mut moves);
    moves
}

} // verus!
