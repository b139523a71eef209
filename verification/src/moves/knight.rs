use vstd::prelude::*;
use crate::bits::{sq_in};
use crate::types::{Bitboard, Color, Move, PieceKind};
use crate::board::Board;
use crate::moves::attacks::{knight_step, leaper_attacks, Leaper, leaper_step};
use crate::moves::gen::{kind_move, push_piece_moves, move_before};

verus! {

/// The squares a knight on `square` attacks.
pub fn get_knight_attacks_lookup(square: u8) -> (r: Bitboard)
    requires
        square < 64,
    ensures
        forall|t: int| #[trigger] sq_in(r, t) == knight_step(square as int, t),
{
    get_knight_attacks(square)
}

/// The squares a knight on `square` attacks.
pub fn get_knight_attacks(square: u8) -> (r: Bitboard)
    requires
        square < 64,
    ensures
        forall|t: int| #[trigger] sq_in(r, t) == knight_step(square as int, t),
{
    let r = leaper_attacks(Leaper::Knight, Color::White, square);
    assert forall|t: int| #[trigger] sq_in(r, t) == knight_step(square as int, t) by {
        assert(leaper_step(Leaper::Knight, Color::White, square as int, t) == knight_step(square as int, t));
    }
    r
}

/// Appends the knight moves of the side to move.
pub fn generate_knight_moves_into(board: &Board, moves: &mut Vec<Move>)
    requires
        old(moves)@.no_duplicates(),
        forall|i: int|
            0 <= i < old(moves).len() ==> !sq_in(
                board.knights & board.color_bb(board.to_move),
                old(moves)@[i].from as int,
            ),
    ensures
        final(moves)@.no_duplicates(),
        final(moves).len() >= old(moves).len(),
        forall|i: int| 0 <= i < old(moves).len() ==> final(moves)@[i] == old(moves)@[i],
        forall|i: int|
            old(moves).len() <= i < final(moves).len() ==> sq_in(
                board.knights & board.color_bb(board.to_move),
                final(moves)@[i].from as int,
            ),
        forall|m: Move|
            #![trigger final(moves)@.contains(m)]
            final(moves)@.contains(m) <==> (old(moves)@.contains(m) || kind_move(*board, PieceKind::Knight, m)),
        forall|i: int, j: int|
            old(moves).len() <= i < j < final(moves).len() ==> move_before(final(moves)@[i], final(moves)@[j]),
{
    let our_pieces = if board.to_move == Color::White {
        board.white_pieces
    } else {
        board.black_pieces
    };
    push_piece_moves(
        moves,
        board.knights & our_pieces,
        PieceKind::Knight,
        board.to_move,
        board.white_pieces | board.black_pieces,
        our_pieces,
    );
}

/// The knight moves of the side to move: each knight to each square it
/// attacks that holds no piece of its own side, by origin then target square.
pub fn generate_knight_moves(board: &Board) -> (moves: Vec<Move>)
    ensures
        moves@.no_duplicates(),
        forall|m: Move| #![trigger moves@.contains(m)] moves@.contains(m) <==> kind_move(*board, PieceKind::Knight, m),
        forall|i: int, j: int| 0 <= i < j < moves.len() ==> move_before(moves@[i], moves@[j]),
{
    let mut moves: Vec<Move> = Vec::with_capacity(16);
    generate_knight_moves_into(board, &mut moves);
    moves
}

} // verus!
