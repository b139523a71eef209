use vstd::prelude::*;
use crate::bits::{sq_in};
use crate::types::{Bitboard, Color, Move, PieceKind};
use crate::board::Board;
use crate::moves::gen::{kind_move, push_piece_moves, move_before};
use crate::moves::attacks::{rook_attack, bishop_attack};
use crate::moves::magic_bitboards::{get_bishop_attacks_magic, get_rook_attacks_magic};

verus! {

/// The squares a bishop on `square` attacks given the occupied squares.
pub fn get_bishop_attacks(square: u8, occupancy: Bitboard) -> (r: Bitboard)
    requires
        square < 64,
    ensures
        forall|t: int| #[trigger] sq_in(r, t) == bishop_attack(square as int, occupancy, t),
{
    get_bishop_attacks_magic(square, occupancy)
}

/// The squares a rook on `square` attacks given the occupied squares.
pub fn get_rook_attacks(square: u8, occupancy: Bitboard) -> (r: Bitboard)
    requires
        square < 64,
    ensures
        forall|t: int| #[trigger] sq_in(r, t) == rook_attack(square as int, occupancy, t),
{
    get_rook_attacks_magic(square, occupancy)
}

/// The moves of the bishops (for `Bishop`) or rooks (for `Rook`) of the
/// side to move, by origin then target square; no moves for another kind.
pub fn generate_sliding_moves(board: &Board, piece_kind: PieceKind) -> (moves: Vec<Move>)
    ensures
        moves@.no_duplicates(),
        forall|m: Move|
            #![trigger moves@.contains(m)]
            moves@.contains(m) <==> ((piece_kind == PieceKind::Bishop || piece_kind == PieceKind::Rook) && kind_move(
                *board,
                piece_kind,
                m,
            )),
        forall|i: int, j: int| 0 <= i < j < moves.len() ==> move_before(moves@[i], moves@[j]),
{
    let mut moves: Vec<Move> = Vec::with_capacity(32);
    let our_pieces = if board.to_move == Color::White {
        board.white_pieces
    } else {
        board.black_pieces
    };
    let all_pieces = board.white_pieces | board.black_pieces;
    match piece_kind {
        PieceKind::Bishop => {
            push_piece_moves(&mut moves, board.bishops & our_pieces, piece_kind, board.to_move, all_pieces, our_pieces);
        },
        PieceKind::Rook => {
            push_piece_moves(&mut moves, board.rooks & our_pieces, piece_kind, board.to_move, all_pieces, our_pieces);
        },
        _ => {},
    }
    moves
}

} // verus!
