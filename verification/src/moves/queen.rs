use vstd::prelude::*;
use crate::bits::{sq_in};
use crate::types::{Bitboard, Color, Move, PieceKind};
use crate::board::Board;
use crate::moves::gen::{kind_move, push_piece_moves, move_before};
use crate::moves::attacks::{queen_attack};
use crate::moves::magic_bitboards::get_queen_attacks_magic;

verus! {

/// The squares a queen on `square` attacks given the occupied squares.
pub fn get_queen_attacks(square: u8, occupancy: Bitboard) -> (r: Bitboard)
    requires
        square < 64,
    ensures
        forall|t: int| #[trigger] sq_in(r, t) == queen_attack(square as int, occupancy, t),
{
    get_queen_attacks_magic(square, occupancy)
}

/// Appends the queen moves of the side to move, by origin then target
/// square.
pub fn generate_queen_moves_into(board: &Board, moves: &mut Vec<Move>)
    ensures
        final(moves).len() >= old(moves).len(),
        forall|i: int| 0 <= i < old(moves).len() ==> final(moves)@[i] == old(moves)@[i],
        forall|i: int|
            old(moves).len() <= i < final(moves).len() ==> sq_in(
                board.queens & board.color_bb(board.to_move),
                final(moves)@[i].from as int,
            ) && kind_move(*board, PieceKind::Queen, final(moves)@[i]),
        forall|m: Move|
            #[trigger] kind_move(*board, PieceKind::Queen, m) ==> exists|i: int|
                #![trigger final(moves)@[i]]
                old(moves).len() <= i < final(moves).len() && final(moves)@[i] == m,
        forall|i: int, j: int|
            old(moves).len() <= i < j < final(moves).len() ==> move_before(final(moves)@[i], final(moves)@[j]),
        final(moves)@.subrange(old(moves).len() as int, final(moves).len() as int).no_duplicates(),
        forall|m: Move|
            #![trigger final(moves)@.contains(m)]
            final(moves)@.contains(m) <==> (old(moves)@.contains(m) || kind_move(*board, PieceKind::Queen, m)),
        (old(moves)@.no_duplicates() && forall|i: int|
            0 <= i < old(moves).len() ==> !sq_in(
                board.queens & board.color_bb(board.to_move),
                old(moves)@[i].from as int,
            )) ==> final(moves)@.no_duplicates(),
{
    let our_pieces = if board.to_move == Color::White {
        board.white_pieces
    } else {
        board.black_pieces
    };
    let all_pieces = board.white_pieces | board.black_pieces;
    let mut fresh: Vec<Move> = Vec::new();
    push_piece_moves(&mut fresh, board.queens & our_pieces, PieceKind::Queen, board.to_move, all_pieces, our_pieces);
    let ghost o = moves@;
    let ghost f = fresh@;
    proof {
        assert forall|m: Move| #[trigger] f.contains(m) <==> kind_move(*board, PieceKind::Queen, m) by {
            assert(Seq::<Move>::empty().contains(m) == false);
        }
    }
    moves.append(&mut fresh);
    proof {
        assert(moves@ == o + f);
        assert(moves@.subrange(o.len() as int, moves.len() as int) =~= f);
        assert forall|i: int| o.len() <= i < moves.len() implies sq_in(
            board.queens & board.color_bb(board.to_move),
            moves@[i].from as int,
        ) && kind_move(*board, PieceKind::Queen, moves@[i]) by {
            assert(moves@[i] == f[i - o.len()]);
            assert(f.contains(f[i - o.len()]));
        }
        assert forall|m: Move| #[trigger] kind_move(*board, PieceKind::Queen, m) implies exists|i: int|
            #![trigger moves@[i]]
            o.len() <= i < moves.len() && moves@[i] == m by {
            assert(f.contains(m));
            let k = choose|k: int| 0 <= k < f.len() && f[k] == m;
            assert(moves@[o.len() + k] == m);
        }
        assert forall|m: Move| #![trigger moves@.contains(m)] moves@.contains(m) <==> (o.contains(m) || kind_move(
            *board,
            PieceKind::Queen,
            m,
        )) by {
            if moves@.contains(m) {
                let k = choose|k: int| 0 <= k < moves.len() && moves@[k] == m;
                if k < o.len() {
                    assert(o[k] == m);
                } else {
                    assert(f[k - o.len()] == m);
                    assert(f.contains(m));
                }
            }
            if o.contains(m) {
                let k = choose|k: int| 0 <= k < o.len() && o[k] == m;
                assert(moves@[k] == m);
            }
            if kind_move(*board, PieceKind::Queen, m) {
                assert(f.contains(m));
                let k = choose|k: int| 0 <= k < f.len() && f[k] == m;
                assert(moves@[o.len() + k] == m);
            }
        }
        if o.no_duplicates() && forall|i: int| 0 <= i < o.len() ==> !sq_in(
            board.queens & board.color_bb(board.to_move),
            o[i].from as int,
        ) {
            assert forall|i: int, j: int| 0 <= i < j < moves.len() implies moves@[i] != moves@[j] by {
                if j < o.len() {
                    assert(o[i] != o[j]);
                } else if i >= o.len() {
                    assert(f[i - o.len()] != f[j - o.len()]);
                } else {
                    assert(!sq_in(board.queens & board.color_bb(board.to_move), o[i].from as int));
                    assert(sq_in(board.queens & board.color_bb(board.to_move), f[j - o.len()].from as int));
                }
            }
        }
    }
}

} // verus!
