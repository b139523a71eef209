use vstd::prelude::*;
use crate::bits::{bit, sq_in, pop, group_bits};
use crate::board::Board;
use crate::types::{Color, PieceKind, Piece};
use crate::intrinsics::popcount;
use crate::game::check::check_cache_ok;

verus! {

broadcast use group_bits;

/// The kind of the piece that starts on file `f` of the back rank.
pub open spec fn back_rank_kind(f: int) -> PieceKind {
    if f == 0 || f == 7 {
        PieceKind::Rook
    } else if f == 1 || f == 6 {
        PieceKind::Knight
    } else if f == 2 || f == 5 {
        PieceKind::Bishop
    } else if f == 3 {
        PieceKind::Queen
    } else {
        PieceKind::King
    }
}

/// The piece on square `t` in the initial position.
pub open spec fn start_piece(t: int) -> Option<Piece> {
    let r = t / 8;
    let f = t % 8;
    if r == 0 {
        Some(Piece { kind: back_rank_kind(f), color: Color::White })
    } else if r == 1 {
        Some(Piece { kind: PieceKind::Pawn, color: Color::White })
    } else if r == 6 {
        Some(Piece { kind: PieceKind::Pawn, color: Color::Black })
    } else if r == 7 {
        Some(Piece { kind: back_rank_kind(f), color: Color::Black })
    } else {
        None
    }
}

proof fn lemma_start_bits(t: u64)
    requires
        t < 64,
    ensures
        bit(0x00FF00000000FF00u64, t) == (t / 8 == 1 || t / 8 == 6),
        bit(0x4200000000000042u64, t) == ((t / 8 == 0 || t / 8 == 7) && (t % 8 == 1 || t % 8 == 6)),
        bit(0x2400000000000024u64, t) == ((t / 8 == 0 || t / 8 == 7) && (t % 8 == 2 || t % 8 == 5)),
        bit(0x8100000000000081u64, t) == ((t / 8 == 0 || t / 8 == 7) && (t % 8 == 0 || t % 8 == 7)),
        bit(0x0800000000000008u64, t) == ((t / 8 == 0 || t / 8 == 7) && t % 8 == 3),
        bit(0x1000000000000010u64, t) == ((t / 8 == 0 || t / 8 == 7) && t % 8 == 4),
        bit(0x000000000000FFFFu64, t) == (t / 8 <= 1),
        bit(0xFFFF000000000000u64, t) == (t / 8 >= 6),
{
    assert(t < 64 ==> (((((0x00FF00000000FF00u64 >> t) & 1u64) == 1u64) == (t / 8 == 1 || t / 8 == 6)) && (((
        (0x4200000000000042u64 >> t) & 1u64) == 1u64) == ((t / 8 == 0 || t / 8 == 7) && (t % 8 == 1 || t % 8 == 6)))
        && ((((0x2400000000000024u64 >> t) & 1u64) == 1u64) == ((t / 8 == 0 || t / 8 == 7) && (t % 8 == 2 || t % 8
        == 5))) && ((((0x8100000000000081u64 >> t) & 1u64) == 1u64) == ((t / 8 == 0 || t / 8 == 7) && (t % 8 == 0
        || t % 8 == 7))))) by (bit_vector);
    assert(t < 64 ==> (((((0x0800000000000008u64 >> t) & 1u64) == 1u64) == ((t / 8 == 0 || t / 8 == 7) && t % 8
        == 3)) && ((((0x1000000000000010u64 >> t) & 1u64) == 1u64) == ((t / 8 == 0 || t / 8 == 7) && t % 8 == 4))
        && ((((0x000000000000FFFFu64 >> t) & 1u64) == 1u64) == (t / 8 <= 1)) && ((((0xFFFF000000000000u64 >> t)
        & 1u64) == 1u64) == (t / 8 >= 6)))) by (bit_vector);
}

/// `b` is the initial position: the pieces on their first squares, White
/// to move, all castling rights, no en passant target, clock 0, hash and
/// check flags right.
pub open spec fn start_board(b: Board) -> bool {
    &&& b.wf()
    &&& forall|t: int| 0 <= t < 64 ==> #[trigger] b.piece_at(t) == start_piece(t)
    &&& b.to_move == Color::White
    &&& b.castling_rights == 0b1111
    &&& b.en_passant_target is None
    &&& b.halfmove_clock == 0
    &&& b.hash_ok()
    &&& check_cache_ok(b)
}

impl Board {
    /// The initial position: white to move, all castling rights, no en
    /// passant target, clock 0.
    pub fn new() -> (b: Board)
        ensures
            b.wf(),
            forall|t: int| 0 <= t < 64 ==> #[trigger] b.piece_at(t) == start_piece(t),
            b.to_move == Color::White,
            b.castling_rights == 0b1111,
            b.en_passant_target is None,
            b.halfmove_clock == 0,
            b.hash_ok(),
            check_cache_ok(b),
            start_board(b),
    {
        let mut b = Board {
            pawns: 0x00FF00000000FF00,
            knights: 0x4200000000000042,
            bishops: 0x2400000000000024,
            rooks: 0x8100000000000081,
            queens: 0x0800000000000008,
            kings: 0x1000000000000010,
            white_pieces: 0x000000000000FFFF,
            black_pieces: 0xFFFF000000000000,
            to_move: Color::White,
            castling_rights: 0b1111,
            en_passant_target: None,
            halfmove_clock: 0,
            zobrist_hash: 0,
            white_king_in_check: false,
            black_king_in_check: false,
        };
        proof {
            assert forall|t: int| 0 <= t < 64 implies #[trigger] b.square_wf(t) && b.piece_at(t) == start_piece(t) by {
                lemma_start_bits(t as u64);
            }
        }
        let ghost b0 = b;
        b.zobrist_hash = b.compute_hash();
        proof {
            assert forall|t: int| 0 <= t < 64 implies #[trigger] b.square_wf(t) by {
                assert(b0.square_wf(t));
            }
            Board::lemma_pieces_hash_same(b0, b, 64);
        }
        let ghost b1 = b;
        b.update_check_cache();
        proof {
            Board::lemma_pieces_hash_same(b1, b, 64);
            assert forall|t: int| 0 <= t < 64 implies #[trigger] b.piece_at(t) == start_piece(t) by {
                lemma_start_bits(t as u64);
                assert(b0.piece_at(t) == start_piece(t));
            }
        }
        b
    }

    /// The number of pieces of `color` and `kind` on the board.
    pub fn piece_count(&self, color: Color, kind: PieceKind) -> (r: u32)
        ensures
            r == pop(self.kind_bb(kind) & self.color_bb(color)),
    {
        let kind_bb = match kind {
            PieceKind::Pawn => self.pawns,
            PieceKind::Knight => self.knights,
            PieceKind::Bishop => self.bishops,
            PieceKind::Rook => self.rooks,
            PieceKind::Queen => self.queens,
            PieceKind::King => self.kings,
        };
        let color_bb = match color {
            Color::White => self.white_pieces,
            Color::Black => self.black_pieces,
        };
        popcount(kind_bb & color_bb)
    }
}

} // verus!
