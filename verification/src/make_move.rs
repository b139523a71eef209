use vstd::prelude::*;
use crate::board::{Board, lemma_xor};
use crate::types::{Color, PieceKind, Piece, Move, UndoInfo};
use crate::zobrist::{castling_key, en_passant_key, side_key, castling_key_spec, en_passant_key_spec, side_key_spec};
use crate::game::check::{check_cache_ok, lemma_same_bitboards_same_attacks};

verus! {

/// The rook squares (from, to) of a castling move of colour `c` whose king
/// lands on `king_to`.
pub open spec fn castling_rook_from(c: Color, king_to: int) -> int {
    match c {
        Color::White => if king_to == 6 { 7 } else { 0 },
        Color::Black => if king_to == 62 { 63 } else { 56 },
    }
}

pub open spec fn castling_rook_to(c: Color, king_to: int) -> int {
    match c {
        Color::White => if king_to == 6 { 5 } else { 3 },
        Color::Black => if king_to == 62 { 61 } else { 59 },
    }
}

/// The rook squares (from, to) of a castling move of colour `color` whose
/// king lands on `king_to`.
pub fn castling_rook_sqs(color: Color, king_to: u8) -> (r: (u8, u8))
    ensures
        r.0 == castling_rook_from(color, king_to as int),
        r.1 == castling_rook_to(color, king_to as int),
{
    match color {
        Color::White => if king_to == 6 { (7, 5) } else { (0, 3) },
        Color::Black => if king_to == 62 { (63, 61) } else { (56, 59) },
    }
}

/// The king squares of a castling move of colour `c`.
pub open spec fn castling_shape(c: Color, from: int, to: int) -> bool {
    match c {
        Color::White => from == 4 && (to == 6 || to == 2),
        Color::Black => from == 60 && (to == 62 || to == 58),
    }
}

/// The square of the piece that `mv` takes (or would take).
pub open spec fn capture_square(b: Board, mv: Move) -> int {
    if mv.is_en_passant {
        if b.to_move == Color::White {
            mv.to - 8
        } else {
            mv.to + 8
        }
    } else {
        mv.to as int
    }
}

/// The move can be played on the board: a piece of the side to move stands
/// on the origin; only a pawn promotes; what it takes (if anything) belongs
/// to the other side; an en passant move lands on an empty square with the
/// taken square on the board; a castling move has the king's squares and
/// the rook's target square is empty.
pub open spec fn move_shape_ok(b: Board, mv: Move) -> bool {
    &&& mv.from < 64
    &&& mv.to < 64
    &&& mv.from != mv.to
    &&& b.piece_at(mv.from as int) is Some
    &&& b.piece_at(mv.from as int).unwrap().color == b.to_move
    &&& (mv.promotion is Some ==> b.piece_at(mv.from as int).unwrap().kind == PieceKind::Pawn)
    &&& mv.is_en_passant ==> {
        &&& 0 <= capture_square(b, mv) < 64
        &&& capture_square(b, mv) != mv.from
        &&& b.piece_at(mv.to as int) is None
        &&& !mv.is_castling
    }
    &&& (b.piece_at(capture_square(b, mv)) is Some ==> b.piece_at(capture_square(b, mv)).unwrap().color
        != b.to_move)
    &&& mv.is_castling ==> castling_shape(b.to_move, mv.from as int, mv.to as int) && b.piece_at(
        castling_rook_to(b.to_move, mv.to as int),
    ) is None
}

/// The piece that stands on the destination after the move.
pub open spec fn moved_piece(b: Board, mv: Move) -> Piece {
    let p = b.piece_at(mv.from as int).unwrap();
    Piece {
        kind: match mv.promotion {
            Some(k) => k,
            None => p.kind,
        },
        color: p.color,
    }
}

/// The pieces after the moving piece (and the taken one) have moved, before
/// the castling rook.
pub open spec fn after_main_move(b: Board, mv: Move, t: int) -> Option<Piece> {
    if t == mv.to {
        Some(moved_piece(b, mv))
    } else if t == capture_square(b, mv) || t == mv.from {
        None
    } else {
        b.piece_at(t)
    }
}

/// The castling rook moves: the move castles, the rook square holds a piece
/// and the rook's target is empty.
pub open spec fn rook_moves(b: Board, mv: Move) -> bool {
    let rf = castling_rook_from(b.to_move, mv.to as int);
    let rt = castling_rook_to(b.to_move, mv.to as int);
    mv.is_castling && after_main_move(b, mv, rt) is None && after_main_move(b, mv, rf) is Some
}

/// The piece on square `t` after `mv` is played on `b`.
pub open spec fn after_move(b: Board, mv: Move, t: int) -> Option<Piece> {
    let rf = castling_rook_from(b.to_move, mv.to as int);
    let rt = castling_rook_to(b.to_move, mv.to as int);
    if rook_moves(b, mv) && t == rt {
        after_main_move(b, mv, rf)
    } else if rook_moves(b, mv) && t == rf {
        None
    } else {
        after_main_move(b, mv, t)
    }
}

/// The castling rights that a move from or to `sq` keeps.
pub open spec fn rights_mask(sq: int) -> u8 {
    if sq == 4 {
        0b1100u8
    } else if sq == 7 {
        0b1110u8
    } else if sq == 0 {
        0b1101u8
    } else if sq == 60 {
        0b0011u8
    } else if sq == 63 {
        0b1011u8
    } else if sq == 56 {
        0b0111u8
    } else {
        0b1111u8
    }
}

fn rights_mask_exec(sq: u8) -> (r: u8)
    ensures
        r == rights_mask(sq as int),
{
    if sq == 4 {
        0b1100
    } else if sq == 7 {
        0b1110
    } else if sq == 0 {
        0b1101
    } else if sq == 60 {
        0b0011
    } else if sq == 63 {
        0b1011
    } else if sq == 56 {
        0b0111
    } else {
        0b1111
    }
}

/// Castling rights after a move.
pub open spec fn rights_after(b: Board, mv: Move) -> u8 {
    b.castling_rights & rights_mask(mv.from as int) & rights_mask(mv.to as int)
}

/// The en passant target after a move: the square passed over by a pawn's
/// double step.
pub open spec fn en_passant_after(b: Board, mv: Move) -> Option<u8> {
    let p = b.piece_at(mv.from as int).unwrap();
    if p.kind == PieceKind::Pawn && (mv.to == mv.from + 16 || mv.from == mv.to + 16) {
        Some(((mv.from + mv.to) / 2) as u8)
    } else {
        None
    }
}

/// The half-move clock after a move: reset by pawn moves and captures,
/// otherwise one more (it stays at its maximum).
pub open spec fn clock_after(b: Board, mv: Move) -> u16 {
    let p = b.piece_at(mv.from as int).unwrap();
    if p.kind == PieceKind::Pawn || b.piece_at(capture_square(b, mv)) is Some {
        0
    } else if b.halfmove_clock < u16::MAX {
        (b.halfmove_clock + 1) as u16
    } else {
        b.halfmove_clock
    }
}

/// `after` is `before` with `mv` played, and `undo` records what the move
/// changed.
pub open spec fn made(before: Board, mv: Move, after: Board, undo: UndoInfo) -> bool {
    &&& after.wf()
    &&& forall|t: int| 0 <= t < 64 ==> #[trigger] after.piece_at(t) == after_move(before, mv, t)
    &&& after.to_move == before.to_move.flip()
    &&& after.castling_rights == rights_after(before, mv)
    &&& after.en_passant_target == en_passant_after(before, mv)
    &&& after.halfmove_clock == clock_after(before, mv)
    &&& check_cache_ok(after)
    &&& (before.hash_ok() ==> after.hash_ok())
    &&& undo.captured_piece == match before.piece_at(capture_square(before, mv)) {
        Some(p) => Some(p.kind),
        None => None,
    }
    &&& undo.captured_square == capture_square(before, mv)
    &&& undo.old_castling_rights == before.castling_rights
    &&& undo.old_en_passant_target == before.en_passant_target
    &&& undo.old_halfmove_clock == before.halfmove_clock
    &&& undo.old_zobrist_hash == before.zobrist_hash
    &&& undo.old_white_king_in_check == before.white_king_in_check
    &&& undo.old_black_king_in_check == before.black_king_in_check
}

/// Masking keeps the castling rights below 16.
pub proof fn lemma_and_small(a: u8, m1: u8, m2: u8)
    requires
        a < 16,
    ensures
        a & m1 & m2 < 16,
        a & m1 & m2 <= a,
{
    assert(a < 16 ==> (a & m1 & m2 < 16 && a & m1 & m2 <= a)) by (bit_vector);
}

/// Hash bookkeeping of a move.
proof fn lemma_hash_chain(
    h0: u64,
    p0: u64,
    c0: u64,
    e0: u64,
    s0: u64,
    h1: u64,
    p1: u64,
    c1: u64,
    e1: u64,
    k: u64,
)
    requires
        h0 == p0 ^ c0 ^ e0 ^ s0,
        h1 ^ p1 == h0 ^ p0,
    ensures
        ((h1 ^ (c0 ^ c1)) ^ e0 ^ e1) ^ k == p1 ^ c1 ^ e1 ^ (s0 ^ k),
{
    assert((h0 == p0 ^ c0 ^ e0 ^ s0 && h1 ^ p1 == h0 ^ p0) ==> ((h1 ^ (c0 ^ c1)) ^ e0 ^ e1) ^ k
        == p1 ^ c1 ^ e1 ^ (s0 ^ k)) by (bit_vector);
}

impl Board {
    /// Whether square `sq` is empty.
    pub fn is_empty_square(&self, sq: u8) -> (r: bool)
        requires
            self.wf(),
            sq < 64,
        ensures
            r == (self.piece_at(sq as int) is None),
    {
        self.get_piece_at(sq).is_none()
    }

    /// Plays `mv` and returns what is needed to take it back.
    #[verifier::rlimit(60)]
    #[verifier::spinoff_prover]
    pub fn make_move_with_undo(&mut self, mv: Move) -> (undo: UndoInfo)
        requires
            old(self).wf(),
            move_shape_ok(*old(self), mv),
        ensures
            made(*old(self), mv, *final(self), undo),
    {
        let ghost b = *self;
        let us = self.to_move;
        let cap_sq: u8 = if mv.is_en_passant {
            if us == Color::White {
                mv.to - 8
            } else {
                mv.to + 8
            }
        } else {
            mv.to
        };
        let old_rights = self.castling_rights;
        let old_ep = self.en_passant_target;
        let old_clock = self.halfmove_clock;
        let old_hash = self.zobrist_hash;
        let old_wcheck = self.white_king_in_check;
        let old_bcheck = self.black_king_in_check;
        let moving = match self.remove_piece(mv.from) {
            Some(p) => p,
            None => {
                proof {
                    assert(false);
                }
                Piece { kind: PieceKind::Pawn, color: us }
            },
        };
        let ghost b1 = *self;
        let captured = self.remove_piece(cap_sq);
        let ghost b2 = *self;
        let kind = match mv.promotion {
            Some(k) => k,
            None => moving.kind,
        };
        self.put_piece(mv.to, Piece { kind, color: moving.color });
        let ghost b3 = *self;
        assert forall|t: int| 0 <= t < 64 implies #[trigger] self.piece_at(t) == after_main_move(b, mv, t) by {}
        if mv.is_castling {
            let (rf, rt) = castling_rook_sqs(us, mv.to);
            if self.is_empty_square(rt) {
                match self.remove_piece(rf) {
                    Some(r) => {
                        self.put_piece(rt, r);
                    },
                    None => {},
                }
            }
        }
        let ghost b4 = *self;
        assert forall|t: int| 0 <= t < 64 implies #[trigger] self.piece_at(t) == after_move(b, mv, t) by {
            assert(b3.piece_at(t) == after_main_move(b, mv, t));
        }
        assert(b4.zobrist_hash ^ b4.pieces_hash(64) == b.zobrist_hash ^ b.pieces_hash(64));
        // Castling rights
        let new_rights = old_rights & rights_mask_exec(mv.from) & rights_mask_exec(mv.to);
        proof {
            lemma_and_small(old_rights, rights_mask(mv.from as int), rights_mask(mv.to as int));
        }
        let ck_old = castling_key(old_rights);
        let ck_new = castling_key(new_rights);
        self.zobrist_hash = self.zobrist_hash ^ (ck_old ^ ck_new);
        self.castling_rights = new_rights;
        // En passant target
        let new_ep: Option<u8> = if moving.kind == PieceKind::Pawn && (mv.to as u16 == mv.from as u16
            + 16 || mv.from as u16 == mv.to as u16 + 16) {
            Some(((mv.from as u16 + mv.to as u16) / 2) as u8)
        } else {
            None
        };
        let e_old: u64 = match old_ep {
            Some(t) => en_passant_key(t % 8),
            None => 0,
        };
        let e_new: u64 = match new_ep {
            Some(t) => en_passant_key(t % 8),
            None => 0,
        };
        self.zobrist_hash = self.zobrist_hash ^ e_old ^ e_new;
        self.en_passant_target = new_ep;
        // Half-move clock
        self.halfmove_clock = if moving.kind == PieceKind::Pawn || captured.is_some() {
            0
        } else if old_clock < u16::MAX {
            old_clock + 1
        } else {
            old_clock
        };
        // Side to move
        let k = side_key();
        self.zobrist_hash = self.zobrist_hash ^ k;
        self.to_move = us.opposite();
        proof {
            assert(self.en_passant_key_of() == e_new);
            assert(b.en_passant_key_of() == e_old);
            assert(self.side_key_of() == b.side_key_of() ^ k) by {
                lemma_xor(0u64, k, 0u64);
                lemma_xor(k, k, 0u64);
            }
            Board::lemma_pieces_hash_same(b4, *self, 64);
            if b.hash_ok() {
                lemma_hash_chain(
                    old_hash,
                    b.pieces_hash(64),
                    castling_key_spec(old_rights as int),
                    e_old,
                    b.side_key_of(),
                    b4.zobrist_hash,
                    self.pieces_hash(64),
                    ck_new,
                    e_new,
                    k,
                );
            }
        }
        let ghost before_check = *self;
        assert forall|s: int| 0 <= s < 64 implies #[trigger] self.square_wf(s) by {
            assert(b4.square_wf(s));
        }
        self.update_check_cache();
        proof {
            assert forall|t: int| 0 <= t < 64 implies #[trigger] self.piece_at(t) == after_move(b, mv, t) by {
                assert(self.piece_at(t) == before_check.piece_at(t));
                assert(before_check.piece_at(t) == b4.piece_at(t));
            }
            Board::lemma_pieces_hash_same(before_check, *self, 64);
        }
        UndoInfo {
            captured_piece: match captured {
                Some(p) => Some(p.kind),
                None => None,
            },
            captured_square: cap_sq,
            old_castling_rights: old_rights,
            old_en_passant_target: old_ep,
            old_halfmove_clock: old_clock,
            old_zobrist_hash: old_hash,
            old_white_king_in_check: old_wcheck,
            old_black_king_in_check: old_bcheck,
        }
    }
}

/// What stands on `t` after the castling rook (if it moved) went back.
pub open spec fn unmake_rook_at(cur: Board, mv: Move, t: int) -> Option<Piece> {
    let us = cur.to_move.flip();
    let rf = castling_rook_from(us, mv.to as int);
    let rt = castling_rook_to(us, mv.to as int);
    let back = mv.is_castling && cur.piece_at(rf) is None && cur.piece_at(rt) is Some;
    if back && t == rf {
        cur.piece_at(rt)
    } else if back && t == rt {
        None
    } else {
        cur.piece_at(t)
    }
}

/// The piece that goes back to the origin square.
pub open spec fn unmoved_piece(cur: Board, mv: Move) -> Piece {
    let p = unmake_rook_at(cur, mv, mv.to as int).unwrap();
    Piece {
        kind: if mv.promotion is Some {
            PieceKind::Pawn
        } else {
            p.kind
        },
        color: p.color,
    }
}

/// What stands on `t` after the moving piece went back.
pub open spec fn unmake_main_at(cur: Board, mv: Move, t: int) -> Option<Piece> {
    let back = unmake_rook_at(cur, mv, mv.to as int) is Some && unmake_rook_at(cur, mv, mv.from as int) is None;
    if t == mv.to {
        None
    } else if t == mv.from && back {
        Some(unmoved_piece(cur, mv))
    } else {
        unmake_rook_at(cur, mv, t)
    }
}

/// What stands on `t` after `mv` was taken back with `undo`.
pub open spec fn after_unmake(cur: Board, mv: Move, undo: UndoInfo, t: int) -> Option<Piece> {
    let cap = undo.captured_square as int;
    let restore = undo.captured_piece is Some && cap < 64 && unmake_main_at(cur, mv, cap) is None;
    if restore && t == cap {
        Some(Piece { kind: undo.captured_piece.unwrap(), color: cur.to_move })
    } else {
        unmake_main_at(cur, mv, t)
    }
}

/// `after` is `before` with `mv` taken back using `undo`.
pub open spec fn unmade(before: Board, mv: Move, undo: UndoInfo, after: Board) -> bool {
    &&& after.wf()
    &&& forall|t: int| 0 <= t < 64 ==> #[trigger] after.piece_at(t) == after_unmake(before, mv, undo, t)
    &&& after.to_move == before.to_move.flip()
    &&& after.castling_rights == undo.old_castling_rights
    &&& after.en_passant_target == undo.old_en_passant_target
    &&& after.halfmove_clock == undo.old_halfmove_clock
    &&& after.zobrist_hash == undo.old_zobrist_hash
    &&& after.white_king_in_check == undo.old_white_king_in_check
    &&& after.black_king_in_check == undo.old_black_king_in_check
}

/// Taking back a move restores the board it was played on.
pub proof fn lemma_make_unmake(b: Board, mv: Move, mid: Board, undo: UndoInfo, fin: Board)
    requires
        b.wf(),
        move_shape_ok(b, mv),
        made(b, mv, mid, undo),
        unmade(mid, mv, undo, fin),
    ensures
        fin == b,
{
    assert forall|t: int| 0 <= t < 64 implies #[trigger] fin.piece_at(t) == b.piece_at(t) by {
        assert(fin.piece_at(t) == after_unmake(mid, mv, undo, t));
        let us = b.to_move;
        let rf = castling_rook_from(us, mv.to as int);
        let rt = castling_rook_to(us, mv.to as int);
        assert(mid.piece_at(rf) == after_move(b, mv, rf));
        assert(mid.piece_at(rt) == after_move(b, mv, rt));
        assert(mid.piece_at(mv.to as int) == after_move(b, mv, mv.to as int));
        assert(mid.piece_at(mv.from as int) == after_move(b, mv, mv.from as int));
        assert(mid.piece_at(capture_square(b, mv)) == after_move(b, mv, capture_square(b, mv)));
        assert(mid.piece_at(t) == after_move(b, mv, t));
    }
    Board::lemma_same_pieces_same_bitboards(fin, b);
}

impl Board {
    /// Plays `mv`; returns whether the mover's king is safe afterwards (the
    /// move is legal).
    pub fn make_move(&mut self, mv: Move) -> (legal: bool)
        requires
            old(self).wf(),
            move_shape_ok(*old(self), mv),
        ensures
            exists|undo: UndoInfo| made(*old(self), mv, *final(self), undo),
            legal == !crate::game::check::in_check_spec(*final(self), old(self).to_move),
    {
        let us = self.to_move;
        let undo = self.make_move_with_undo(mv);
        !self.is_king_in_check(us)
    }

    /// Puts the castling rook of `mv` back, if it moved.
    fn unmake_rook(&mut self, mv: Move)
        requires
            old(self).wf(),
            mv.to < 64,
        ensures
            final(self).wf(),
            final(self).same_state(*old(self)),
            forall|t: int| 0 <= t < 64 ==> #[trigger] final(self).piece_at(t) == unmake_rook_at(*old(self), mv, t),
    {
        let us = self.to_move.opposite();
        if mv.is_castling {
            let (rf, rt) = castling_rook_sqs(us, mv.to);
            if self.is_empty_square(rf) {
                match self.remove_piece(rt) {
                    Some(r) => {
                        self.put_piece(rf, r);
                    },
                    None => {},
                }
            }
        }
    }

    /// Moves the piece of `mv` back to its origin, unpromoting it.
    fn unmake_main(&mut self, mv: Move, Ghost(cur): Ghost<Board>)
        requires
            old(self).wf(),
            mv.from < 64,
            mv.to < 64,
            mv.from != mv.to,
            forall|t: int| 0 <= t < 64 ==> #[trigger] old(self).piece_at(t) == unmake_rook_at(cur, mv, t),
        ensures
            final(self).wf(),
            final(self).same_state(*old(self)),
            forall|t: int| 0 <= t < 64 ==> #[trigger] final(self).piece_at(t) == unmake_main_at(cur, mv, t),
    {
        let ghost s0 = *self;
        assert(s0.piece_at(mv.to as int) == unmake_rook_at(cur, mv, mv.to as int));
        assert(s0.piece_at(mv.from as int) == unmake_rook_at(cur, mv, mv.from as int));
        let moved = self.remove_piece(mv.to);
        match moved {
            Some(p) => {
                if self.is_empty_square(mv.from) {
                    let kind = if mv.promotion.is_some() {
                        PieceKind::Pawn
                    } else {
                        p.kind
                    };
                    self.put_piece(mv.from, Piece { kind, color: p.color });
                }
            },
            None => {},
        }
        assert forall|t: int| 0 <= t < 64 implies #[trigger] self.piece_at(t) == unmake_main_at(cur, mv, t) by {
            assert(s0.piece_at(t) == unmake_rook_at(cur, mv, t));
        }
    }

    /// Takes back `mv`, played with `make_move_with_undo`, using `undo`.
    pub fn unmake_move(&mut self, mv: Move, undo: UndoInfo)
        requires
            old(self).wf(),
            mv.from < 64,
            mv.to < 64,
            mv.from != mv.to,
            undo.old_castling_rights < 16,
            undo.old_en_passant_target matches Some(t) ==> t < 64,
        ensures
            unmade(*old(self), mv, undo, *final(self)),
    {
        let ghost cur = *self;
        let them = self.to_move;
        let us = them.opposite();
        self.unmake_rook(mv);
        self.unmake_main(mv, Ghost(cur));
        let ghost s2 = *self;
        match undo.captured_piece {
            Some(k) => {
                if undo.captured_square < 64 && self.is_empty_square(undo.captured_square) {
                    self.put_piece(undo.captured_square, Piece { kind: k, color: them });
                }
            },
            None => {},
        }
        assert forall|t: int| 0 <= t < 64 implies #[trigger] self.piece_at(t) == after_unmake(cur, mv, undo, t) by {
            assert(s2.piece_at(t) == unmake_main_at(cur, mv, t));
            if undo.captured_square < 64 {
                assert(s2.piece_at(undo.captured_square as int) == unmake_main_at(cur, mv, undo.captured_square as int));
            }
        }
        let ghost s3 = *self;
        self.to_move = us;
        self.castling_rights = undo.old_castling_rights;
        self.en_passant_target = undo.old_en_passant_target;
        self.halfmove_clock = undo.old_halfmove_clock;
        self.zobrist_hash = undo.old_zobrist_hash;
        self.white_king_in_check = undo.old_white_king_in_check;
        self.black_king_in_check = undo.old_black_king_in_check;
        proof {
            assert forall|s: int| 0 <= s < 64 implies #[trigger] self.square_wf(s) by {
                assert(s3.square_wf(s));
            }
            assert forall|t: int| 0 <= t < 64 implies #[trigger] self.piece_at(t) == after_unmake(cur, mv, undo, t) by {
                assert(s3.piece_at(t) == after_unmake(cur, mv, undo, t));
            }
        }
    }
}


/// Boards with the same bitboards have the same square keys.
proof fn lemma_same_pieces_hash(b1: Board, b2: Board, n: int)
    requires
        b1.pawns == b2.pawns,
        b1.knights == b2.knights,
        b1.bishops == b2.bishops,
        b1.rooks == b2.rooks,
        b1.queens == b2.queens,
        b1.kings == b2.kings,
        b1.white_pieces == b2.white_pieces,
        b1.black_pieces == b2.black_pieces,
    ensures
        b1.pieces_hash(n) == b2.pieces_hash(n),
    decreases n,
{
    if n > 0 {
        lemma_same_pieces_hash(b1, b2, n - 1);
        assert(b1.piece_at(n - 1) == b2.piece_at(n - 1));
    }
}

/// The hash bookkeeping of passing the turn.
proof fn lemma_null_hash(p: u64, c: u64, e: u64, s: u64, k: u64)
    ensures
        (((p ^ c) ^ e) ^ s) ^ e ^ k == ((p ^ c) ^ 0u64) ^ (s ^ k),
{
    assert((((p ^ c) ^ e) ^ s) ^ e ^ k == ((p ^ c) ^ 0u64) ^ (s ^ k)) by (bit_vector);
}

impl Board {
    /// Passes the turn: the other side is to move and no en-passant capture
    /// is possible; the hash follows, pieces, rights, clock and check flags
    /// stay.
    pub fn make_null_move(&mut self)
        requires
            old(self).wf(),
        ensures
            *final(self) == (Board {
                to_move: old(self).to_move.flip(),
                en_passant_target: None,
                zobrist_hash: final(self).zobrist_hash,
                ..*old(self)
            }),
            final(self).wf(),
            old(self).hash_ok() ==> final(self).hash_ok(),
            check_cache_ok(*old(self)) ==> check_cache_ok(*final(self)),
    {
        let ghost b0 = *self;
        let mut h = self.zobrist_hash;
        if let Some(t) = self.en_passant_target {
            h = h ^ en_passant_key(t % 8);
        }
        let k = side_key();
        h = h ^ k;
        self.zobrist_hash = h;
        self.en_passant_target = None;
        self.to_move = self.to_move.opposite();
        proof {
            assert forall|s: int| 0 <= s < 64 implies #[trigger] self.square_wf(s) by {
                assert(b0.square_wf(s));
            }
            lemma_same_bitboards_same_attacks(b0, *self);
            assert(self.pieces_hash(64) == b0.pieces_hash(64)) by {
                lemma_same_pieces_hash(b0, *self, 64);
            }
            let e = b0.en_passant_key_of();
            lemma_null_hash(b0.pieces_hash(64), castling_key_spec(b0.castling_rights as int), e, b0.side_key_of(), k);
            if b0.en_passant_target is None {
                lemma_xor(h, 0u64, 0u64);
                lemma_xor(b0.zobrist_hash, 0u64, 0u64);
            }
            assert(self.side_key_of() == b0.side_key_of() ^ k) by {
                lemma_xor(0u64, k, k);
                lemma_xor(k, k, 0u64);
            }
        }
    }
}

/// The castling rights each square's move keeps, bit by bit: bit 0 (white
/// short, e1 and h1), bit 1 (white long, e1 and a1), bit 2 (black short,
/// e8 and h8), bit 3 (black long, e8 and a8).
proof fn lemma_rights_mask_bits(sq: int)
    ensures
        (rights_mask(sq) & 1u8 != 0u8) == (sq != 4 && sq != 7),
        (rights_mask(sq) & 2u8 != 0u8) == (sq != 4 && sq != 0),
        (rights_mask(sq) & 4u8 != 0u8) == (sq != 60 && sq != 63),
        (rights_mask(sq) & 8u8 != 0u8) == (sq != 60 && sq != 56),
        rights_mask(sq) < 16,
{
    let m = rights_mask(sq);
    assert(m == 0b1100u8 || m == 0b1110u8 || m == 0b1101u8 || m == 0b0011u8 || m == 0b1011u8 || m == 0b0111u8
        || m == 0b1111u8);
    assert((m == 0b1100u8 ==> (m & 1u8 == 0u8 && m & 2u8 == 0u8 && m & 4u8 != 0u8 && m & 8u8 != 0u8))
        && (m == 0b1110u8 ==> (m & 1u8 == 0u8 && m & 2u8 != 0u8 && m & 4u8 != 0u8 && m & 8u8 != 0u8))
        && (m == 0b1101u8 ==> (m & 1u8 != 0u8 && m & 2u8 == 0u8 && m & 4u8 != 0u8 && m & 8u8 != 0u8))
        && (m == 0b0011u8 ==> (m & 1u8 != 0u8 && m & 2u8 != 0u8 && m & 4u8 == 0u8 && m & 8u8 == 0u8))
        && (m == 0b1011u8 ==> (m & 1u8 != 0u8 && m & 2u8 != 0u8 && m & 4u8 == 0u8 && m & 8u8 != 0u8))
        && (m == 0b0111u8 ==> (m & 1u8 != 0u8 && m & 2u8 != 0u8 && m & 4u8 != 0u8 && m & 8u8 == 0u8))
        && (m == 0b1111u8 ==> (m & 1u8 != 0u8 && m & 2u8 != 0u8 && m & 4u8 != 0u8 && m & 8u8 != 0u8)))
        by (bit_vector);
}

/// After a move the castling rights are those held before, less each right
/// whose king or rook square the move leaves or lands on: white short
/// castling needs e1 and h1 untouched, white long e1 and a1, black short e8
/// and h8, black long e8 and a8. No right is gained.
pub proof fn law_castling_rights_after_move(b: Board, mv: Move, a: Board, u: UndoInfo)
    requires
        made(b, mv, a, u),
    ensures
        (a.castling_rights & 1u8 != 0u8) == (b.castling_rights & 1u8 != 0u8 && mv.from != 4 && mv.to != 4 && mv.from != 7
            && mv.to != 7),
        (a.castling_rights & 2u8 != 0u8) == (b.castling_rights & 2u8 != 0u8 && mv.from != 4 && mv.to != 4 && mv.from != 0
            && mv.to != 0),
        (a.castling_rights & 4u8 != 0u8) == (b.castling_rights & 4u8 != 0u8 && mv.from != 60 && mv.to != 60 && mv.from
            != 63 && mv.to != 63),
        (a.castling_rights & 8u8 != 0u8) == (b.castling_rights & 8u8 != 0u8 && mv.from != 60 && mv.to != 60 && mv.from
            != 56 && mv.to != 56),
        a.castling_rights < 16,
{
    let r = b.castling_rights;
    let mf = rights_mask(mv.from as int);
    let mt = rights_mask(mv.to as int);
    lemma_rights_mask_bits(mv.from as int);
    lemma_rights_mask_bits(mv.to as int);
    assert(a.castling_rights == r & mf & mt);
    assert((((r & mf & mt) & 1u8 != 0u8) == ((r & 1u8 != 0u8) && (mf & 1u8 != 0u8) && (mt & 1u8 != 0u8)))
        && (((r & mf & mt) & 2u8 != 0u8) == ((r & 2u8 != 0u8) && (mf & 2u8 != 0u8) && (mt & 2u8 != 0u8)))
        && (((r & mf & mt) & 4u8 != 0u8) == ((r & 4u8 != 0u8) && (mf & 4u8 != 0u8) && (mt & 4u8 != 0u8)))
        && (((r & mf & mt) & 8u8 != 0u8) == ((r & 8u8 != 0u8) && (mf & 8u8 != 0u8) && (mt & 8u8 != 0u8)))
        && (mf < 16 ==> (r & mf & mt) < 16)) by (bit_vector);
}

} // verus!
