use vstd::prelude::*;
use crate::bits::{bit, sq_in, group_bits, lemma_bits_ext, lemma_sq_ext};
use crate::types::{Color, PieceKind, Piece, Bitboard};
use crate::zobrist::{
    piece_key, castling_key, en_passant_key, side_key, piece_key_spec, castling_key_spec,
    en_passant_key_spec, side_key_spec,
};

verus! {

broadcast use group_bits;

/// A chess position held as bitboards: one per piece kind and one per
/// colour, plus the side to move, castling rights (bit 0: white short,
/// bit 1: white long, bit 2: black short, bit 3: black long), the en
/// passant target, the half-move clock, the Zobrist hash and whether each
/// king is in check.
#[derive(Clone, Copy)]
pub struct Board {
    pub pawns: Bitboard,
    pub knights: Bitboard,
    pub bishops: Bitboard,
    pub rooks: Bitboard,
    pub queens: Bitboard,
    pub kings: Bitboard,
    pub white_pieces: Bitboard,
    pub black_pieces: Bitboard,
    pub to_move: Color,
    pub castling_rights: u8,
    pub en_passant_target: Option<u8>,
    pub halfmove_clock: u16,
    pub zobrist_hash: u64,
    pub white_king_in_check: bool,
    pub black_king_in_check: bool,
}

/// XOR facts used by the incremental hash.
pub proof fn lemma_xor(a: u64, b: u64, c: u64)
    ensures
        (a ^ b) ^ c == (a ^ c) ^ b,
        (a ^ b) ^ b == a,
        a ^ 0u64 == a,
        (a ^ b) ^ (b ^ c) == a ^ c,
        a ^ b == b ^ a,
        (a ^ b) ^ c == a ^ (b ^ c),
{
    assert(((a ^ b) ^ c == (a ^ c) ^ b) && ((a ^ b) ^ b == a) && (a ^ 0u64 == a) && ((a ^ b) ^ (b
        ^ c) == a ^ c) && (a ^ b == b ^ a) && ((a ^ b) ^ c == a ^ (b ^ c))) by (bit_vector);
}

/// Toggling the same key in the hash and in the XOR of square keys keeps
/// their XOR.
pub proof fn lemma_xor4(h: u64, p: u64, k: u64)
    ensures
        (h ^ k) ^ (p ^ (0u64 ^ k)) == h ^ p,
        (h ^ k) ^ (p ^ (k ^ 0u64)) == h ^ p,
{
    assert((h ^ k) ^ (p ^ (0u64 ^ k)) == h ^ p && (h ^ k) ^ (p ^ (k ^ 0u64)) == h ^ p) by (bit_vector);
}

impl Board {
    pub open spec fn kind_bb(self, k: PieceKind) -> u64 {
        match k {
            PieceKind::Pawn => self.pawns,
            PieceKind::Knight => self.knights,
            PieceKind::Bishop => self.bishops,
            PieceKind::Rook => self.rooks,
            PieceKind::Queen => self.queens,
            PieceKind::King => self.kings,
        }
    }

    pub open spec fn color_bb(self, c: Color) -> u64 {
        match c {
            Color::White => self.white_pieces,
            Color::Black => self.black_pieces,
        }
    }

    /// The bitboards agree on square `s`: at most one colour, at most one
    /// kind, and a colour exactly when a kind.
    pub open spec fn square_wf(self, s: int) -> bool {
        let p = sq_in(self.pawns, s);
        let n = sq_in(self.knights, s);
        let bi = sq_in(self.bishops, s);
        let r = sq_in(self.rooks, s);
        let q = sq_in(self.queens, s);
        let k = sq_in(self.kings, s);
        let w = sq_in(self.white_pieces, s);
        let b = sq_in(self.black_pieces, s);
        &&& !(w && b)
        &&& (w || b) == (p || n || bi || r || q || k)
        &&& p ==> !n && !bi && !r && !q && !k
        &&& n ==> !bi && !r && !q && !k
        &&& bi ==> !r && !q && !k
        &&& r ==> !q && !k
        &&& q ==> !k
    }

    /// The board is well formed.
    pub open spec fn wf(self) -> bool {
        &&& forall|s: int| 0 <= s < 64 ==> #[trigger] self.square_wf(s)
        &&& self.castling_rights < 16
        &&& (self.en_passant_target matches Some(t) ==> t < 64)
    }

    /// The piece on square `s`, if any.
    pub open spec fn piece_at(self, s: int) -> Option<Piece> {
        if !(sq_in(self.white_pieces, s) || sq_in(self.black_pieces, s)) {
            None
        } else {
            Some(
                Piece {
                    kind: if sq_in(self.pawns, s) {
                        PieceKind::Pawn
                    } else if sq_in(self.knights, s) {
                        PieceKind::Knight
                    } else if sq_in(self.bishops, s) {
                        PieceKind::Bishop
                    } else if sq_in(self.rooks, s) {
                        PieceKind::Rook
                    } else if sq_in(self.queens, s) {
                        PieceKind::Queen
                    } else {
                        PieceKind::King
                    },
                    color: if sq_in(self.white_pieces, s) {
                        Color::White
                    } else {
                        Color::Black
                    },
                },
            )
        }
    }

    /// Everything but the pieces is the same in both boards.
    pub open spec fn same_state(self, other: Board) -> bool {
        &&& self.to_move == other.to_move
        &&& self.castling_rights == other.castling_rights
        &&& self.en_passant_target == other.en_passant_target
        &&& self.halfmove_clock == other.halfmove_clock
        &&& self.white_king_in_check == other.white_king_in_check
        &&& self.black_king_in_check == other.black_king_in_check
    }

    /// Both boards hold the same pieces on the same squares.
    pub open spec fn same_pieces(self, other: Board) -> bool {
        forall|t: int| 0 <= t < 64 ==> #[trigger] self.piece_at(t) == other.piece_at(t)
    }

    /// The Zobrist key of what stands on square `s`.
    pub open spec fn square_key(self, s: int) -> u64 {
        match self.piece_at(s) {
            None => 0u64,
            Some(p) => piece_key_spec(p.color, p.kind, s),
        }
    }

    /// XOR of the keys of the squares 0 .. n.
    pub open spec fn pieces_hash(self, n: int) -> u64
        decreases n,
    {
        if n <= 0 {
            0u64
        } else {
            self.pieces_hash(n - 1) ^ self.square_key(n - 1)
        }
    }

    pub open spec fn en_passant_key_of(self) -> u64 {
        match self.en_passant_target {
            None => 0u64,
            Some(t) => en_passant_key_spec(t as int % 8),
        }
    }

    pub open spec fn side_key_of(self) -> u64 {
        match self.to_move {
            Color::White => 0u64,
            Color::Black => side_key_spec(),
        }
    }

    /// The Zobrist hash of the position, computed from scratch.
    pub open spec fn full_hash(self) -> u64 {
        self.pieces_hash(64) ^ castling_key_spec(self.castling_rights as int)
            ^ self.en_passant_key_of() ^ self.side_key_of()
    }

    /// The hash field holds the hash of the position.
    pub open spec fn hash_ok(self) -> bool {
        self.zobrist_hash == self.full_hash()
    }

    /// The piece on square `sq`, if any.
    pub fn get_piece_at(&self, sq: u8) -> (r: Option<Piece>)
        requires
            self.wf(),
            sq < 64,
        ensures
            r == self.piece_at(sq as int),
    {
        let mask = 1u64 << sq;
        let color = if (self.white_pieces & mask) != 0 {
            Color::White
        } else if (self.black_pieces & mask) != 0 {
            Color::Black
        } else {
            return None;
        };
        let kind = if (self.pawns & mask) != 0 {
            PieceKind::Pawn
        } else if (self.knights & mask) != 0 {
            PieceKind::Knight
        } else if (self.bishops & mask) != 0 {
            PieceKind::Bishop
        } else if (self.rooks & mask) != 0 {
            PieceKind::Rook
        } else if (self.queens & mask) != 0 {
            PieceKind::Queen
        } else {
            PieceKind::King
        };
        Some(Piece { kind, color })
    }

    /// Takes whatever stands on `sq` off the board and updates the hash.
    pub fn remove_piece(&mut self, sq: u8) -> (r: Option<Piece>)
        requires
            old(self).wf(),
            sq < 64,
        ensures
            final(self).wf(),
            r == old(self).piece_at(sq as int),
            forall|t: int|
                0 <= t < 64 ==> #[trigger] final(self).piece_at(t) == if t == sq {
                    None
                } else {
                    old(self).piece_at(t)
                },
            final(self).zobrist_hash == old(self).zobrist_hash ^ old(self).square_key(sq as int),
            final(self).zobrist_hash ^ final(self).pieces_hash(64) == old(self).zobrist_hash ^ old(self).pieces_hash(64),
            final(self).same_state(*old(self)),
    {
        let r = self.get_piece_at(sq);
        let mask = !(1u64 << sq);
        self.pawns = self.pawns & mask;
        self.knights = self.knights & mask;
        self.bishops = self.bishops & mask;
        self.rooks = self.rooks & mask;
        self.queens = self.queens & mask;
        self.kings = self.kings & mask;
        self.white_pieces = self.white_pieces & mask;
        self.black_pieces = self.black_pieces & mask;
        match r {
            Some(p) => {
                self.zobrist_hash = self.zobrist_hash ^ piece_key(p.color, p.kind, sq);
            },
            None => {
                proof {
                    lemma_xor(self.zobrist_hash, 0u64, 0u64);
                }
            },
        }
        proof {
            assert forall|t: int| #![trigger self.square_wf(t)] #![trigger self.piece_at(t)] 0 <= t < 64 implies self.square_wf(t) && self.piece_at(t) == if t == sq {
                None
            } else {
                old(self).piece_at(t)
            } by {
                assert(old(self).square_wf(t));
                let tt = t as u64;
                assert(bit(!(1u64 << sq), tt) == (tt != sq as u64));
            }
            Self::lemma_pieces_hash_update(*old(self), *self, sq as int, 64);
            assert(self.square_key(sq as int) == 0u64);
            lemma_xor(old(self).square_key(sq as int), 0u64, 0u64);
            lemma_xor4(old(self).zobrist_hash, old(self).pieces_hash(64), old(self).square_key(sq as int));
        }
        r
    }

    /// Puts the piece `p` on the empty square `sq` and updates the hash.
    pub fn put_piece(&mut self, sq: u8, p: Piece)
        requires
            old(self).wf(),
            sq < 64,
            old(self).piece_at(sq as int) is None,
        ensures
            final(self).wf(),
            forall|t: int|
                0 <= t < 64 ==> #[trigger] final(self).piece_at(t) == if t == sq {
                    Some(p)
                } else {
                    old(self).piece_at(t)
                },
            final(self).zobrist_hash == old(self).zobrist_hash ^ piece_key_spec(p.color, p.kind, sq as int),
            final(self).zobrist_hash ^ final(self).pieces_hash(64) == old(self).zobrist_hash ^ old(self).pieces_hash(64),
            final(self).same_state(*old(self)),
    {
        let mask = 1u64 << sq;
        match p.color {
            Color::White => {
                self.white_pieces = self.white_pieces | mask;
            },
            Color::Black => {
                self.black_pieces = self.black_pieces | mask;
            },
        }
        match p.kind {
            PieceKind::Pawn => {
                self.pawns = self.pawns | mask;
            },
            PieceKind::Knight => {
                self.knights = self.knights | mask;
            },
            PieceKind::Bishop => {
                self.bishops = self.bishops | mask;
            },
            PieceKind::Rook => {
                self.rooks = self.rooks | mask;
            },
            PieceKind::Queen => {
                self.queens = self.queens | mask;
            },
            PieceKind::King => {
                self.kings = self.kings | mask;
            },
        }
        self.zobrist_hash = self.zobrist_hash ^ piece_key(p.color, p.kind, sq);
        proof {
            assert forall|t: int| #![trigger self.square_wf(t)] #![trigger self.piece_at(t)] 0 <= t < 64 implies self.square_wf(t) && self.piece_at(t) == if t == sq {
                Some(p)
            } else {
                old(self).piece_at(t)
            } by {
                assert(old(self).square_wf(t));
                let tt = t as u64;
                assert(bit(1u64 << sq, tt) == (tt == sq as u64));
                if t == sq {
                    assert(!sq_in(old(self).white_pieces, t) && !sq_in(old(self).black_pieces, t));
                    assert(sq_in(self.color_bb(p.color), t));
                    assert(sq_in(self.kind_bb(p.kind), t));
                    assert(sq_in(self.pawns, t) == (p.kind == PieceKind::Pawn));
                    assert(sq_in(self.knights, t) == (p.kind == PieceKind::Knight));
                    assert(sq_in(self.bishops, t) == (p.kind == PieceKind::Bishop));
                    assert(sq_in(self.rooks, t) == (p.kind == PieceKind::Rook));
                    assert(sq_in(self.queens, t) == (p.kind == PieceKind::Queen));
                    assert(sq_in(self.white_pieces, t) == (p.color == Color::White));
                }
            }
            Self::lemma_pieces_hash_update(*old(self), *self, sq as int, 64);
            assert(old(self).square_key(sq as int) == 0u64);
            assert(self.square_key(sq as int) == piece_key_spec(p.color, p.kind, sq as int));
            lemma_xor(0u64, piece_key_spec(p.color, p.kind, sq as int), 0u64);
            lemma_xor4(old(self).zobrist_hash, old(self).pieces_hash(64), piece_key_spec(p.color, p.kind, sq as int));
        }
    }

    /// Changing one square changes the XOR of square keys by the old and the
    /// new key of that square.
    pub proof fn lemma_pieces_hash_update(b1: Board, b2: Board, s: int, n: int)
        requires
            0 <= s < 64,
            0 <= n <= 64,
            forall|t: int| 0 <= t < 64 && t != s ==> #[trigger] b1.piece_at(t) == b2.piece_at(t),
        ensures
            b2.pieces_hash(n) == if s < n {
                b1.pieces_hash(n) ^ (b1.square_key(s) ^ b2.square_key(s))
            } else {
                b1.pieces_hash(n)
            },
        decreases n,
    {
        if n > 0 {
            Self::lemma_pieces_hash_update(b1, b2, s, n - 1);
            let h = b1.pieces_hash(n - 1);
            let d = b1.square_key(s) ^ b2.square_key(s);
            lemma_xor(h, d, b1.square_key(n - 1));
            lemma_xor(h, b1.square_key(s), b2.square_key(s));
            lemma_xor(h, b1.square_key(n - 1), d);
            if n - 1 != s {
                assert(b1.piece_at(n - 1) == b2.piece_at(n - 1));
            }
        }
    }

    /// The XOR of square keys depends only on the pieces.
    pub proof fn lemma_pieces_hash_same(b1: Board, b2: Board, n: int)
        requires
            0 <= n <= 64,
            b1.same_pieces(b2),
        ensures
            b2.pieces_hash(n) == b1.pieces_hash(n),
        decreases n,
    {
        if n > 0 {
            Self::lemma_pieces_hash_same(b1, b2, n - 1);
            assert(b1.piece_at(n - 1) == b2.piece_at(n - 1));
        }
    }

    /// Two well-formed boards with the same pieces have the same bitboards.
    pub proof fn lemma_same_pieces_same_bitboards(b1: Board, b2: Board)
        requires
            b1.wf(),
            b2.wf(),
            b1.same_pieces(b2),
        ensures
            b1.pawns == b2.pawns,
            b1.knights == b2.knights,
            b1.bishops == b2.bishops,
            b1.rooks == b2.rooks,
            b1.queens == b2.queens,
            b1.kings == b2.kings,
            b1.white_pieces == b2.white_pieces,
            b1.black_pieces == b2.black_pieces,
    {
        assert forall|i: u64| i < 64 implies bit(b1.pawns, i) == bit(b2.pawns, i) && bit(b1.knights, i) == bit(b2.knights, i)
            && bit(b1.bishops, i) == bit(b2.bishops, i) && bit(b1.rooks, i) == bit(b2.rooks, i)
            && bit(b1.queens, i) == bit(b2.queens, i) && bit(b1.kings, i) == bit(b2.kings, i)
            && bit(b1.white_pieces, i) == bit(b2.white_pieces, i) && bit(b1.black_pieces, i) == bit(b2.black_pieces, i) by {
            let s = i as int;
            assert(b1.square_wf(s));
            assert(b2.square_wf(s));
            assert(b1.piece_at(s) == b2.piece_at(s));
        }
        lemma_bits_ext(b1.pawns, b2.pawns);
        lemma_bits_ext(b1.knights, b2.knights);
        lemma_bits_ext(b1.bishops, b2.bishops);
        lemma_bits_ext(b1.rooks, b2.rooks);
        lemma_bits_ext(b1.queens, b2.queens);
        lemma_bits_ext(b1.kings, b2.kings);
        lemma_bits_ext(b1.white_pieces, b2.white_pieces);
        lemma_bits_ext(b1.black_pieces, b2.black_pieces);
    }

    /// Computes the Zobrist hash of the position from scratch.
    pub fn compute_hash(&self) -> (r: u64)
        requires
            self.wf(),
        ensures
            r == self.full_hash(),
    {
        let mut h: u64 = 0;
        let mut s: u8 = 0;
        while s < 64
            invariant
                self.wf(),
                s <= 64,
                h == self.pieces_hash(s as int),
            decreases 64 - s,
        {
            match self.get_piece_at(s) {
                Some(p) => {
                    h = h ^ piece_key(p.color, p.kind, s);
                },
                None => {
                    proof {
                        lemma_xor(h, 0, 0);
                    }
                },
            }
            s = s + 1;
        }
        h = h ^ castling_key(self.castling_rights);
        match self.en_passant_target {
            Some(t) => {
                h = h ^ en_passant_key(t % 8);
            },
            None => {
                proof {
                    lemma_xor(h, 0, 0);
                }
            },
        }
        match self.to_move {
            Color::Black => {
                h = h ^ side_key();
            },
            Color::White => {
                proof {
                    lemma_xor(h, 0, 0);
                }
            },
        }
        h
    }
}

impl Board {
    /// The board with a piece of kind `k` and colour `c` put on square `s`,
    /// nothing else changed.
    pub open spec fn with_piece(self, s: int, k: PieceKind, c: Color) -> Board {
        let m = 1u64 << (s as u64);
        Board {
            pawns: if k == PieceKind::Pawn { self.pawns | m } else { self.pawns },
            knights: if k == PieceKind::Knight { self.knights | m } else { self.knights },
            bishops: if k == PieceKind::Bishop { self.bishops | m } else { self.bishops },
            rooks: if k == PieceKind::Rook { self.rooks | m } else { self.rooks },
            queens: if k == PieceKind::Queen { self.queens | m } else { self.queens },
            kings: if k == PieceKind::King { self.kings | m } else { self.kings },
            white_pieces: if c == Color::White { self.white_pieces | m } else { self.white_pieces },
            black_pieces: if c == Color::Black { self.black_pieces | m } else { self.black_pieces },
            ..self
        }
    }
}

/// Putting a piece of kind `k` and colour `c` on an empty square `s` of a
/// well-formed board adds `s` to the pieces of that kind and colour and
/// leaves the pieces of every other kind and colour as they were.
pub proof fn lemma_with_piece(b: Board, s: int, k: PieceKind, c: Color, k2: PieceKind, c2: Color)
    requires
        b.wf(),
        0 <= s < 64,
        !sq_in(b.white_pieces | b.black_pieces, s),
    ensures
        !sq_in(b.kind_bb(k2) & b.color_bb(c2), s),
        !sq_in(b.kind_bb(k2), s),
        (k2 == k && c2 == c) ==> b.with_piece(s, k, c).kind_bb(k2) & b.with_piece(s, k, c).color_bb(c2) == (b.kind_bb(k2)
            & b.color_bb(c2)) | (1u64 << (s as u64)),
        !(k2 == k && c2 == c) ==> b.with_piece(s, k, c).kind_bb(k2) & b.with_piece(s, k, c).color_bb(c2) == b.kind_bb(k2)
            & b.color_bb(c2),
        k2 != k ==> b.with_piece(s, k, c).kind_bb(k2) == b.kind_bb(k2),
        c2 != c ==> b.with_piece(s, k, c).color_bb(c2) == b.color_bb(c2),
{
    let b2 = b.with_piece(s, k, c);
    let m = 1u64 << (s as u64);
    assert(b.square_wf(s));
    let old = b.kind_bb(k2) & b.color_bb(c2);
    let new = b2.kind_bb(k2) & b2.color_bb(c2);
    let want = if k2 == k && c2 == c { old | m } else { old };
    assert forall|i: int| 0 <= i < 64 implies sq_in(new, i) == sq_in(want, i) by {
        assert(bit(m, i as u64) == (i as u64 == s as u64));
        if i == s {
            assert(!bit(b.white_pieces, i as u64) && !bit(b.black_pieces, i as u64));
        }
    }
    lemma_sq_ext(new, want);
}

} // verus!
