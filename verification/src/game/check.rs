use vstd::prelude::*;
use vstd::std_specs::bits::u64_trailing_zeros;
use crate::bits::{bit, sq_in, group_bits, lemma_lowest_bit};
use crate::board::Board;
use crate::types::{Color, PieceKind, Piece};
use crate::moves::attacks::{
    king_step, knight_step, pawn_attack_step, rook_attack, bishop_attack, queen_attack,
    lemma_rook_attack_symmetric, lemma_bishop_attack_symmetric,
};
use crate::moves::pawn::get_pawn_attackers;
use crate::moves::knight::get_knight_attacks;
use crate::moves::king::get_king_attacks;
use crate::moves::queen::get_queen_attacks;
use crate::moves::magic_bitboards::{get_bishop_attacks_magic, get_rook_attacks_magic};

verus! {

broadcast use group_bits;

/// A piece of kind `k` and colour `c` on `a` attacks `s`, given the occupied squares.
pub open spec fn piece_attacks(k: PieceKind, c: Color, a: int, occ: u64, s: int) -> bool {
    match k {
        PieceKind::Pawn => pawn_attack_step(c, a, s),
        PieceKind::Knight => knight_step(a, s),
        PieceKind::Bishop => bishop_attack(a, occ, s),
        PieceKind::Rook => rook_attack(a, occ, s),
        PieceKind::Queen => queen_attack(a, occ, s),
        PieceKind::King => king_step(a, s),
    }
}

/// The occupied squares of a board.
pub open spec fn occupancy(b: Board) -> u64 {
    b.white_pieces | b.black_pieces
}

/// Square `s` is attacked by some piece of colour `c`.
pub open spec fn attacked_by(b: Board, s: int, c: Color) -> bool {
    exists|a: int| 0 <= a < 64 && #[trigger] attacks_from(b, a, s, c)
}

/// A piece of colour `c` stands on `a` and attacks `s`.
pub open spec fn attacks_from(b: Board, a: int, s: int, c: Color) -> bool {
    match b.piece_at(a) {
        Some(p) => p.color == c && piece_attacks(p.kind, c, a, occupancy(b), s),
        None => false,
    }
}

/// The king of colour `c` (the lowest one, should there be several) is
/// attacked; false when there is no king of that colour.
pub open spec fn in_check_spec(b: Board, c: Color) -> bool {
    let kb = b.kings & b.color_bb(c);
    kb != 0 && attacked_by(b, u64_trailing_zeros(kb) as int, c.flip())
}

/// The cached check flags agree with the position.
pub open spec fn check_cache_ok(b: Board) -> bool {
    &&& b.white_king_in_check == in_check_spec(b, Color::White)
    &&& b.black_king_in_check == in_check_spec(b, Color::Black)
}

/// A non-empty bitboard holds some square.
pub proof fn lemma_nonzero_square(x: u64)
    ensures
        x != 0 <==> exists|a: int| #[trigger] sq_in(x, a),
{
    if x != 0 {
        lemma_lowest_bit(x);
        assert(sq_in(x, u64_trailing_zeros(x) as int));
    } else {
        assert forall|a: int| !#[trigger] sq_in(x, a) by {
            if 0 <= a < 64 {
                assert(!bit(0u64, a as u64));
            }
        }
    }
}

/// Attacks and checks depend only on the bitboards.
pub proof fn lemma_same_bitboards_same_attacks(b1: Board, b2: Board)
    requires
        b1.pawns == b2.pawns,
        b1.knights == b2.knights,
        b1.bishops == b2.bishops,
        b1.rooks == b2.rooks,
        b1.queens == b2.queens,
        b1.kings == b2.kings,
        b1.white_pieces == b2.white_pieces,
        b1.black_pieces == b2.black_pieces,
    ensures
        forall|s: int, c: Color| #[trigger] attacked_by(b1, s, c) == attacked_by(b2, s, c),
        forall|c: Color| #[trigger] in_check_spec(b1, c) == in_check_spec(b2, c),
        b1.same_pieces(b2),
{
    assert forall|a: int| #[trigger] b1.piece_at(a) == b2.piece_at(a) by {}
    assert forall|s: int, c: Color| #[trigger] attacked_by(b1, s, c) == attacked_by(b2, s, c) by {
        assert forall|a: int| #![trigger attacks_from(b1, a, s, c)] #![trigger attacks_from(b2, a, s, c)] attacks_from(b1, a, s, c) == attacks_from(b2, a, s, c) by {
            assert(b1.piece_at(a) == b2.piece_at(a));
        }
    }
    assert forall|c: Color| #[trigger] in_check_spec(b1, c) == in_check_spec(b2, c) by {
        assert(b1.kings & b1.color_bb(c) == b2.kings & b2.color_bb(c));
        let kb = b1.kings & b1.color_bb(c);
        assert(attacked_by(b1, u64_trailing_zeros(kb) as int, c.flip()) == attacked_by(b2, u64_trailing_zeros(kb) as int, c.flip()));
    }
}

impl Board {
    /// Whether the king of `color` is in check, as cached in the board.
    pub fn is_king_in_check(&self, color: Color) -> (r: bool)
        ensures
            r == match color {
                Color::White => self.white_king_in_check,
                Color::Black => self.black_king_in_check,
            },
            check_cache_ok(*self) ==> r == in_check_spec(*self, color),
    {
        if color == Color::White {
            self.white_king_in_check
        } else {
            self.black_king_in_check
        }
    }

    /// Recomputes both cached check flags.
    pub fn update_check_cache(&mut self)
        requires
            old(self).wf(),
        ensures
            final(self).wf(),
            check_cache_ok(*final(self)),
            final(self).same_pieces(*old(self)),
            final(self).pawns == old(self).pawns,
            final(self).knights == old(self).knights,
            final(self).bishops == old(self).bishops,
            final(self).rooks == old(self).rooks,
            final(self).queens == old(self).queens,
            final(self).kings == old(self).kings,
            final(self).white_pieces == old(self).white_pieces,
            final(self).black_pieces == old(self).black_pieces,
            final(self).to_move == old(self).to_move,
            final(self).castling_rights == old(self).castling_rights,
            final(self).en_passant_target == old(self).en_passant_target,
            final(self).halfmove_clock == old(self).halfmove_clock,
            final(self).zobrist_hash == old(self).zobrist_hash,
    {
        let w = self.compute_king_in_check(Color::White);
        let b = self.compute_king_in_check(Color::Black);
        self.white_king_in_check = w;
        self.black_king_in_check = b;
        proof {
            lemma_same_bitboards_same_attacks(*old(self), *self);
            assert forall|s: int| 0 <= s < 64 implies #[trigger] self.square_wf(s) by {
                assert(old(self).square_wf(s));
            }
        }
    }

    /// Whether the king of `color` is attacked, computed from the pieces.
    pub fn compute_king_in_check(&self, color: Color) -> (r: bool)
        requires
            self.wf(),
        ensures
            r == in_check_spec(*self, color),
    {
        let king_bb = self.kings & if color == Color::White {
            self.white_pieces
        } else {
            self.black_pieces
        };
        if king_bb == 0 {
            return false;
        }
        proof {
            lemma_lowest_bit(king_bb);
        }
        let king_square = king_bb.trailing_zeros() as u8;
        self.is_square_attacked_by(king_square, color.opposite())
    }

    /// Whether `square` is attacked by a piece of `attacking_color`.
    pub fn is_square_attacked_by(&self, square: u8, attacking_color: Color) -> (r: bool)
        requires
            self.wf(),
            square < 64,
        ensures
            r == attacked_by(*self, square as int, attacking_color),
    {
        let ghost s = square as int;
        let ghost c = attacking_color;
        let ghost occ = occupancy(*self);
        let attacking_pieces = if attacking_color == Color::White {
            self.white_pieces
        } else {
            self.black_pieces
        };
        assert(attacking_pieces == self.color_bb(c));
        // A piece of kind k and colour c on a means: sq_in(kind_bb(k) & attacking, a)
        if attacking_pieces == 0 {
            proof {
                assert forall|a: int| 0 <= a < 64 implies !#[trigger] attacks_from(*self, a, s, c) by {
                    assert(self.square_wf(a));
                    assert(!bit(0u64, a as u64));
                }
            }
            return false;
        }
        let all_pieces = self.white_pieces | self.black_pieces;
        let pawn_attackers = get_pawn_attackers(square, attacking_color);
        let pawn_hits = pawn_attackers & self.pawns & attacking_pieces;
        if (self.pawns & attacking_pieces) != 0 {
            if pawn_hits != 0 {
                proof {
                    lemma_nonzero_square(pawn_hits);
                    let a = choose|a: int| #[trigger] sq_in(pawn_hits, a);
                    assert(sq_in(pawn_attackers, a));
                    assert(self.square_wf(a));
                    assert(self.piece_at(a) == Some(Piece { kind: PieceKind::Pawn, color: c }));
                    assert(attacks_from(*self, a, s, c));
                }
                return true;
            }
        }
        let knight_att = get_knight_attacks(square);
        let knight_hits = knight_att & self.knights & attacking_pieces;
        if (self.knights & attacking_pieces) != 0 {
            if knight_hits != 0 {
                proof {
                    lemma_nonzero_square(knight_hits);
                    let a = choose|a: int| #[trigger] sq_in(knight_hits, a);
                    assert(sq_in(knight_att, a));
                    assert(self.square_wf(a));
                    assert(self.piece_at(a) == Some(Piece { kind: PieceKind::Knight, color: c }));
                    assert(knight_step(a, s));
                    assert(attacks_from(*self, a, s, c));
                }
                return true;
            }
        }
        let king_att = get_king_attacks(square);
        let king_hits = king_att & self.kings & attacking_pieces;
        if (self.kings & attacking_pieces) != 0 {
            if king_hits != 0 {
                proof {
                    lemma_nonzero_square(king_hits);
                    let a = choose|a: int| #[trigger] sq_in(king_hits, a);
                    assert(sq_in(king_att, a));
                    assert(self.square_wf(a));
                    assert(self.piece_at(a) == Some(Piece { kind: PieceKind::King, color: c }));
                    assert(king_step(a, s));
                    assert(attacks_from(*self, a, s, c));
                }
                return true;
            }
        }
        let queen_att = get_queen_attacks(square, all_pieces);
        let queen_hits = queen_att & self.queens & attacking_pieces;
        if (self.queens & attacking_pieces) != 0 {
            if queen_hits != 0 {
                proof {
                    lemma_nonzero_square(queen_hits);
                    let a = choose|a: int| #[trigger] sq_in(queen_hits, a);
                    assert(sq_in(queen_att, a));
                    assert(self.square_wf(a));
                    assert(self.piece_at(a) == Some(Piece { kind: PieceKind::Queen, color: c }));
                    lemma_rook_attack_symmetric(s, occ, a);
                    lemma_bishop_attack_symmetric(s, occ, a);
                    assert(attacks_from(*self, a, s, c));
                }
                return true;
            }
        }
        let bishop_att = get_bishop_attacks_magic(square, all_pieces);
        let bishop_hits = bishop_att & self.bishops & attacking_pieces;
        if (self.bishops & attacking_pieces) != 0 {
            if bishop_hits != 0 {
                proof {
                    lemma_nonzero_square(bishop_hits);
                    let a = choose|a: int| #[trigger] sq_in(bishop_hits, a);
                    assert(sq_in(bishop_att, a));
                    assert(self.square_wf(a));
                    assert(self.piece_at(a) == Some(Piece { kind: PieceKind::Bishop, color: c }));
                    lemma_bishop_attack_symmetric(s, occ, a);
                    assert(attacks_from(*self, a, s, c));
                }
                return true;
            }
        }
        let rook_att = get_rook_attacks_magic(square, all_pieces);
        let rook_hits = rook_att & self.rooks & attacking_pieces;
        if (self.rooks & attacking_pieces) != 0 {
            if rook_hits != 0 {
                proof {
                    lemma_nonzero_square(rook_hits);
                    let a = choose|a: int| #[trigger] sq_in(rook_hits, a);
                    assert(sq_in(rook_att, a));
                    assert(self.square_wf(a));
                    assert(self.piece_at(a) == Some(Piece { kind: PieceKind::Rook, color: c }));
                    lemma_rook_attack_symmetric(s, occ, a);
                    assert(attacks_from(*self, a, s, c));
                }
                return true;
            }
        }
        proof {
            lemma_nonzero_square(pawn_hits);
            lemma_nonzero_square(knight_hits);
            lemma_nonzero_square(king_hits);
            lemma_nonzero_square(queen_hits);
            lemma_nonzero_square(bishop_hits);
            lemma_nonzero_square(rook_hits);
            lemma_nonzero_square(self.pawns & attacking_pieces);
            lemma_nonzero_square(self.knights & attacking_pieces);
            lemma_nonzero_square(self.kings & attacking_pieces);
            lemma_nonzero_square(self.queens & attacking_pieces);
            lemma_nonzero_square(self.bishops & attacking_pieces);
            lemma_nonzero_square(self.rooks & attacking_pieces);
            assert forall|a: int| 0 <= a < 64 implies !#[trigger] attacks_from(*self, a, s, c) by {
                assert(self.square_wf(a));
                lemma_rook_attack_symmetric(s, occ, a);
                lemma_bishop_attack_symmetric(s, occ, a);
                if let Some(p) = self.piece_at(a) {
                    if p.color == c {
                        assert(sq_in(self.kind_bb(p.kind) & attacking_pieces, a));
                        assert(sq_in(pawn_attackers, a) == pawn_attack_step(c, a, s));
                        assert(sq_in(knight_att, a) == knight_step(s, a));
                        assert(sq_in(king_att, a) == king_step(s, a));
                        assert(sq_in(queen_att, a) == queen_attack(s, occ, a));
                        assert(sq_in(bishop_att, a) == bishop_attack(s, occ, a));
                        assert(sq_in(rook_att, a) == rook_attack(s, occ, a));
                        match p.kind {
                            PieceKind::Pawn => {
                                assert(sq_in(self.pawns & attacking_pieces, a));
                                assert(!sq_in(pawn_hits, a));
                            },
                            PieceKind::Knight => {
                                assert(sq_in(self.knights & attacking_pieces, a));
                                assert(!sq_in(knight_hits, a));
                            },
                            PieceKind::Bishop => {
                                assert(sq_in(self.bishops & attacking_pieces, a));
                                assert(!sq_in(bishop_hits, a));
                            },
                            PieceKind::Rook => {
                                assert(sq_in(self.rooks & attacking_pieces, a));
                                assert(!sq_in(rook_hits, a));
                            },
                            PieceKind::Queen => {
                                assert(sq_in(self.queens & attacking_pieces, a));
                                assert(!sq_in(queen_hits, a));
                            },
                            PieceKind::King => {
                                assert(sq_in(self.kings & attacking_pieces, a));
                                assert(!sq_in(king_hits, a));
                            },
                        }
                    }
                }
            }
        }
        false
    }
}

} // verus!
