use vstd::prelude::*;
use vstd::std_specs::bits::u64_trailing_zeros;
use crate::bits::{sq_in, group_bits};
use crate::intrinsics::lemma_clear_lowest;
use crate::types::{Color, PieceKind, Move};
use crate::game::check::{piece_attacks, occupancy};
use crate::board::Board;
use crate::moves::attacks::is_square;
use crate::moves::pawn::get_pawn_attacks;
use crate::moves::knight::get_knight_attacks;
use crate::moves::king::get_king_attacks;
use crate::moves::magic_bitboards::{
    get_bishop_attacks_magic, get_rook_attacks_magic, get_queen_attacks_magic,
};

verus! {

broadcast use group_bits;

/// The plain move from `from` to `to`: no promotion, not castling, not en
/// passant.
pub open spec fn quiet(from: int, to: int) -> Move {
    Move { from: from as u8, to: to as u8, promotion: None, is_castling: false, is_en_passant: false }
}

/// `m` is a plain move of a piece of kind `k` and colour `c` standing on a
/// square of `pieces`, to a square it attacks that holds none of `own`.
pub open spec fn piece_move(k: PieceKind, c: Color, occ: u64, own: u64, pieces: u64, m: Move) -> bool {
    &&& sq_in(pieces, m.from as int)
    &&& m == quiet(m.from as int, m.to as int)
    &&& m.to < 64
    &&& piece_attacks(k, c, m.from as int, occ, m.to as int)
    &&& !sq_in(own, m.to as int)
}

/// `m` is a plain move of a piece of kind `k` of the side to move on `b`.
pub open spec fn kind_move(b: Board, k: PieceKind, m: Move) -> bool {
    piece_move(
        k,
        b.to_move,
        occupancy(b),
        b.color_bb(b.to_move),
        b.kind_bb(k) & b.color_bb(b.to_move),
        m,
    )
}

/// Appending an element that is not there yet keeps a sequence free of
/// duplicates.
pub proof fn lemma_push_distinct(s: Seq<Move>, x: Move)
    requires
        s.no_duplicates(),
        !s.contains(x),
    ensures
        s.push(x).no_duplicates(),
{
    let t = s.push(x);
    assert forall|i: int, j: int| 0 <= i < t.len() && 0 <= j < t.len() && i != j implies t[i] != t[j] by {
        if i < s.len() && j < s.len() {
            assert(t[i] == s[i] && t[j] == s[j]);
        } else if i < s.len() {
            assert(t[i] == s[i]);
            assert(s.contains(s[i]));
        } else {
            assert(t[j] == s[j]);
            assert(s.contains(s[j]));
        }
    }
}

/// Appends a move that is not in the list yet.
pub fn push_new(moves: &mut Vec<Move>, m: Move)
    requires
        old(moves)@.no_duplicates(),
        !old(moves)@.contains(m),
    ensures
        final(moves)@ == old(moves)@.push(m),
        final(moves)@.no_duplicates(),
        forall|x: Move| #[trigger] final(moves)@.contains(x) <==> (old(moves)@.contains(x) || x == m),
{
    proof {
        lemma_push_distinct(moves@, m);
    }
    let ghost before = moves@;
    moves.push(m);
    proof {
        assert forall|x: Move| #[trigger] moves@.contains(x) <==> (before.contains(x) || x == m) by {
            if moves@.contains(x) && x != m {
                let i = choose|i: int| 0 <= i < moves.len() && moves@[i] == x;
                assert(before[i] == x);
            }
            if before.contains(x) {
                let i = choose|i: int| 0 <= i < before.len() && before[i] == x;
                assert(moves@[i] == x);
            }
            if x == m {
                assert(moves@[before.len() as int] == m);
            }
        }
    }
}

/// Appends one plain move from `from` to each square of `targets`, lowest
/// square first.
pub fn push_targets(moves: &mut Vec<Move>, from: u8, targets: u64)
    requires
        from < 64,
        old(moves)@.no_duplicates(),
        forall|i: int| 0 <= i < old(moves).len() ==> old(moves)@[i].from != from,
    ensures
        final(moves)@.no_duplicates(),
        final(moves).len() >= old(moves).len(),
        forall|i: int| 0 <= i < old(moves).len() ==> final(moves)@[i] == old(moves)@[i],
        forall|i: int| old(moves).len() <= i < final(moves).len() ==> final(moves)@[i].from == from,
        forall|i: int, j: int| old(moves).len() <= i < j < final(moves).len() ==> final(moves)@[i].to < final(moves)@[j].to,
        forall|m: Move|
            #![trigger final(moves)@.contains(m)]
            final(moves)@.contains(m) <==> (old(moves)@.contains(m) || (m == quiet(from as int, m.to as int)
                && sq_in(targets, m.to as int))),
{
    let ghost start = moves@;
    let mut rem = targets;
    while rem != 0
        invariant
            from < 64,
            moves@.no_duplicates(),
            moves.len() >= start.len(),
            forall|i: int| 0 <= i < start.len() ==> moves@[i] == start[i],
            forall|i: int| 0 <= i < start.len() ==> start[i].from != from,
            forall|i: int|
                start.len() <= i < moves.len() ==> moves@[i].from == from && sq_in(targets, moves@[i].to as int)
                    && !sq_in(rem, moves@[i].to as int),
            forall|t: int| sq_in(rem, t) ==> sq_in(targets, t),
            forall|i: int, j: int| start.len() <= i < j < moves.len() ==> moves@[i].to < moves@[j].to,
            forall|i: int, t: int| start.len() <= i < moves.len() && #[trigger] sq_in(rem, t) ==> #[trigger] moves@[i].to < t,
            forall|m: Move|
                #![trigger moves@.contains(m)]
                moves@.contains(m) <==> (start.contains(m) || (m == quiet(from as int, m.to as int) && sq_in(
                    targets,
                    m.to as int,
                ) && !sq_in(rem, m.to as int))),
        decreases rem,
    {
        proof {
            lemma_clear_lowest(rem);
        }
        let to_sq = rem.trailing_zeros() as u8;
        let mv = Move { from, to: to_sq, promotion: None, is_castling: false, is_en_passant: false };
        proof {
            if moves@.contains(mv) {
                let i = choose|i: int| 0 <= i < moves.len() && moves@[i] == mv;
                if i < start.len() {
                    assert(start[i].from != from);
                } else {
                    assert(!sq_in(rem, moves@[i].to as int));
                }
            }
            lemma_push_distinct(moves@, mv);
        }
        let ghost before = moves@;
        let ghost old_rem = rem;
        moves.push(mv);
        rem = rem & (rem - 1);
        proof {
            assert forall|m: Move| #![trigger moves@.contains(m)] moves@.contains(m) <==> (start.contains(m) || (m
                == quiet(from as int, m.to as int) && sq_in(targets, m.to as int) && !sq_in(rem, m.to as int))) by {
                if m.to < 64 {
                    assert(sq_in(rem, m.to as int) == (sq_in(old_rem, m.to as int) && m.to != to_sq));
                }
                if moves@.contains(m) && m != mv {
                    let i = choose|i: int| 0 <= i < moves.len() && moves@[i] == m;
                    assert(before[i] == m);
                    assert(before.contains(m));
                }
                if before.contains(m) {
                    let i = choose|i: int| 0 <= i < before.len() && before[i] == m;
                    assert(moves@[i] == m);
                }
                if m == mv {
                    assert(moves@[before.len() as int] == mv);
                }
            }
            assert forall|t: int| sq_in(rem, t) implies sq_in(targets, t) by {
                assert(sq_in(old_rem, t));
            }
            assert(sq_in(old_rem, to_sq as int));
            assert forall|i: int, j: int| start.len() <= i < j < moves.len() implies moves@[i].to < moves@[j].to by {
                if j < before.len() {
                    assert(moves@[i] == before[i] && moves@[j] == before[j]);
                } else {
                    assert(moves@[i] == before[i]);
                    assert(before[i].to < to_sq as int);
                }
            }
            assert forall|i: int, t: int| start.len() <= i < moves.len() && #[trigger] sq_in(rem, t) implies #[trigger] moves@[i].to < t by {
                assert(sq_in(rem, t) == (sq_in(old_rem, t) && t != to_sq as int));
                if i < before.len() {
                    assert(moves@[i] == before[i]);
                } else if t < to_sq as int {
                    assert(!sq_in(old_rem, t));
                }
            }
            assert forall|i: int| start.len() <= i < moves.len() implies moves@[i].from == from && sq_in(
                targets,
                moves@[i].to as int,
            ) && !sq_in(rem, moves@[i].to as int) by {
                if i < before.len() {
                    assert(moves@[i] == before[i]);
                }
            }
        }
    }
    proof {
        assert forall|m: Move| #![trigger moves@.contains(m)] moves@.contains(m) <==> (start.contains(m) || (m
            == quiet(from as int, m.to as int) && sq_in(targets, m.to as int))) by {
            if 0 <= m.to < 64 {
                assert(!sq_in(0u64, m.to as int));
            }
        }
    }
}

/// `a` comes before `b`: from a lower square, or from the same square to a
/// lower one.
pub open spec fn move_before(a: Move, b: Move) -> bool {
    a.from < b.from || (a.from == b.from && a.to < b.to)
}

/// The squares a piece of kind `kind` and colour `c` on `sq` attacks.
pub fn piece_attack_set(kind: PieceKind, c: Color, sq: u8, occ: u64) -> (r: u64)
    requires
        sq < 64,
    ensures
        forall|t: int| #[trigger] sq_in(r, t) == (is_square(t) && piece_attacks(kind, c, sq as int, occ, t)),
{
    let r = match kind {
        PieceKind::Pawn => get_pawn_attacks(sq, c),
        PieceKind::Knight => get_knight_attacks(sq),
        PieceKind::Bishop => get_bishop_attacks_magic(sq, occ),
        PieceKind::Rook => get_rook_attacks_magic(sq, occ),
        PieceKind::Queen => get_queen_attacks_magic(sq, occ),
        PieceKind::King => get_king_attacks(sq),
    };
    assert forall|t: int| #[trigger] sq_in(r, t) == (is_square(t) && piece_attacks(kind, c, sq as int, occ, t)) by {
        if sq_in(r, t) {
            assert(0 <= t < 64);
        }
    }
    r
}

/// Appends the plain moves of the pieces of kind `kind` and colour `c` on
/// the squares of `pieces` to the squares they attack that hold none of
/// `own`, piece by piece from the lowest square.
pub fn push_piece_moves(moves: &mut Vec<Move>, pieces: u64, kind: PieceKind, c: Color, occ: u64, own: u64)
    requires
        old(moves)@.no_duplicates(),
        forall|i: int| 0 <= i < old(moves).len() ==> !sq_in(pieces, old(moves)@[i].from as int),
    ensures
        final(moves)@.no_duplicates(),
        final(moves).len() >= old(moves).len(),
        forall|i: int| 0 <= i < old(moves).len() ==> final(moves)@[i] == old(moves)@[i],
        forall|i: int| old(moves).len() <= i < final(moves).len() ==> sq_in(pieces, final(moves)@[i].from as int),
        forall|i: int, j: int|
            old(moves).len() <= i < j < final(moves).len() ==> move_before(final(moves)@[i], final(moves)@[j]),
        forall|m: Move|
            #![trigger final(moves)@.contains(m)]
            final(moves)@.contains(m) <==> (old(moves)@.contains(m) || piece_move(kind, c, occ, own, pieces, m)),
{
    let ghost start = moves@;
    let mut rem = pieces;
    while rem != 0
        invariant
            moves@.no_duplicates(),
            moves.len() >= start.len(),
            forall|i: int| 0 <= i < start.len() ==> moves@[i] == start[i],
            forall|i: int| 0 <= i < start.len() ==> !sq_in(pieces, start[i].from as int),
            forall|i: int|
                start.len() <= i < moves.len() ==> sq_in(pieces, moves@[i].from as int) && !sq_in(
                    rem,
                    moves@[i].from as int,
                ),
            forall|t: int| sq_in(rem, t) ==> sq_in(pieces, t),
            forall|i: int, j: int| start.len() <= i < j < moves.len() ==> move_before(moves@[i], moves@[j]),
            forall|i: int, t: int| start.len() <= i < moves.len() && #[trigger] sq_in(rem, t) ==> #[trigger] moves@[i].from < t,
            forall|m: Move|
                #![trigger moves@.contains(m)]
                moves@.contains(m) <==> (start.contains(m) || (piece_move(kind, c, occ, own, pieces, m) && !sq_in(
                    rem,
                    m.from as int,
                ))),
        decreases rem,
    {
        proof {
            lemma_clear_lowest(rem);
        }
        let from_sq = rem.trailing_zeros() as u8;
        let attacks = piece_attack_set(kind, c, from_sq, occ);
        let targets = attacks & !own;
        let ghost before = moves@;
        let ghost old_rem = rem;
        proof {
            assert forall|i: int| 0 <= i < moves.len() implies moves@[i].from != from_sq by {
                if i < start.len() {
                    assert(!sq_in(pieces, start[i].from as int));
                }
            }
        }
        push_targets(moves, from_sq, targets);
        rem = rem & (rem - 1);
        proof {
            assert forall|m: Move| #![trigger moves@.contains(m)] moves@.contains(m) <==> (start.contains(m) || (
            piece_move(kind, c, occ, own, pieces, m) && !sq_in(rem, m.from as int))) by {
                if m.from < 64 {
                    assert(sq_in(rem, m.from as int) == (sq_in(old_rem, m.from as int) && m.from != from_sq));
                }
                assert(moves@.contains(m) == (before.contains(m) || (m == quiet(from_sq as int, m.to as int)
                    && sq_in(targets, m.to as int))));
                if m.to < 64 {
                    assert(sq_in(targets, m.to as int) == (sq_in(attacks, m.to as int) && !sq_in(own, m.to as int)));
                }
            }
            assert forall|t: int| sq_in(rem, t) implies sq_in(pieces, t) by {
                assert(sq_in(old_rem, t));
            }
            assert(sq_in(old_rem, from_sq as int));
            assert forall|i: int, j: int| start.len() <= i < j < moves.len() implies move_before(moves@[i], moves@[j]) by {
                if j < before.len() {
                    assert(moves@[i] == before[i] && moves@[j] == before[j]);
                } else if i < before.len() {
                    assert(moves@[i] == before[i]);
                    assert(before[i].from < from_sq as int);
                    assert(moves@[j].from == from_sq);
                }
            }
            assert forall|i: int, t: int| start.len() <= i < moves.len() && #[trigger] sq_in(rem, t) implies #[trigger] moves@[i].from < t by {
                assert(sq_in(rem, t) == (sq_in(old_rem, t) && t != from_sq as int));
                if i < before.len() {
                    assert(moves@[i] == before[i]);
                } else {
                    assert(moves@[i].from == from_sq);
                    if t < from_sq as int {
                        assert(!sq_in(old_rem, t));
                    }
                }
            }
            assert forall|i: int| start.len() <= i < moves.len() implies sq_in(pieces, moves@[i].from as int)
                && !sq_in(rem, moves@[i].from as int) by {
                if i < before.len() {
                    assert(moves@[i] == before[i]);
                }
            }
        }
    }
    proof {
        assert forall|m: Move| #![trigger moves@.contains(m)] moves@.contains(m) <==> (start.contains(m)
            || piece_move(kind, c, occ, own, pieces, m)) by {
            if 0 <= m.from < 64 {
                assert(!sq_in(0u64, m.from as int));
            }
        }
    }
}

} // verus!
