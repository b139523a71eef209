use vstd::prelude::*;
use vstd::std_specs::bits::u64_trailing_zeros;
use crate::bits::{sq_in, group_bits, lemma_sq_shl, lemma_sq_shr, lemma_masks, NOT_A_FILE, NOT_H_FILE, RANK_3, RANK_6};
use crate::types::{Bitboard, Color, Move, PieceKind};
use crate::board::Board;
use crate::intrinsics::lemma_clear_lowest;
use crate::game::check::occupancy;
use crate::moves::attacks::{
    pawn_attack_step, pawn_push_step, pawn_double_step, leaper_attacks, Leaper, leaper_step, rank_of,
    file_of, forward,
};
use crate::moves::gen::push_new;

verus! {

broadcast use group_bits;

/// The squares a pawn of colour `color` on `square` attacks.
pub fn get_pawn_attacks(square: u8, color: Color) -> (r: Bitboard)
    requires
        square < 64,
    ensures
        forall|t: int| #[trigger] sq_in(r, t) == pawn_attack_step(color, square as int, t),
{
    let r = leaper_attacks(Leaper::PawnAttack, color, square);
    assert forall|t: int| #[trigger] sq_in(r, t) == pawn_attack_step(color, square as int, t) by {
        assert(leaper_step(Leaper::PawnAttack, color, square as int, t) == pawn_attack_step(color, square as int, t));
    }
    r
}

/// The square a pawn of colour `color` on `square` advances to.
pub fn get_pawn_moves(square: u8, color: Color) -> (r: Bitboard)
    requires
        square < 64,
    ensures
        forall|t: int| #[trigger] sq_in(r, t) == pawn_push_step(color, square as int, t),
{
    let r = leaper_attacks(Leaper::PawnPush, color, square);
    assert forall|t: int| #[trigger] sq_in(r, t) == pawn_push_step(color, square as int, t) by {
        assert(leaper_step(Leaper::PawnPush, color, square as int, t) == pawn_push_step(color, square as int, t));
    }
    r
}

/// The square a pawn of colour `color` on `square` reaches with a double
/// step from its start rank (empty elsewhere).
pub fn get_pawn_double_moves(square: u8, color: Color) -> (r: Bitboard)
    requires
        square < 64,
    ensures
        forall|t: int| #[trigger] sq_in(r, t) == pawn_double_step(color, square as int, t),
{
    let r = leaper_attacks(Leaper::PawnDouble, color, square);
    assert forall|t: int| #[trigger] sq_in(r, t) == pawn_double_step(color, square as int, t) by {
        assert(leaper_step(Leaper::PawnDouble, color, square as int, t) == pawn_double_step(color, square as int, t));
    }
    r
}

/// The squares from which a pawn of colour `color` attacks `square`.
pub fn get_pawn_attackers(square: u8, color: Color) -> (r: Bitboard)
    requires
        square < 64,
    ensures
        forall|a: int| #[trigger] sq_in(r, a) == pawn_attack_step(color, a, square as int),
{
    let r = get_pawn_attacks(square, color.opposite());
    assert forall|a: int| #[trigger] sq_in(r, a) == pawn_attack_step(color, a, square as int) by {
        assert(pawn_attack_step(color.flip(), square as int, a) == pawn_attack_step(color, a, square as int));
    }
    r
}

/// The rank on which pawns of colour `c` promote.
pub open spec fn promo_rank(c: Color) -> int {
    match c {
        Color::White => 7,
        Color::Black => 0,
    }
}

/// The promotion of a pawn move to `to`: a queen, rook, bishop or knight on
/// the last rank, none elsewhere.
pub open spec fn promo_ok(c: Color, to: int, p: Option<PieceKind>) -> bool {
    if rank_of(to) == promo_rank(c) {
        p matches Some(k) && (k == PieceKind::Queen || k == PieceKind::Rook || k == PieceKind::Bishop || k
            == PieceKind::Knight)
    } else {
        p is None
    }
}

/// The rank of the target square when colour `c` takes en passant.
pub open spec fn ep_rank(c: Color) -> int {
    match c {
        Color::White => 5,
        Color::Black => 2,
    }
}

/// `m` is a pawn capture of the side to move: onto a piece of the other
/// side, or en passant onto the target square.
pub open spec fn pawn_capture(b: Board, m: Move) -> bool {
    let c = b.to_move;
    let from = m.from as int;
    let to = m.to as int;
    &&& sq_in(b.pawns & b.color_bb(c), from)
    &&& !m.is_castling
    &&& pawn_attack_step(c, from, to)
    &&& if m.is_en_passant {
        b.en_passant_target == Some(m.to) && rank_of(to) == ep_rank(c) && m.promotion is None
    } else {
        sq_in(b.color_bb(c.flip()), to) && promo_ok(c, to, m.promotion)
    }
}

/// `m` is a pawn move of the side to move: a capture, or a step (one square,
/// or two from the start rank over an empty square) onto an empty square.
pub open spec fn pawn_move(b: Board, m: Move) -> bool {
    let c = b.to_move;
    let from = m.from as int;
    let to = m.to as int;
    let occ = occupancy(b);
    ||| pawn_capture(b, m)
    ||| (sq_in(b.pawns & b.color_bb(c), from) && !m.is_castling && !m.is_en_passant && promo_ok(c, to, m.promotion)
        && !sq_in(occ, to) && (pawn_push_step(c, from, to) || (pawn_double_step(c, from, to) && !sq_in(
        occ,
        from + 8 * forward(c),
    ))))
}

/// Pawn steps in terms of square numbers.
pub proof fn lemma_pawn_geometry(f: int, t: int)
    requires
        0 <= f < 64,
        0 <= t < 64,
    ensures
        pawn_attack_step(Color::White, f, t) <==> ((t == f + 9 && f % 8 != 7) || (t == f + 7 && f % 8 != 0)),
        pawn_attack_step(Color::Black, f, t) <==> ((t == f - 7 && f % 8 != 7) || (t == f - 9 && f % 8 != 0)),
        pawn_push_step(Color::White, f, t) <==> t == f + 8,
        pawn_push_step(Color::Black, f, t) <==> t == f - 8,
        pawn_double_step(Color::White, f, t) <==> (t == f + 16 && f / 8 == 1),
        pawn_double_step(Color::Black, f, t) <==> (t == f - 16 && f / 8 == 6),
        rank_of(t) == 7 <==> t >= 56,
        rank_of(t) == 0 <==> t < 8,
{
    let ff = f % 8;
    let fr = f / 8;
    let tf = t % 8;
    let tr = t / 8;
    assert(f == 8 * fr + ff && 0 <= ff < 8);
    assert(t == 8 * tr + tf && 0 <= tf < 8);
}

/// The square `back` squares behind `to` for a pawn of colour `c`.
pub open spec fn origin(c: Color, to: int, back: int) -> int {
    match c {
        Color::White => to - back,
        Color::Black => to + back,
    }
}

/// `m` takes a pawn of colour `c` from `from` to `to`, promoting as it must.
pub open spec fn pawn_step_move(c: Color, from: int, to: int, m: Move) -> bool {
    &&& m.from == from
    &&& m.to == to
    &&& !m.is_castling
    &&& !m.is_en_passant
    &&& promo_ok(c, to, m.promotion)
}

/// `m` takes a pawn of colour `c` to a square of `targets` from `back`
/// squares behind it.
pub open spec fn target_move(c: Color, back: int, targets: u64, m: Move) -> bool {
    sq_in(targets, m.to as int) && pawn_step_move(c, origin(c, m.to as int, back), m.to as int, m)
}

/// Appends the pawn move from `from` to `to`, as the four promotions on the
/// last rank.
fn push_pawn_step(moves: &mut Vec<Move>, from: u8, to: u8, c: Color)
    requires
        to < 64,
        old(moves)@.no_duplicates(),
        forall|i: int| 0 <= i < old(moves).len() ==> !pawn_step_move(c, from as int, to as int, old(moves)@[i]),
    ensures
        final(moves)@.no_duplicates(),
        final(moves).len() >= old(moves).len(),
        forall|i: int| 0 <= i < old(moves).len() ==> final(moves)@[i] == old(moves)@[i],
        forall|i: int|
            old(moves).len() <= i < final(moves).len() ==> pawn_step_move(c, from as int, to as int, final(moves)@[i]),
        forall|m: Move|
            #![trigger final(moves)@.contains(m)]
            final(moves)@.contains(m) <==> (old(moves)@.contains(m) || pawn_step_move(c, from as int, to as int, m)),
{
    let ghost start = moves@;
    let promotes = match c {
        Color::White => to >= 56,
        Color::Black => to <= 7,
    };
    proof {
        assert forall|m: Move| pawn_step_move(c, from as int, to as int, m) implies !start.contains(m) by {
            if start.contains(m) {
                let i = choose|i: int| 0 <= i < start.len() && start[i] == m;
            }
        }
    }
    if promotes {
        push_new(moves, Move { from, to, promotion: Some(PieceKind::Queen), is_castling: false, is_en_passant: false });
        push_new(moves, Move { from, to, promotion: Some(PieceKind::Rook), is_castling: false, is_en_passant: false });
        push_new(moves, Move { from, to, promotion: Some(PieceKind::Bishop), is_castling: false, is_en_passant: false });
        push_new(moves, Move { from, to, promotion: Some(PieceKind::Knight), is_castling: false, is_en_passant: false });
    } else {
        push_new(moves, Move { from, to, promotion: None, is_castling: false, is_en_passant: false });
    }
    proof {
        assert forall|i: int| start.len() <= i < moves.len() implies pawn_step_move(c, from as int, to as int, moves@[i]) by {
            assert(moves@.contains(moves@[i]));
            if start.contains(moves@[i]) {
                let j = choose|j: int| 0 <= j < start.len() && start[j] == moves@[i];
                assert(moves@[j] == start[j]);
            }
        }
    }
}

/// Appends the pawn moves of colour `c` to each square of `targets` from
/// `back` squares behind it, lowest target first.
fn push_pawn_targets(moves: &mut Vec<Move>, targets: u64, c: Color, back: u8)
    requires
        back <= 16,
        forall|t: int| sq_in(targets, t) ==> 0 <= #[trigger] origin(c, t, back as int) < 64,
        old(moves)@.no_duplicates(),
        forall|i: int| 0 <= i < old(moves).len() ==> !target_move(c, back as int, targets, old(moves)@[i]),
    ensures
        final(moves)@.no_duplicates(),
        final(moves).len() >= old(moves).len(),
        forall|i: int| 0 <= i < old(moves).len() ==> final(moves)@[i] == old(moves)@[i],
        forall|i: int|
            old(moves).len() <= i < final(moves).len() ==> target_move(c, back as int, targets, final(moves)@[i]),
        forall|m: Move|
            #![trigger final(moves)@.contains(m)]
            final(moves)@.contains(m) <==> (old(moves)@.contains(m) || target_move(c, back as int, targets, m)),
{
    let ghost start = moves@;
    let mut rem = targets;
    while rem != 0
        invariant
            back <= 16,
            forall|t: int| sq_in(targets, t) ==> 0 <= #[trigger] origin(c, t, back as int) < 64,
            moves@.no_duplicates(),
            moves.len() >= start.len(),
            forall|i: int| 0 <= i < start.len() ==> moves@[i] == start[i],
            forall|i: int| 0 <= i < start.len() ==> !target_move(c, back as int, targets, start[i]),
            forall|i: int|
                start.len() <= i < moves.len() ==> target_move(c, back as int, targets, moves@[i]) && !sq_in(
                    rem,
                    moves@[i].to as int,
                ),
            forall|t: int| sq_in(rem, t) ==> sq_in(targets, t),
            forall|m: Move|
                #![trigger moves@.contains(m)]
                moves@.contains(m) <==> (start.contains(m) || (target_move(c, back as int, targets, m) && !sq_in(
                    rem,
                    m.to as int,
                ))),
        decreases rem,
    {
        proof {
            lemma_clear_lowest(rem);
        }
        let to_sq = rem.trailing_zeros() as u8;
        proof {
            assert(0 <= origin(c, to_sq as int, back as int) < 64);
        }
        let from_sq: u8 = match c {
            Color::White => to_sq - back,
            Color::Black => to_sq + back,
        };
        let ghost before = moves@;
        let ghost old_rem = rem;
        proof {
            assert forall|i: int| 0 <= i < moves.len() implies !pawn_step_move(c, from_sq as int, to_sq as int, moves@[i]) by {
                if i < start.len() {
                    assert(!target_move(c, back as int, targets, start[i]));
                } else {
                    assert(!sq_in(rem, moves@[i].to as int));
                }
            }
        }
        push_pawn_step(moves, from_sq, to_sq, c);
        rem = rem & (rem - 1);
        proof {
            assert forall|m: Move| #![trigger moves@.contains(m)] moves@.contains(m) <==> (start.contains(m) || (
            target_move(c, back as int, targets, m) && !sq_in(rem, m.to as int))) by {
                if m.to < 64 {
                    assert(sq_in(rem, m.to as int) == (sq_in(old_rem, m.to as int) && m.to != to_sq));
                }
                assert(moves@.contains(m) == (before.contains(m) || pawn_step_move(c, from_sq as int, to_sq as int, m)));
            }
            assert forall|t: int| sq_in(rem, t) implies sq_in(targets, t) by {
                assert(sq_in(old_rem, t));
            }
            assert forall|i: int| start.len() <= i < moves.len() implies target_move(c, back as int, targets, moves@[i])
                && !sq_in(rem, moves@[i].to as int) by {
                if i < before.len() {
                    assert(moves@[i] == before[i]);
                }
            }
        }
    }
    proof {
        assert forall|m: Move| #![trigger moves@.contains(m)] moves@.contains(m) <==> (start.contains(m)
            || target_move(c, back as int, targets, m)) by {
            if 0 <= m.to < 64 {
                assert(!sq_in(0u64, m.to as int));
            }
        }
    }
}

/// Appends the en passant capture from `from` onto the target square `to`
/// when a pawn of `our_pawns` stands on `from`.
fn push_en_passant(moves: &mut Vec<Move>, our_pawns: u64, from: u8, to: u8)
    requires
        from < 64,
        old(moves)@.no_duplicates(),
        sq_in(our_pawns, from as int) ==> !old(moves)@.contains(
            Move { from, to, promotion: None, is_castling: false, is_en_passant: true },
        ),
    ensures
        final(moves)@.no_duplicates(),
        final(moves).len() >= old(moves).len(),
        forall|i: int| 0 <= i < old(moves).len() ==> final(moves)@[i] == old(moves)@[i],
        forall|i: int|
            old(moves).len() <= i < final(moves).len() ==> final(moves)@[i] == (Move {
                from,
                to,
                promotion: None,
                is_castling: false,
                is_en_passant: true,
            }),
        forall|m: Move|
            #![trigger final(moves)@.contains(m)]
            final(moves)@.contains(m) <==> (old(moves)@.contains(m) || (sq_in(our_pawns, from as int) && m == (Move {
                from,
                to,
                promotion: None,
                is_castling: false,
                is_en_passant: true,
            }))),
{
    let mv = Move { from, to, promotion: None, is_castling: false, is_en_passant: true };
    if (our_pawns & (1u64 << from)) != 0 {
        push_new(moves, mv);
    }
}

/// Appends the pawn captures of the side to move: onto the other side's
/// pieces (the four promotions on the last rank), and en passant.
pub fn generate_pawn_captures_into(board: &Board, moves: &mut Vec<Move>)
    requires
        old(moves)@.no_duplicates(),
        forall|i: int| 0 <= i < old(moves).len() ==> !pawn_capture(*board, old(moves)@[i]),
    ensures
        final(moves)@.no_duplicates(),
        final(moves).len() >= old(moves).len(),
        forall|i: int| 0 <= i < old(moves).len() ==> final(moves)@[i] == old(moves)@[i],
        forall|i: int| old(moves).len() <= i < final(moves).len() ==> pawn_capture(*board, final(moves)@[i]),
        forall|m: Move|
            #![trigger final(moves)@.contains(m)]
            final(moves)@.contains(m) <==> (old(moves)@.contains(m) || pawn_capture(*board, m)),
{
    let ghost start = moves@;
    let ghost b = *board;
    proof {
        lemma_masks();
    }
    if board.to_move == Color::White {
        let our_pawns = board.pawns & board.white_pieces;
        let right_src = our_pawns & NOT_H_FILE;
        let right_shifted = right_src << 9u64;
        let right = right_shifted & board.black_pieces;
        proof {
            lemma_sq_shl(right_src, 9);
            assert forall|t: int| sq_in(right, t) implies 0 <= #[trigger] origin(Color::White, t, 9) < 64 by {
                assert(sq_in(right_shifted, t));
            }
            assert forall|m: Move| #[trigger] target_move(Color::White, 9, right, m) <==> (pawn_capture(b, m)
                && !m.is_en_passant && m.to == m.from + 9) by {
                if m.from < 64 && m.to < 64 {
                    lemma_pawn_geometry(m.from as int, m.to as int);
                    let f = m.from as int;
                    let t = m.to as int;
                    assert(sq_in(right_shifted, t) == (9 <= t && sq_in(right_src, t - 9)));
                    if 9 <= t {
                        assert(sq_in(right_src, t - 9) == (sq_in(our_pawns, t - 9) && sq_in(NOT_H_FILE, t - 9)));
                    }
                    assert(sq_in(right_src, f) == (sq_in(our_pawns, f) && sq_in(NOT_H_FILE, f)));
                    assert(sq_in(our_pawns, f) == (sq_in(board.pawns, f) && sq_in(board.white_pieces, f)));
                }
                if m.to < 64 {
                    assert(sq_in(right, m.to as int) == (sq_in(right_shifted, m.to as int) && sq_in(board.black_pieces, m.to as int)));
                }
                if target_move(Color::White, 9, right, m) {
                    assert(sq_in(right_src, origin(Color::White, m.to as int, 9)));
                }
            }
        }
        push_pawn_targets(moves, right, Color::White, 9);
        let ghost mid = moves@;
        let left_src = our_pawns & NOT_A_FILE;
        let left_shifted = left_src << 7u64;
        let left = left_shifted & board.black_pieces;
        proof {
            lemma_sq_shl(left_src, 7);
            assert forall|t: int| sq_in(left, t) implies 0 <= #[trigger] origin(Color::White, t, 7) < 64 by {
                assert(sq_in(left_shifted, t));
            }
            assert forall|m: Move| #[trigger] target_move(Color::White, 7, left, m) <==> (pawn_capture(b, m)
                && !m.is_en_passant && m.to == m.from + 7) by {
                if m.from < 64 && m.to < 64 {
                    lemma_pawn_geometry(m.from as int, m.to as int);
                    let f = m.from as int;
                    let t = m.to as int;
                    assert(sq_in(left_shifted, t) == (7 <= t && sq_in(left_src, t - 7)));
                    if 7 <= t {
                        assert(sq_in(left_src, t - 7) == (sq_in(our_pawns, t - 7) && sq_in(NOT_A_FILE, t - 7)));
                    }
                    assert(sq_in(left_src, f) == (sq_in(our_pawns, f) && sq_in(NOT_A_FILE, f)));
                    assert(sq_in(our_pawns, f) == (sq_in(board.pawns, f) && sq_in(board.white_pieces, f)));
                }
                if m.to < 64 {
                    assert(sq_in(left, m.to as int) == (sq_in(left_shifted, m.to as int) && sq_in(board.black_pieces, m.to as int)));
                }
                if target_move(Color::White, 7, left, m) {
                    assert(sq_in(left_src, origin(Color::White, m.to as int, 7)));
                }
            }
            assert forall|i: int| 0 <= i < moves.len() implies !target_move(Color::White, 7, left, moves@[i]) by {
                if i < start.len() {
                    assert(moves@[i] == start[i]);
                }
            }
        }
        push_pawn_targets(moves, left, Color::White, 7);
        let ghost mid2 = moves@;
        if let Some(ep_target) = board.en_passant_target {
            let ep_rank = ep_target / 8;
            if ep_rank == 5 {
                if ep_target % 8 > 0 {
                    let from_sq = ep_target - 9;
                    if from_sq / 8 == 4 {
                        proof {
                            let mv = Move { from: from_sq, to: ep_target, promotion: None, is_castling: false, is_en_passant: true };
                            if sq_in(our_pawns, from_sq as int) {
                                lemma_pawn_geometry(from_sq as int, ep_target as int);
                                assert(sq_in(our_pawns, from_sq as int) == (sq_in(board.pawns, from_sq as int) && sq_in(
                                    b.color_bb(b.to_move),
                                    from_sq as int,
                                )));
                                assert(pawn_capture(b, mv));
                                if start.contains(mv) {
                                    let k = choose|k: int| 0 <= k < start.len() && start[k] == mv;
                                    assert(!pawn_capture(b, start[k]));
                                }
                            }
                        }
                        push_en_passant(moves, our_pawns, from_sq, ep_target);
                    }
                }
                if ep_target % 8 < 7 {
                    let from_sq = ep_target - 7;
                    if from_sq / 8 == 4 {
                        proof {
                            let mv = Move { from: from_sq, to: ep_target, promotion: None, is_castling: false, is_en_passant: true };
                            if sq_in(our_pawns, from_sq as int) {
                                lemma_pawn_geometry(from_sq as int, ep_target as int);
                                assert(sq_in(our_pawns, from_sq as int) == (sq_in(board.pawns, from_sq as int) && sq_in(
                                    b.color_bb(b.to_move),
                                    from_sq as int,
                                )));
                                assert(pawn_capture(b, mv));
                                if start.contains(mv) {
                                    let k = choose|k: int| 0 <= k < start.len() && start[k] == mv;
                                    assert(!pawn_capture(b, start[k]));
                                }
                            }
                        }
                        push_en_passant(moves, our_pawns, from_sq, ep_target);
                    }
                }
            }
        }
        proof {
            assert forall|m: Move| #![trigger moves@.contains(m)] moves@.contains(m) <==> (start.contains(m)
                || pawn_capture(b, m)) by {
                if pawn_capture(b, m) && !m.is_en_passant {
                    assert(m.to == m.from + 9 || m.to == m.from + 7);
                    assert(mid2.contains(m));
                }
            }
            assert forall|i: int| start.len() <= i < moves.len() implies pawn_capture(b, moves@[i]) by {
                assert(moves@.contains(moves@[i]));
                if start.contains(moves@[i]) {
                    let j = choose|j: int| 0 <= j < start.len() && start[j] == moves@[i];
                    assert(moves@[j] == start[j]);
                }
            }
        }
    } else {
        let our_pawns = board.pawns & board.black_pieces;
        let right_src = our_pawns & NOT_H_FILE;
        let right_shifted = right_src >> 7u64;
        let right = right_shifted & board.white_pieces;
        proof {
            lemma_sq_shr(right_src, 7);
            assert forall|t: int| sq_in(right, t) implies 0 <= #[trigger] origin(Color::Black, t, 7) < 64 by {
                assert(sq_in(right_shifted, t));
            }
            assert forall|m: Move| #[trigger] target_move(Color::Black, 7, right, m) <==> (pawn_capture(b, m)
                && !m.is_en_passant && m.from == m.to + 7) by {
                if m.from < 64 && m.to < 64 {
                    lemma_pawn_geometry(m.from as int, m.to as int);
                    let f = m.from as int;
                    let t = m.to as int;
                    assert(sq_in(right_shifted, t) == (t + 7 < 64 && sq_in(right_src, t + 7)));
                    if t + 7 < 64 {
                        assert(sq_in(right_src, t + 7) == (sq_in(our_pawns, t + 7) && sq_in(NOT_H_FILE, t + 7)));
                    }
                    assert(sq_in(right_src, f) == (sq_in(our_pawns, f) && sq_in(NOT_H_FILE, f)));
                    assert(sq_in(our_pawns, f) == (sq_in(board.pawns, f) && sq_in(board.black_pieces, f)));
                }
                if m.to < 64 {
                    assert(sq_in(right, m.to as int) == (sq_in(right_shifted, m.to as int) && sq_in(board.white_pieces, m.to as int)));
                }
                if target_move(Color::Black, 7, right, m) {
                    assert(sq_in(right_src, origin(Color::Black, m.to as int, 7)));
                }
            }
        }
        push_pawn_targets(moves, right, Color::Black, 7);
        let ghost mid = moves@;
        let left_src = our_pawns & NOT_A_FILE;
        let left_shifted = left_src >> 9u64;
        let left = left_shifted & board.white_pieces;
        proof {
            lemma_sq_shr(left_src, 9);
            assert forall|t: int| sq_in(left, t) implies 0 <= #[trigger] origin(Color::Black, t, 9) < 64 by {
                assert(sq_in(left_shifted, t));
            }
            assert forall|m: Move| #[trigger] target_move(Color::Black, 9, left, m) <==> (pawn_capture(b, m)
                && !m.is_en_passant && m.from == m.to + 9) by {
                if m.from < 64 && m.to < 64 {
                    lemma_pawn_geometry(m.from as int, m.to as int);
                    let f = m.from as int;
                    let t = m.to as int;
                    assert(sq_in(left_shifted, t) == (t + 9 < 64 && sq_in(left_src, t + 9)));
                    if t + 9 < 64 {
                        assert(sq_in(left_src, t + 9) == (sq_in(our_pawns, t + 9) && sq_in(NOT_A_FILE, t + 9)));
                    }
                    assert(sq_in(left_src, f) == (sq_in(our_pawns, f) && sq_in(NOT_A_FILE, f)));
                    assert(sq_in(our_pawns, f) == (sq_in(board.pawns, f) && sq_in(board.black_pieces, f)));
                }
                if m.to < 64 {
                    assert(sq_in(left, m.to as int) == (sq_in(left_shifted, m.to as int) && sq_in(board.white_pieces, m.to as int)));
                }
                if target_move(Color::Black, 9, left, m) {
                    assert(sq_in(left_src, origin(Color::Black, m.to as int, 9)));
                }
            }
            assert forall|i: int| 0 <= i < moves.len() implies !target_move(Color::Black, 9, left, moves@[i]) by {
                if i < start.len() {
                    assert(moves@[i] == start[i]);
                }
            }
        }
        push_pawn_targets(moves, left, Color::Black, 9);
        let ghost mid2 = moves@;
        if let Some(ep_target) = board.en_passant_target {
            let ep_rank = ep_target / 8;
            if ep_rank == 2 {
                if ep_target % 8 > 0 {
                    let from_sq = ep_target + 7;
                    if from_sq / 8 == 3 {
                        proof {
                            let mv = Move { from: from_sq, to: ep_target, promotion: None, is_castling: false, is_en_passant: true };
                            if sq_in(our_pawns, from_sq as int) {
                                lemma_pawn_geometry(from_sq as int, ep_target as int);
                                assert(sq_in(our_pawns, from_sq as int) == (sq_in(board.pawns, from_sq as int) && sq_in(
                                    b.color_bb(b.to_move),
                                    from_sq as int,
                                )));
                                assert(pawn_capture(b, mv));
                                if start.contains(mv) {
                                    let k = choose|k: int| 0 <= k < start.len() && start[k] == mv;
                                    assert(!pawn_capture(b, start[k]));
                                }
                            }
                        }
                        push_en_passant(moves, our_pawns, from_sq, ep_target);
                    }
                }
                if ep_target % 8 < 7 {
                    let from_sq = ep_target + 9;
                    if from_sq / 8 == 3 {
                        proof {
                            let mv = Move { from: from_sq, to: ep_target, promotion: None, is_castling: false, is_en_passant: true };
                            if sq_in(our_pawns, from_sq as int) {
                                lemma_pawn_geometry(from_sq as int, ep_target as int);
                                assert(sq_in(our_pawns, from_sq as int) == (sq_in(board.pawns, from_sq as int) && sq_in(
                                    b.color_bb(b.to_move),
                                    from_sq as int,
                                )));
                                assert(pawn_capture(b, mv));
                                if start.contains(mv) {
                                    let k = choose|k: int| 0 <= k < start.len() && start[k] == mv;
                                    assert(!pawn_capture(b, start[k]));
                                }
                            }
                        }
                        push_en_passant(moves, our_pawns, from_sq, ep_target);
                    }
                }
            }
        }
        proof {
            assert forall|m: Move| #![trigger moves@.contains(m)] moves@.contains(m) <==> (start.contains(m)
                || pawn_capture(b, m)) by {
                if pawn_capture(b, m) && !m.is_en_passant {
                    assert(m.from == m.to + 7 || m.from == m.to + 9);
                    assert(mid2.contains(m));
                }
            }
            assert forall|i: int| start.len() <= i < moves.len() implies pawn_capture(b, moves@[i]) by {
                assert(moves@.contains(moves@[i]));
                if start.contains(moves@[i]) {
                    let j = choose|j: int| 0 <= j < start.len() && start[j] == moves@[i];
                    assert(moves@[j] == start[j]);
                }
            }
        }
    }
}

/// Appends the pawn moves of the side to move: single steps, double steps,
/// then captures; a move to the last rank comes as its four promotions.
pub fn generate_pawn_moves_into(board: &Board, moves: &mut Vec<Move>)
    requires
        old(moves)@.no_duplicates(),
        forall|i: int|
            0 <= i < old(moves).len() ==> !sq_in(board.pawns & board.color_bb(board.to_move), old(moves)@[i].from as int),
    ensures
        final(moves)@.no_duplicates(),
        final(moves).len() >= old(moves).len(),
        forall|i: int| 0 <= i < old(moves).len() ==> final(moves)@[i] == old(moves)@[i],
        forall|i: int|
            old(moves).len() <= i < final(moves).len() ==> sq_in(
                board.pawns & board.color_bb(board.to_move),
                final(moves)@[i].from as int,
            ),
        forall|m: Move|
            #![trigger final(moves)@.contains(m)]
            final(moves)@.contains(m) <==> (old(moves)@.contains(m) || pawn_move(*board, m)),
{
    let ghost start = moves@;
    let ghost b = *board;
    let all_pieces = board.white_pieces | board.black_pieces;
    proof {
        lemma_masks();
    }
    if board.to_move == Color::White {
        let our_pawns = board.pawns & board.white_pieces;
        let single_shift = our_pawns << 8u64;
        let single_push = single_shift & !all_pieces;
        proof {
            lemma_sq_shl(our_pawns, 8);
            assert forall|t: int| sq_in(single_push, t) implies 0 <= #[trigger] origin(Color::White, t, 8) < 64 by {
                assert(sq_in(single_shift, t));
            }
            assert forall|m: Move| #[trigger] target_move(Color::White, 8, single_push, m) <==> (sq_in(our_pawns, m.from as int)
                && !m.is_castling && !m.is_en_passant && promo_ok(Color::White, m.to as int, m.promotion) && !sq_in(all_pieces, m.to as int)
                && pawn_push_step(Color::White, m.from as int, m.to as int)) by {
                if m.from < 64 && m.to < 64 {
                    lemma_pawn_geometry(m.from as int, m.to as int);
                    let t = m.to as int;
                    assert(sq_in(single_push, t) == (sq_in(single_shift, t) && !sq_in(all_pieces, t)));
                    assert(sq_in(single_shift, t) == (8 <= t && sq_in(our_pawns, t - 8)));
                }
            }
            assert forall|i: int| 0 <= i < moves.len() implies !target_move(Color::White, 8, single_push, moves@[i]) by {
                assert(!sq_in(board.pawns & board.color_bb(board.to_move), moves@[i].from as int));
            }
        }
        push_pawn_targets(moves, single_push, Color::White, 8);
        let ghost mid = moves@;
        let double_src = single_push & RANK_3;
        let double_shift = double_src << 8u64;
        let double_push = double_shift & !all_pieces;
        proof {
            lemma_sq_shl(double_src, 8);
            assert forall|t: int| sq_in(double_push, t) implies 0 <= #[trigger] origin(Color::White, t, 16) < 64 by {
                assert(sq_in(double_shift, t));
                assert(sq_in(double_src, t - 8));
                assert(sq_in(single_shift, t - 8));
            }
            assert forall|m: Move| #[trigger] target_move(Color::White, 16, double_push, m) <==> (sq_in(our_pawns, m.from as int)
                && !m.is_castling && !m.is_en_passant && promo_ok(Color::White, m.to as int, m.promotion) && !sq_in(all_pieces, m.to as int)
                && pawn_double_step(Color::White, m.from as int, m.to as int) && !sq_in(all_pieces, m.from + 8 * forward(Color::White))) by {
                if m.from < 64 && m.to < 64 {
                    lemma_pawn_geometry(m.from as int, m.to as int);
                    let t = m.to as int;
                    assert(sq_in(double_push, t) == (sq_in(double_shift, t) && !sq_in(all_pieces, t)));
                    assert(sq_in(double_shift, t) == (8 <= t && sq_in(double_src, t - 8)));
                    if 8 <= t {
                        let u = t - 8;
                        assert(sq_in(double_src, u) == (sq_in(single_push, u) && sq_in(RANK_3, u)));
                        assert(sq_in(single_push, u) == (sq_in(single_shift, u) && !sq_in(all_pieces, u)));
                        assert(sq_in(single_shift, u) == (8 <= u && sq_in(our_pawns, u - 8)));
                    }
                }
            }
            assert forall|i: int| 0 <= i < moves.len() implies !target_move(Color::White, 16, double_push, moves@[i]) by {
                if i < start.len() {
                    assert(moves@[i] == start[i]);
                    assert(!sq_in(board.pawns & board.color_bb(board.to_move), moves@[i].from as int));
                } else {
                    assert(target_move(Color::White, 8, single_push, moves@[i]));
                }
            }
        }
        push_pawn_targets(moves, double_push, Color::White, 16);
        let ghost mid2 = moves@;
        proof {
            assert forall|i: int| 0 <= i < moves.len() implies !pawn_capture(b, moves@[i]) by {
                let m = moves@[i];
                if m.from < 64 && m.to < 64 {
                    lemma_pawn_geometry(m.from as int, m.to as int);
                }
                if i < start.len() {
                    assert(moves@[i] == start[i]);
                    assert(!sq_in(board.pawns & board.color_bb(board.to_move), moves@[i].from as int));
                } else if i < mid.len() {
                    assert(moves@[i] == mid[i]);
                    assert(target_move(Color::White, 8, single_push, moves@[i]));
                } else {
                    assert(target_move(Color::White, 16, double_push, moves@[i]));
                }
            }
        }
        generate_pawn_captures_into(board, moves);
        proof {
            assert forall|m: Move| #![trigger moves@.contains(m)] moves@.contains(m) <==> (start.contains(m)
                || pawn_move(b, m)) by {
                if m.from < 64 && m.to < 64 {
                    lemma_pawn_geometry(m.from as int, m.to as int);
                }
                assert(mid.contains(m) == (start.contains(m) || target_move(Color::White, 8, single_push, m)));
                assert(mid2.contains(m) == (mid.contains(m) || target_move(Color::White, 16, double_push, m)));
            }
            assert forall|i: int| start.len() <= i < moves.len() implies sq_in(
                board.pawns & board.color_bb(board.to_move), moves@[i].from as int) by {
                assert(moves@.contains(moves@[i]));
                if start.contains(moves@[i]) {
                    let j = choose|j: int| 0 <= j < start.len() && start[j] == moves@[i];
                    assert(moves@[j] == start[j]);
                }
            }
        }
    } else {
        let our_pawns = board.pawns & board.black_pieces;
        let single_shift = our_pawns >> 8u64;
        let single_push = single_shift & !all_pieces;
        proof {
            lemma_sq_shr(our_pawns, 8);
            assert forall|t: int| sq_in(single_push, t) implies 0 <= #[trigger] origin(Color::Black, t, 8) < 64 by {
                assert(sq_in(single_shift, t));
            }
            assert forall|m: Move| #[trigger] target_move(Color::Black, 8, single_push, m) <==> (sq_in(our_pawns, m.from as int)
                && !m.is_castling && !m.is_en_passant && promo_ok(Color::Black, m.to as int, m.promotion) && !sq_in(all_pieces, m.to as int)
                && pawn_push_step(Color::Black, m.from as int, m.to as int)) by {
                if m.from < 64 && m.to < 64 {
                    lemma_pawn_geometry(m.from as int, m.to as int);
                    let t = m.to as int;
                    assert(sq_in(single_push, t) == (sq_in(single_shift, t) && !sq_in(all_pieces, t)));
                    assert(sq_in(single_shift, t) == (t + 8 < 64 && sq_in(our_pawns, t + 8)));
                }
            }
            assert forall|i: int| 0 <= i < moves.len() implies !target_move(Color::Black, 8, single_push, moves@[i]) by {
                assert(!sq_in(board.pawns & board.color_bb(board.to_move), moves@[i].from as int));
            }
        }
        push_pawn_targets(moves, single_push, Color::Black, 8);
        let ghost mid = moves@;
        let double_src = single_push & RANK_6;
        let double_shift = double_src >> 8u64;
        let double_push = double_shift & !all_pieces;
        proof {
            lemma_sq_shr(double_src, 8);
            assert forall|t: int| sq_in(double_push, t) implies 0 <= #[trigger] origin(Color::Black, t, 16) < 64 by {
                assert(sq_in(double_shift, t));
                assert(sq_in(double_src, t + 8));
                assert(sq_in(single_shift, t + 8));
            }
            assert forall|m: Move| #[trigger] target_move(Color::Black, 16, double_push, m) <==> (sq_in(our_pawns, m.from as int)
                && !m.is_castling && !m.is_en_passant && promo_ok(Color::Black, m.to as int, m.promotion) && !sq_in(all_pieces, m.to as int)
                && pawn_double_step(Color::Black, m.from as int, m.to as int) && !sq_in(all_pieces, m.from + 8 * forward(Color::Black))) by {
                if m.from < 64 && m.to < 64 {
                    lemma_pawn_geometry(m.from as int, m.to as int);
                    let t = m.to as int;
                    assert(sq_in(double_push, t) == (sq_in(double_shift, t) && !sq_in(all_pieces, t)));
                    assert(sq_in(double_shift, t) == (t + 8 < 64 && sq_in(double_src, t + 8)));
                    if t + 8 < 64 {
                        let u = t + 8;
                        assert(sq_in(double_src, u) == (sq_in(single_push, u) && sq_in(RANK_6, u)));
                        assert(sq_in(single_push, u) == (sq_in(single_shift, u) && !sq_in(all_pieces, u)));
                        assert(sq_in(single_shift, u) == (u + 8 < 64 && sq_in(our_pawns, u + 8)));
                    }
                }
            }
            assert forall|i: int| 0 <= i < moves.len() implies !target_move(Color::Black, 16, double_push, moves@[i]) by {
                if i < start.len() {
                    assert(moves@[i] == start[i]);
                    assert(!sq_in(board.pawns & board.color_bb(board.to_move), moves@[i].from as int));
                } else {
                    assert(target_move(Color::Black, 8, single_push, moves@[i]));
                }
            }
        }
        push_pawn_targets(moves, double_push, Color::Black, 16);
        let ghost mid2 = moves@;
        proof {
            assert forall|i: int| 0 <= i < moves.len() implies !pawn_capture(b, moves@[i]) by {
                let m = moves@[i];
                if m.from < 64 && m.to < 64 {
                    lemma_pawn_geometry(m.from as int, m.to as int);
                }
                if i < start.len() {
                    assert(moves@[i] == start[i]);
                    assert(!sq_in(board.pawns & board.color_bb(board.to_move), moves@[i].from as int));
                } else if i < mid.len() {
                    assert(moves@[i] == mid[i]);
                    assert(target_move(Color::Black, 8, single_push, moves@[i]));
                } else {
                    assert(target_move(Color::Black, 16, double_push, moves@[i]));
                }
            }
        }
        generate_pawn_captures_into(board, moves);
        proof {
            assert forall|m: Move| #![trigger moves@.contains(m)] moves@.contains(m) <==> (start.contains(m)
                || pawn_move(b, m)) by {
                if m.from < 64 && m.to < 64 {
                    lemma_pawn_geometry(m.from as int, m.to as int);
                }
                assert(mid.contains(m) == (start.contains(m) || target_move(Color::Black, 8, single_push, m)));
                assert(mid2.contains(m) == (mid.contains(m) || target_move(Color::Black, 16, double_push, m)));
            }
            assert forall|i: int| start.len() <= i < moves.len() implies sq_in(
                board.pawns & board.color_bb(board.to_move), moves@[i].from as int) by {
                assert(moves@.contains(moves@[i]));
                if start.contains(moves@[i]) {
                    let j = choose|j: int| 0 <= j < start.len() && start[j] == moves@[i];
                    assert(moves@[j] == start[j]);
                }
            }
        }
    }
}

/// The pawn moves of the side to move.
pub fn generate_pawn_moves(board: &Board) -> (moves: Vec<Move>)
    ensures
        moves@.no_duplicates(),
        forall|m: Move| #![trigger moves@.contains(m)] moves@.contains(m) <==> pawn_move(*board, m),
{
    let mut moves: Vec<Move> = Vec::with_capacity(16);
    generate_pawn_moves_into(board, &mut moves);
    moves
}

/// The pawn captures of the side to move, en passant included.
pub fn generate_pawn_captures(board: &Board) -> (moves: Vec<Move>)
    ensures
        moves@.no_duplicates(),
        forall|m: Move| #![trigger moves@.contains(m)] moves@.contains(m) <==> pawn_capture(*board, m),
{
    let mut moves: Vec<Move> = Vec::with_capacity(8);
    generate_pawn_captures_into(board, &mut moves);
    moves
}

} // verus!
