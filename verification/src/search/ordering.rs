use vstd::prelude::*;
use crate::bits::{pop, lemma_squares_finite, group_bits};
use crate::board::Board;
use crate::types::{Color, PieceKind, Piece, Move, UndoInfo, kind_value, kind_index};
use crate::intrinsics::popcount;
use crate::game::check::in_check_spec;
use crate::make_move::{made, move_shape_ok};
use crate::engine::eval::masks::{file_bits, file_mask};
use crate::search::evaluation::{knight_jumps, knight_attack_bits, dist};
use crate::search::transposition::TranspositionTable;

verus! {

broadcast use {vstd::seq_lib::group_to_multiset_ensures, group_bits};

/// The capture order value of `victim` taken by `attacker`: the victim's
/// value less a tenth of the attacker's.
pub open spec fn mvv_lva_spec(victim: PieceKind, attacker: PieceKind) -> int {
    kind_value(victim) - kind_value(attacker) / 10
}

/// The score by which captures are ordered: victim and attacker value
/// when both squares hold pieces, 0 otherwise.
pub open spec fn capture_score_spec(b: Board, m: Move) -> int {
    match (b.piece_at(m.to as int), b.piece_at(m.from as int)) {
        (Some(v), Some(a)) => mvv_lva_spec(v.kind, a.kind),
        _ => 0,
    }
}

/// The distance of square `s` from the centre, by file and rank.
pub open spec fn center_distance(s: int) -> int {
    let f = s % 8;
    let r = s / 8;
    (if f <= 3 {
        3 - f
    } else {
        f - 4
    }) + (if r <= 3 {
        3 - r
    } else {
        r - 4
    })
}

/// The order score of a quiet move: ten per step towards the centre,
/// plus the sum of its squares modulo 10 to break ties.
pub open spec fn quiet_score_spec(m: Move) -> int {
    (center_distance(m.from as int) - center_distance(m.to as int)) * 10 + (m.from + m.to) % 10
}

/// The basic order score of a move: the table move first, then captures,
/// en passant, promotions, castling, and quiet moves by centralisation.
pub open spec fn basic_score(b: Board, m: Move, tt_move: Option<Move>) -> int {
    if tt_move == Some(m) {
        1_000_000
    } else if b.piece_at(m.to as int) is Some && b.piece_at(m.from as int) is Some {
        900_000 + capture_score_spec(b, m)
    } else if m.promotion is Some {
        800_000 + kind_value(m.promotion->0)
    } else if m.is_en_passant {
        850_000
    } else if m.is_castling {
        700_000
    } else {
        quiet_score_spec(m)
    }
}

/// `s` is ordered by `f`, highest first.
pub open spec fn sorted_by(s: Seq<Move>, f: spec_fn(Move) -> int) -> bool {
    forall|i: int, j: int| 0 <= i < j < s.len() ==> f(s[i]) >= f(s[j])
}

/// The move gives check: it can be played and leaves the opponent's king
/// attacked.
pub open spec fn gives_check_spec(b: Board, m: Move) -> bool {
    &&& b.piece_at(m.from as int) is Some
    &&& move_shape_ok(b, m)
    &&& exists|a: Board, u: UndoInfo| made(b, m, a, u) && in_check_spec(a, b.to_move.flip())
}

/// Enemy pieces of colour `c`'s opponent on the file and the rank of `sq`.
pub open spec fn rook_count(b: Board, sq: int, c: Color) -> int {
    let enemy = b.color_bb(c.flip());
    (pop(enemy & file_bits(sq % 8)) + pop(enemy & (0xFFu64 << (((sq / 8) * 8) as u64)))) as int
}

/// The diagonal steps, as square offsets.
pub open spec fn diag_delta(k: int) -> int {
    if k == 0 {
        -9
    } else if k == 1 {
        -7
    } else if k == 2 {
        7
    } else {
        9
    }
}

/// Of the first `k` diagonal steps from `sq`, those landing on the board,
/// diagonally, on an enemy piece of `c`.
pub open spec fn bishop_count_upto(b: Board, sq: int, c: Color, k: int) -> int
    decreases k,
{
    if k <= 0 {
        0
    } else {
        let t = sq + diag_delta(k - 1);
        bishop_count_upto(b, sq, c, k - 1) + (if 0 <= t < 64 && dist(t % 8, sq % 8) == dist(t / 8, sq / 8)
            && b.color_bb(c.flip()) & (1u64 << (t as u64)) != 0 {
            1int
        } else {
            0int
        })
    }
}

/// Enemy pieces a knight on `sq` attacks.
pub open spec fn knight_count(b: Board, sq: int, c: Color) -> int {
    pop(knight_jumps(sq, 8) & b.color_bb(c.flip())) as int
}

/// The attack bonus of piece `p` arriving on `sq`.
pub open spec fn attacks_after_spec(b: Board, sq: int, p: Piece) -> int {
    match p.kind {
        PieceKind::Queen => (rook_count(b, sq, p.color) + bishop_count_upto(b, sq, p.color, 4)) * 15,
        PieceKind::Rook => rook_count(b, sq, p.color) * 10,
        PieceKind::Bishop => bishop_count_upto(b, sq, p.color, 4) * 8,
        PieceKind::Knight => knight_count(b, sq, p.color) * 12,
        _ => 0,
    }
}

/// The tactical bonus of a move, at most 40000: attacks of the moved
/// piece from its destination, 15 for a move off its file and rank that
/// may uncover an attack, 10 for moving a queen, rook or bishop.
pub open spec fn threats_spec(b: Board, m: Move) -> int {
    let a = match b.piece_at(m.from as int) {
        Some(p) => attacks_after_spec(b, m.to as int, p),
        None => 0,
    };
    let disc = if m.from % 8 != m.to % 8 && m.from / 8 != m.to / 8 {
        15int
    } else {
        0int
    };
    let pin = match b.piece_at(m.from as int) {
        Some(p) => if p.kind == PieceKind::Queen || p.kind == PieceKind::Rook || p.kind == PieceKind::Bishop {
            10int
        } else {
            0int
        },
        None => 0int,
    };
    let s = a + disc + pin;
    if s < 40000 {
        s
    } else {
        40000
    }
}

/// The order score of a move that gives no check, with killer and history
/// information: the table move, captures, promotions, en passant,
/// castling, killers, tactical threats, history, then centralisation.
pub open spec fn heuristic_score(b: Board, m: Move, tt_move: Option<Move>, is_killer: bool, history: int) -> int {
    if tt_move == Some(m) {
        1_000_000
    } else if b.piece_at(m.to as int) is Some && b.piece_at(m.from as int) is Some {
        900_000 + capture_score_spec(b, m)
    } else if m.promotion is Some {
        800_000 + kind_value(m.promotion->0)
    } else if m.is_en_passant {
        850_000
    } else if m.is_castling {
        700_000
    } else if is_killer {
        600_000
    } else if threats_spec(b, m) > 0 {
        550_000 + threats_spec(b, m)
    } else if history > 0 {
        500_000 + (if history / 10 < 50_000 {
            history / 10
        } else {
            50_000
        })
    } else {
        quiet_score_spec(m)
    }
}

/// Orders moves to find cutoffs early.
pub struct MoveOrderer {
    mvv_lva: [i32; 36],
}

/// The material value of the kind with index `i`.
fn value_at(i: usize) -> (r: i32)
    requires
        i < 6,
    ensures
        r == kind_value(kind_at(i as int)),
{
    if i == 0 {
        100
    } else if i == 1 {
        320
    } else if i == 2 {
        330
    } else if i == 3 {
        500
    } else if i == 4 {
        900
    } else {
        20000
    }
}

/// The kind with index `i`.
pub open spec fn kind_at(i: int) -> PieceKind {
    if i == 0 {
        PieceKind::Pawn
    } else if i == 1 {
        PieceKind::Knight
    } else if i == 2 {
        PieceKind::Bishop
    } else if i == 3 {
        PieceKind::Rook
    } else if i == 4 {
        PieceKind::Queen
    } else {
        PieceKind::King
    }
}

impl MoveOrderer {
    /// The capture table holds the order value of each victim and attacker.
    #[verifier::type_invariant]
    spec fn table_ok(self) -> bool {
        forall|v: int, a: int|
            0 <= v < 6 && 0 <= a < 6 ==> #[trigger] self.mvv_lva@[v * 6 + a] == mvv_lva_spec(kind_at(v), kind_at(a))
    }

    /// An orderer with its capture table filled.
    pub fn new() -> (r: Self) {
        let mut table = [0i32; 36];
        let mut victim: usize = 0;
        while victim < 6
            invariant
                victim <= 6,
                forall|v: int, a: int|
                    0 <= v < victim && 0 <= a < 6 ==> #[trigger] table@[v * 6 + a] == mvv_lva_spec(kind_at(v), kind_at(a)),
            decreases 6 - victim,
        {
            let mut attacker: usize = 0;
            while attacker < 6
                invariant
                    victim < 6,
                    attacker <= 6,
                    forall|v: int, a: int|
                        0 <= v < victim && 0 <= a < 6 ==> #[trigger] table@[v * 6 + a] == mvv_lva_spec(kind_at(v), kind_at(a)),
                    forall|a: int| 0 <= a < attacker ==> #[trigger] table@[victim * 6 + a] == mvv_lva_spec(kind_at(victim as int), kind_at(a)),
                decreases 6 - attacker,
            {
                table[victim * 6 + attacker] = value_at(victim) - value_at(attacker) / 10;
                attacker = attacker + 1;
            }
            victim = victim + 1;
        }
        MoveOrderer { mvv_lva: table }
    }

    /// The capture order value of `victim` taken by `attacker`.
    fn mvv_lva_score(&self, attacker: PieceKind, victim: PieceKind) -> (r: i32)
        ensures
            r == mvv_lva_spec(victim, attacker),
    {
        proof {
            use_type_invariant(self);
        }
        let a = self.piece_to_index(attacker);
        let v = self.piece_to_index(victim);
        proof {
            assert(kind_at(v as int) == victim);
            assert(kind_at(a as int) == attacker);
            assert(self.mvv_lva@[v * 6 + a] == mvv_lva_spec(kind_at(v as int), kind_at(a as int)));
        }
        self.mvv_lva[v * 6 + a]
    }

    fn piece_to_index(&self, piece: PieceKind) -> (r: usize)
        ensures
            r == kind_index(piece),
            r < 6,
            kind_at(r as int) == piece,
    {
        match piece {
            PieceKind::Pawn => 0,
            PieceKind::Knight => 1,
            PieceKind::Bishop => 2,
            PieceKind::Rook => 3,
            PieceKind::Queen => 4,
            PieceKind::King => 5,
        }
    }

    /// The distance of a square from the centre.
    fn distance_to_center(&self, square: u8) -> (r: i32)
        ensures
            r == center_distance(square as int),
            0 <= r <= 70,
    {
        let file = (square % 8) as i32;
        let rank = (square / 8) as i32;
        let file_dist = if file <= 3 {
            3 - file
        } else {
            file - 4
        };
        let rank_dist = if rank <= 3 {
            3 - rank
        } else {
            rank - 4
        };
        file_dist + rank_dist
    }

    /// The order score of a quiet move.
    fn quiet_move_score(&self, mv: Move, _board: &Board) -> (r: i32)
        ensures
            r == quiet_score_spec(mv),
    {
        let to_center_distance = self.distance_to_center(mv.to);
        let from_center_distance = self.distance_to_center(mv.from);
        let center_bonus = (from_center_distance - to_center_distance) * 10;
        let random_factor = (mv.from as i32 + mv.to as i32) % 10;
        center_bonus + random_factor
    }

    /// The basic order score of a move.
    fn score_move(&self, mv: Move, board: &Board, tt_move: Option<Move>, _ply: u8) -> (r: i32)
        requires
            board.wf(),
            mv.from < 64,
            mv.to < 64,
        ensures
            r == basic_score(*board, mv, tt_move),
    {
        if Some(mv) == tt_move {
            return 1_000_000;
        }
        if let Some(captured) = board.get_piece_at(mv.to) {
            if let Some(attacker) = board.get_piece_at(mv.from) {
                return 900_000 + self.mvv_lva_score(attacker.kind, captured.kind);
            }
        }
        if let Some(promotion) = mv.promotion {
            return 800_000 + promotion.value();
        }
        if mv.is_en_passant {
            return 850_000;
        }
        if mv.is_castling {
            return 700_000;
        }
        self.quiet_move_score(mv, board)
    }

    /// Sorts `moves` by `scores` (the score of each move), highest first.
    pub(crate) fn sort_by_scores(moves: Vec<Move>, scores: Vec<i32>, Ghost(f): Ghost<spec_fn(Move) -> int>) -> (r: Vec<Move>)
        requires
            moves.len() == scores.len(),
            forall|j: int| 0 <= j < moves.len() ==> #[trigger] scores@[j] == f(moves@[j]),
        ensures
            r@.to_multiset() == moves@.to_multiset(),
            sorted_by(r@, f),
    {
        let mut rem = moves;
        let mut rem_scores = scores;
        let mut out: Vec<Move> = Vec::new();
        let ghost all = rem@;
        while rem.len() > 0
            invariant
                rem.len() == rem_scores.len(),
                forall|j: int| 0 <= j < rem.len() ==> #[trigger] rem_scores@[j] == f(rem@[j]),
                out@.to_multiset().add(rem@.to_multiset()) == all.to_multiset(),
                sorted_by(out@, f),
                forall|i: int, j: int| 0 <= i < out.len() && 0 <= j < rem.len() ==> f(#[trigger] out@[i]) >= f(
                    #[trigger] rem@[j],
                ),
            decreases rem.len(),
        {
            let mut best: usize = 0;
            let mut j: usize = 1;
            while j < rem.len()
                invariant
                    rem.len() == rem_scores.len(),
                    best < rem.len(),
                    1 <= j <= rem.len(),
                    forall|k: int| 0 <= k < j ==> rem_scores@[k] <= rem_scores@[best as int],
                decreases rem.len() - j,
            {
                if rem_scores[j] > rem_scores[best] {
                    best = j;
                }
                j = j + 1;
            }
            let ghost rem0 = rem@;
            let ghost out0 = out@;
            proof {
                assert forall|k: int| 0 <= k < rem0.len() implies f(rem0[k]) <= f(rem0[best as int]) by {
                    assert(rem_scores@[k] == f(rem0[k]));
                    assert(rem_scores@[best as int] == f(rem0[best as int]));
                }
            }
            let x = rem.remove(best);
            let _ = rem_scores.remove(best);
            out.push(x);
            proof {
                assert(rem0.remove(best as int).to_multiset() =~= rem0.to_multiset().remove(x));
                assert(out@.to_multiset() =~= out0.to_multiset().insert(x));
                assert(rem0.to_multiset().contains(x));
                assert(out@.to_multiset().add(rem@.to_multiset()) =~= out0.to_multiset().add(rem0.to_multiset()));
                assert forall|i: int, k: int| 0 <= i < out.len() && 0 <= k < rem.len() implies f(
                    #[trigger] out@[i],
                ) >= f(#[trigger] rem@[k]) by {
                    let k0 = if k < best {
                        k
                    } else {
                        k + 1
                    };
                    assert(rem@[k] == rem0[k0]);
                    if i < out0.len() {
                        assert(out@[i] == out0[i]);
                    }
                }
                assert forall|a: int, c: int| 0 <= a < c < out.len() implies f(out@[a]) >= f(out@[c]) by {
                    if c < out0.len() {
                        assert(out@[a] == out0[a] && out@[c] == out0[c]);
                    } else {
                        assert(out@[c] == rem0[best as int]);
                        assert(out@[a] == out0[a]);
                    }
                }
                assert forall|k: int| 0 <= k < rem.len() implies #[trigger] rem_scores@[k] == f(rem@[k]) by {
                    let k0 = if k < best {
                        k
                    } else {
                        k + 1
                    };
                    assert(rem@[k] == rem0[k0]);
                }
            }
        }
        proof {
            assert(rem@.to_multiset() =~= vstd::multiset::Multiset::<Move>::empty());
            assert(out@.to_multiset().add(vstd::multiset::Multiset::<Move>::empty()) =~= out@.to_multiset());
        }
        out
    }

    /// The moves ordered by their basic score, highest first, with the
    /// best move stored in `tt` for the position first of all.
    pub fn order_moves(&self, moves: Vec<Move>, board: &Board, tt: &TranspositionTable, ply: u8) -> (r: Vec<Move>)
        requires
            board.wf(),
            forall|j: int| 0 <= j < moves.len() ==> #[trigger] moves@[j].from < 64 && moves@[j].to < 64,
        ensures
            r@.to_multiset() == moves@.to_multiset(),
            sorted_by(
                r@,
                |m: Move|
                    basic_score(
                        *board,
                        m,
                        if tt.entries().contains_key(board.zobrist_hash) {
                            tt.entries()[board.zobrist_hash].best_move
                        } else {
                            None
                        },
                    ),
            ),
    {
        let tt_move = tt.get_best_move(board.zobrist_hash);
        let ghost f = |m: Move| basic_score(*board, m, tt_move);
        let mut scores: Vec<i32> = Vec::new();
        let mut i: usize = 0;
        while i < moves.len()
            invariant
                board.wf(),
                i <= moves.len(),
                scores.len() == i,
                forall|j: int| 0 <= j < moves.len() ==> #[trigger] moves@[j].from < 64 && moves@[j].to < 64,
                f == (|m: Move| basic_score(*board, m, tt_move)),
                forall|j: int| 0 <= j < i ==> #[trigger] scores@[j] == f(moves@[j]),
            decreases moves.len() - i,
        {
            let s = self.score_move(moves[i], board, tt_move, ply);
            scores.push(s);
            i = i + 1;
        }
        Self::sort_by_scores(moves, scores, Ghost(f))
    }

    /// The order score of a capture: victim and attacker value.
    fn capture_score(&self, mv: Move, board: &Board) -> (r: i32)
        requires
            board.wf(),
            mv.from < 64,
            mv.to < 64,
        ensures
            r == capture_score_spec(*board, mv),
    {
        if let Some(captured) = board.get_piece_at(mv.to) {
            if let Some(attacker) = board.get_piece_at(mv.from) {
                return self.mvv_lva_score(attacker.kind, captured.kind);
            }
        }
        0
    }

    /// The captures ordered by victim and attacker value, highest first.
    pub fn order_captures(&self, captures: Vec<Move>, board: &Board) -> (r: Vec<Move>)
        requires
            board.wf(),
            forall|j: int| 0 <= j < captures.len() ==> #[trigger] captures@[j].from < 64 && captures@[j].to < 64,
        ensures
            r@.to_multiset() == captures@.to_multiset(),
            sorted_by(r@, |m: Move| capture_score_spec(*board, m)),
    {
        let ghost f = |m: Move| capture_score_spec(*board, m);
        let mut scores: Vec<i32> = Vec::new();
        let mut i: usize = 0;
        while i < captures.len()
            invariant
                board.wf(),
                i <= captures.len(),
                scores.len() == i,
                forall|j: int| 0 <= j < captures.len() ==> #[trigger] captures@[j].from < 64 && captures@[j].to < 64,
                f == (|m: Move| capture_score_spec(*board, m)),
                forall|j: int| 0 <= j < i ==> #[trigger] scores@[j] == f(captures@[j]),
            decreases captures.len() - i,
        {
            let s = self.capture_score(captures[i], board);
            scores.push(s);
            i = i + 1;
        }
        Self::sort_by_scores(captures, scores, Ghost(f))
    }

    /// The move gives check: a piece stands on its origin, it can be
    /// played, and afterwards the opponent's king is attacked.
    fn gives_check(&self, board: &Board, mv: Move) -> (r: bool)
        requires
            board.wf(),
            mv.from < 64,
        ensures
            r == gives_check_spec(*board, mv),
    {
        if board.get_piece_at(mv.from).is_none() {
            return false;
        }
        if !board.can_play(mv) {
            return false;
        }
        let mut temp_board = *board;
        let _ = temp_board.make_move(mv);
        proof {
            let u = choose|u: UndoInfo| made(*board, mv, temp_board, u);
            assert forall|a: Board, u2: UndoInfo| made(*board, mv, a, u2) implies in_check_spec(a, board.to_move.flip())
                == in_check_spec(temp_board, board.to_move.flip()) by {
                crate::game::movegen::lemma_made_same_checks(*board, mv, a, u2, temp_board, u);
            }
        }
        temp_board.is_king_in_check(board.to_move.opposite())
    }

    /// Enemy pieces on the file and the rank of `square`.
    fn count_rook_attacks_from_square(&self, board: &Board, square: u8, color: Color) -> (r: i32)
        requires
            square < 64,
        ensures
            r == rook_count(*board, square as int, color),
            0 <= r <= 128,
    {
        let mut attacks: i32 = 0;
        let enemy_pieces = if color == Color::White {
            board.black_pieces
        } else {
            board.white_pieces
        };
        let file_mask = file_mask(square % 8);
        let rank_mask = 0xFFu64 << ((square / 8) * 8);
        proof {
            lemma_squares_finite(enemy_pieces & file_mask);
            lemma_squares_finite(enemy_pieces & rank_mask);
        }
        if (enemy_pieces & file_mask) != 0 {
            attacks = attacks + popcount(enemy_pieces & file_mask) as i32;
        }
        if (enemy_pieces & rank_mask) != 0 {
            attacks = attacks + popcount(enemy_pieces & rank_mask) as i32;
        }
        proof {
            if (enemy_pieces & file_mask) == 0 {
                assert(pop(enemy_pieces & file_mask) == 0) by {
                    assert(crate::bits::squares(0u64) =~= Set::<int>::empty());
                }
            }
            if (enemy_pieces & rank_mask) == 0 {
                assert(pop(enemy_pieces & rank_mask) == 0) by {
                    assert(crate::bits::squares(0u64) =~= Set::<int>::empty());
                }
            }
        }
        attacks
    }

    /// Enemy pieces one diagonal step from `square`.
    fn count_bishop_attacks_from_square(&self, board: &Board, square: u8, color: Color) -> (r: i32)
        requires
            square < 64,
        ensures
            r == bishop_count_upto(*board, square as int, color, 4),
            0 <= r <= 4,
    {
        let mut attacks: i32 = 0;
        let enemy_pieces = if color == Color::White {
            board.black_pieces
        } else {
            board.white_pieces
        };
        let file = square % 8;
        let rank = square / 8;
        let mut k: usize = 0;
        while k < 4
            invariant
                k <= 4,
                square < 64,
                file == square % 8,
                rank == square / 8,
                enemy_pieces == board.color_bb(color.flip()),
                attacks == bishop_count_upto(*board, square as int, color, k as int),
                0 <= attacks <= k,
            decreases 4 - k,
        {
            let delta: i8 = if k == 0 {
                -9
            } else if k == 1 {
                -7
            } else if k == 2 {
                7
            } else {
                9
            };
            assert(delta == diag_delta(k as int));
            let target = square as i8 + delta;
            if target >= 0 && target < 64 {
                let target_file = (target % 8) as u8;
                let target_rank = (target / 8) as u8;
                let df: i8 = if target_file >= file {
                    (target_file - file) as i8
                } else {
                    (file - target_file) as i8
                };
                let dr: i8 = if target_rank >= rank {
                    (target_rank - rank) as i8
                } else {
                    (rank - target_rank) as i8
                };
                if df == dr {
                    let target_bb = 1u64 << (target as u64);
                    if (enemy_pieces & target_bb) != 0 {
                        attacks = attacks + 1;
                    }
                }
            }
            k = k + 1;
        }
        attacks
    }

    /// Enemy pieces a knight on `square` attacks.
    fn count_knight_attacks_from_square(&self, board: &Board, square: u8, color: Color) -> (r: i32)
        requires
            square < 64,
        ensures
            r == knight_count(*board, square as int, color),
            0 <= r <= 64,
    {
        let enemy_pieces = if color == Color::White {
            board.black_pieces
        } else {
            board.white_pieces
        };
        let knight_attacks = knight_attack_bits(square);
        proof {
            lemma_squares_finite(knight_attacks & enemy_pieces);
        }
        popcount(knight_attacks & enemy_pieces) as i32
    }

    /// The attack bonus of the moved piece from its destination.
    fn evaluate_piece_attacks_after_move(&self, board: &Board, mv: Move, piece: Piece) -> (r: i32)
        requires
            mv.to < 64,
        ensures
            r == attacks_after_spec(*board, mv.to as int, piece),
            0 <= r <= 2000,
    {
        match piece.kind {
            PieceKind::Queen => (self.count_rook_attacks_from_square(board, mv.to, piece.color)
                + self.count_bishop_attacks_from_square(board, mv.to, piece.color)) * 15,
            PieceKind::Rook => self.count_rook_attacks_from_square(board, mv.to, piece.color) * 10,
            PieceKind::Bishop => self.count_bishop_attacks_from_square(board, mv.to, piece.color) * 8,
            PieceKind::Knight => self.count_knight_attacks_from_square(board, mv.to, piece.color) * 12,
            _ => 0,
        }
    }

    /// 15 for a move off its file and rank.
    fn evaluate_discovered_attacks(&self, board: &Board, mv: Move) -> (r: i32)
        ensures
            r == (if mv.from % 8 != mv.to % 8 && mv.from / 8 != mv.to / 8 {
                15int
            } else {
                0int
            }),
    {
        let from_file = mv.from % 8;
        let from_rank = mv.from / 8;
        let to_file = mv.to % 8;
        let to_rank = mv.to / 8;
        if from_file != to_file && from_rank != to_rank {
            return 15;
        }
        0
    }

    /// 10 for moving a queen, rook or bishop.
    fn evaluate_pin_creation(&self, board: &Board, mv: Move) -> (r: i32)
        requires
            board.wf(),
            mv.from < 64,
        ensures
            r == (match board.piece_at(mv.from as int) {
                Some(p) => if p.kind == PieceKind::Queen || p.kind == PieceKind::Rook || p.kind == PieceKind::Bishop {
                    10int
                } else {
                    0int
                },
                None => 0int,
            }),
    {
        if let Some(piece) = board.get_piece_at(mv.from) {
            match piece.kind {
                PieceKind::Queen | PieceKind::Rook | PieceKind::Bishop => {
                    return 10;
                },
                _ => {},
            }
        }
        0
    }

    /// The tactical bonus of a move.
    fn evaluate_tactical_threats(&self, board: &Board, mv: Move) -> (r: i32)
        requires
            board.wf(),
            mv.from < 64,
            mv.to < 64,
        ensures
            r == threats_spec(*board, mv),
    {
        let mut score: i32 = 0;
        if let Some(piece) = board.get_piece_at(mv.from) {
            score = score + self.evaluate_piece_attacks_after_move(board, mv, piece);
        }
        score = score + self.evaluate_discovered_attacks(board, mv);
        score = score + self.evaluate_pin_creation(board, mv);
        if score < 40_000 {
            score
        } else {
            40_000
        }
    }

    /// The order score of a move with killer and history information: a
    /// checking move scores 10 000 000 when none of the first five moves
    /// generated after it is legal, 950 000 otherwise; other moves score by
    /// `heuristic_score`.
    pub fn score_move_with_heuristics(
        &self,
        mv: Move,
        board: &Board,
        tt_move: Option<Move>,
        ply: u8,
        is_killer: bool,
        history_score: i32,
    ) -> (r: i32)
        requires
            board.wf(),
            crate::game::check::check_cache_ok(*board),
            mv.from < 64,
            mv.to < 64,
        ensures
            gives_check_spec(*board, mv) ==> r == 10_000_000 || r == 950_000,
            !gives_check_spec(*board, mv) ==> r == heuristic_score(*board, mv, tt_move, is_killer, history_score as int),
            r <= 10_000_000,
    {
        if self.gives_check(board, mv) {
            if let Some(_) = board.get_piece_at(mv.from) {
                let mut temp_board = *board;
                let _ = temp_board.make_move(mv);
                let moves = temp_board.generate_all_moves();
                let mut legal_count: u32 = 0;
                let mut i: usize = 0;
                while i < moves.len() && i < 5 && legal_count == 0
                    invariant
                        temp_board.wf(),
                        i <= moves.len(),
                    decreases moves.len() - i,
                {
                    if temp_board.is_legal_move(moves[i]) {
                        legal_count = 1;
                    }
                    i = i + 1;
                }
                if legal_count == 0 {
                    return 10_000_000;
                }
            }
            return 950_000;
        }
        if Some(mv) == tt_move {
            return 1_000_000;
        }
        if let Some(captured) = board.get_piece_at(mv.to) {
            if let Some(attacker) = board.get_piece_at(mv.from) {
                return 900_000 + self.mvv_lva_score(attacker.kind, captured.kind);
            }
        }
        if let Some(promotion) = mv.promotion {
            return 800_000 + promotion.value();
        }
        if mv.is_en_passant {
            return 850_000;
        }
        if mv.is_castling {
            return 700_000;
        }
        if is_killer {
            return 600_000;
        }
        let tactical_score = self.evaluate_tactical_threats(board, mv);
        if tactical_score > 0 {
            return 550_000 + tactical_score;
        }
        if history_score > 0 {
            let h = history_score / 10;
            return 500_000 + if h < 50_000 {
                h
            } else {
                50_000
            };
        }
        self.quiet_move_score(mv, board)
    }
}

impl Default for MoveOrderer {
    fn default() -> (r: Self) {
        Self::new()
    }
}

/// Capture evaluation helpers.
pub struct OrderingUtils;

impl OrderingUtils {
    /// The value of the piece a move takes, 0 when its destination is
    /// empty.
    pub fn see_capture(board: &Board, mv: Move) -> (r: i32)
        requires
            board.wf(),
            mv.to < 64,
        ensures
            r == (match board.piece_at(mv.to as int) {
                Some(p) => kind_value(p.kind) as int,
                None => 0,
            }),
    {
        if let Some(captured) = board.get_piece_at(mv.to) {
            captured.kind.value()
        } else {
            0
        }
    }
}

} // verus!
