use vstd::prelude::*;
use std::sync::Arc;
use std::sync::atomic::AtomicBool;
use std::time::Instant;
use crate::board::Board;
use crate::types::{Color, Move, PieceKind, UndoInfo};
use crate::engine::traits::{
    Evaluator, Searcher, Score, SearchConfig, SearchResult, SearchInfo, SCORE_INF, SCORE_MATE, SCORE_DRAW,
    clock_ok, clock_time, clock_inc, moves_to_go, uses_clock,
};
use crate::engine::search::tt::{TranspositionTable, Bound, pack_move, unpack_move};
use crate::game::check::{check_cache_ok, in_check_spec};
use crate::game::movegen::{pseudo_legal, legal_move, capture_move};
use crate::make_move::{made, move_shape_ok};
use crate::perft::{legal_moves, lemma_safe_after};
use crate::game::status::{insufficient_material, fifty_moves};

verus! {

/// The deepest ply at which killer moves are kept.
pub const MAX_PLY: usize = 128;

/// Static evaluations are clamped to this bound, so that the search's
/// arithmetic cannot overflow whatever an evaluator returns.
pub const EVAL_LIMIT: Score = 1_000_000;

/// Every score the search returns, and every window it searches, lies
/// within this bound.
pub const SEARCH_LIMIT: Score = 2_000_000;

/// The late-move reduction `floor(ln d * ln m / 2)`, by depth `d`: for each
/// further ply of reduction (one to eight), the first move number that
/// earns it (64: none below 64).
const LMR_STEPS: [[u8; 8]; 64] = [
    [64, 64, 64, 64, 64, 64, 64, 64], [64, 64, 64, 64, 64, 64, 64, 64], [18, 64, 64, 64, 64, 64, 64, 64], [7, 39, 64, 64, 64, 64, 64, 64],
    [5, 18, 64, 64, 64, 64, 64, 64], [4, 13, 42, 64, 64, 64, 64, 64], [4, 10, 29, 64, 64, 64, 64, 64], [3, 8, 22, 62, 64, 64, 64, 64],
    [3, 7, 18, 47, 64, 64, 64, 64], [3, 7, 16, 39, 64, 64, 64, 64], [3, 6, 14, 33, 64, 64, 64, 64], [3, 6, 13, 29, 64, 64, 64, 64],
    [3, 6, 12, 26, 56, 64, 64, 64], [3, 5, 11, 23, 50, 64, 64, 64], [3, 5, 10, 21, 45, 64, 64, 64], [3, 5, 10, 20, 41, 64, 64, 64],
    [3, 5, 9, 18, 37, 64, 64, 64], [3, 5, 9, 17, 35, 64, 64, 64], [2, 4, 8, 16, 32, 64, 64, 64], [2, 4, 8, 16, 30, 59, 64, 64],
    [2, 4, 8, 15, 29, 55, 64, 64], [2, 4, 8, 14, 27, 52, 64, 64], [2, 4, 7, 14, 26, 49, 64, 64], [2, 4, 7, 13, 25, 46, 64, 64],
    [2, 4, 7, 13, 24, 44, 64, 64], [2, 4, 7, 13, 23, 42, 64, 64], [2, 4, 7, 12, 22, 40, 64, 64], [2, 4, 7, 12, 21, 39, 64, 64],
    [2, 4, 7, 12, 21, 37, 64, 64], [2, 4, 6, 11, 20, 36, 64, 64], [2, 4, 6, 11, 19, 35, 62, 64], [2, 4, 6, 11, 19, 33, 59, 64],
    [2, 4, 6, 11, 18, 32, 57, 64], [2, 4, 6, 10, 18, 31, 55, 64], [2, 4, 6, 10, 18, 31, 53, 64], [2, 4, 6, 10, 17, 30, 52, 64],
    [2, 4, 6, 10, 17, 29, 50, 64], [2, 4, 6, 10, 16, 28, 49, 64], [2, 4, 6, 10, 16, 28, 47, 64], [2, 3, 6, 9, 16, 27, 46, 64],
    [2, 3, 6, 9, 16, 26, 45, 64], [2, 3, 6, 9, 15, 26, 44, 64], [2, 3, 5, 9, 15, 25, 43, 64], [2, 3, 5, 9, 15, 25, 42, 64],
    [2, 3, 5, 9, 15, 24, 41, 64], [2, 3, 5, 9, 14, 24, 40, 64], [2, 3, 5, 9, 14, 23, 39, 64], [2, 3, 5, 8, 14, 23, 38, 64],
    [2, 3, 5, 8, 14, 23, 38, 63], [2, 3, 5, 8, 14, 22, 37, 62], [2, 3, 5, 8, 13, 22, 36, 60], [2, 3, 5, 8, 13, 22, 36, 59],
    [2, 3, 5, 8, 13, 21, 35, 58], [2, 3, 5, 8, 13, 21, 34, 57], [2, 3, 5, 8, 13, 21, 34, 56], [2, 3, 5, 8, 13, 20, 33, 55],
    [2, 3, 5, 8, 12, 20, 33, 54], [2, 3, 5, 8, 12, 20, 32, 53], [2, 3, 5, 8, 12, 20, 32, 52], [2, 3, 5, 8, 12, 19, 31, 51],
    [2, 3, 5, 8, 12, 19, 31, 50], [2, 3, 5, 8, 12, 19, 31, 50], [2, 3, 5, 7, 12, 19, 30, 49], [2, 3, 5, 7, 12, 19, 30, 48],
];

/// How many of the first `k` steps of `row` the move number `m` has reached.
pub open spec fn steps_reached(row: Seq<u8>, m: int, k: int) -> int
    decreases k,
{
    if k <= 0 {
        0
    } else {
        steps_reached(row, m, k - 1) + (if row[k - 1] <= m {
            1int
        } else {
            0int
        })
    }
}

/// The late-move reduction at depth `d` for the `m`-th move searched.
fn lmr_reduction(d: usize, m: usize) -> (r: u8)
    requires
        d < 64,
        m < 64,
    ensures
        r == steps_reached(LMR_STEPS@[d as int]@, m as int, 8),
        r <= 8,
{
    let row = LMR_STEPS[d];
    let mut r: u8 = 0;
    let mut k: usize = 0;
    while k < 8
        invariant
            k <= 8,
            m < 64,
            d < 64,
            row == LMR_STEPS@[d as int],
            r == steps_reached(row@, m as int, k as int),
            r <= k,
        decreases 8 - k,
    {
        if (m as u8) >= row[k] {
            r = r + 1;
        }
        k = k + 1;
    }
    r
}

/// A board the search can work on: well formed, with its check flags right.
pub open spec fn playable(b: Board) -> bool {
    b.wf() && check_cache_ok(b)
}

/// `s` is a line of moves that can be played from `b` in turn, each legal.
pub open spec fn legal_line(b: Board, s: Seq<Move>) -> bool
    decreases s.len(),
{
    s.len() == 0 || (legal_move(b, s[0]) && exists|a: Board, u: UndoInfo|
        made(b, s[0], a, u) && legal_line(a, s.drop_first()))
}

/// No move is legal on `b`.
pub open spec fn no_legal_move(b: Board) -> bool {
    forall|m: Move| !#[trigger] legal_moves(b).contains(m)
}

/// `m` is the only legal move on `b`.
pub open spec fn sole_legal_move(b: Board, m: Move) -> bool {
    legal_moves(b).contains(m) && forall|m2: Move| #[trigger] legal_moves(b).contains(m2) ==> m2 == m
}

/// The line, best move and ponder move of a result agree and are legal on
/// `b`: the best move is the line's first move, the ponder move its
/// second.
pub open spec fn result_line_ok(b: Board, r: SearchResult) -> bool {
    &&& legal_line(b, r.pv@)
    &&& r.pv.len() > 0 ==> legal_moves(b).contains(r.pv@[0])
    &&& r.best_move == (if r.pv.len() > 0 {
        Some(r.pv@[0])
    } else {
        None
    })
    &&& r.ponder_move == (if r.pv.len() > 1 {
        Some(r.pv@[1])
    } else {
        None
    })
}

/// The score of a position without legal moves: mated in check, a draw
/// otherwise.
pub open spec fn terminal_score(b: Board) -> int {
    if in_check_spec(b, b.to_move) {
        -SCORE_MATE
    } else {
        SCORE_DRAW as int
    }
}

/// The largest magnitude of a score searched in the window `alpha..beta`:
/// that of the window or of a static evaluation.
pub open spec fn score_bound(alpha: int, beta: int) -> int {
    let a = if alpha < 0 {
        -alpha
    } else {
        alpha
    };
    let b = if beta < 0 {
        -beta
    } else {
        beta
    };
    let w = if a < b {
        b
    } else {
        a
    };
    if w < EVAL_LIMIT {
        EVAL_LIMIT as int
    } else {
        w
    }
}

/// Whether a score is a mate score, and in how many moves, signed: mate
/// scores lie within 100 of `SCORE_MATE`.
pub open spec fn mate_in_spec(score: int) -> Option<i32> {
    let a = if score < 0 {
        -score
    } else {
        score
    };
    if a > SCORE_MATE - 100 {
        let x = (SCORE_MATE - a) + 1;
        let dist = if x >= 0 {
            x / 2
        } else {
            -((-x) / 2)
        };
        Some((if score > 0 {
            dist
        } else {
            -dist
        }) as i32)
    } else {
        None
    }
}

/// `b` starts with `a`.
pub open spec fn stack_extends(a: Seq<u64>, b: Seq<u64>) -> bool {
    a.len() <= b.len() && forall|i: int| 0 <= i < a.len() ==> #[trigger] b[i] == a[i]
}

/// Appends `tail` to `line`.
fn extend_line(line: &mut Vec<Move>, tail: &Vec<Move>)
    ensures
        final(line)@ == old(line)@ + tail@,
{
    let mut i: usize = 0;
    while i < tail.len()
        invariant
            i <= tail.len(),
            line@ == old(line)@ + tail@.subrange(0, i as int),
        decreases tail.len() - i,
    {
        line.push(tail[i]);
        i = i + 1;
        proof {
            assert(tail@.subrange(0, i as int) == tail@.subrange(0, i - 1) + seq![tail@[i - 1]]);
        }
    }
    proof {
        assert(tail@.subrange(0, tail.len() as int) == tail@);
    }
}

/// A legal move followed by a legal line from the position it leads to
/// is a legal line.
proof fn lemma_line_cons(b: Board, mv: Move, a: Board, u: UndoInfo, tail: Seq<Move>)
    requires
        legal_move(b, mv),
        made(b, mv, a, u),
        legal_line(a, tail),
    ensures
        legal_line(b, seq![mv] + tail),
{
    let s = seq![mv] + tail;
    assert(s.drop_first() =~= tail);
    assert(s[0] == mv);
}

/// Captured-piece values for ordering captures (most valuable victim).
/// The value of a captured piece for move ordering.
pub open spec fn mvv_spec(k: PieceKind) -> int {
    match k {
        PieceKind::Pawn => 100,
        PieceKind::Knight => 320,
        PieceKind::Bishop => 330,
        PieceKind::Rook => 500,
        PieceKind::Queen => 900,
        PieceKind::King => 20000,
    }
}

/// The value of what `mv` captures on `b` (a pawn en passant, 0 for none).
pub open spec fn victim_spec(b: Board, mv: Move) -> int {
    match b.piece_at(mv.to as int) {
        Some(p) => mvv_spec(p.kind),
        None => if mv.is_en_passant {
            100
        } else {
            0
        },
    }
}

/// Marks a value chosen by an existential in a search relation.
pub open spec fn chosen<A>(a: A) -> bool {
    true
}

/// The larger of two numbers.
pub open spec fn max_int(a: int, b: int) -> int {
    if a > b {
        a
    } else {
        b
    }
}

/// A static evaluation clamped to `EVAL_LIMIT`.
pub open spec fn clamp_eval(v: int) -> int {
    if v > EVAL_LIMIT {
        EVAL_LIMIT as int
    } else if v < -EVAL_LIMIT {
        -EVAL_LIMIT
    } else {
        v
    }
}

/// `r` is what the quiescence search of `b` in the window `alpha..beta`,
/// `ply` plies down, returns when no stop intervenes: the clamped static
/// evaluation at the ply cap; else `beta` when the evaluation reaches it;
/// else, standing pat with the evaluation raising `alpha`, the result of
/// the captures searched in some order of all the playable captures.
pub open spec fn q_rel<E: Evaluator>(ev: E, b: Board, alpha: int, beta: int, ply: int, r: int) -> bool
    decreases 255 - ply, 1int, 0int,
{
    let sp = clamp_eval(ev.value(b));
    if ply >= MAX_PLY - 10 {
        r == sp
    } else if sp >= beta {
        r == beta
    } else {
        let a1 = max_int(sp, alpha);
        if sp + 900 < a1 {
            r == a1
        } else {
            exists|caps: Seq<Move>|
                #![trigger chosen(caps)]
                (forall|m: Move| #[trigger] caps.contains(m) <==> capture_move(b, m) && move_shape_ok(b, m))
                    && q_loop(ev, b, caps, 0, a1, beta, sp, ply, r)
        }
    }
}

/// The captures of `caps` from index `i` on, with the best score `alpha`
/// so far: a capture that may reach `alpha` by the victim's value (plus a
/// margin of 200) and is legal is searched with the window `-beta..-alpha`
/// from a board it leads to; a score reaching `beta` is returned as
/// `beta`; when all are done, `alpha` is returned.
pub open spec fn q_loop<E: Evaluator>(
    ev: E,
    b: Board,
    caps: Seq<Move>,
    i: int,
    alpha: int,
    beta: int,
    sp: int,
    ply: int,
    r: int,
) -> bool
    decreases 255 - ply, 0int, caps.len() - i,
{
    if i >= caps.len() || i < 0 || ply >= 254 || ply < 0 {
        r == alpha
    } else {
        let mv = caps[i];
        if sp + victim_spec(b, mv) + 200 >= alpha && legal_move(b, mv) {
            exists|child: Board, u: UndoInfo, cr: int|
                #![trigger made(b, mv, child, u), chosen(cr)]
                made(b, mv, child, u) && q_rel(ev, child, -beta, -alpha, ply + 1, cr) && (if -cr >= beta {
                    r == beta
                } else {
                    q_loop(ev, b, caps, i + 1, max_int(-cr, alpha), beta, sp, ply, r)
                })
        } else {
            q_loop(ev, b, caps, i + 1, alpha, beta, sp, ply, r)
        }
    }
}

/// One searched capture: the loop from `i` is the capture's result
/// followed by the loop from `i + 1`.
proof fn lemma_q_loop_searched<E: Evaluator>(
    ev: E,
    b: Board,
    caps: Seq<Move>,
    i: int,
    alpha: int,
    beta: int,
    sp: int,
    ply: int,
    r: int,
    child: Board,
    u: UndoInfo,
    cr: int,
)
    requires
        0 <= i < caps.len(),
        0 <= ply < 254,
        sp + victim_spec(b, caps[i]) + 200 >= alpha,
        legal_move(b, caps[i]),
        made(b, caps[i], child, u),
        q_rel(ev, child, -beta, -alpha, ply + 1, cr),
        -cr >= beta ==> r == beta,
        -cr < beta ==> q_loop(ev, b, caps, i + 1, max_int(-cr, alpha), beta, sp, ply, r),
    ensures
        q_loop(ev, b, caps, i, alpha, beta, sp, ply, r),
{
    assert(chosen(cr));
}

/// A capture not searched: the loop from `i` is the loop from `i + 1`.
proof fn lemma_q_loop_skipped<E: Evaluator>(
    ev: E,
    b: Board,
    caps: Seq<Move>,
    i: int,
    alpha: int,
    beta: int,
    sp: int,
    ply: int,
    r: int,
)
    requires
        0 <= i < caps.len(),
        0 <= ply < 254,
        !(sp + victim_spec(b, caps[i]) + 200 >= alpha && legal_move(b, caps[i])),
        q_loop(ev, b, caps, i + 1, alpha, beta, sp, ply, r),
    ensures
        q_loop(ev, b, caps, i, alpha, beta, sp, ply, r),
{
}

/// The bound a stored entry records: 1 lower, 2 upper, else exact.
pub open spec fn bound_of(b: u8) -> Bound {
    if b == 1 {
        Bound::Lower
    } else if b == 2 {
        Bound::Upper
    } else {
        Bound::Exact
    }
}

/// The futility margin at depth `d` (0: none).
pub open spec fn futility_margin(d: int) -> int {
    if d == 1 {
        200
    } else if d == 2 {
        500
    } else if d == 3 {
        900
    } else {
        0
    }
}

/// `nb` is `b` with the move handed to the other side.
pub open spec fn null_of(b: Board, nb: Board) -> bool {
    nb == (Board { to_move: b.to_move.flip(), en_passant_target: None, zobrist_hash: nb.zobrist_hash, ..b })
}

/// `r` is what the alpha-beta search of `b` to `depth` in the window
/// `alpha..beta`, `ply` plies down, with the table `t0` and the positions
/// `rs` on the path, returns when no stop intervenes: the ply cap's
/// evaluation; a draw by material, the 50-move rule or repetition; the
/// table's score where its entry settles the node; the quiescence search
/// at depth 0 (one more in check); `beta` on a null-move cutoff; else the
/// moves' search (`node_body`).
pub open spec fn nm_rel<E: Evaluator>(
    ev: E,
    t0: TranspositionTable,
    rs: Seq<u64>,
    b: Board,
    depth: int,
    alpha: int,
    beta: int,
    ply: int,
    r: int,
) -> bool
    decreases 255 - ply, 2int, 0int,
{
    if ply >= 255 || ply < 0 {
        r == clamp_eval(ev.value(b))
    } else if insufficient_material(b) || fifty_moves(b) {
        r == 0
    } else if ply > 0 && rs.contains(b.zobrist_hash) {
        r == 0
    } else {
        let inc = in_check_spec(b, b.to_move);
        let is_pv = beta - alpha > 1;
        let d = if inc {
            depth + 1
        } else {
            depth
        };
        let e = t0.probe_spec(b.zobrist_hash);
        let usable = e is Some && !is_pv && e->0.depth >= d;
        let ts = score_from_tt_spec(e->0.score, ply);
        let bt = bound_of(e->0.bound);
        if usable && (bt == Bound::Exact || (bt == Bound::Lower && ts >= beta) || (bt == Bound::Upper && ts <= alpha)) {
            r == ts
        } else {
            let a2 = if usable && bt == Bound::Lower && ts > alpha {
                ts
            } else {
                alpha
            };
            if d == 0 {
                q_rel(ev, b, a2, beta, ply, r)
            } else if !inc && !is_pv && d >= 3 && (b.color_bb(b.to_move) & (b.knights | b.bishops | b.rooks | b.queens))
                != 0 {
                let rd = if d >= 6 {
                    3int
                } else {
                    2int
                };
                exists|nb: Board, nr: int|
                    #![trigger chosen(nb), chosen(nr)]
                    null_of(b, nb) && nm_rel(ev, t0, rs, nb, d - 1 - rd, -beta, -beta + 1, ply + 1, nr) && (if -nr
                        >= beta {
                        r == beta
                    } else {
                        node_body(ev, rs, b, d, a2, beta, ply, inc, is_pv, r)
                    })
            } else {
                node_body(ev, rs, b, d, a2, beta, ply, inc, is_pv, r)
            }
        }
    }
}

/// The moves' search of a node: its moves in some order that holds every
/// legal move (`nm_loop`), then mate or stalemate without a legal move,
/// else the best score.
pub open spec fn node_body<E: Evaluator>(
    ev: E,
    rs: Seq<u64>,
    b: Board,
    d: int,
    a2: int,
    beta: int,
    ply: int,
    inc: bool,
    is_pv: bool,
    r: int,
) -> bool
    decreases 255 - ply, 1int, 0int,
{
    let cf = !is_pv && !inc && d <= 3 && futility_margin(d) > 0 && clamp_eval(ev.value(b)) + futility_margin(d) <= a2;
    exists|order: Seq<Move>, best: int, found: bool|
        #![trigger chosen(order), chosen(best), chosen(found)]
        (forall|m: Move| #[trigger] legal_moves(b).contains(m) ==> order.contains(m)) && nm_loop(
            ev,
            b,
            order,
            0,
            rs.push(b.zobrist_hash),
            a2,
            beta,
            ply,
            cf,
            -SCORE_INF as int,
            false,
            0,
            false,
            best,
            found,
        ) && if !found {
            r == (if inc {
                -SCORE_MATE + ply
            } else {
                0
            })
        } else {
            r == best
        }
}

/// The moves of `order` from `i` on, with the window's lower end `alpha`,
/// the best score so far, whether a legal move was seen, the moves
/// searched, and whether a cutoff ended the loop; `best_e` and `found_e`
/// are the loop's outcome. A legal move is skipped by futility, or
/// searched: its score is the negated result of a search of the board it
/// leads to (the last of the searches made of it), in the window
/// `-beta..-alpha` for the first move searched and in that or the null
/// window `-alpha - 1..-alpha` for the others.
pub open spec fn nm_loop<E: Evaluator>(
    ev: E,
    b: Board,
    order: Seq<Move>,
    i: int,
    rs: Seq<u64>,
    alpha: int,
    beta: int,
    ply: int,
    cf: bool,
    best: int,
    found: bool,
    ms: int,
    cut: bool,
    best_e: int,
    found_e: bool,
) -> bool
    decreases 255 - ply, 0int, order.len() - i,
{
    if i >= order.len() || i < 0 || cut || ply >= 255 || ply < 0 {
        best_e == best && found_e == found
    } else {
        let mv = order[i];
        if !legal_move(b, mv) {
            nm_loop(ev, b, order, i + 1, rs, alpha, beta, ply, cf, best, found, ms, cut, best_e, found_e)
        } else {
            exists|child: Board, u: UndoInfo|
                #![trigger made(b, mv, child, u)]
                made(b, mv, child, u) && if cf && ms > 0 && !(b.piece_at(mv.to as int) is Some || mv.is_en_passant)
                    && mv.promotion is None && !in_check_spec(child, child.to_move) {
                    nm_loop(ev, b, order, i + 1, rs, alpha, beta, ply, cf, best, true, ms + 1, cut, best_e, found_e)
                } else {
                    exists|t: TranspositionTable, d2: int, a3: int, b3: int, cr: int|
                        #![trigger chosen(t), chosen(d2), chosen(a3), chosen(b3), chosen(cr)]
                        b3 == -alpha && (a3 == -beta || a3 == -alpha - 1) && (ms == 0 ==> a3 == -beta) && nm_rel(
                            ev,
                            t,
                            rs,
                            child,
                            d2,
                            a3,
                            b3,
                            ply + 1,
                            cr,
                        ) && nm_loop(
                            ev,
                            b,
                            order,
                            i + 1,
                            rs,
                            max_int(alpha, -cr),
                            beta,
                            ply,
                            cf,
                            max_int(best, -cr),
                            true,
                            ms + 1,
                            max_int(alpha, -cr) >= beta,
                            best_e,
                            found_e,
                        )
                }
        }
    }
}

/// A move that is not legal: the loop from `i` is the loop from `i + 1`.
proof fn lemma_nm_loop_illegal<E: Evaluator>(
    ev: E,
    b: Board,
    order: Seq<Move>,
    i: int,
    rs: Seq<u64>,
    alpha: int,
    beta: int,
    ply: int,
    cf: bool,
    best: int,
    found: bool,
    ms: int,
    best_e: int,
    found_e: bool,
)
    requires
        0 <= i < order.len(),
        0 <= ply < 255,
        !legal_move(b, order[i]),
        nm_loop(ev, b, order, i + 1, rs, alpha, beta, ply, cf, best, found, ms, false, best_e, found_e),
    ensures
        nm_loop(ev, b, order, i, rs, alpha, beta, ply, cf, best, found, ms, false, best_e, found_e),
{
}

/// A legal move skipped by futility.
proof fn lemma_nm_loop_futile<E: Evaluator>(
    ev: E,
    b: Board,
    order: Seq<Move>,
    i: int,
    rs: Seq<u64>,
    alpha: int,
    beta: int,
    ply: int,
    cf: bool,
    best: int,
    found: bool,
    ms: int,
    best_e: int,
    found_e: bool,
    child: Board,
    u: UndoInfo,
)
    requires
        0 <= i < order.len(),
        0 <= ply < 255,
        legal_move(b, order[i]),
        made(b, order[i], child, u),
        cf && ms > 0 && !(b.piece_at(order[i].to as int) is Some || order[i].is_en_passant) && order[i].promotion is None
            && !in_check_spec(child, child.to_move),
        nm_loop(ev, b, order, i + 1, rs, alpha, beta, ply, cf, best, true, ms + 1, false, best_e, found_e),
    ensures
        nm_loop(ev, b, order, i, rs, alpha, beta, ply, cf, best, found, ms, false, best_e, found_e),
{
}

/// A legal move searched, the last search of the board it leads to giving
/// `cr`.
proof fn lemma_nm_loop_searched<E: Evaluator>(
    ev: E,
    b: Board,
    order: Seq<Move>,
    i: int,
    rs: Seq<u64>,
    alpha: int,
    beta: int,
    ply: int,
    cf: bool,
    best: int,
    found: bool,
    ms: int,
    best_e: int,
    found_e: bool,
    child: Board,
    u: UndoInfo,
    t: TranspositionTable,
    d2: int,
    a3: int,
    b3: int,
    cr: int,
)
    requires
        0 <= i < order.len(),
        0 <= ply < 255,
        legal_move(b, order[i]),
        made(b, order[i], child, u),
        !(cf && ms > 0 && !(b.piece_at(order[i].to as int) is Some || order[i].is_en_passant) && order[i].promotion is None
            && !in_check_spec(child, child.to_move)),
        b3 == -alpha && (a3 == -beta || a3 == -alpha - 1) && (ms == 0 ==> a3 == -beta),
        nm_rel(ev, t, rs, child, d2, a3, b3, ply + 1, cr),
        nm_loop(
            ev,
            b,
            order,
            i + 1,
            rs,
            max_int(alpha, -cr),
            beta,
            ply,
            cf,
            max_int(best, -cr),
            true,
            ms + 1,
            max_int(alpha, -cr) >= beta,
            best_e,
            found_e,
        ),
    ensures
        nm_loop(ev, b, order, i, rs, alpha, beta, ply, cf, best, found, ms, false, best_e, found_e),
{
    assert(chosen(t) && chosen(d2) && chosen(a3) && chosen(b3) && chosen(cr));
}

/// The moves' search from its parts.
proof fn lemma_node_body<E: Evaluator>(
    ev: E,
    rs: Seq<u64>,
    b: Board,
    d: int,
    a2: int,
    beta: int,
    ply: int,
    inc: bool,
    is_pv: bool,
    r: int,
    order: Seq<Move>,
    best: int,
    found: bool,
)
    requires
        forall|m: Move| #[trigger] legal_moves(b).contains(m) ==> order.contains(m),
        nm_loop(
            ev,
            b,
            order,
            0,
            rs.push(b.zobrist_hash),
            a2,
            beta,
            ply,
            !is_pv && !inc && d <= 3 && futility_margin(d) > 0 && clamp_eval(ev.value(b)) + futility_margin(d) <= a2,
            -SCORE_INF as int,
            false,
            0,
            false,
            best,
            found,
        ),
        !found ==> r == (if inc {
            -SCORE_MATE + ply
        } else {
            0
        }),
        found ==> r == best,
    ensures
        node_body(ev, rs, b, d, a2, beta, ply, inc, is_pv, r),
{
    assert(chosen(order) && chosen(best) && chosen(found));
}

/// A null-move search: `nr` its result, and the node's own.
proof fn lemma_nm_rel_null<E: Evaluator>(
    ev: E,
    t0: TranspositionTable,
    rs: Seq<u64>,
    b: Board,
    depth: int,
    alpha: int,
    beta: int,
    ply: int,
    r: int,
    nb: Board,
    nr: int,
)
    requires
        0 <= ply < 255,
        !insufficient_material(b),
        !fifty_moves(b),
        !(ply > 0 && rs.contains(b.zobrist_hash)),
        ({
            let inc = in_check_spec(b, b.to_move);
            let is_pv = beta - alpha > 1;
            let d = if inc { depth + 1 } else { depth };
            let e = t0.probe_spec(b.zobrist_hash);
            let usable = e is Some && !is_pv && e->0.depth >= d;
            let ts = score_from_tt_spec(e->0.score, ply);
            let bt = bound_of(e->0.bound);
            let a2 = if usable && bt == Bound::Lower && ts > alpha { ts } else { alpha };
            let rd = if d >= 6 { 3int } else { 2int };
            &&& !(usable && (bt == Bound::Exact || (bt == Bound::Lower && ts >= beta) || (bt == Bound::Upper && ts <= alpha)))
            &&& d != 0
            &&& !inc && !is_pv && d >= 3 && (b.color_bb(b.to_move) & (b.knights | b.bishops | b.rooks | b.queens)) != 0
            &&& null_of(b, nb)
            &&& nm_rel(ev, t0, rs, nb, d - 1 - rd, -beta, -beta + 1, ply + 1, nr)
            &&& -nr >= beta ==> r == beta
            &&& -nr < beta ==> node_body(ev, rs, b, d, a2, beta, ply, inc, is_pv, r)
        }),
    ensures
        nm_rel(ev, t0, rs, b, depth, alpha, beta, ply, r),
{
    assert(chosen(nb) && chosen(nr));
}

/// A node that reaches its moves' search: with the null-move search tried
/// where it applies and failing to cut, the node's result is that of the
/// moves' search.
proof fn lemma_nm_rel_close<E: Evaluator>(
    ev: E,
    t0: TranspositionTable,
    rs: Seq<u64>,
    b: Board,
    depth: int,
    alpha: int,
    beta: int,
    ply: int,
    r: int,
    a2: int,
    null_tried: bool,
    nb: Board,
    nr: int,
)
    requires
        0 <= ply < 255,
        !insufficient_material(b),
        !fifty_moves(b),
        !(ply > 0 && rs.contains(b.zobrist_hash)),
        ({
            let inc = in_check_spec(b, b.to_move);
            let is_pv = beta - alpha > 1;
            let d = if inc { depth + 1 } else { depth };
            let e = t0.probe_spec(b.zobrist_hash);
            let usable = e is Some && !is_pv && e->0.depth >= d;
            let ts = score_from_tt_spec(e->0.score, ply);
            let bt = bound_of(e->0.bound);
            let rd = if d >= 6 { 3int } else { 2int };
            &&& !(usable && (bt == Bound::Exact || (bt == Bound::Lower && ts >= beta) || (bt == Bound::Upper && ts <= alpha)))
            &&& a2 == if usable && bt == Bound::Lower && ts > alpha { ts } else { alpha }
            &&& d != 0
            &&& (!inc && !is_pv && d >= 3 && (b.color_bb(b.to_move) & (b.knights | b.bishops | b.rooks | b.queens)) != 0)
                ==> (null_tried && null_of(b, nb) && nm_rel(ev, t0, rs, nb, d - 1 - rd, -beta, -beta + 1, ply + 1, nr) && -nr < beta)
            &&& node_body(ev, rs, b, d, a2, beta, ply, inc, is_pv, r)
        }),
    ensures
        nm_rel(ev, t0, rs, b, depth, alpha, beta, ply, r),
{
    let inc = in_check_spec(b, b.to_move);
    let is_pv = beta - alpha > 1;
    let d = if inc { depth + 1 } else { depth };
    if !inc && !is_pv && d >= 3 && (b.color_bb(b.to_move) & (b.knights | b.bishops | b.rooks | b.queens)) != 0 {
        lemma_nm_rel_null(ev, t0, rs, b, depth, alpha, beta, ply, r, nb, nr);
    }
}

/// The root's moves of `order` from `i` on, with the window's lower end
/// `alpha`, the best score and move so far, and whether a cutoff ended the
/// loop; `best_e` and `bm_e` are the outcome. A legal move is searched:
/// its score is the negated result of a search one ply down of the board
/// it leads to (the last of the searches made of it, in the window
/// `-beta..-alpha` or the null window `-alpha - 1..-alpha`), and a better
/// score makes it the best move.
pub open spec fn root_loop<E: Evaluator>(
    ev: E,
    b: Board,
    order: Seq<Move>,
    i: int,
    rs: Seq<u64>,
    alpha: int,
    beta: int,
    best: int,
    bm: Option<Move>,
    cut: bool,
    best_e: int,
    bm_e: Option<Move>,
) -> bool
    decreases order.len() - i,
{
    if i >= order.len() || i < 0 || cut {
        best_e == best && bm_e == bm
    } else {
        let mv = order[i];
        if !legal_move(b, mv) {
            root_loop(ev, b, order, i + 1, rs, alpha, beta, best, bm, cut, best_e, bm_e)
        } else {
            exists|child: Board, u: UndoInfo, t: TranspositionTable, d2: int, a3: int, b3: int, cr: int|
                #![trigger made(b, mv, child, u), chosen(t), chosen(d2), chosen(a3), chosen(b3), chosen(cr)]
                made(b, mv, child, u) && b3 == -alpha && (a3 == -beta || a3 == -alpha - 1) && nm_rel(
                    ev,
                    t,
                    rs,
                    child,
                    d2,
                    a3,
                    b3,
                    1,
                    cr,
                ) && root_loop(
                    ev,
                    b,
                    order,
                    i + 1,
                    rs,
                    max_int(alpha, -cr),
                    beta,
                    max_int(best, -cr),
                    if -cr > best {
                        Some(mv)
                    } else {
                        bm
                    },
                    max_int(alpha, -cr) >= beta,
                    best_e,
                    bm_e,
                )
        }
    }
}

/// `score` and `bm` are what the root search of `b` in the window
/// `alpha..beta`, with the positions `rs` on the path, finds when no stop
/// intervenes: the best score and the move that first reached it, over
/// its moves in some order that holds every legal move.
pub open spec fn root_rel<E: Evaluator>(
    ev: E,
    rs: Seq<u64>,
    b: Board,
    alpha: int,
    beta: int,
    score: int,
    bm: Option<Move>,
) -> bool {
    exists|order: Seq<Move>|
        #![trigger chosen(order)]
        (forall|m: Move| #[trigger] legal_moves(b).contains(m) ==> order.contains(m)) && root_loop(
            ev,
            b,
            order,
            0,
            rs.push(b.zobrist_hash),
            alpha,
            beta,
            -SCORE_INF as int,
            None,
            false,
            score,
            bm,
        )
}

/// A root move that is not legal.
proof fn lemma_root_loop_illegal<E: Evaluator>(
    ev: E,
    b: Board,
    order: Seq<Move>,
    i: int,
    rs: Seq<u64>,
    alpha: int,
    beta: int,
    best: int,
    bm: Option<Move>,
    best_e: int,
    bm_e: Option<Move>,
)
    requires
        0 <= i < order.len(),
        !legal_move(b, order[i]),
        root_loop(ev, b, order, i + 1, rs, alpha, beta, best, bm, false, best_e, bm_e),
    ensures
        root_loop(ev, b, order, i, rs, alpha, beta, best, bm, false, best_e, bm_e),
{
}

/// A root move searched, the last search giving `cr`.
proof fn lemma_root_loop_searched<E: Evaluator>(
    ev: E,
    b: Board,
    order: Seq<Move>,
    i: int,
    rs: Seq<u64>,
    alpha: int,
    beta: int,
    best: int,
    bm: Option<Move>,
    best_e: int,
    bm_e: Option<Move>,
    child: Board,
    u: UndoInfo,
    t: TranspositionTable,
    d2: int,
    a3: int,
    b3: int,
    cr: int,
)
    requires
        0 <= i < order.len(),
        legal_move(b, order[i]),
        made(b, order[i], child, u),
        b3 == -alpha && (a3 == -beta || a3 == -alpha - 1),
        nm_rel(ev, t, rs, child, d2, a3, b3, 1, cr),
        root_loop(
            ev,
            b,
            order,
            i + 1,
            rs,
            max_int(alpha, -cr),
            beta,
            max_int(best, -cr),
            if -cr > best {
                Some(order[i])
            } else {
                bm
            },
            max_int(alpha, -cr) >= beta,
            best_e,
            bm_e,
        ),
    ensures
        root_loop(ev, b, order, i, rs, alpha, beta, best, bm, false, best_e, bm_e),
{
    assert(chosen(t) && chosen(d2) && chosen(a3) && chosen(b3) && chosen(cr));
}

/// The root search's outcome from its loop.
proof fn lemma_root_rel<E: Evaluator>(
    ev: E,
    rs: Seq<u64>,
    b: Board,
    alpha: int,
    beta: int,
    score: int,
    bm: Option<Move>,
    order: Seq<Move>,
)
    requires
        forall|m: Move| #[trigger] legal_moves(b).contains(m) ==> order.contains(m),
        root_loop(ev, b, order, 0, rs.push(b.zobrist_hash), alpha, beta, -SCORE_INF as int, None, false, score, bm),
    ensures
        root_rel(ev, rs, b, alpha, beta, score, bm),
{
    assert(chosen(order));
}

fn mvv_value(k: PieceKind) -> (r: i32)
    ensures
        0 <= r <= 20000,
        r == mvv_spec(k),
{
    match k {
        PieceKind::Pawn => 100,
        PieceKind::Knight => 320,
        PieceKind::Bishop => 330,
        PieceKind::Rook => 500,
        PieceKind::Queen => 900,
        PieceKind::King => 20000,
    }
}

/// Capturing-piece values for ordering captures (least valuable attacker).
fn lva_value(k: PieceKind) -> (r: i32)
    ensures
        0 <= r <= 5,
{
    match k {
        PieceKind::Pawn => 5,
        PieceKind::Knight => 4,
        PieceKind::Bishop => 3,
        PieceKind::Rook => 2,
        PieceKind::Queen => 1,
        PieceKind::King => 0,
    }
}

/// The time budget of a move, in milliseconds: the fixed move time if
/// given; unlimited when infinite or without clocks; otherwise the clock
/// over the moves to go plus three quarters of the increment, at least
/// half the increment (50 ms without one), at most 30% of the clock.
pub open spec fn time_budget(config: SearchConfig, c: Color) -> u64 {
    if config.movetime is Some {
        config.movetime->0
    } else if !uses_clock(config, c) {
        u64::MAX
    } else {
        let t = clock_time(config, c);
        let inc = clock_inc(config, c);
        let base: int = t / moves_to_go(config) + inc * 3 / 4;
        let max_time: int = t * 3 / 10;
        let min_time: int = if inc > 0 {
            (inc / 2) as int
        } else {
            50
        };
        let lo = if base >= min_time {
            base
        } else {
            min_time
        };
        (if lo <= max_time {
            lo
        } else {
            max_time
        }) as u64
    }
}

/// A score as the table keeps it: mate scores are made relative to the
/// node `ply` plies from the root.
pub open spec fn score_to_tt_spec(score: int, ply: int) -> i16 {
    (if score > SCORE_MATE - 100 {
        score + ply
    } else if score < -SCORE_MATE + 100 {
        score - ply
    } else {
        score
    }) as i16
}

/// A score read from the table, mate scores made relative to the root again.
pub open spec fn score_from_tt_spec(score: i16, ply: int) -> int {
    if score > SCORE_MATE - 100 {
        score - ply
    } else if score < -SCORE_MATE + 100 {
        score + ply
    } else {
        score as int
    }
}

/// Reading back a stored score gives it again, whenever the stored value
/// fits in 16 bits.
pub proof fn lemma_tt_score_roundtrip(score: int, ply: int)
    requires
        0 <= ply <= 255,
        -32768 + 255 <= score <= 32767 - 255,
    ensures
        score_from_tt_spec(score_to_tt_spec(score, ply), ply) == score,
{
}

/// The searcher: iterative deepening over a negamax alpha-beta search with
/// a transposition table, move ordering (table move, captures by value,
/// promotions, killers, countermoves, history), quiescence search, null
/// move pruning, futility pruning, late-move reductions and principal
/// variation search, within limits of depth, nodes and time.
pub struct NegamaxSearcher<E: Evaluator> {
    evaluator: E,
    nodes_searched: u64,
    stop: Arc<AtomicBool>,
    start_time: Instant,
    time_limit_ms: u64,
    nodes_limit: Option<u64>,
    tt: TranspositionTable,
    killer_moves: [Option<Move>; 256],
    history: [i32; 4096],
    countermove: [Option<Move>; 4096],
    game_history: Vec<u64>,
    rep_stack: Vec<u64>,
    stop_seen: Ghost<bool>,
}

impl<E: Evaluator> NegamaxSearcher<E> {
    /// Everything but the move-ordering tables is as in `other`.
    spec fn same_but_ordering(&self, other: &Self) -> bool {
        &&& self.tt == other.tt
        &&& self.rep_stack == other.rep_stack
        &&& self.nodes_searched == other.nodes_searched
        &&& self.time_limit_ms == other.time_limit_ms
        &&& self.nodes_limit == other.nodes_limit
        &&& self.game_history == other.game_history
        &&& self.stop_seen == other.stop_seen
        &&& self.evaluator == other.evaluator
    }

    /// The state is consistent: the table is well formed.
    pub closed spec fn inv(&self) -> bool {
        self.tt.wf()
    }

    /// The nodes searched so far in the current search.
    pub closed spec fn nodes(&self) -> u64 {
        self.nodes_searched
    }

    /// The hashes of the game's earlier positions.
    pub closed spec fn position_history(&self) -> Seq<u64> {
        self.game_history@
    }

    /// The transposition table.
    pub closed spec fn table(&self) -> TranspositionTable {
        self.tt
    }

    /// Whether a stop check of the current search has answered yes (the
    /// stop flag, the node limit or the clock).
    pub closed spec fn stop_answered(&self) -> bool {
        self.stop_seen@
    }

    /// The hashes of the positions on the current search path.
    pub closed spec fn path_stack(&self) -> Seq<u64> {
        self.rep_stack@
    }

    /// The evaluator the search scores positions with.
    pub closed spec fn evaluator_in_use(&self) -> E {
        self.evaluator
    }

    /// A searcher with a 16 MB table, no history and no limits.
    pub fn new(evaluator: E) -> (s: Self)
        ensures
            s.inv(),
            s.nodes() == 0,
            s.position_history() == Seq::<u64>::empty(),
            s.path_stack() == Seq::<u64>::empty(),
            forall|h: u64| #[trigger] s.table().probe_spec(h) is None,
    {
        NegamaxSearcher {
            evaluator,
            nodes_searched: 0,
            stop: Arc::new(AtomicBool::new(false)),
            start_time: Instant::now(),
            time_limit_ms: u64::MAX,
            nodes_limit: None,
            tt: TranspositionTable::new(16),
            killer_moves: [None; 256],
            history: [0i32; 4096],
            countermove: [None; 4096],
            game_history: Vec::new(),
            rep_stack: Vec::new(),
            stop_seen: Ghost(false),
        }
    }

    /// Sets the hashes of the game's earlier positions, which count as
    /// repetitions in the search.
    pub fn set_position_history(&mut self, hashes: Vec<u64>)
        ensures
            final(self).position_history() == hashes@,
            final(self).inv() == old(self).inv(),
            final(self).table() == old(self).table(),
    {
        self.game_history = hashes;
    }

    /// The transposition table, to resize or clear it.
    pub fn tt_mut(&mut self) -> (r: &mut TranspositionTable)
        ensures
            *r == old(self).table(),
            final(self).table() == *final(r),
            final(self).inv() == final(r).wf(),
            final(self).position_history() == old(self).position_history(),
    {
        &mut self.tt
    }

    /// Milliseconds since the search started.
    fn elapsed_ms(&self) -> u64 {
        let d = self.start_time.elapsed();
        d.as_millis() as u64
    }

    /// Whether to stop: checked every 2048 nodes, when the stop flag is set,
    /// the node limit reached or the time used.
    fn should_stop(&self) -> (r: bool)
        ensures
            self.nodes_searched & 2047 != 0 ==> !r,
            (self.nodes_searched & 2047 == 0 && self.nodes_limit is Some && self.nodes_searched >= self.nodes_limit->0) ==> r,
    {
        if self.nodes_searched & 2047 != 0 {
            return false;
        }
        if self.stop.load(std::sync::atomic::Ordering::Relaxed) {
            return true;
        }
        if let Some(limit) = self.nodes_limit {
            if self.nodes_searched >= limit {
                return true;
            }
        }
        self.elapsed_ms() >= self.time_limit_ms
    }

    /// `should_stop`, remembering a yes in `stop_answered`.
    fn check_stop(&mut self) -> (r: bool)
        ensures
            old(self).nodes_searched & 2047 != 0 ==> !r,
            (old(self).nodes_searched & 2047 == 0 && old(self).nodes_limit is Some && old(self).nodes_searched
                >= old(self).nodes_limit->0) ==> r,
            *final(self) == (NegamaxSearcher { stop_seen: Ghost(old(self).stop_seen@ || r), ..*old(self) }),
    {
        let r = self.should_stop();
        proof {
            self.stop_seen@ = self.stop_seen@ || r;
        }
        r
    }

    /// The time budget of `color` under `config`.
    fn calculate_time(&self, config: &SearchConfig, color: Color) -> (r: u64)
        requires
            clock_ok(*config, color),
        ensures
            r == time_budget(*config, color),
    {
        if let Some(movetime) = config.movetime {
            return movetime;
        }
        if config.infinite {
            return u64::MAX;
        }
        if config.wtime.is_none() && config.btime.is_none() {
            return u64::MAX;
        }
        let our_time = match color {
            Color::White => config.wtime.unwrap_or(60000),
            Color::Black => config.btime.unwrap_or(60000),
        };
        let our_inc = match color {
            Color::White => config.winc.unwrap_or(0),
            Color::Black => config.binc.unwrap_or(0),
        };
        let moves_left = config.movestogo.unwrap_or(25) as u64;
        let base = our_time / moves_left + our_inc * 3 / 4;
        let max_time = our_time * 3 / 10;
        let min_time = if our_inc > 0 {
            our_inc / 2
        } else {
            50
        };
        let lo = if base >= min_time {
            base
        } else {
            min_time
        };
        if lo <= max_time {
            lo
        } else {
            max_time
        }
    }

    fn score_to_tt(score: Score, ply: u8) -> (r: i16)
        requires
            -SEARCH_LIMIT <= score <= SEARCH_LIMIT,
        ensures
            r == score_to_tt_spec(score as int, ply as int),
    {
        if score > SCORE_MATE - 100 {
            (score + ply as Score) as i16
        } else if score < -SCORE_MATE + 100 {
            (score - ply as Score) as i16
        } else {
            score as i16
        }
    }

    fn score_from_tt(score: i16, ply: u8) -> (r: Score)
        ensures
            r == score_from_tt_spec(score, ply as int),
            -33100 <= r <= 33100,
    {
        let s = score as Score;
        if s > SCORE_MATE - 100 {
            s - ply as Score
        } else if s < -SCORE_MATE + 100 {
            s + ply as Score
        } else {
            s
        }
    }

    /// The static evaluation, clamped to `EVAL_LIMIT`.
    fn static_eval(&self, board: &Board) -> (r: Score)
        ensures
            -EVAL_LIMIT <= r <= EVAL_LIMIT,
            r == clamp_eval(self.evaluator.value(*board)),
    {
        let e = self.evaluator.evaluate(board);
        if e > EVAL_LIMIT {
            EVAL_LIMIT
        } else if e < -EVAL_LIMIT {
            -EVAL_LIMIT
        } else {
            e
        }
    }

    /// The ordering score of a move: the table move first, then captures by
    /// victim and attacker, promotions, killers, the countermove, and last
    /// the history score.
    fn score_move(&self, board: &Board, mv: Move, tt_move: Option<Move>, ply: usize, prev_move: Option<Move>) -> (r: i32)
        requires
            board.wf(),
            mv.from < 64,
            mv.to < 64,
            prev_move matches Some(p) ==> p.from < 64 && p.to < 64,
    {
        if let Some(tm) = tt_move {
            if mv.from == tm.from && mv.to == tm.to && mv.promotion == tm.promotion {
                return 10_000_000;
            }
        }
        let victim = board.get_piece_at(mv.to);
        if let Some(v) = victim {
            let attacker = board.get_piece_at(mv.from);
            let lva = match attacker {
                Some(a) => lva_value(a.kind),
                None => lva_value(PieceKind::Pawn),
            };
            return 1_000_000 + mvv_value(v.kind) * 10 + lva;
        }
        if mv.is_en_passant {
            return 1_000_000 + mvv_value(PieceKind::Pawn) * 10 + lva_value(PieceKind::Pawn);
        }
        if let Some(promo) = mv.promotion {
            return match promo {
                PieceKind::Queen => 900_000,
                PieceKind::Rook => 500_000,
                _ => 300_000,
            };
        }
        if ply < MAX_PLY {
            if let Some(k1) = self.killer_moves[ply * 2] {
                if mv.from == k1.from && mv.to == k1.to {
                    return 800_000;
                }
            }
            if let Some(k2) = self.killer_moves[ply * 2 + 1] {
                if mv.from == k2.from && mv.to == k2.to {
                    return 700_000;
                }
            }
        }
        if let Some(pm) = prev_move {
            if let Some(cm) = self.countermove[pm.from as usize * 64 + pm.to as usize] {
                if mv.from == cm.from && mv.to == cm.to {
                    return 600_000;
                }
            }
        }
        self.history[mv.from as usize * 64 + mv.to as usize]
    }

    /// A move takes a piece: something stands on its destination, or it
    /// takes en passant.
    fn is_capture(board: &Board, mv: Move) -> (r: bool)
        requires
            board.wf(),
            mv.to < 64,
        ensures
            r == (board.piece_at(mv.to as int) is Some || mv.is_en_passant),
    {
        board.get_piece_at(mv.to).is_some() || mv.is_en_passant
    }

    /// Records a quiet move that caused a cutoff as the first killer of
    /// its ply, the old first becoming second, unless it is the first.
    fn update_killers(&mut self, mv: Move, ply: usize)
        ensures
            final(self).same_but_ordering(old(self)),
    {
        if ply >= MAX_PLY {
            return;
        }
        if let Some(k1) = self.killer_moves[ply * 2] {
            if k1.from == mv.from && k1.to == mv.to {
                return;
            }
        }
        let first = self.killer_moves[ply * 2];
        self.killer_moves[ply * 2 + 1] = first;
        self.killer_moves[ply * 2] = Some(mv);
    }

    /// Adds the square of the depth to the history score of a move, at
    /// most 1 000 000.
    fn update_history(&mut self, mv: Move, depth: u8)
        requires
            mv.from < 64,
            mv.to < 64,
        ensures
            final(self).same_but_ordering(old(self)),
    {
        assert(depth * depth <= 255 * 255) by (nonlinear_arith)
            requires
                depth <= 255,
        ;
        let bonus = (depth as i32) * (depth as i32);
        let i = mv.from as usize * 64 + mv.to as usize;
        let cur = self.history[i];
        let entry = if cur > 1_000_000 - bonus {
            1_000_000
        } else {
            cur + bonus
        };
        self.history[i] = entry;
    }

    /// The position occurred before: in the game or on the current line.
    fn is_repetition(&self, hash: u64) -> (r: bool)
        ensures
            r == self.rep_stack@.contains(hash),
    {
        let mut i: usize = self.rep_stack.len();
        while i > 0
            invariant
                i <= self.rep_stack.len(),
                forall|j: int| i <= j < self.rep_stack.len() ==> self.rep_stack@[j] != hash,
            decreases i,
        {
            i = i - 1;
            if self.rep_stack[i] == hash {
                return true;
            }
        }
        false
    }

    /// The side to move has a knight, bishop, rook or queen.
    fn has_non_pawn_material(board: &Board) -> (r: bool)
        ensures
            r == ((board.color_bb(board.to_move) & (board.knights | board.bishops | board.rooks | board.queens)) != 0),
    {
        let our = if board.to_move == Color::White {
            board.white_pieces
        } else {
            board.black_pieces
        };
        (our & (board.knights | board.bishops | board.rooks | board.queens)) != 0
    }

    /// Forgets the killers and halves the history scores.
    fn clear_move_ordering(&mut self)
        ensures
            final(self).same_but_ordering(old(self)),
    {
        self.killer_moves = [None; 256];
        let mut i: usize = 0;
        while i < 4096
            invariant
                i <= 4096,
                self.same_but_ordering(old(self)),
            decreases 4096 - i,
        {
            let v = self.history[i] / 2;
            self.history[i] = v;
            i = i + 1;
        }
    }

    /// The value of the piece a capture takes, for pruning.
    fn victim_value(board: &Board, mv: Move) -> (r: i32)
        requires
            board.wf(),
            mv.to < 64,
        ensures
            0 <= r <= 20000,
            r == victim_spec(*board, mv),
    {
        if let Some(v) = board.get_piece_at(mv.to) {
            mvv_value(v.kind)
        } else if mv.is_en_passant {
            mvv_value(PieceKind::Pawn)
        } else {
            0
        }
    }

    /// The playable moves of `moves`, each with its ordering score: the
    /// victim's value times ten plus the attacker's when `captures_only`,
    /// the full ordering score otherwise.
    fn scored_moves(&self, board: &Board, moves: &Vec<Move>, captures_only: bool, tt_move: Option<Move>, ply: usize, prev_move: Option<Move>) -> (r: Vec<(Move, i32)>)
        requires
            board.wf(),
            prev_move matches Some(p) ==> p.from < 64 && p.to < 64,
        ensures
            forall|k: int| 0 <= k < r.len() ==> move_shape_ok(*board, #[trigger] r@[k].0),
            forall|k: int| 0 <= k < r.len() ==> moves@.contains(#[trigger] r@[k].0),
            forall|m: Move| moves@.contains(m) && move_shape_ok(*board, m) ==> exists|k: int| 0 <= k < r.len() && #[trigger] r@[k].0 == m,
    {
        let mut r: Vec<(Move, i32)> = Vec::new();
        let mut i: usize = 0;
        while i < moves.len()
            invariant
                board.wf(),
                prev_move matches Some(p) ==> p.from < 64 && p.to < 64,
                i <= moves.len(),
                forall|k: int| 0 <= k < r.len() ==> move_shape_ok(*board, #[trigger] r@[k].0),
                forall|k: int| 0 <= k < r.len() ==> moves@.contains(#[trigger] r@[k].0),
                forall|j: int| 0 <= j < i && move_shape_ok(*board, moves@[j]) ==> exists|k: int| 0 <= k < r.len() && #[trigger] r@[k].0 == moves@[j],
            decreases moves.len() - i,
        {
            let mv = moves[i];
            if board.can_play(mv) {
                let score = if captures_only {
                    if let Some(v) = board.get_piece_at(mv.to) {
                        let lva = match board.get_piece_at(mv.from) {
                            Some(a) => lva_value(a.kind),
                            None => lva_value(PieceKind::Pawn),
                        };
                        mvv_value(v.kind) * 10 + lva
                    } else if mv.is_en_passant {
                        mvv_value(PieceKind::Pawn) * 10 + lva_value(PieceKind::Pawn)
                    } else {
                        0
                    }
                } else {
                    self.score_move(board, mv, tt_move, ply, prev_move)
                };
                let ghost before = r@;
                r.push((mv, score));
                proof {
                    assert forall|j: int| 0 <= j < i + 1 && move_shape_ok(*board, moves@[j]) implies exists|k: int|
                        0 <= k < r.len() && #[trigger] r@[k].0 == moves@[j] by {
                        if j < i {
                            let k = choose|k: int| 0 <= k < before.len() && #[trigger] before[k].0 == moves@[j];
                            assert(r@[k] == before[k]);
                        } else {
                            assert(r@[r.len() - 1].0 == moves@[j]);
                        }
                    }
                }
            }
            i = i + 1;
        }
        r
    }

    /// Moves the best-scored entry of `v[i..]` to position `i`, by a swap.
    fn pick_best(v: &mut Vec<(Move, i32)>, i: usize)
        requires
            i < old(v).len(),
        ensures
            final(v).len() == old(v).len(),
            forall|k: int| 0 <= k < i ==> final(v)@[k] == old(v)@[k],
            forall|x: (Move, i32)| final(v)@.contains(x) <==> old(v)@.contains(x),
    {
        let mut best_idx = i;
        let mut j = i + 1;
        while j < v.len()
            invariant
                i <= best_idx < v.len(),
                i < j <= v.len(),
            decreases v.len() - j,
        {
            if v[j].1 > v[best_idx].1 {
                best_idx = j;
            }
            j = j + 1;
        }
        let a = v[i];
        let b = v[best_idx];
        let ghost s0 = v@;
        v.set(i, b);
        v.set(best_idx, a);
        proof {
            assert forall|x: (Move, i32)| v@.contains(x) <==> s0.contains(x) by {
                if v@.contains(x) {
                    let k = choose|k: int| 0 <= k < v.len() && v@[k] == x;
                    if k == i {
                        assert(s0[best_idx as int] == x);
                    } else if k == best_idx {
                        assert(s0[i as int] == x);
                    } else {
                        assert(s0[k] == x);
                    }
                }
                if s0.contains(x) {
                    let k = choose|k: int| 0 <= k < s0.len() && s0[k] == x;
                    if k == i {
                        assert(v@[best_idx as int] == x);
                    } else if k == best_idx {
                        assert(v@[i as int] == x);
                    } else {
                        assert(v@[k] == x);
                    }
                }
            }
        }
    }

    /// Searches captures only until the position is quiet, from `ply`
    /// plies below the root; stands pat on the static evaluation.
    #[verifier::loop_isolation(false)]
    fn quiescence(&mut self, board: &Board, alpha: Score, beta: Score, ply: u8) -> (r: Score)
        requires
            old(self).inv(),
            playable(*board),
            -SEARCH_LIMIT <= alpha < beta <= SEARCH_LIMIT,
        ensures
            final(self).inv(),
            final(self).rep_stack == old(self).rep_stack,
            final(self).game_history == old(self).game_history,
            final(self).evaluator == old(self).evaluator,
            -score_bound(alpha as int, beta as int) <= r <= score_bound(alpha as int, beta as int),
            old(self).stop_seen@ ==> final(self).stop_seen@,
            !final(self).stop_seen@ ==> q_rel(old(self).evaluator, *board, alpha as int, beta as int, ply as int, r as int),
        decreases 255 - ply,
    {
        let ghost ev = self.evaluator;
        self.nodes_searched = self.nodes_searched.wrapping_add(1);
        if self.check_stop() {
            return 0;
        }
        if ply as usize >= MAX_PLY - 10 {
            return self.static_eval(board);
        }
        let stand_pat = self.static_eval(board);
        if stand_pat >= beta {
            return beta;
        }
        let alpha0 = alpha;
        let mut alpha = alpha;
        if stand_pat > alpha {
            alpha = stand_pat;
        }
        let ghost a1 = alpha as int;
        if stand_pat + 900 < alpha {
            return alpha;
        }
        let captures = board.generate_capture_moves();
        let mut scored = self.scored_moves(board, &captures, true, None, 0, None);
        let n = scored.len();
        proof {
            assert forall|m: Move| (exists|k: int| 0 <= k < n && #[trigger] scored@[k].0 == m) <==> capture_move(*board, m)
                && move_shape_ok(*board, m) by {
                if capture_move(*board, m) && move_shape_ok(*board, m) {
                    assert(captures@.contains(m));
                }
                if exists|k: int| 0 <= k < n && #[trigger] scored@[k].0 == m {
                    let k = choose|k: int| 0 <= k < n && #[trigger] scored@[k].0 == m;
                    assert(captures@.contains(scored@[k].0));
                }
            }
        }
        let mut i: usize = 0;
        while i < n
            invariant
                old(self).stop_seen@ ==> self.stop_seen@,
                self.inv(),
                self.evaluator == ev,
                ev == old(self).evaluator,
                playable(*board),
                scored.len() == n,
                i <= n,
                forall|k: int| 0 <= k < n ==> move_shape_ok(*board, #[trigger] scored@[k].0),
                forall|m: Move| (exists|k: int| 0 <= k < n && #[trigger] scored@[k].0 == m) <==> capture_move(*board, m)
                    && move_shape_ok(*board, m),
                -SEARCH_LIMIT <= alpha < beta <= SEARCH_LIMIT,
                -score_bound(alpha0 as int, beta as int) <= alpha <= score_bound(alpha0 as int, beta as int),
                alpha0 <= alpha,
                -EVAL_LIMIT <= stand_pat <= EVAL_LIMIT,
                stand_pat == clamp_eval(ev.value(*board)),
                stand_pat < beta,
                a1 == max_int(stand_pat as int, alpha0 as int),
                stand_pat + 900 >= a1,
                self.rep_stack == old(self).rep_stack,
                self.game_history == old(self).game_history,
                ply < 118,
                !self.stop_seen@ ==> forall|caps: Seq<Move>, rr: int|
                    #![trigger q_loop(ev, *board, caps, i as int, alpha as int, beta as int, stand_pat as int, ply as int, rr)]
                    caps.len() == n && (forall|k: int| 0 <= k < i ==> caps[k] == #[trigger] scored@[k].0) && q_loop(
                        ev,
                        *board,
                        caps,
                        i as int,
                        alpha as int,
                        beta as int,
                        stand_pat as int,
                        ply as int,
                        rr,
                    ) ==> q_loop(ev, *board, caps, 0, a1, beta as int, stand_pat as int, ply as int, rr),
            decreases n - i,
        {
            let ghost before = scored@;
            Self::pick_best(&mut scored, i);
            proof {
                assert forall|k: int| 0 <= k < n implies move_shape_ok(*board, #[trigger] scored@[k].0) by {
                    assert(scored@.contains(scored@[k]));
                    let j = choose|j: int| 0 <= j < before.len() && before[j] == scored@[k];
                    assert(move_shape_ok(*board, before[j].0));
                }
                assert forall|m: Move| (exists|k: int| 0 <= k < n && #[trigger] scored@[k].0 == m) <==> capture_move(
                    *board,
                    m,
                ) && move_shape_ok(*board, m) by {
                    if exists|k: int| 0 <= k < n && #[trigger] scored@[k].0 == m {
                        let k = choose|k: int| 0 <= k < n && #[trigger] scored@[k].0 == m;
                        assert(scored@.contains(scored@[k]));
                        let j = choose|j: int| 0 <= j < before.len() && before[j] == scored@[k];
                        assert(before[j].0 == m);
                    }
                    if exists|k: int| 0 <= k < n && #[trigger] before[k].0 == m {
                        let k = choose|k: int| 0 <= k < n && #[trigger] before[k].0 == m;
                        assert(before.contains(before[k]));
                        let j = choose|j: int| 0 <= j < n && scored@[j] == before[k];
                        assert(scored@[j].0 == m);
                    }
                }
            }
            let mv = scored[i].0;
            let ghost alpha_i: int = alpha as int;
            let ghost bi: int = beta as int;
            let ghost spi: int = stand_pat as int;
            let ghost pi: int = ply as int;
            let ghost seen_i = self.stop_seen@;
            let victim_val = Self::victim_value(board, mv);
            if stand_pat + victim_val + 200 >= alpha {
                let mut child = *board;
                let legal = child.make_move(mv);
                let ghost u = choose|u: UndoInfo| made(*board, mv, child, u);
                proof {
                    crate::perft::lemma_legal_iff_king_safe_after(*board, mv, child, u);
                }
                if legal {
                    let sc = self.quiescence(&child, -beta, -alpha, ply + 1);
                    let score = -sc;
                    if self.check_stop() {
                        return 0;
                    }
                    proof {
                        if !self.stop_seen@ {
                            assert(q_rel(ev, child, -bi, -alpha_i, pi + 1, sc as int));
                        }
                    }
                    if score >= beta {
                        proof {
                            if !self.stop_seen@ {
                                let caps = Seq::new(n as nat, |k: int| scored@[k].0);
                assert(chosen(caps));
                                assert(caps[i as int] == mv);
                                assert(made(*board, mv, child, u));
                                lemma_q_loop_searched(ev, *board, caps, i as int, alpha_i, bi, spi, pi, bi, child, u, sc as int);
                                assert forall|m: Move| #[trigger] caps.contains(m) <==> capture_move(*board, m) && move_shape_ok(*board, m) by {
                                    if caps.contains(m) {
                                        let k = choose|k: int| 0 <= k < caps.len() && caps[k] == m;
                                        assert(scored@[k].0 == m);
                                    }
                                    if capture_move(*board, m) && move_shape_ok(*board, m) {
                                        let k = choose|k: int| 0 <= k < n && #[trigger] scored@[k].0 == m;
                                        assert(caps[k] == m);
                                    }
                                }
                                assert forall|k: int| 0 <= k < i implies caps[k] == #[trigger] before[k].0 by {
                                    assert(scored@[k] == before[k]);
                                }
                                assert(q_loop(ev, *board, caps, 0, a1, bi, spi, pi, bi));
                            }
                        }
                        return beta;
                    }
                    if score > alpha {
                        alpha = score;
                    }
                    proof {
                        if !self.stop_seen@ {
                            assert forall|caps: Seq<Move>, rr: int|
                                caps.len() == n && caps[i as int] == mv && q_loop(ev, *board, caps, i + 1, alpha as int, bi, spi, pi, rr)
                                implies q_loop(ev, *board, caps, i as int, alpha_i, bi, spi, pi, rr) by {
                                assert(max_int(-(sc as int), alpha_i) == alpha as int);
                                lemma_q_loop_searched(ev, *board, caps, i as int, alpha_i, bi, spi, pi, rr, child, u, sc as int);
                            }
                        }
                    }
                } else {
                    proof {
                        assert forall|caps: Seq<Move>, rr: int|
                            caps.len() == n && caps[i as int] == mv && q_loop(ev, *board, caps, i + 1, alpha as int, bi, spi, pi, rr)
                            implies q_loop(ev, *board, caps, i as int, alpha_i, bi, spi, pi, rr) by {
                            lemma_q_loop_skipped(ev, *board, caps, i as int, alpha_i, bi, spi, pi, rr);
                        }
                    }
                }
            } else {
                proof {
                    assert forall|caps: Seq<Move>, rr: int|
                        caps.len() == n && caps[i as int] == mv && q_loop(ev, *board, caps, i + 1, alpha as int, bi, spi, pi, rr)
                        implies q_loop(ev, *board, caps, i as int, alpha_i, bi, spi, pi, rr) by {
                        lemma_q_loop_skipped(ev, *board, caps, i as int, alpha_i, bi, spi, pi, rr);
                    }
                }
            }
            proof {
                if !self.stop_seen@ {
                    assert(!seen_i);
                    assert forall|caps: Seq<Move>, rr: int|
                        caps.len() == n && (forall|k: int| 0 <= k < i + 1 ==> caps[k] == #[trigger] scored@[k].0) && q_loop(
                            ev,
                            *board,
                            caps,
                            i + 1,
                            alpha as int,
                            bi,
                            spi,
                            pi,
                            rr,
                        ) implies q_loop(ev, *board, caps, 0, a1, bi, spi, pi, rr) by {
                        assert(caps[i as int] == scored@[i as int].0);
                        assert(q_loop(ev, *board, caps, i as int, alpha_i, bi, spi, pi, rr));
                        assert forall|k: int| 0 <= k < i implies caps[k] == #[trigger] before[k].0 by {
                            assert(scored@[k] == before[k]);
                            assert(caps[k] == scored@[k].0);
                        }
                    }
                }
            }
            i = i + 1;
        }
        proof {
            if !self.stop_seen@ {
                let caps = Seq::new(n as nat, |k: int| scored@[k].0);
                assert(chosen(caps));
                assert(q_loop(ev, *board, caps, n as int, alpha as int, beta as int, stand_pat as int, ply as int, alpha as int));
                assert forall|m: Move| #[trigger] caps.contains(m) <==> capture_move(*board, m) && move_shape_ok(*board, m) by {
                    if caps.contains(m) {
                        let k = choose|k: int| 0 <= k < caps.len() && caps[k] == m;
                        assert(scored@[k].0 == m);
                    }
                    if capture_move(*board, m) && move_shape_ok(*board, m) {
                        let k = choose|k: int| 0 <= k < n && #[trigger] scored@[k].0 == m;
                        assert(caps[k] == m);
                    }
                }
                assert(q_loop(ev, *board, caps, 0, a1, beta as int, stand_pat as int, ply as int, alpha as int));
            }
        }
        alpha
    }

    /// The alpha-beta search of `board` to `depth` plies (extended by one in
    /// check) in the window `alpha..beta`, `ply` plies below the root,
    /// after `prev_move`. Returns the score for the side to move and leaves
    /// in `pv` the line found, legal from `board`.
    #[verifier::spinoff_prover]
    #[verifier::rlimit(100)]
    fn negamax(
        &mut self,
        board: &Board,
        depth: u8,
        alpha: Score,
        beta: Score,
        ply: u8,
        pv: &mut Vec<Move>,
        prev_move: Option<Move>,
    ) -> (r: Score)
        requires
            old(self).inv(),
            playable(*board),
            depth <= 64,
            -SEARCH_LIMIT <= alpha < beta <= SEARCH_LIMIT,
            old(pv)@.len() == 0,
            prev_move matches Some(p) ==> p.from < 64 && p.to < 64,
        ensures
            final(self).inv(),
            final(self).game_history == old(self).game_history,
            final(self).evaluator == old(self).evaluator,
            stack_extends(old(self).rep_stack@, final(self).rep_stack@),
            -score_bound(alpha as int, beta as int) <= r <= score_bound(alpha as int, beta as int),
            legal_line(*board, final(pv)@),
            old(self).stop_seen@ ==> final(self).stop_seen@,
            !final(self).stop_seen@ ==> final(self).rep_stack@ == old(self).rep_stack@,
            !final(self).stop_seen@ ==> nm_rel(
                old(self).evaluator,
                old(self).tt,
                old(self).rep_stack@,
                *board,
                depth as int,
                alpha as int,
                beta as int,
                ply as int,
                r as int,
            ),
            (!final(self).stop_seen@ && !no_legal_move(*board) && ply < 255 && !insufficient_material(*board)
                && !fifty_moves(*board) && (ply == 0 || !old(self).rep_stack@.contains(board.zobrist_hash))
                && old(self).tt.probe_spec(board.zobrist_hash) is None && (depth > 0 || in_check_spec(
                *board,
                board.to_move,
            )) && (in_check_spec(*board, board.to_move) || beta - alpha > 1 || depth < 3)) ==> final(pv)@.len() > 0
                || r == -SCORE_INF,
            (no_legal_move(*board) && old(self).nodes_searched.wrapping_add(1) & 2047 != 0 && ply < 255
                && !insufficient_material(*board) && !fifty_moves(*board) && (ply == 0
                || !old(self).rep_stack@.contains(board.zobrist_hash)) && old(self).tt.probe_spec(board.zobrist_hash) is None)
                ==> if in_check_spec(*board, board.to_move) {
                r == -SCORE_MATE + ply
            } else if depth > 0 && (beta - alpha > 1 || depth < 3) {
                r == SCORE_DRAW
            } else {
                true
            },
        decreases 255 - ply,
    {
        let ghost ev = self.evaluator;
        let ghost t0 = self.tt;
        let ghost rs0 = self.rep_stack@;
        let ghost depth0 = depth as int;
        let ghost alpha0 = alpha as int;
        self.nodes_searched = self.nodes_searched.wrapping_add(1);
        if self.check_stop() {
            return 0;
        }
        if ply == 255 {
            return self.static_eval(board);
        }
        if board.is_draw_by_insufficient_material() || board.is_draw_by_50_moves() {
            return SCORE_DRAW;
        }
        if ply > 0 && self.is_repetition(board.zobrist_hash) {
            return SCORE_DRAW;
        }
        let in_check = board.is_king_in_check(board.to_move);
        let is_pv = beta - alpha > 1;
        let depth = if in_check {
            depth + 1
        } else {
            depth
        };
        let original_alpha = alpha;
        let mut alpha = alpha;
        let mut tt_move: Option<Move> = None;
        let probed = match self.tt.probe(board.zobrist_hash) {
            Some(e) => Some(*e),
            None => None,
        };
        if let Some(entry) = probed {
            tt_move = unpack_move(entry.best_move);
            if !is_pv && entry.depth >= depth {
                let tt_score = Self::score_from_tt(entry.score, ply);
                match entry.bound_type() {
                    Bound::Exact => {
                        return tt_score;
                    },
                    Bound::Lower => {
                        if tt_score >= beta {
                            return tt_score;
                        }
                        if tt_score > alpha {
                            alpha = tt_score;
                        }
                    },
                    Bound::Upper => {
                        if tt_score <= alpha {
                            return tt_score;
                        }
                    },
                }
            }
        }
        let ghost a2 = alpha as int;
        if depth == 0 {
            return self.quiescence(board, alpha, beta, ply);
        }
        let ghost mut null_tried = false;
        let ghost mut nb = *board;
        let ghost mut nr: int = 0;
        if !in_check && !is_pv && depth >= 3 && Self::has_non_pawn_material(board) {
            let r: u8 = if depth >= 6 {
                3
            } else {
                2
            };
            let mut null_board = *board;
            null_board.make_null_move();
            pv.clear();
            let nres = self.negamax(&null_board, depth - 1 - r, -beta, -beta + 1, ply + 1, pv, None);
            let null_score = -nres;
            proof {
                null_tried = true;
                nb = null_board;
                nr = nres as int;
            }
            pv.clear();
            if null_score >= beta {
                proof {
                    if !self.stop_seen@ {
                        lemma_nm_rel_null(ev, t0, rs0, *board, depth0, alpha0, beta as int, ply as int, beta as int, nb, nr);
                    }
                }
                return beta;
            }
        }
        let can_futility = if !is_pv && !in_check && depth <= 3 {
            let static_eval = self.static_eval(board);
            let futility_margin: Score = if depth == 1 {
                200
            } else if depth == 2 {
                500
            } else if depth == 3 {
                900
            } else {
                0
            };
            futility_margin > 0 && static_eval + futility_margin <= alpha
        } else {
            false
        };
        let ghost cf = !is_pv && !in_check && depth <= 3 && futility_margin(depth as int) > 0 && clamp_eval(
            ev.value(*board),
        ) + futility_margin(depth as int) <= a2;
        assert(can_futility == cf);
        let moves = board.generate_all_moves();
        let ply_idx = ply as usize;
        let mut scored = self.scored_moves(board, &moves, false, tt_move, ply_idx, prev_move);
        let ghost scored0 = scored@;
        proof {
            assert forall|k: int| 0 <= k < scored.len() implies pseudo_legal(*board, #[trigger] scored@[k].0) by {
                assert(moves@.contains(scored@[k].0));
            }
        }
        let mut best_score: Score = -SCORE_INF;
        let mut best_move_found: Option<Move> = None;
        let mut has_legal_move = false;
        let mut moves_searched: usize = 0;
        let ghost stack0 = self.rep_stack@;
        let ghost rs1 = rs0.push(board.zobrist_hash);
        let ghost seen_pre = self.stop_seen@;
        proof {
            if !seen_pre {
                assert(stack0 == rs0);
                if !in_check && !is_pv && depth >= 3 && (board.color_bb(board.to_move) & (board.knights | board.bishops
                    | board.rooks | board.queens)) != 0 {
                    assert(null_tried);
                    assert(null_of(*board, nb));
                    assert(nm_rel(ev, t0, rs0, nb, depth - 1 - (if depth >= 6 { 3int } else { 2int }), -beta, -beta + 1, ply + 1, nr));
                    assert(-nr < beta);
                }
            }
        }
        self.rep_stack.push(board.zobrist_hash);
        let mut child_pv: Vec<Move> = Vec::new();
        let n = scored.len();
        let mut i: usize = 0;
        let mut cutoff = false;
        while i < n && !cutoff
            invariant
                old(self).stop_seen@ ==> self.stop_seen@,
                self.inv(),
                self.evaluator == ev,
                ev == old(self).evaluator,
                playable(*board),
                scored.len() == n,
                forall|k: int| 0 <= k < n ==> move_shape_ok(*board, #[trigger] scored@[k].0),
                forall|k: int| 0 <= k < n ==> pseudo_legal(*board, #[trigger] scored@[k].0),
                has_legal_move ==> !no_legal_move(*board),
                pv@.len() == 0 ==> best_score == -SCORE_INF,
                cutoff ==> has_legal_move,
                !has_legal_move ==> forall|k: int| 0 <= k < i ==> !legal_move(*board, #[trigger] scored@[k].0),
                forall|x: (Move, i32)| scored@.contains(x) <==> scored0.contains(x),
                1 <= depth <= 65,
                ply < 255,
                !cutoff ==> alpha < beta,
                -SEARCH_LIMIT <= original_alpha < beta <= SEARCH_LIMIT,
                original_alpha <= alpha,
                -score_bound(original_alpha as int, beta as int) <= alpha <= score_bound(original_alpha as int, beta as int),
                -score_bound(original_alpha as int, beta as int) <= best_score <= score_bound(original_alpha as int, beta as int),
                moves_searched <= i,
                i <= n,
                stack_extends(stack0.push(board.zobrist_hash), self.rep_stack@),
                stack_extends(old(self).rep_stack@, stack0),
                !self.stop_seen@ ==> stack0 == rs0,
                !self.stop_seen@ ==> self.rep_stack@ == rs1,
                rs1 == rs0.push(board.zobrist_hash),
                self.game_history == old(self).game_history,
                legal_line(*board, pv@),
                prev_move matches Some(p) ==> p.from < 64 && p.to < 64,
                can_futility == cf,
                seen_pre ==> self.stop_seen@,
                !self.stop_seen@ ==> forall|ord: Seq<Move>, be: int, fe: bool|
                    #![trigger nm_loop(ev, *board, ord, i as int, rs1, alpha as int, beta as int, ply as int, cf, best_score as int, has_legal_move, moves_searched as int, cutoff, be, fe)]
                    ord.len() == n && (forall|k: int| 0 <= k < i ==> ord[k] == #[trigger] scored@[k].0) && nm_loop(
                        ev,
                        *board,
                        ord,
                        i as int,
                        rs1,
                        alpha as int,
                        beta as int,
                        ply as int,
                        cf,
                        best_score as int,
                        has_legal_move,
                        moves_searched as int,
                        cutoff,
                        be,
                        fe,
                    ) ==> nm_loop(ev, *board, ord, 0, rs1, a2, beta as int, ply as int, cf, -SCORE_INF as int, false, 0, false, be, fe),
            decreases n - i,
        {
            let ghost before = scored@;
            Self::pick_best(&mut scored, i);
            proof {
                assert forall|k: int| 0 <= k < n implies move_shape_ok(*board, #[trigger] scored@[k].0)
                    && pseudo_legal(*board, scored@[k].0) by {
                    assert(scored@.contains(scored@[k]));
                    let j = choose|j: int| 0 <= j < before.len() && before[j] == scored@[k];
                    assert(move_shape_ok(*board, before[j].0));
                    assert(pseudo_legal(*board, before[j].0));
                }
            }
            let mv = scored[i].0;
            let ghost alpha_i: int = alpha as int;
            let ghost best_i: int = best_score as int;
            let ghost has_i = has_legal_move;
            let ghost ms_i: int = moves_searched as int;
            let ghost seen_i = self.stop_seen@;
            let mut child = *board;
            let legal = child.make_move(mv);
            let ghost u = choose|u: UndoInfo| made(*board, mv, child, u);
            proof {
                crate::perft::lemma_legal_iff_king_safe_after(*board, mv, child, u);
            }
            if legal {
                proof {
                    lemma_safe_after(*board, mv, child, u);
                    assert(legal_moves(*board).contains(mv));
                }
                has_legal_move = true;
                let is_cap = Self::is_capture(board, mv);
                let is_promo = mv.promotion.is_some();
                let gives_check = child.is_king_in_check(child.to_move);
                if can_futility && moves_searched > 0 && !is_cap && !is_promo && !gives_check {
                    moves_searched = moves_searched + 1;
                    proof {
                        assert forall|ord: Seq<Move>, be: int, fe: bool|
                            ord.len() == n && ord[i as int] == mv && nm_loop(ev, *board, ord, i + 1, rs1, alpha as int, beta as int, ply as int, cf, best_score as int, true, moves_searched as int, false, be, fe)
                            implies nm_loop(ev, *board, ord, i as int, rs1, alpha_i, beta as int, ply as int, cf, best_i, has_i, ms_i, false, be, fe) by {
                            lemma_nm_loop_futile(ev, *board, ord, i as int, rs1, alpha_i, beta as int, ply as int, cf, best_i, has_i, ms_i, be, fe, child, u);
                        }
                    }
                } else {
                    child_pv.clear();
                    let score;
                    let ghost mut gt: TranspositionTable = self.tt;
                    let ghost mut gd: int = 0;
                    let ghost mut ga: int = 0;
                    let ghost mut gb: int = 0;
                    let ghost mut gcr: int = 0;
                    if moves_searched == 0 {
                        let ghost tc = self.tt;
                        let c0 = self.negamax(&child, depth - 1, -beta, -alpha, ply + 1, &mut child_pv, Some(mv));
                        proof {
                            gt = tc;
                            gd = (depth - 1) as int;
                            ga = -beta;
                            gb = -alpha;
                            gcr = c0 as int;
                            if !self.stop_seen@ {
                                assert(self.rep_stack@ == rs1);
                                assert(nm_rel(ev, gt, rs1, child, gd, ga, gb, ply + 1, gcr));
                            }
                        }
                        score = -c0;
                    } else {
                        let mut reduction: u8 = 0;
                        if depth >= 3 && moves_searched >= 4 && !is_cap && !is_promo && !in_check && !gives_check {
                            let d: usize = if depth < 63 {
                                depth as usize
                            } else {
                                63
                            };
                            let m: usize = if moves_searched < 63 {
                                moves_searched
                            } else {
                                63
                            };
                            reduction = lmr_reduction(d, m);
                            if reduction >= depth - 1 {
                                reduction = depth - 2;
                            }
                        }
                        let reduced_depth = depth - 1 - reduction;
                        let ghost tc1 = self.tt;
                        let c1 = self.negamax(
                            &child,
                            reduced_depth,
                            -alpha - 1,
                            -alpha,
                            ply + 1,
                            &mut child_pv,
                            Some(mv),
                        );
                        proof {
                            gt = tc1;
                            gd = reduced_depth as int;
                            ga = -alpha - 1;
                            gb = -alpha as int;
                            gcr = c1 as int;
                            if !self.stop_seen@ {
                                assert(self.rep_stack@ == rs1);
                                assert(nm_rel(ev, gt, rs1, child, gd, ga, gb, ply + 1, gcr));
                            }
                        }
                        let mut zw_score = -c1;
                        if reduction > 0 && zw_score > alpha {
                            child_pv.clear();
                            let ghost tc2 = self.tt;
                            let c2 = self.negamax(&child, depth - 1, -alpha - 1, -alpha, ply + 1, &mut child_pv, Some(mv));
                            proof {
                                gt = tc2;
                                gd = (depth - 1) as int;
                                ga = -alpha - 1;
                                gb = -alpha as int;
                                gcr = c2 as int;
                                if !self.stop_seen@ {
                                    assert(self.rep_stack@ == rs1);
                                    assert(nm_rel(ev, gt, rs1, child, gd, ga, gb, ply + 1, gcr));
                                }
                            }
                            zw_score = -c2;
                        }
                        if zw_score > alpha && zw_score < beta {
                            child_pv.clear();
                            let ghost tc3 = self.tt;
                            let c3 = self.negamax(&child, depth - 1, -beta, -alpha, ply + 1, &mut child_pv, Some(mv));
                            proof {
                                gt = tc3;
                                gd = (depth - 1) as int;
                                ga = -beta;
                                gb = -alpha as int;
                                gcr = c3 as int;
                                if !self.stop_seen@ {
                                    assert(self.rep_stack@ == rs1);
                                    assert(nm_rel(ev, gt, rs1, child, gd, ga, gb, ply + 1, gcr));
                                }
                            }
                            zw_score = -c3;
                        }
                        score = zw_score;
                    }
                    let ghost seen_c = self.stop_seen@;
                    proof {
                        assert(score == -gcr);
                        assert(!seen_c ==> nm_rel(ev, gt, rs1, child, gd, ga, gb, ply + 1, gcr));
                        assert(gb == -alpha_i && (ga == -beta || ga == -alpha_i - 1) && (ms_i == 0 ==> ga == -beta));
                    }
                    moves_searched = moves_searched + 1;
                    if self.check_stop() {
                        proof {
                            assert forall|j: int| 0 <= j < old(self).rep_stack@.len() implies #[trigger] self.rep_stack@[j]
                                == old(self).rep_stack@[j] by {
                                assert(stack0.push(board.zobrist_hash)[j] == stack0[j]);
                            }
                        }
                        return 0;
                    }
                    proof {
                        assert(self.stop_seen@ == seen_c);
                    }
                    if score > best_score {
                        best_score = score;
                        best_move_found = Some(mv);
                        pv.clear();
                        pv.push(mv);
                        extend_line(pv, &child_pv);
                        proof {
                            lemma_line_cons(*board, mv, child, u, child_pv@);
                            assert(pv@ =~= seq![mv] + child_pv@);
                        }
                    }
                    if score > alpha {
                        alpha = score;
                    }
                    if alpha >= beta {
                        if !is_cap && !is_promo {
                            self.update_killers(mv, ply_idx);
                            self.update_history(mv, depth);
                            if let Some(pm) = prev_move {
                                self.countermove[pm.from as usize * 64 + pm.to as usize] = Some(mv);
                            }
                        }
                        cutoff = true;
                    }
                    proof {
                        assert(alpha as int == max_int(alpha_i, -gcr));
                        assert(best_score as int == max_int(best_i, -gcr));
                        assert(cutoff == (max_int(alpha_i, -gcr) >= beta));
                        if !self.stop_seen@ {
                        assert(nm_rel(ev, gt, rs1, child, gd, ga, gb, ply + 1, gcr));
                        assert forall|ord: Seq<Move>, be: int, fe: bool|
                            ord.len() == n && ord[i as int] == mv && nm_loop(ev, *board, ord, i + 1, rs1, alpha as int, beta as int, ply as int, cf, best_score as int, true, moves_searched as int, cutoff, be, fe)
                            implies nm_loop(ev, *board, ord, i as int, rs1, alpha_i, beta as int, ply as int, cf, best_i, has_i, ms_i, false, be, fe) by {
                            lemma_nm_loop_searched(ev, *board, ord, i as int, rs1, alpha_i, beta as int, ply as int, cf, best_i, has_i, ms_i, be, fe, child, u, gt, gd, ga, gb, gcr);
                        }
                        }
                    }
                }
            } else {
                proof {
                    assert forall|ord: Seq<Move>, be: int, fe: bool|
                        ord.len() == n && ord[i as int] == mv && nm_loop(ev, *board, ord, i + 1, rs1, alpha as int, beta as int, ply as int, cf, best_score as int, has_legal_move, moves_searched as int, false, be, fe)
                        implies nm_loop(ev, *board, ord, i as int, rs1, alpha_i, beta as int, ply as int, cf, best_i, has_i, ms_i, false, be, fe) by {
                        lemma_nm_loop_illegal(ev, *board, ord, i as int, rs1, alpha_i, beta as int, ply as int, cf, best_i, has_i, ms_i, be, fe);
                    }
                }
            }
            proof {
                if !self.stop_seen@ {
                    assert(!seen_i);
                    assert forall|ord: Seq<Move>, be: int, fe: bool|
                        ord.len() == n && (forall|k: int| 0 <= k < i + 1 ==> ord[k] == #[trigger] scored@[k].0) && #[trigger] nm_loop(
                            ev,
                            *board,
                            ord,
                            i + 1,
                            rs1,
                            alpha as int,
                            beta as int,
                            ply as int,
                            cf,
                            best_score as int,
                            has_legal_move,
                            moves_searched as int,
                            cutoff,
                            be,
                            fe,
                        ) implies nm_loop(ev, *board, ord, 0, rs1, a2, beta as int, ply as int, cf, -SCORE_INF as int, false, 0, false, be, fe) by {
                        assert(ord[i as int] == scored@[i as int].0);
                        assert(nm_loop(ev, *board, ord, i as int, rs1, alpha_i, beta as int, ply as int, cf, best_i, has_i, ms_i, false, be, fe));
                        assert forall|k: int| 0 <= k < i implies ord[k] == #[trigger] before[k].0 by {
                            assert(scored@[k] == before[k]);
                            assert(ord[k] == scored@[k].0);
                        }
                    }
                }
            }
            i = i + 1;
        }
        let _ = self.rep_stack.pop();
        let ghost ord = Seq::new(n as nat, |k: int| scored@[k].0);
        proof {
            assert forall|m: Move| #[trigger] legal_moves(*board).contains(m) implies ord.contains(m) by {
                assert(moves@.contains(m));
                assert(move_shape_ok(*board, m));
                let k = choose|k: int| 0 <= k < scored0.len() && #[trigger] scored0[k].0 == m;
                assert(scored0.contains(scored0[k]));
                assert(scored@.contains(scored0[k]));
                let k2 = choose|k2: int| 0 <= k2 < n && scored@[k2] == scored0[k];
                assert(ord[k2] == m);
            }
            if !has_legal_move {
                assert forall|m: Move| !#[trigger] legal_moves(*board).contains(m) by {
                    if legal_moves(*board).contains(m) {
                        assert(moves@.contains(m));
                        assert(move_shape_ok(*board, m));
                        let k = choose|k: int| 0 <= k < scored0.len() && #[trigger] scored0[k].0 == m;
                        assert(scored0.contains(scored0[k]));
                        assert(scored@.contains(scored0[k]));
                        let k2 = choose|k2: int| 0 <= k2 < n && scored@[k2] == scored0[k];
                        assert(!legal_move(*board, scored@[k2].0));
                    }
                }
            }
            if !self.stop_seen@ {
                assert(nm_loop(ev, *board, ord, i as int, rs1, alpha as int, beta as int, ply as int, cf, best_score as int, has_legal_move, moves_searched as int, cutoff, best_score as int, has_legal_move));
                assert(nm_loop(ev, *board, ord, 0, rs1, a2, beta as int, ply as int, cf, -SCORE_INF as int, false, 0, false, best_score as int, has_legal_move));
            }
        }
        if !has_legal_move {
            let res = if in_check {
                -SCORE_MATE + ply as Score
            } else {
                SCORE_DRAW
            };
            proof {
                if !self.stop_seen@ {
                    lemma_node_body(ev, rs0, *board, depth as int, a2, beta as int, ply as int, in_check, is_pv, res as int, ord, best_score as int, has_legal_move);
                    lemma_nm_rel_close(ev, t0, rs0, *board, depth0, alpha0, beta as int, ply as int, res as int, a2, null_tried, nb, nr);
                }
            }
            return res;
        }
        let bound = if best_score >= beta {
            Bound::Lower
        } else if best_score > original_alpha {
            Bound::Exact
        } else {
            Bound::Upper
        };
        let packed = match best_move_found {
            Some(m) => pack_move(m),
            None => 0,
        };
        self.tt.store(board.zobrist_hash, depth, Self::score_to_tt(best_score, ply), bound, packed);
        proof {
            if !self.stop_seen@ {
                lemma_node_body(ev, rs0, *board, depth as int, a2, beta as int, ply as int, in_check, is_pv, best_score as int, ord, best_score as int, has_legal_move);
                lemma_nm_rel_close(ev, t0, rs0, *board, depth0, alpha0, beta as int, ply as int, best_score as int, a2, null_tried, nb, nr);
            }
        }
        best_score
    }

    /// Counts the legal moves among `moves`, stopping at two: zero, or one
    /// with that move, or two.
    fn count_legal(board: &Board, moves: &Vec<Move>) -> (r: (u32, Option<Move>))
        requires
            playable(*board),
            moves@.no_duplicates(),
            forall|m: Move| #![trigger moves@.contains(m)] moves@.contains(m) <==> pseudo_legal(*board, m),
        ensures
            r.0 <= 2,
            r.0 == 0 ==> no_legal_move(*board),
            r.0 == 1 ==> r.1 is Some && sole_legal_move(*board, r.1->0),
            r.0 == 2 ==> forall|m: Move| !sole_legal_move(*board, m),
    {
        let mut legal_count: u32 = 0;
        let mut single_move: Option<Move> = None;
        let ghost mut first: Move = arbitrary();
        let ghost mut first_idx: int = 0;
        let mut i: usize = 0;
        while i < moves.len() && legal_count <= 1
            invariant
                playable(*board),
                i <= moves.len(),
                legal_count <= 2,
                moves@.no_duplicates(),
                forall|m: Move| #![trigger moves@.contains(m)] moves@.contains(m) <==> pseudo_legal(*board, m),
                legal_count == 0 ==> forall|j: int| 0 <= j < i ==> !legal_move(*board, #[trigger] moves@[j]),
                legal_count == 1 ==> single_move is Some && legal_moves(*board).contains(single_move->0) && forall|j: int|
                    0 <= j < i && legal_move(*board, #[trigger] moves@[j]) ==> moves@[j] == single_move->0,
                legal_count >= 1 ==> 0 <= first_idx < i && moves@[first_idx] == first && legal_moves(*board).contains(first),
                legal_count == 1 ==> single_move == Some(first),
                legal_count == 2 ==> single_move is Some && legal_moves(*board).contains(single_move->0)
                    && single_move->0 != first,
            decreases moves.len() - i,
        {
            let mv = moves[i];
            assert(moves@.contains(mv));
            if board.can_play(mv) {
                let mut test = *board;
                let legal = test.make_move(mv);
                proof {
                    let u = choose|u: UndoInfo| made(*board, mv, test, u);
                    lemma_safe_after(*board, mv, test, u);
                }
                if legal {
                    proof {
                        if legal_count == 0 {
                            first = mv;
                            first_idx = i as int;
                        } else {
                            assert(moves@[first_idx] != moves@[i as int]);
                        }
                    }
                    legal_count = legal_count + 1;
                    single_move = Some(mv);
                }
            }
            i = i + 1;
        }
        proof {
            if legal_count == 0 {
                assert forall|m: Move| !#[trigger] legal_moves(*board).contains(m) by {
                    if legal_moves(*board).contains(m) {
                        assert(moves@.contains(m));
                        let j = choose|j: int| 0 <= j < moves.len() && moves@[j] == m;
                    }
                }
            }
            if legal_count == 1 {
                assert forall|m2: Move| #[trigger] legal_moves(*board).contains(m2) implies m2 == single_move->0 by {
                    assert(moves@.contains(m2));
                    let j = choose|j: int| 0 <= j < moves.len() && moves@[j] == m2;
                }
            }
            if legal_count == 2 {
                assert forall|m: Move| !sole_legal_move(*board, m) by {
                    if sole_legal_move(*board, m) {
                        assert(legal_moves(*board).contains(first));
                        assert(legal_moves(*board).contains(single_move->0));
                    }
                }
            }
        }
        (legal_count, single_move)
    }

    /// The search of the root to `depth` in the window `alpha..beta`, by
    /// principal variation search over the ordered moves; a position with
    /// one legal move answers it at once with score 0.
    fn search_root(&mut self, board: &Board, depth: u8, alpha: Score, beta: Score) -> (r: SearchResult)
        requires
            old(self).inv(),
            playable(*board),
            1 <= depth <= 64,
            -SEARCH_LIMIT <= alpha < beta <= SEARCH_LIMIT,
        ensures
            final(self).inv(),
            final(self).game_history == old(self).game_history,
            stack_extends(old(self).rep_stack@, final(self).rep_stack@),
            result_line_ok(*board, r),
            r.depth == depth,
            -score_bound(alpha as int, beta as int) <= r.score <= score_bound(alpha as int, beta as int),
            no_legal_move(*board) ==> r.best_move is None && r.score == terminal_score(*board),
            forall|m: Move| sole_legal_move(*board, m) ==> r.best_move == Some(m) && r.score == 0 && r.pv@ == seq![m],
            old(self).stop_seen@ ==> final(self).stop_seen@,
            !no_legal_move(*board) ==> r.best_move is Some || r.score == -SCORE_INF,
            final(self).evaluator == old(self).evaluator,
            !final(self).stop_seen@ ==> final(self).rep_stack@ == old(self).rep_stack@,
            (!final(self).stop_seen@ && !no_legal_move(*board) && forall|m: Move| !sole_legal_move(*board, m)) ==> root_rel(
                old(self).evaluator,
                old(self).rep_stack@,
                *board,
                alpha as int,
                beta as int,
                r.score as int,
                r.best_move,
            ),
    {
        let ghost ev = self.evaluator;
        let ghost rs0 = self.rep_stack@;
        let original_alpha = alpha;
        let mut alpha = alpha;
        let moves = board.generate_all_moves();
        let in_check = board.is_king_in_check(board.to_move);
        let (legal_count, single) = Self::count_legal(board, &moves);
        if legal_count == 1 {
            if let Some(mv) = single {
                let mut pv: Vec<Move> = Vec::new();
                pv.push(mv);
                let mut after = *board;
                let _ = after.make_move(mv);
                proof {
                    assert(legal_moves(*board).contains(mv));
                    let u = choose|u: UndoInfo| made(*board, mv, after, u);
                    let a = after;
                    assert(legal_line(a, Seq::<Move>::empty()));
                    lemma_line_cons(*board, mv, a, u, Seq::<Move>::empty());
                    assert(pv@ =~= seq![mv] + Seq::<Move>::empty());
                    assert forall|m: Move| sole_legal_move(*board, m) implies mv == m by {
                        assert(legal_moves(*board).contains(mv));
                    }
                }
                return SearchResult {
                    best_move: Some(mv),
                    ponder_move: None,
                    score: 0,
                    depth,
                    nodes_searched: self.nodes_searched,
                    pv,
                };
            }
        }
        let tt_move = match self.tt.probe(board.zobrist_hash) {
            Some(e) => unpack_move(e.best_move),
            None => None,
        };
        let mut scored = self.scored_moves(board, &moves, false, tt_move, 0, None);
        let ghost scored0 = scored@;
        let mut best_move: Option<Move> = None;
        let mut best_score: Score = -SCORE_INF;
        let mut best_pv: Vec<Move> = Vec::new();
        let mut moves_searched: usize = 0;
        let mut has_legal_move = false;
        let ghost stack0 = self.rep_stack@;
        let ghost rs1 = rs0.push(board.zobrist_hash);
        let ghost alpha0 = alpha as int;
        self.rep_stack.push(board.zobrist_hash);
        let n = scored.len();
        let mut i: usize = 0;
        let mut done = false;
        while i < n && !done
            invariant
                old(self).stop_seen@ ==> self.stop_seen@,
                self.inv(),
                playable(*board),
                scored.len() == n,
                1 <= depth <= 64,
                forall|k: int| 0 <= k < n ==> move_shape_ok(*board, #[trigger] scored@[k].0),
                forall|k: int| 0 <= k < n ==> moves@.contains(#[trigger] scored@[k].0),
                forall|m: Move| #![trigger moves@.contains(m)] moves@.contains(m) <==> pseudo_legal(*board, m),
                forall|x: (Move, i32)| scored@.contains(x) <==> scored0.contains(x),
                !done ==> alpha < beta,
                -SEARCH_LIMIT <= original_alpha < beta <= SEARCH_LIMIT,
                original_alpha <= alpha,
                -score_bound(original_alpha as int, beta as int) <= alpha <= score_bound(original_alpha as int, beta as int),
                -score_bound(original_alpha as int, beta as int) <= best_score <= score_bound(original_alpha as int, beta as int),
                moves_searched <= i,
                i <= n,
                !has_legal_move ==> !done,
                !has_legal_move ==> best_pv.len() == 0,
                has_legal_move ==> !no_legal_move(*board),
                in_check == in_check_spec(*board, board.to_move),
                !has_legal_move ==> forall|k: int| 0 <= k < i ==> !legal_move(*board, #[trigger] scored@[k].0),
                stack_extends(stack0.push(board.zobrist_hash), self.rep_stack@),
                stack_extends(old(self).rep_stack@, stack0),
                self.game_history == old(self).game_history,
                legal_line(*board, best_pv@),
                best_pv.len() > 0 ==> legal_moves(*board).contains(best_pv@[0]),
                best_move is None ==> best_score == -SCORE_INF,
                best_move == (if best_pv.len() > 0 {
                    Some(best_pv@[0])
                } else {
                    None
                }),
                self.evaluator == ev,
                ev == old(self).evaluator,
                stack0 == rs0,
                rs1 == rs0.push(board.zobrist_hash),
                !self.stop_seen@ ==> self.rep_stack@ == rs1,
                !self.stop_seen@ ==> forall|ord: Seq<Move>, be: int, bme: Option<Move>|
                    #![trigger root_loop(ev, *board, ord, i as int, rs1, alpha as int, beta as int, best_score as int, best_move, done, be, bme)]
                    ord.len() == n && (forall|k: int| 0 <= k < i ==> ord[k] == #[trigger] scored@[k].0) && root_loop(
                        ev,
                        *board,
                        ord,
                        i as int,
                        rs1,
                        alpha as int,
                        beta as int,
                        best_score as int,
                        best_move,
                        done,
                        be,
                        bme,
                    ) ==> root_loop(ev, *board, ord, 0, rs1, alpha0, beta as int, -SCORE_INF as int, None, false, be, bme),
            decreases n - i,
        {
            let ghost before = scored@;
            Self::pick_best(&mut scored, i);
            proof {
                assert forall|k: int| 0 <= k < n implies move_shape_ok(*board, #[trigger] scored@[k].0)
                    && moves@.contains(scored@[k].0) by {
                    assert(scored@.contains(scored@[k]));
                    let j = choose|j: int| 0 <= j < before.len() && before[j] == scored@[k];
                    assert(move_shape_ok(*board, before[j].0));
                    assert(moves@.contains(before[j].0));
                }
            }
            let mv = scored[i].0;
            assert(moves@.contains(mv));
            let mut child = *board;
            let legal = child.make_move(mv);
            let ghost u = choose|u: UndoInfo| made(*board, mv, child, u);
            let ghost alpha_i: int = alpha as int;
            let ghost best_i: int = best_score as int;
            let ghost bm_i = best_move;
            proof {
                lemma_safe_after(*board, mv, child, u);
                crate::perft::lemma_legal_iff_king_safe_after(*board, mv, child, u);
            }
            if legal {
                proof {
                    assert(legal_moves(*board).contains(mv));
                }
                has_legal_move = true;
                let mut child_pv: Vec<Move> = Vec::new();
                let effective_depth = if in_check {
                    depth
                } else {
                    depth - 1
                };
                let score;
                let ghost mut gt: TranspositionTable = self.tt;
                let ghost mut gd: int = 0;
                let ghost mut ga: int = 0;
                let ghost mut gb: int = 0;
                let ghost mut gcr: int = 0;
                if moves_searched == 0 {
                    let ghost tc = self.tt;
                    let c0 = self.negamax(&child, effective_depth, -beta, -alpha, 1, &mut child_pv, Some(mv));
                    proof {
                        gt = tc;
                        gd = effective_depth as int;
                        ga = -beta;
                        gb = -alpha as int;
                        gcr = c0 as int;
                        if !self.stop_seen@ {
                            assert(self.rep_stack@ == rs1);
                            assert(nm_rel(ev, gt, rs1, child, gd, ga, gb, 1, gcr));
                        }
                    }
                    score = -c0;
                } else {
                    let ghost tc1 = self.tt;
                    let c1 = self.negamax(&child, effective_depth, -alpha - 1, -alpha, 1, &mut child_pv, Some(mv));
                    proof {
                        gt = tc1;
                        gd = effective_depth as int;
                        ga = -alpha - 1;
                        gb = -alpha as int;
                        gcr = c1 as int;
                        if !self.stop_seen@ {
                            assert(self.rep_stack@ == rs1);
                            assert(nm_rel(ev, gt, rs1, child, gd, ga, gb, 1, gcr));
                        }
                    }
                    let mut zw_score = -c1;
                    if zw_score > alpha && zw_score < beta {
                        child_pv.clear();
                        let ghost tc2 = self.tt;
                        let c2 = self.negamax(&child, effective_depth, -beta, -alpha, 1, &mut child_pv, Some(mv));
                        proof {
                            gt = tc2;
                            gd = effective_depth as int;
                            ga = -beta;
                            gb = -alpha as int;
                            gcr = c2 as int;
                            if !self.stop_seen@ {
                                assert(self.rep_stack@ == rs1);
                                assert(nm_rel(ev, gt, rs1, child, gd, ga, gb, 1, gcr));
                            }
                        }
                        zw_score = -c2;
                    }
                    score = zw_score;
                }
                let ghost seen_c = self.stop_seen@;
                proof {
                    assert(score == -gcr);
                    assert(!seen_c ==> nm_rel(ev, gt, rs1, child, gd, ga, gb, 1, gcr));
                    assert(gb == -alpha_i && (ga == -beta || ga == -alpha_i - 1));
                }
                moves_searched = moves_searched + 1;
                if self.check_stop() {
                    done = true;
                } else {
                    if score > best_score {
                        best_score = score;
                        best_move = Some(mv);
                        best_pv.clear();
                        best_pv.push(mv);
                        extend_line(&mut best_pv, &child_pv);
                        proof {
                            lemma_line_cons(*board, mv, child, u, child_pv@);
                            assert(best_pv@ =~= seq![mv] + child_pv@);
                        }
                    }
                    if score > alpha {
                        alpha = score;
                    }
                    if alpha >= beta {
                        done = true;
                    }
                    proof {
                        assert(self.stop_seen@ == seen_c);
                        if !self.stop_seen@ {
                            assert(alpha as int == max_int(alpha_i, -gcr));
                            assert(best_score as int == max_int(best_i, -gcr));
                            assert(done == (max_int(alpha_i, -gcr) >= beta));
                            assert forall|ord: Seq<Move>, be: int, bme: Option<Move>|
                                ord.len() == n && ord[i as int] == mv && root_loop(ev, *board, ord, i + 1, rs1, alpha as int, beta as int, best_score as int, best_move, done, be, bme)
                                implies root_loop(ev, *board, ord, i as int, rs1, alpha_i, beta as int, best_i, bm_i, false, be, bme) by {
                                lemma_root_loop_searched(ev, *board, ord, i as int, rs1, alpha_i, beta as int, best_i, bm_i, be, bme, child, u, gt, gd, ga, gb, gcr);
                            }
                        }
                    }
                }
            } else {
                proof {
                    assert forall|ord: Seq<Move>, be: int, bme: Option<Move>|
                        ord.len() == n && ord[i as int] == mv && root_loop(ev, *board, ord, i + 1, rs1, alpha as int, beta as int, best_score as int, best_move, done, be, bme)
                        implies root_loop(ev, *board, ord, i as int, rs1, alpha_i, beta as int, best_i, bm_i, false, be, bme) by {
                        lemma_root_loop_illegal(ev, *board, ord, i as int, rs1, alpha_i, beta as int, best_i, bm_i, be, bme);
                    }
                }
            }
            proof {
                if !self.stop_seen@ {
                    assert forall|ord: Seq<Move>, be: int, bme: Option<Move>|
                        ord.len() == n && (forall|k: int| 0 <= k < i + 1 ==> ord[k] == #[trigger] scored@[k].0) && #[trigger] root_loop(
                            ev,
                            *board,
                            ord,
                            i + 1,
                            rs1,
                            alpha as int,
                            beta as int,
                            best_score as int,
                            best_move,
                            done,
                            be,
                            bme,
                        ) implies root_loop(ev, *board, ord, 0, rs1, alpha0, beta as int, -SCORE_INF as int, None, false, be, bme) by {
                        assert(ord[i as int] == scored@[i as int].0);
                        assert(root_loop(ev, *board, ord, i as int, rs1, alpha_i, beta as int, best_i, bm_i, false, be, bme));
                        assert forall|k: int| 0 <= k < i implies ord[k] == #[trigger] before[k].0 by {
                            assert(scored@[k] == before[k]);
                            assert(ord[k] == scored@[k].0);
                        }
                    }
                }
            }
            i = i + 1;
        }
        let ghost ord = Seq::new(n as nat, |k: int| scored@[k].0);
        proof {
            if !self.stop_seen@ {
                assert forall|m: Move| #[trigger] legal_moves(*board).contains(m) implies ord.contains(m) by {
                    assert(moves@.contains(m));
                    assert(move_shape_ok(*board, m));
                    assert(exists|k: int| 0 <= k < n && #[trigger] scored0[k].0 == m);
                    let k = choose|k: int| 0 <= k < n && #[trigger] scored0[k].0 == m;
                    assert(scored0.contains(scored0[k]));
                    assert(scored@.contains(scored0[k]));
                    let k2 = choose|k2: int| 0 <= k2 < n && scored@[k2] == scored0[k];
                    assert(ord[k2] == m);
                }
                assert(root_loop(ev, *board, ord, i as int, rs1, alpha as int, beta as int, best_score as int, best_move, done, best_score as int, best_move));
                lemma_root_rel(ev, rs0, *board, alpha0, beta as int, best_score as int, best_move, ord);
            }
        }
        let _ = self.rep_stack.pop();
        if !has_legal_move {
            proof {
                assert forall|m: Move| !#[trigger] legal_moves(*board).contains(m) by {
                    if legal_moves(*board).contains(m) {
                        assert(moves@.contains(m));
                        assert(move_shape_ok(*board, m));
                        let j = choose|j: int| 0 <= j < moves.len() && moves@[j] == m;
                        assert(exists|k: int| 0 <= k < n && #[trigger] scored0[k].0 == m);
                        let k = choose|k: int| 0 <= k < n && #[trigger] scored0[k].0 == m;
                        assert(scored0.contains(scored0[k]));
                        assert(scored@.contains(scored0[k]));
                        let k2 = choose|k2: int| 0 <= k2 < n && scored@[k2] == scored0[k];
                        assert(!legal_move(*board, scored@[k2].0));
                    }
                }
            }
            best_score = if in_check {
                -SCORE_MATE
            } else {
                SCORE_DRAW
            };
        }
        if let Some(bm) = best_move {
            let bound = if best_score >= beta {
                Bound::Lower
            } else if best_score > original_alpha {
                Bound::Exact
            } else {
                Bound::Upper
            };
            self.tt.store(board.zobrist_hash, depth, Self::score_to_tt(best_score, 0), bound, pack_move(bm));
        }
        let ponder_move = if best_pv.len() > 1 {
            Some(best_pv[1])
        } else {
            None
        };
        proof {
            if legal_count != 1 {
                assert forall|m: Move| sole_legal_move(*board, m) implies false by {
                    if legal_count == 0 {
                        assert(!legal_moves(*board).contains(m));
                    } else {
                        assert(legal_count == 2);
                    }
                }
            }
        }
        SearchResult {
            best_move,
            ponder_move,
            score: best_score,
            depth,
            nodes_searched: self.nodes_searched,
            pv: best_pv,
        }
    }

    /// The time budget of the current search, in milliseconds.
    pub closed spec fn budget(&self) -> u64 {
        self.time_limit_ms
    }

    /// The node limit of the current search.
    pub closed spec fn node_limit(&self) -> Option<u64> {
        self.nodes_limit
    }

    /// Prepares a search of `board` under `config`: no nodes yet, the clock
    /// started, the stop flag cleared, the time budget and node limit set,
    /// a new table generation, killers forgotten and history halved, and
    /// the game's positions as the repetition history.
    pub fn begin_search(&mut self, board: &Board, config: &SearchConfig)
        requires
            old(self).inv(),
            clock_ok(*config, board.to_move),
        ensures
            final(self).inv(),
            final(self).nodes() == 0,
            final(self).budget() == time_budget(*config, board.to_move),
            final(self).node_limit() == config.nodes_limit,
            final(self).position_history() == old(self).position_history(),
            !final(self).stop_answered(),
            final(self).path_stack() == final(self).position_history(),
            final(self).evaluator_in_use() == old(self).evaluator_in_use(),
    {
        self.nodes_searched = 0;
        proof {
            self.stop_seen@ = false;
        }
        self.start_time = Instant::now();
        self.stop.store(false, std::sync::atomic::Ordering::Relaxed);
        self.time_limit_ms = self.calculate_time(config, board.to_move);
        self.nodes_limit = config.nodes_limit;
        self.tt.new_search();
        self.clear_move_ordering();
        self.rep_stack = self.game_history.clone();
        assert(self.rep_stack@ =~= self.game_history@);
    }

    /// One iteration of the deepening: up to depth 4 a full-window search;
    /// deeper, a window of 50 around the previous score (taken within
    /// `SCORE_INF`), re-searched with the failed side moved out and the
    /// margin doubled, and a full window once the margin passes 800.
    pub fn search_depth(&mut self, board: &Board, depth: u8, prev_score: Score) -> (r: SearchResult)
        requires
            old(self).inv(),
            playable(*board),
            1 <= depth <= 64,
        ensures
            final(self).inv(),
            final(self).position_history() == old(self).position_history(),
            result_line_ok(*board, r),
            r.depth == depth,
            -EVAL_LIMIT <= r.score <= EVAL_LIMIT,
            no_legal_move(*board) ==> r.best_move is None && r.score == terminal_score(*board),
            forall|m: Move| sole_legal_move(*board, m) ==> r.best_move == Some(m) && r.score == 0 && r.pv@ == seq![m],
            old(self).stop_answered() ==> final(self).stop_answered(),
            !no_legal_move(*board) ==> r.best_move is Some || r.score == -SCORE_INF,
            final(self).evaluator_in_use() == old(self).evaluator_in_use(),
            !final(self).stop_answered() ==> final(self).path_stack() == old(self).path_stack(),
            (!final(self).stop_answered() && !no_legal_move(*board) && forall|m: Move| !sole_legal_move(*board, m))
                ==> exists|a: int, bb: int|
                #![trigger root_rel(old(self).evaluator_in_use(), old(self).path_stack(), *board, a, bb, r.score as int, r.best_move)]
                root_rel(old(self).evaluator_in_use(), old(self).path_stack(), *board, a, bb, r.score as int, r.best_move),
    {
        let ghost ev = self.evaluator;
        let ghost rs0 = self.rep_stack@;
        if depth <= 4 {
            let r = self.search_root(board, depth, -SCORE_INF, SCORE_INF);
            proof {
                if !self.stop_seen@ && !no_legal_move(*board) && forall|m: Move| !sole_legal_move(*board, m) {
                    assert(root_rel(ev, rs0, *board, -SCORE_INF as int, SCORE_INF as int, r.score as int, r.best_move));
                    assert(root_rel(old(self).evaluator_in_use(), old(self).path_stack(), *board, -SCORE_INF as int, SCORE_INF as int, r.score as int, r.best_move));
                }
            }
            return r;
        }        let prev = if prev_score < -SCORE_INF {
            -SCORE_INF
        } else if prev_score > SCORE_INF {
            SCORE_INF
        } else {
            prev_score
        };
        let mut delta: Score = 50;
        let mut asp_alpha = prev - delta;
        let mut asp_beta = prev + delta;
        loop
            invariant
                old(self).stop_answered() ==> self.stop_answered(),
                self.inv(),
                playable(*board),
                5 <= depth <= 64,
                self.game_history@ == old(self).game_history@,
                -SCORE_INF <= prev <= SCORE_INF,
                50 <= delta <= 800,
                -SCORE_INF - 800 <= asp_alpha < asp_beta <= SCORE_INF + 800,
                asp_alpha <= prev - 50 || asp_alpha == -SCORE_INF,
                asp_beta >= prev + 50 || asp_beta == SCORE_INF,
                self.evaluator == ev,
                ev == old(self).evaluator,
                rs0 == old(self).rep_stack@,
                !self.stop_seen@ ==> self.rep_stack@ == rs0,
            decreases 800 - delta,
        {
            let r = self.search_root(board, depth, asp_alpha, asp_beta);
            proof {
                if !self.stop_seen@ && !no_legal_move(*board) && forall|m: Move| !sole_legal_move(*board, m) {
                    assert(root_rel(ev, rs0, *board, asp_alpha as int, asp_beta as int, r.score as int, r.best_move));
                    assert(root_rel(old(self).evaluator_in_use(), old(self).path_stack(), *board, asp_alpha as int, asp_beta as int, r.score as int, r.best_move));
                }
            }
            if self.check_stop() {
                return r;
            }
            if r.score <= asp_alpha {
                asp_alpha = if prev - delta > -SCORE_INF {
                    prev - delta
                } else {
                    -SCORE_INF
                };
                delta = delta * 2;
            } else if r.score >= asp_beta {
                asp_beta = if prev + delta < SCORE_INF {
                    prev + delta
                } else {
                    SCORE_INF
                };
                delta = delta * 2;
            } else {
                return r;
            }
            if delta > 800 {
                let r2 = self.search_root(board, depth, -SCORE_INF, SCORE_INF);
                proof {
                    if !self.stop_seen@ && !no_legal_move(*board) && forall|m: Move| !sole_legal_move(*board, m) {
                        assert(root_rel(ev, rs0, *board, -SCORE_INF as int, SCORE_INF as int, r2.score as int, r2.best_move));
                    assert(root_rel(old(self).evaluator_in_use(), old(self).path_stack(), *board, -SCORE_INF as int, SCORE_INF as int, r2.score as int, r2.best_move));
                    }
                }
                return r2;
            }
        }
    }

    /// The progress report of a completed iteration: its depth, score (and
    /// mate distance), nodes, time, speed, table use and line.
    pub fn search_info(&self, result: &SearchResult) -> (info: SearchInfo)
        requires
            self.inv(),
            -SEARCH_LIMIT <= result.score <= SEARCH_LIMIT,
        ensures
            info.depth == result.depth,
            info.score == result.score,
            info.is_mate == (mate_in_spec(result.score as int) is Some),
            info.mate_in == mate_in_spec(result.score as int),
            info.nodes == result.nodes_searched,
            info.nps == (if info.time_ms > 0 {
                (result.nodes_searched as int * 1000) % (u64::MAX as int + 1) / info.time_ms as int
            } else {
                (result.nodes_searched as int * 1000) % (u64::MAX as int + 1)
            }),
            info.pv@ == result.pv@,
            info.currmove is None,
            info.currmovenumber is None,
    {
        let elapsed = self.elapsed_ms();
        let scaled = result.nodes_searched.wrapping_mul(1000);
        let nps = if elapsed > 0 {
            scaled / elapsed
        } else {
            scaled
        };
        let a = if result.score < 0 {
            -result.score
        } else {
            result.score
        };
        let (is_mate, mate_in) = if a > SCORE_MATE - 100 {
            let x = (SCORE_MATE - a) + 1;
            let mate_dist = if x >= 0 {
                x / 2
            } else {
                -((-x) / 2)
            };
            (true, Some(if result.score > 0 {
                mate_dist
            } else {
                -mate_dist
            }))
        } else {
            (false, None)
        };
        SearchInfo {
            depth: result.depth,
            score: result.score,
            is_mate,
            mate_in,
            nodes: result.nodes_searched,
            time_ms: elapsed,
            nps,
            hashfull: self.tt.hashfull(),
            pv: result.pv.clone(),
            currmove: None,
            currmovenumber: None,
        }
    }

    /// After a completed iteration at `depth`, whether to go deeper: not
    /// when stopping, nor from depth 6 on once half the budget is used.
    fn go_deeper(&mut self, depth: u8) -> (r: bool)
        ensures
            *final(self) == (NegamaxSearcher { stop_seen: final(self).stop_seen, ..*old(self) }),
            old(self).stop_seen@ ==> final(self).stop_seen@,
    {
        if self.check_stop() {
            return false;
        }
        let elapsed = self.elapsed_ms();
        !(elapsed > self.time_limit_ms / 2 && depth >= 6)
    }

    /// Iterative deepening from depth 1 to `max_depth` (at most 64),
    /// reporting each completed iteration to `info_cb`; an iteration cut
    /// short by a stop is dropped, except the first.
    pub fn search_with_info<F: Fn(&SearchInfo)>(&mut self, board: &Board, config: &SearchConfig, info_cb: &F) -> (r: SearchResult)
        requires
            old(self).inv(),
            playable(*board),
            clock_ok(*config, board.to_move),
            forall|i: &SearchInfo| #[trigger] info_cb.requires((i,)),
        ensures
            final(self).inv(),
            final(self).position_history() == old(self).position_history(),
            result_line_ok(*board, r),
            r.depth <= config.max_depth,
            r.depth <= 64,
            config.max_depth == 0 ==> r.best_move is None && r.depth == 0,
            config.max_depth >= 1 && no_legal_move(*board) ==> r.best_move is None && r.score == terminal_score(*board),
            forall|m: Move| config.max_depth >= 1 && sole_legal_move(*board, m) ==> r.best_move == Some(m) && r.score == 0
                && r.pv@ == seq![m],
            config.max_depth >= 1 ==> r.depth >= 1,
            config.max_depth >= 1 && !no_legal_move(*board) ==> r.best_move is Some || r.score == -SCORE_INF,
            (config.max_depth >= 1 && !final(self).stop_answered() && !no_legal_move(*board) && forall|m: Move|
                !sole_legal_move(*board, m)) ==> exists|a: int, bb: int|
                #![trigger root_rel(old(self).evaluator_in_use(), old(self).position_history(), *board, a, bb, r.score as int, r.best_move)]
                root_rel(old(self).evaluator_in_use(), old(self).position_history(), *board, a, bb, r.score as int, r.best_move),
    {
        self.begin_search(board, config);
        let ghost ev = self.evaluator;
        let ghost rs0 = self.rep_stack@;
        let mut best_result = SearchResult {
            best_move: None,
            ponder_move: None,
            score: 0,
            depth: 0,
            nodes_searched: 0,
            pv: Vec::new(),
        };
        let max_depth: u8 = if config.max_depth < 64 {
            config.max_depth
        } else {
            64
        };
        let mut prev_score: Score = 0;
        let mut depth: u8 = 1;
        let mut finished = false;
        while depth <= max_depth && !finished
            invariant
                self.inv(),
                playable(*board),
                self.game_history@ == old(self).game_history@,
                1 <= depth <= 65,
                max_depth <= 64,
                max_depth <= config.max_depth,
                max_depth == (if config.max_depth < 64 {
                    config.max_depth
                } else {
                    64
                }),
                forall|i: &SearchInfo| #[trigger] info_cb.requires((i,)),
                -EVAL_LIMIT <= prev_score <= EVAL_LIMIT,
                -EVAL_LIMIT <= best_result.score <= EVAL_LIMIT,
                result_line_ok(*board, best_result),
                best_result.depth < depth,
                depth <= max_depth + 1,
                finished ==> depth > 1,
                depth == 1 ==> best_result.best_move is None && best_result.depth == 0,
                depth > 1 ==> (no_legal_move(*board) ==> best_result.best_move is None && best_result.score
                    == terminal_score(*board)),
                depth > 1 ==> forall|m: Move| sole_legal_move(*board, m) ==> best_result.best_move == Some(m)
                    && best_result.score == 0 && best_result.pv@ == seq![m],
                depth > 1 ==> best_result.depth >= 1,
                depth > 1 ==> (!no_legal_move(*board) ==> best_result.best_move is Some || best_result.score
                    == -SCORE_INF),
                self.evaluator == ev,
                ev == old(self).evaluator,
                rs0 == old(self).game_history@,
                !self.stop_seen@ ==> self.rep_stack@ == rs0,
                (depth > 1 && !self.stop_seen@ && !no_legal_move(*board) && forall|m: Move| !sole_legal_move(*board, m))
                    ==> exists|a: int, bb: int|
                    #![trigger root_rel(ev, rs0, *board, a, bb, best_result.score as int, best_result.best_move)]
                    root_rel(ev, rs0, *board, a, bb, best_result.score as int, best_result.best_move),
            decreases 2 * (65 - depth) + (if finished {
                0int
            } else {
                1int
            }),
        {
            let result = self.search_depth(board, depth, prev_score);
            if self.check_stop() && depth > 1 {
                finished = true;
            } else {
                prev_score = result.score;
                let info = self.search_info(&result);
                info_cb(&info);
                best_result = result;
                if !self.go_deeper(depth) {
                    finished = true;
                }
                depth = depth + 1;
            }
        }
        best_result
    }
}

impl<E: Evaluator> Searcher for NegamaxSearcher<E> {
    open spec fn ready(&self) -> bool {
        self.inv()
    }

    fn search(&mut self, board: &Board, config: &SearchConfig) -> (r: SearchResult)
        ensures
            result_line_ok(*board, r),
            r.depth <= config.max_depth,
            config.max_depth >= 1 && no_legal_move(*board) ==> r.best_move is None && r.score == terminal_score(*board),
            forall|m: Move| config.max_depth >= 1 && sole_legal_move(*board, m) ==> r.best_move == Some(m) && r.score == 0
                && r.pv@ == seq![m],
            config.max_depth >= 1 ==> r.depth >= 1,
            config.max_depth >= 1 && !no_legal_move(*board) ==> r.best_move is Some || r.score == -SCORE_INF,
            (config.max_depth >= 1 && !final(self).stop_answered() && !no_legal_move(*board) && forall|m: Move|
                !sole_legal_move(*board, m)) ==> exists|a: int, bb: int|
                #![trigger root_rel(old(self).evaluator_in_use(), old(self).position_history(), *board, a, bb, r.score as int, r.best_move)]
                root_rel(old(self).evaluator_in_use(), old(self).position_history(), *board, a, bb, r.score as int, r.best_move),
    {
        let noop = |_info: &SearchInfo| {};
        self.search_with_info(board, config, &noop)
    }

    fn stop_flag(&self) -> Arc<AtomicBool> {
        self.stop.clone()
    }

    fn name(&self) -> &str {
        "negamax-full"
    }
}

} // verus!
