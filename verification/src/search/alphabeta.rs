use vstd::prelude::*;
use std::time::Instant;
use core::time::Duration;
use crate::bits::pop;
use crate::board::Board;
use crate::types::{Color, Move, UndoInfo};
use crate::intrinsics::popcount;
use crate::search::{Score, Depth, Ply, MAX_PLY, MATE_SCORE, MATE_IN_MAX};
use crate::search::evaluation::{Evaluator, evaluate_spec};
use crate::search::transposition::{TranspositionTable, TTNodeType, TTEntry, probe_answer};
use crate::engine::search::negamax::{chosen, max_int};
use crate::search::ordering::{MoveOrderer, gives_check_spec};
use crate::make_move::{made, unmade, move_shape_ok, lemma_make_unmake};
use crate::game::check::{check_cache_ok, in_check_spec};
use crate::game::movegen::{legal_move, pseudo_legal, lemma_made_same_checks, lemma_pseudo_on_board};
use crate::game::status::no_legal_move;

verus! {

broadcast use vstd::seq_lib::group_to_multiset_ensures;

/// Scores read back from the table, and the scores a root search returns,
/// are held within this bound; the evaluation and the mate scores lie far
/// inside it.
pub const SCORE_CAP: i32 = 1_000_000_000;

/// The largest magnitude of a window at `ply` plies from the root.
pub open spec fn window_bound(ply: int) -> int {
    SCORE_CAP + 50 + ply
}

/// `Duration`'s `>=`: whether `elapsed` has reached `limit`. Durations are
/// opaque here and the elapsed time depends on the clock, so nothing is
/// claimed of the answer.
#[verifier::external_body]
fn reached(elapsed: &Duration, limit: &Duration) -> bool {
    elapsed.ge(limit)
}

/// `x` held within `-SCORE_CAP..=SCORE_CAP`.
fn cap_score(x: Score) -> (r: Score)
    ensures
        r == (if x < -SCORE_CAP {
            -SCORE_CAP
        } else if x > SCORE_CAP {
            SCORE_CAP as int
        } else {
            x as int
        }),
{
    if x < -SCORE_CAP {
        -SCORE_CAP
    } else if x > SCORE_CAP {
        SCORE_CAP
    } else {
        x
    }
}

/// Sorts pairs of a move and its order score, highest score first.
fn sort_pairs(v: Vec<(Move, i64)>) -> (r: Vec<(Move, i64)>)
    ensures
        r@.to_multiset() == v@.to_multiset(),
        forall|a: int, c: int| 0 <= a < c < r.len() ==> #[trigger] r@[a].1 >= #[trigger] r@[c].1,
{
    let mut rem = v;
    let mut out: Vec<(Move, i64)> = Vec::new();
    let ghost all = rem@;
    while rem.len() > 0
        invariant
            out@.to_multiset().add(rem@.to_multiset()) == all.to_multiset(),
            forall|a: int, c: int| 0 <= a < c < out.len() ==> #[trigger] out@[a].1 >= #[trigger] out@[c].1,
            forall|i: int, j: int| 0 <= i < out.len() && 0 <= j < rem.len() ==> #[trigger] out@[i].1 >= #[trigger] rem@[j].1,
        decreases rem.len(),
    {
        let mut best: usize = 0;
        let mut j: usize = 1;
        while j < rem.len()
            invariant
                rem.len() > 0,
                best < rem.len(),
                1 <= j <= rem.len(),
                forall|k: int| 0 <= k < j ==> rem@[k].1 <= rem@[best as int].1,
            decreases rem.len() - j,
        {
            if rem[j].1 > rem[best].1 {
                best = j;
            }
            j = j + 1;
        }
        let ghost rem0 = rem@;
        let ghost out0 = out@;
        let x = rem.remove(best);
        out.push(x);
        proof {
            assert(rem0.remove(best as int).to_multiset() =~= rem0.to_multiset().remove(x));
            assert(out@.to_multiset() =~= out0.to_multiset().insert(x));
            assert(rem0.to_multiset().contains(x));
            assert(out@.to_multiset().add(rem@.to_multiset()) =~= out0.to_multiset().add(rem0.to_multiset()));
            assert forall|i: int, k: int| 0 <= i < out.len() && 0 <= k < rem.len() implies #[trigger] out@[i].1
                >= #[trigger] rem@[k].1 by {
                let k0 = if k < best {
                    k
                } else {
                    k + 1
                };
                assert(rem@[k] == rem0[k0]);
                if i < out0.len() {
                    assert(out@[i] == out0[i]);
                }
            }
            assert forall|a: int, c: int| 0 <= a < c < out.len() implies #[trigger] out@[a].1 >= #[trigger] out@[c].1 by {
                if c < out0.len() {
                    assert(out@[a] == out0[a] && out@[c] == out0[c]);
                } else {
                    assert(out@[c] == rem0[best as int]);
                    assert(out@[a] == out0[a]);
                }
            }
        }
    }
    proof {
        assert(rem@.to_multiset() =~= vstd::multiset::Multiset::<(Move, i64)>::empty());
        assert(out@.to_multiset().add(vstd::multiset::Multiset::<(Move, i64)>::empty()) =~= out@.to_multiset());
    }
    out
}

/// The move an iteration reports: the best move, or the empty move from
/// a1 to a1 when there is none.
pub open spec fn shown_move(m: Option<Move>) -> Move {
    match m {
        Some(x) => x,
        None => Move { from: 0, to: 0, promotion: None, is_castling: false, is_en_passant: false },
    }
}

/// A mate score: at least `MATE_IN_MAX` from zero.
pub open spec fn is_mate(s: int) -> bool {
    s >= MATE_IN_MAX || s <= -MATE_IN_MAX
}

/// The best move, score and iterations of a search.
#[derive(Debug)]
pub struct SearchResult {
    pub best_move: Option<Move>,
    pub score: Score,
    pub search_info: Vec<SearchInfo>,
}

/// One iteration of a search: its depth, score, nodes, time and best move.
#[derive(Debug)]
pub struct SearchInfo {
    pub depth: Depth,
    pub score: Score,
    pub nodes: u64,
    pub time: Duration,
    pub pv: Vec<Move>,
}

/// An iterative-deepening alpha-beta search with aspiration windows, a
/// transposition table, null-move pruning, late-move reductions, check
/// extensions, killer and history move ordering and a quiescence search
/// of captures and promotions.
pub struct SearchEngine {
    evaluator: Evaluator,
    tt: TranspositionTable,
    move_orderer: MoveOrderer,
    nodes_searched: u64,
    start_time: Instant,
    time_limit: Option<Duration>,
    killer_moves: [Option<Move>; 128],
    history: [i32; 4096],
}

/// A score read back from the table at `ply`: mate scores brought back to
/// the node, then held within the cap.
pub open spec fn tt_read(x: int, ply: int) -> int {
    let s = if x >= MATE_IN_MAX {
        x - ply
    } else if x <= -MATE_IN_MAX {
        x + ply
    } else {
        x
    };
    if s < -SCORE_CAP {
        -SCORE_CAP as int
    } else if s > SCORE_CAP {
        SCORE_CAP as int
    } else {
        s
    }
}

/// What the quiescence search of `b` in `alpha..beta` at `ply` is known to
/// return: the side's evaluation at the ply cap, `beta` when the
/// evaluation reaches it, `alpha` when even a queen's gain would not.
pub open spec fn q_known(b: Board, alpha: int, beta: int, ply: int, r: int) -> bool {
    &&& -window_bound(ply) <= r <= window_bound(ply)
    &&& ply >= MAX_PLY - 1 ==> r == SearchEngine::side_eval_spec(b)
    &&& ply < MAX_PLY - 1 && SearchEngine::side_eval_spec(b) >= beta ==> r == beta
    &&& ply < MAX_PLY - 1 && SearchEngine::side_eval_spec(b) < beta && SearchEngine::side_eval_spec(b) + 900 < alpha ==> r
        == alpha
}

/// `r` is what the alpha-beta search of `b` to `depth` in the window
/// `alpha..beta`, `ply` plies down, with the table's entries `t0`, returns
/// without a time limit: a mate when in check without a legal move; the
/// quiescence search at depth 0 (check extends depth 1 to 2); the table's
/// answer; the evaluation at the ply cap; `beta` on a null-move cutoff;
/// else the moves' search (`ab_loop`) over an order that holds every
/// pseudo-legal move.
pub open spec fn ab_rel(t0: Map<u64, TTEntry>, b: Board, depth: int, alpha: int, beta: int, ply: int, r: int) -> bool
    decreases 255 - ply, 2int, 0int,
{
    let inc = in_check_spec(b, b.to_move);
    let ext = if inc && depth == 1 {
        2
    } else {
        depth
    };
    if ply > 255 || ply < 0 {
        true
    } else if inc && no_legal_move(b) {
        r == -(MATE_SCORE - ply)
    } else if ext == 0 {
        q_known(b, alpha, beta, ply, r)
    } else if t0.contains_key(b.zobrist_hash) && probe_answer(t0[b.zobrist_hash], depth as u8, alpha as i32, beta as i32)
        is Some {
        r == tt_read(probe_answer(t0[b.zobrist_hash], depth as u8, alpha as i32, beta as i32)->0 as int, ply)
    } else if ply == 255 {
        r == SearchEngine::side_eval_spec(b)
    } else if depth >= 3 && !inc && ply > 0 && !(b.queens == 0 || pop(b.white_pieces | b.black_pieces) <= 12)
        && -MATE_IN_MAX < alpha < MATE_IN_MAX {
        let nd = if depth > (if depth > 6 { 4int } else { 3int }) {
            depth - (if depth > 6 { 4int } else { 3int })
        } else {
            0
        };
        exists|nr: int|
            #![trigger chosen(nr)]
            ab_rel(t0, Board { to_move: b.to_move.flip(), ..b }, nd, -beta, -beta + 1, ply + 1, nr) && (if -nr >= beta {
                r == beta
            } else {
                ab_body(b, ext, alpha, beta, ply, inc, r)
            })
    } else {
        ab_body(b, ext, alpha, beta, ply, inc, r)
    }
}

/// The moves' search of a node, over some order of its moves that holds
/// every pseudo-legal move.
pub open spec fn ab_body(b: Board, ext: int, alpha: int, beta: int, ply: int, inc: bool, r: int) -> bool
    decreases 255 - ply, 1int, 0int,
{
    exists|order: Seq<Move>|
        #![trigger chosen(order)]
        (forall|m: Move| #[trigger] pseudo_legal(b, m) ==> order.contains(m)) && ab_loop(b, order, 0, alpha, beta, ply, inc, false, r)
}

/// The moves of `order` from `i` on with the best score `alpha` so far and
/// whether a legal move was seen: a legal move's score is the negated
/// result of a search of the board it leads to (the last of the searches
/// made of it, in the window `-beta..-alpha` or the null window
/// `-alpha - 1..-alpha`); one reaching `beta` gives `beta`, a mate score above
/// `alpha` ends the loop with it; at the end, mate or draw without a
/// legal move, else `alpha`.
pub open spec fn ab_loop(b: Board, order: Seq<Move>, i: int, alpha: int, beta: int, ply: int, inc: bool, found: bool, r: int) -> bool
    decreases 255 - ply, 0int, order.len() - i,
{
    if i >= order.len() || i < 0 || ply >= 255 || ply < 0 {
        if !found {
            r == (if inc {
                -(MATE_SCORE - ply)
            } else {
                0
            })
        } else {
            r == alpha
        }
    } else {
        let mv = order[i];
        if !legal_move(b, mv) {
            ab_loop(b, order, i + 1, alpha, beta, ply, inc, found, r)
        } else {
            exists|child: Board, u: UndoInfo, t: Map<u64, TTEntry>, d2: int, a3: int, b3: int, cr: int|
                #![trigger made(b, mv, child, u), chosen(t), chosen(d2), chosen(a3), chosen(b3), chosen(cr)]
                made(b, mv, child, u) && b3 == -alpha && (a3 == -beta || a3 == -alpha - 1) && ab_rel(
                    t,
                    child,
                    d2,
                    a3,
                    b3,
                    ply + 1,
                    cr,
                ) && (if -cr >= beta {
                    r == beta
                } else if -cr > alpha && (-cr >= MATE_IN_MAX || -cr <= -MATE_IN_MAX) {
                    r == -cr
                } else {
                    ab_loop(b, order, i + 1, max_int(alpha, -cr), beta, ply, inc, true, r)
                })
        }
    }
}

/// A move that is not legal.
proof fn lemma_ab_loop_illegal(b: Board, order: Seq<Move>, i: int, alpha: int, beta: int, ply: int, inc: bool, found: bool, r: int)
    requires
        0 <= i < order.len(),
        0 <= ply < 255,
        !legal_move(b, order[i]),
        ab_loop(b, order, i + 1, alpha, beta, ply, inc, found, r),
    ensures
        ab_loop(b, order, i, alpha, beta, ply, inc, found, r),
{
}

/// A legal move searched, the last search giving `cr`.
proof fn lemma_ab_loop_searched(
    b: Board,
    order: Seq<Move>,
    i: int,
    alpha: int,
    beta: int,
    ply: int,
    inc: bool,
    found: bool,
    r: int,
    child: Board,
    u: UndoInfo,
    t: Map<u64, TTEntry>,
    d2: int,
    a3: int,
    b3: int,
    cr: int,
)
    requires
        0 <= i < order.len(),
        0 <= ply < 255,
        legal_move(b, order[i]),
        made(b, order[i], child, u),
        b3 == -alpha && (a3 == -beta || a3 == -alpha - 1),
        ab_rel(t, child, d2, a3, b3, ply + 1, cr),
        -cr >= beta ==> r == beta,
        -cr < beta && -cr > alpha && (-cr >= MATE_IN_MAX || -cr <= -MATE_IN_MAX) ==> r == -cr,
        -cr < beta && !(-cr > alpha && (-cr >= MATE_IN_MAX || -cr <= -MATE_IN_MAX)) ==> ab_loop(
            b,
            order,
            i + 1,
            max_int(alpha, -cr),
            beta,
            ply,
            inc,
            true,
            r,
        ),
    ensures
        ab_loop(b, order, i, alpha, beta, ply, inc, found, r),
{
    assert(chosen(t) && chosen(d2) && chosen(a3) && chosen(b3) && chosen(cr));
}

/// The moves' search from its loop.
proof fn lemma_ab_body(b: Board, ext: int, alpha: int, beta: int, ply: int, inc: bool, r: int, order: Seq<Move>)
    requires
        forall|m: Move| #[trigger] pseudo_legal(b, m) ==> order.contains(m),
        ab_loop(b, order, 0, alpha, beta, ply, inc, false, r),
    ensures
        ab_body(b, ext, alpha, beta, ply, inc, r),
{
    assert(chosen(order));
}

/// A null-move search with result `nr`.
proof fn lemma_ab_rel_null(t0: Map<u64, TTEntry>, b: Board, depth: int, alpha: int, beta: int, ply: int, r: int, nr: int)
    requires
        0 <= ply < 255,
        !(in_check_spec(b, b.to_move) && no_legal_move(b)),
        depth >= 3 && !in_check_spec(b, b.to_move) && ply > 0 && !(b.queens == 0 || pop(b.white_pieces | b.black_pieces) <= 12)
            && -MATE_IN_MAX < alpha < MATE_IN_MAX,
        !(t0.contains_key(b.zobrist_hash) && probe_answer(t0[b.zobrist_hash], depth as u8, alpha as i32, beta as i32) is Some),
        ab_rel(
            t0,
            Board { to_move: b.to_move.flip(), ..b },
            if depth > (if depth > 6 { 4int } else { 3int }) {
                depth - (if depth > 6 { 4int } else { 3int })
            } else {
                0
            },
            -beta,
            -beta + 1,
            ply + 1,
            nr,
        ),
        -nr >= beta ==> r == beta,
        -nr < beta ==> ab_body(b, depth, alpha, beta, ply, false, r),
    ensures
        ab_rel(t0, b, depth, alpha, beta, ply, r),
{
    assert(chosen(nr));
}

/// A node that reaches its moves' search: with the null-move search tried
/// where it applies and failing to cut, its result is the loop's.
proof fn lemma_ab_finish(
    t0: Map<u64, TTEntry>,
    b: Board,
    depth: int,
    alpha: int,
    beta: int,
    ply: int,
    r: int,
    nr: int,
    ext: int,
    ord: Seq<Move>,
)
    requires
        1 <= ply < 255,
        !(in_check_spec(b, b.to_move) && no_legal_move(b)),
        ext == (if in_check_spec(b, b.to_move) && depth == 1 {
            2
        } else {
            depth
        }),
        ext != 0,
        !(t0.contains_key(b.zobrist_hash) && probe_answer(t0[b.zobrist_hash], depth as u8, alpha as i32, beta as i32) is Some),
        (depth >= 3 && !in_check_spec(b, b.to_move) && ply > 0 && !(b.queens == 0 || pop(b.white_pieces | b.black_pieces)
            <= 12) && -MATE_IN_MAX < alpha < MATE_IN_MAX) ==> ab_rel(
            t0,
            Board { to_move: b.to_move.flip(), ..b },
            if depth > (if depth > 6 { 4int } else { 3int }) {
                depth - (if depth > 6 { 4int } else { 3int })
            } else {
                0
            },
            -beta,
            -beta + 1,
            ply + 1,
            nr,
        ) && -nr < beta,
        forall|m: Move| #[trigger] pseudo_legal(b, m) ==> ord.contains(m),
        ab_loop(b, ord, 0, alpha, beta, ply, in_check_spec(b, b.to_move), false, r),
    ensures
        ab_rel(t0, b, depth, alpha, beta, ply, r),
{
    lemma_ab_body(b, ext, alpha, beta, ply, in_check_spec(b, b.to_move), r, ord);
    if depth >= 3 && !in_check_spec(b, b.to_move) && ply > 0 && !(b.queens == 0 || pop(b.white_pieces | b.black_pieces) <= 12)
        && -MATE_IN_MAX < alpha < MATE_IN_MAX {
        lemma_ab_rel_null(t0, b, depth, alpha, beta, ply, r, nr);
    }
}

/// `x` held within `-SCORE_CAP..=SCORE_CAP`.
pub open spec fn capped(x: int) -> int {
    if x < -SCORE_CAP {
        -SCORE_CAP as int
    } else if x > SCORE_CAP {
        SCORE_CAP as int
    } else {
        x
    }
}

/// Whether a root score above the best so far ends the root's loop: in
/// a window, reaching `beta`; in the full window, a mate score.
pub open spec fn root_stops(score: int, beta: int, windowed: bool) -> bool {
    if windowed {
        score >= beta
    } else {
        score >= MATE_IN_MAX || score <= -MATE_IN_MAX
    }
}

/// The root's moves of `order` from `i` on, searched to `depth - 1` in the
/// window `-beta..-alpha` one ply down, with the best score `alpha` so far
/// and whether a legal move was seen; `r` is the loop's outcome: a score
/// above `alpha` that ends the loop, else at the end `alpha`, or mate or
/// draw without a legal move.
pub open spec fn root_loop_ab(
    b: Board,
    order: Seq<Move>,
    i: int,
    depth: int,
    alpha: int,
    beta: int,
    windowed: bool,
    found: bool,
    r: int,
) -> bool
    decreases order.len() - i,
{
    if i >= order.len() || i < 0 {
        r == (if found {
            alpha
        } else if in_check_spec(b, b.to_move) {
            -MATE_SCORE as int
        } else {
            0
        })
    } else {
        let mv = order[i];
        if !legal_move(b, mv) {
            root_loop_ab(b, order, i + 1, depth, alpha, beta, windowed, found, r)
        } else {
            exists|child: Board, u: UndoInfo, t: Map<u64, TTEntry>, cr: int|
                #![trigger made(b, mv, child, u), chosen(t), chosen(cr)]
                made(b, mv, child, u) && ab_rel(t, child, depth - 1, -beta, -alpha, 1, cr) && (if -cr > alpha
                    && root_stops(-cr, beta, windowed) {
                    r == -cr
                } else {
                    root_loop_ab(b, order, i + 1, depth, max_int(alpha, -cr), beta, windowed, true, r)
                })
        }
    }
}

/// `r` is what the root search of `b` to `depth` in `alpha..beta` returns
/// without a time limit: the outcome of its loop over an order that holds
/// every pseudo-legal move, held within the cap.
pub open spec fn root_rel_ab(b: Board, depth: int, alpha: int, beta: int, windowed: bool, r: int) -> bool {
    exists|order: Seq<Move>, fin: int|
        #![trigger chosen(order), chosen(fin)]
        (forall|m: Move| #[trigger] pseudo_legal(b, m) ==> order.contains(m)) && root_loop_ab(
            b,
            order,
            0,
            depth,
            alpha,
            beta,
            windowed,
            false,
            fin,
        ) && r == capped(fin)
}

/// Some root search of `b` to `depth` (in some window, full or not)
/// returns `score` without a time limit.
pub open spec fn iteration_found(b: Board, depth: int, score: int) -> bool {
    exists|a: int, bb: int, w: bool|
        #![trigger root_rel_ab(b, depth, a, bb, w, score)]
        root_rel_ab(b, depth, a, bb, w, score)
}

/// A root move that is not legal.
proof fn lemma_root_ab_illegal(b: Board, order: Seq<Move>, i: int, depth: int, alpha: int, beta: int, windowed: bool, found: bool, r: int)
    requires
        0 <= i < order.len(),
        !legal_move(b, order[i]),
        root_loop_ab(b, order, i + 1, depth, alpha, beta, windowed, found, r),
    ensures
        root_loop_ab(b, order, i, depth, alpha, beta, windowed, found, r),
{
}

/// A root move searched with result `cr`.
proof fn lemma_root_ab_searched(
    b: Board,
    order: Seq<Move>,
    i: int,
    depth: int,
    alpha: int,
    beta: int,
    windowed: bool,
    found: bool,
    r: int,
    child: Board,
    u: UndoInfo,
    t: Map<u64, TTEntry>,
    cr: int,
)
    requires
        0 <= i < order.len(),
        legal_move(b, order[i]),
        made(b, order[i], child, u),
        ab_rel(t, child, depth - 1, -beta, -alpha, 1, cr),
        -cr > alpha && root_stops(-cr, beta, windowed) ==> r == -cr,
        !(-cr > alpha && root_stops(-cr, beta, windowed)) ==> root_loop_ab(
            b,
            order,
            i + 1,
            depth,
            max_int(alpha, -cr),
            beta,
            windowed,
            true,
            r,
        ),
    ensures
        root_loop_ab(b, order, i, depth, alpha, beta, windowed, found, r),
{
    assert(chosen(t) && chosen(cr));
}

impl SearchEngine {
    /// The table's scores lie within the cap (with room for ply
    /// adjustments) and the history scores within `0..=80000`.
    pub closed spec fn inv(&self) -> bool {
        &&& forall|h: u64|
            #[trigger] self.tt.entries().contains_key(h) ==> -(SCORE_CAP + 600) <= self.tt.entries()[h].score
                <= SCORE_CAP + 600
        &&& forall|i: int| 0 <= i < 4096 ==> 0 <= #[trigger] self.history@[i] <= 80_000
    }

    /// The time limit of a search, if any.
    pub closed spec fn limit(&self) -> Option<Duration> {
        self.time_limit
    }

    /// The history score of the move from `from` to `to`.
    pub closed spec fn history_at(&self, from: int, to: int) -> i32 {
        self.history@[from * 64 + to]
    }

    /// The killer moves of `ply`.
    pub closed spec fn killers(&self, ply: int) -> (Option<Move>, Option<Move>) {
        (self.killer_moves@[ply * 2], self.killer_moves@[ply * 2 + 1])
    }

    /// A fresh engine: empty table, no killers, no history, no time limit.
    pub fn new() -> (s: Self)
        ensures
            s.inv(),
            s.limit() is None,
            forall|f: int, t: int| 0 <= f < 64 && 0 <= t < 64 ==> #[trigger] s.history_at(f, t) == 0,
            forall|p: int| 0 <= p < MAX_PLY ==> #[trigger] s.killers(p) == (None::<Move>, None::<Move>),
    {
        let s = SearchEngine {
            evaluator: Evaluator::new(),
            tt: TranspositionTable::new(),
            move_orderer: MoveOrderer::new(),
            nodes_searched: 0,
            start_time: Instant::now(),
            time_limit: None,
            killer_moves: [None; 128],
            history: [0i32; 4096],
        };
        proof {
            assert forall|f: int, t: int| 0 <= f < 64 && 0 <= t < 64 implies #[trigger] s.history_at(f, t) == 0 by {
                assert(0 <= f * 64 + t < 4096) by (nonlinear_arith)
                    requires
                        0 <= f < 64,
                        0 <= t < 64,
                ;
            }
        }
        s
    }

    /// Records a move that caused a cutoff as the first killer of `ply`,
    /// the old first becoming second, unless it is the first already.
    fn update_killer_move(&mut self, mv: Move, ply: Ply)
        ensures
            old(self).inv() ==> final(self).inv(),
            final(self).tt == old(self).tt,
            final(self).time_limit == old(self).time_limit,
            final(self).history == old(self).history,
            (ply as int) < MAX_PLY && old(self).killers(ply as int).0 != Some(mv) ==> final(self).killers(ply as int) == (
            Some(mv), old(self).killers(ply as int).0),
    {
        let ply_idx = ply as usize;
        if ply_idx < MAX_PLY {
            if self.killer_moves[ply_idx * 2] == Some(mv) {
                return;
            }
            let first = self.killer_moves[ply_idx * 2];
            self.killer_moves[ply_idx * 2 + 1] = first;
            self.killer_moves[ply_idx * 2] = Some(mv);
        }
    }

    /// Adds the square of `depth` to the history score of `mv`; when that
    /// score passes 10000, halves every history score.
    fn update_history(&mut self, mv: Move, depth: Depth)
        requires
            old(self).inv(),
            mv.from < 64,
            mv.to < 64,
        ensures
            final(self).inv(),
            final(self).tt == old(self).tt,
            final(self).time_limit == old(self).time_limit,
    {
        assert(depth * depth <= 255 * 255) by (nonlinear_arith)
            requires
                depth <= 255,
        ;
        let bonus = depth as i32 * depth as i32;
        let idx = mv.from as usize * 64 + mv.to as usize;
        let v = self.history[idx] + bonus;
        self.history[idx] = v;
        if v > 10000 {
            let mut i: usize = 0;
            while i < 4096
                invariant
                    i <= 4096,
                    self.tt == old(self).tt,
                    self.time_limit == old(self).time_limit,
                    forall|j: int| 0 <= j < i ==> 0 <= #[trigger] self.history@[j] <= 80_000,
                    forall|j: int| i <= j < 4096 ==> 0 <= #[trigger] self.history@[j] <= 80_000 + 255 * 255,
                decreases 4096 - i,
            {
                let h = self.history[i] / 2;
                self.history[i] = h;
                i = i + 1;
            }
        }
    }

    /// The history score of `mv`.
    pub fn get_history_score(&self, mv: Move) -> (r: i32)
        requires
            mv.from < 64,
            mv.to < 64,
        ensures
            r == self.history_at(mv.from as int, mv.to as int),
    {
        self.history[mv.from as usize * 64 + mv.to as usize]
    }

    /// `mv` is one of the two killer moves of `ply`.
    pub fn is_killer_move(&self, mv: Move, ply: u8) -> (r: bool)
        ensures
            r == ((ply as int) < MAX_PLY && (self.killers(ply as int).0 == Some(mv) || self.killers(ply as int).1
                == Some(mv))),
    {
        let ply_idx = ply as usize;
        if ply_idx < MAX_PLY {
            self.killer_moves[ply_idx * 2] == Some(mv) || self.killer_moves[ply_idx * 2 + 1] == Some(mv)
        } else {
            false
        }
    }

    /// Prepares a new search: no nodes, no killers, no history, and the
    /// table one age older.
    fn reset_search(&mut self)
        requires
            old(self).inv(),
        ensures
            final(self).inv(),
            final(self).time_limit == old(self).time_limit,
            final(self).nodes_searched == 0,
    {
        self.nodes_searched = 0;
        self.killer_moves = [None; 128];
        self.history = [0i32; 4096];
        self.tt.age();
    }

    /// The time limit has passed; never without a limit.
    fn should_stop(&self) -> (r: bool)
        ensures
            self.time_limit is None ==> !r,
    {
        match self.time_limit {
            Some(limit) => {
                let elapsed = self.start_time.elapsed();
                reached(&elapsed, &limit)
            },
            None => false,
        }
    }

    /// Limits later searches to `duration`.
    pub fn set_time_limit(&mut self, duration: Duration)
        ensures
            final(self).limit() == Some(duration),
            old(self).inv() ==> final(self).inv(),
    {
        self.time_limit = Some(duration);
    }

    /// The evaluation for the side to move: the evaluator's score (White's
    /// point of view), negated when Black is to move.
    pub open spec fn side_eval_spec(b: Board) -> int {
        if b.to_move == Color::White {
            evaluate_spec(b)
        } else {
            -evaluate_spec(b)
        }
    }

    /// The evaluation of `board` for the side to move: the evaluator's score
    /// (White's point of view), negated when Black is to move.
    fn side_eval(&self, board: &Board) -> (r: Score)
        requires
            board.wf(),
        ensures
            r == (if board.to_move == Color::White {
                evaluate_spec(*board)
            } else {
                -evaluate_spec(*board)
            }),
            -540_000_000 <= r <= 540_000_000,
    {
        let e = self.evaluator.evaluate(board);
        if board.to_move == Color::Black {
            -e
        } else {
            e
        }
    }

    /// `mv` takes a piece of the side not to move, or takes en passant.
    fn is_capture(&self, mv: Move, board: &Board) -> (r: bool)
        requires
            mv.to < 64,
        ensures
            r == (crate::bits::sq_in(board.color_bb(board.to_move.flip()), mv.to as int) || mv.is_en_passant),
    {
        let enemy_pieces = if board.to_move == Color::White {
            board.black_pieces
        } else {
            board.white_pieces
        };
        proof {
            crate::bits::lemma_test_square(enemy_pieces, mv.to as u64);
        }
        enemy_pieces & (1u64 << (mv.to as u64)) != 0 || mv.is_en_passant
    }

    /// An endgame: no queens, or at most twelve pieces.
    fn is_endgame(&self, board: &Board) -> (r: bool)
        ensures
            r == (board.queens == 0 || pop(board.white_pieces | board.black_pieces) <= 12),
    {
        board.queens == 0 || popcount(board.white_pieces | board.black_pieces) <= 12
    }

    /// The move gives check: a piece stands on its origin, it can be
    /// played, and afterwards the opponent's king is attacked.
    fn gives_check(&self, board: &Board, mv: Move) -> (r: bool)
        requires
            board.wf(),
            mv.from < 64,
        ensures
            r == gives_check_spec(*board, mv),
    {
        if board.get_piece_at(mv.from).is_none() {
            return false;
        }
        if !board.can_play(mv) {
            return false;
        }
        let mut temp_board = *board;
        let _ = temp_board.make_move(mv);
        proof {
            let u = choose|u: UndoInfo| made(*board, mv, temp_board, u);
            assert forall|a: Board, u2: UndoInfo| made(*board, mv, a, u2) implies in_check_spec(a, board.to_move.flip())
                == in_check_spec(temp_board, board.to_move.flip()) by {
                lemma_made_same_checks(*board, mv, a, u2, temp_board, u);
            }
        }
        temp_board.is_king_in_check(board.to_move.opposite())
    }

    /// The number of legal moves of the side to move.
    fn count_legal(&self, board: &Board) -> (n: usize)
        requires
            board.wf(),
        ensures
            (n == 0) == no_legal_move(*board),
    {
        let moves = board.generate_all_moves();
        let mut n: usize = 0;
        let mut i: usize = 0;
        while i < moves.len()
            invariant
                board.wf(),
                i <= moves.len(),
                n <= i,
                (n == 0) == (forall|j: int| 0 <= j < i ==> !legal_move(*board, #[trigger] moves@[j])),
            decreases moves.len() - i,
        {
            if board.is_legal_move(moves[i]) {
                n = n + 1;
            }
            i = i + 1;
        }
        proof {
            if n == 0 {
                assert forall|m: Move| #[trigger] pseudo_legal(*board, m) implies !legal_move(*board, m) by {
                    assert(moves@.contains(m));
                    let j = choose|j: int| 0 <= j < moves.len() && moves@[j] == m;
                }
            } else {
                let j = choose|j: int| 0 <= j < moves.len() && legal_move(*board, #[trigger] moves@[j]);
                assert(moves@.contains(moves@[j]));
                assert(pseudo_legal(*board, moves@[j]));
            }
        }
        n
    }

    /// The moves that take a piece of the other side, take en passant or
    /// promote, in the order generated.
    fn generate_captures_and_promotions(&self, board: &Board) -> (r: Vec<Move>)
        requires
            board.wf(),
        ensures
            forall|k: int| 0 <= k < r.len() ==> #[trigger] r@[k].from < 64 && r@[k].to < 64,
    {
        let all_moves = board.generate_all_moves();
        let enemy_pieces = if board.to_move == Color::White {
            board.black_pieces
        } else {
            board.white_pieces
        };
        let mut r: Vec<Move> = Vec::new();
        let mut i: usize = 0;
        while i < all_moves.len()
            invariant
                i <= all_moves.len(),
                forall|k: int| 0 <= k < r.len() ==> #[trigger] r@[k].from < 64 && r@[k].to < 64,
            decreases all_moves.len() - i,
        {
            let mv = all_moves[i];
            if mv.from < 64 && mv.to < 64 {
                if enemy_pieces & (1u64 << (mv.to as u64)) != 0 || mv.is_en_passant || mv.promotion.is_some() {
                    r.push(mv);
                }
            }
            i = i + 1;
        }
        r
    }

    /// A capture that loses material: not a promotion nor en passant, and
    /// the capturing piece is worth more than 400 above the piece taken.
    fn is_losing_capture(&self, board: &Board, mv: Move) -> (r: bool)
        requires
            board.wf(),
            mv.from < 64,
            mv.to < 64,
        ensures
            r == (mv.promotion is None && !mv.is_en_passant && board.piece_at(mv.to as int) is Some
                && board.piece_at(mv.from as int) is Some && crate::types::kind_value(
                board.piece_at(mv.to as int).unwrap().kind,
            ) < crate::types::kind_value(board.piece_at(mv.from as int).unwrap().kind)
                && crate::types::kind_value(board.piece_at(mv.from as int).unwrap().kind)
                - crate::types::kind_value(board.piece_at(mv.to as int).unwrap().kind) > 400),
    {
        if mv.promotion.is_some() {
            return false;
        }
        if mv.is_en_passant {
            return false;
        }
        if let Some(captured) = board.get_piece_at(mv.to) {
            if let Some(attacker) = board.get_piece_at(mv.from) {
                if captured.kind.value() >= attacker.kind.value() {
                    return false;
                }
                if attacker.kind.value() - captured.kind.value() > 400 {
                    return true;
                }
            }
        }
        false
    }

    /// Splits `moves` into forcing moves (captures, promotions, checks)
    /// and quiet moves, each in the given order.
    fn categorize_moves(&self, moves: &Vec<Move>, board: &Board) -> (r: (Vec<Move>, Vec<Move>))
        requires
            board.wf(),
        ensures
            r.0.len() + r.1.len() == moves.len(),
            forall|k: int| 0 <= k < r.0.len() ==> moves@.contains(#[trigger] r.0@[k]),
            forall|k: int| 0 <= k < r.1.len() ==> moves@.contains(#[trigger] r.1@[k]),
            forall|m: Move| #[trigger] moves@.contains(m) ==> r.0@.contains(m) || r.1@.contains(m),
    {
        let mut forcing_moves: Vec<Move> = Vec::new();
        let mut quiet_moves: Vec<Move> = Vec::new();
        let mut i: usize = 0;
        while i < moves.len()
            invariant
                board.wf(),
                i <= moves.len(),
                forcing_moves.len() + quiet_moves.len() == i,
                forall|k: int| 0 <= k < forcing_moves.len() ==> moves@.contains(#[trigger] forcing_moves@[k]),
                forall|k: int| 0 <= k < quiet_moves.len() ==> moves@.contains(#[trigger] quiet_moves@[k]),
                forall|k: int| 0 <= k < i ==> forcing_moves@.contains(#[trigger] moves@[k]) || quiet_moves@.contains(moves@[k]),
            decreases moves.len() - i,
        {
            let mv = moves[i];
            let ghost f0 = forcing_moves@;
            let ghost q0 = quiet_moves@;
            let is_capture = mv.to < 64 && self.is_capture(mv, board);
            let is_promotion = mv.promotion.is_some();
            let gives_check = if mv.from < 64 && board.get_piece_at(mv.from).is_some() {
                self.gives_check(board, mv)
            } else {
                false
            };
            proof {
                assert(moves@.contains(moves@[i as int]));
            }
            if is_capture || is_promotion || gives_check {
                forcing_moves.push(mv);
            } else {
                quiet_moves.push(mv);
            }
            proof {
                assert forall|k: int| 0 <= k < i + 1 implies forcing_moves@.contains(#[trigger] moves@[k]) || quiet_moves@.contains(moves@[k]) by {
                    if k < i {
                        if f0.contains(moves@[k]) {
                            let j = choose|j: int| 0 <= j < f0.len() && f0[j] == moves@[k];
                            assert(forcing_moves@[j] == moves@[k]);
                        } else {
                            let j = choose|j: int| 0 <= j < q0.len() && q0[j] == moves@[k];
                            assert(quiet_moves@[j] == moves@[k]);
                        }
                    } else {
                        if is_capture || is_promotion || gives_check {
                            assert(forcing_moves@[f0.len() as int] == mv);
                        } else {
                            assert(quiet_moves@[q0.len() as int] == mv);
                        }
                    }
                }
            }
            i = i + 1;
        }
        proof {
            assert forall|m: Move| #[trigger] moves@.contains(m) implies forcing_moves@.contains(m) || quiet_moves@.contains(m) by {
                let k = choose|k: int| 0 <= k < moves.len() && moves@[k] == m;
                assert(forcing_moves@.contains(moves@[k]) || quiet_moves@.contains(moves@[k]));
            }
        }
        (forcing_moves, quiet_moves)
    }

    /// `moves` by their order score with killer and history information,
    /// highest first; with `mate_bonus`, captures score 100000 more.
    fn order_by_heuristics(
        &self,
        moves: Vec<Move>,
        board: &Board,
        tt_move: Option<Move>,
        ply: Ply,
        mate_bonus: bool,
    ) -> (r: Vec<Move>)
        requires
            board.wf(),
            check_cache_ok(*board),
        ensures
            r.len() == moves.len(),
            forall|k: int| 0 <= k < r.len() ==> moves@.contains(#[trigger] r@[k]),
            forall|m: Move| #[trigger] moves@.contains(m) ==> r@.contains(m),
    {
        let mut pairs: Vec<(Move, i64)> = Vec::new();
        let mut i: usize = 0;
        while i < moves.len()
            invariant
                board.wf(),
                check_cache_ok(*board),
                i <= moves.len(),
                pairs.len() == i,
                forall|k: int| 0 <= k < i ==> #[trigger] pairs@[k].0 == moves@[k],
            decreases moves.len() - i,
        {
            let mv = moves[i];
            let key: i64 = if mv.from < 64 && mv.to < 64 {
                let s = self.move_orderer.score_move_with_heuristics(
                    mv,
                    board,
                    tt_move,
                    ply,
                    self.is_killer_move(mv, ply),
                    self.get_history_score(mv),
                );
                if mate_bonus && self.is_capture(mv, board) {
                    s as i64 + 100_000
                } else {
                    s as i64
                }
            } else {
                0
            };
            pairs.push((mv, key));
            i = i + 1;
        }
        let sorted = sort_pairs(pairs);
        let mut r: Vec<Move> = Vec::new();
        let mut j: usize = 0;
        while j < sorted.len()
            invariant
                j <= sorted.len(),
                sorted@.to_multiset() == pairs@.to_multiset(),
                pairs.len() == moves.len(),
                forall|k: int| 0 <= k < pairs.len() ==> #[trigger] pairs@[k].0 == moves@[k],
                r.len() == j,
                forall|k: int| 0 <= k < j ==> #[trigger] r@[k] == sorted@[k].0,
            decreases sorted.len() - j,
        {
            r.push(sorted[j].0);
            j = j + 1;
        }
        proof {
            assert(sorted@.len() == pairs@.len()) by {
                assert(sorted@.to_multiset().len() == pairs@.to_multiset().len());
            }
            assert forall|k: int| 0 <= k < r.len() implies moves@.contains(#[trigger] r@[k]) by {
                let p = sorted@[k];
                assert(sorted@.contains(p));
                assert(sorted@.to_multiset().count(p) > 0);
                assert(pairs@.to_multiset().count(p) > 0);
                assert(pairs@.contains(p));
                let i0 = choose|i0: int| 0 <= i0 < pairs.len() && pairs@[i0] == p;
                assert(moves@[i0] == p.0);
            }
            assert forall|m: Move| #[trigger] moves@.contains(m) implies r@.contains(m) by {
                let i0 = choose|i0: int| 0 <= i0 < moves.len() && moves@[i0] == m;
                let p = pairs@[i0];
                assert(pairs@.contains(p));
                assert(pairs@.to_multiset().count(p) > 0);
                assert(sorted@.to_multiset().count(p) > 0);
                assert(sorted@.contains(p));
                let k = choose|k: int| 0 <= k < sorted.len() && sorted@[k] == p;
                assert(r@[k] == m);
            }
        }
        r
    }

    /// A search of captures and promotions only, from `board` at `ply`
    /// plies from the root, in the window `alpha..beta`: the static
    /// evaluation stands unless a capture that does not lose material,
    /// and may gain enough, does better.
    #[verifier::loop_isolation(false)]
    fn quiescence(&mut self, board: &mut Board, alpha: Score, beta: Score, ply: Ply) -> (r: Score)
        requires
            old(self).inv(),
            old(board).wf(),
            check_cache_ok(*old(board)),
            -window_bound(ply as int) <= alpha <= window_bound(ply as int),
            -window_bound(ply as int) <= beta <= window_bound(ply as int),
        ensures
            final(self).inv(),
            final(self).time_limit == old(self).time_limit,
            *final(board) == *old(board),
            -window_bound(ply as int) <= r <= window_bound(ply as int),
            ply >= MAX_PLY - 1 ==> r == Self::side_eval_spec(*old(board)),
            ply < MAX_PLY - 1 && Self::side_eval_spec(*old(board)) >= beta ==> r == beta,
            ply < MAX_PLY - 1 && Self::side_eval_spec(*old(board)) < beta && Self::side_eval_spec(*old(board)) + 900 < alpha ==> r
                == alpha,
        decreases 255 - ply,
    {
        self.nodes_searched = self.nodes_searched.wrapping_add(1);
        if ply >= MAX_PLY as u8 - 1 {
            return self.side_eval(board);
        }
        let stand_pat = self.side_eval(board);
        if stand_pat >= beta {
            return beta;
        }
        let big_delta: Score = 900;
        if stand_pat + big_delta < alpha {
            return alpha;
        }
        let ghost a0 = alpha;
        let mut alpha = alpha;
        if stand_pat > alpha {
            alpha = stand_pat;
        }
        let captures = self.generate_captures_and_promotions(board);
        let captures = self.move_orderer.order_captures(captures, board);
        let ghost before = *board;
        let mut i: usize = 0;
        while i < captures.len()
            invariant
                self.inv(),
                self.time_limit == old(self).time_limit,
                *board == before,
                before == *old(board),
                ply < MAX_PLY - 1 && Self::side_eval_spec(before) < beta && Self::side_eval_spec(before) + 900 >= a0,
                before.wf(),
                check_cache_ok(before),
                ply < 63,
                -540_000_000 <= stand_pat <= 540_000_000,
                -window_bound(ply as int) <= alpha <= window_bound(ply as int),
                -window_bound(ply as int) <= beta <= window_bound(ply as int),
            decreases captures.len() - i,
        {
            let mv = captures[i];
            i = i + 1;
            if !board.is_legal_move(mv) {
                continue;
            }
            if self.is_losing_capture(board, mv) {
                continue;
            }
            let captured_value = if let Some(captured) = board.get_piece_at(mv.to) {
                captured.kind.value()
            } else if mv.is_en_passant {
                100
            } else if mv.promotion.is_some() {
                800
            } else {
                continue;
            };
            if stand_pat + captured_value + 200 < alpha {
                continue;
            }
            let undo_info = board.make_move_with_undo(mv);
            let ghost mid = *board;
            let score = -self.quiescence(board, -beta, -alpha, ply + 1);
            board.unmake_move(mv, undo_info);
            proof {
                lemma_make_unmake(before, mv, mid, undo_info, *board);
            }
            if score >= beta {
                return beta;
            }
            if score > alpha {
                alpha = score;
            }
        }
        alpha
    }

    /// An alpha-beta search of `board` to `depth` at `ply` plies from the
    /// root in the window `alpha..beta`, with mate detection in check,
    /// check extension, the table, null-move pruning, forcing moves first
    /// and late-move reductions; stores its result in the table. Plays
    /// moves on `board` and takes them back.
    #[verifier::loop_isolation(false)]
    #[verifier::spinoff_prover]
    #[verifier::rlimit(60)]
    fn alpha_beta(&mut self, board: &mut Board, depth: Depth, alpha: Score, beta: Score, ply: Ply) -> (r: Score)
        requires
            old(self).inv(),
            old(board).wf(),
            check_cache_ok(*old(board)),
            1 <= ply,
            -window_bound(ply as int) <= alpha <= window_bound(ply as int),
            -window_bound(ply as int) <= beta <= window_bound(ply as int),
        ensures
            final(self).inv(),
            final(self).time_limit == old(self).time_limit,
            *final(board) == *old(board),
            -window_bound(ply as int) <= r <= window_bound(ply as int),
            old(self).time_limit is None && in_check_spec(*old(board), old(board).to_move) && no_legal_move(*old(board))
                ==> r == -(MATE_SCORE - ply),
            old(self).time_limit is None ==> ab_rel(
                old(self).tt.entries(),
                *old(board),
                depth as int,
                alpha as int,
                beta as int,
                ply as int,
                r as int,
            ),
        decreases 255 - ply,
    {
        let ghost t0 = self.tt.entries();
        let ghost b0 = *board;
        let ghost nolimit = self.time_limit is None;
        self.nodes_searched = self.nodes_searched.wrapping_add(1);
        if self.nodes_searched % 1024 == 0 && self.should_stop() {
            return alpha;
        }
        let in_check = board.is_king_in_check(board.to_move);
        if in_check {
            let legal_moves = self.count_legal(board);
            if legal_moves == 0 {
                return -Evaluator::mate_in_n(ply);
            }
        }
        let extended_depth: Depth = if in_check && depth == 1 {
            2
        } else {
            depth
        };
        if extended_depth == 0 {
            return self.quiescence(board, alpha, beta, ply);
        }
        if let Some(tt_score) = self.tt.probe(board.zobrist_hash, depth, alpha, beta) {
            return cap_score(TranspositionTable::score_from_tt(tt_score, ply));
        }
        if ply == 255 {
            return self.side_eval(board);
        }
        let ghost before = *board;
        let ghost mut nr: int = 0;
        if depth >= 3 && !in_check && ply > 0 {
            if !self.is_endgame(board) && alpha > -MATE_IN_MAX && alpha < MATE_IN_MAX {
                board.to_move = board.to_move.opposite();
                proof {
                    lemma_same_bitboards_same_attacks_of(before, *board);
                }
                let reduction: Depth = if depth > 6 {
                    4
                } else {
                    3
                };
                let null_depth: Depth = if depth > reduction {
                    depth - reduction
                } else {
                    0
                };
                proof {
                    assert(*board == (Board { to_move: before.to_move.flip(), ..before }));
                }
                let nres = self.alpha_beta(board, null_depth, -beta, -beta + 1, ply + 1);
                let null_score = -nres;
                proof {
                    nr = nres as int;
                }
                board.to_move = board.to_move.opposite();
                proof {
                    assert(*board == before);
                }
                if null_score >= beta {
                    proof {
                        if nolimit {
                            lemma_ab_rel_null(t0, b0, depth as int, alpha as int, beta as int, ply as int, beta as int, nr);
                        }
                    }
                    return beta;
                }
            }
        }
        let moves = board.generate_all_moves();
        let ghost all0 = moves@;
        let tt_move = self.tt.get_best_move(board.zobrist_hash);
        let has_mate_potential = self.evaluator.has_mate_potential(board);
        let (forcing_moves, quiet_moves) = self.categorize_moves(&moves, board);
        let ghost f0 = forcing_moves@;
        let ghost q0 = quiet_moves@;
        let mut moves = self.order_by_heuristics(forcing_moves, board, tt_move, ply, has_mate_potential);
        let mut quiet_moves = self.order_by_heuristics(quiet_moves, board, tt_move, ply, false);
        let ghost fo = moves@;
        let ghost qo = quiet_moves@;
        moves.append(&mut quiet_moves);
        let ghost ord = moves@;
        proof {
            assert(ord == fo + qo);
            assert forall|m: Move| #[trigger] pseudo_legal(b0, m) implies ord.contains(m) by {
                assert(all0.contains(m));
                if f0.contains(m) {
                    assert(fo.contains(m));
                    let k = choose|k: int| 0 <= k < fo.len() && fo[k] == m;
                    assert(ord[k] == m);
                } else {
                    assert(q0.contains(m));
                    assert(qo.contains(m));
                    let k = choose|k: int| 0 <= k < qo.len() && qo[k] == m;
                    assert(ord[fo.len() + k] == m);
                }
            }
        }
        let mut alpha = alpha;
        let mut legal_moves: usize = 0;
        let mut best_move: Option<Move> = None;
        let original_alpha = alpha;
        let ghost alpha0 = alpha as int;
        let ghost mut broke = false;
        let ghost mut found = false;
        let mut move_count: usize = 0;
        while move_count < moves.len()
            invariant
                moves@ == ord,
                found == (legal_moves > 0),
                nolimit == (self.time_limit is None),
                !broke,
                nolimit ==> forall|rr: int|
                    #![trigger ab_loop(b0, ord, move_count as int, alpha as int, beta as int, ply as int, in_check, found, rr)]
                    ab_loop(b0, ord, move_count as int, alpha as int, beta as int, ply as int, in_check, found, rr)
                        ==> ab_loop(b0, ord, 0, alpha0, beta as int, ply as int, in_check, false, rr),
                self.inv(),
                self.time_limit == old(self).time_limit,
                *board == before,
                before == *old(board),
                before.wf(),
                check_cache_ok(before),
                1 <= ply < 255,
                1 <= extended_depth,
                legal_moves <= move_count,
                move_count <= moves.len(),
                !(in_check_spec(before, before.to_move) && no_legal_move(before)),
                in_check == in_check_spec(before, before.to_move),
                -window_bound(ply as int) <= alpha <= window_bound(ply as int),
                -window_bound(ply as int) <= beta <= window_bound(ply as int),
                best_move matches Some(m) ==> m.from < 64 && m.to < 64,
            decreases moves.len() - move_count,
        {
            let idx = move_count;
            let mv = moves[idx];
            move_count = move_count + 1;
            let ghost alpha_i: int = alpha as int;
            let ghost found_i: bool = found;
            if !board.is_legal_move(mv) {
                proof {
                    if nolimit {
                        assert forall|rr: int|
                            ab_loop(b0, ord, move_count as int, alpha as int, beta as int, ply as int, in_check, found, rr)
                            implies ab_loop(b0, ord, 0, alpha0, beta as int, ply as int, in_check, false, rr) by {
                            lemma_ab_loop_illegal(b0, ord, idx as int, alpha_i, beta as int, ply as int, in_check, found_i, rr);
                        }
                    }
                }
                continue;
            }
            legal_moves = legal_moves + 1;
            proof {
                found = true;
            }
            let undo_info = board.make_move_with_undo(mv);
            let ghost mid = *board;
            let gives_check = self.gives_check(board, mv);
            let is_capture = self.is_capture(mv, board);
            let ghost mut gt: Map<u64, TTEntry> = self.tt.entries();
            let ghost mut gd: int = 0;
            let ghost mut ga: int = 0;
            let ghost mut gb: int = 0;
            let ghost mut gcr: int = 0;
            let score = if idx >= 4 && extended_depth >= 3 && !in_check && !is_capture && !gives_check
                && !Evaluator::is_mate_score(alpha) {
                let reduction: Depth = if idx >= 6 {
                    2
                } else {
                    1
                };
                let reduced_depth: Depth = if extended_depth > reduction {
                    extended_depth - reduction
                } else {
                    1
                };
                let ghost tc1 = self.tt.entries();
                let c1 = self.alpha_beta(board, reduced_depth, -alpha - 1, -alpha, ply + 1);
                proof {
                    gt = tc1;
                    gd = reduced_depth as int;
                    ga = -alpha - 1;
                    gb = -alpha as int;
                    gcr = c1 as int;
                }
                let lmr_score = -c1;
                if lmr_score > alpha {
                    let ghost tc2 = self.tt.entries();
                    let c2 = self.alpha_beta(board, extended_depth - 1, -beta, -alpha, ply + 1);
                    proof {
                        gt = tc2;
                        gd = (extended_depth - 1) as int;
                        ga = -beta;
                        gb = -alpha as int;
                        gcr = c2 as int;
                    }
                    -c2
                } else {
                    lmr_score
                }
            } else {
                let next_depth: Depth = if gives_check && (extended_depth as u16) < depth as u16 + 2 {
                    extended_depth
                } else {
                    extended_depth - 1
                };
                let ghost tc3 = self.tt.entries();
                let c3 = self.alpha_beta(board, next_depth, -beta, -alpha, ply + 1);
                proof {
                    gt = tc3;
                    gd = next_depth as int;
                    ga = -beta;
                    gb = -alpha as int;
                    gcr = c3 as int;
                }
                -c3
            };
            proof {
                assert(score == -gcr);
                assert(nolimit ==> ab_rel(gt, mid, gd, ga, gb, ply + 1, gcr));
                assert(gb == -alpha_i && (ga == -beta || ga == -alpha_i - 1));
            }
            board.unmake_move(mv, undo_info);
            proof {
                lemma_make_unmake(before, mv, mid, undo_info, *board);
            }
            if score >= beta {
                self.update_killer_move(mv, ply);
                self.update_history(mv, depth);
                let tt_score = TranspositionTable::score_to_tt(beta, ply);
                self.store(board.zobrist_hash, depth, tt_score, TTNodeType::Beta, Some(mv));
                proof {
                    if nolimit {
                        lemma_ab_loop_searched(b0, ord, idx as int, alpha_i, beta as int, ply as int, in_check, found_i, beta as int, mid, undo_info, gt, gd, ga, gb, gcr);
                        lemma_ab_finish(t0, b0, depth as int, alpha0, beta as int, ply as int, beta as int, nr, extended_depth as int, ord);
                    }
                }
                return beta;
            }
            if score > alpha {
                alpha = score;
                best_move = Some(mv);
                if Evaluator::is_mate_score(score) {
                    proof {
                        broke = true;
                        if nolimit {
                            lemma_ab_loop_searched(b0, ord, idx as int, alpha_i, beta as int, ply as int, in_check, found_i, score as int, mid, undo_info, gt, gd, ga, gb, gcr);
                            assert(ab_loop(b0, ord, 0, alpha0, beta as int, ply as int, in_check, false, alpha as int));
                        }
                    }
                    break;
                }
            }
            proof {
                if nolimit {
                    assert forall|rr: int|
                        ab_loop(b0, ord, move_count as int, alpha as int, beta as int, ply as int, in_check, found, rr)
                        implies ab_loop(b0, ord, 0, alpha0, beta as int, ply as int, in_check, false, rr) by {
                        assert(alpha as int == max_int(alpha_i, -gcr));
                        lemma_ab_loop_searched(b0, ord, idx as int, alpha_i, beta as int, ply as int, in_check, found_i, rr, mid, undo_info, gt, gd, ga, gb, gcr);
                    }
                }
            }
        }
        proof {
            if nolimit && !broke {
                assert(ab_loop(b0, ord, move_count as int, alpha as int, beta as int, ply as int, in_check, found, if legal_moves > 0 { alpha as int } else if in_check { -(MATE_SCORE - ply) } else { 0int }));
            }
        }
        if legal_moves == 0 {
            let res = if board.is_king_in_check(board.to_move) {
                -Evaluator::mate_in_n(ply)
            } else {
                0
            };
            proof {
                if nolimit {
                    lemma_ab_finish(t0, b0, depth as int, alpha0, beta as int, ply as int, res as int, nr, extended_depth as int, ord);
                }
            }
            return res;
        }
        let node_type = if alpha > original_alpha {
            TTNodeType::Exact
        } else {
            TTNodeType::Alpha
        };
        let tt_score = TranspositionTable::score_to_tt(alpha, ply);
        self.store(board.zobrist_hash, depth, tt_score, node_type, best_move);
        proof {
            if nolimit {
                lemma_ab_finish(t0, b0, depth as int, alpha0, beta as int, ply as int, alpha as int, nr, extended_depth as int, ord);
            }
        }
        alpha
    }

    /// Stores an entry in the table.
    fn store(&mut self, hash: u64, depth: Depth, score: Score, node_type: TTNodeType, best_move: Option<Move>)
        requires
            old(self).inv(),
            -(SCORE_CAP + 600) <= score <= SCORE_CAP + 600,
        ensures
            final(self).inv(),
            final(self).time_limit == old(self).time_limit,
            final(self).tt.entries() == old(self).tt.entries().insert(
                hash,
                crate::search::transposition::TTEntry {
                    zobrist_hash: hash,
                    depth,
                    score,
                    node_type,
                    best_move,
                    age: old(self).tt.current(),
                },
            ),
    {
        self.tt.store(hash, depth, score, node_type, best_move);
    }

    /// The search of the root to `depth` in the window `alpha..beta`:
    /// each legal move in the ordered list is searched until one reaches
    /// `beta`; the best is stored in the table. Without legal moves the
    /// score is a mate when in check, a draw otherwise.
    fn alpha_beta_root_windowed(&mut self, board: &mut Board, depth: Depth, alpha: Score, beta: Score) -> (r: Score)
        requires
            old(self).inv(),
            old(board).wf(),
            check_cache_ok(*old(board)),
            1 <= depth,
            -(SCORE_CAP + 50) <= alpha <= SCORE_CAP + 50,
            -(SCORE_CAP + 50) <= beta <= SCORE_CAP + 50,
        ensures
            final(self).inv(),
            final(self).time_limit == old(self).time_limit,
            *final(board) == *old(board),
            -SCORE_CAP <= r <= SCORE_CAP,
            no_legal_move(*old(board)) ==> r == (if in_check_spec(*old(board), old(board).to_move) {
                -MATE_SCORE
            } else {
                0
            }),
            old(self).time_limit is None ==> root_rel_ab(*old(board), depth as int, alpha as int, beta as int, true, r as int),
    {
        let mut alpha = alpha;
        let mut best_move: Option<Move> = None;
        let mut legal_moves: usize = 0;
        let all = board.generate_all_moves();
        proof {
            assert forall|j: int| 0 <= j < all.len() implies #[trigger] all@[j].from < 64 && all@[j].to < 64 by {
                assert(all@.contains(all@[j]));
                lemma_pseudo_on_board(*board, all@[j]);
            }
        }
        let moves = self.move_orderer.order_moves(all, board, &self.tt, 0);
        let ghost before = *board;
        let ghost nolimit = self.time_limit is None;
        let ghost alpha0 = alpha as int;
        let ghost mut found = false;
        let mut i: usize = 0;
        while i < moves.len()
            invariant_except_break
                nolimit ==> forall|rr: int|
                    #![trigger root_loop_ab(before, moves@, 0, depth as int, alpha0, beta as int, true, false, rr)]
                    root_loop_ab(before, moves@, i as int, depth as int, alpha as int, beta as int, true, found, rr)
                        ==> root_loop_ab(before, moves@, 0, depth as int, alpha0, beta as int, true, false, rr),
            invariant
                self.inv(),
                self.time_limit == old(self).time_limit,
                *board == before,
                before == *old(board),
                before.wf(),
                check_cache_ok(before),
                1 <= depth,
                i <= moves.len(),
                legal_moves <= i,
                (legal_moves == 0) == (forall|j: int| 0 <= j < i ==> !legal_move(before, #[trigger] moves@[j])),
                -(SCORE_CAP + 51) <= alpha <= SCORE_CAP + 51,
                -(SCORE_CAP + 50) <= beta <= SCORE_CAP + 50,
                legal_moves == 0 ==> best_move is None,
                moves@.to_multiset() == all@.to_multiset(),
                forall|m: Move| #![trigger all@.contains(m)] all@.contains(m) <==> pseudo_legal(before, m),
                found == (legal_moves > 0),
                nolimit == (self.time_limit is None),
            ensures
                nolimit ==> root_loop_ab(before, moves@, 0, depth as int, alpha0, beta as int, true, false, if legal_moves > 0 {
                    alpha as int
                } else if in_check_spec(before, before.to_move) {
                    -MATE_SCORE as int
                } else {
                    0
                }),
                legal_moves == 0 ==> i >= moves.len(),
                (legal_moves == 0) == (forall|j: int| 0 <= j < i ==> !legal_move(before, #[trigger] moves@[j])),
            decreases moves.len() - i,
        {
            let mv = moves[i];
            let ghost idx = i as int;
            let ghost alpha_i = alpha as int;
            let ghost found_i = found;
            i = i + 1;
            if !board.is_legal_move(mv) {
                proof {
                    if nolimit {
                        assert forall|rr: int|
                            root_loop_ab(before, moves@, i as int, depth as int, alpha as int, beta as int, true, found, rr)
                            implies root_loop_ab(before, moves@, 0, depth as int, alpha0, beta as int, true, false, rr) by {
                            lemma_root_ab_illegal(before, moves@, idx, depth as int, alpha_i, beta as int, true, found_i, rr);
                        }
                    }
                }
                continue;
            }
            legal_moves = legal_moves + 1;
            proof {
                found = true;
            }
            let undo_info = board.make_move_with_undo(mv);
            let ghost mid = *board;
            let ghost tc = self.tt.entries();
            let c = self.alpha_beta(board, depth - 1, -beta, -alpha, 1);
            let score = -c;
            board.unmake_move(mv, undo_info);
            proof {
                lemma_make_unmake(before, mv, mid, undo_info, *board);
            }
            if score > alpha {
                alpha = score;
                best_move = Some(mv);
                if alpha >= beta {
                    proof {
                        if nolimit {
                            lemma_root_ab_searched(before, moves@, idx, depth as int, alpha_i, beta as int, true, found_i, score as int, mid, undo_info, tc, c as int);
                        }
                    }
                    break;
                }
            }
            proof {
                if nolimit {
                    assert forall|rr: int|
                        root_loop_ab(before, moves@, i as int, depth as int, alpha as int, beta as int, true, found, rr)
                        implies root_loop_ab(before, moves@, 0, depth as int, alpha0, beta as int, true, false, rr) by {
                        assert(alpha as int == max_int(alpha_i, -c));
                        lemma_root_ab_searched(before, moves@, idx, depth as int, alpha_i, beta as int, true, found_i, rr, mid, undo_info, tc, c as int);
                    }
                }
            }
        }
        proof {
            if no_legal_move(before) {
                assert forall|j: int| 0 <= j < i implies !legal_move(before, #[trigger] moves@[j]) by {
                    assert(moves@.contains(moves@[j]));
                    assert(moves@.to_multiset().count(moves@[j]) > 0);
                    assert(all@.to_multiset().count(moves@[j]) > 0);
                    assert(all@.contains(moves@[j]));
                }
            }
        }
        if legal_moves == 0 {
            proof {
                assert forall|m: Move| #[trigger] pseudo_legal(before, m) implies !legal_move(before, m) by {
                    assert(all@.contains(m));
                    assert(all@.to_multiset().count(m) > 0);
                    assert(moves@.to_multiset().count(m) > 0);
                    assert(moves@.contains(m));
                    let j = choose|j: int| 0 <= j < moves.len() && moves@[j] == m;
                }
            }
            alpha = if board.is_king_in_check(board.to_move) {
                -MATE_SCORE
            } else {
                0
            };
        }
        if let Some(mv) = best_move {
            let node_type = if alpha >= beta {
                TTNodeType::Beta
            } else {
                TTNodeType::Exact
            };
            self.store(board.zobrist_hash, depth, alpha, node_type, Some(mv));
        }
        proof {
            if nolimit {
                assert forall|m: Move| #[trigger] pseudo_legal(before, m) implies moves@.contains(m) by {
                    assert(all@.contains(m));
                    assert(all@.to_multiset().count(m) > 0);
                    assert(moves@.to_multiset().count(m) > 0);
                }
                assert(root_loop_ab(before, moves@, 0, depth as int, alpha0, beta as int, true, false, alpha as int));
                assert(chosen(moves@) && chosen(alpha as int));
            }
        }
        cap_score(alpha)
    }

    /// The search of the root to `depth` in the full window: every legal
    /// move in the ordered list is searched, stopping at a mate score; the
    /// best is stored in the table as exact. Without legal moves the score
    /// is a mate when in check, a draw otherwise.
    fn alpha_beta_root(&mut self, board: &mut Board, depth: Depth) -> (r: Score)
        requires
            old(self).inv(),
            old(board).wf(),
            check_cache_ok(*old(board)),
            1 <= depth,
        ensures
            final(self).inv(),
            final(self).time_limit == old(self).time_limit,
            *final(board) == *old(board),
            -SCORE_CAP <= r <= SCORE_CAP,
            no_legal_move(*old(board)) ==> r == (if in_check_spec(*old(board), old(board).to_move) {
                -MATE_SCORE
            } else {
                0
            }),
            old(self).time_limit is None ==> root_rel_ab(*old(board), depth as int, -MATE_SCORE as int, MATE_SCORE as int, false, r as int),
    {
        let mut alpha: Score = -MATE_SCORE;
        let beta: Score = MATE_SCORE;
        let mut best_move: Option<Move> = None;
        let mut legal_moves: usize = 0;
        let all = board.generate_all_moves();
        proof {
            assert forall|j: int| 0 <= j < all.len() implies #[trigger] all@[j].from < 64 && all@[j].to < 64 by {
                assert(all@.contains(all@[j]));
                lemma_pseudo_on_board(*board, all@[j]);
            }
        }
        let moves = self.move_orderer.order_moves(all, board, &self.tt, 0);
        let ghost before = *board;
        let ghost nolimit = self.time_limit is None;
        let ghost alpha0 = alpha as int;
        let ghost mut found = false;
        let mut i: usize = 0;
        while i < moves.len()
            invariant_except_break
                nolimit ==> forall|rr: int|
                    #![trigger root_loop_ab(before, moves@, 0, depth as int, alpha0, beta as int, false, false, rr)]
                    root_loop_ab(before, moves@, i as int, depth as int, alpha as int, beta as int, false, found, rr)
                        ==> root_loop_ab(before, moves@, 0, depth as int, alpha0, beta as int, false, false, rr),
            invariant
                self.inv(),
                self.time_limit == old(self).time_limit,
                *board == before,
                before == *old(board),
                before.wf(),
                check_cache_ok(before),
                1 <= depth,
                i <= moves.len(),
                legal_moves <= i,
                (legal_moves == 0) == (forall|j: int| 0 <= j < i ==> !legal_move(before, #[trigger] moves@[j])),
                -(SCORE_CAP + 51) <= alpha <= SCORE_CAP + 51,
                beta == MATE_SCORE,
                legal_moves == 0 ==> best_move is None,
                moves@.to_multiset() == all@.to_multiset(),
                forall|m: Move| #![trigger all@.contains(m)] all@.contains(m) <==> pseudo_legal(before, m),
                found == (legal_moves > 0),
                nolimit == (self.time_limit is None),
            ensures
                nolimit ==> root_loop_ab(before, moves@, 0, depth as int, alpha0, beta as int, false, false, if legal_moves > 0 {
                    alpha as int
                } else if in_check_spec(before, before.to_move) {
                    -MATE_SCORE as int
                } else {
                    0
                }),
                legal_moves == 0 ==> i >= moves.len(),
                (legal_moves == 0) == (forall|j: int| 0 <= j < i ==> !legal_move(before, #[trigger] moves@[j])),
            decreases moves.len() - i,
        {
            let mv = moves[i];
            let ghost idx = i as int;
            let ghost alpha_i = alpha as int;
            let ghost found_i = found;
            i = i + 1;
            if !board.is_legal_move(mv) {
                proof {
                    if nolimit {
                        assert forall|rr: int|
                            root_loop_ab(before, moves@, i as int, depth as int, alpha as int, beta as int, false, found, rr)
                            implies root_loop_ab(before, moves@, 0, depth as int, alpha0, beta as int, false, false, rr) by {
                            lemma_root_ab_illegal(before, moves@, idx, depth as int, alpha_i, beta as int, false, found_i, rr);
                        }
                    }
                }
                continue;
            }
            legal_moves = legal_moves + 1;
            proof {
                found = true;
            }
            let undo_info = board.make_move_with_undo(mv);
            let ghost mid = *board;
            let ghost tc = self.tt.entries();
            let c = self.alpha_beta(board, depth - 1, -beta, -alpha, 1);
            let score = -c;
            board.unmake_move(mv, undo_info);
            proof {
                lemma_make_unmake(before, mv, mid, undo_info, *board);
            }
            if score > alpha {
                alpha = score;
                best_move = Some(mv);
                if Evaluator::is_mate_score(score) {
                    proof {
                        if nolimit {
                            lemma_root_ab_searched(before, moves@, idx, depth as int, alpha_i, beta as int, false, found_i, score as int, mid, undo_info, tc, c as int);
                        }
                    }
                    break;
                }
            }
            proof {
                if nolimit {
                    assert forall|rr: int|
                        root_loop_ab(before, moves@, i as int, depth as int, alpha as int, beta as int, false, found, rr)
                        implies root_loop_ab(before, moves@, 0, depth as int, alpha0, beta as int, false, false, rr) by {
                        assert(alpha as int == max_int(alpha_i, -c));
                        lemma_root_ab_searched(before, moves@, idx, depth as int, alpha_i, beta as int, false, found_i, rr, mid, undo_info, tc, c as int);
                    }
                }
            }
        }
        proof {
            if no_legal_move(before) {
                assert forall|j: int| 0 <= j < i implies !legal_move(before, #[trigger] moves@[j]) by {
                    assert(moves@.contains(moves@[j]));
                    assert(moves@.to_multiset().count(moves@[j]) > 0);
                    assert(all@.to_multiset().count(moves@[j]) > 0);
                    assert(all@.contains(moves@[j]));
                }
            }
        }
        if legal_moves == 0 {
            proof {
                assert forall|m: Move| #[trigger] pseudo_legal(before, m) implies !legal_move(before, m) by {
                    assert(all@.contains(m));
                    assert(all@.to_multiset().count(m) > 0);
                    assert(moves@.to_multiset().count(m) > 0);
                    assert(moves@.contains(m));
                    let j = choose|j: int| 0 <= j < moves.len() && moves@[j] == m;
                }
            }
            alpha = if board.is_king_in_check(board.to_move) {
                -MATE_SCORE
            } else {
                0
            };
        }
        if let Some(mv) = best_move {
            self.store(board.zobrist_hash, depth, alpha, TTNodeType::Exact, Some(mv));
        }
        proof {
            if nolimit {
                assert forall|m: Move| #[trigger] pseudo_legal(before, m) implies moves@.contains(m) by {
                    assert(all@.contains(m));
                    assert(all@.to_multiset().count(m) > 0);
                    assert(moves@.to_multiset().count(m) > 0);
                }
                assert(root_loop_ab(before, moves@, 0, depth as int, alpha0, beta as int, false, false, alpha as int));
                assert(chosen(moves@) && chosen(alpha as int));
            }
        }
        cap_score(alpha)
    }

    /// The search of the root to `depth` in a window of 50 around
    /// `prev_score`, widened to the full window on the side where the score
    /// falls outside it, until the score lies inside or both sides are
    /// wide.
    fn search_with_aspiration(&mut self, board: &mut Board, depth: Depth, prev_score: Score) -> (r: Score)
        requires
            old(self).inv(),
            old(board).wf(),
            check_cache_ok(*old(board)),
            1 <= depth,
            -SCORE_CAP <= prev_score <= SCORE_CAP,
        ensures
            final(self).inv(),
            final(self).time_limit == old(self).time_limit,
            *final(board) == *old(board),
            -SCORE_CAP <= r <= SCORE_CAP,
            old(self).time_limit is None ==> exists|a: int, bb: int|
                #![trigger root_rel_ab(*old(board), depth as int, a, bb, true, r as int)]
                root_rel_ab(*old(board), depth as int, a, bb, true, r as int),
    {
        let mut alpha = prev_score - 50;
        let mut beta = prev_score + 50;
        loop
            invariant
                self.inv(),
                self.time_limit == old(self).time_limit,
                *board == *old(board),
                board.wf(),
                check_cache_ok(*board),
                1 <= depth,
                -(SCORE_CAP + 50) <= alpha <= SCORE_CAP + 50,
                -(SCORE_CAP + 50) <= beta <= SCORE_CAP + 50,
            decreases (if alpha == -MATE_SCORE {
                0int
            } else {
                1int
            }) + (if beta == MATE_SCORE {
                0int
            } else {
                1int
            }),
        {
            let score = self.alpha_beta_root_windowed(board, depth, alpha, beta);
            proof {
                if self.time_limit is None {
                    assert(root_rel_ab(*old(board), depth as int, alpha as int, beta as int, true, score as int));
                }
            }
            if score <= alpha {
                if alpha == -MATE_SCORE {
                    return score;
                }
                alpha = -MATE_SCORE;
            } else if score >= beta {
                if beta == MATE_SCORE {
                    return score;
                }
                beta = MATE_SCORE;
            } else {
                return score;
            }
            if alpha == -MATE_SCORE && beta == MATE_SCORE {
                return score;
            }
        }
    }

    /// `mv` is one of the legal moves of `board`.
    fn is_legal_root_move(board: &Board, mv: Move) -> (r: bool)
        requires
            board.wf(),
        ensures
            r == (pseudo_legal(*board, mv) && legal_move(*board, mv)),
    {
        let legal = board.generate_legal_moves();
        let mut i: usize = 0;
        while i < legal.len()
            invariant
                i <= legal.len(),
                forall|j: int| 0 <= j < i ==> legal@[j] != mv,
                forall|m: Move|
                    #![trigger legal@.contains(m)]
                    legal@.contains(m) <==> (pseudo_legal(*board, m) && legal_move(*board, m)),
            decreases legal.len() - i,
        {
            if legal[i] == mv {
                proof {
                    assert(legal@[i as int] == mv);
                    assert(legal@.contains(mv));
                    assert(pseudo_legal(*board, mv) && legal_move(*board, mv));
                }
                return true;
            }
            i = i + 1;
        }
        proof {
            if pseudo_legal(*board, mv) && legal_move(*board, mv) {
                assert(legal@.contains(mv));
            }
        }
        false
    }

    /// Searches `board` by iterative deepening from depth 1 to `max_depth`,
    /// with aspiration windows from depth 3 unless the last score was a
    /// mate; after each depth takes the table's move for the root as the
    /// best move (when it is legal), and records the iteration. Stops when
    /// time runs out or a mate score is found. The board is left as it was.
    pub fn search(&mut self, board: &mut Board, max_depth: Depth) -> (r: SearchResult)
        requires
            old(self).inv(),
            old(board).wf(),
            check_cache_ok(*old(board)),
        ensures
            final(self).inv(),
            final(self).limit() == old(self).limit(),
            *final(board) == *old(board),
            r.best_move matches Some(m) ==> pseudo_legal(*old(board), m) && legal_move(*old(board), m),
            r.search_info.len() <= max_depth,
            forall|i: int|
                0 <= i < r.search_info.len() ==> (#[trigger] r.search_info@[i]).depth == i + 1
                    && r.search_info@[i].pv@.len() == 1,
            r.search_info.len() == 0 ==> r.best_move is None && r.score == -MATE_SCORE,
            r.search_info.len() > 0 ==> r.search_info@.last().pv@[0] == shown_move(r.best_move),
            no_legal_move(*old(board)) ==> r.best_move is None && r.score == -MATE_SCORE,
            old(self).limit() is None ==> r.search_info.len() == max_depth || (r.search_info.len() > 0 && is_mate(
                r.search_info@.last().score as int,
            )),
            old(self).limit() is None && max_depth >= 1 && no_legal_move(*old(board)) && in_check_spec(
                *old(board),
                old(board).to_move,
            ) ==> r.search_info.len() == 1 && r.search_info@[0].score == -MATE_SCORE,
            r.best_move matches Some(m) ==> exists|i: int|
                #![trigger r.search_info@[i]]
                0 <= i < r.search_info.len() && r.search_info@[i].score == r.score && r.search_info@[i].pv@[0] == m,
            old(self).limit() is None ==> forall|i: int|
                0 <= i < r.search_info.len() ==> iteration_found(
                    *old(board),
                    (#[trigger] r.search_info@[i]).depth as int,
                    r.search_info@[i].score as int,
                ),
    {
        self.reset_search();
        self.start_time = Instant::now();
        let mut best_move: Option<Move> = None;
        let mut best_score: Score = -MATE_SCORE;
        let mut pv: Vec<SearchInfo> = Vec::new();
        let mut prev_score: Score = 0;
        let ghost before = *board;
        let mut depth: u16 = 1;
        while depth <= max_depth as u16
            invariant_except_break
                old(self).time_limit is None && no_legal_move(before) && in_check_spec(before, before.to_move)
                    ==> pv.len() == 0,
            invariant
                self.inv(),
                self.time_limit == old(self).time_limit,
                *board == before,
                before == *old(board),
                before.wf(),
                check_cache_ok(before),
                1 <= depth <= max_depth as u16 + 1,
                pv.len() == depth - 1,
                -SCORE_CAP <= prev_score <= SCORE_CAP,
                best_move matches Some(m) ==> pseudo_legal(before, m) && legal_move(before, m),
                best_move matches Some(m) ==> exists|i: int|
                    #![trigger pv@[i]]
                    0 <= i < pv.len() && pv@[i].score == best_score && pv@[i].pv@[0] == m,
                old(self).time_limit is None ==> forall|i: int|
                    0 <= i < pv.len() ==> iteration_found(before, (#[trigger] pv@[i]).depth as int, pv@[i].score as int),
                forall|i: int|
                    0 <= i < pv.len() ==> (#[trigger] pv@[i]).depth == i + 1 && pv@[i].pv@.len() == 1,
                pv.len() == 0 ==> best_move is None && best_score == -MATE_SCORE,
                pv.len() > 0 ==> pv@.last().pv@[0] == shown_move(best_move),
                no_legal_move(before) ==> best_move is None && best_score == -MATE_SCORE,
                pv.len() > 0 && old(self).time_limit is None && no_legal_move(before) && in_check_spec(
                    before,
                    before.to_move,
                ) ==> pv@[0].score == -MATE_SCORE,
            ensures
                old(self).time_limit is None ==> pv.len() == max_depth || (pv.len() > 0 && is_mate(
                    pv@.last().score as int,
                )),
                pv.len() <= max_depth,
                old(self).time_limit is None && no_legal_move(before) && in_check_spec(before, before.to_move)
                    && pv.len() > 0 ==> pv.len() == 1,
                forall|i: int|
                    0 <= i < pv.len() ==> (#[trigger] pv@[i]).depth == i + 1 && pv@[i].pv@.len() == 1,
                pv.len() == 0 ==> best_move is None && best_score == -MATE_SCORE,
                pv.len() > 0 ==> pv@.last().pv@[0] == shown_move(best_move),
                no_legal_move(before) ==> best_move is None && best_score == -MATE_SCORE,
                pv.len() > 0 && old(self).time_limit is None && no_legal_move(before) && in_check_spec(
                    before,
                    before.to_move,
                ) ==> pv@[0].score == -MATE_SCORE,
                best_move matches Some(m) ==> pseudo_legal(before, m) && legal_move(before, m),
                best_move matches Some(m) ==> exists|i: int|
                    #![trigger pv@[i]]
                    0 <= i < pv.len() && pv@[i].score == best_score && pv@[i].pv@[0] == m,
                old(self).time_limit is None ==> forall|i: int|
                    0 <= i < pv.len() ==> iteration_found(before, (#[trigger] pv@[i]).depth as int, pv@[i].score as int),
            decreases max_depth as u16 + 1 - depth,
        {
            let d = depth as u8;
            if self.should_stop() {
                break;
            }
            let score = if d >= 3 && !Evaluator::is_mate_score(prev_score) {
                let s1 = self.search_with_aspiration(board, d, prev_score);
                proof {
                    if self.time_limit is None {
                        let (a, bb) = choose|a: int, bb: int| root_rel_ab(before, d as int, a, bb, true, s1 as int);
                        assert(root_rel_ab(before, d as int, a, bb, true, s1 as int));
                    }
                }
                s1
            } else {
                let s2 = self.alpha_beta_root(board, d);
                proof {
                    if self.time_limit is None {
                        assert(root_rel_ab(before, d as int, -MATE_SCORE as int, MATE_SCORE as int, false, s2 as int));
                    }
                }
                s2
            };
            let ghost score_ok = self.time_limit is None ==> iteration_found(before, d as int, score as int);
            let ghost mut took = false;
            if let Some(mv) = self.tt.get_best_move(board.zobrist_hash) {
                if Self::is_legal_root_move(board, mv) {
                    best_move = Some(mv);
                    best_score = score;
                    prev_score = score;
                    proof {
                        took = true;
                    }
                }
            }
            let shown = match best_move {
                Some(m) => m,
                None => Move { from: 0, to: 0, promotion: None, is_castling: false, is_en_passant: false },
            };
            let mut line: Vec<Move> = Vec::new();
            line.push(shown);
            let info = SearchInfo {
                depth: d,
                score,
                nodes: self.nodes_searched,
                time: self.start_time.elapsed(),
                pv: line,
            };
            let ghost old_pv = pv@;
            pv.push(info);
            proof {
                assert(pv@.last() == info);
                assert(d as int == depth as int);
                assert forall|i: int| 0 <= i < pv.len() implies (#[trigger] pv@[i]).depth == i + 1 && pv@[i].pv@.len() == 1 by {
                    if i < old_pv.len() {
                        assert(pv@[i] == old_pv[i]);
                    }
                }
                if self.time_limit is None {
                    assert forall|i: int| 0 <= i < pv.len() implies iteration_found(before, (#[trigger] pv@[i]).depth as int, pv@[i].score as int) by {
                        if i < old_pv.len() {
                            assert(pv@[i] == old_pv[i]);
                        } else {
                            assert(pv@[i] == info);
                            assert(score_ok);
                        }
                    }
                }
                if best_move is Some {
                    if took {
                        assert(pv@[old_pv.len() as int] == info);
                    } else {
                        let k = choose|k: int| #![trigger old_pv[k]] 0 <= k < old_pv.len() && old_pv[k].score == best_score
                            && old_pv[k].pv@[0] == best_move->0;
                        assert(pv@[k] == old_pv[k]);
                    }
                }
            }
            depth = depth + 1;
            if Evaluator::is_mate_score(score) {
                break;
            }
        }
        SearchResult { best_move, score: best_score, search_info: pv }
    }
}

/// Boards that differ only in the side to move have the same checks.
proof fn lemma_same_bitboards_same_attacks_of(b1: Board, b2: Board)
    requires
        b2 == (Board { to_move: b2.to_move, ..b1 }),
    ensures
        forall|c: Color| #[trigger] in_check_spec(b1, c) == in_check_spec(b2, c),
        b1.wf() ==> b2.wf(),
        check_cache_ok(b1) ==> check_cache_ok(b2),
{
    crate::game::check::lemma_same_bitboards_same_attacks(b1, b2);
    if b1.wf() {
        assert forall|s: int| 0 <= s < 64 implies #[trigger] b2.square_wf(s) by {
            assert(b1.square_wf(s));
        }
    }
}


} // verus!
