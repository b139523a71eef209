use vstd::prelude::*;
use crate::board::Board;
use crate::types::{Move, UndoInfo};
use crate::make_move::{made, unmade, lemma_make_unmake, move_shape_ok};
use crate::game::check::in_check_spec;
use crate::game::movegen::{pseudo_legal, legal_move, leaves_king_safe, lemma_made_same_checks};
use crate::perft_tt::{PerftTT, perft_key};

verus! {

/// The legal moves of the side to move.
pub open spec fn legal_moves(b: Board) -> Set<Move> {
    Set::new(|m: Move| pseudo_legal(b, m) && legal_move(b, m))
}

/// After a playable move, the mover's king is safe exactly when the move
/// is legal.
pub proof fn lemma_safe_after(b: Board, mv: Move, mid: Board, u: UndoInfo)
    requires
        made(b, mv, mid, u),
    ensures
        leaves_king_safe(b, mv) == !in_check_spec(mid, b.to_move),
{
    assert forall|a: Board, u2: UndoInfo| #[trigger] made(b, mv, a, u2) implies in_check_spec(a, b.to_move)
        == in_check_spec(mid, b.to_move) by {
        lemma_made_same_checks(b, mv, mid, u, a, u2);
    }
}

/// The sum of a sequence of counts.
pub open spec fn seq_sum(c: Seq<nat>) -> nat
    decreases c.len(),
{
    if c.len() == 0 {
        0
    } else {
        seq_sum(c.drop_last()) + c.last()
    }
}

/// A count that stops at `u64::MAX`.
pub open spec fn sat(n: nat) -> nat {
    if n > u64::MAX {
        u64::MAX as nat
    } else {
        n
    }
}

/// `n` is the number of leaves of the tree of legal moves `d` plies deep
/// from `b`: 1 at depth 0, the number of legal moves at depth 1, and deeper
/// the sum, over the pseudo-legal moves in some order, of the leaf counts
/// below each legal one (from the board it leads to) and 0 for the others.
pub open spec fn leaf_count(b: Board, d: nat, n: nat) -> bool
    decreases d,
{
    if d == 0 {
        n == 1
    } else if d == 1 {
        n == legal_moves(b).len()
    } else {
        exists|s: Seq<Move>, c: Seq<nat>|
            #![trigger seq_sum(c), s.len()]
            {
                &&& s.no_duplicates()
                &&& forall|m: Move| #[trigger] s.contains(m) <==> pseudo_legal(b, m)
                &&& c.len() == s.len()
                &&& n == seq_sum(c)
                &&& forall|j: int|
                    0 <= j < s.len() ==> if legal_moves(b).contains(#[trigger] s[j]) {
                        exists|a: Board, u: UndoInfo| made(b, s[j], a, u) && leaf_count(a, (d - 1) as nat, c[j])
                    } else {
                        c[j] == 0
                    }
            }
    }
}

/// `x` is reached from `root` by at most `k` legal moves.
pub open spec fn reachable(root: Board, x: Board, k: nat) -> bool
    decreases k,
{
    x == root || (k > 0 && exists|p: Board, m: Move, u: UndoInfo|
        #![trigger made(p, m, x, u)]
        reachable(root, p, (k - 1) as nat) && legal_moves(p).contains(m) && made(p, m, x, u))
}

/// Positions reached from `root` in at most `n` moves that share a hash
/// have the same leaf counts to depth `n`: the hash keys do not collide
/// within the tree.
pub open spec fn hash_consistent(root: Board, n: nat) -> bool {
    forall|x: Board, y: Board, kx: nat, ky: nat, e: u8, c: nat|
        #![trigger reachable(root, x, kx), reachable(root, y, ky), leaf_count(x, e as nat, c)]
        kx <= n && ky <= n && e <= n && reachable(root, x, kx) && reachable(root, y, ky) && x.zobrist_hash
            == y.zobrist_hash && leaf_count(x, e as nat, c) ==> leaf_count(y, e as nat, c)
}

/// Every count that `tt` holds for a position reached from `root` in at
/// most `n` moves, at a depth up to `n`, is that position's leaf count
/// (stopped at `u64::MAX`).
pub open spec fn cache_sound(tt: PerftTT, root: Board, n: nat) -> bool {
    forall|x: Board, k: nat, e: u8|
        #![trigger reachable(root, x, k), tt.entries().contains_key(perft_key(x.zobrist_hash, e))]
        k <= n && e <= n && reachable(root, x, k) && tt.entries().contains_key(perft_key(x.zobrist_hash, e))
            ==> exists|c: nat| leaf_count(x, e as nat, c) && tt.entries()[perft_key(x.zobrist_hash, e)] == sat(c)
}

proof fn lemma_seq_sum_push(c: Seq<nat>, x: nat)
    ensures
        seq_sum(c.push(x)) == seq_sum(c) + x,
{
    assert(c.push(x).drop_last() =~= c);
}

/// A move that can be played is legal exactly when, once played, the
/// mover's king is not in check.
pub proof fn lemma_legal_iff_king_safe_after(b: Board, mv: Move, mid: Board, u: UndoInfo)
    requires
        move_shape_ok(b, mv),
        made(b, mv, mid, u),
    ensures
        legal_move(b, mv) == !in_check_spec(mid, b.to_move),
{
    lemma_safe_after(b, mv, mid, u);
}

/// Counts the leaf nodes below `board`, reached from `root` in `k` moves,
/// `depth` plies deep.
fn perft_rec(
    board: &mut Board,
    depth: u8,
    tt: &mut PerftTT,
    Ghost(root): Ghost<Board>,
    Ghost(n): Ghost<nat>,
    Ghost(k): Ghost<nat>,
) -> (nodes: u64)
    requires
        old(board).wf(),
        reachable(root, *old(board), k),
        k + depth <= n,
    ensures
        *final(board) == *old(board),
        depth == 0 ==> nodes == 1,
        depth == 1 && !old(tt).entries().contains_key(perft_key(old(board).zobrist_hash, 1)) ==> nodes
            == legal_moves(*old(board)).len(),
        cache_sound(*old(tt), root, n) && hash_consistent(root, n) ==> cache_sound(*final(tt), root, n) && exists|
            c: nat,
        | leaf_count(*old(board), depth as nat, c) && nodes == sat(c),
    decreases depth,
{
    let ghost sound0 = cache_sound(*tt, root, n) && hash_consistent(root, n);
    if depth == 0 {
        proof {
            assert(leaf_count(*board, 0, 1) && 1 == sat(1));
        }
        return 1;
    }
    if let Some(cached_nodes) = tt.get(board.zobrist_hash, depth) {
        proof {
            if sound0 {
                assert(reachable(root, *board, k));
                assert(tt.entries().contains_key(perft_key(board.zobrist_hash, depth)));
                let cc = choose|cc: nat| leaf_count(*board, depth as nat, cc) && tt.entries()[perft_key(board.zobrist_hash, depth)] == sat(cc);
                assert(leaf_count(*board, depth as nat, cc) && cached_nodes == sat(cc));
            }
        }
        return cached_nodes;
    }
    let ghost b0 = *board;
    let moves = board.generate_all_moves();
    if depth == 1 {
        let mut count: u64 = 0;
        let mut i: usize = 0;
        let ghost mut seen: Set<Move> = Set::empty();
        while i < moves.len()
            invariant
                *board == b0,
                b0.wf(),
                i <= moves.len(),
                moves@.no_duplicates(),
                forall|m: Move| #![trigger moves@.contains(m)] moves@.contains(m) <==> pseudo_legal(b0, m),
                seen.finite(),
                count == seen.len(),
                count <= i,
                forall|m: Move|
                    #![trigger seen.contains(m)]
                    seen.contains(m) <==> (exists|j: int| 0 <= j < i && moves@[j] == m) && legal_move(b0, m),
            decreases moves.len() - i,
        {
            let mv = moves[i];
            if board.is_legal_move(mv) {
                proof {
                    if seen.contains(mv) {
                        let j = choose|j: int| 0 <= j < i && moves@[j] == mv;
                        assert(moves@[j] == moves@[i as int]);
                    }
                    seen = seen.insert(mv);
                }
                count = count + 1;
            }
            proof {
                assert forall|m: Move| #![trigger seen.contains(m)] seen.contains(m) <==> (exists|j: int|
                    0 <= j < i + 1 && moves@[j] == m) && legal_move(b0, m) by {
                    if (exists|j: int| 0 <= j < i + 1 && moves@[j] == m) && legal_move(b0, m) {
                        let j = choose|j: int| 0 <= j < i + 1 && moves@[j] == m;
                        if j < i {
                            assert(exists|j2: int| 0 <= j2 < i && moves@[j2] == m);
                        }
                    }
                    if seen.contains(m) && m != mv {
                        assert(exists|j: int| 0 <= j < i && moves@[j] == m);
                    }
                }
            }
            i = i + 1;
        }
        proof {
            assert(seen =~= legal_moves(b0)) by {
                assert forall|m: Move| seen.contains(m) == legal_moves(b0).contains(m) by {
                    if pseudo_legal(b0, m) {
                        assert(moves@.contains(m));
                        let j = choose|j: int| 0 <= j < moves.len() && moves@[j] == m;
                        assert(moves@[j] == m);
                    }
                    if seen.contains(m) {
                        let j = choose|j: int| 0 <= j < i && moves@[j] == m;
                        assert(moves@.contains(m));
                    }
                }
            }
            assert(leaf_count(b0, 1, count as nat));
        }
        let ghost tt_before = *tt;
        tt.insert(board.zobrist_hash, depth, count);
        proof {
            if sound0 {
                lemma_insert_sound(tt_before, *tt, root, n, b0, k, depth, count as nat, count);
                assert(leaf_count(b0, depth as nat, count as nat) && count == sat(count as nat));
            }
        }
        return count;
    }
    let mut nodes: u64 = 0;
    let mut i: usize = 0;
    let ghost mut c: Seq<nat> = Seq::empty();
    while i < moves.len()
        invariant
            *board == b0,
            b0.wf(),
            reachable(root, b0, k),
            k + depth <= n,
            i <= moves.len(),
            depth >= 2,
            moves@.no_duplicates(),
            forall|m: Move| #![trigger moves@.contains(m)] moves@.contains(m) <==> pseudo_legal(b0, m),
            sound0 == (cache_sound(*old(tt), root, n) && hash_consistent(root, n)),
            sound0 ==> cache_sound(*tt, root, n),
            sound0 ==> c.len() == i,
            sound0 ==> nodes == sat(seq_sum(c)),
            sound0 ==> forall|j: int|
                0 <= j < i ==> if legal_moves(b0).contains(#[trigger] moves@[j]) {
                    exists|a: Board, u: UndoInfo| made(b0, moves@[j], a, u) && leaf_count(a, (depth - 1) as nat, c[j])
                } else {
                    c[j] == 0
                },
        decreases moves.len() - i,
    {
        let mv = moves[i];
        let ghost mut add: nat = 0;
        if board.can_play(mv) {
            let undo_info = board.make_move_with_undo(mv);
            let ghost mid = *board;
            let previous_to_move = board.to_move.opposite();
            proof {
                lemma_safe_after(b0, mv, mid, undo_info);
                assert(moves@.contains(mv));
            }
            if !board.is_king_in_check(previous_to_move) {
                proof {
                    assert(legal_moves(b0).contains(mv));
                    assert(reachable(root, mid, k + 1));
                }
                let sub = perft_rec(board, depth - 1, tt, Ghost(root), Ghost(n), Ghost(k + 1));
                proof {
                    if sound0 {
                        let cc = choose|cc: nat| leaf_count(mid, (depth - 1) as nat, cc) && sub == sat(cc);
                        add = cc;
                    }
                }
                nodes = nodes.saturating_add(sub);
            } else {
                proof {
                    assert(!legal_moves(b0).contains(mv));
                }
            }
            board.unmake_move(mv, undo_info);
            proof {
                lemma_make_unmake(b0, mv, mid, undo_info, *board);
            }
        } else {
            proof {
                assert(!legal_moves(b0).contains(mv));
            }
        }
        proof {
            if sound0 {
                let c0 = c;
                lemma_seq_sum_push(c0, add);
                c = c0.push(add);
                assert forall|j: int|
                    0 <= j < i + 1 implies if legal_moves(b0).contains(#[trigger] moves@[j]) {
                    exists|a: Board, u: UndoInfo| made(b0, moves@[j], a, u) && leaf_count(a, (depth - 1) as nat, c[j])
                } else {
                    c[j] == 0
                } by {
                    if j < i {
                        assert(c[j] == c0[j]);
                    }
                }
            }
        }
        i = i + 1;
    }
    proof {
        if sound0 {
            assert(leaf_count(b0, depth as nat, seq_sum(c)));
        }
    }
    let ghost tt_before = *tt;
    tt.insert(board.zobrist_hash, depth, nodes);
    proof {
        if sound0 {
            lemma_insert_sound(tt_before, *tt, root, n, b0, k, depth, seq_sum(c), nodes);
            assert(leaf_count(b0, depth as nat, seq_sum(c)) && nodes == sat(seq_sum(c)));
        }
    }
    nodes
}

/// Caching the leaf count of a position reached from `root` keeps a sound
/// cache sound, when the hash keys do not collide.
proof fn lemma_insert_sound(t0: PerftTT, t1: PerftTT, root: Board, n: nat, b: Board, k: nat, d: u8, c: nat, v: u64)
    requires
        cache_sound(t0, root, n),
        hash_consistent(root, n),
        reachable(root, b, k),
        k + d <= n,
        leaf_count(b, d as nat, c),
        v == sat(c),
        t1.entries() == t0.entries().insert(perft_key(b.zobrist_hash, d), v),
    ensures
        cache_sound(t1, root, n),
{
    assert forall|x: Board, kx: nat, e: u8|
        #![trigger reachable(root, x, kx), t1.entries().contains_key(perft_key(x.zobrist_hash, e))]
        kx <= n && e <= n && reachable(root, x, kx) && t1.entries().contains_key(perft_key(x.zobrist_hash, e))
        implies exists|cc: nat| leaf_count(x, e as nat, cc) && t1.entries()[perft_key(x.zobrist_hash, e)] == sat(cc) by {
        crate::perft_tt::lemma_perft_key_injective(x.zobrist_hash, e, b.zobrist_hash, d);
        if perft_key(x.zobrist_hash, e) == perft_key(b.zobrist_hash, d) {
            assert(reachable(root, b, k));
            assert(leaf_count(x, e as nat, c));
            assert(leaf_count(x, e as nat, c) && t1.entries()[perft_key(x.zobrist_hash, e)] == sat(c));
        } else {
            assert(t0.entries().contains_key(perft_key(x.zobrist_hash, e)));
            let cc = choose|cc: nat| leaf_count(x, e as nat, cc) && t0.entries()[perft_key(x.zobrist_hash, e)] == sat(cc);
            assert(leaf_count(x, e as nat, cc) && t1.entries()[perft_key(x.zobrist_hash, e)] == sat(cc));
        }
    }
}

/// Counts the leaf nodes of the tree of legal moves `depth` plies deep,
/// caching counts by hash and depth in `tt`; the board is given back as it
/// was. At depth 0 the count is 1; at depth 1, unless the cache answers, it
/// is the number of legal moves. When the cache holds only sound counts for
/// positions of this tree and its hash keys do not collide, the count is
/// the leaf count (stopped at `u64::MAX`) and the cache stays sound.
pub fn perft_with_tt(board: &mut Board, depth: u8, tt: &mut PerftTT) -> (nodes: u64)
    requires
        old(board).wf(),
    ensures
        *final(board) == *old(board),
        depth == 0 ==> nodes == 1,
        depth == 1 && !old(tt).entries().contains_key(perft_key(old(board).zobrist_hash, 1)) ==> nodes
            == legal_moves(*old(board)).len(),
        cache_sound(*old(tt), *old(board), depth as nat) && hash_consistent(*old(board), depth as nat) ==> cache_sound(
            *final(tt),
            *old(board),
            depth as nat,
        ) && exists|c: nat| leaf_count(*old(board), depth as nat, c) && nodes == sat(c),
{
    let ghost root = *board;
    perft_rec(board, depth, tt, Ghost(root), Ghost(depth as nat), Ghost(0))
}

/// Counts the leaf nodes of the tree of legal moves `depth` plies deep,
/// with a fresh cache; the board is given back as it was. At depth 0 the
/// count is 1, at depth 1 the number of legal moves, and at any depth,
/// when the hash keys of the tree do not collide, the leaf count (stopped
/// at `u64::MAX`).
pub fn perft(board: &mut Board, depth: u8) -> (nodes: u64)
    requires
        old(board).wf(),
    ensures
        *final(board) == *old(board),
        depth == 0 ==> nodes == 1,
        depth == 1 ==> nodes == legal_moves(*old(board)).len(),
        hash_consistent(*old(board), depth as nat) ==> exists|c: nat|
            leaf_count(*old(board), depth as nat, c) && nodes == sat(c),
{
    let mut tt = PerftTT::new();
    perft_with_tt(board, depth, &mut tt)
}

/// The count `n` is the leaf count, `d` plies deep and stopped at
/// `u64::MAX`, of a board that `m` leads to from `b`.
pub open spec fn child_count(b: Board, m: Move, d: nat, n: u64) -> bool {
    exists|a: Board, u: UndoInfo, c: nat| made(b, m, a, u) && leaf_count(a, d, c) && n == sat(c)
}

/// For each legal move, the move and the leaf count of the tree below it
/// (`depth - 1` plies deep, when the hash keys of the tree do not collide;
/// 1 at depth 1 or less), each legal move once;
/// the board is given back as it was.
#[verifier::spinoff_prover]
#[verifier::rlimit(40)]
pub fn perft_divide(board: &mut Board, depth: u8) -> (results: Vec<(Move, u64)>)
    requires
        old(board).wf(),
    ensures
        *final(board) == *old(board),
        forall|i: int, j: int| 0 <= i < j < results.len() ==> results@[i].0 != results@[j].0,
        forall|m: Move|
            (exists|i: int| 0 <= i < results.len() && #[trigger] results@[i].0 == m) <==> legal_moves(
                *old(board),
            ).contains(m),
        depth <= 1 ==> forall|i: int| 0 <= i < results.len() ==> #[trigger] results@[i].1 == 1,
        depth >= 2 && hash_consistent(*old(board), depth as nat) ==> forall|i: int|
            0 <= i < results.len() ==> child_count(*old(board), #[trigger] results@[i].0, (depth - 1) as nat, results@[i].1),
{
    let ghost b0 = *board;
    let moves = board.generate_all_moves();
    let mut results: Vec<(Move, u64)> = Vec::new();
    let mut tt = PerftTT::new();
    let ghost sound0 = depth >= 2 && hash_consistent(b0, depth as nat);
    let ghost mut wit: Seq<(Board, UndoInfo, nat)> = Seq::empty();
    let mut i: usize = 0;
    while i < moves.len()
        invariant
            *board == b0,
            b0.wf(),
            i <= moves.len(),
            moves@.no_duplicates(),
            forall|m: Move| #![trigger moves@.contains(m)] moves@.contains(m) <==> pseudo_legal(b0, m),
            forall|k: int| 0 <= k < results.len() ==> exists|j: int| 0 <= j < i && moves@[j] == #[trigger] results@[k].0,
            forall|a: int, c: int| 0 <= a < c < results.len() ==> results@[a].0 != results@[c].0,
            forall|m: Move|
                (exists|k: int| 0 <= k < results.len() && #[trigger] results@[k].0 == m) <==> ((exists|j: int|
                    0 <= j < i && moves@[j] == m) && legal_move(b0, m)),
            depth <= 1 ==> forall|k: int| 0 <= k < results.len() ==> #[trigger] results@[k].1 == 1,
            sound0 == (depth >= 2 && hash_consistent(b0, depth as nat)),
            sound0 ==> cache_sound(tt, b0, depth as nat),
            wit.len() == results.len(),
            sound0 ==> forall|k: int|
                0 <= k < results.len() ==> made(b0, #[trigger] results@[k].0, wit[k].0, wit[k].1) && leaf_count(
                    wit[k].0,
                    (depth - 1) as nat,
                    wit[k].2,
                ) && results@[k].1 == sat(wit[k].2),
        decreases moves.len() - i,
    {
        let mv = moves[i];
        let ghost before = results@;
        if board.can_play(mv) {
            let undo_info = board.make_move_with_undo(mv);
            let ghost mid = *board;
            let previous_to_move = board.to_move.opposite();
            proof {
                lemma_safe_after(b0, mv, mid, undo_info);
            }
            if !board.is_king_in_check(previous_to_move) {
                proof {
                    assert(moves@.contains(mv));
                    assert(legal_moves(b0).contains(mv));
                    assert(reachable(b0, b0, 0));
                    assert(made(b0, mv, mid, undo_info));
                    assert(reachable(b0, mid, 1));
                }
                let nodes = if depth > 1 {
                    perft_rec(board, depth - 1, &mut tt, Ghost(b0), Ghost(depth as nat), Ghost(1))
                } else {
                    1
                };
                proof {
                    let c = choose|c: nat| leaf_count(mid, (depth - 1) as nat, c) && nodes == sat(c);
                    wit = wit.push((mid, undo_info, c));
                }
                proof {
                    assert forall|k: int| 0 <= k < results.len() implies results@[k].0 != mv by {
                        let j = choose|j: int| 0 <= j < i && moves@[j] == results@[k].0;
                        assert(moves@[j] != moves@[i as int]);
                    }
                }
                results.push((mv, nodes));
            }
            board.unmake_move(mv, undo_info);
            proof {
                lemma_make_unmake(b0, mv, mid, undo_info, *board);
            }
        }
        proof {
            assert forall|m: Move| (exists|k: int| 0 <= k < results.len() && #[trigger] results@[k].0 == m) <==> ((exists|
                j: int,
            | 0 <= j < i + 1 && moves@[j] == m) && legal_move(b0, m)) by {
                if exists|k: int| 0 <= k < results.len() && #[trigger] results@[k].0 == m {
                    let k = choose|k: int| 0 <= k < results.len() && #[trigger] results@[k].0 == m;
                    if k < before.len() {
                        assert(before[k].0 == m);
                    } else {
                        assert(moves@[i as int] == m);
                    }
                }
                if (exists|j: int| 0 <= j < i + 1 && moves@[j] == m) && legal_move(b0, m) {
                    let j = choose|j: int| 0 <= j < i + 1 && moves@[j] == m;
                    if j < i {
                        let k = choose|k: int| 0 <= k < before.len() && #[trigger] before[k].0 == m;
                        assert(results@[k].0 == m);
                    } else {
                        assert(results@[results.len() - 1].0 == m);
                    }
                }
            }
            if sound0 {
                assert forall|k: int| 0 <= k < results.len() implies made(b0, #[trigger] results@[k].0, wit[k].0, wit[k].1)
                    && leaf_count(wit[k].0, (depth - 1) as nat, wit[k].2) && results@[k].1 == sat(wit[k].2) by {
                    if k < before.len() {
                        assert(results@[k] == before[k]);
                    }
                }
            }
            assert forall|k: int| 0 <= k < results.len() implies exists|j: int| 0 <= j < i + 1 && moves@[j]
                == #[trigger] results@[k].0 by {
                if k < before.len() {
                    assert(results@[k] == before[k]);
                    let j = choose|j: int| 0 <= j < i && moves@[j] == before[k].0;
                    assert(moves@[j] == results@[k].0);
                } else {
                    assert(moves@[i as int] == results@[k].0);
                }
            }
        }
        i = i + 1;
    }
    proof {
        assert forall|m: Move| (exists|i: int| 0 <= i < results.len() && #[trigger] results@[i].0 == m) <==> legal_moves(
            b0,
        ).contains(m) by {
            if pseudo_legal(b0, m) {
                assert(moves@.contains(m));
                let j = choose|j: int| 0 <= j < moves.len() && moves@[j] == m;
                assert(moves@[j] == m);
            }
            if exists|k: int| 0 <= k < results.len() && #[trigger] results@[k].0 == m {
                let j = choose|j: int| 0 <= j < i && moves@[j] == m;
                assert(moves@.contains(m));
            }
        }
        assert(b0 == *old(board));
        if sound0 {
            assert forall|k: int| 0 <= k < results.len() implies child_count(
                b0,
                #[trigger] results@[k].0,
                (depth - 1) as nat,
                results@[k].1,
            ) by {
                let w = wit[k];
                assert(made(b0, results@[k].0, w.0, w.1) && leaf_count(w.0, (depth - 1) as nat, w.2) && results@[k].1
                    == sat(w.2));
            }
        }
    }
    results
}

} // verus!
