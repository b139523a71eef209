use vstd::prelude::*;
use std::collections::HashMap;
use crate::board::Board;
use crate::types::{Color, Move, UndoInfo};
use crate::engine::eval::nnue::wrap32;
use crate::nnue::{NNUE, HIDDEN_SIZE_1, network_value, trunc_div};
use crate::nnue::features::{NNUEAccumulator, refreshed, move_delta};

verus! {

broadcast use vstd::std_specs::hash::group_hash_axioms;

/// The accumulator of `len` neurons computed afresh for `b`: the first 512
/// from the board, the rest zero.
pub open spec fn refreshed_seq(n: NNUE, b: Board, len: nat) -> Seq<i32> {
    Seq::new(
        len,
        |i: int|
            if i < HIDDEN_SIZE_1 {
                refreshed(n, b, i) as i32
            } else {
                0i32
            },
    )
}

/// The neurons of `a` once brought up to date for `b`: computed afresh
/// when it must be or stands for another position, as they are otherwise.
pub open spec fn acc_for(a: NNUEAccumulator, n: NNUE, b: Board) -> Seq<i32> {
    if a.needs_refresh || a.cached_hash != b.zobrist_hash {
        refreshed_seq(n, b, a.accumulator@.len())
    } else {
        a.accumulator@
    }
}

/// The neurons of `a` once updated for `b`, reached by `mv`: computed
/// afresh when it must be or does not stand for the position before the
/// move, changed by the move otherwise.
pub open spec fn acc_after_move(a: NNUEAccumulator, n: NNUE, b: Board, mv: Move, undo: UndoInfo) -> Seq<i32> {
    if a.needs_refresh || a.cached_hash != undo.old_zobrist_hash {
        refreshed_seq(n, b, a.accumulator@.len())
    } else {
        Seq::new(
            a.accumulator@.len(),
            |i: int|
                if i < HIDDEN_SIZE_1 {
                    wrap32(a.accumulator@[i] + move_delta(n, b, mv, undo, i)) as i32
                } else {
                    a.accumulator@[i]
                },
        )
    }
}

/// The evaluation of `b` by the network with neurons `acc`: the network's
/// value times 100 (wrapping) over 400, rounded toward zero, negated when
/// Black is to move.
pub open spec fn nnue_eval(n: NNUE, acc: Seq<i32>, b: Board) -> int {
    let normalized = trunc_div(wrap32(network_value(n, acc) * 100), 400);
    if b.to_move == Color::White {
        normalized
    } else {
        -normalized
    }
}

/// The evaluation of the side to move times 100 (wrapping) over 400,
/// negated for Black.
fn normalize(board: &Board, eval: i32) -> (r: i32)
    ensures
        r == (if board.to_move == Color::White {
            trunc_div(wrap32(eval * 100), 400)
        } else {
            -trunc_div(wrap32(eval * 100), 400)
        }),
{
    let scaled = crate::nnue::wrap_to_i32(eval as i64 * 100);
    let q: i32 = if scaled >= 0 {
        scaled / 400
    } else {
        -((-(scaled as i64)) / 400) as i32
    };
    if board.to_move == Color::White {
        q
    } else {
        -q
    }
}

/// A cache of evaluations by Zobrist hash, with counters of lookups that
/// found or missed an entry.
pub struct NNUEEvaluationCache {
    cache: HashMap<u64, i32>,
    hits: u64,
    misses: u64,
}

impl NNUEEvaluationCache {
    /// The cached evaluations, by hash.
    pub closed spec fn entries(&self) -> Map<u64, i32> {
        self.cache@
    }

    /// Lookups that found an entry.
    pub closed spec fn hit_count(&self) -> u64 {
        self.hits
    }

    /// Lookups that found none.
    pub closed spec fn miss_count(&self) -> u64 {
        self.misses
    }

    /// An empty cache with room for about a million entries.
    pub fn new() -> (c: Self)
        ensures
            c.entries() == Map::<u64, i32>::empty(),
            c.hit_count() == 0,
            c.miss_count() == 0,
    {
        NNUEEvaluationCache { cache: HashMap::with_capacity(1024 * 1024), hits: 0, misses: 0 }
    }

    /// The evaluation cached for `hash`, counted as a hit, or none, counted
    /// as a miss (the counters stop at their maximum).
    pub fn get(&mut self, hash: u64) -> (r: Option<i32>)
        ensures
            final(self).entries() == old(self).entries(),
            r == (if old(self).entries().contains_key(hash) {
                Some(old(self).entries()[hash])
            } else {
                None
            }),
            old(self).entries().contains_key(hash) ==> final(self).hit_count() == (if old(self).hit_count() < u64::MAX {
                old(self).hit_count() + 1
            } else {
                old(self).hit_count() as int
            }) && final(self).miss_count() == old(self).miss_count(),
            !old(self).entries().contains_key(hash) ==> final(self).miss_count() == (if old(self).miss_count()
                < u64::MAX {
                old(self).miss_count() + 1
            } else {
                old(self).miss_count() as int
            }) && final(self).hit_count() == old(self).hit_count(),
    {
        match self.cache.get(&hash) {
            Some(e) => {
                let eval = *e;
                self.hits = self.hits.saturating_add(1);
                Some(eval)
            },
            None => {
                self.misses = self.misses.saturating_add(1);
                None
            },
        }
    }

    /// Caches `eval` for `hash`.
    pub fn insert(&mut self, hash: u64, eval: i32)
        ensures
            final(self).entries() == old(self).entries().insert(hash, eval),
            final(self).hit_count() == old(self).hit_count(),
            final(self).miss_count() == old(self).miss_count(),
    {
        self.cache.insert(hash, eval);
    }

    /// Empties the cache and resets the counters.
    pub fn clear(&mut self)
        ensures
            final(self).entries() == Map::<u64, i32>::empty(),
            final(self).hit_count() == 0,
            final(self).miss_count() == 0,
    {
        self.cache.clear();
        self.hits = 0;
        self.misses = 0;
    }

    /// The number of lookups that found an entry.
    pub fn hits(&self) -> (r: u64)
        ensures
            r == self.hit_count(),
    {
        self.hits
    }

    /// The number of lookups that found none.
    pub fn misses(&self) -> (r: u64)
        ensures
            r == self.miss_count(),
    {
        self.misses
    }
}

impl Board {
    /// The network's evaluation of the board, for the side to move: the
    /// cached one when the cache has the board's hash, else computed
    /// afresh and cached.
    pub fn evaluate_nnue(&self, nnue: &NNUE, cache: &mut NNUEEvaluationCache) -> (r: i32)
        requires
            nnue.shape_ok(),
            nnue.scales_ok(refreshed_seq(*nnue, *self, HIDDEN_SIZE_1 as nat)),
        ensures
            old(cache).entries().contains_key(self.zobrist_hash) ==> r == old(cache).entries()[self.zobrist_hash]
                && final(cache).entries() == old(cache).entries(),
            !old(cache).entries().contains_key(self.zobrist_hash) ==> r == nnue_eval(
                *nnue,
                refreshed_seq(*nnue, *self, HIDDEN_SIZE_1 as nat),
                *self,
            ) && final(cache).entries() == old(cache).entries().insert(self.zobrist_hash, r),
    {
        if let Some(cached_eval) = cache.get(self.zobrist_hash) {
            return cached_eval;
        }
        let mut accumulator = NNUEAccumulator::new();
        accumulator.refresh_full(nnue, self);
        proof {
            assert(accumulator.accumulator@ =~= refreshed_seq(*nnue, *self, HIDDEN_SIZE_1 as nat));
        }
        let eval = nnue.evaluate_incremental(&accumulator);
        let final_eval = normalize(self, eval);
        cache.insert(self.zobrist_hash, final_eval);
        final_eval
    }

    /// The network's evaluation of the board, for the side to move, with
    /// `accumulator` brought up to date for the board first.
    pub fn evaluate_nnue_fast(&self, nnue: &NNUE, accumulator: &mut NNUEAccumulator) -> (r: i32)
        requires
            nnue.shape_ok(),
            old(accumulator).accumulator@.len() >= HIDDEN_SIZE_1,
            nnue.scales_ok(acc_for(*old(accumulator), *nnue, *self)),
        ensures
            final(accumulator).accumulator@ == acc_for(*old(accumulator), *nnue, *self),
            (old(accumulator).needs_refresh || old(accumulator).cached_hash != self.zobrist_hash) ==> (
            !final(accumulator).needs_refresh && final(accumulator).cached_hash == self.zobrist_hash),
            !(old(accumulator).needs_refresh || old(accumulator).cached_hash != self.zobrist_hash)
                ==> *final(accumulator) == *old(accumulator),
            r == nnue_eval(*nnue, acc_for(*old(accumulator), *nnue, *self), *self),
    {
        if accumulator.needs_refresh || accumulator.cached_hash != self.zobrist_hash {
            accumulator.refresh_full(nnue, self);
            proof {
                assert(accumulator.accumulator@ =~= acc_for(*old(accumulator), *nnue, *self));
            }
        }
        let eval = nnue.evaluate_incremental(accumulator);
        normalize(self, eval)
    }

    /// The network's evaluation of the board, for the side to move, reached
    /// by `mv` (taken back by `undo_info`), with `accumulator` updated by
    /// the move first.
    pub fn evaluate_nnue_incremental(
        &self,
        nnue: &NNUE,
        accumulator: &mut NNUEAccumulator,
        mv: Move,
        undo_info: &UndoInfo,
    ) -> (r: i32)
        requires
            nnue.shape_ok(),
            self.wf(),
            !(old(accumulator).needs_refresh || old(accumulator).cached_hash != undo_info.old_zobrist_hash) ==> mv.to
                < 64,
            old(accumulator).accumulator@.len() >= HIDDEN_SIZE_1,
            nnue.scales_ok(acc_after_move(*old(accumulator), *nnue, *self, mv, *undo_info)),
        ensures
            final(accumulator).accumulator@ == acc_after_move(*old(accumulator), *nnue, *self, mv, *undo_info),
            !final(accumulator).needs_refresh,
            final(accumulator).cached_hash == self.zobrist_hash,
            r == nnue_eval(*nnue, acc_after_move(*old(accumulator), *nnue, *self, mv, *undo_info), *self),
    {
        accumulator.update_move(nnue, mv, undo_info, self);
        proof {
            assert(accumulator.accumulator@ =~= acc_after_move(*old(accumulator), *nnue, *self, mv, *undo_info));
        }
        let eval = nnue.evaluate_incremental(accumulator);
        normalize(self, eval)
    }
}

/// A network with its evaluation cache and its accumulator, for a search.
pub struct NNUEContext {
    pub nnue: NNUE,
    pub cache: NNUEEvaluationCache,
    pub accumulator: NNUEAccumulator,
}

impl NNUEContext {
    /// A context with a random network, an empty cache and a fresh
    /// accumulator.
    pub fn new() -> (c: Self)
        ensures
            c.nnue.shape_ok(),
            c.cache.entries() == Map::<u64, i32>::empty(),
            c.accumulator.accumulator@.len() == HIDDEN_SIZE_1,
            c.accumulator.needs_refresh,
    {
        NNUEContext { nnue: NNUE::new(), cache: NNUEEvaluationCache::new(), accumulator: NNUEAccumulator::new() }
    }

    /// A context for `nnue`, with an empty cache and a fresh accumulator.
    pub fn from_network(nnue: NNUE) -> (c: Self)
        ensures
            c.nnue == nnue,
            c.cache.entries() == Map::<u64, i32>::empty(),
            c.accumulator.accumulator@.len() == HIDDEN_SIZE_1,
            c.accumulator.needs_refresh,
    {
        NNUEContext { nnue, cache: NNUEEvaluationCache::new(), accumulator: NNUEAccumulator::new() }
    }

    /// The evaluation of `board`, through the cache.
    pub fn evaluate(&mut self, board: &Board) -> (r: i32)
        requires
            old(self).nnue.shape_ok(),
            old(self).nnue.scales_ok(refreshed_seq(old(self).nnue, *board, HIDDEN_SIZE_1 as nat)),
        ensures
            final(self).nnue == old(self).nnue,
            final(self).accumulator == old(self).accumulator,
            old(self).cache.entries().contains_key(board.zobrist_hash) ==> r == old(self).cache.entries()[board.zobrist_hash],
            !old(self).cache.entries().contains_key(board.zobrist_hash) ==> r == nnue_eval(
                old(self).nnue,
                refreshed_seq(old(self).nnue, *board, HIDDEN_SIZE_1 as nat),
                *board,
            ),
    {
        board.evaluate_nnue(&self.nnue, &mut self.cache)
    }

    /// The evaluation of `board`, reached by `mv`, with the accumulator
    /// updated by the move.
    pub fn evaluate_after_move(&mut self, board: &Board, mv: Move, undo_info: &UndoInfo) -> (r: i32)
        requires
            old(self).nnue.shape_ok(),
            board.wf(),
            !(old(self).accumulator.needs_refresh || old(self).accumulator.cached_hash != undo_info.old_zobrist_hash)
                ==> mv.to < 64,
            old(self).accumulator.accumulator@.len() >= HIDDEN_SIZE_1,
            old(self).nnue.scales_ok(acc_after_move(old(self).accumulator, old(self).nnue, *board, mv, *undo_info)),
        ensures
            final(self).nnue == old(self).nnue,
            final(self).accumulator.accumulator@ == acc_after_move(
                old(self).accumulator,
                old(self).nnue,
                *board,
                mv,
                *undo_info,
            ),
            r == nnue_eval(
                old(self).nnue,
                acc_after_move(old(self).accumulator, old(self).nnue, *board, mv, *undo_info),
                *board,
            ),
    {
        board.evaluate_nnue_incremental(&self.nnue, &mut self.accumulator, mv, undo_info)
    }

    /// Takes back a move in the accumulator, which must then be computed
    /// afresh.
    pub fn undo_evaluation(&mut self, mv: Move, undo_info: &UndoInfo)
        ensures
            final(self).nnue == old(self).nnue,
            final(self).accumulator.accumulator == old(self).accumulator.accumulator,
            final(self).accumulator.cached_hash == undo_info.old_zobrist_hash,
            final(self).accumulator.needs_refresh,
    {
        self.accumulator.undo_move(&self.nnue, mv, undo_info);
    }

    /// Marks the accumulator to be computed afresh.
    pub fn reset_for_new_search(&mut self)
        ensures
            final(self).nnue == old(self).nnue,
            final(self).accumulator.accumulator == old(self).accumulator.accumulator,
            final(self).accumulator.cached_hash == old(self).accumulator.cached_hash,
            final(self).accumulator.needs_refresh,
    {
        self.accumulator.needs_refresh = true;
    }
}

impl Default for NNUEContext {
    fn default() -> (c: Self)
        ensures
            c.nnue.shape_ok(),
            c.accumulator.needs_refresh,
    {
        Self::new()
    }
}

} // verus!
