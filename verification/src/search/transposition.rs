use vstd::prelude::*;
use std::collections::HashMap;
use crate::types::Move;
use crate::search::{Score, Depth, MATE_IN_MAX};

verus! {

broadcast use vstd::std_specs::hash::group_hash_axioms;

/// What a stored score is: exact, an upper bound (all moves failed low)
/// or a lower bound (a move failed high).
#[derive(Debug, Clone, Copy, PartialEq, Eq, Structural)]
pub enum TTNodeType {
    Exact,
    Alpha,
    Beta,
}

/// An entry of the table: the position's hash, the depth searched, the
/// score and its kind, the best move and the table's age when stored.
#[derive(Debug, Clone, Copy)]
pub struct TTEntry {
    pub zobrist_hash: u64,
    pub depth: Depth,
    pub score: Score,
    pub node_type: TTNodeType,
    pub best_move: Option<Move>,
    pub age: u8,
}

/// What a probe answers from an entry: its score when exact, `alpha` for
/// an upper bound at most `alpha`, `beta` for a lower bound at least
/// `beta`, provided the entry is at least `depth` deep.
pub open spec fn probe_answer(e: TTEntry, depth: Depth, alpha: Score, beta: Score) -> Option<Score> {
    if e.depth >= depth {
        match e.node_type {
            TTNodeType::Exact => Some(e.score),
            TTNodeType::Alpha => if e.score <= alpha {
                Some(alpha)
            } else {
                None
            },
            TTNodeType::Beta => if e.score >= beta {
                Some(beta)
            } else {
                None
            },
        }
    } else {
        None
    }
}

/// `HashMap::capacity`: how many entries the map holds without
/// reallocating. It depends on the allocator, so nothing is claimed of it.
#[verifier::external_body]
fn map_capacity(m: &HashMap<u64, TTEntry>) -> usize {
    m.capacity()
}

/// A transposition table keyed by Zobrist hash, always replacing, with
/// counters of probes that found or missed an entry.
pub struct TranspositionTable {
    table: HashMap<u64, TTEntry>,
    hits: u64,
    misses: u64,
    current_age: u8,
}

impl TranspositionTable {
    /// The entries, by hash.
    pub closed spec fn entries(&self) -> Map<u64, TTEntry> {
        self.table@
    }

    /// Probes that found an entry.
    pub closed spec fn hit_count(&self) -> u64 {
        self.hits
    }

    /// Probes that found none.
    pub closed spec fn miss_count(&self) -> u64 {
        self.misses
    }

    /// The current age.
    pub closed spec fn current(&self) -> u8 {
        self.current_age
    }

    /// An empty table sized for 16 MB.
    pub fn new() -> (tt: Self)
        ensures
            tt.entries() == Map::<u64, TTEntry>::empty(),
            tt.hit_count() == 0 && tt.miss_count() == 0 && tt.current() == 0,
    {
        Self::with_size(16_777_216)
    }

    /// An empty table with room reserved for `size_bytes` of entries.
    pub fn with_size(size_bytes: usize) -> (tt: Self)
        ensures
            tt.entries() == Map::<u64, TTEntry>::empty(),
            tt.hit_count() == 0 && tt.miss_count() == 0 && tt.current() == 0,
    {
        let entry_size = core::mem::size_of::<TTEntry>();
        let capacity = if entry_size > 0 {
            size_bytes / entry_size
        } else {
            0
        };
        TranspositionTable { table: HashMap::with_capacity(capacity), hits: 0, misses: 0, current_age: 0 }
    }

    /// The score the entry of `hash` answers for a search to `depth` in the
    /// window `alpha..beta`, if any; counts the probe as a hit when there is
    /// an entry, a miss otherwise (the counters stop at their maximum).
    pub fn probe(&mut self, hash: u64, depth: Depth, alpha: Score, beta: Score) -> (r: Option<Score>)
        ensures
            final(self).entries() == old(self).entries(),
            final(self).current() == old(self).current(),
            r == (if old(self).entries().contains_key(hash) {
                probe_answer(old(self).entries()[hash], depth, alpha, beta)
            } else {
                None
            }),
            old(self).entries().contains_key(hash) ==> final(self).hit_count() == (if old(self).hit_count() < u64::MAX {
                old(self).hit_count() + 1
            } else {
                old(self).hit_count() as int
            }) && final(self).miss_count() == old(self).miss_count(),
            !old(self).entries().contains_key(hash) ==> final(self).miss_count() == (if old(self).miss_count()
                < u64::MAX {
                old(self).miss_count() + 1
            } else {
                old(self).miss_count() as int
            }) && final(self).hit_count() == old(self).hit_count(),
    {
        match self.table.get(&hash) {
            Some(e) => {
                let entry = *e;
                self.hits = self.hits.saturating_add(1);
                if entry.depth >= depth {
                    match entry.node_type {
                        TTNodeType::Exact => {
                            return Some(entry.score);
                        },
                        TTNodeType::Alpha => {
                            if entry.score <= alpha {
                                return Some(alpha);
                            }
                        },
                        TTNodeType::Beta => {
                            if entry.score >= beta {
                                return Some(beta);
                            }
                        },
                    }
                }
            },
            None => {
                self.misses = self.misses.saturating_add(1);
            },
        }
        None
    }

    /// Stores an entry for `hash`, replacing any other, at the current age.
    pub fn store(&mut self, hash: u64, depth: Depth, score: Score, node_type: TTNodeType, best_move: Option<Move>)
        ensures
            final(self).entries() == old(self).entries().insert(
                hash,
                TTEntry { zobrist_hash: hash, depth, score, node_type, best_move, age: old(self).current() },
            ),
            final(self).hit_count() == old(self).hit_count(),
            final(self).miss_count() == old(self).miss_count(),
            final(self).current() == old(self).current(),
    {
        let entry = TTEntry { zobrist_hash: hash, depth, score, node_type, best_move, age: self.current_age };
        self.table.insert(hash, entry);
    }

    /// The best move stored for `hash`, if any.
    pub fn get_best_move(&self, hash: u64) -> (r: Option<Move>)
        ensures
            r == (if self.entries().contains_key(hash) {
                self.entries()[hash].best_move
            } else {
                None
            }),
    {
        match self.table.get(&hash) {
            Some(e) => e.best_move,
            None => None,
        }
    }

    /// Empties the table and resets the counters and the age.
    pub fn clear(&mut self)
        ensures
            final(self).entries() == Map::<u64, TTEntry>::empty(),
            final(self).hit_count() == 0 && final(self).miss_count() == 0 && final(self).current() == 0,
    {
        self.table.clear();
        self.hits = 0;
        self.misses = 0;
        self.current_age = 0;
    }

    /// Advances the age by one, wrapping.
    pub fn age(&mut self)
        ensures
            final(self).entries() == old(self).entries(),
            final(self).current() == (if old(self).current() == 255 {
                0
            } else {
                old(self).current() + 1
            }),
            final(self).hit_count() == old(self).hit_count(),
            final(self).miss_count() == old(self).miss_count(),
    {
        self.current_age = self.current_age.wrapping_add(1);
    }

    /// The number of entries.
    pub fn size(&self) -> (r: usize)
        ensures
            r == self.entries().len(),
    {
        self.table.len()
    }

    /// The number of entries the table holds without growing.
    pub fn capacity(&self) -> usize {
        map_capacity(&self.table)
    }

    /// The number of probes that found an entry.
    pub fn hits(&self) -> (r: u64)
        ensures
            r == self.hit_count(),
    {
        self.hits
    }

    /// The number of probes that found none.
    pub fn misses(&self) -> (r: u64)
        ensures
            r == self.miss_count(),
    {
        self.misses
    }

    /// A score as stored: mate scores made relative to the node `ply`
    /// plies from the root.
    pub fn score_to_tt(score: Score, ply: u8) -> (r: Score)
        requires
            score >= MATE_IN_MAX ==> score + ply <= i32::MAX,
            score <= -MATE_IN_MAX ==> score - ply >= i32::MIN,
        ensures
            r == (if score >= MATE_IN_MAX {
                score + ply
            } else if score <= -MATE_IN_MAX {
                score - ply
            } else {
                score as int
            }),
    {
        if score >= MATE_IN_MAX {
            score + ply as Score
        } else if score <= -MATE_IN_MAX {
            score - ply as Score
        } else {
            score
        }
    }

    /// A stored score made relative to the root again.
    pub fn score_from_tt(score: Score, ply: u8) -> (r: Score)
        requires
            score >= MATE_IN_MAX ==> score - ply >= i32::MIN,
            score <= -MATE_IN_MAX ==> score + ply <= i32::MAX,
        ensures
            r == (if score >= MATE_IN_MAX {
                score - ply
            } else if score <= -MATE_IN_MAX {
                score + ply
            } else {
                score as int
            }),
    {
        if score >= MATE_IN_MAX {
            score - ply as Score
        } else if score <= -MATE_IN_MAX {
            score + ply as Score
        } else {
            score
        }
    }
}

/// Storing a score and reading it back at the same ply gives it again.
pub proof fn lemma_tt_roundtrip(score: int, ply: int)
    requires
        0 <= ply <= 255,
    ensures
        ({
            let stored = if score >= MATE_IN_MAX {
                score + ply
            } else if score <= -MATE_IN_MAX {
                score - ply
            } else {
                score
            };
            (if stored >= MATE_IN_MAX {
                stored - ply
            } else if stored <= -MATE_IN_MAX {
                stored + ply
            } else {
                stored
            }) == score
        }),
{
}

/// What is stored for a hash is what the next lookup of that hash finds.
pub proof fn lemma_store_then_lookup(m: Map<u64, TTEntry>, hash: u64, e: TTEntry)
    ensures
        m.insert(hash, e).contains_key(hash),
        m.insert(hash, e)[hash] == e,
{
}

impl Default for TranspositionTable {
    /// An empty table sized for 16 MB.
    fn default() -> (tt: Self)
        ensures
            tt.entries() == Map::<u64, TTEntry>::empty(),
    {
        Self::new()
    }
}

} // verus!
