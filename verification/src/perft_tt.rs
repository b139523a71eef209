use vstd::prelude::*;
use std::collections::HashMap;

verus! {

broadcast use vstd::std_specs::hash::group_hash_axioms;

/// The key of a (hash, depth) pair in a perft cache.
pub open spec fn perft_key(hash: u64, depth: u8) -> u128 {
    ((hash as u128) * 256 + depth as u128) as u128
}

/// A cache of perft node counts, keyed by Zobrist hash and depth, with
/// counters of lookups that found or missed an entry.
pub struct PerftTT {
    table: HashMap<u128, u64>,
    hits: u64,
    misses: u64,
}

/// Different (hash, depth) pairs have different keys.
pub proof fn lemma_perft_key_injective(h1: u64, d1: u8, h2: u64, d2: u8)
    ensures
        perft_key(h1, d1) == perft_key(h2, d2) <==> (h1 == h2 && d1 == d2),
{
}

impl PerftTT {
    /// The cached counts, by key.
    pub closed spec fn entries(&self) -> Map<u128, u64> {
        self.table@
    }

    /// The number of lookups that found an entry.
    pub closed spec fn hit_count(&self) -> u64 {
        self.hits
    }

    /// The number of lookups that found no entry.
    pub closed spec fn miss_count(&self) -> u64 {
        self.misses
    }

    /// An empty cache.
    pub fn new() -> (tt: PerftTT)
        ensures
            tt.entries() == Map::<u128, u64>::empty(),
            tt.hit_count() == 0,
            tt.miss_count() == 0,
    {
        PerftTT { table: HashMap::with_capacity(2_000_000), hits: 0, misses: 0 }
    }

    /// The count cached for `hash` at `depth`, if any; counts the lookup as
    /// a hit or a miss (the counters stop at their maximum).
    pub fn get(&mut self, hash: u64, depth: u8) -> (r: Option<u64>)
        ensures
            final(self).entries() == old(self).entries(),
            r == (if old(self).entries().contains_key(perft_key(hash, depth)) {
                Some(old(self).entries()[perft_key(hash, depth)])
            } else {
                None
            }),
            r is Some ==> final(self).hit_count() == (if old(self).hit_count() < u64::MAX {
                old(self).hit_count() + 1
            } else {
                old(self).hit_count() as int
            }) && final(self).miss_count() == old(self).miss_count(),
            r is None ==> final(self).miss_count() == (if old(self).miss_count() < u64::MAX {
                old(self).miss_count() + 1
            } else {
                old(self).miss_count() as int
            }) && final(self).hit_count() == old(self).hit_count(),
    {
        let key: u128 = (hash as u128) * 256 + depth as u128;
        match self.table.get(&key) {
            Some(nodes) => {
                let n = *nodes;
                self.hits = self.hits.saturating_add(1);
                Some(n)
            },
            None => {
                self.misses = self.misses.saturating_add(1);
                None
            },
        }
    }

    /// Caches `nodes` for `hash` at `depth`.
    pub fn insert(&mut self, hash: u64, depth: u8, nodes: u64)
        ensures
            final(self).entries() == old(self).entries().insert(perft_key(hash, depth), nodes),
            final(self).hit_count() == old(self).hit_count(),
            final(self).miss_count() == old(self).miss_count(),
    {
        let key: u128 = (hash as u128) * 256 + depth as u128;
        self.table.insert(key, nodes);
    }

    /// The number of lookups that found an entry.
    pub fn hits(&self) -> (r: u64)
        ensures
            r == self.hit_count(),
    {
        self.hits
    }

    /// The number of lookups that found no entry.
    pub fn misses(&self) -> (r: u64)
        ensures
            r == self.miss_count(),
    {
        self.misses
    }
}

/// A count stored for a position and depth is what a later lookup of that
/// position and depth finds.
pub proof fn lemma_insert_then_get(m: Map<u128, u64>, hash: u64, depth: u8, nodes: u64)
    ensures
        m.insert(perft_key(hash, depth), nodes).contains_key(perft_key(hash, depth)),
        m.insert(perft_key(hash, depth), nodes)[perft_key(hash, depth)] == nodes,
{
}

} // verus!
