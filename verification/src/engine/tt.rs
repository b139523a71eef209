use vstd::prelude::*;
use fxhash::FxHashMap;
use crate::types::Move;

verus! {

/// An entry of the table: the score, its kind (`TT_EXACT`, `TT_ALPHA` for
/// an upper bound, `TT_BETA` for a lower bound), the depth searched and
/// the best move.
#[derive(Clone, Copy, Debug)]
pub struct TTEntry {
    pub score: i32,
    pub flag: u8,
    pub depth: u8,
    pub best_move: Option<Move>,
}

/// An exact score.
pub const TT_EXACT: u8 = 0;

/// An upper bound: every move failed low.
pub const TT_ALPHA: u8 = 1;

/// A lower bound: a move failed high.
pub const TT_BETA: u8 = 2;

/// The entries of a table, kept in an `FxHashMap`.
#[verifier::external_body]
pub struct FxTable {
    map: FxHashMap<u64, TTEntry>,
}

/// What an `FxTable` holds, by hash.
pub uninterp spec fn fx_contents(t: FxTable) -> Map<u64, TTEntry>;

/// `FxHashMap::with_capacity_and_hasher`: an empty map with room for
/// `capacity` entries.
#[verifier::external_body]
fn fx_with_capacity(capacity: usize) -> (table: FxTable)
    ensures
        fx_contents(table).dom() == Set::<u64>::empty(),
{
    FxTable { map: FxHashMap::with_capacity_and_hasher(capacity, Default::default()) }
}

/// `HashMap::get`: the entry of `hash`, if any.
#[verifier::external_body]
fn fx_get(t: &FxTable, hash: u64) -> (r: Option<TTEntry>)
    ensures
        r == (if fx_contents(*t).contains_key(hash) {
            Some(fx_contents(*t)[hash])
        } else {
            None
        }),
{
    match t.map.get(&hash) {
        Some(e) => Some(*e),
        None => None,
    }
}

/// `HashMap::insert`: `hash` now maps to `e`, the other entries stay.
#[verifier::external_body]
fn fx_insert(t: &mut FxTable, hash: u64, e: TTEntry)
    ensures
        fx_contents(*final(t)) == fx_contents(*old(t)).insert(hash, e),
{
    t.map.insert(hash, e);
}

/// `HashMap::remove`: `hash` no longer maps to anything, the other entries
/// stay.
#[verifier::external_body]
fn fx_remove(t: &mut FxTable, hash: u64)
    ensures
        fx_contents(*final(t)) == fx_contents(*old(t)).remove(hash),
{
    t.map.remove(&hash);
}

/// `HashMap::len`: the number of entries.
#[verifier::external_body]
fn fx_len(table: &FxTable) -> (r: usize)
    ensures
        r == fx_contents(*table).len(),
{
    table.map.len()
}

/// `HashMap::clear`: no entries.
#[verifier::external_body]
fn fx_clear(table: &mut FxTable)
    ensures
        fx_contents(*final(table)).dom() == Set::<u64>::empty(),
{
    table.map.clear();
}

/// `HashMap::iter`: each hash of the map once, with the depth of its
/// entry, in the map's own order (which depends on how the map was filled,
/// and is not claimed).
#[verifier::external_body]
fn fx_depths(t: &FxTable) -> (r: Vec<(u64, u8)>)
    ensures
        forall|i: int|
            0 <= i < r@.len() ==> fx_contents(*t).contains_key(#[trigger] r@[i].0) && r@[i].1 == fx_contents(
                *t,
            )[r@[i].0].depth,
        forall|h: u64| #[trigger] fx_contents(*t).contains_key(h) ==> exists|i: int| 0 <= i < r@.len() && r@[i].0 == h,
        forall|i: int, j: int| 0 <= i < j < r@.len() ==> #[trigger] r@[i].0 != #[trigger] r@[j].0,
{
    let mut v: Vec<(u64, u8)> = Vec::new();
    for (h, e) in t.map.iter() {
        v.push((*h, e.depth));
    }
    v
}

/// What a probe answers from an entry searched at least `depth` deep: the
/// exact score, `alpha` for an upper bound at most `alpha`, `beta` for a
/// lower bound at least `beta`.
pub open spec fn probe_answer(e: TTEntry, depth: u8, alpha: i32, beta: i32) -> Option<i32> {
    if e.depth >= depth {
        if e.flag == TT_EXACT {
            Some(e.score)
        } else if e.flag == TT_ALPHA && e.score <= alpha {
            Some(alpha)
        } else if e.flag == TT_BETA && e.score >= beta {
            Some(beta)
        } else {
            None
        }
    } else {
        None
    }
}

/// `h` is among the first `n` elements of `rm`.
pub open spec fn in_prefix(rm: Seq<u64>, n: int, h: u64) -> bool {
    exists|j: int| 0 <= j < n && #[trigger] rm[j] == h
}

/// The depths of `v` ascend.
pub open spec fn ascending_depth(v: Seq<(u64, u8)>) -> bool {
    forall|i: int, j: int| 0 <= i < j < v.len() ==> #[trigger] v[i].1 <= #[trigger] v[j].1
}

/// A table of search results by Zobrist hash, with a capacity that
/// triggers eviction of shallow entries and counters of probes.
pub struct TranspositionTable {
    table: FxTable,
    hits: u64,
    misses: u64,
    max_capacity: usize,
}

impl TranspositionTable {
    /// The entries, by hash.
    pub closed spec fn entries(&self) -> Map<u64, TTEntry> {
        fx_contents(self.table)
    }

    /// The capacity it was made with.
    pub closed spec fn capacity_of(&self) -> usize {
        self.max_capacity
    }

    /// Probes that found an entry.
    pub closed spec fn hit_count(&self) -> u64 {
        self.hits
    }

    /// Probes that found none.
    pub closed spec fn miss_count(&self) -> u64 {
        self.misses
    }

    /// The capacity is small enough to take nine tenths of.
    pub closed spec fn wf(&self) -> bool {
        self.max_capacity <= usize::MAX / 9
    }

    /// An empty table for two million entries.
    pub fn new() -> (t: Self)
        ensures
            t.wf(),
            t.entries() == Map::<u64, TTEntry>::empty(),
            t.capacity_of() == 2_000_000,
            t.hit_count() == 0 && t.miss_count() == 0,
    {
        Self::with_capacity(2_000_000)
    }

    /// An empty table for `capacity` entries.
    pub fn with_capacity(capacity: usize) -> (t: Self)
        requires
            capacity <= usize::MAX / 9,
        ensures
            t.wf(),
            t.entries() == Map::<u64, TTEntry>::empty(),
            t.capacity_of() == capacity,
            t.hit_count() == 0 && t.miss_count() == 0,
    {
        TranspositionTable { table: fx_with_capacity(capacity), hits: 0, misses: 0, max_capacity: capacity }
    }

    /// The score the entry of `hash` answers for a search to `depth` in the
    /// window `alpha..beta` (see `probe_answer`); counts the probe as a hit
    /// when there is an entry, a miss otherwise (the counters stop at their
    /// maximum).
    pub fn probe(&mut self, hash: u64, depth: u8, alpha: i32, beta: i32) -> (r: Option<i32>)
        ensures
            final(self).entries() == old(self).entries(),
            final(self).capacity_of() == old(self).capacity_of(),
            final(self).wf() == old(self).wf(),
            r == (if old(self).entries().contains_key(hash) {
                probe_answer(old(self).entries()[hash], depth, alpha, beta)
            } else {
                None
            }),
            old(self).entries().contains_key(hash) ==> final(self).hit_count() == (if old(self).hit_count() < u64::MAX {
                old(self).hit_count() + 1
            } else {
                old(self).hit_count() as int
            }) && final(self).miss_count() == old(self).miss_count(),
            !old(self).entries().contains_key(hash) ==> final(self).miss_count() == (if old(self).miss_count()
                < u64::MAX {
                old(self).miss_count() + 1
            } else {
                old(self).miss_count() as int
            }) && final(self).hit_count() == old(self).hit_count(),
    {
        match fx_get(&self.table, hash) {
            Some(entry) => {
                self.hits = self.hits.saturating_add(1);
                if entry.depth >= depth {
                    if entry.flag == TT_EXACT {
                        return Some(entry.score);
                    } else if entry.flag == TT_ALPHA && entry.score <= alpha {
                        return Some(alpha);
                    } else if entry.flag == TT_BETA && entry.score >= beta {
                        return Some(beta);
                    }
                }
                None
            },
            None => {
                self.misses = self.misses.saturating_add(1);
                None
            },
        }
    }

    /// Stores a result for `hash`: first evicts shallow entries when the
    /// table holds nine tenths of its capacity; then replaces an entry of
    /// `hash` only when not deeper than `depth`.
    pub fn store(&mut self, hash: u64, depth: u8, score: i32, flag: u8, best_move: Option<Move>)
        requires
            old(self).wf(),
        ensures
            final(self).wf(),
            final(self).capacity_of() == old(self).capacity_of(),
            final(self).hit_count() == old(self).hit_count(),
            final(self).miss_count() == old(self).miss_count(),
            forall|h: u64|
                #[trigger] final(self).entries().contains_key(h) && h != hash ==> old(self).entries().contains_key(h)
                    && final(self).entries()[h] == old(self).entries()[h],
            final(self).entries().contains_key(hash),
            final(self).entries()[hash] == (TTEntry { score, flag, depth, best_move }) || (old(self).entries().contains_key(hash) && old(self).entries()[hash].depth > depth && final(self).entries()[hash]
                == old(self).entries()[hash]),
            old(self).entries().len() < old(self).capacity_of() * 9 / 10 ==> final(self).entries() == (if old(self).entries().contains_key(hash) && old(self).entries()[hash].depth > depth {
                old(self).entries()
            } else {
                old(self).entries().insert(hash, TTEntry { score, flag, depth, best_move })
            }),
            old(self).entries().len() >= old(self).capacity_of() * 9 / 10 ==> forall|h: u64|
                #[trigger] old(self).entries().contains_key(h) && old(self).entries()[h].depth < 5 && h != hash
                    ==> !final(self).entries().contains_key(h),
    {
        let len = fx_len(&self.table);
        if len >= (self.max_capacity * 9) / 10 {
            self.clear_old_entries();
        }
        let ghost mid = self.entries();
        assert(forall|h: u64| #[trigger] mid.contains_key(h) ==> old(self).entries().contains_key(h) && mid[h] == old(
            self).entries()[h]);
        let entry = TTEntry { score, flag, depth, best_move };
        match fx_get(&self.table, hash) {
            Some(existing) => {
                if depth >= existing.depth {
                    fx_insert(&mut self.table, hash, entry);
                }
            },
            None => {
                fx_insert(&mut self.table, hash, entry);
            },
        }
    }

    /// The best move stored for `hash`, if any.
    pub fn get_best_move(&mut self, hash: u64) -> (r: Option<Move>)
        ensures
            *final(self) == *old(self),
            r == (if old(self).entries().contains_key(hash) {
                old(self).entries()[hash].best_move
            } else {
                None
            }),
    {
        match fx_get(&self.table, hash) {
            Some(entry) => entry.best_move,
            None => None,
        }
    }

    /// Evicts shallow entries: every entry searched less than 5 deep, and,
    /// when those are fewer than a quarter of the table, also the quarter
    /// of the table of least depth. Every entry removed is no deeper than
    /// any entry kept; the others stay as they were.
    fn clear_old_entries(&mut self)
        ensures
            final(self).wf() == old(self).wf(),
            final(self).capacity_of() == old(self).capacity_of(),
            final(self).hit_count() == old(self).hit_count(),
            final(self).miss_count() == old(self).miss_count(),
            forall|h: u64| #[trigger] final(self).entries().contains_key(h) ==> old(self).entries().contains_key(h)
                && final(self).entries()[h] == old(self).entries()[h],
            forall|h: u64|
                #[trigger] old(self).entries().contains_key(h) && old(self).entries()[h].depth < 5 ==> !final(self).entries().contains_key(h),
            forall|h: u64, g: u64|
                #![trigger old(self).entries().contains_key(h), final(self).entries().contains_key(g)]
                old(self).entries().contains_key(h) && !final(self).entries().contains_key(h) && final(self).entries().contains_key(g) ==> old(self).entries()[h].depth <= old(self).entries()[g].depth,
    {
        let ghost old_map = fx_contents(self.table);
        let entries = fx_depths(&self.table);
        let len = fx_len(&self.table);
        let mut to_remove: Vec<u64> = Vec::new();
        let mut i: usize = 0;
        while i < entries.len()
            invariant
                i <= entries.len(),
                forall|k: int| 0 <= k < to_remove.len() ==> old_map.contains_key(#[trigger] to_remove@[k]),
                forall|k: int|
                    0 <= k < i && entries@[k].1 < 5 ==> to_remove@.contains(#[trigger] entries@[k].0),
                forall|k: int| 0 <= k < to_remove.len() ==> old_map[#[trigger] to_remove@[k]].depth < 5,
                forall|j: int|
                    0 <= j < entries@.len() ==> old_map.contains_key(#[trigger] entries@[j].0) && entries@[j].1
                        == old_map[entries@[j].0].depth,
            decreases entries.len() - i,
        {
            if entries[i].1 < 5 {
                let ghost tp = to_remove@;
                to_remove.push(entries[i].0);
                proof {
                    assert forall|k: int| 0 <= k < i + 1 && entries@[k].1 < 5 implies to_remove@.contains(
                        #[trigger] entries@[k].0,
                    ) by {
                        if k < i {
                            let j = choose|j: int| 0 <= j < tp.len() && tp[j] == entries@[k].0;
                            assert(to_remove@[j] == entries@[k].0);
                        } else {
                            assert(to_remove@[to_remove@.len() - 1] == entries@[k].0);
                        }
                    }
                }
            }
            i = i + 1;
        }
        let ghost low = to_remove@;
        let low_count = to_remove.len();
        let ghost mut cut: int = 5;
        if low_count < len / 4 {
            let by_depth = sort_by_depth(&entries);
            let remove_count = len / 4;
            let mut k: usize = 0;
            while k < remove_count && k < by_depth.len()
                invariant
                    k <= remove_count,
                    k <= by_depth.len(),
                    ascending_depth(by_depth@),
                    forall|j: int|
                        0 <= j < by_depth@.len() ==> old_map.contains_key(#[trigger] by_depth@[j].0) && by_depth@[j].1
                            == old_map[by_depth@[j].0].depth,
                    forall|h: u64| #[trigger] old_map.contains_key(h) ==> exists|j: int| 0 <= j < by_depth@.len() && by_depth@[j].0 == h,
                    to_remove@.len() == low.len() + k,
                    forall|j: int| 0 <= j < low.len() ==> #[trigger] to_remove@[j] == low[j],
                    forall|j: int| low.len() <= j < low.len() + k ==> #[trigger] to_remove@[j] == by_depth@[j - low.len()].0,
                    forall|j: int| 0 <= j < low.len() ==> old_map.contains_key(#[trigger] low[j]) && old_map[low[j]].depth < 5,
                decreases remove_count - k,
            {
                to_remove.push(by_depth[k].0);
                k = k + 1;
            }
            proof {
                assert forall|j: int| 0 <= j < to_remove@.len() implies old_map.contains_key(#[trigger] to_remove@[j]) by {
                    if j >= low.len() {
                        assert(to_remove@[j] == by_depth@[j - low.len()].0);
                    }
                }
                // Every hash removed is no deeper than every hash not removed.
                assert forall|h: u64, g: u64|
                    #![trigger to_remove@.contains(h), old_map.contains_key(g)]
                    to_remove@.contains(h) && old_map.contains_key(g) && !to_remove@.contains(g) implies old_map[h].depth
                        <= old_map[g].depth by {
                    let jh = choose|jh: int| 0 <= jh < to_remove@.len() && to_remove@[jh] == h;
                    let jg = choose|jg: int| 0 <= jg < by_depth@.len() && by_depth@[jg].0 == g;
                    if jg < k {
                        assert(to_remove@[low.len() + jg] == by_depth@[jg].0);
                        assert(to_remove@.contains(g));
                    }
                    if jh < low.len() {
                        assert(old_map[h].depth < 5);
                        if old_map[g].depth < 5 {
                            let jj = choose|jj: int| 0 <= jj < entries@.len() && entries@[jj].0 == g;
                            assert(entries@[jj].1 < 5);
                            assert(to_remove@.contains(g)) by {
                                assert(low.contains(g));
                                let jl = choose|jl: int| 0 <= jl < low.len() && low[jl] == g;
                                assert(to_remove@[jl] == g);
                            }
                        }
                    } else {
                        let jb = jh - low.len();
                        assert(to_remove@[jh] == by_depth@[jb].0);
                        assert(by_depth@[jb].1 <= by_depth@[jg].1);
                    }
                }
            }
        } else {
            proof {
                assert forall|h: u64, g: u64|
                    #![trigger to_remove@.contains(h), old_map.contains_key(g)]
                    to_remove@.contains(h) && old_map.contains_key(g) && !to_remove@.contains(g) implies old_map[h].depth
                        <= old_map[g].depth by {
                    let jh = choose|jh: int| 0 <= jh < to_remove@.len() && to_remove@[jh] == h;
                    if old_map[g].depth < 5 {
                        let jj = choose|jj: int| 0 <= jj < entries@.len() && entries@[jj].0 == g;
                        assert(entries@[jj].1 < 5);
                    }
                }
            }
        }
        proof {
            assert forall|h: u64| #[trigger] old_map.contains_key(h) && old_map[h].depth < 5 implies to_remove@.contains(h) by {
                let jj = choose|jj: int| 0 <= jj < entries@.len() && entries@[jj].0 == h;
                assert(entries@[jj].1 < 5);
                assert(low.contains(h));
                let jl = choose|jl: int| 0 <= jl < low.len() && low[jl] == h;
                assert(to_remove@[jl] == h);
            }
        }
        let ghost rm = to_remove@;
        let mut r: usize = 0;
        while r < to_remove.len()
            invariant
                r <= to_remove.len(),
                to_remove@ == rm,
                self.max_capacity == old(self).max_capacity,
                self.hits == old(self).hits,
                self.misses == old(self).misses,
                forall|h: u64|
                    #[trigger] fx_contents(self.table).contains_key(h) <==> (old_map.contains_key(h) && !in_prefix(
                        rm,
                        r as int,
                        h,
                    )),
                forall|h: u64| #[trigger] fx_contents(self.table).contains_key(h) ==> fx_contents(self.table)[h] == old_map[h],
            decreases to_remove.len() - r,
        {
            fx_remove(&mut self.table, to_remove[r]);
            r = r + 1;
            proof {
                assert forall|h: u64| #[trigger] fx_contents(self.table).contains_key(h) <==> (old_map.contains_key(h)
                    && !in_prefix(rm, r as int, h)) by {
                    if h == rm[r - 1] {
                        assert(in_prefix(rm, r as int, h));
                    } else if in_prefix(rm, r as int, h) {
                        let j = choose|j: int| 0 <= j < r && #[trigger] rm[j] == h;
                        assert(in_prefix(rm, r - 1, h));
                    }
                }
            }
        }
        proof {
            assert forall|h: u64| in_prefix(rm, rm.len() as int, h) <==> #[trigger] rm.contains(h) by {
                if rm.contains(h) {
                    let j = choose|j: int| 0 <= j < rm.len() && rm[j] == h;
                    assert(in_prefix(rm, rm.len() as int, h));
                }
            }
            assert forall|h: u64, g: u64|
                #![trigger old_map.contains_key(h), fx_contents(self.table).contains_key(g)]
                old_map.contains_key(h) && !fx_contents(self.table).contains_key(h) && fx_contents(
                    self.table,
                ).contains_key(g) implies old_map[h].depth <= old_map[g].depth by {
                assert(rm.contains(h));
                assert(!rm.contains(g));
                assert(old_map.contains_key(g));
            }
        }
    }

    /// Empties the table and resets the counters.
    pub fn clear(&mut self)
        ensures
            final(self).entries() == Map::<u64, TTEntry>::empty(),
            final(self).hit_count() == 0 && final(self).miss_count() == 0,
            final(self).capacity_of() == old(self).capacity_of(),
            final(self).wf() == old(self).wf(),
    {
        fx_clear(&mut self.table);
        self.hits = 0;
        self.misses = 0;
    }

    /// The number of probes that found an entry.
    pub fn hits(&self) -> (r: u64)
        ensures
            r == self.hit_count(),
    {
        self.hits
    }

    /// The number of probes that found none.
    pub fn misses(&self) -> (r: u64)
        ensures
            r == self.miss_count(),
    {
        self.misses
    }

    /// The number of entries.
    pub fn size(&self) -> (r: usize)
        ensures
            r == self.entries().len(),
    {
        fx_len(&self.table)
    }

    /// The capacity the table was made with.
    pub fn capacity(&self) -> (r: usize)
        ensures
            r == self.capacity_of(),
    {
        self.max_capacity
    }

    /// The table's fill in thousandths of its capacity.
    pub fn hashfull(&self) -> (r: u64)
        requires
            self.capacity_of() > 0,
            self.entries().len() * 1000 <= u64::MAX,
        ensures
            r == (self.entries().len() * 1000) as int / (self.capacity_of() as int),
    {
        let s = fx_len(&self.table);
        (s as u64 * 1000) / self.max_capacity as u64
    }
}

/// The hashes and depths of `v` in order of depth, ascending; those of the
/// same depth in the order of `v`.
fn sort_by_depth(v: &Vec<(u64, u8)>) -> (r: Vec<(u64, u8)>)
    ensures
        ascending_depth(r@),
        forall|j: int| 0 <= j < r@.len() ==> v@.contains(#[trigger] r@[j]),
        forall|j: int| 0 <= j < v@.len() ==> r@.contains(#[trigger] v@[j]),
{
    let mut r: Vec<(u64, u8)> = Vec::new();
    let mut d: u16 = 0;
    while d < 256
        invariant
            d <= 256,
            forall|a: int, b: int| 0 <= a < b < r@.len() ==> #[trigger] r@[a].1 <= #[trigger] r@[b].1,
            forall|j: int| 0 <= j < r@.len() ==> #[trigger] r@[j].1 < d,
            forall|j: int| 0 <= j < r@.len() ==> v@.contains(#[trigger] r@[j]),
            forall|j: int| 0 <= j < v@.len() && v@[j].1 < d ==> r@.contains(#[trigger] v@[j]),
        decreases 256 - d,
    {
        let ghost r0 = r@;
        let mut i: usize = 0;
        while i < v.len()
            invariant
                d < 256,
                i <= v.len(),
                r0.len() <= r@.len(),
                forall|j: int| 0 <= j < r0.len() ==> #[trigger] r@[j] == r0[j],
                forall|j: int| 0 <= j < r0.len() ==> #[trigger] r0[j].1 < d,
                forall|j: int| r0.len() <= j < r@.len() ==> #[trigger] r@[j].1 == d,
                forall|a: int, b: int| 0 <= a < b < r0.len() ==> #[trigger] r0[a].1 <= #[trigger] r0[b].1,
                forall|j: int| 0 <= j < r@.len() ==> v@.contains(#[trigger] r@[j]),
                forall|j: int| 0 <= j < v@.len() && v@[j].1 < d ==> r0.contains(#[trigger] v@[j]),
                forall|j: int| 0 <= j < i && v@[j].1 == d ==> r@.contains(#[trigger] v@[j]),
            decreases v.len() - i,
        {
            if v[i].1 as u16 == d {
                proof {
                    assert(v@.contains(v@[i as int]));
                }
                let ghost rp = r@;
                r.push(v[i]);
                proof {
                    assert(r@[r@.len() - 1] == v@[i as int]);
                    assert forall|j: int| 0 <= j < i + 1 && v@[j].1 == d implies r@.contains(#[trigger] v@[j]) by {
                        if j < i {
                            let k = choose|k: int| 0 <= k < rp.len() && rp[k] == v@[j];
                            assert(r@[k] == v@[j]);
                        } else {
                            assert(r@[r@.len() - 1] == v@[j]);
                        }
                    }
                    assert forall|j: int| 0 <= j < r@.len() implies v@.contains(#[trigger] r@[j]) by {
                        if j < rp.len() {
                            assert(r@[j] == rp[j]);
                        }
                    }
                }
            }
            i = i + 1;
        }
        proof {
            assert forall|a: int, b: int| 0 <= a < b < r@.len() implies #[trigger] r@[a].1 <= #[trigger] r@[b].1 by {
                if b < r0.len() {
                    assert(r@[a] == r0[a] && r@[b] == r0[b]);
                } else if a < r0.len() {
                    assert(r@[a] == r0[a]);
                }
            }
            assert forall|j: int| 0 <= j < v@.len() && v@[j].1 < d + 1 implies r@.contains(#[trigger] v@[j]) by {
                if v@[j].1 < d {
                    assert(r0.contains(v@[j]));
                    let k = choose|k: int| 0 <= k < r0.len() && r0[k] == v@[j];
                    assert(r@[k] == v@[j]);
                }
            }
        }
        d = d + 1;
    }
    proof {
        assert forall|j: int| 0 <= j < v@.len() implies r@.contains(#[trigger] v@[j]) by {
            assert(v@[j].1 < 256);
        }
    }
    r
}

} // verus!
