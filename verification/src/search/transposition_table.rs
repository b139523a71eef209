use vstd::prelude::*;
use vstd::arithmetic::power2::pow2;
use crate::types::Move;

verus! {

/// What a stored score is: exact, a lower bound or an upper bound.
#[derive(Debug, Clone, Copy, PartialEq, Structural)]
pub enum NodeType {
    Exact,
    LowerBound,
    UpperBound,
}

/// The code of a node type in a packed entry.
pub open spec fn node_type_bits(t: NodeType) -> u64 {
    match t {
        NodeType::Exact => 0,
        NodeType::LowerBound => 1,
        NodeType::UpperBound => 2,
    }
}

/// The 16 bits of a move in a packed entry: origin (bits 10-15),
/// destination (4-9), castling (1) and en passant (0).
pub open spec fn move_bits(m: Move) -> u64 {
    ((m.from as u64) << 10u64) | ((m.to as u64) << 4u64) | ((if m.is_castling {
        1u64
    } else {
        0u64
    }) << 1u64) | (if m.is_en_passant {
        1u64
    } else {
        0u64
    })
}

/// The packed data of an entry: move (bits 48-63), score (32-47), depth
/// (24-31), node type (22-23), age (16-21).
pub open spec fn entry_data(m: Move, score: i16, depth: u8, t: NodeType, age: u8) -> u64 {
    (move_bits(m) << 48u64) | ((score as u16 as u64) << 32u64) | ((depth as u64) << 24u64) | (node_type_bits(t)
        << 22u64) | ((age as u64) << 16u64)
}

/// A packed transposition-table entry: the full hash and one word of data.
#[derive(Debug, Clone, Copy)]
pub struct TTEntry {
    pub key: u64,
    pub data: u64,
}

impl TTEntry {
    /// An entry for `hash` holding the move, score, depth, node type and age.
    pub fn new(hash: u64, best_move: Move, score: i16, depth: u8, node_type: NodeType, age: u8) -> (e: TTEntry)
        ensures
            e.key == hash,
            e.data == entry_data(best_move, score, depth, node_type, age),
    {
        let castle: u64 = if best_move.is_castling {
            1
        } else {
            0
        };
        let ep: u64 = if best_move.is_en_passant {
            1
        } else {
            0
        };
        let move_bits = ((best_move.from as u64) << 10u64) | ((best_move.to as u64) << 4u64) | (castle << 1u64) | ep;
        let type_bits: u64 = match node_type {
            NodeType::Exact => 0,
            NodeType::LowerBound => 1,
            NodeType::UpperBound => 2,
        };
        let data = (move_bits << 48u64) | ((score as u16 as u64) << 32u64) | ((depth as u64) << 24u64) | (type_bits
            << 22u64) | ((age as u64) << 16u64);
        TTEntry { key: hash, data }
    }

    /// The stored move (never a promotion).
    pub fn get_move(&self) -> (m: Move)
        ensures
            m.from == ((self.data >> 58u64) & 0x3F) as u8,
            m.to == ((self.data >> 52u64) & 0x3F) as u8,
            m.promotion is None,
            m.is_castling == ((self.data >> 48u64) & 0x2 != 0),
            m.is_en_passant == ((self.data >> 48u64) & 0x1 != 0),
    {
        let move_bits = self.data >> 48u64;
        proof {
            let d = self.data;
            assert(((d >> 48u64) >> 10u64) & 0x3F == (d >> 58u64) & 0x3F) by (bit_vector);
            assert(((d >> 48u64) >> 4u64) & 0x3F == (d >> 52u64) & 0x3F) by (bit_vector);
        }
        Move {
            from: ((move_bits >> 10u64) & 0x3F) as u8,
            to: ((move_bits >> 4u64) & 0x3F) as u8,
            promotion: None,
            is_castling: (move_bits & 0x2) != 0,
            is_en_passant: (move_bits & 0x1) != 0,
        }
    }

    /// The stored score.
    pub fn get_score(&self) -> (s: i16)
        ensures
            s == (((self.data >> 32u64) & 0xFFFF) as u16) as i16,
    {
        ((self.data >> 32u64) & 0xFFFF) as u16 as i16
    }

    /// The stored depth.
    pub fn get_depth(&self) -> (d: u8)
        ensures
            d == ((self.data >> 24u64) & 0xFF) as u8,
    {
        ((self.data >> 24u64) & 0xFF) as u8
    }

    /// The stored node type: 0 exact, 1 lower bound, otherwise upper bound.
    pub fn get_type(&self) -> (t: NodeType)
        ensures
            t == (if (self.data >> 22u64) & 0x3 == 0 {
                NodeType::Exact
            } else if (self.data >> 22u64) & 0x3 == 1 {
                NodeType::LowerBound
            } else {
                NodeType::UpperBound
            }),
    {
        let bits = (self.data >> 22u64) & 0x3;
        if bits == 0 {
            NodeType::Exact
        } else if bits == 1 {
            NodeType::LowerBound
        } else {
            NodeType::UpperBound
        }
    }

    /// The stored age (6 bits).
    pub fn get_age(&self) -> (a: u8)
        ensures
            a == ((self.data >> 16u64) & 0x3F) as u8,
    {
        ((self.data >> 16u64) & 0x3F) as u8
    }
}

impl Default for TTEntry {
    /// The empty entry.
    fn default() -> (e: TTEntry)
        ensures
            e.key == 0 && e.data == 0,
    {
        TTEntry { key: 0, data: 0 }
    }
}

/// The getters give back what the constructor stored: the move's squares
/// and flags (no promotion), the score, the depth, the node type and the
/// age, for squares below 64 and an age below 64.
pub proof fn lemma_entry_roundtrip(m: Move, score: i16, depth: u8, t: NodeType, age: u8)
    requires
        m.from < 64,
        m.to < 64,
        age < 64,
    ensures
        ({
            let d = entry_data(m, score, depth, t, age);
            &&& ((d >> 58u64) & 0x3F) as u8 == m.from
            &&& ((d >> 52u64) & 0x3F) as u8 == m.to
            &&& ((d >> 48u64) & 0x2 != 0) == m.is_castling
            &&& ((d >> 48u64) & 0x1 != 0) == m.is_en_passant
            &&& (((d >> 32u64) & 0xFFFF) as u16) as i16 == score
            &&& ((d >> 24u64) & 0xFF) as u8 == depth
            &&& (d >> 22u64) & 0x3 == node_type_bits(t)
            &&& ((d >> 16u64) & 0x3F) as u8 == age
        }),
{
    let f = m.from as u64;
    let to = m.to as u64;
    let c: u64 = if m.is_castling {
        1
    } else {
        0
    };
    let e: u64 = if m.is_en_passant {
        1
    } else {
        0
    };
    let sc = score as u16 as u64;
    let dp = depth as u64;
    let tb = node_type_bits(t);
    let ag = age as u64;
    let d = (((f << 10u64) | (to << 4u64) | (c << 1u64) | e) << 48u64) | (sc << 32u64) | (dp << 24u64) | (tb << 22u64)
        | (ag << 16u64);
    assert(d == entry_data(m, score, depth, t, age));
    assert((f < 64 && to < 64 && c <= 1 && e <= 1 && sc < 65536 && dp < 256 && tb <= 2 && ag < 64) ==> ((d >> 58u64)
        & 0x3F == f && (d >> 52u64) & 0x3F == to && ((d >> 48u64) & 0x2 != 0) == (c == 1) && ((d >> 48u64) & 0x1
        != 0) == (e == 1) && (d >> 32u64) & 0xFFFF == sc && (d >> 24u64) & 0xFF == dp && (d >> 22u64) & 0x3 == tb
        && (d >> 16u64) & 0x3F == ag)) by (bit_vector)
        requires
            d == (((f << 10u64) | (to << 4u64) | (c << 1u64) | e) << 48u64) | (sc << 32u64) | (dp << 24u64) | (tb
                << 22u64) | (ag << 16u64),
    ;
    assert((((sc as u16) as i16) as int) == score as int) by (bit_vector)
        requires
            sc == score as u16 as u64,
    ;
}

/// A mate score (beyond 29000 either way) measured from the root becomes
/// one measured from this node, `ply` plies down; other scores stay.
pub open spec fn adjust_spec(score: int, ply: int) -> int {
    if score > 29000 {
        score - ply
    } else if score < -29000 {
        score + ply
    } else {
        score
    }
}

/// The inverse shift of `adjust_spec`.
pub open spec fn unadjust_spec(score: int, ply: int) -> int {
    if score > 29000 {
        score + ply
    } else if score < -29000 {
        score - ply
    } else {
        score
    }
}

/// Makes a mate score relative to the node `ply` plies from the root.
pub fn adjust_mate_score(score: i16, ply: u16) -> (r: i16)
    requires
        score > 29000 ==> i16::MIN <= score - (ply as i16) <= i16::MAX,
        score < -29000 ==> i16::MIN <= score + (ply as i16) <= i16::MAX,
    ensures
        r == adjust_spec(score as int, (ply as i16) as int),
{
    if score > 29000 {
        score - ply as i16
    } else if score < -29000 {
        score + ply as i16
    } else {
        score
    }
}

/// Makes a node-relative mate score relative to the root again.
pub fn unadjust_mate_score(score: i16, ply: u16) -> (r: i16)
    requires
        score > 29000 ==> i16::MIN <= score + (ply as i16) <= i16::MAX,
        score < -29000 ==> i16::MIN <= score - (ply as i16) <= i16::MAX,
    ensures
        r == unadjust_spec(score as int, (ply as i16) as int),
{
    if score > 29000 {
        score + ply as i16
    } else if score < -29000 {
        score - ply as i16
    } else {
        score
    }
}

/// Unadjusting undoes adjusting, for scores that stay on their side of the
/// mate threshold: non-mate scores, and mate scores further from it than
/// `ply`.
pub proof fn lemma_adjust_roundtrip(score: int, ply: int)
    requires
        0 <= ply,
        -29000 <= score <= 29000 || score > 29000 + ply || score < -29000 - ply,
    ensures
        unadjust_spec(adjust_spec(score, ply), ply) == score,
{
}

/// The entries in one bucket.
pub const BUCKET_SIZE: usize = 4;

/// The bytes of one bucket: four keys and four data words.
pub const BUCKET_BYTES: usize = 64;

/// The first slot, from `i` on, of the bucket at `base` whose key is `hash`;
/// `BUCKET_SIZE` when there is none.
pub open spec fn match_from(s: Seq<TTEntry>, base: int, hash: u64, i: int) -> int
    decreases 4 - i,
{
    if i >= 4 {
        4
    } else if s[base + i].key == hash {
        i
    } else {
        match_from(s, base, hash, i + 1)
    }
}

/// The first slot, from `i` on, of the bucket at `base` that is empty (key
/// 0) or holds `hash`; `BUCKET_SIZE` when there is none.
pub open spec fn free_from(s: Seq<TTEntry>, base: int, hash: u64, i: int) -> int
    decreases 4 - i,
{
    if i >= 4 {
        4
    } else if s[base + i].key == 0 || s[base + i].key == hash {
        i
    } else {
        free_from(s, base, hash, i + 1)
    }
}

/// How much an entry deserves to be replaced: 100 when it is from another
/// search than `age`, less its depth.
pub open spec fn replace_score(e: TTEntry, age: u8) -> int {
    (if ((e.data >> 16u64) & 0x3F) as u8 == age {
        0int
    } else {
        100int
    }) - (((e.data >> 24u64) & 0xFF) as u8) as int
}

/// The first slot among the first `n` of the bucket at `base` with the
/// highest replacement score.
pub open spec fn victim_upto(s: Seq<TTEntry>, base: int, age: u8, n: int) -> int
    decreases n,
{
    if n <= 1 {
        0
    } else {
        let v = victim_upto(s, base, age, n - 1);
        if replace_score(s[base + n - 1], age) > replace_score(s[base + v], age) {
            n - 1
        } else {
            v
        }
    }
}

/// The slot of the bucket at `base` that a store of `hash` writes: the first
/// empty one or one already holding `hash`, else the first with the highest
/// replacement score.
pub open spec fn store_slot(s: Seq<TTEntry>, base: int, hash: u64, age: u8) -> int {
    let f = free_from(s, base, hash, 0);
    if f < 4 {
        f
    } else {
        victim_upto(s, base, age, 4)
    }
}

/// The bucket of `hash` in a table of `buckets` buckets.
pub open spec fn bucket_of(hash: u64, buckets: nat) -> int {
    ((hash as usize) as nat % buckets) as int
}

/// Whether `n` is a power of two that a `usize` holds.
pub open spec fn is_usize_pow2(n: nat) -> bool {
    exists|k: nat| k < usize::BITS && pow2(k) == n
}

/// The smallest power of two not below `n` (1 for 0).
fn next_power_of_two(n: usize) -> (r: (usize, Ghost<nat>))
    requires
        n <= usize::MAX / 2,
    ensures
        ({
            let (p, k) = r;
            &&& k@ < usize::BITS
            &&& pow2(k@) == p
            &&& is_usize_pow2(p as nat)
            &&& n <= p
            &&& p == 1 || p / 2 < n
        }),
{
    let mut p: usize = 1;
    let ghost mut k: nat = 0;
    proof {
        vstd::arithmetic::power2::lemma2_to64();
    }
    while p < n
        invariant
            n <= usize::MAX / 2,
            p == pow2(k),
            1 <= p,
            p == 1 || p / 2 < n,
        decreases usize::MAX - p,
    {
        proof {
            vstd::arithmetic::power2::lemma_pow2_unfold(k + 1);
        }
        p = p * 2;
        proof {
            k = k + 1;
        }
    }
    proof {
        vstd::arithmetic::power2::lemma2_to64();
        if k >= usize::BITS {
            if k > usize::BITS {
                vstd::arithmetic::power2::lemma_pow2_strictly_increases(usize::BITS as nat, k);
            }
            vstd::arithmetic::power2::lemma2_to64_rest();
        }
    }
    (p, Ghost(k))
}

/// A transposition table of buckets of four entries, indexed by the low
/// bits of the hash; a store replaces an empty slot, the slot of the same
/// position, or the slot least worth keeping (an old search's, then the
/// shallowest).
pub struct TranspositionTable {
    table: Vec<TTEntry>,
    size: usize,
    log_size: Ghost<nat>,
    mask: usize,
    age: u8,
    hits: u64,
    misses: u64,
}

impl TranspositionTable {
    /// The entries, bucket after bucket.
    pub closed spec fn slots(&self) -> Seq<TTEntry> {
        self.table@
    }

    /// The number of buckets.
    pub closed spec fn buckets(&self) -> nat {
        self.size as nat
    }

    /// The current search's age.
    pub closed spec fn current_age(&self) -> u8 {
        self.age
    }

    /// The probes that found their position.
    pub closed spec fn hit_count(&self) -> u64 {
        self.hits
    }

    /// The probes that did not.
    pub closed spec fn miss_count(&self) -> u64 {
        self.misses
    }

    /// The buckets are a power of two in number, each of four slots.
    pub closed spec fn wf(&self) -> bool {
        &&& self.log_size@ < usize::BITS
        &&& pow2(self.log_size@) == self.size
        &&& self.mask == self.size - 1
        &&& self.table@.len() == self.size * 4
        &&& self.table@.len() <= usize::MAX
    }

    /// A table of the largest power of two of 64-byte buckets that
    /// `size_mb` megabytes round up to, all empty, at age 0.
    pub fn new(size_mb: usize) -> (tt: Self)
        requires
            size_mb * 1048576 <= usize::MAX,
        ensures
            tt.wf(),
            is_usize_pow2(tt.buckets()),
            size_mb * 16384 <= tt.buckets(),
            tt.buckets() == 1 || tt.buckets() / 2 < size_mb * 16384,
            forall|i: int| 0 <= i < tt.slots().len() ==> #[trigger] tt.slots()[i] == (TTEntry { key: 0, data: 0 }),
            tt.current_age() == 0,
            tt.hit_count() == 0,
            tt.miss_count() == 0,
    {
        let target_bytes = size_mb * 1024 * 1024;
        let (num_buckets, log_size) = next_power_of_two(target_bytes / BUCKET_BYTES);
        let mut table: Vec<TTEntry> = Vec::new();
        let mut i: usize = 0;
        while i < num_buckets * BUCKET_SIZE
            invariant
                num_buckets <= usize::MAX / 32,
                i <= num_buckets * BUCKET_SIZE,
                table@.len() == i,
                forall|j: int| 0 <= j < i ==> #[trigger] table@[j] == (TTEntry { key: 0, data: 0 }),
            decreases num_buckets * BUCKET_SIZE - i,
        {
            table.push(TTEntry { key: 0, data: 0 });
            i = i + 1;
        }
        TranspositionTable { table, size: num_buckets, log_size, mask: num_buckets - 1, age: 0, hits: 0, misses: 0 }
    }

    /// The bucket of `hash`: its low bits.
    fn bucket_index(&self, hash: u64) -> (b: usize)
        requires
            self.wf(),
        ensures
            b == bucket_of(hash, self.buckets()),
            b < self.buckets(),
            b * 4 + 4 <= self.slots().len(),
    {
        let ghost k: nat = self.log_size@;
        proof {
            vstd::bits::lemma_usize_low_bits_mask_is_mod(hash as usize, k);
            vstd::arithmetic::power2::lemma_pow2_pos(k);
        }
        let b = (hash as usize) & self.mask;
        assert(b < self.size);
        assert(b * 4 + 4 <= self.size * 4) by (nonlinear_arith)
            requires
                b < self.size,
        ;
        b
    }

    /// Empties every slot and resets the counters.
    pub fn clear(&mut self)
        requires
            old(self).wf(),
        ensures
            final(self).wf(),
            final(self).buckets() == old(self).buckets(),
            final(self).slots().len() == old(self).slots().len(),
            forall|i: int|
                0 <= i < final(self).slots().len() ==> #[trigger] final(self).slots()[i] == (TTEntry { key: 0, data: 0 }),
            final(self).current_age() == old(self).current_age(),
            final(self).hit_count() == 0,
            final(self).miss_count() == 0,
    {
        let n = self.table.len();
        let mut i: usize = 0;
        while i < n
            invariant
                self.wf(),
                n == self.table@.len(),
                self.size == old(self).size,
                self.age == old(self).age,
                i <= n,
                forall|j: int| 0 <= j < i ==> #[trigger] self.table@[j] == (TTEntry { key: 0, data: 0 }),
            decreases n - i,
        {
            self.table.set(i, TTEntry { key: 0, data: 0 });
            i = i + 1;
        }
        self.hits = 0;
        self.misses = 0;
    }

    /// Starts a new search: the age goes up by one, wrapping.
    pub fn new_search(&mut self)
        ensures
            final(self).current_age() == old(self).current_age().wrapping_add(1),
            final(self).slots() == old(self).slots(),
            final(self).buckets() == old(self).buckets(),
            final(self).wf() == old(self).wf(),
            final(self).hit_count() == old(self).hit_count(),
            final(self).miss_count() == old(self).miss_count(),
    {
        self.age = self.age.wrapping_add(1);
    }

    /// The entry of the first slot of `hash`'s bucket whose key is `hash`,
    /// counted as a hit; a miss when there is none.
    pub fn probe(&mut self, hash: u64) -> (r: Option<TTEntry>)
        requires
            old(self).wf(),
        ensures
            final(self).wf(),
            final(self).slots() == old(self).slots(),
            final(self).buckets() == old(self).buckets(),
            final(self).current_age() == old(self).current_age(),
            ({
                let base = bucket_of(hash, old(self).buckets()) * 4;
                let m = match_from(old(self).slots(), base, hash, 0);
                if m < 4 {
                    &&& r == Some(old(self).slots()[base + m])
                    &&& final(self).hit_count() == old(self).hit_count().wrapping_add(1)
                    &&& final(self).miss_count() == old(self).miss_count()
                } else {
                    &&& r is None
                    &&& final(self).hit_count() == old(self).hit_count()
                    &&& final(self).miss_count() == old(self).miss_count().wrapping_add(1)
                }
            }),
    {
        let b = self.bucket_index(hash);
        let base = b * BUCKET_SIZE;
        let mut i: usize = 0;
        while i < BUCKET_SIZE
            invariant
                old(self).wf(),
                *self == *old(self),
                base == bucket_of(hash, old(self).buckets()) * 4,
                base + 4 <= self.table@.len(),
                i <= 4,
                match_from(self.table@, base as int, hash, 0) == match_from(self.table@, base as int, hash, i as int),
            decreases 4 - i,
        {
            let entry = self.table[base + i];
            if entry.key == hash {
                self.hits = self.hits.wrapping_add(1);
                return Some(entry);
            }
            i = i + 1;
        }
        self.misses = self.misses.wrapping_add(1);
        None
    }

    /// Stores the entry of `hash` at the current age in the slot that
    /// `store_slot` names.
    pub fn store(&mut self, hash: u64, best_move: Move, score: i16, depth: u8, node_type: NodeType)
        requires
            old(self).wf(),
        ensures
            final(self).wf(),
            final(self).buckets() == old(self).buckets(),
            final(self).current_age() == old(self).current_age(),
            final(self).hit_count() == old(self).hit_count(),
            final(self).miss_count() == old(self).miss_count(),
            ({
                let base = bucket_of(hash, old(self).buckets()) * 4;
                final(self).slots() == old(self).slots().update(
                    base + store_slot(old(self).slots(), base, hash, old(self).current_age()),
                    TTEntry { key: hash, data: entry_data(best_move, score, depth, node_type, old(self).current_age()) },
                )
            }),
    {
        let b = self.bucket_index(hash);
        let base = b * BUCKET_SIZE;
        let new_entry = TTEntry::new(hash, best_move, score, depth, node_type, self.age);
        let ghost s = self.table@;
        let ghost age = self.age;
        let mut best_slot: usize = 0;
        let mut best_score: i32 = i32::MIN;
        let mut i: usize = 0;
        while i < BUCKET_SIZE
            invariant
                old(self).wf(),
                *self == *old(self),
                self.table@ == s,
                self.age == age,
                new_entry == (TTEntry { key: hash, data: entry_data(best_move, score, depth, node_type, age) }),
                base == bucket_of(hash, old(self).buckets()) * 4,
                base + 4 <= s.len(),
                i <= 4,
                free_from(s, base as int, hash, 0) == free_from(s, base as int, hash, i as int),
                i == 0 ==> best_score == i32::MIN,
                i > 0 ==> best_slot == victim_upto(s, base as int, age, i as int),
                i > 0 ==> best_score == replace_score(s[base + best_slot], age),
                best_slot < 4,
            decreases 4 - i,
        {
            let entry = self.table[base + i];
            if entry.key == 0 || entry.key == hash {
                assert(store_slot(s, base as int, hash, age) == i);
                self.table.set(base + i, new_entry);
                return;
            }
            let age_bonus: i32 = if entry.get_age() == self.age {
                0
            } else {
                100
            };
            let depth_penalty = entry.get_depth() as i32;
            let replacement_score = age_bonus - depth_penalty;
            if replacement_score > best_score {
                best_score = replacement_score;
                best_slot = i;
            }
            i = i + 1;
        }
        self.table.set(base + best_slot, new_entry);
    }

    /// The probes that found their position.
    pub fn hits(&self) -> (r: u64)
        ensures
            r == self.hit_count(),
    {
        self.hits
    }

    /// The probes that did not.
    pub fn misses(&self) -> (r: u64)
        ensures
            r == self.miss_count(),
    {
        self.misses
    }

    /// For the usage estimate: the used slots (non-zero key) in the sampled
    /// buckets, those below `min(buckets, 1000)` at multiples of
    /// `buckets / min(buckets, 1000)`, and the slots that the estimate
    /// divides by, four per bucket below `min(buckets, 1000)`.
    pub fn sampled_usage(&self) -> (r: (u64, u64))
        requires
            self.wf(),
        ensures
            ({
                let sample = if self.buckets() < 1000 { self.buckets() } else { 1000 };
                let step = self.buckets() / sample;
                &&& r.1 == sample * 4
                &&& r.0 == sampled_used(self.slots(), 0, step as int, sample as int)
            }),
    {
        proof {
            vstd::arithmetic::power2::lemma_pow2_pos(self.log_size@);
        }
        let sample: usize = if self.size < 1000 {
            self.size
        } else {
            1000
        };
        let step = self.size / sample;
        let ghost total = sampled_used(self.table@, 0, step as int, sample as int);
        let mut used: u64 = 0;
        let mut i: usize = 0;
        while i < sample
            invariant
                self.wf(),
                1 <= sample <= self.size,
                sample <= 1000,
                step == self.size / sample,
                step >= 1,
                i <= sample + step,
                used <= i * 4,
                step <= self.size,
                used + sampled_used(self.table@, i as int, step as int, sample as int) == total,
            decreases sample + step - i,
        {
            let mut j: usize = 0;
            while j < BUCKET_SIZE
                invariant
                    self.wf(),
                    i < sample <= self.size,
                    sample <= 1000,
                    j <= 4,
                    step >= 1,
                    used <= i * 4 + j,
                    used + bucket_used_from(self.table@, i as int * 4, j as int) + sampled_used(
                        self.table@,
                        i + step,
                        step as int,
                        sample as int,
                    ) == total,
                decreases 4 - j,
            {
                assert(i * 4 + j < self.size * 4);
                if self.table[i * 4 + j].key != 0 {
                    used = used + 1;
                }
                j = j + 1;
            }
            i = i + step;
        }
        (used, (sample * BUCKET_SIZE) as u64)
    }
}

/// The used slots (non-zero key) of the bucket at `base`, from slot `j` on.
pub open spec fn bucket_used_from(s: Seq<TTEntry>, base: int, j: int) -> nat
    decreases 4 - j,
{
    if j >= 4 {
        0
    } else {
        (if s[base + j].key != 0 {
            1nat
        } else {
            0nat
        }) + bucket_used_from(s, base, j + 1)
    }
}

/// The used slots of the buckets from `b` below `sample`, every `step`-th.
pub open spec fn sampled_used(s: Seq<TTEntry>, b: int, step: int, sample: int) -> nat
    decreases (if b >= sample {
        0
    } else {
        sample - b
    }),
{
    if b >= sample || step <= 0 {
        0
    } else {
        bucket_used_from(s, b * 4, 0) + sampled_used(s, b + step, step, sample)
    }
}

} // verus!
