use vstd::prelude::*;
use crate::types::{Move, PieceKind};

verus! {

/// What a stored score is: exact, a lower bound or an upper bound.
#[derive(Debug, Clone, Copy, PartialEq, Eq, Structural)]
pub enum Bound {
    Exact,
    Lower,
    Upper,
}

/// The byte that stands for a bound.
pub open spec fn bound_byte(b: Bound) -> u8 {
    match b {
        Bound::Exact => 0,
        Bound::Lower => 1,
        Bound::Upper => 2,
    }
}

/// One slot of the transposition table: the upper 32 bits of the hash, the
/// packed best move, the score, the depth (0: empty), the bound and the
/// search generation that wrote it.
#[derive(Clone, Copy)]
pub struct TTEntry {
    pub key: u32,
    pub best_move: u16,
    pub score: i16,
    pub depth: u8,
    pub bound: u8,
    pub age: u8,
    pub pad: u8,
}

impl TTEntry {
    /// The empty slot.
    pub fn empty() -> (e: TTEntry)
        ensures
            e.key == 0 && e.best_move == 0 && e.score == 0 && e.depth == 0 && e.bound == 0 && e.age == 0,
    {
        TTEntry { key: 0, best_move: 0, score: 0, depth: 0, bound: 0, age: 0, pad: 0 }
    }

    /// The bound the slot records: 1 lower, 2 upper, anything else exact.
    pub fn bound_type(&self) -> (b: Bound)
        ensures
            b == (if self.bound == 1 {
                Bound::Lower
            } else if self.bound == 2 {
                Bound::Upper
            } else {
                Bound::Exact
            }),
    {
        match self.bound {
            1 => Bound::Lower,
            2 => Bound::Upper,
            _ => Bound::Exact,
        }
    }
}

/// The code of a promotion in a packed move: knight 1, bishop 2, rook 3,
/// queen 4, none (or another kind) 0.
pub open spec fn promo_code(p: Option<PieceKind>) -> int {
    match p {
        Some(PieceKind::Knight) => 1,
        Some(PieceKind::Bishop) => 2,
        Some(PieceKind::Rook) => 3,
        Some(PieceKind::Queen) => 4,
        _ => 0,
    }
}

/// The promotion a code stands for.
pub open spec fn promo_of_code(c: int) -> Option<PieceKind> {
    if c == 1 {
        Some(PieceKind::Knight)
    } else if c == 2 {
        Some(PieceKind::Bishop)
    } else if c == 3 {
        Some(PieceKind::Rook)
    } else if c == 4 {
        Some(PieceKind::Queen)
    } else {
        None
    }
}

/// A move in 16 bits: origin (bits 0-5), destination (6-11), promotion
/// code (12-14), and bit 15 set for castling or en passant.
pub open spec fn packed(mv: Move) -> int {
    (mv.from % 64) + 64 * (mv.to % 64) + 4096 * promo_code(mv.promotion) + 32768 * (if mv.is_castling
        || mv.is_en_passant {
        1int
    } else {
        0int
    })
}

/// A king's two-square step from its start square.
pub open spec fn castling_step(from: int, to: int) -> bool {
    (from == 4 || from == 60) && (to - from == 2 || from - to == 2)
}

/// The move a 16-bit code stands for: none for 0; with bit 15 set, castling
/// when it is a king's two-square step from e1 or e8, en passant otherwise.
pub open spec fn unpacked(p: u16) -> Option<Move> {
    if p == 0 {
        None
    } else {
        let from = p % 64;
        let to = (p / 64) % 64;
        let special = (p / 32768) % 2 == 1;
        Some(
            Move {
                from: from as u8,
                to: to as u8,
                promotion: promo_of_code(((p / 4096) % 8) as int),
                is_castling: special && castling_step(from as int, to as int),
                is_en_passant: special && !castling_step(from as int, to as int),
            },
        )
    }
}

/// Packs a move into 16 bits.
pub fn pack_move(mv: Move) -> (r: u16)
    ensures
        r == packed(mv),
{
    let from = (mv.from & 0x3F) as u16;
    let to = (mv.to & 0x3F) as u16;
    let promo: u16 = match mv.promotion {
        None => 0,
        Some(PieceKind::Knight) => 1,
        Some(PieceKind::Bishop) => 2,
        Some(PieceKind::Rook) => 3,
        Some(PieceKind::Queen) => 4,
        _ => 0,
    };
    let special: u16 = if mv.is_castling || mv.is_en_passant {
        1
    } else {
        0
    };
    proof {
        let f8 = mv.from;
        let t8 = mv.to;
        assert(f8 & 0x3F == f8 % 64 && t8 & 0x3F == t8 % 64) by (bit_vector);
    }
    let r = from | (to << 6u16) | (promo << 12u16) | (special << 15u16);
    proof {
        assert((from < 64 && to < 64 && promo <= 4 && special <= 1) ==> from | (to << 6u16) | (promo << 12u16) | (
        special << 15u16) == from + 64 * to + 4096 * promo + 32768 * special) by (bit_vector);
    }
    r
}

/// Unpacks a 16-bit move code; `None` for 0.
pub fn unpack_move(packed: u16) -> (r: Option<Move>)
    ensures
        r == unpacked(packed),
{
    if packed == 0 {
        return None;
    }
    let from = (packed & 0x3F) as u8;
    let to = ((packed >> 6u16) & 0x3F) as u8;
    let promo_bits = (packed >> 12u16) & 0x07;
    let special = (packed >> 15u16) & 1;
    proof {
        let p = packed;
        assert(p & 0x3F == p % 64 && (p >> 6u16) & 0x3F == (p / 64) % 64 && (p >> 12u16) & 0x07 == (p / 4096) % 8
            && (p >> 15u16) & 1 == (p / 32768) % 2) by (bit_vector);
    }
    let promotion = match promo_bits {
        1 => Some(PieceKind::Knight),
        2 => Some(PieceKind::Bishop),
        3 => Some(PieceKind::Rook),
        4 => Some(PieceKind::Queen),
        _ => None,
    };
    let mut is_castling = false;
    let mut is_en_passant = false;
    if special != 0 {
        if (from == 4 || from == 60) && (to as i16 - from as i16 == 2 || from as i16 - to as i16 == 2) {
            is_castling = true;
        } else {
            is_en_passant = true;
        }
    }
    Some(Move { from, to, promotion, is_castling, is_en_passant })
}

/// Packing then unpacking gives the move back, for every move on the board
/// that is not null (`a1a1`), promotes to a knight, bishop, rook or queen if
/// at all, and is castling only as a king's two-square step from e1 or e8
/// and en passant only otherwise.
pub proof fn lemma_pack_unpack(mv: Move)
    requires
        mv.from < 64,
        mv.to < 64,
        !(mv.from == 0 && mv.to == 0),
        mv.promotion matches Some(k) ==> k != PieceKind::Pawn && k != PieceKind::King,
        !(mv.is_castling && mv.is_en_passant),
        mv.is_castling ==> castling_step(mv.from as int, mv.to as int),
        mv.is_en_passant ==> !castling_step(mv.from as int, mv.to as int),
    ensures
        packed(mv) < 65536,
        unpacked(packed(mv) as u16) == Some(mv),
{
    let p = packed(mv);
    let f = mv.from as int;
    let t = mv.to as int;
    let c = promo_code(mv.promotion);
    let s: int = if mv.is_castling || mv.is_en_passant {
        1
    } else {
        0
    };
    assert(p == f + 64 * t + 4096 * c + 32768 * s);
    assert(p % 64 == f);
    assert((p / 64) % 64 == t);
    assert((p / 4096) % 8 == c);
    assert((p / 32768) % 2 == s);
    assert(promo_of_code(c) == mv.promotion);
}

/// The size in bytes of one slot.
pub const TT_ENTRY_BYTES: usize = 12;

/// The smallest power of two at least `n`, searching up from `p`.
pub open spec fn pow2_from(p: nat, n: nat) -> nat
    decreases n - p,
{
    if p == 0 || p >= n {
        p
    } else if 2 * p >= n {
        2 * p
    } else {
        pow2_from(2 * p, n)
    }
}

/// The number of slots of a table of `mb` megabytes: half the smallest
/// power of two at least the slots that fit, and at least 1024.
pub open spec fn slots_for(mb: nat) -> nat {
    let fit = mb * 1048576 / TT_ENTRY_BYTES as nat;
    let half = pow2_from(1, fit) / 2;
    if half > 1024 {
        half
    } else {
        1024
    }
}

fn slot_count(mb: usize) -> (n: usize)
    requires
        mb <= usize::MAX / 1048576,
    ensures
        n == slots_for(mb as nat),
        n >= 1024,
{
    let fit = mb * 1024 * 1024 / TT_ENTRY_BYTES;
    let mut p: usize = 1;
    while p < fit
        invariant
            1 <= p,
            fit <= usize::MAX / 12,
            pow2_from(p as nat, fit as nat) == pow2_from(1, fit as nat),
        decreases 2 * fit - p,
    {
        p = p * 2;
    }
    let half = p / 2;
    if half > 1024 {
        half
    } else {
        1024
    }
}

/// A transposition table: a power-of-two number of slots, indexed by the
/// low bits of the hash, each checked against the hash's upper 32 bits.
pub struct TranspositionTable {
    table: Vec<TTEntry>,
    mask: usize,
    generation: u8,
}

/// How many of the first `k` slots are used by generation `g`.
pub open spec fn used_in(slots: Seq<TTEntry>, g: u8, k: int) -> int
    decreases k,
{
    if k <= 0 {
        0
    } else {
        used_in(slots, g, k - 1) + (if slots[k - 1].depth > 0 && slots[k - 1].age == g {
            1int
        } else {
            0int
        })
    }
}

/// The slot a store writes.
pub open spec fn new_entry(hash: u64, depth: u8, score: i16, bound: Bound, best_move: u16, age: u8) -> TTEntry {
    TTEntry {
        key: (hash >> 32u64) as u32,
        best_move,
        score,
        depth,
        bound: bound_byte(bound),
        age,
        pad: 0,
    }
}

impl TranspositionTable {
    /// The slots.
    pub closed spec fn slots(&self) -> Seq<TTEntry> {
        self.table@
    }

    /// The current search generation.
    pub closed spec fn gen(&self) -> u8 {
        self.generation
    }

    /// The slot of a hash.
    pub closed spec fn index_of(&self, hash: u64) -> int {
        ((hash as usize) & self.mask) as int
    }

    /// The table is well formed: at least 1024 slots, the mask picks a slot.
    pub closed spec fn wf(&self) -> bool {
        &&& self.table.len() >= 1024
        &&& self.mask == self.table.len() - 1
        &&& forall|h: u64| 0 <= #[trigger] self.index_of(h) < self.table.len()
    }

    /// What a probe of `hash` finds: the slot of the hash, if it is used
    /// and holds the hash's upper 32 bits.
    pub open spec fn probe_spec(&self, hash: u64) -> Option<TTEntry> {
        let e = self.slots()[self.index_of(hash)];
        if e.depth > 0 && e.key == (hash >> 32u64) as u32 {
            Some(e)
        } else {
            None
        }
    }

    /// A store of `hash` at `depth` replaces the slot: it is empty, holds
    /// the same hash, is not deeper, or is from an older search.
    pub open spec fn replaces(&self, hash: u64, depth: u8) -> bool {
        let e = self.slots()[self.index_of(hash)];
        e.depth == 0 || e.key == (hash >> 32u64) as u32 || depth >= e.depth || e.age != self.gen()
    }

    proof fn lemma_index(mask: usize, h: u64)
        ensures
            (h as usize) & mask <= mask,
    {
        let x = h as usize;
        assert(x & mask <= mask) by (bit_vector);
    }

    /// A table of about `mb` megabytes, all slots empty.
    pub fn new(mb: usize) -> (tt: TranspositionTable)
        requires
            mb <= usize::MAX / 1048576,
        ensures
            tt.wf(),
            tt.slots().len() == slots_for(mb as nat),
            forall|i: int| 0 <= i < tt.slots().len() ==> #[trigger] tt.slots()[i].depth == 0,
            forall|h: u64| #[trigger] tt.probe_spec(h) is None,
            forall|h: u64, d: u8| #[trigger] tt.replaces(h, d),
            tt.gen() == 0,
    {
        let n = slot_count(mb);
        let table = vec![TTEntry::empty(); n];
        let tt = TranspositionTable { table, mask: n - 1, generation: 0 };
        proof {
            assert forall|h: u64| 0 <= #[trigger] tt.index_of(h) < tt.table.len() by {
                Self::lemma_index(tt.mask, h);
            }
            assert forall|h: u64| #[trigger] tt.probe_spec(h) is None by {
                assert(0 <= tt.index_of(h) < tt.table.len());
            }
            assert forall|h: u64, d: u8| #[trigger] tt.replaces(h, d) by {
                assert(0 <= tt.index_of(h) < tt.table.len());
            }
        }
        tt
    }

    /// The slot of every hash lies in a well-formed table.
    pub proof fn lemma_slot_in_table(&self, hash: u64)
        requires
            self.wf(),
        ensures
            0 <= self.index_of(hash) < self.slots().len(),
    {
    }

    fn index(&self, hash: u64) -> (i: usize)
        requires
            self.wf(),
        ensures
            i == self.index_of(hash),
            i < self.slots().len(),
    {
        proof {
            assert(0 <= self.index_of(hash) < self.table.len());
        }
        (hash as usize) & self.mask
    }

    /// The slot of `hash`, if it is used and holds the hash.
    pub fn probe(&self, hash: u64) -> (r: Option<&TTEntry>)
        requires
            self.wf(),
        ensures
            r matches Some(e) ==> self.probe_spec(hash) == Some(*e),
            r is None ==> self.probe_spec(hash) is None,
    {
        let idx = self.index(hash);
        let entry = &self.table[idx];
        if entry.depth > 0 && entry.key == (hash >> 32u64) as u32 {
            Some(entry)
        } else {
            None
        }
    }

    /// Stores a result in the slot of `hash` when it may replace it.
    pub fn store(&mut self, hash: u64, depth: u8, score: i16, bound: Bound, best_move: u16)
        requires
            old(self).wf(),
        ensures
            final(self).wf(),
            final(self).gen() == old(self).gen(),
            forall|h: u64| #[trigger] final(self).index_of(h) == old(self).index_of(h),
            final(self).slots() == if old(self).replaces(hash, depth) {
                old(self).slots().update(
                    old(self).index_of(hash),
                    new_entry(hash, depth, score, bound, best_move, old(self).gen()),
                )
            } else {
                old(self).slots()
            },
            old(self).replaces(hash, depth) && depth > 0 ==> final(self).probe_spec(hash) == Some(
                new_entry(hash, depth, score, bound, best_move, old(self).gen()),
            ),
            !old(self).replaces(hash, depth) ==> final(self).probe_spec(hash) == old(self).probe_spec(hash),
    {
        let idx = self.index(hash);
        let key32 = (hash >> 32u64) as u32;
        let existing = self.table[idx];
        if existing.depth == 0 || existing.key == key32 || depth >= existing.depth || existing.age != self.generation {
            let bound_byte: u8 = match bound {
                Bound::Exact => 0,
                Bound::Lower => 1,
                Bound::Upper => 2,
            };
            self.table.set(
                idx,
                TTEntry { key: key32, best_move, score, depth, bound: bound_byte, age: self.generation, pad: 0 },
            );
        }
        proof {
            assert forall|h: u64| 0 <= #[trigger] self.index_of(h) < self.table.len() by {
                assert(old(self).index_of(h) == self.index_of(h));
            }
        }
    }

    /// Starts a new search generation (wrapping after 255).
    pub fn new_search(&mut self)
        requires
            old(self).wf(),
        ensures
            final(self).wf(),
            final(self).slots() == old(self).slots(),
            forall|h: u64| #[trigger] final(self).index_of(h) == old(self).index_of(h),
            final(self).gen() == (if old(self).gen() == 255 {
                0
            } else {
                old(self).gen() + 1
            }),
    {
        self.generation = self.generation.wrapping_add(1);
        proof {
            assert forall|h: u64| 0 <= #[trigger] self.index_of(h) < self.table.len() by {
                assert(old(self).index_of(h) == self.index_of(h));
            }
        }
    }

    /// Empties every slot and restarts the generations.
    pub fn clear(&mut self)
        requires
            old(self).wf(),
        ensures
            final(self).wf(),
            final(self).slots().len() == old(self).slots().len(),
            forall|h: u64| #[trigger] final(self).index_of(h) == old(self).index_of(h),
            forall|i: int| 0 <= i < final(self).slots().len() ==> #[trigger] final(self).slots()[i].depth == 0,
            final(self).gen() == 0,
    {
        let mut i: usize = 0;
        let n = self.table.len();
        while i < n
            invariant
                n == self.table.len(),
                n == old(self).table.len(),
                self.mask == old(self).mask,
                i <= n,
                forall|j: int| 0 <= j < i ==> #[trigger] self.table@[j].depth == 0,
            decreases n - i,
        {
            self.table.set(i, TTEntry::empty());
            i = i + 1;
        }
        self.generation = 0;
        proof {
            assert forall|h: u64| 0 <= #[trigger] self.index_of(h) < self.table.len() by {
                assert(old(self).index_of(h) == self.index_of(h));
            }
        }
    }

    /// Replaces the table by an empty one of about `mb` megabytes.
    pub fn resize(&mut self, mb: usize)
        requires
            mb <= usize::MAX / 1048576,
        ensures
            final(self).wf(),
            final(self).slots().len() == slots_for(mb as nat),
            forall|i: int| 0 <= i < final(self).slots().len() ==> #[trigger] final(self).slots()[i].depth == 0,
            final(self).gen() == 0,
    {
        *self = TranspositionTable::new(mb);
    }

    /// Of the first (up to) 1000 slots, how many per thousand are used by
    /// the current search.
    pub fn hashfull(&self) -> (r: u32)
        requires
            self.wf(),
        ensures
            r == used_in(self.slots(), self.gen(), 1000),
    {
        let sample = if self.table.len() < 1000 {
            self.table.len()
        } else {
            1000
        };
        let mut used: u32 = 0;
        let mut i: usize = 0;
        while i < sample
            invariant
                sample == 1000,
                sample <= self.table.len(),
                i <= sample,
                used <= i,
                used == used_in(self.slots(), self.gen(), i as int),
            decreases sample - i,
        {
            let e = &self.table[i];
            if e.depth > 0 && e.age == self.generation {
                used = used + 1;
            }
            i = i + 1;
        }
        proof {
            assert((used * 1000) / 1000 == used) by (nonlinear_arith)
                requires
                    used <= 1000,
            ;
        }
        (used * 1000) / (sample as u32)
    }
}

/// After a store that replaces the slot, probing the same hash finds what
/// was stored (when the depth is not 0).
pub proof fn lemma_store_then_probe(
    slots: Seq<TTEntry>,
    idx: int,
    hash: u64,
    depth: u8,
    score: i16,
    bound: Bound,
    best_move: u16,
    age: u8,
)
    requires
        0 <= idx < slots.len(),
        depth > 0,
    ensures
        ({
            let e = slots.update(idx, new_entry(hash, depth, score, bound, best_move, age))[idx];
            e.depth > 0 && e.key == (hash >> 32u64) as u32 && e == new_entry(hash, depth, score, bound, best_move, age)
        }),
{
}

} // verus!
