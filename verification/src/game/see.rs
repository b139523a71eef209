use vstd::prelude::*;
use crate::bits::{sq_in, single, group_bits};
use crate::board::Board;
use crate::types::{Color, PieceKind, Move};
use crate::intrinsics::lemma_clear_lowest;
use crate::game::check::{piece_attacks, occupancy};
use crate::moves::attacks::{lemma_rook_attack_symmetric, lemma_bishop_attack_symmetric};
use crate::moves::pawn::get_pawn_attackers;
use crate::moves::knight::get_knight_attacks;
use crate::moves::king::get_king_attacks;
use crate::moves::magic_bitboards::{get_bishop_attacks_magic, get_rook_attacks_magic};

verus! {

broadcast use group_bits;

/// The values of the pieces in an exchange.
pub open spec fn see_value(k: PieceKind) -> int {
    match k {
        PieceKind::Pawn => 100,
        PieceKind::Knight => 320,
        PieceKind::Bishop => 330,
        PieceKind::Rook => 500,
        PieceKind::Queen => 900,
        PieceKind::King => 20000,
    }
}

fn piece_value(kind: PieceKind) -> (r: i32)
    ensures
        r == see_value(kind),
{
    match kind {
        PieceKind::Pawn => 100,
        PieceKind::Knight => 320,
        PieceKind::Bishop => 330,
        PieceKind::Rook => 500,
        PieceKind::Queen => 900,
        PieceKind::King => 20000,
    }
}

/// The squares holding a piece of kind `k` and colour `c`, among the
/// occupied squares `occ`, that attack `s`.
pub open spec fn attackers_of_kind(b: Board, s: int, c: Color, occ: u64, k: PieceKind) -> Set<int> {
    Set::new(|a: int| sq_in(b.kind_bb(k) & b.color_bb(c) & occ, a) && piece_attacks(k, c, a, occ, s))
}

/// The lowest square of a set of squares.
pub open spec fn lowest_in(set: Set<int>) -> int {
    choose|a: int| set.contains(a) && forall|x: int| set.contains(x) ==> a <= x
}

/// The least valuable attacker of colour `c` on `s` given the occupied
/// squares `occ`: the first kind, in the order pawn, knight, bishop, rook,
/// queen, king, that has an attacker, and its lowest such square.
pub open spec fn lva_spec(b: Board, s: int, c: Color, occ: u64) -> Option<(int, PieceKind)> {
    let p = attackers_of_kind(b, s, c, occ, PieceKind::Pawn);
    let n = attackers_of_kind(b, s, c, occ, PieceKind::Knight);
    let bi = attackers_of_kind(b, s, c, occ, PieceKind::Bishop);
    let r = attackers_of_kind(b, s, c, occ, PieceKind::Rook);
    let q = attackers_of_kind(b, s, c, occ, PieceKind::Queen);
    let k = attackers_of_kind(b, s, c, occ, PieceKind::King);
    if p != Set::<int>::empty() {
        Some((lowest_in(p), PieceKind::Pawn))
    } else if n != Set::<int>::empty() {
        Some((lowest_in(n), PieceKind::Knight))
    } else if bi != Set::<int>::empty() {
        Some((lowest_in(bi), PieceKind::Bishop))
    } else if r != Set::<int>::empty() {
        Some((lowest_in(r), PieceKind::Rook))
    } else if q != Set::<int>::empty() {
        Some((lowest_in(q), PieceKind::Queen))
    } else if k != Set::<int>::empty() {
        Some((lowest_in(k), PieceKind::King))
    } else {
        None
    }
}

/// The gains of the exchange on `to` from step `d` on: the side `side`
/// recaptures with the least valuable attacker, taking a piece worth `cur`
/// after the previous gain `prev`; the exchange stops after 32 steps, when
/// neither side can gain by going on, or when `side` has no attacker left.
pub open spec fn swap_list(b: Board, to: int, side: Color, occ: u64, cur: int, prev: int, d: int) -> Seq<int>
    decreases 32 - d,
{
    if d >= 32 {
        Seq::empty()
    } else {
        let g = cur - prev;
        if (if -prev > g {
            -prev
        } else {
            g
        }) < 0 {
            Seq::empty()
        } else {
            match lva_spec(b, to, side, occ) {
                None => Seq::empty(),
                Some((a, k)) => seq![g] + swap_list(
                    b,
                    to,
                    side.flip(),
                    occ & !single(a),
                    see_value(k),
                    g,
                    d + 1,
                ),
            }
        }
    }
}

/// The value of gain `i` once each side may stop the exchange where it
/// suits it (gains `i` to `n - 1`).
pub open spec fn settle(g: Seq<int>, i: int, n: int) -> int
    decreases n - i,
{
    if i >= n - 1 {
        g[i]
    } else {
        let later = settle(g, i + 1, n);
        -(if -g[i] > later {
            -g[i]
        } else {
            later
        })
    }
}

/// The static exchange value of `mv`: the material the side to move wins
/// (negative: loses) by the capture and the best sequence of recaptures on
/// its square; 0 when `mv` takes nothing or no piece stands on its origin.
pub open spec fn see_spec(b: Board, mv: Move) -> int {
    let from = mv.from as int;
    let to = mv.to as int;
    let captured: Option<int> = if mv.is_en_passant {
        Some(100)
    } else {
        match b.piece_at(to) {
            Some(p) => Some(see_value(p.kind)),
            None => None,
        }
    };
    match captured {
        None => 0,
        Some(cv) => match b.piece_at(from) {
            None => 0,
            Some(att) => {
                let av = match mv.promotion {
                    Some(k) => see_value(k),
                    None => see_value(att.kind),
                };
                let g0 = match mv.promotion {
                    Some(k) => cv + see_value(k) - 100,
                    None => cv,
                };
                let gains = seq![g0] + swap_list(
                    b,
                    to,
                    att.color.flip(),
                    occupancy(b) & !single(from),
                    av,
                    g0,
                    1,
                );
                settle(gains, 0, gains.len() as int)
            },
        },
    }
}

/// The lowest square of a non-empty bitboard is the lowest member of its
/// set of squares.
proof fn lemma_lowest_is_tz(x: u64, set: Set<int>)
    requires
        x != 0,
        forall|a: int| #[trigger] set.contains(a) == sq_in(x, a),
    ensures
        set != Set::<int>::empty(),
        vstd::std_specs::bits::u64_trailing_zeros(x) < 64,
        lowest_in(set) == vstd::std_specs::bits::u64_trailing_zeros(x) as int,
{
    lemma_clear_lowest(x);
    let t = vstd::std_specs::bits::u64_trailing_zeros(x) as int;
    assert(set.contains(t));
    assert forall|y: int| set.contains(y) implies t <= y by {
        if y < t {
            assert(!sq_in(x, y));
        }
    }
    let a = lowest_in(set);
    assert(set.contains(a) && forall|y: int| set.contains(y) ==> a <= y);
    assert(a <= t && t <= a);
    assert(!Set::<int>::empty().contains(t));
}

/// An empty bitboard has no squares.
proof fn lemma_empty_set(x: u64, set: Set<int>)
    requires
        x == 0,
        forall|a: int| #[trigger] set.contains(a) == sq_in(x, a),
    ensures
        set == Set::<int>::empty(),
{
    assert forall|a: int| !set.contains(a) by {
        if 0 <= a < 64 {
            assert(!sq_in(0u64, a));
        }
    }
    assert(set =~= Set::<int>::empty());
}

fn max_i32(a: i32, b: i32) -> (r: i32)
    ensures
        r == (if a > b {
            a
        } else {
            b
        }),
{
    if a > b {
        a
    } else {
        b
    }
}

impl Board {
    /// The least valuable piece of `color` that attacks `square`, given the
    /// occupied squares `occupancy`: its square and kind.
    pub fn least_valuable_attacker(&self, square: u8, color: Color, occupancy: u64) -> (r: Option<(u8, PieceKind)>)
        requires
            square < 64,
        ensures
            r matches Some((a, k)) ==> lva_spec(*self, square as int, color, occupancy) == Some((a as int, k)) && a < 64,
            r is None ==> lva_spec(*self, square as int, color, occupancy) is None,
    {
        let ghost b = *self;
        let ghost s = square as int;
        let color_pieces = if color == Color::White {
            self.white_pieces
        } else {
            self.black_pieces
        };
        let active = color_pieces & occupancy;
        let pawn_attackers = get_pawn_attackers(square, color);
        let pawns = pawn_attackers & self.pawns & active;
        proof {
            assert(active == b.color_bb(color) & occupancy);
            assert forall|a: int| #[trigger] attackers_of_kind(b, s, color, occupancy, PieceKind::Pawn).contains(a)
                == sq_in(pawns, a) by {
                if 0 <= a < 64 {
                    assert(sq_in(pawn_attackers, a) == crate::moves::attacks::pawn_attack_step(color, a, s));
                    assert(sq_in(pawns, a) == (sq_in(pawn_attackers, a) && sq_in(self.pawns, a) && sq_in(color_pieces, a)
                        && sq_in(occupancy, a)));
                }
            }
        }
        if pawns != 0 {
            proof {
                lemma_lowest_is_tz(pawns, attackers_of_kind(b, s, color, occupancy, PieceKind::Pawn));
            }
            return Some((pawns.trailing_zeros() as u8, PieceKind::Pawn));
        }
        proof {
            lemma_empty_set(pawns, attackers_of_kind(b, s, color, occupancy, PieceKind::Pawn));
        }
        let knight_attacks = get_knight_attacks(square);
        let knights = knight_attacks & self.knights & active;
        proof {
            assert forall|a: int| #[trigger] attackers_of_kind(b, s, color, occupancy, PieceKind::Knight).contains(a)
                == sq_in(knights, a) by {
                if 0 <= a < 64 {
                    assert(sq_in(knight_attacks, a) == crate::moves::attacks::knight_step(s, a));
                    assert(sq_in(knights, a) == (sq_in(knight_attacks, a) && sq_in(self.knights, a) && sq_in(color_pieces, a)
                        && sq_in(occupancy, a)));
                }
            }
        }
        if knights != 0 {
            proof {
                lemma_lowest_is_tz(knights, attackers_of_kind(b, s, color, occupancy, PieceKind::Knight));
            }
            return Some((knights.trailing_zeros() as u8, PieceKind::Knight));
        }
        proof {
            lemma_empty_set(knights, attackers_of_kind(b, s, color, occupancy, PieceKind::Knight));
        }
        let bishop_attacks = get_bishop_attacks_magic(square, occupancy);
        let bishops = bishop_attacks & self.bishops & active;
        proof {
            assert forall|a: int| #[trigger] attackers_of_kind(b, s, color, occupancy, PieceKind::Bishop).contains(a)
                == sq_in(bishops, a) by {
                if 0 <= a < 64 {
                    lemma_bishop_attack_symmetric(s, occupancy, a);
                    assert(sq_in(bishops, a) == (sq_in(bishop_attacks, a) && sq_in(self.bishops, a) && sq_in(color_pieces, a)
                        && sq_in(occupancy, a)));
                }
            }
        }
        if bishops != 0 {
            proof {
                lemma_lowest_is_tz(bishops, attackers_of_kind(b, s, color, occupancy, PieceKind::Bishop));
            }
            return Some((bishops.trailing_zeros() as u8, PieceKind::Bishop));
        }
        proof {
            lemma_empty_set(bishops, attackers_of_kind(b, s, color, occupancy, PieceKind::Bishop));
        }
        let rook_attacks = get_rook_attacks_magic(square, occupancy);
        let rooks = rook_attacks & self.rooks & active;
        proof {
            assert forall|a: int| #[trigger] attackers_of_kind(b, s, color, occupancy, PieceKind::Rook).contains(a)
                == sq_in(rooks, a) by {
                if 0 <= a < 64 {
                    lemma_rook_attack_symmetric(s, occupancy, a);
                    assert(sq_in(rooks, a) == (sq_in(rook_attacks, a) && sq_in(self.rooks, a) && sq_in(color_pieces, a)
                        && sq_in(occupancy, a)));
                }
            }
        }
        if rooks != 0 {
            proof {
                lemma_lowest_is_tz(rooks, attackers_of_kind(b, s, color, occupancy, PieceKind::Rook));
            }
            return Some((rooks.trailing_zeros() as u8, PieceKind::Rook));
        }
        proof {
            lemma_empty_set(rooks, attackers_of_kind(b, s, color, occupancy, PieceKind::Rook));
        }
        let queen_attacks = bishop_attacks | rook_attacks;
        let queens = queen_attacks & self.queens & active;
        proof {
            assert forall|a: int| #[trigger] attackers_of_kind(b, s, color, occupancy, PieceKind::Queen).contains(a)
                == sq_in(queens, a) by {
                if 0 <= a < 64 {
                    lemma_rook_attack_symmetric(s, occupancy, a);
                    lemma_bishop_attack_symmetric(s, occupancy, a);
                    assert(sq_in(queens, a) == ((sq_in(bishop_attacks, a) || sq_in(rook_attacks, a)) && sq_in(self.queens, a)
                        && sq_in(color_pieces, a) && sq_in(occupancy, a)));
                }
            }
        }
        if queens != 0 {
            proof {
                lemma_lowest_is_tz(queens, attackers_of_kind(b, s, color, occupancy, PieceKind::Queen));
            }
            return Some((queens.trailing_zeros() as u8, PieceKind::Queen));
        }
        proof {
            lemma_empty_set(queens, attackers_of_kind(b, s, color, occupancy, PieceKind::Queen));
        }
        let king_attacks = get_king_attacks(square);
        let kings = king_attacks & self.kings & active;
        proof {
            assert forall|a: int| #[trigger] attackers_of_kind(b, s, color, occupancy, PieceKind::King).contains(a)
                == sq_in(kings, a) by {
                if 0 <= a < 64 {
                    assert(sq_in(king_attacks, a) == crate::moves::attacks::king_step(s, a));
                    assert(sq_in(kings, a) == (sq_in(king_attacks, a) && sq_in(self.kings, a) && sq_in(color_pieces, a)
                        && sq_in(occupancy, a)));
                }
            }
        }
        if kings != 0 {
            proof {
                lemma_lowest_is_tz(kings, attackers_of_kind(b, s, color, occupancy, PieceKind::King));
            }
            return Some((kings.trailing_zeros() as u8, PieceKind::King));
        }
        proof {
            lemma_empty_set(kings, attackers_of_kind(b, s, color, occupancy, PieceKind::King));
        }
        None
    }

    /// Static exchange evaluation: the material the side to move wins
    /// (positive) or loses (negative) by playing the capture `mv` and the
    /// best sequence of recaptures on its square.
    pub fn see(&self, mv: Move) -> (r: i32)
        requires
            self.wf(),
            mv.from < 64,
            mv.to < 64,
        ensures
            r == see_spec(*self, mv),
    {
        let from = mv.from;
        let to = mv.to;
        let captured_value: i32 = if mv.is_en_passant {
            100
        } else {
            match self.get_piece_at(to) {
                Some(piece) => piece_value(piece.kind),
                None => {
                    return 0;
                },
            }
        };
        let attacker_piece = match self.get_piece_at(from) {
            Some(p) => p,
            None => {
                return 0;
            },
        };
        let attacker_value = match mv.promotion {
            Some(promo) => piece_value(promo),
            None => piece_value(attacker_piece.kind),
        };
        let mut gain: Vec<i32> = vec![0i32; 32];
        let mut depth_idx: usize = 0;
        let g0: i32 = match mv.promotion {
            Some(promo) => captured_value + piece_value(promo) - 100,
            None => captured_value,
        };
        gain.set(0, g0);
        let mut occ = (self.white_pieces | self.black_pieces) & !(1u64 << (from as u64));
        let mut side = attacker_piece.color.opposite();
        let mut current_attacker_value = attacker_value;
        let ghost full = seq![g0 as int] + swap_list(*self, to as int, side, occ, attacker_value as int, g0 as int, 1);
        let ghost mut pre: Seq<int> = seq![g0 as int];
        proof {
            assert(full == pre + swap_list(*self, to as int, side, occ, current_attacker_value as int, pre.last(), 1));
        }
        loop
            invariant_except_break
                depth_idx < 32,
                gain.len() == 32,
                pre.len() == depth_idx + 1,
                forall|j: int| 0 <= j <= depth_idx ==> gain@[j] == pre[j],
                forall|j: int| 0 <= j <= depth_idx ==> -40000 - 20000 * j <= #[trigger] gain@[j] <= 40000 + 20000 * j,
                0 <= current_attacker_value <= 20000,
                to < 64,
                full == pre + swap_list(
                    *self,
                    to as int,
                    side,
                    occ,
                    current_attacker_value as int,
                    pre.last(),
                    depth_idx + 1,
                ),
            ensures
                1 <= depth_idx <= 32,
                gain.len() == 32,
                full == pre,
                pre.len() == depth_idx,
                forall|j: int| 0 <= j < depth_idx ==> gain@[j] == pre[j],
                forall|j: int| 0 <= j < depth_idx ==> -700000 <= #[trigger] gain@[j] <= 700000,
            decreases 32 - depth_idx,
        {
            depth_idx += 1;
            if depth_idx >= 32 {
                proof {
                    assert(full =~= pre);
                }
                break;
            }
            let prev = gain[depth_idx - 1];
            let g = current_attacker_value - prev;
            gain.set(depth_idx, g);
            if max_i32(-prev, g) < 0 {
                proof {
                    assert(full =~= pre);
                }
                break;
            }
            match self.least_valuable_attacker(to, side, occ) {
                Some((attacker_sq, attacker_kind)) => {
                    let ghost old_pre = pre;
                    let ghost rest = swap_list(
                        *self,
                        to as int,
                        side.flip(),
                        occ & !single(attacker_sq as int),
                        see_value(attacker_kind),
                        g as int,
                        depth_idx + 1,
                    );
                    occ = occ & !(1u64 << (attacker_sq as u64));
                    current_attacker_value = piece_value(attacker_kind);
                    side = side.opposite();
                    proof {
                        pre = pre.push(g as int);
                        assert(full == old_pre + (seq![g as int] + rest));
                        assert(old_pre + (seq![g as int] + rest) =~= pre + rest);
                    }
                },
                None => {
                    proof {
                        assert(full =~= pre);
                    }
                    break;
                },
            }
        }
        let ghost n = depth_idx as int;
        while depth_idx > 1
            invariant
                1 <= depth_idx <= n,
                n <= 32,
                gain.len() == 32,
                full.len() == n,
                forall|j: int| 0 <= j < depth_idx - 1 ==> gain@[j] == full[j],
                gain@[depth_idx - 1] == settle(full, depth_idx - 1, n),
                forall|j: int| 0 <= j < n ==> -700000 <= #[trigger] gain@[j] <= 700000,
            decreases depth_idx,
        {
            depth_idx -= 1;
            let v = -max_i32(-gain[depth_idx - 1], gain[depth_idx]);
            gain.set(depth_idx - 1, v);
        }
        gain[0]
    }

    /// Whether the static exchange value of `mv` is at least `threshold`.
    pub fn see_ge(&self, mv: Move, threshold: i32) -> (r: bool)
        requires
            self.wf(),
            mv.from < 64,
            mv.to < 64,
        ensures
            r == (see_spec(*self, mv) >= threshold),
    {
        self.see(mv) >= threshold
    }
}

} // verus!
