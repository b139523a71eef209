use vstd::prelude::*;
use crate::bits::{bit, sq_in, group_bits};
use crate::types::Color;

verus! {

broadcast use group_bits;

// ---------------------------------------------------------------------------
// Board geometry
// ---------------------------------------------------------------------------

pub open spec fn file_of(s: int) -> int {
    s % 8
}

pub open spec fn rank_of(s: int) -> int {
    s / 8
}

pub open spec fn absd(x: int) -> int {
    if x < 0 {
        -x
    } else {
        x
    }
}

pub open spec fn is_square(s: int) -> bool {
    0 <= s < 64
}

/// A king on `s` attacks `t`.
pub open spec fn king_step(s: int, t: int) -> bool {
    &&& is_square(s)
    &&& is_square(t)
    &&& s != t
    &&& absd(file_of(t) - file_of(s)) <= 1
    &&& absd(rank_of(t) - rank_of(s)) <= 1
}

/// A knight on `s` attacks `t`.
pub open spec fn knight_step(s: int, t: int) -> bool {
    &&& is_square(s)
    &&& is_square(t)
    &&& ((absd(file_of(t) - file_of(s)) == 1 && absd(rank_of(t) - rank_of(s)) == 2) || (absd(
        file_of(t) - file_of(s),
    ) == 2 && absd(rank_of(t) - rank_of(s)) == 1))
}

/// The rank direction in which pawns of colour `c` advance.
pub open spec fn forward(c: Color) -> int {
    match c {
        Color::White => 1,
        Color::Black => -1,
    }
}

/// A pawn of colour `c` on `s` attacks `t`.
pub open spec fn pawn_attack_step(c: Color, s: int, t: int) -> bool {
    &&& is_square(s)
    &&& is_square(t)
    &&& absd(file_of(t) - file_of(s)) == 1
    &&& rank_of(t) - rank_of(s) == forward(c)
}

/// A pawn of colour `c` on `s` advances one square to `t`.
pub open spec fn pawn_push_step(c: Color, s: int, t: int) -> bool {
    &&& is_square(s)
    &&& is_square(t)
    &&& file_of(t) == file_of(s)
    &&& rank_of(t) - rank_of(s) == forward(c)
}

/// The rank from which pawns of colour `c` may advance two squares.
pub open spec fn pawn_start_rank(c: Color) -> int {
    match c {
        Color::White => 1,
        Color::Black => 6,
    }
}

/// A pawn of colour `c` on `s` advances two squares to `t` from its start rank.
pub open spec fn pawn_double_step(c: Color, s: int, t: int) -> bool {
    &&& is_square(s)
    &&& is_square(t)
    &&& file_of(t) == file_of(s)
    &&& rank_of(s) == pawn_start_rank(c)
    &&& rank_of(t) - rank_of(s) == 2 * forward(c)
}

// ---------------------------------------------------------------------------
// Rays of the sliding pieces
// ---------------------------------------------------------------------------

pub open spec fn scale(k: int, d: int) -> int {
    if d > 0 {
        k
    } else if d < 0 {
        -k
    } else {
        0
    }
}

pub open spec fn on_board(r: int, f: int) -> bool {
    0 <= r < 8 && 0 <= f < 8
}

/// The row of the square `k` steps from `s` in direction (`dr`, `df`).
pub open spec fn ray_rank(s: int, dr: int, k: int) -> int {
    rank_of(s) + scale(k, dr)
}

pub open spec fn ray_file(s: int, df: int, k: int) -> int {
    file_of(s) + scale(k, df)
}

pub open spec fn ray_on_board(s: int, dr: int, df: int, k: int) -> bool {
    on_board(ray_rank(s, dr, k), ray_file(s, df, k))
}

pub open spec fn ray_sq(s: int, dr: int, df: int, k: int) -> int {
    ray_rank(s, dr, k) * 8 + ray_file(s, df, k)
}

/// The squares 1 .. k-1 steps from `s` in the direction are all empty in `occ`.
pub open spec fn ray_clear(s: int, dr: int, df: int, occ: u64, k: int) -> bool {
    forall|j: int| 1 <= j < k ==> !#[trigger] sq_in(occ, ray_sq(s, dr, df, j))
}

/// A piece sliding from `s` in direction (`dr`, `df`) reaches `t`: `t` is on
/// the ray, on the board, and every square before it is empty.
pub open spec fn ray_reaches(s: int, dr: int, df: int, occ: u64, t: int) -> bool {
    exists|k: int|
        1 <= k && #[trigger] ray_on_board(s, dr, df, k) && ray_sq(s, dr, df, k) == t && ray_clear(
            s,
            dr,
            df,
            occ,
            k,
        )
}

/// A rook on `s` attacks `t` given the occupied squares `occ`.
pub open spec fn rook_attack(s: int, occ: u64, t: int) -> bool {
    ||| ray_reaches(s, 0, 1, occ, t)
    ||| ray_reaches(s, 0, -1, occ, t)
    ||| ray_reaches(s, 1, 0, occ, t)
    ||| ray_reaches(s, -1, 0, occ, t)
}

/// A bishop on `s` attacks `t` given the occupied squares `occ`.
pub open spec fn bishop_attack(s: int, occ: u64, t: int) -> bool {
    ||| ray_reaches(s, 1, 1, occ, t)
    ||| ray_reaches(s, 1, -1, occ, t)
    ||| ray_reaches(s, -1, 1, occ, t)
    ||| ray_reaches(s, -1, -1, occ, t)
}

/// A queen on `s` attacks `t` given the occupied squares `occ`.
pub open spec fn queen_attack(s: int, occ: u64, t: int) -> bool {
    rook_attack(s, occ, t) || bishop_attack(s, occ, t)
}

// ---------------------------------------------------------------------------
// Computing attack bitboards
// ---------------------------------------------------------------------------

/// Adding square `t` to a bitboard.
pub proof fn lemma_add_square(r: u64, t: u64)
    requires
        t < 64,
    ensures
        forall|i: int| #[trigger] sq_in(r | (1u64 << t), i) == (sq_in(r, i) || i == t),
{
    assert forall|i: int| #[trigger] sq_in(r | (1u64 << t), i) == (sq_in(r, i) || i == t) by {
        if 0 <= i < 64 {
            assert(bit(r | (1u64 << t), i as u64) == (bit(r, i as u64) || bit(1u64 << t, i as u64)));
        }
    }
}

pub enum Leaper {
    King,
    Knight,
    PawnAttack,
    PawnPush,
    PawnDouble,
}

pub open spec fn leaper_step(kind: Leaper, c: Color, s: int, t: int) -> bool {
    match kind {
        Leaper::King => king_step(s, t),
        Leaper::Knight => knight_step(s, t),
        Leaper::PawnAttack => pawn_attack_step(c, s, t),
        Leaper::PawnPush => pawn_push_step(c, s, t),
        Leaper::PawnDouble => pawn_double_step(c, s, t),
    }
}

fn udiff(a: u8, b: u8) -> (r: u8)
    ensures
        r == absd(a - b),
{
    if a > b {
        a - b
    } else {
        b - a
    }
}

fn leaper_step_exec(kind: &Leaper, c: Color, s: u8, t: u8) -> (r: bool)
    requires
        s < 64,
        t < 64,
    ensures
        r == leaper_step(*kind, c, s as int, t as int),
{
    let sf = s % 8;
    let sr = s / 8;
    let tf = t % 8;
    let tr = t / 8;
    let df = udiff(sf, tf);
    let dr = udiff(sr, tr);
    assert(absd(file_of(t as int) - file_of(s as int)) == df);
    assert(absd(rank_of(t as int) - rank_of(s as int)) == dr);
    match kind {
        Leaper::King => s != t && df <= 1 && dr <= 1,
        Leaper::Knight => (df == 1 && dr == 2) || (df == 2 && dr == 1),
        Leaper::PawnAttack => df == 1 && match c {
            Color::White => tr == sr + 1,
            Color::Black => tr + 1 == sr,
        },
        Leaper::PawnPush => tf == sf && match c {
            Color::White => tr == sr + 1,
            Color::Black => tr + 1 == sr,
        },
        Leaper::PawnDouble => tf == sf && match c {
            Color::White => sr == 1 && tr == 3,
            Color::Black => sr == 6 && tr == 4,
        },
    }
}

/// The bitboard of the squares that a leaping piece of the given kind and
/// colour reaches from `s`.
pub fn leaper_attacks(kind: Leaper, c: Color, s: u8) -> (r: u64)
    requires
        s < 64,
    ensures
        forall|t: int| #[trigger] sq_in(r, t) == leaper_step(kind, c, s as int, t),
{
    let mut r: u64 = 0;
    let mut t: u8 = 0;
    while t < 64
        invariant
            t <= 64,
            s < 64,
            forall|i: int| #[trigger] sq_in(r, i) == (0 <= i < t && leaper_step(kind, c, s as int, i)),
        decreases 64 - t,
    {
        if leaper_step_exec(&kind, c, s, t) {
            proof {
                lemma_add_square(r, t as u64);
            }
            r = r | (1u64 << t);
        }
        t = t + 1;
    }
    r
}


pub open spec fn is_dir(d: int) -> bool {
    -1 <= d <= 1
}

/// Once a ray leaves the board it does not come back.
proof fn lemma_ray_leaves(s: int, dr: int, df: int, k: int, m: int)
    requires
        is_square(s),
        is_dir(dr),
        is_dir(df),
        1 <= k <= m,
        ray_on_board(s, dr, df, m),
    ensures
        ray_on_board(s, dr, df, k),
{
}

/// Distinct steps along a ray give distinct squares.
proof fn lemma_ray_injective(s: int, dr: int, df: int, j: int, k: int)
    requires
        is_square(s),
        is_dir(dr),
        is_dir(df),
        dr != 0 || df != 0,
        ray_on_board(s, dr, df, j),
        ray_on_board(s, dr, df, k),
        ray_sq(s, dr, df, j) == ray_sq(s, dr, df, k),
    ensures
        j == k,
{
}

/// Adds to `acc` the squares that a piece on `sq` sliding in direction
/// (`dr`, `df`) reaches over the occupied squares `occupancy`.
pub fn ray_attacks(sq: u8, dr: i32, df: i32, occupancy: u64, acc: u64) -> (r: u64)
    requires
        sq < 64,
        is_dir(dr as int),
        is_dir(df as int),
        dr != 0 || df != 0,
    ensures
        forall|t: int|
            #[trigger] sq_in(r, t) == (sq_in(acc, t) || ray_reaches(
                sq as int,
                dr as int,
                df as int,
                occupancy,
                t,
            )),
{
    let ghost s = sq as int;
    let mut result = acc;
    let mut r: i32 = (sq / 8) as i32 + dr;
    let mut f: i32 = (sq % 8) as i32 + df;
    let ghost mut k: int = 1;
    let mut blocked = false;
    while !blocked && r >= 0 && r < 8 && f >= 0 && f < 8
        invariant
            is_square(s),
            s == sq,
            is_dir(dr as int),
            is_dir(df as int),
            dr != 0 || df != 0,
            1 <= k <= 9,
            r == ray_rank(s, dr as int, k),
            f == ray_file(s, df as int, k),
            !blocked ==> ray_clear(s, dr as int, df as int, occupancy, k),
            blocked ==> k >= 2 && ray_clear(s, dr as int, df as int, occupancy, k - 1) && sq_in(
                occupancy,
                ray_sq(s, dr as int, df as int, k - 1),
            ) && ray_on_board(s, dr as int, df as int, k - 1),
            forall|j: int| 1 <= j < k ==> #[trigger] ray_on_board(s, dr as int, df as int, j),
            forall|t: int|
                #[trigger] sq_in(result, t) == (sq_in(acc, t) || exists|j: int|
                    1 <= j < k && #[trigger] ray_sq(s, dr as int, df as int, j) == t),
        decreases 9 - k,
    {
        let target: u8 = (r * 8 + f) as u8;
        assert(target == ray_sq(s, dr as int, df as int, k));
        proof {
            lemma_add_square(result, target as u64);
        }
        let old_result = result;
        result = result | (1u64 << target);
        if (occupancy & (1u64 << target)) != 0 {
            blocked = true;
            assert(sq_in(occupancy, target as int));
        } else {
            assert forall|j: int| 1 <= j < k + 1 implies !#[trigger] sq_in(occupancy, ray_sq(s, dr as int, df as int, j)) by {
                if j == k {
                    assert(!sq_in(occupancy, target as int));
                }
            }
        }
        assert forall|t: int| #[trigger] sq_in(result, t) == (sq_in(acc, t) || exists|j: int|
                1 <= j < k + 1 && #[trigger] ray_sq(s, dr as int, df as int, j) == t) by {
            if t == target {
                assert(ray_sq(s, dr as int, df as int, k) == t);
            }
            if sq_in(old_result, t) {
            }
        }
        r = r + dr;
        f = f + df;
        proof {
            k = k + 1;
        }
    }
    proof {
        // The squares reached are exactly those before the end of the walk.
        let kk: int = if blocked { k - 1 } else { k };
        assert forall|t: int| #[trigger] sq_in(result, t) == (sq_in(acc, t) || ray_reaches(
            s,
            dr as int,
            df as int,
            occupancy,
            t,
        )) by {
            if ray_reaches(s, dr as int, df as int, occupancy, t) {
                let m = choose|m: int|
                    1 <= m && #[trigger] ray_on_board(s, dr as int, df as int, m) && ray_sq(
                        s,
                        dr as int,
                        df as int,
                        m,
                    ) == t && ray_clear(s, dr as int, df as int, occupancy, m);
                if m >= k {
                    if blocked {
                        assert(sq_in(occupancy, ray_sq(s, dr as int, df as int, k - 1)));
                    } else {
                        lemma_ray_leaves(s, dr as int, df as int, k, m);
                    }
                }
                assert(ray_sq(s, dr as int, df as int, m) == t);
            }
            if exists|j: int| 1 <= j < k && #[trigger] ray_sq(s, dr as int, df as int, j) == t {
                let j = choose|j: int| 1 <= j < k && #[trigger] ray_sq(s, dr as int, df as int, j) == t;
                assert(ray_on_board(s, dr as int, df as int, j));
                if blocked && j == k - 1 {
                    assert(ray_clear(s, dr as int, df as int, occupancy, j));
                } else {
                    assert(ray_clear(s, dr as int, df as int, occupancy, j));
                }
            }
        }
    }
    result
}


/// A ray seen from its far end: if `t` is reached from `s` in direction
/// (dr, df), then `s` is reached from `t` in direction (-dr, -df), over the
/// same empty squares.
pub proof fn lemma_ray_symmetric(s: int, dr: int, df: int, occ: u64, t: int)
    requires
        is_square(s),
        is_dir(dr),
        is_dir(df),
        ray_reaches(s, dr, df, occ, t),
    ensures
        ray_reaches(t, -dr, -df, occ, s),
{
    let k = choose|k: int|
        1 <= k && #[trigger] ray_on_board(s, dr, df, k) && ray_sq(s, dr, df, k) == t && ray_clear(
            s,
            dr,
            df,
            occ,
            k,
        );
    assert(rank_of(t) == ray_rank(s, dr, k));
    assert(file_of(t) == ray_file(s, df, k));
    assert(ray_on_board(t, -dr, -df, k));
    assert(ray_sq(t, -dr, -df, k) == s);
    assert forall|j: int| 1 <= j < k implies !#[trigger] sq_in(occ, ray_sq(t, -dr, -df, j)) by {
        assert(ray_sq(t, -dr, -df, j) == ray_sq(s, dr, df, k - j));
        assert(1 <= k - j < k);
        assert(!sq_in(occ, ray_sq(s, dr, df, k - j)));
    }
    assert(ray_clear(t, -dr, -df, occ, k));
}

/// Rook attacks are symmetric.
pub proof fn lemma_rook_attack_symmetric(s: int, occ: u64, t: int)
    requires
        is_square(s),
        is_square(t),
    ensures
        rook_attack(s, occ, t) == rook_attack(t, occ, s),
{
    if ray_reaches(s, 0, 1, occ, t) { lemma_ray_symmetric(s, 0, 1, occ, t); }
    if ray_reaches(s, 0, -1, occ, t) { lemma_ray_symmetric(s, 0, -1, occ, t); }
    if ray_reaches(s, 1, 0, occ, t) { lemma_ray_symmetric(s, 1, 0, occ, t); }
    if ray_reaches(s, -1, 0, occ, t) { lemma_ray_symmetric(s, -1, 0, occ, t); }
    if ray_reaches(t, 0, 1, occ, s) { lemma_ray_symmetric(t, 0, 1, occ, s); }
    if ray_reaches(t, 0, -1, occ, s) { lemma_ray_symmetric(t, 0, -1, occ, s); }
    if ray_reaches(t, 1, 0, occ, s) { lemma_ray_symmetric(t, 1, 0, occ, s); }
    if ray_reaches(t, -1, 0, occ, s) { lemma_ray_symmetric(t, -1, 0, occ, s); }
}

/// Bishop attacks are symmetric.
pub proof fn lemma_bishop_attack_symmetric(s: int, occ: u64, t: int)
    requires
        is_square(s),
        is_square(t),
    ensures
        bishop_attack(s, occ, t) == bishop_attack(t, occ, s),
{
    if ray_reaches(s, 1, 1, occ, t) { lemma_ray_symmetric(s, 1, 1, occ, t); }
    if ray_reaches(s, 1, -1, occ, t) { lemma_ray_symmetric(s, 1, -1, occ, t); }
    if ray_reaches(s, -1, 1, occ, t) { lemma_ray_symmetric(s, -1, 1, occ, t); }
    if ray_reaches(s, -1, -1, occ, t) { lemma_ray_symmetric(s, -1, -1, occ, t); }
    if ray_reaches(t, 1, 1, occ, s) { lemma_ray_symmetric(t, 1, 1, occ, s); }
    if ray_reaches(t, 1, -1, occ, s) { lemma_ray_symmetric(t, 1, -1, occ, s); }
    if ray_reaches(t, -1, 1, occ, s) { lemma_ray_symmetric(t, -1, 1, occ, s); }
    if ray_reaches(t, -1, -1, occ, s) { lemma_ray_symmetric(t, -1, -1, occ, s); }
}

} // verus!
