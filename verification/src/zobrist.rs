use vstd::prelude::*;
use crate::types::{Color, PieceKind, kind_index, color_index};
use std::hash::{Hash, Hasher};
use std::collections::hash_map::DefaultHasher;

verus! {

/// The 64-bit value that std's `DefaultHasher` (created by `new`) gives for
/// a `u64` seed hashed with `Hash::hash`.
pub uninterp spec fn zobrist_seed_hash(seed: u64) -> u64;

/// Hashes `seed` with std's `DefaultHasher` (`DefaultHasher::new`, then
/// `u64::hash`, then `finish`). Claimed: the result is `zobrist_seed_hash(seed)`,
/// the same value for the same seed; nothing is claimed about the value itself.
#[verifier::external_body]
fn hash_value(seed: u64) -> (r: u64)
    ensures
        r == zobrist_seed_hash(seed),
{
    let mut hasher = DefaultHasher::new();
    seed.hash(&mut hasher);
    hasher.finish()
}

/// The key of a piece of colour `c` and kind `k` on square `s`.
pub open spec fn piece_key_spec(c: Color, k: PieceKind, s: int) -> u64 {
    zobrist_seed_hash((color_index(c) * 384 + kind_index(k) * 64 + s) as u64)
}

/// The key of the castling rights `r` (0..16).
pub open spec fn castling_key_spec(r: int) -> u64 {
    zobrist_seed_hash((768 + r) as u64)
}

/// The key of an en passant target on file `f` (0..8).
pub open spec fn en_passant_key_spec(f: int) -> u64 {
    zobrist_seed_hash((784 + f) as u64)
}

/// The key that marks Black to move.
pub open spec fn side_key_spec() -> u64 {
    zobrist_seed_hash(792u64)
}

/// The Zobrist key of a piece on a square.
pub fn piece_key(c: Color, k: PieceKind, s: u8) -> (r: u64)
    requires
        s < 64,
    ensures
        r == piece_key_spec(c, k, s as int),
{
    let seed: u64 = color_to_index(c) as u64 * 384 + piece_to_index(k) as u64 * 64 + s as u64;
    hash_value(seed)
}

/// The Zobrist key of the castling rights.
pub fn castling_key(rights: u8) -> (r: u64)
    requires
        rights < 16,
    ensures
        r == castling_key_spec(rights as int),
{
    hash_value(768 + rights as u64)
}

/// The Zobrist key of an en passant file.
pub fn en_passant_key(file: u8) -> (r: u64)
    requires
        file < 8,
    ensures
        r == en_passant_key_spec(file as int),
{
    hash_value(784 + file as u64)
}

/// The Zobrist key that marks Black to move.
pub fn side_key() -> (r: u64)
    ensures
        r == side_key_spec(),
{
    hash_value(792)
}

/// All Zobrist keys, drawn from a deterministic sequence of seeds:
/// pieces first (colour, kind, square), then castling rights, then en
/// passant files, then the side to move.
pub struct ZobristKeys {
    pub pieces: [[[u64; 64]; 6]; 2],
    pub castling: [u64; 16],
    pub en_passant: [u64; 8],
    pub side_to_move: u64,
}

impl ZobristKeys {
    pub open spec fn keys_ok(&self) -> bool {
        &&& forall|c: int, k: int, s: int|
            0 <= c < 2 && 0 <= k < 6 && 0 <= s < 64 ==> #[trigger] self.pieces[c][k][s]
                == zobrist_seed_hash((c * 384 + k * 64 + s) as u64)
        &&& forall|i: int| 0 <= i < 16 ==> #[trigger] self.castling[i] == zobrist_seed_hash((768 + i) as u64)
        &&& forall|i: int| 0 <= i < 8 ==> #[trigger] self.en_passant[i] == zobrist_seed_hash((784 + i) as u64)
        &&& self.side_to_move == zobrist_seed_hash(792u64)
    }

    pub fn new() -> (keys: Self)
        ensures
            keys.keys_ok(),
    {
        let mut keys = ZobristKeys {
            pieces: [[[0u64; 64]; 6]; 2],
            castling: [0u64; 16],
            en_passant: [0u64; 8],
            side_to_move: 0,
        };
        let mut counter: u64 = 0;
        let mut color: usize = 0;
        while color < 2
            invariant
                color <= 2,
                counter == color * 384,
                forall|c: int, k: int, s: int|
                    0 <= c < color && 0 <= k < 6 && 0 <= s < 64 ==> #[trigger] keys.pieces[c][k][s]
                        == zobrist_seed_hash((c * 384 + k * 64 + s) as u64),
            decreases 2 - color,
        {
            let mut piece: usize = 0;
            while piece < 6
                invariant
                    color < 2,
                    piece <= 6,
                    counter == color * 384 + piece * 64,
                    forall|c: int, k: int, s: int|
                        0 <= c < 2 && 0 <= k < 6 && 0 <= s < 64 && (c < color || (c == color && k < piece))
                            ==> #[trigger] keys.pieces[c][k][s] == zobrist_seed_hash(
                            (c * 384 + k * 64 + s) as u64,
                        ),
                decreases 6 - piece,
            {
                let mut square: usize = 0;
                while square < 64
                    invariant
                        color < 2,
                        piece < 6,
                        square <= 64,
                        counter == color * 384 + piece * 64 + square,
                        forall|c: int, k: int, s: int|
                            0 <= c < 2 && 0 <= k < 6 && 0 <= s < 64 && (c < color || (c == color
                                && k < piece) || (c == color && k == piece && s < square))
                                ==> #[trigger] keys.pieces[c][k][s] == zobrist_seed_hash(
                                (c * 384 + k * 64 + s) as u64,
                            ),
                    decreases 64 - square,
                {
                    let v = hash_value(counter);
                    keys.pieces[color][piece][square] = v;
                    counter = counter + 1;
                    square = square + 1;
                }
                piece = piece + 1;
            }
            color = color + 1;
        }
        let mut i: usize = 0;
        while i < 16
            invariant
                i <= 16,
                counter == 768 + i,
                forall|j: int| 0 <= j < i ==> #[trigger] keys.castling[j] == zobrist_seed_hash((768 + j) as u64),
                forall|c: int, k: int, s: int|
                    0 <= c < 2 && 0 <= k < 6 && 0 <= s < 64 ==> #[trigger] keys.pieces[c][k][s]
                        == zobrist_seed_hash((c * 384 + k * 64 + s) as u64),
            decreases 16 - i,
        {
            keys.castling[i] = hash_value(counter);
            counter = counter + 1;
            i = i + 1;
        }
        let mut i: usize = 0;
        while i < 8
            invariant
                i <= 8,
                counter == 784 + i,
                forall|j: int| 0 <= j < i ==> #[trigger] keys.en_passant[j] == zobrist_seed_hash((784 + j) as u64),
                forall|j: int| 0 <= j < 16 ==> #[trigger] keys.castling[j] == zobrist_seed_hash((768 + j) as u64),
                forall|c: int, k: int, s: int|
                    0 <= c < 2 && 0 <= k < 6 && 0 <= s < 64 ==> #[trigger] keys.pieces[c][k][s]
                        == zobrist_seed_hash((c * 384 + k * 64 + s) as u64),
            decreases 8 - i,
        {
            keys.en_passant[i] = hash_value(counter);
            counter = counter + 1;
            i = i + 1;
        }
        keys.side_to_move = hash_value(counter);
        keys
    }
}

pub fn piece_to_index(piece_kind: PieceKind) -> (r: usize)
    ensures
        r == kind_index(piece_kind),
{
    match piece_kind {
        PieceKind::Pawn => 0,
        PieceKind::Knight => 1,
        PieceKind::Bishop => 2,
        PieceKind::Rook => 3,
        PieceKind::Queen => 4,
        PieceKind::King => 5,
    }
}

pub fn color_to_index(color: Color) -> (r: usize)
    ensures
        r == color_index(color),
{
    match color {
        Color::White => 0,
        Color::Black => 1,
    }
}

} // verus!
