use vstd::prelude::*;
use vstd::string::StringSliceAdditionalSpecFns;
use crate::bits::{sq_in, group_bits};
use crate::board::Board;
use crate::types::{Color, PieceKind, Piece};
use crate::game::check::check_cache_ok;

verus! {

broadcast use group_bits;

/// Why a FEN string was refused: the field that is malformed.
#[derive(Debug, Clone, Copy, PartialEq, Eq, Structural)]
pub enum FenError {
    /// The piece placement: unknown character, or ranks that do not hold
    /// exactly eight squares each, or not eight ranks.
    Placement,
    /// The side to move is missing or is not `w` or `b`.
    SideToMove,
    /// The castling field is missing or is neither `-` nor made of `KQkq`.
    Castling,
    /// The en passant field is missing or is neither `-` nor a square.
    EnPassant,
    /// The half-move clock is not a number up to 65535.
    HalfmoveClock,
    /// The full-move number is not a number, or text follows it.
    FullmoveNumber,
}

/// The piece a FEN letter stands for.
pub open spec fn piece_of_byte(c: u8) -> Option<Piece> {
    if c == 80 {
        Some(Piece { kind: PieceKind::Pawn, color: Color::White })
    } else if c == 78 {
        Some(Piece { kind: PieceKind::Knight, color: Color::White })
    } else if c == 66 {
        Some(Piece { kind: PieceKind::Bishop, color: Color::White })
    } else if c == 82 {
        Some(Piece { kind: PieceKind::Rook, color: Color::White })
    } else if c == 81 {
        Some(Piece { kind: PieceKind::Queen, color: Color::White })
    } else if c == 75 {
        Some(Piece { kind: PieceKind::King, color: Color::White })
    } else if c == 112 {
        Some(Piece { kind: PieceKind::Pawn, color: Color::Black })
    } else if c == 110 {
        Some(Piece { kind: PieceKind::Knight, color: Color::Black })
    } else if c == 98 {
        Some(Piece { kind: PieceKind::Bishop, color: Color::Black })
    } else if c == 114 {
        Some(Piece { kind: PieceKind::Rook, color: Color::Black })
    } else if c == 113 {
        Some(Piece { kind: PieceKind::Queen, color: Color::Black })
    } else if c == 107 {
        Some(Piece { kind: PieceKind::King, color: Color::Black })
    } else {
        None
    }
}

/// The piece a FEN letter stands for.
pub fn piece_from_byte(c: u8) -> (r: Option<Piece>)
    ensures
        r == piece_of_byte(c),
{
    match c {
        80u8 => Some(Piece { kind: PieceKind::Pawn, color: Color::White }),
        78u8 => Some(Piece { kind: PieceKind::Knight, color: Color::White }),
        66u8 => Some(Piece { kind: PieceKind::Bishop, color: Color::White }),
        82u8 => Some(Piece { kind: PieceKind::Rook, color: Color::White }),
        81u8 => Some(Piece { kind: PieceKind::Queen, color: Color::White }),
        75u8 => Some(Piece { kind: PieceKind::King, color: Color::White }),
        112u8 => Some(Piece { kind: PieceKind::Pawn, color: Color::Black }),
        110u8 => Some(Piece { kind: PieceKind::Knight, color: Color::Black }),
        98u8 => Some(Piece { kind: PieceKind::Bishop, color: Color::Black }),
        114u8 => Some(Piece { kind: PieceKind::Rook, color: Color::Black }),
        113u8 => Some(Piece { kind: PieceKind::Queen, color: Color::Black }),
        107u8 => Some(Piece { kind: PieceKind::King, color: Color::Black }),
        _ => None,
    }
}

/// The end of the field that starts at `i`: the next space, or the end.
pub open spec fn field_end(s: Seq<u8>, i: int) -> int
    decreases s.len() - i,
{
    if i >= s.len() || s[i] == 32 {
        i
    } else {
        field_end(s, i + 1)
    }
}

/// The placement from position `i` on is well formed, the cursor standing
/// on rank `r` (7 to 0), file `f` (0 to 8): digits 1 to 8 skip squares,
/// `/` goes to the next rank once the rank is full, a letter puts a piece;
/// at the end of the field the last rank must be full.
pub open spec fn place_ok(s: Seq<u8>, i: int, r: int, f: int) -> bool
    decreases s.len() - i,
{
    if i < 0 || i >= s.len() || s[i] == 32 {
        r == 0 && f == 8
    } else {
        let c = s[i];
        if 49 <= c <= 56 {
            f + (c - 48) <= 8 && place_ok(s, i + 1, r, f + (c - 48))
        } else if c == 47 {
            f == 8 && r > 0 && place_ok(s, i + 1, r - 1, 0)
        } else if piece_of_byte(c) is Some {
            f < 8 && place_ok(s, i + 1, r, f + 1)
        } else {
            false
        }
    }
}

/// The piece the placement from position `i` on (cursor on rank `r`, file
/// `f`) puts on square `t`.
pub open spec fn piece_on(s: Seq<u8>, i: int, r: int, f: int, t: int) -> Option<Piece>
    decreases s.len() - i,
{
    if i < 0 || i >= s.len() || s[i] == 32 {
        None
    } else {
        let c = s[i];
        if 49 <= c <= 56 {
            piece_on(s, i + 1, r, f + (c - 48), t)
        } else if c == 47 {
            piece_on(s, i + 1, r - 1, 0, t)
        } else if piece_of_byte(c) is Some {
            if f < 8 && t == r * 8 + f {
                piece_of_byte(c)
            } else {
                piece_on(s, i + 1, r, f + 1, t)
            }
        } else {
            None
        }
    }
}

/// Square `t` comes before the cursor (rank `r`, file `f`): ranks are
/// filled from the eighth down, files from a to h.
pub open spec fn passed(r: int, f: int, t: int) -> bool {
    t / 8 > r || (t / 8 == r && t % 8 < f)
}

/// The placement puts nothing on squares the cursor has passed.
pub proof fn lemma_piece_on_passed(s: Seq<u8>, i: int, r: int, f: int, t: int)
    requires
        0 <= t < 64,
        0 <= f,
        passed(r, f, t),
    ensures
        piece_on(s, i, r, f, t) is None,
    decreases s.len() - i,
{
    if i < 0 || i >= s.len() || s[i] == 32 {
    } else {
        let c = s[i];
        if 49 <= c <= 56 {
            lemma_piece_on_passed(s, i + 1, r, f + (c - 48), t);
        } else if c == 47 {
            lemma_piece_on_passed(s, i + 1, r - 1, 0, t);
        } else if piece_of_byte(c) is Some {
            lemma_piece_on_passed(s, i + 1, r, f + 1, t);
        }
    }
}

/// The side-to-move field `s[i..j]`.
pub open spec fn side_of(s: Seq<u8>, i: int, j: int) -> Option<Color> {
    if j == i + 1 && s[i] == 119 {
        Some(Color::White)
    } else if j == i + 1 && s[i] == 98 {
        Some(Color::Black)
    } else {
        None
    }
}

/// The castling right a letter stands for.
pub open spec fn castle_bit(c: u8) -> Option<u8> {
    if c == 75 {
        Some(1u8)
    } else if c == 81 {
        Some(2u8)
    } else if c == 107 {
        Some(4u8)
    } else if c == 113 {
        Some(8u8)
    } else {
        None
    }
}

/// The rights named by the letters `s[i..j]`.
pub open spec fn rights_run(s: Seq<u8>, i: int, j: int) -> Option<u8>
    decreases j - i,
{
    if i >= j {
        Some(0u8)
    } else {
        match castle_bit(s[j - 1]) {
            None => None,
            Some(bit) => match rights_run(s, i, j - 1) {
                None => None,
                Some(r) => Some(r | bit),
            },
        }
    }
}

/// The castling field `s[i..j]`: `-`, or one or more of `KQkq`.
pub open spec fn castling_of(s: Seq<u8>, i: int, j: int) -> Option<u8> {
    if j == i + 1 && s[i] == 45 {
        Some(0u8)
    } else if j > i {
        rights_run(s, i, j)
    } else {
        None
    }
}

/// The en passant field `s[i..j]`: `-`, or a square such as `e3`.
pub open spec fn ep_of(s: Seq<u8>, i: int, j: int) -> Option<Option<u8>> {
    if j == i + 1 && s[i] == 45 {
        Some(None)
    } else if j == i + 2 && 97 <= s[i] <= 104 && 49 <= s[i + 1] <= 56 {
        Some(Some(((s[i + 1] - 49) * 8 + (s[i] - 97)) as u8))
    } else {
        None
    }
}

/// Every byte of `s[i..j]` is a decimal digit.
pub open spec fn all_digits(s: Seq<u8>, i: int, j: int) -> bool {
    forall|k: int| i <= k < j ==> 48 <= #[trigger] s[k] <= 57
}

/// The decimal value of the digits `s[i..j]`.
pub open spec fn digits_value(s: Seq<u8>, i: int, j: int) -> int
    decreases j - i,
{
    if j <= i {
        0
    } else {
        digits_value(s, i, j - 1) * 10 + (s[j - 1] - 48)
    }
}

/// The half-move clock field `s[i..j]`: a number up to 65535.
pub open spec fn clock_of(s: Seq<u8>, i: int, j: int) -> Option<u16> {
    if j > i && all_digits(s, i, j) && digits_value(s, i, j) <= 65535 {
        Some(digits_value(s, i, j) as u16)
    } else {
        None
    }
}

/// The fields of a FEN string after the placement: side to move, castling
/// rights, en passant target and half-move clock, or the first field in
/// error. The fields are separated by single spaces; the clock and the
/// full-move number may be left out (the clock is then 0).
pub open spec fn fen_fields(s: Seq<u8>) -> Result<(Color, u8, Option<u8>, u16), FenError> {
    let p = field_end(s, 0);
    if !place_ok(s, 0, 7, 0) {
        Err(FenError::Placement)
    } else if p >= s.len() {
        Err(FenError::SideToMove)
    } else {
        let a = p + 1;
        let ae = field_end(s, a);
        match side_of(s, a, ae) {
            None => Err(FenError::SideToMove),
            Some(side) => if ae >= s.len() {
                Err(FenError::Castling)
            } else {
                let c = ae + 1;
                let ce = field_end(s, c);
                match castling_of(s, c, ce) {
                    None => Err(FenError::Castling),
                    Some(rights) => if ce >= s.len() {
                        Err(FenError::EnPassant)
                    } else {
                        let e = ce + 1;
                        let ee = field_end(s, e);
                        match ep_of(s, e, ee) {
                            None => Err(FenError::EnPassant),
                            Some(ep) => if ee >= s.len() {
                                Ok((side, rights, ep, 0u16))
                            } else {
                                let h = ee + 1;
                                let he = field_end(s, h);
                                match clock_of(s, h, he) {
                                    None => Err(FenError::HalfmoveClock),
                                    Some(clock) => if he >= s.len() {
                                        Ok((side, rights, ep, clock))
                                    } else {
                                        let m = he + 1;
                                        let me = field_end(s, m);
                                        if me == s.len() && me > m && all_digits(s, m, me) {
                                            Ok((side, rights, ep, clock))
                                        } else {
                                            Err(FenError::FullmoveNumber)
                                        }
                                    },
                                }
                            },
                        }
                    },
                }
            },
        }
    }
}

/// `b` is the position the FEN string `s` describes.
pub open spec fn fen_board(s: Seq<u8>, b: Board) -> bool {
    match fen_fields(s) {
        Ok((side, rights, ep, clock)) => {
            &&& b.wf()
            &&& forall|t: int| 0 <= t < 64 ==> #[trigger] b.piece_at(t) == piece_on(s, 0, 7, 0, t)
            &&& b.to_move == side
            &&& b.castling_rights == rights
            &&& b.en_passant_target == ep
            &&& b.halfmove_clock == clock
            &&& b.hash_ok()
            &&& check_cache_ok(b)
        },
        Err(_) => false,
    }
}

/// OR-ing a castling bit keeps the rights below 16.
proof fn lemma_rights_small(r: u8, bit: u8)
    requires
        r < 16,
        bit == 1 || bit == 2 || bit == 4 || bit == 8,
    ensures
        r | bit < 16,
{
    assert((r < 16 && (bit == 1 || bit == 2 || bit == 4 || bit == 8)) ==> r | bit < 16) by (bit_vector);
}

/// Castling rights named by letters are below 16.
proof fn lemma_rights_run_small(s: Seq<u8>, i: int, j: int)
    ensures
        rights_run(s, i, j) matches Some(r) ==> r < 16,
    decreases j - i,
{
    if i < j {
        lemma_rights_run_small(s, i, j - 1);
        if let Some(bit) = castle_bit(s[j - 1]) {
            if let Some(r) = rights_run(s, i, j - 1) {
                lemma_rights_small(r, bit);
            }
        }
    }
}

/// A bad letter spoils every longer run of castling letters.
proof fn lemma_rights_run_none(s: Seq<u8>, i: int, k: int, j: int)
    requires
        k <= j,
        rights_run(s, i, k) is None,
    ensures
        rights_run(s, i, j) is None,
    decreases j - k,
{
    if k < j {
        lemma_rights_run_none(s, i, k, j - 1);
    }
}

/// The end of the field of `s` that starts at `i`.
fn field_end_exec(s: &[u8], i: usize) -> (j: usize)
    requires
        i <= s@.len(),
    ensures
        j as int == field_end(s@, i as int),
        i <= j <= s@.len(),
{
    let mut j = i;
    while j < s.len() && s[j] != 32u8
        invariant
            i <= j <= s@.len(),
            field_end(s@, i as int) == field_end(s@, j as int),
        decreases s@.len() - j,
    {
        j = j + 1;
    }
    j
}

impl Board {
    /// The board without pieces: white to move, no castling rights, no en
    /// passant target, clock and hash 0, no king in check.
    pub fn empty() -> (b: Board)
        ensures
            b.wf(),
            forall|t: int| 0 <= t < 64 ==> #[trigger] b.piece_at(t) is None,
            b.to_move == Color::White,
            b.castling_rights == 0,
            b.en_passant_target is None,
            b.halfmove_clock == 0,
            b.zobrist_hash == 0,
            !b.white_king_in_check,
            !b.black_king_in_check,
    {
        let b = Board {
            pawns: 0,
            knights: 0,
            bishops: 0,
            rooks: 0,
            queens: 0,
            kings: 0,
            white_pieces: 0,
            black_pieces: 0,
            to_move: Color::White,
            castling_rights: 0,
            en_passant_target: None,
            halfmove_clock: 0,
            zobrist_hash: 0,
            white_king_in_check: false,
            black_king_in_check: false,
        };
        assert forall|t: int| 0 <= t < 64 implies !#[trigger] sq_in(0u64, t) by {}
        b
    }

    /// The pieces of the placement field of `s`, on an otherwise empty board.
    fn parse_placement(s: &[u8]) -> (r: Option<Board>)
        ensures
            r is Some <==> place_ok(s@, 0, 7, 0),
            r matches Some(b) ==> {
                &&& b.wf()
                &&& forall|t: int| 0 <= t < 64 ==> #[trigger] b.piece_at(t) == piece_on(s@, 0, 7, 0, t)
                &&& b.to_move == Color::White
                &&& b.castling_rights == 0
                &&& b.en_passant_target is None
                &&& b.halfmove_clock == 0
            },
    {
        let mut b = Board::empty();
        let mut i: usize = 0;
        let mut r: u8 = 7;
        let mut f: u8 = 0;
        while i < s.len() && s[i] != 32u8
            invariant
                i <= s@.len(),
                r <= 7,
                f <= 8,
                place_ok(s@, 0, 7, 0) == place_ok(s@, i as int, r as int, f as int),
                b.wf(),
                b.to_move == Color::White,
                b.castling_rights == 0,
                b.en_passant_target is None,
                b.halfmove_clock == 0,
                forall|t: int|
                    0 <= t < 64 ==> #[trigger] piece_on(s@, 0, 7, 0, t) == if passed(r as int, f as int, t) {
                        b.piece_at(t)
                    } else {
                        piece_on(s@, i as int, r as int, f as int, t)
                    },
                forall|t: int| 0 <= t < 64 && !passed(r as int, f as int, t) ==> #[trigger] b.piece_at(t) is None,
            decreases s@.len() - i,
        {
            let c = s[i];
            if 49u8 <= c && c <= 56u8 {
                let d = c - 48u8;
                if f + d > 8 {
                    return None;
                }
                let ghost f0 = f as int;
                f = f + d;
                proof {
                    assert forall|t: int| 0 <= t < 64 && passed(r as int, f as int, t) && !passed(r as int, f0, t) implies piece_on(
                        s@,
                        i + 1,
                        r as int,
                        f as int,
                        t,
                    ) is None by {
                        lemma_piece_on_passed(s@, i + 1, r as int, f as int, t);
                    }
                }
            } else if c == 47u8 {
                if f != 8 || r == 0 {
                    return None;
                }
                r = r - 1;
                f = 0;
            } else {
                match piece_from_byte(c) {
                    Some(p) => {
                        if f >= 8 {
                            return None;
                        }
                        let sq = r * 8 + f;
                        proof {
                            assert(!passed(r as int, f as int, sq as int));
                        }
                        let ghost before = b;
                        b.put_piece(sq, p);
                        f = f + 1;
                        proof {
                            assert forall|t: int| 0 <= t < 64 && passed(r as int, f as int, t) && t != sq implies passed(
                                r as int,
                                (f - 1) as int,
                                t,
                            ) by {}
                        }
                    },
                    None => {
                        return None;
                    },
                }
            }
            i = i + 1;
        }
        if !(r == 0 && f == 8) {
            return None;
        }
        Some(b)
    }

    /// The position a FEN string describes, or the first malformed field.
    pub fn from_fen_bytes(s: &[u8]) -> (r: Result<Board, FenError>)
        ensures
            match r {
                Ok(b) => fen_board(s@, b),
                Err(e) => fen_fields(s@) == Err::<(Color, u8, Option<u8>, u16), FenError>(e),
            },
    {
        let p = field_end_exec(s, 0);
        let mut board = match Board::parse_placement(s) {
            Some(b) => b,
            None => {
                return Err(FenError::Placement);
            },
        };
        if p >= s.len() {
            return Err(FenError::SideToMove);
        }
        let a = p + 1;
        let ae = field_end_exec(s, a);
        let side = if ae > a && ae - a == 1 && s[a] == 119u8 {
            Color::White
        } else if ae > a && ae - a == 1 && s[a] == 98u8 {
            Color::Black
        } else {
            return Err(FenError::SideToMove);
        };
        if ae >= s.len() {
            return Err(FenError::Castling);
        }
        let c = ae + 1;
        let ce = field_end_exec(s, c);
        let rights = match parse_castling(s, c, ce) {
            Some(r) => r,
            None => {
                return Err(FenError::Castling);
            },
        };
        if ce >= s.len() {
            return Err(FenError::EnPassant);
        }
        let e = ce + 1;
        let ee = field_end_exec(s, e);
        let ep = match parse_en_passant(s, e, ee) {
            Some(t) => t,
            None => {
                return Err(FenError::EnPassant);
            },
        };
        let mut clock: u16 = 0;
        if ee < s.len() {
            let h = ee + 1;
            let he = field_end_exec(s, h);
            clock = match parse_clock(s, h, he) {
                Some(v) => v,
                None => {
                    return Err(FenError::HalfmoveClock);
                },
            };
            if he < s.len() {
                let m = he + 1;
                let me = field_end_exec(s, m);
                if !(me == s.len() && me > m && digits_only(s, m, me)) {
                    return Err(FenError::FullmoveNumber);
                }
            }
        }
        let ghost b0 = board;
        board.to_move = side;
        board.castling_rights = rights;
        board.en_passant_target = ep;
        board.halfmove_clock = clock;
        proof {
            assert forall|x: int| 0 <= x < 64 implies #[trigger] board.square_wf(x) by {
                assert(b0.square_wf(x));
            }
        }
        let ghost b1 = board;
        board.zobrist_hash = board.compute_hash();
        proof {
            assert forall|x: int| 0 <= x < 64 implies #[trigger] board.square_wf(x) by {
                assert(b1.square_wf(x));
            }
        }
        let ghost b2 = board;
        board.update_check_cache();
        proof {
            Board::lemma_pieces_hash_same(b1, b2, 64);
            Board::lemma_pieces_hash_same(b2, board, 64);
            assert(b2.hash_ok());
            assert(board.hash_ok());
            assert forall|t: int| 0 <= t < 64 implies #[trigger] board.piece_at(t) == piece_on(s@, 0, 7, 0, t) by {
                assert(b0.piece_at(t) == piece_on(s@, 0, 7, 0, t));
                assert(b2.piece_at(t) == b0.piece_at(t));
            }
            assert(fen_fields(s@) == Ok::<(Color, u8, Option<u8>, u16), FenError>((side, rights, ep, clock)));
        }
        Ok(board)
    }
}

impl Board {
    /// The position a FEN string describes, or the first malformed field.
    pub fn from_fen(fen: &str) -> (r: Result<Board, FenError>)
        ensures
            match r {
                Ok(b) => fen_board(fen.spec_bytes(), b),
                Err(e) => fen_fields(fen.spec_bytes()) == Err::<(Color, u8, Option<u8>, u16), FenError>(e),
            },
    {
        Board::from_fen_bytes(fen.as_bytes())
    }
}

/// The castling field `s[i..j]`.
fn parse_castling(s: &[u8], i: usize, j: usize) -> (r: Option<u8>)
    requires
        i <= j <= s@.len(),
    ensures
        r == castling_of(s@, i as int, j as int),
        r matches Some(v) ==> v < 16,
{
    if j > i && j - i == 1 && s[i] == 45u8 {
        return Some(0);
    }
    if j <= i {
        return None;
    }
    let mut acc: u8 = 0;
    let mut k = i;
    while k < j
        invariant
            i <= k <= j,
            j <= s@.len(),
            rights_run(s@, i as int, k as int) == Some(acc),
            acc < 16,
            !(j == i + 1 && s@[i as int] == 45),
        decreases j - k,
    {
        let bit: u8 = match s[k] {
            75u8 => 1,
            81u8 => 2,
            107u8 => 4,
            113u8 => 8,
            _ => {
                proof {
                    assert(rights_run(s@, i as int, k + 1) is None);
                    lemma_rights_run_none(s@, i as int, k + 1, j as int);
                    assert(!(j == i + 1 && s@[i as int] == 45));
                    assert(castling_of(s@, i as int, j as int) is None);
                }
                return None;
            },
        };
        assert(castle_bit(s@[k as int]) == Some(bit));
        proof {
            lemma_rights_small(acc, bit);
        }
        acc = acc | bit;
        k = k + 1;
    }
    Some(acc)
}

/// The en passant field `s[i..j]`.
fn parse_en_passant(s: &[u8], i: usize, j: usize) -> (r: Option<Option<u8>>)
    requires
        i <= j <= s@.len(),
    ensures
        r == ep_of(s@, i as int, j as int),
        r matches Some(Some(t)) ==> t < 64,
{
    if j > i && j - i == 1 && s[i] == 45u8 {
        return Some(None);
    }
    if j > i && j - i == 2 && 97u8 <= s[i] && s[i] <= 104u8 && 49u8 <= s[i + 1] && s[i + 1] <= 56u8 {
        return Some(Some((s[i + 1] - 49u8) * 8 + (s[i] - 97u8)));
    }
    None
}

/// Whether `s[i..j]` holds only decimal digits.
fn digits_only(s: &[u8], i: usize, j: usize) -> (r: bool)
    requires
        i <= j <= s@.len(),
    ensures
        r == all_digits(s@, i as int, j as int),
{
    let mut k = i;
    while k < j
        invariant
            i <= k <= j,
            j <= s@.len(),
            all_digits(s@, i as int, k as int),
        decreases j - k,
    {
        if !(48u8 <= s[k] && s[k] <= 57u8) {
            return false;
        }
        k = k + 1;
    }
    true
}

/// The half-move clock field `s[i..j]`.
fn parse_clock(s: &[u8], i: usize, j: usize) -> (r: Option<u16>)
    requires
        i <= j <= s@.len(),
    ensures
        r == clock_of(s@, i as int, j as int),
{
    if j <= i {
        return None;
    }
    let mut v: u32 = 0;
    let mut k = i;
    while k < j
        invariant
            i <= k <= j,
            j <= s@.len(),
            all_digits(s@, i as int, k as int),
            v == if digits_value(s@, i as int, k as int) < 65536 {
                digits_value(s@, i as int, k as int)
            } else {
                65536
            },
        decreases j - k,
    {
        let c = s[k];
        if !(48u8 <= c && c <= 57u8) {
            return None;
        }
        let nv = v * 10 + (c - 48u8) as u32;
        v = if nv > 65536 {
            65536
        } else {
            nv
        };
        k = k + 1;
    }
    if v > 65535 {
        None
    } else {
        Some(v as u16)
    }
}

} // verus!
