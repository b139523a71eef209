use vstd::prelude::*;

verus! {

/// A bitboard: bit 0 is a1, bit 1 is b1, ..., bit 63 is h8.
pub type Bitboard = u64;

/// The colour of a piece or of a player.
#[derive(Debug, Clone, Copy, PartialEq, Eq, Hash, Structural)]
pub enum Color {
    White,
    Black,
}

impl Color {
    /// The other colour.
    pub open spec fn flip(self) -> Color {
        match self {
            Color::White => Color::Black,
            Color::Black => Color::White,
        }
    }

    /// The other colour.
    pub fn opposite(self) -> (r: Color)
        ensures
            r == self.flip(),
    {
        match self {
            Color::White => Color::Black,
            Color::Black => Color::White,
        }
    }

    /// The colour as one little-endian byte: 0 for White, 1 for Black.
    pub fn to_le_bytes(self) -> (r: [u8; 1])
        ensures
            r@ == seq![color_byte(self)],
    {
        let b: u8 = match self {
            Color::White => 0,
            Color::Black => 1,
        };
        let r = [b];
        assert(r@ =~= seq![color_byte(self)]);
        r
    }
}

/// The byte that stands for a colour.
pub open spec fn color_byte(c: Color) -> u8 {
    match c {
        Color::White => 0u8,
        Color::Black => 1u8,
    }
}

impl From<Color> for u8 {
    fn from(color: Color) -> (r: u8) {
        match color {
            Color::White => 0,
            Color::Black => 1,
        }
    }
}

impl vstd::std_specs::convert::FromSpecImpl<Color> for u8 {
    open spec fn obeys_from_spec() -> bool {
        true
    }

    open spec fn from_spec(v: Color) -> u8 {
        color_byte(v)
    }
}

/// The kind of a chess piece.
#[derive(Debug, Clone, Copy, PartialEq, Eq, Structural)]
pub enum PieceKind {
    Pawn,
    Knight,
    Bishop,
    Rook,
    Queen,
    King,
}

/// The material value of a piece kind, in centipawns.
pub open spec fn kind_value(k: PieceKind) -> i32 {
    match k {
        PieceKind::Pawn => 100,
        PieceKind::Knight => 320,
        PieceKind::Bishop => 330,
        PieceKind::Rook => 500,
        PieceKind::Queen => 900,
        PieceKind::King => 20000,
    }
}

/// The index of a piece kind: pawn 0, knight 1, bishop 2, rook 3, queen 4, king 5.
pub open spec fn kind_index(k: PieceKind) -> int {
    match k {
        PieceKind::Pawn => 0,
        PieceKind::Knight => 1,
        PieceKind::Bishop => 2,
        PieceKind::Rook => 3,
        PieceKind::Queen => 4,
        PieceKind::King => 5,
    }
}

/// The index of a colour: white 0, black 1.
pub open spec fn color_index(c: Color) -> int {
    match c {
        Color::White => 0,
        Color::Black => 1,
    }
}

impl PieceKind {
    /// The material value of the piece kind, in centipawns.
    pub fn value(&self) -> (r: i32)
        ensures
            r == kind_value(*self),
    {
        match self {
            PieceKind::Pawn => 100,
            PieceKind::Knight => 320,
            PieceKind::Bishop => 330,
            PieceKind::Rook => 500,
            PieceKind::Queen => 900,
            PieceKind::King => 20000,
        }
    }
}

/// State saved by a move so that it can be taken back.
#[derive(Debug, Clone, Copy)]
pub struct UndoInfo {
    pub captured_piece: Option<PieceKind>,
    pub captured_square: u8,
    pub old_castling_rights: u8,
    pub old_en_passant_target: Option<u8>,
    pub old_halfmove_clock: u16,
    pub old_zobrist_hash: u64,
    pub old_white_king_in_check: bool,
    pub old_black_king_in_check: bool,
}

/// A piece on the board: its kind and its colour.
#[derive(Debug, Clone, Copy, PartialEq, Eq, Structural)]
pub struct Piece {
    pub kind: PieceKind,
    pub color: Color,
}

impl Piece {
    pub fn new(kind: PieceKind, color: Color) -> (r: Self)
        ensures
            r == (Piece { kind, color }),
    {
        Piece { kind, color }
    }

    pub fn piece_type(&self) -> (r: PieceKind)
        ensures
            r == self.kind,
    {
        self.kind
    }
}

/// A move: origin and destination squares, the promotion piece, and whether
/// it castles or takes en passant.
#[derive(Debug, Clone, Copy, PartialEq, Eq, Structural)]
pub struct Move {
    pub from: u8,
    pub to: u8,
    pub promotion: Option<PieceKind>,
    pub is_castling: bool,
    pub is_en_passant: bool,
}

} // verus!
