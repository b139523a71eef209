use vstd::prelude::*;
use vstd::std_specs::bits::{u64_trailing_zeros, axiom_u64_trailing_zeros};
use crate::bits::sq_in;
use crate::board::Board;
use crate::types::{Color, PieceKind, Move, UndoInfo, kind_index};
use crate::engine::eval::nnue::{wrap32, kind_at_index};
use crate::nnue::{NNUE, FEATURE_SIZE, HIDDEN_SIZE_1, wrap_to_i32};

verus! {

broadcast use crate::bits::group_bits;

/// The square of the (lowest) king of colour `c`, if it has one.
pub open spec fn king_square(b: Board, c: Color) -> Option<int> {
    let kb = b.kings & b.color_bb(c);
    if kb == 0 {
        None
    } else {
        Some(u64_trailing_zeros(kb) as int)
    }
}

/// The input of a piece of kind `k` and colour `c` on `piece_sq`, with the
/// king of its side on `king_sq`: kind, colour, the king's rank and the
/// piece's file.
pub open spec fn halfkp_index(king_sq: int, piece_sq: int, k: PieceKind, c: Color) -> int {
    kind_index(k) * 128 + (if c == Color::White {
        0int
    } else {
        64int
    }) + (king_sq / 8) * 8 + piece_sq % 8
}

/// What slot `t` adds to accumulator neuron `i`: slots run over White
/// then Black, for each colour pawns to queens, for each kind the squares;
/// an occupied slot of a side with a king adds the weight of its input.
pub open spec fn slot_term(n: NNUE, b: Board, t: int, i: int) -> int {
    let c = if t < 320 {
        Color::White
    } else {
        Color::Black
    };
    let k = kind_at_index((t % 320) / 64);
    let s = t % 64;
    match king_square(b, c) {
        None => 0,
        Some(ks) => if sq_in(b.kind_bb(k) & b.color_bb(c), s) {
            n.feature_weights@[halfkp_index(ks, s, k, c) * 512 + i] as int
        } else {
            0
        },
    }
}

/// The sum of what the first `t` slots add to neuron `i`.
pub open spec fn slots_upto(n: NNUE, b: Board, i: int, t: int) -> int
    decreases t,
{
    if t <= 0 {
        0
    } else {
        slots_upto(n, b, i, t - 1) + slot_term(n, b, t - 1, i)
    }
}

/// Accumulator neuron `i` for `b` computed afresh: its bias plus the
/// weights of the pawns, knights, bishops, rooks and queens of each side
/// that has a king, in 32-bit wrapping arithmetic.
pub open spec fn refreshed(n: NNUE, b: Board, i: int) -> int {
    wrap32(n.feature_bias@[i] + slots_upto(n, b, i, 640))
}

/// The piece that made `mv`, read from `b` after it: a pawn for a
/// promotion, otherwise what stands on the destination (a pawn if
/// nothing does).
pub open spec fn moved_kind(b: Board, mv: Move) -> PieceKind {
    if mv.promotion is Some {
        PieceKind::Pawn
    } else {
        match b.piece_at(mv.to as int) {
            Some(p) => p.kind,
            None => PieceKind::Pawn,
        }
    }
}

/// The change `mv` makes to neuron `i`, measured with the king of the side
/// to move on `b` (after the move): the moved piece leaves its origin and
/// arrives, promoted if so, on its destination, and the captured piece
/// leaves its square.
pub open spec fn move_delta(n: NNUE, b: Board, mv: Move, undo: UndoInfo, i: int) -> int {
    match king_square(b, b.to_move) {
        None => 0,
        Some(ks) => {
            let mover = b.to_move.flip();
            let moved = moved_kind(b, mv);
            let dest = match mv.promotion {
                Some(p) => p,
                None => moved,
            };
            let from_w = n.feature_weights@[halfkp_index(ks, mv.from as int, moved, mover) * 512 + i] as int;
            let to_w = n.feature_weights@[halfkp_index(ks, mv.to as int, dest, mover) * 512 + i] as int;
            let cap_w = match undo.captured_piece {
                Some(ck) => n.feature_weights@[halfkp_index(
                    ks,
                    undo.captured_square as int,
                    ck,
                    b.to_move,
                ) * 512 + i] as int,
                None => 0,
            };
            to_w - from_w - cap_w
        },
    }
}

/// The first layer of the network, kept up to date move by move: its
/// neurons, whether it must be computed afresh, and the hash of the
/// position it stands for.
pub struct NNUEAccumulator {
    pub accumulator: Vec<i32>,
    pub needs_refresh: bool,
    pub cached_hash: u64,
}

impl NNUEAccumulator {
    /// An accumulator of 512 zero neurons that must be computed afresh.
    pub fn new() -> (a: Self)
        ensures
            a.accumulator@.len() == HIDDEN_SIZE_1,
            forall|i: int| 0 <= i < HIDDEN_SIZE_1 ==> #[trigger] a.accumulator@[i] == 0,
            a.needs_refresh,
            a.cached_hash == 0,
    {
        let mut accumulator: Vec<i32> = Vec::new();
        let mut i: usize = 0;
        while i < HIDDEN_SIZE_1
            invariant
                i <= HIDDEN_SIZE_1,
                accumulator@.len() == i,
                forall|k: int| 0 <= k < i ==> #[trigger] accumulator@[k] == 0,
            decreases HIDDEN_SIZE_1 - i,
        {
            accumulator.push(0);
            i = i + 1;
        }
        NNUEAccumulator { accumulator, needs_refresh: true, cached_hash: 0 }
    }

    /// The square of the king of `color`, if it has one.
    fn find_king_square(&self, board: &Board, color: Color) -> (r: Option<u8>)
        ensures
            match r {
                Some(s) => king_square(*board, color) == Some(s as int) && s < 64,
                None => king_square(*board, color) is None,
            },
    {
        let color_pieces = if color == Color::White {
            board.white_pieces
        } else {
            board.black_pieces
        };
        let king_bb = board.kings & color_pieces;
        if king_bb == 0 {
            None
        } else {
            proof {
                axiom_u64_trailing_zeros(king_bb);
            }
            Some(king_bb.trailing_zeros() as u8)
        }
    }

    /// The input of a piece of kind `piece_kind` and colour `piece_color`
    /// on `piece_sq` with its king on `king_sq`.
    fn calculate_halfkp_index(&self, king_sq: u8, piece_sq: u8, piece_kind: PieceKind, piece_color: Color) -> (r: usize)
        requires
            king_sq < 64,
        ensures
            r == halfkp_index(king_sq as int, piece_sq as int, piece_kind, piece_color),
            r < FEATURE_SIZE,
    {
        let piece_type_idx: usize = match piece_kind {
            PieceKind::Pawn => 0,
            PieceKind::Knight => 1,
            PieceKind::Bishop => 2,
            PieceKind::Rook => 3,
            PieceKind::Queen => 4,
            PieceKind::King => 5,
        };
        let piece_color_idx: usize = match piece_color {
            Color::White => 0,
            Color::Black => 1,
        };
        let king_bucket = (king_sq / 8) as usize;
        piece_type_idx * 128 + piece_color_idx * 64 + king_bucket * 8 + (piece_sq % 8) as usize
    }

    /// Computes the accumulator afresh for `board`: every neuron from its
    /// bias and the pieces on the board (neurons past the 512th become 0),
    /// then marks it up to date for the board's hash.
    pub fn refresh_full(&mut self, nnue: &NNUE, board: &Board)
        requires
            nnue.shape_ok(),
            old(self).accumulator@.len() >= HIDDEN_SIZE_1,
        ensures
            final(self).accumulator@.len() == old(self).accumulator@.len(),
            forall|i: int| 0 <= i < HIDDEN_SIZE_1 ==> #[trigger] final(self).accumulator@[i] == refreshed(*nnue, *board, i),
            forall|i: int|
                HIDDEN_SIZE_1 <= i < final(self).accumulator@.len() ==> #[trigger] final(self).accumulator@[i] == 0,
            !final(self).needs_refresh,
            final(self).cached_hash == board.zobrist_hash,
    {
        let mut sums: Vec<i64> = Vec::new();
        let mut i: usize = 0;
        while i < HIDDEN_SIZE_1
            invariant
                nnue.shape_ok(),
                i <= HIDDEN_SIZE_1,
                sums@.len() == i,
                forall|k: int| 0 <= k < i ==> #[trigger] sums@[k] == nnue.feature_bias@[k],
            decreases HIDDEN_SIZE_1 - i,
        {
            sums.push(nnue.feature_bias[i] as i64);
            i = i + 1;
        }
        let white_king = self.find_king_square(board, Color::White);
        let black_king = self.find_king_square(board, Color::Black);
        let mut t: usize = 0;
        while t < 640
            invariant
                nnue.shape_ok(),
                t <= 640,
                sums@.len() == HIDDEN_SIZE_1,
                match white_king {
                    Some(s) => king_square(*board, Color::White) == Some(s as int) && s < 64,
                    None => king_square(*board, Color::White) is None,
                },
                match black_king {
                    Some(s) => king_square(*board, Color::Black) == Some(s as int) && s < 64,
                    None => king_square(*board, Color::Black) is None,
                },
                forall|m: int|
                    0 <= m < HIDDEN_SIZE_1 ==> #[trigger] sums@[m] == nnue.feature_bias@[m] + slots_upto(
                        *nnue,
                        *board,
                        m,
                        t as int,
                    ),
                forall|m: int|
                    0 <= m < HIDDEN_SIZE_1 ==> -0x8000_0000 - 0x8000 * t <= #[trigger] sums@[m] <= 0x8000_0000
                        + 0x8000 * t,
            decreases 640 - t,
        {
            let color = if t < 320 {
                Color::White
            } else {
                Color::Black
            };
            let ki = (t % 320) / 64;
            let kind = if ki == 0 {
                PieceKind::Pawn
            } else if ki == 1 {
                PieceKind::Knight
            } else if ki == 2 {
                PieceKind::Bishop
            } else if ki == 3 {
                PieceKind::Rook
            } else {
                PieceKind::Queen
            };
            assert(kind == kind_at_index(ki as int));
            let s: usize = t % 64;
            let kind_bb = match kind {
                PieceKind::Pawn => board.pawns,
                PieceKind::Knight => board.knights,
                PieceKind::Bishop => board.bishops,
                PieceKind::Rook => board.rooks,
                PieceKind::Queen => board.queens,
                PieceKind::King => board.kings,
            };
            let color_bb = match color {
                Color::White => board.white_pieces,
                Color::Black => board.black_pieces,
            };
            let king = match color {
                Color::White => white_king,
                Color::Black => black_king,
            };
            let occupied = (kind_bb & color_bb) & (1u64 << (s as u64)) != 0;
            match king {
                Some(ks) => {
                    if occupied {
                        let f = self.calculate_halfkp_index(ks, s as u8, kind, color);
                        let mut m: usize = 0;
                        while m < HIDDEN_SIZE_1
                            invariant
                                nnue.shape_ok(),
                                t < 640,
                                f < FEATURE_SIZE,
                                f == halfkp_index(ks as int, (t % 64) as int, kind_at_index(((t % 320) / 64) as int), color),
                                king_square(*board, color) == Some(ks as int),
                                color == (if t < 320 {
                                    Color::White
                                } else {
                                    Color::Black
                                }),
                                sq_in(board.kind_bb(kind_at_index(((t % 320) / 64) as int)) & board.color_bb(color), (t % 64) as int),
                                m <= HIDDEN_SIZE_1,
                                sums@.len() == HIDDEN_SIZE_1,
                                forall|j: int|
                                    0 <= j < m ==> #[trigger] sums@[j] == nnue.feature_bias@[j] + slots_upto(
                                        *nnue,
                                        *board,
                                        j,
                                        t + 1,
                                    ),
                                forall|j: int|
                                    m <= j < HIDDEN_SIZE_1 ==> #[trigger] sums@[j] == nnue.feature_bias@[j] + slots_upto(
                                        *nnue,
                                        *board,
                                        j,
                                        t as int,
                                    ),
                                forall|j: int|
                                    0 <= j < m ==> -0x8000_0000 - 0x8000 * (t + 1) <= #[trigger] sums@[j] <= 0x8000_0000
                                        + 0x8000 * (t + 1),
                                forall|j: int|
                                    m <= j < HIDDEN_SIZE_1 ==> -0x8000_0000 - 0x8000 * t <= #[trigger] sums@[j]
                                        <= 0x8000_0000 + 0x8000 * t,
                            decreases HIDDEN_SIZE_1 - m,
                        {
                            proof {
                                assert(f * 512 + m < FEATURE_SIZE * HIDDEN_SIZE_1) by (nonlinear_arith)
                                    requires
                                        f < 768,
                                        m < 512,
                                ;
                            }
                            let w = nnue.feature_weights[f * 512 + m] as i64;
                            let v = sums[m] + w;
                            sums.set(m, v);
                            m = m + 1;
                        }
                    } else {
                        assert forall|j: int| 0 <= j < HIDDEN_SIZE_1 implies #[trigger] slot_term(
                            *nnue,
                            *board,
                            t as int,
                            j,
                        ) == 0 by {}
                    }
                },
                None => {
                    assert forall|j: int| 0 <= j < HIDDEN_SIZE_1 implies #[trigger] slot_term(
                        *nnue,
                        *board,
                        t as int,
                        j,
                    ) == 0 by {}
                },
            }
            t = t + 1;
        }
        let mut i: usize = 0;
        while i < self.accumulator.len()
            invariant
                i <= self.accumulator@.len(),
                self.accumulator@.len() == old(self).accumulator@.len(),
                old(self).accumulator@.len() >= HIDDEN_SIZE_1,
                sums@.len() == HIDDEN_SIZE_1,
                forall|m: int|
                    0 <= m < HIDDEN_SIZE_1 ==> #[trigger] sums@[m] == nnue.feature_bias@[m] + slots_upto(
                        *nnue,
                        *board,
                        m,
                        640,
                    ),
                forall|m: int|
                    0 <= m < HIDDEN_SIZE_1 ==> -0x8000_0000 - 0x8000 * 640 <= #[trigger] sums@[m] <= 0x8000_0000
                        + 0x8000 * 640,
                forall|k: int| 0 <= k < i && k < HIDDEN_SIZE_1 ==> #[trigger] self.accumulator@[k] == refreshed(*nnue, *board, k),
                forall|k: int| HIDDEN_SIZE_1 <= k < i ==> #[trigger] self.accumulator@[k] == 0,
            decreases self.accumulator@.len() - i,
        {
            if i < HIDDEN_SIZE_1 {
                let v = wrap_to_i32(sums[i]);
                self.accumulator.set(i, v);
            } else {
                self.accumulator.set(i, 0);
            }
            i = i + 1;
        }
        self.needs_refresh = false;
        self.cached_hash = board.zobrist_hash;
    }

    /// Updates the accumulator for `board`, reached by `mv` (taken back by
    /// `undo_info`): afresh when it must be, or when it does not stand for
    /// the position before the move; otherwise by the move's change, and
    /// then it stands for `board`.
    pub fn update_move(&mut self, nnue: &NNUE, mv: Move, undo_info: &UndoInfo, board: &Board)
        requires
            nnue.shape_ok(),
            board.wf(),
            !(old(self).needs_refresh || old(self).cached_hash != undo_info.old_zobrist_hash) ==> mv.to < 64,
            old(self).accumulator@.len() >= HIDDEN_SIZE_1,
        ensures
            final(self).accumulator@.len() == old(self).accumulator@.len(),
            !final(self).needs_refresh,
            final(self).cached_hash == board.zobrist_hash,
            (old(self).needs_refresh || old(self).cached_hash != undo_info.old_zobrist_hash) ==> (forall|i: int|
                0 <= i < HIDDEN_SIZE_1 ==> #[trigger] final(self).accumulator@[i] == refreshed(*nnue, *board, i)),
            !(old(self).needs_refresh || old(self).cached_hash != undo_info.old_zobrist_hash) ==> (forall|i: int|
                0 <= i < HIDDEN_SIZE_1 ==> #[trigger] final(self).accumulator@[i] == wrap32(
                    old(self).accumulator@[i] + move_delta(*nnue, *board, mv, *undo_info, i),
                )),
            (old(self).needs_refresh || old(self).cached_hash != undo_info.old_zobrist_hash) ==> (forall|i: int|
                HIDDEN_SIZE_1 <= i < final(self).accumulator@.len() ==> #[trigger] final(self).accumulator@[i] == 0),
            !(old(self).needs_refresh || old(self).cached_hash != undo_info.old_zobrist_hash) ==> (forall|i: int|
                HIDDEN_SIZE_1 <= i < final(self).accumulator@.len() ==> #[trigger] final(self).accumulator@[i]
                    == old(self).accumulator@[i]),
    {
        if self.needs_refresh || self.cached_hash != undo_info.old_zobrist_hash {
            self.refresh_full(nnue, board);
            return;
        }
        self.apply_move_delta(nnue, mv, undo_info, board);
        self.cached_hash = board.zobrist_hash;
    }

    /// Applies the change of `mv` to the neurons.
    fn apply_move_delta(&mut self, nnue: &NNUE, mv: Move, undo_info: &UndoInfo, board: &Board)
        requires
            nnue.shape_ok(),
            board.wf(),
            mv.to < 64,
            old(self).accumulator@.len() >= HIDDEN_SIZE_1,
        ensures
            final(self).accumulator@.len() == old(self).accumulator@.len(),
            final(self).needs_refresh == old(self).needs_refresh,
            forall|i: int|
                0 <= i < HIDDEN_SIZE_1 ==> #[trigger] final(self).accumulator@[i] == wrap32(
                    old(self).accumulator@[i] + move_delta(*nnue, *board, mv, *undo_info, i),
                ),
            forall|i: int|
                HIDDEN_SIZE_1 <= i < final(self).accumulator@.len() ==> #[trigger] final(self).accumulator@[i]
                    == old(self).accumulator@[i],
    {
        let moved = if mv.promotion.is_some() {
            PieceKind::Pawn
        } else {
            match board.get_piece_at(mv.to) {
                Some(p) => p.kind,
                None => PieceKind::Pawn,
            }
        };
        let from_king = self.find_king_square(board, board.to_move);
        match from_king {
            Some(king_sq) => {
                let mover = board.to_move.opposite();
                let from_idx = self.calculate_halfkp_index(king_sq, mv.from, moved, mover);
                let piece_kind = match mv.promotion {
                    Some(p) => p,
                    None => moved,
                };
                let to_idx = self.calculate_halfkp_index(king_sq, mv.to, piece_kind, mover);
                let cap_idx: Option<usize> = match undo_info.captured_piece {
                    Some(captured) => Some(
                        self.calculate_halfkp_index(king_sq, undo_info.captured_square, captured, board.to_move),
                    ),
                    None => None,
                };
                let mut i: usize = 0;
                while i < self.accumulator.len() && i < HIDDEN_SIZE_1
                    invariant
                        nnue.shape_ok(),
                        from_idx < FEATURE_SIZE,
                        to_idx < FEATURE_SIZE,
                        cap_idx matches Some(c) ==> c < FEATURE_SIZE,
                        self.accumulator@.len() == old(self).accumulator@.len(),
                        old(self).accumulator@.len() >= HIDDEN_SIZE_1,
                        self.needs_refresh == old(self).needs_refresh,
                        i <= HIDDEN_SIZE_1,
                        king_square(*board, board.to_move) == Some(king_sq as int),
                        mover == board.to_move.flip(),
                        moved == moved_kind(*board, mv),
                        from_idx == halfkp_index(king_sq as int, mv.from as int, moved, mover),
                        to_idx == halfkp_index(king_sq as int, mv.to as int, piece_kind, mover),
                        piece_kind == (match mv.promotion {
                            Some(p) => p,
                            None => moved,
                        }),
                        cap_idx == (match undo_info.captured_piece {
                            Some(ck) => Some(halfkp_index(king_sq as int, undo_info.captured_square as int, ck, board.to_move) as usize),
                            None => None::<usize>,
                        }),
                        forall|k: int|
                            0 <= k < i ==> #[trigger] self.accumulator@[k] == wrap32(
                                old(self).accumulator@[k] + move_delta(*nnue, *board, mv, *undo_info, k),
                            ),
                        forall|k: int| i <= k < self.accumulator@.len() ==> #[trigger] self.accumulator@[k] == old(self).accumulator@[k],
                    decreases HIDDEN_SIZE_1 - i,
                {
                    proof {
                        assert(from_idx * 512 + i < FEATURE_SIZE * HIDDEN_SIZE_1) by (nonlinear_arith)
                            requires
                                from_idx < 768,
                                i < 512,
                        ;
                        assert(to_idx * 512 + i < FEATURE_SIZE * HIDDEN_SIZE_1) by (nonlinear_arith)
                            requires
                                to_idx < 768,
                                i < 512,
                        ;
                    }
                    let mut v: i64 = self.accumulator[i] as i64 - nnue.feature_weights[from_idx * 512 + i] as i64
                        + nnue.feature_weights[to_idx * 512 + i] as i64;
                    if let Some(c) = cap_idx {
                        proof {
                            assert(c * 512 + i < FEATURE_SIZE * HIDDEN_SIZE_1) by (nonlinear_arith)
                                requires
                                    c < 768,
                                    i < 512,
                            ;
                        }
                        v = v - nnue.feature_weights[c * 512 + i] as i64;
                    }
                    let w = wrap_to_i32(v);
                    self.accumulator.set(i, w);
                    i = i + 1;
                }
            },
            None => {
                proof {
                    assert forall|i: int| 0 <= i < HIDDEN_SIZE_1 implies #[trigger] self.accumulator@[i] == wrap32(
                        old(self).accumulator@[i] + move_delta(*nnue, *board, mv, *undo_info, i),
                    ) by {
                        assert(move_delta(*nnue, *board, mv, *undo_info, i) == 0);
                        assert(wrap32(self.accumulator@[i] as int) == self.accumulator@[i]);
                    }
                }
            },
        }
    }

    /// Takes back a move: the accumulator stands for the position before it
    /// again, but must be computed afresh.
    pub fn undo_move(&mut self, _nnue: &NNUE, _mv: Move, undo_info: &UndoInfo)
        ensures
            final(self).accumulator == old(self).accumulator,
            final(self).cached_hash == undo_info.old_zobrist_hash,
            final(self).needs_refresh,
    {
        self.cached_hash = undo_info.old_zobrist_hash;
        self.needs_refresh = true;
    }
}

impl Default for NNUEAccumulator {
    fn default() -> (a: Self)
        ensures
            a.accumulator@.len() == HIDDEN_SIZE_1,
            forall|i: int| 0 <= i < HIDDEN_SIZE_1 ==> #[trigger] a.accumulator@[i] == 0,
            a.needs_refresh,
            a.cached_hash == 0,
    {
        Self::new()
    }
}

} // verus!
