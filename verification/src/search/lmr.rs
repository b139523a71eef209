use vstd::prelude::*;
use crate::board::Board;
use crate::types::{Color, Move, UndoInfo};
use crate::make_move::{move_shape_ok, made};
use crate::game::check::in_check_spec;
use crate::game::movegen::lemma_made_same_checks;
use crate::bits::{sq_in, group_bits};

verus! {

broadcast use group_bits;

/// The depth reduction of the `i`-th move (from 0) searched at `depth`:
/// none for tactical moves, in principal-variation nodes or below depth 3;
/// otherwise 0 for the first three moves, then 1, 2, 3 and 4 as the index
/// passes 3, 6, 11 and 16.
pub open spec fn reduction_spec(i: int, depth: int, tactical: bool, pv: bool) -> int {
    if tactical || pv || depth < 3 {
        0
    } else if i <= 2 {
        0
    } else if i <= 5 {
        1
    } else if i <= 10 {
        2
    } else if i <= 15 {
        3
    } else {
        4
    }
}

/// The aggressive reduction: none for tactical moves, in check or below
/// depth 3; otherwise 0, 1, 2, 3, 4 as the index passes 2, 4, 7, 10, and
/// depth minus 2 (at least 0) from the fourteenth move on.
pub open spec fn ultra_reduction_spec(i: int, depth: int, tactical: bool, in_check: bool) -> int {
    if tactical || in_check || depth < 3 {
        0
    } else if i <= 1 {
        0
    } else if i <= 3 {
        1
    } else if i <= 6 {
        2
    } else if i <= 9 {
        3
    } else if i <= 12 {
        4
    } else if depth >= 2 {
        depth - 2
    } else {
        0
    }
}

/// `mv` can be played, is legal, and puts the other king in check.
pub open spec fn gives_check(b: Board, mv: Move) -> bool {
    &&& move_shape_ok(b, mv)
    &&& forall|a: Board, u: UndoInfo| #[trigger] made(b, mv, a, u) ==> !in_check_spec(a, b.to_move) && in_check_spec(
        a,
        b.to_move.flip(),
    )
}

/// `mv` is tactical: it takes a piece on its destination, promotes,
/// castles, takes en passant, or gives check.
pub open spec fn tactical_spec(b: Board, mv: Move) -> bool {
    ||| sq_in(b.color_bb(b.to_move.flip()), mv.to as int)
    ||| mv.promotion is Some
    ||| mv.is_castling
    ||| mv.is_en_passant
    ||| gives_check(b, mv)
}

fn min_u8(a: u8, b: u8) -> (r: u8)
    ensures
        r == (if a < b {
            a
        } else {
            b
        }),
{
    if a < b {
        a
    } else {
        b
    }
}

/// Late move reductions.
pub struct LateMovePruner;

impl LateMovePruner {
    /// The reduction of the `move_index`-th move at `depth`.
    pub fn get_reduction(move_index: usize, depth: u8, is_tactical: bool, is_pv_node: bool) -> (r: u8)
        ensures
            r == reduction_spec(move_index as int, depth as int, is_tactical, is_pv_node),
    {
        if is_tactical || is_pv_node || depth < 3 {
            return 0;
        }
        if move_index <= 2 {
            0
        } else if move_index <= 5 {
            1
        } else if move_index <= 10 {
            2
        } else if move_index <= 15 {
            3
        } else {
            4
        }
    }

    /// The reduction outside principal-variation nodes, one more from depth 8.
    pub fn get_adaptive_reduction(move_index: usize, depth: u8, is_tactical: bool) -> (r: u8)
        ensures
            r == (if is_tactical || depth < 3 {
                0
            } else if depth >= 8 {
                reduction_spec(move_index as int, depth as int, is_tactical, false) + 1
            } else {
                reduction_spec(move_index as int, depth as int, is_tactical, false)
            }),
    {
        if is_tactical || depth < 3 {
            return 0;
        }
        let base_reduction = Self::get_reduction(move_index, depth, is_tactical, false);
        if depth >= 8 {
            base_reduction + 1
        } else {
            base_reduction
        }
    }

    /// Whether `mv` is tactical (see `tactical_spec`).
    pub fn is_tactical_move(board: &Board, mv: Move) -> (r: bool)
        requires
            board.wf(),
            mv.to < 64,
        ensures
            r == tactical_spec(*board, mv),
    {
        let to_bb = 1u64 << mv.to;
        let enemy_pieces = if board.to_move == Color::White {
            board.black_pieces
        } else {
            board.white_pieces
        };
        if (enemy_pieces & to_bb) != 0 {
            return true;
        }
        if mv.promotion.is_some() {
            return true;
        }
        if mv.is_castling {
            return true;
        }
        if mv.is_en_passant {
            return true;
        }
        if !board.can_play(mv) {
            return false;
        }
        let mut test_board = *board;
        let legal = test_board.make_move(mv);
        let r = legal && test_board.is_king_in_check(board.to_move.opposite());
        proof {
            let u = choose|u: UndoInfo| made(*board, mv, test_board, u);
            assert forall|a: Board, u2: UndoInfo| #[trigger] made(*board, mv, a, u2) implies (!in_check_spec(
                a,
                board.to_move,
            ) && in_check_spec(a, board.to_move.flip())) == r by {
                lemma_made_same_checks(*board, mv, test_board, u, a, u2);
            }
            if !r {
                assert(made(*board, mv, test_board, u));
            }
        }
        r
    }

    /// No killer moves are kept: always false.
    pub fn is_killer_move(_mv: Move, _depth: u8) -> (r: bool)
        ensures
            !r,
    {
        false
    }

    /// The aggressive reduction of the `move_index`-th move at `depth`.
    pub fn get_ultra_reduction(move_index: usize, depth: u8, is_tactical: bool, in_check: bool) -> (r: u8)
        ensures
            r == ultra_reduction_spec(move_index as int, depth as int, is_tactical, in_check),
    {
        if is_tactical || in_check || depth < 3 {
            return 0;
        }
        if move_index <= 1 {
            0
        } else if move_index <= 3 {
            1
        } else if move_index <= 6 {
            2
        } else if move_index <= 9 {
            3
        } else if move_index <= 12 {
            4
        } else {
            depth.saturating_sub(2)
        }
    }
}

/// The settings of late move reductions.
pub struct LMRConfig {
    pub enabled: bool,
    pub min_depth: u8,
    pub min_move_index: usize,
    pub max_reduction: u8,
    pub aggressive_mode: bool,
}

impl Default for LMRConfig {
    /// Enabled from depth 3 and the fourth move, at most 4 plies, aggressive.
    fn default() -> (c: LMRConfig)
        ensures
            c.enabled,
            c.min_depth == 3,
            c.min_move_index == 3,
            c.max_reduction == 4,
            c.aggressive_mode,
    {
        LMRConfig { enabled: true, min_depth: 3, min_move_index: 3, max_reduction: 4, aggressive_mode: true }
    }
}

impl LMRConfig {
    /// Enabled from depth 2 and the third move, at most 6 plies, aggressive.
    pub fn ultra_aggressive() -> (c: LMRConfig)
        ensures
            c.enabled,
            c.min_depth == 2,
            c.min_move_index == 2,
            c.max_reduction == 6,
            c.aggressive_mode,
    {
        LMRConfig { enabled: true, min_depth: 2, min_move_index: 2, max_reduction: 6, aggressive_mode: true }
    }

    /// The reduction of the `move_index`-th move at `depth`, capped at the
    /// maximum: none when disabled, for tactical moves, below the minimum
    /// depth or before the minimum index.
    pub fn calculate_reduction(&self, move_index: usize, depth: u8, is_tactical: bool) -> (r: u8)
        ensures
            r == (if !self.enabled || is_tactical || depth < self.min_depth || move_index < self.min_move_index {
                0
            } else {
                let base = if self.aggressive_mode {
                    ultra_reduction_spec(move_index as int, depth as int, is_tactical, false)
                } else {
                    reduction_spec(move_index as int, depth as int, is_tactical, false)
                };
                if base < self.max_reduction {
                    base
                } else {
                    self.max_reduction as int
                }
            }),
    {
        if !self.enabled || is_tactical || depth < self.min_depth || move_index < self.min_move_index {
            return 0;
        }
        if self.aggressive_mode {
            min_u8(LateMovePruner::get_ultra_reduction(move_index, depth, is_tactical, false), self.max_reduction)
        } else {
            min_u8(LateMovePruner::get_reduction(move_index, depth, is_tactical, false), self.max_reduction)
        }
    }
}

} // verus!
