pub mod lmr;
pub mod transposition_table;
pub mod evaluation;
pub mod see;
pub mod transposition;
pub mod ordering;
pub mod tactical_analysis;
pub mod alphabeta;

pub use evaluation::Evaluator;
pub use transposition::{TranspositionTable, TTEntry, TTNodeType};
pub use alphabeta::{SearchEngine, SearchResult, SearchInfo};
pub use ordering::{MoveOrderer, OrderingUtils};

use vstd::prelude::*;

verus! {

/// The deepest ply of the search engine.
pub const MAX_PLY: usize = 64;

/// The score of a mate now.
pub const MATE_SCORE: i32 = 100000;

/// Scores at least this far from zero are mate scores.
pub const MATE_IN_MAX: i32 = MATE_SCORE - 64;

/// A score in centipawns.
pub type Score = i32;

/// A search depth in plies.
pub type Depth = u8;

/// A distance from the root in plies.
pub type Ply = u8;

} // verus!
