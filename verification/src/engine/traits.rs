use vstd::prelude::*;
use std::sync::Arc;
use std::sync::atomic::AtomicBool;
use crate::types::Move;
use crate::board::Board;
use crate::types::Color;
use crate::game::check::check_cache_ok;

verus! {

/// A score in centipawns, from the side to move's point of view.
pub type Score = i32;

/// Above every score.
pub const SCORE_INF: Score = 30_000;

/// The score of a mate now; a mate in `n` plies scores `SCORE_MATE - n`.
pub const SCORE_MATE: Score = 29_000;

/// The score of a draw.
pub const SCORE_DRAW: Score = 0;

/// Progress of a search, as reported to the user.
#[derive(Debug, Clone)]
pub struct SearchInfo {
    pub depth: u8,
    pub score: Score,
    pub is_mate: bool,
    pub mate_in: Option<i32>,
    pub nodes: u64,
    pub time_ms: u64,
    pub nps: u64,
    pub hashfull: u32,
    pub pv: Vec<Move>,
    pub currmove: Option<Move>,
    pub currmovenumber: Option<u32>,
}

/// The outcome of a search.
#[derive(Debug, Clone)]
pub struct SearchResult {
    pub best_move: Option<Move>,
    pub ponder_move: Option<Move>,
    pub score: Score,
    pub depth: u8,
    pub nodes_searched: u64,
    pub pv: Vec<Move>,
}

/// The limits of a search: depth, clocks, time per move, nodes.
#[derive(Debug, Clone)]
pub struct SearchConfig {
    pub max_depth: u8,
    pub wtime: Option<u64>,
    pub btime: Option<u64>,
    pub winc: Option<u64>,
    pub binc: Option<u64>,
    pub movestogo: Option<u32>,
    pub movetime: Option<u64>,
    pub infinite: bool,
    pub nodes_limit: Option<u64>,
}

impl Default for SearchConfig {
    /// Depth 64, no clock, no time or node limit, not infinite.
    fn default() -> (c: SearchConfig)
        ensures
            c.max_depth == 64,
            c.wtime is None,
            c.btime is None,
            c.winc is None,
            c.binc is None,
            c.movestogo is None,
            c.movetime is None,
            !c.infinite,
            c.nodes_limit is None,
    {
        SearchConfig {
            max_depth: 64,
            wtime: None,
            btime: None,
            winc: None,
            binc: None,
            movestogo: None,
            movetime: None,
            infinite: false,
            nodes_limit: None,
        }
    }
}

/// The time left on the clock of `c`: its own, or 60 s when only the
/// opponent's is given.
pub open spec fn clock_time(config: SearchConfig, c: Color) -> u64 {
    let t = match c {
        Color::White => config.wtime,
        Color::Black => config.btime,
    };
    match t {
        Some(v) => v,
        None => 60000,
    }
}

/// The increment of `c`, 0 when not given.
pub open spec fn clock_inc(config: SearchConfig, c: Color) -> u64 {
    let i = match c {
        Color::White => config.winc,
        Color::Black => config.binc,
    };
    match i {
        Some(v) => v,
        None => 0,
    }
}

/// The moves to the next time control, 25 when not given.
pub open spec fn moves_to_go(config: SearchConfig) -> u64 {
    match config.movestogo {
        Some(n) => n as u64,
        None => 25,
    }
}

/// The search is limited by the clock of `c` (no fixed move time, not
/// infinite, some clock given).
pub open spec fn uses_clock(config: SearchConfig, c: Color) -> bool {
    config.movetime is None && !config.infinite && (config.wtime is Some || config.btime is Some)
}

/// The time budget of `c` can be worked out: when the clock is used, the
/// moves to go are not zero and the sums stay within 64 bits.
pub open spec fn clock_ok(config: SearchConfig, c: Color) -> bool {
    uses_clock(config, c) ==> {
        let t = clock_time(config, c);
        let inc = clock_inc(config, c);
        &&& moves_to_go(config) != 0
        &&& t * 3 <= u64::MAX
        &&& inc * 3 <= u64::MAX
        &&& t / moves_to_go(config) + inc * 3 / 4 <= u64::MAX
    }
}

/// A static evaluation of positions.
pub trait Evaluator {
    /// What the evaluator scores `board`, for the side to move.
    spec fn value(&self, board: Board) -> int;

    /// The score of `board` for the side to move.
    fn evaluate(&self, board: &Board) -> (r: Score)
        ensures
            r == self.value(*board),
    ;

    /// The evaluator's name.
    fn name(&self) -> &str {
        "unnamed"
    }
}

/// A search for the best move.
pub trait Searcher {
    /// The searcher's state is consistent, as it is when new.
    spec fn ready(&self) -> bool;

    /// Searches `board` within the limits of `config`.
    fn search(&mut self, board: &Board, config: &SearchConfig) -> (r: SearchResult)
        requires
            old(self).ready(),
            board.wf(),
            check_cache_ok(*board),
            clock_ok(*config, board.to_move),
        ensures
            final(self).ready(),
    ;

    /// The flag that stops a running search when set.
    fn stop_flag(&self) -> Arc<AtomicBool>;

    /// The searcher's name.
    fn name(&self) -> &str {
        "unnamed"
    }
}

} // verus!
