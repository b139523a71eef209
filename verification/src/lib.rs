pub mod bits;
pub mod types;
pub mod moves;
pub mod zobrist;
pub mod intrinsics;
pub mod board;
pub mod game;
pub mod make_move;
pub mod fen;
pub mod start;
pub mod perft_tt;
pub mod perft;
pub mod engine;
pub mod search;
pub mod nnue;
pub mod uci;
