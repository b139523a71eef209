pub mod attacks;
pub mod gen;
pub mod king;
pub mod knight;
pub mod pawn;
pub mod queen;
pub mod sliding;
pub mod magic_bitboards;
