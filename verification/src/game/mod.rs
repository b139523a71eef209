pub mod check;
pub mod movegen;
pub mod status;
pub mod see;
