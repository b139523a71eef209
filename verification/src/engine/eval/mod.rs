pub mod masks;
pub mod pst;
pub mod material;
pub mod nnue;

pub use pst::PstEvaluator;
pub use material::MaterialEvaluator;
pub use nnue::NnueEvaluator;
