pub mod tt;
pub mod clock;
pub mod negamax;

pub use negamax::NegamaxSearcher;
