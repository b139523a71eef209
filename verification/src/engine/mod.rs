pub mod traits;
pub mod search;
pub mod eval;
pub mod tt;

pub use traits::{Evaluator, Searcher, Score, SearchConfig, SearchInfo, SearchResult, SCORE_INF, SCORE_MATE, SCORE_DRAW};
pub use eval::{MaterialEvaluator, PstEvaluator, NnueEvaluator};
pub use search::NegamaxSearcher;
