use pelanca::board::Board;
use pelanca::types::Move;
use pelanca::engine::eval::{MaterialEvaluator, PstEvaluator};
use pelanca::engine::search::NegamaxSearcher;
use pelanca::engine::{Evaluator as EngineEvaluator, Searcher, SearchConfig, SCORE_MATE};
use pelanca::search::{Evaluator, SearchEngine, TranspositionTable, TTNodeType, MoveOrderer, MATE_SCORE};
use pelanca::search::see::SEE;

const BACK_RANK: &str = "6k1/5ppp/8/8/8/8/8/R5K1 w - - 0 1";
const FOOLS_MATE: &str = "rnb1kbnr/pppp1ppp/8/4p3/6Pq/5P2/PPPPP2P/RNBQKBNR w KQkq - 1 3";

fn rook_mate() -> Move {
    Move { from: 0, to: 56, promotion: None, is_castling: false, is_en_passant: false }
}

#[test]
fn negamax_finds_back_rank_mate() {
    let board = Board::from_fen(BACK_RANK).unwrap();
    let mut searcher = NegamaxSearcher::new(PstEvaluator);
    let config = SearchConfig { max_depth: 3, ..Default::default() };
    let result = searcher.search(&board, &config);
    assert_eq!(result.best_move, Some(rook_mate()));
    assert!(result.score > SCORE_MATE - 100);
}

#[test]
fn negamax_reports_mated_side() {
    let board = Board::from_fen(FOOLS_MATE).unwrap();
    let mut searcher = NegamaxSearcher::new(MaterialEvaluator);
    let config = SearchConfig { max_depth: 2, ..Default::default() };
    let result = searcher.search(&board, &config);
    assert_eq!(result.best_move, None);
    assert_eq!(result.score, -SCORE_MATE);
}

#[test]
fn negamax_plays_the_only_legal_move() {
    let board = Board::from_fen("R6k/8/5K2/8/8/8/8/8 b - - 0 1").unwrap();
    let legal = board.generate_legal_moves();
    assert_eq!(legal.len(), 1);
    let mut searcher = NegamaxSearcher::new(PstEvaluator);
    let config = SearchConfig { max_depth: 4, ..Default::default() };
    let result = searcher.search(&board, &config);
    assert_eq!(result.best_move, Some(legal[0]));
}

#[test]
fn alpha_beta_engine_finds_back_rank_mate() {
    let mut board = Board::from_fen(BACK_RANK).unwrap();
    let before = board.zobrist_hash;
    let mut engine = SearchEngine::new();
    let result = engine.search(&mut board, 2);
    assert_eq!(result.best_move, Some(rook_mate()));
    assert_eq!(result.score, MATE_SCORE - 1);
    assert_eq!(board.zobrist_hash, before);
    assert_eq!(result.search_info.len(), 1);
}

#[test]
fn alpha_beta_engine_on_checkmated_side() {
    let mut board = Board::from_fen(FOOLS_MATE).unwrap();
    let mut engine = SearchEngine::new();
    let result = engine.search(&mut board, 4);
    assert_eq!(result.best_move, None);
    assert_eq!(result.score, -MATE_SCORE);
    assert_eq!(result.search_info.len(), 1);
    assert_eq!(result.search_info[0].score, -MATE_SCORE);
}

#[test]
fn alpha_beta_engine_start_position() {
    let mut board = Board::new();
    let mut engine = SearchEngine::new();
    let result = engine.search(&mut board, 2);
    let best = result.best_move.expect("a move from the start position");
    assert!(board.generate_legal_moves().contains(&best));
    assert_eq!(result.search_info.len(), 2);
    assert_eq!(result.search_info[0].depth, 1);
    assert_eq!(result.search_info[1].depth, 2);
    assert_eq!(result.search_info[1].pv, vec![best]);
}

#[test]
fn killer_and_history_start_empty() {
    let engine = SearchEngine::new();
    let mv = rook_mate();
    assert!(!engine.is_killer_move(mv, 3));
    assert!(!engine.is_killer_move(mv, 200));
    assert_eq!(engine.get_history_score(mv), 0);
}

#[test]
fn engine_evaluations_turn_sign_with_the_side_to_move() {
    let white = Board::from_fen("r1bqkb1r/pppp1ppp/2n2n2/4p3/2B1P3/5N2/PPPP1PPP/RNBQK2R w KQkq - 4 4").unwrap();
    let black = Board::from_fen("r1bqkb1r/pppp1ppp/2n2n2/4p3/2B1P3/5N2/PPPP1PPP/RNBQK2R b KQkq - 4 4").unwrap();
    assert_eq!(PstEvaluator.evaluate(&white), -PstEvaluator.evaluate(&black));
    assert_eq!(MaterialEvaluator.evaluate(&white), -MaterialEvaluator.evaluate(&black));
}

#[test]
fn search_evaluation_is_from_whites_side_whoever_moves() {
    let white = Board::from_fen("r1bqkb1r/pppp1ppp/2n2n2/4p3/2B1P3/5N2/PPPP1PPP/RNBQK2R w KQkq - 4 4").unwrap();
    let black = Board::from_fen("r1bqkb1r/pppp1ppp/2n2n2/4p3/2B1P3/5N2/PPPP1PPP/RNBQK2R b KQkq - 4 4").unwrap();
    let e = Evaluator::new();
    assert_eq!(e.evaluate(&white), e.evaluate(&black));
    let up_a_queen = Board::from_fen("4k3/8/8/8/8/8/8/3QK3 b - - 0 1").unwrap();
    assert!(e.evaluate(&up_a_queen) > 0);
}

#[test]
fn material_counts_pieces() {
    assert_eq!(MaterialEvaluator.evaluate(&Board::new()), 0);
    let up_a_queen = Board::from_fen("4k3/8/8/8/8/8/8/3QK3 w - - 0 1").unwrap();
    assert_eq!(MaterialEvaluator.evaluate(&up_a_queen), 900);
    let down_a_queen = Board::from_fen("4k3/8/8/8/8/8/8/3QK3 b - - 0 1").unwrap();
    assert_eq!(MaterialEvaluator.evaluate(&down_a_queen), -900);
    assert_eq!(MaterialEvaluator.name(), "material");
}

#[test]
fn mate_scores() {
    assert_eq!(Evaluator::mate_in_n(3), MATE_SCORE - 3);
    assert!(Evaluator::is_mate_score(MATE_SCORE - 10));
    assert!(Evaluator::is_mate_score(-(MATE_SCORE - 10)));
    assert!(!Evaluator::is_mate_score(500));
}

#[test]
fn table_store_then_probe() {
    let mut tt = TranspositionTable::new();
    let mv = rook_mate();
    tt.store(42, 5, 120, TTNodeType::Exact, Some(mv));
    assert_eq!(tt.probe(42, 4, -100, 100), Some(120));
    assert_eq!(tt.probe(42, 6, -100, 100), None);
    assert_eq!(tt.get_best_move(42), Some(mv));
    assert_eq!(tt.probe(7, 1, -100, 100), None);
    assert_eq!(tt.hits(), 2);
    assert_eq!(tt.misses(), 1);
    tt.store(43, 5, 300, TTNodeType::Beta, None);
    assert_eq!(tt.probe(43, 5, -100, 100), Some(100));
    tt.store(44, 5, -300, TTNodeType::Alpha, None);
    assert_eq!(tt.probe(44, 5, -100, 100), Some(-100));
    tt.clear();
    assert_eq!(tt.size(), 0);
}

#[test]
fn table_mate_scores_round_trip() {
    let stored = TranspositionTable::score_to_tt(MATE_SCORE - 5, 3);
    assert_eq!(stored, MATE_SCORE - 2);
    assert_eq!(TranspositionTable::score_from_tt(stored, 3), MATE_SCORE - 5);
    assert_eq!(TranspositionTable::score_to_tt(250, 7), 250);
}

#[test]
fn captures_are_ordered_before_quiet_moves() {
    let board = Board::from_fen("4k3/8/8/3p4/4P3/8/8/4K3 w - - 0 1").unwrap();
    let orderer = MoveOrderer::new();
    let tt = TranspositionTable::new();
    let ordered = orderer.order_moves(board.generate_all_moves(), &board, &tt, 0);
    let capture = Move { from: 28, to: 35, promotion: None, is_castling: false, is_en_passant: false };
    assert_eq!(ordered[0], capture);
}

#[test]
fn static_exchange_of_a_free_pawn() {
    let board = Board::from_fen("4k3/8/8/3p4/4P3/8/8/4K3 w - - 0 1").unwrap();
    let capture = Move { from: 28, to: 35, promotion: None, is_castling: false, is_en_passant: false };
    assert_eq!(SEE::evaluate_capture(&board, capture), 100);
    let quiet = Move { from: 28, to: 36, promotion: None, is_castling: false, is_en_passant: false };
    assert_eq!(SEE::evaluate_capture(&board, quiet), 0);
}
