use pelanca::board::Board;
use pelanca::engine::Evaluator;
use pelanca::engine::eval::NnueEvaluator;
use pelanca::nnue::{NNUE, NNUEAccumulator, NNUEContext, NNUEEvaluationCache, NnueFileError};

const FILE_LEN: usize = 397888;
const OUTPUT_BIAS_AT: usize = 397884;
const HIDDEN_BIAS_AT: usize = 397844;
const OUTPUT_WEIGHT_AT: usize = 397876;

fn header(version: u32, inputs: u32, ft: u32, hidden: u32) -> Vec<u8> {
    let mut v = b"PLNN".to_vec();
    for x in [version, inputs, ft, hidden] {
        v.extend_from_slice(&x.to_le_bytes());
    }
    v
}

fn zero_network() -> Vec<u8> {
    let mut v = header(2, 768, 256, 8);
    v.resize(FILE_LEN, 0);
    v
}

#[test]
fn nnue_file_errors() {
    assert_eq!(NnueEvaluator::from_bytes(&[]).err(), Some("NNUE file too small".to_string()));
    assert_eq!(NnueEvaluator::from_bytes(&[0u8; 20]).err(), Some("Bad magic".to_string()));
    assert_eq!(NnueEvaluator::from_bytes(&header(7, 768, 256, 8)).err(), Some("Bad version: 7".to_string()));
    assert_eq!(NnueEvaluator::from_bytes(&header(123, 768, 256, 8)).err(), Some("Bad version: 123".to_string()));
    assert_eq!(NnueEvaluator::from_bytes(&header(2, 768, 256, 32)).err(), Some("Architecture mismatch".to_string()));
}

#[test]
fn zero_network_leaves_the_material_fifth() {
    let eval = NnueEvaluator::from_bytes(&zero_network()).unwrap();
    assert_eq!(eval.name(), "nnue-v3");
    assert_eq!(eval.evaluate(&Board::new()), 0);
    let up_a_queen = Board::from_fen("4k3/8/8/8/8/8/8/3QK3 w - - 0 1").unwrap();
    assert_eq!(eval.evaluate(&up_a_queen), 180);
    let down_a_queen = Board::from_fen("4k3/8/8/8/8/8/8/3QK3 b - - 0 1").unwrap();
    assert_eq!(eval.evaluate(&down_a_queen), -180);
}

#[test]
fn network_output_bias_and_clamped_hidden_neuron() {
    let mut data = zero_network();
    data[OUTPUT_BIAS_AT..OUTPUT_BIAS_AT + 4].copy_from_slice(&(262144i32 * 5).to_le_bytes());
    let eval = NnueEvaluator::from_bytes(&data).unwrap();
    assert_eq!(eval.evaluate(&Board::new()), 1600);

    let mut data = zero_network();
    data[HIDDEN_BIAS_AT..HIDDEN_BIAS_AT + 4].copy_from_slice(&5000i32.to_le_bytes());
    data[OUTPUT_WEIGHT_AT] = 1;
    let eval = NnueEvaluator::from_bytes(&data).unwrap();
    assert_eq!(eval.evaluate(&Board::new()), 4);
}

#[test]
fn random_network_has_its_shape() {
    let n = NNUE::new();
    assert_eq!(n.feature_weights.len(), 768 * 512);
    assert!(n.feature_weights.iter().all(|w| (-8..=8).contains(w)));
    assert!(n.hidden1_weights.iter().all(|w| (-2..=2).contains(w)));
    assert!(n.hidden2_weights.iter().all(|w| (-4..=4).contains(w)));
    assert!(n.output_weights.iter().all(|w| (-6..=6).contains(w)));
    assert_eq!((n.feature_scale, n.hidden_scale, n.output_scale), (128, 64, 400));
}

#[test]
fn saved_network_loads_back() {
    let n = NNUE::new();
    let bytes = n.to_bytes();
    assert_eq!(bytes.len(), 953236);
    assert_eq!(&bytes[0..4], b"PLC2");
    let m = NNUE::from_bytes(&bytes).unwrap_or_else(|_| panic!("a saved network must load"));
    assert_eq!(m.feature_weights, n.feature_weights);
    assert_eq!(m.feature_bias, n.feature_bias);
    assert_eq!(m.hidden1_weights, n.hidden1_weights);
    assert_eq!(m.hidden1_bias, n.hidden1_bias);
    assert_eq!(m.hidden2_weights, n.hidden2_weights);
    assert_eq!(m.hidden2_bias, n.hidden2_bias);
    assert_eq!(m.output_weights, n.output_weights);
    assert_eq!(m.output_bias, n.output_bias);
    assert_eq!((m.feature_scale, m.hidden_scale, m.output_scale), (128, 64, 400));
}

#[test]
fn network_file_errors() {
    assert!(matches!(NNUE::from_bytes(&[]), Err(NnueFileError::Truncated)));
    assert!(matches!(NNUE::from_bytes(b"XXXX1234"), Err(NnueFileError::BadHeader)));
    assert!(matches!(NNUE::from_bytes(b"PLC2\x80\0\0\0"), Err(NnueFileError::Truncated)));
}

#[test]
fn evaluation_cache_counts_hits() {
    let n = NNUE::new();
    let board = Board::new();
    let mut cache = NNUEEvaluationCache::new();
    let first = board.evaluate_nnue(&n, &mut cache);
    assert_eq!((cache.hits(), cache.misses()), (0, 1));
    let second = board.evaluate_nnue(&n, &mut cache);
    assert_eq!(first, second);
    assert_eq!((cache.hits(), cache.misses()), (1, 1));
    cache.clear();
    assert_eq!((cache.hits(), cache.misses()), (0, 0));
}

#[test]
fn accumulator_refresh_matches_cached_evaluation() {
    let n = NNUE::new();
    let board = Board::from_fen("r3k2r/p1ppqpb1/bn2pnp1/3PN3/1p2P3/2N2Q1p/PPPBBPPP/R3K2R b KQkq - 0 1").unwrap();
    let mut acc = NNUEAccumulator::new();
    assert!(acc.needs_refresh);
    let fast = board.evaluate_nnue_fast(&n, &mut acc);
    assert!(!acc.needs_refresh);
    assert_eq!(acc.cached_hash, board.zobrist_hash);
    let mut cache = NNUEEvaluationCache::new();
    assert_eq!(fast, board.evaluate_nnue(&n, &mut cache));
    let mut ctx = NNUEContext::from_network(n);
    assert_eq!(ctx.evaluate(&board), fast);
    ctx.reset_for_new_search();
    assert!(ctx.accumulator.needs_refresh);
}

#[test]
fn incremental_update_refreshes_when_out_of_date() {
    let n = NNUE::new();
    let mut board = Board::new();
    let mv = board.generate_legal_moves()[0];
    let undo = board.make_move_with_undo(mv);
    let mut acc = NNUEAccumulator::new();
    let inc = board.evaluate_nnue_incremental(&n, &mut acc, mv, &undo);
    let mut fresh = NNUEAccumulator::new();
    assert_eq!(inc, board.evaluate_nnue_fast(&n, &mut fresh));
    acc.undo_move(&n, mv, &undo);
    assert!(acc.needs_refresh);
    assert_eq!(acc.cached_hash, undo.old_zobrist_hash);
}
