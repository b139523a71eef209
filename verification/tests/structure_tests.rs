use pelanca::board::Board;
use pelanca::engine::search::tt::{Bound, TranspositionTable as SearchTable};
use pelanca::intrinsics::{parallel_deposit, parallel_extract, BitboardIterator};
use pelanca::search::transposition_table::{NodeType, TranspositionTable as BucketTable};
use pelanca::search::Evaluator;
use pelanca::types::Move;
use pelanca::engine::eval::PstEvaluator;
use pelanca::engine::search::NegamaxSearcher;
use pelanca::engine::{SearchConfig, Searcher, SCORE_MATE};

fn mv(from: u8, to: u8) -> Move {
    Move { from, to, promotion: None, is_castling: false, is_en_passant: false }
}

#[test]
fn bit_extract_and_deposit() {
    assert_eq!(parallel_extract(0b1000, 0b1010), 0b10);
    assert_eq!(parallel_extract(0xFF00, 0xF0F0), 0xF0);
    assert_eq!(parallel_deposit(0b11, 0b1010), 0b1010);
    assert_eq!(parallel_deposit(0b01, 0b1010), 0b0010);
    let mask = 0x0000_7E00_0000_1248u64;
    for x in [0u64, 1, 5, 0x3FF, 0xFFFF] {
        let bits = mask.count_ones();
        assert_eq!(parallel_extract(parallel_deposit(x, mask), mask), x & ((1u64 << bits) - 1));
    }
}

#[test]
fn squares_come_out_lowest_first() {
    let v = BitboardIterator::new(0b1010_0001).collect_squares();
    assert_eq!(v, vec![0, 5, 7]);
    let all = BitboardIterator::new(u64::MAX).collect_squares();
    assert_eq!(all, (0u8..64).collect::<Vec<u8>>());
}

#[test]
fn search_table_store_then_probe() {
    let mut tt = SearchTable::new(1);
    let h = 0x1234_5678_9ABC_DEF0u64;
    assert!(tt.probe(h).is_none());
    tt.store(h, 5, -42, Bound::Lower, 777);
    let e = *tt.probe(h).unwrap();
    assert_eq!(e.bound_type(), Bound::Lower);
    assert_eq!(e.score, -42);
    assert_eq!(e.depth, 5);
    assert_eq!(e.best_move, 777);
}

#[test]
fn bucket_table_store_probe_and_replace() {
    let mut tt = BucketTable::new(1);
    let h = 0xABCD_0000_0000_0040u64;
    assert!(tt.probe(h).is_none());
    assert_eq!(tt.misses(), 1);
    tt.store(h, mv(12, 28), 35, 7, NodeType::Exact);
    let e = tt.probe(h).unwrap();
    assert_eq!(tt.hits(), 1);
    assert_eq!(e.get_move(), mv(12, 28));
    assert_eq!(e.get_score(), 35);
    assert_eq!(e.get_depth(), 7);
    assert_eq!(e.get_type(), NodeType::Exact);
    // Fill the bucket with four other hashes; the shallowest is replaced.
    tt.clear();
    let bucket_stride = 1u64 << 40;
    for (i, d) in [9u8, 3, 8, 6].iter().enumerate() {
        tt.store(h + (i as u64 + 1) * bucket_stride, mv(1, 18), 0, *d, NodeType::LowerBound);
    }
    tt.store(h, mv(6, 21), 1, 4, NodeType::UpperBound);
    assert!(tt.probe(h).is_some());
    assert!(tt.probe(h + 2 * bucket_stride).is_none());
    assert!(tt.probe(h + bucket_stride).is_some());
    let (used, slots) = tt.sampled_usage();
    assert!(slots > 0 && used <= slots);
}

#[test]
fn checkmated_side_gets_the_mate_score_from_search() {
    let b = Board::from_fen("R5k1/5ppp/8/8/8/8/8/6K1 b - - 0 1").unwrap();
    let mut s = NegamaxSearcher::new(PstEvaluator);
    let r = s.search(&b, &SearchConfig { max_depth: 3, ..Default::default() });
    assert!(r.best_move.is_none());
    assert_eq!(r.score, -SCORE_MATE);
}

#[test]
fn search_evaluation_of_start_position_is_level() {
    assert_eq!(Evaluator::new().evaluate(&Board::new()), 0);
}

#[test]
fn knight_moves_come_by_origin_then_target() {
    let b = Board::new();
    let v = pelanca::moves::knight::generate_knight_moves(&b);
    assert_eq!(v, vec![mv(1, 16), mv(1, 18), mv(6, 21), mv(6, 23)]);
}

#[test]
fn rook_attacks_stop_at_the_first_blocker() {
    let occ = (1u64 << 35) | (1u64 << 19);
    assert_eq!(pelanca::moves::magic_bitboards::get_rook_attacks_magic(27, occ), 0x8F7080000);
}

#[test]
fn fresh_searcher_finds_the_mate_at_depth_one() {
    let b = Board::from_fen("R5k1/5ppp/8/8/8/8/8/6K1 b - - 0 1").unwrap();
    let mut s = NegamaxSearcher::new(PstEvaluator);
    let r = s.search(&b, &SearchConfig { max_depth: 1, ..Default::default() });
    assert_eq!(r.depth, 1);
    assert!(r.pv.is_empty());
}

#[test]
fn depth_one_search_of_the_start_position_picks_a_move() {
    let b = Board::new();
    let mut s = NegamaxSearcher::new(PstEvaluator);
    let r = s.search(&b, &SearchConfig { max_depth: 1, ..Default::default() });
    let m = r.best_move.expect("a move");
    assert!(b.generate_legal_moves().contains(&m));
    assert_eq!(r.pv[0], m);
}

#[test]
fn queen_moves_append_to_any_vector() {
    // a lone white queen on d1 (square 3) with the kings far away
    let b = Board::from_fen("7k/8/8/8/8/8/8/K2Q4 w - - 0 1").unwrap();
    let mut fresh: Vec<Move> = Vec::new();
    pelanca::moves::queen::generate_queen_moves_into(&b, &mut fresh);
    assert!(!fresh.is_empty());
    assert!(fresh.iter().all(|m| m.from == 3));
    // the same moves land after whatever the vector already held,
    // duplicates and a move from the queen's square included
    let held = vec![fresh[0], fresh[0], mv(3, 4)];
    let mut moves = held.clone();
    pelanca::moves::queen::generate_queen_moves_into(&b, &mut moves);
    assert_eq!(&moves[..3], &held[..]);
    assert_eq!(&moves[3..], &fresh[..]);
    // by origin then target square
    for w in fresh.windows(2) {
        assert!(w[0].to < w[1].to);
    }
}
