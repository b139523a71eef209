use pelanca::engine::tt::{TranspositionTable, TT_ALPHA, TT_BETA, TT_EXACT};
use pelanca::types::Move;

fn mv(from: u8, to: u8) -> Move {
    Move { from, to, promotion: None, is_castling: false, is_en_passant: false }
}

#[test]
fn fx_table_probe_by_flag() {
    let mut tt = TranspositionTable::new();
    assert_eq!(tt.capacity(), 2_000_000);
    tt.store(1, 6, 50, TT_EXACT, Some(mv(12, 28)));
    tt.store(2, 6, 500, TT_BETA, None);
    tt.store(3, 6, -500, TT_ALPHA, None);
    assert_eq!(tt.probe(1, 6, -100, 100), Some(50));
    assert_eq!(tt.probe(1, 7, -100, 100), None);
    assert_eq!(tt.probe(2, 6, -100, 100), Some(100));
    assert_eq!(tt.probe(3, 6, -100, 100), Some(-100));
    assert_eq!(tt.probe(9, 1, -100, 100), None);
    assert_eq!((tt.hits(), tt.misses()), (4, 1));
    assert_eq!(tt.get_best_move(1), Some(mv(12, 28)));
    assert_eq!(tt.size(), 3);
    assert_eq!(tt.hashfull(), 0);
    tt.clear();
    assert_eq!(tt.size(), 0);
    assert_eq!((tt.hits(), tt.misses()), (0, 0));
}

#[test]
fn fx_table_keeps_the_deeper_entry() {
    let mut tt = TranspositionTable::with_capacity(1000);
    tt.store(5, 8, 10, TT_EXACT, None);
    tt.store(5, 3, 20, TT_EXACT, None);
    assert_eq!(tt.probe(5, 0, -100, 100), Some(10));
    tt.store(5, 8, 30, TT_EXACT, None);
    assert_eq!(tt.probe(5, 0, -100, 100), Some(30));
}

#[test]
fn fx_table_evicts_shallow_entries_when_full() {
    let mut tt = TranspositionTable::with_capacity(10);
    for h in 0..9u64 {
        tt.store(h, if h < 4 { 2 } else { 9 }, 0, TT_EXACT, None);
    }
    assert_eq!(tt.size(), 9);
    assert_eq!(tt.hashfull(), 900);
    tt.store(100, 9, 0, TT_EXACT, None);
    for h in 0..4u64 {
        assert_eq!(tt.probe(h, 0, -1, 1), None);
    }
    for h in 4..9u64 {
        assert_eq!(tt.probe(h, 0, -1, 1), Some(0));
    }
    assert_eq!(tt.probe(100, 0, -1, 1), Some(0));
    assert_eq!(tt.size(), 6);
}
