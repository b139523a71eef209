use pelanca::board::Board;
use pelanca::types::{Move, PieceKind};
use pelanca::uci::parser::{move_from_uci, parse_go, parse_position};

#[test]
fn go_reads_clock_depth_and_limits() {
    let c = parse_go(&["wtime", "1000", "btime", "2000", "winc", "10", "binc", "20", "movestogo", "5", "depth", "7"]);
    assert_eq!(c.wtime, Some(1000));
    assert_eq!(c.btime, Some(2000));
    assert_eq!(c.winc, Some(10));
    assert_eq!(c.binc, Some(20));
    assert_eq!(c.movestogo, Some(5));
    assert_eq!(c.max_depth, 7);
    let c = parse_go(&["movetime", "500", "nodes", "100", "infinite"]);
    assert_eq!(c.movetime, Some(500));
    assert_eq!(c.nodes_limit, Some(100));
    assert!(c.infinite);
    assert_eq!(c.max_depth, 64);
    let c = parse_go(&["depth", "300", "wtime", "x"]);
    assert_eq!(c.max_depth, 64);
    assert_eq!(c.wtime, None);
}

#[test]
fn position_startpos_with_moves() {
    let (board, history) = parse_position(&["startpos", "moves", "e2e4", "e7e5"]).unwrap();
    assert_eq!(history.len(), 3);
    assert_eq!(history[0], Board::new().zobrist_hash);
    assert_eq!(history[2], board.zobrist_hash);
    assert_eq!(board.get_piece_at(28).unwrap().kind, PieceKind::Pawn);
    assert_eq!(board.get_piece_at(36).unwrap().kind, PieceKind::Pawn);
}

#[test]
fn position_fen_and_refusals() {
    let (board, history) = parse_position(&["fen", "4k3/8/8/8/8/8/8/4K3", "w", "-", "-", "0", "1"]).unwrap();
    assert_eq!(history.len(), 1);
    assert!(board.get_piece_at(4).is_some());
    assert!(parse_position(&["startpos", "moves", "e2e5"]).is_none());
    assert!(parse_position(&["fen", "bad"]).is_none());
    assert!(parse_position(&["nonsense"]).is_none());
    assert!(parse_position(&[]).is_none());
}

#[test]
fn uci_move_names() {
    let board = Board::new();
    let e2e4 = move_from_uci(&board, "e2e4").unwrap();
    assert_eq!((e2e4.from, e2e4.to), (12, 28));
    assert!(move_from_uci(&board, "e2e5").is_none());
    assert!(move_from_uci(&board, "e2").is_none());
    let promo = Board::from_fen("8/P6k/8/8/8/8/8/K7 w - - 0 1").unwrap();
    let q = move_from_uci(&promo, "a7a8").unwrap();
    assert_eq!(q.promotion, Some(PieceKind::Queen));
    let n = move_from_uci(&promo, "a7a8n").unwrap();
    assert_eq!(n.promotion, Some(PieceKind::Knight));
    assert_eq!(n.to_uci(), "a7a8n");
}

#[test]
fn printed_moves_parse_back() {
    for fen in [
        "rnbqkbnr/pppppppp/8/8/8/8/PPPPPPPP/RNBQKBNR w KQkq - 0 1",
        "r3k2r/p1ppqpb1/bn2pnp1/3PN3/1p2P3/2N2Q1p/PPPBBPPP/R3K2R w KQkq - 0 1",
        "n1n5/PPPk4/8/8/8/8/4Kppp/5N1N b - - 0 1",
    ] {
        let board = Board::from_fen(fen).unwrap();
        for mv in board.generate_legal_moves() {
            let text = mv.to_uci();
            assert_eq!(move_from_uci(&board, &text), Some(mv), "{}", text);
        }
    }
    let castle = Move { from: 4, to: 6, promotion: None, is_castling: true, is_en_passant: false };
    assert_eq!(castle.to_uci(), "e1g1");
}
