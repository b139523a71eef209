use pelanca::board::Board;
use pelanca::fen::FenError;
use pelanca::perft::{perft, perft_divide, perft_with_tt};
use pelanca::perft_tt::PerftTT;
use pelanca::types::{Color, Move, PieceKind};
use pelanca::intrinsics::{get_occupancy_index, popcount, pop_lsb};

const KIWIPETE: &str = "r3k2r/p1ppqpb1/bn2pnp1/3PN3/1p2P3/2N2Q1p/PPPBBPPP/R3K2R w KQkq - 0 1";

#[test]
fn perft_start_position_depth_three() {
    let mut board = Board::new();
    assert_eq!(perft(&mut board, 3), 8902);
}

#[test]
fn perft_kiwipete_depths_one_and_two() {
    let mut board = Board::from_fen(KIWIPETE).unwrap();
    assert_eq!(perft(&mut board, 1), 48);
    assert_eq!(perft(&mut board, 2), 2039);
}

#[test]
fn perft_with_table_matches_plain_perft() {
    let mut board = Board::from_fen(KIWIPETE).unwrap();
    let mut tt = PerftTT::new();
    let with_tt = perft_with_tt(&mut board, 2, &mut tt);
    let plain = perft(&mut board, 2);
    assert_eq!(with_tt, plain);
}

#[test]
fn perft_divide_sums_to_perft() {
    let mut board = Board::new();
    let parts = perft_divide(&mut board, 2);
    let total: u64 = parts.iter().map(|(_, n)| *n).sum();
    assert_eq!(parts.len(), 20);
    assert_eq!(total, 400);
}

#[test]
fn make_then_unmake_restores_every_position() {
    for fen in [KIWIPETE, "rnbqkbnr/pppppppp/8/8/8/8/PPPPPPPP/RNBQKBNR w KQkq - 0 1"] {
        let board = Board::from_fen(fen).unwrap();
        for mv in board.generate_legal_moves() {
            let mut b = board;
            let undo = b.make_move_with_undo(mv);
            assert_eq!(b.zobrist_hash, b.compute_hash());
            b.unmake_move(mv, undo);
            assert_eq!(b.zobrist_hash, board.zobrist_hash);
            assert_eq!(b.white_pieces, board.white_pieces);
            assert_eq!(b.black_pieces, board.black_pieces);
            assert_eq!(b.pawns, board.pawns);
            assert_eq!(b.castling_rights, board.castling_rights);
            assert_eq!(b.en_passant_target, board.en_passant_target);
            assert_eq!(b.to_move, board.to_move);
        }
    }
}

#[test]
fn fools_mate_is_checkmate() {
    let board = Board::from_fen("rnb1kbnr/pppp1ppp/8/4p3/6Pq/5P2/PPPPP2P/RNBQKBNR w KQkq - 1 3").unwrap();
    assert!(board.is_checkmate());
    assert!(!board.is_stalemate());
    assert!(board.is_game_over());
    assert_eq!(board.generate_legal_moves().len(), 0);
}

#[test]
fn cornered_king_is_stalemate() {
    let board = Board::from_fen("7k/5Q2/6K1/8/8/8/8/8 b - - 0 1").unwrap();
    assert!(board.is_stalemate());
    assert!(!board.is_checkmate());
    assert!(board.is_game_over());
}

#[test]
fn bare_kings_are_a_draw() {
    let board = Board::from_fen("8/8/8/4k3/8/8/8/4K3 w - - 0 1").unwrap();
    assert!(board.is_draw_by_insufficient_material());
    let board = Board::from_fen("8/8/8/4k3/8/8/4P3/4K3 w - - 0 1").unwrap();
    assert!(!board.is_draw_by_insufficient_material());
}

#[test]
fn fifty_move_rule() {
    let board = Board::from_fen("8/8/8/4k3/8/8/4P3/4K3 w - - 100 80").unwrap();
    assert!(board.is_draw_by_50_moves());
    let board = Board::from_fen("8/8/8/4k3/8/8/4P3/4K3 w - - 99 80").unwrap();
    assert!(!board.is_draw_by_50_moves());
}

#[test]
fn fen_errors_name_the_bad_field() {
    assert_eq!(Board::from_fen("8/8/8/8/8/8/8/9 w - - 0 1").err(), Some(FenError::Placement));
    assert_eq!(Board::from_fen("8/8/8/8/8/8/8/8 x - - 0 1").err(), Some(FenError::SideToMove));
    assert_eq!(Board::from_fen("8/8/8/8/8/8/8/8 w KX - 0 1").err(), Some(FenError::Castling));
    assert_eq!(Board::from_fen("8/8/8/8/8/8/8/8 w - z9 0 1").err(), Some(FenError::EnPassant));
    assert_eq!(Board::from_fen("8/8/8/8/8/8/8/8 w - - x 1").err(), Some(FenError::HalfmoveClock));
    assert_eq!(Board::from_fen("8/8/8/8/8/8/8/8 w - - 0 y").err(), Some(FenError::FullmoveNumber));
}

#[test]
fn fen_reads_side_castling_and_en_passant() {
    let board = Board::from_fen("rnbqkbnr/pppp1ppp/8/4p3/4P3/8/PPPP1PPP/RNBQKBNR w Kq e6 0 2").unwrap();
    assert_eq!(board.to_move, Color::White);
    assert_eq!(board.castling_rights, 0b0001 | 0b1000);
    assert_eq!(board.en_passant_target, Some(44));
    assert_eq!(board.halfmove_clock, 0);
}

#[test]
fn start_position_pieces() {
    let board = Board::new();
    assert_eq!(board.piece_count(Color::White, PieceKind::Pawn), 8);
    assert_eq!(board.piece_count(Color::Black, PieceKind::Knight), 2);
    let p = board.get_piece_at(4).unwrap();
    assert_eq!(p.kind, PieceKind::King);
    assert_eq!(p.color, Color::White);
    assert!(board.get_piece_at(20).is_none());
}

#[test]
fn en_passant_capture_is_generated_and_played() {
    let board = Board::from_fen("4k3/8/8/3pP3/8/8/8/4K3 w - d6 0 1").unwrap();
    let ep = Move { from: 36, to: 43, promotion: None, is_castling: false, is_en_passant: true };
    assert!(board.generate_legal_moves().contains(&ep));
    let mut b = board;
    b.make_move(ep);
    assert!(b.get_piece_at(35).is_none());
    assert_eq!(b.get_piece_at(43).unwrap().kind, PieceKind::Pawn);
}

#[test]
fn see_of_pawn_takes_knight() {
    let board = Board::from_fen("4k3/8/8/3n4/4P3/8/8/4K3 w - - 0 1").unwrap();
    let mv = Move { from: 28, to: 35, promotion: None, is_castling: false, is_en_passant: false };
    assert_eq!(board.see(mv), 320);
}

#[test]
fn see_of_knight_takes_defended_pawn() {
    let board = Board::from_fen("4k3/8/2p5/3p4/8/4N3/8/4K3 w - - 0 1").unwrap();
    let mv = Move { from: 20, to: 35, promotion: None, is_castling: false, is_en_passant: false };
    assert_eq!(board.see(mv), 100 - 320);
}

#[test]
fn occupancy_index_packs_masked_bits() {
    assert_eq!(get_occupancy_index(0xFF, 0xF0), 0xF);
    assert_eq!(get_occupancy_index(0b1000, 0b1010), 0b10);
    assert_eq!(get_occupancy_index(u64::MAX, 0), 0);
    assert_eq!(get_occupancy_index(0x8000_0000_0000_0001, 0x8000_0000_0000_0001), 0b11);
}

#[test]
fn bit_helpers() {
    assert_eq!(popcount(0xF0F0), 8);
    let mut bb: u64 = 0b10100;
    assert_eq!(pop_lsb(&mut bb), 2);
    assert_eq!(bb, 0b10000);
}
