use chess::board::Board;
use chess::piece::Player;

#[test]
fn opening_position_from_text() {
    let mut parsed = Board::new();
    parsed.apply_fen("rnbqkbnr/pppppppp/8/8/8/8/PPPPPPPP/RNBQKBNR w KQkq - 0 1".to_string());
    let mut reset = Board::new();
    reset.reset();
    assert_eq!(parsed.black, reset.black);
    assert_eq!(parsed.white, reset.white);
    assert_eq!(parsed.get_turn(), Player::White);
    assert!(parsed.white_castling_k && parsed.white_castling_q);
    assert!(parsed.black_castling_k && parsed.black_castling_q);
    assert_eq!(parsed.en_passant_target, None);
    assert_eq!(parsed.halfmove_clock, 0);
    assert_eq!(parsed.fullmove_number, 1);
}

#[test]
fn en_passant_square_and_counters() {
    let mut board = Board::new();
    board.apply_fen("rnbqkbnr/pppp1ppp/8/4p3/8/8/PPPPPPPP/RNBQKBNR b Kq e6 12 34".to_string());
    assert_eq!(board.get_turn(), Player::Black);
    assert_eq!(board.en_passant_target, Some(20));
    assert!(board.white_castling_k && !board.white_castling_q);
    assert!(!board.black_castling_k && board.black_castling_q);
    assert_eq!(board.halfmove_clock, 12);
    assert_eq!(board.fullmove_number, 34);
    assert_eq!(board.black[0], 0x0000_0000_1000_ef00);
}

#[test]
fn malformed_text_falls_back() {
    let mut board = Board::new();
    board.apply_fen("8/8/8".to_string());
    assert_eq!(board.black, [0; 6]);
    assert_eq!(board.get_turn(), Player::White);
    assert!(!board.white_castling_k);
    assert_eq!(board.en_passant_target, None);
    assert_eq!(board.fullmove_number, 0);

    let mut odd = Board::new();
    odd.apply_fen("k7/8/8/8/8/8/8/7K w - z9 x -7".to_string());
    assert_eq!(odd.black[5], 1);
    assert_eq!(odd.white[5], 1u64 << 63);
    assert_eq!(odd.en_passant_target, None);
    assert_eq!(odd.halfmove_clock, 0);
    assert_eq!(odd.fullmove_number, -7);

    let mut wide = Board::new();
    // A 9 is no square count: it is skipped, and the king lands on the first square.
    wide.apply_fen("9k/8/8/8/8/8/8/8 w - - 99999999999 +5".to_string());
    assert_eq!(wide.black[5], 1);
    assert_eq!(wide.halfmove_clock, 0);
    assert_eq!(wide.fullmove_number, 5);
}
