use chess::bitboards::Bitboards;
use chess::piece::PieceKind;

#[test]
fn record_starts_empty() {
    let b = Bitboards::new();
    assert_eq!(b.black, [0; 6]);
    assert_eq!(b.white, [0; 6]);
    assert!(b.white_turn);
    assert_eq!(b.en_passant_target, None);
}

#[test]
fn set_adds_squares() {
    let mut b = Bitboards::new();
    b.set(PieceKind::Rook, true, 1);
    b.set(PieceKind::Rook, true, 1 << 7);
    b.set(PieceKind::Queen, false, 1 << 59);
    assert_eq!(b.white[3], 0x81);
    assert_eq!(b.black[4], 1 << 59);
    assert_eq!(b.black[3], 0);
}

#[test]
fn ranks_count_from_the_bottom() {
    let mut b = Bitboards::new();
    b.apply_fen("rnbqkbnr/pppppppp/8/8/8/8/PPPPPPPP/RNBQKBNR b KQkq - 3 17".to_string());
    assert_eq!(b.black[3], 0x8100_0000_0000_0000);
    assert_eq!(b.black[0], 0x00ff_0000_0000_0000);
    assert_eq!(b.white[0], 0xff00);
    assert_eq!(b.white[5], 0x10);
    assert!(!b.white_turn);
    assert!(b.white_castling_k && b.black_castling_q);
    assert_eq!(b.en_passant_target, None);
    assert_eq!(b.halfmove_clock, 3);
    assert_eq!(b.fullmove_number, 17);
}

#[test]
fn en_passant_kept_as_text() {
    let mut b = Bitboards::new();
    b.apply_fen("8/8/8/8/4P3/8/8/8 b - e3 0 1".to_string());
    assert_eq!(b.white[0], 1 << 28);
    assert_eq!(b.en_passant_target, Some("e3".to_string()));
    assert_eq!(b.halfmove_clock, 0);
    assert_eq!(b.fullmove_number, 1);
}

#[test]
fn standard_text_has_no_en_passant_square() {
    let mut b = Bitboards::new();
    b.apply_fen("rnbqkbnr/pppppppp/8/8/8/8/PPPPPPPP/RNBQKBNR w KQkq - 12 40".to_string());
    assert_eq!(b.black[0], 0x00ff_0000_0000_0000);
    assert_eq!(b.black[3], 0x8100_0000_0000_0000);
    assert_eq!(b.white[0], 0xff00);
    assert_eq!(b.white[3], 0x81);
    assert!(b.white_turn);
    assert!(b.white_castling_k && b.white_castling_q && b.black_castling_k && b.black_castling_q);
    assert_eq!(b.en_passant_target, None);
    assert_eq!(b.halfmove_clock, 12);
    assert_eq!(b.fullmove_number, 40);
}
