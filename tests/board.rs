use chess::board::Board;
use chess::movegen::ChessMove;
use chess::piece::{Piece, PieceKind, Player, N_PIECES};

#[test]
fn new_board_is_empty() {
    let board = Board::new();
    assert_eq!(board.black, [0; N_PIECES]);
    assert_eq!(board.white, [0; N_PIECES]);
    assert_eq!(board.get_turn(), Player::White);
    assert!(!board.is_selected());
    assert!(board.is_game_over());
    assert_eq!(board.get_empty(), u64::MAX);
}

#[test]
fn reset_sets_up_the_opening() {
    let mut board = Board::new();
    board.reset();
    assert_eq!(board.black, [0xff00, 0x42, 0x24, 0x81, 0x08, 0x10]);
    assert_eq!(board.white[0], 0x00ff_0000_0000_0000);
    assert_eq!(board.white[5], 0x1000_0000_0000_0000);
    assert_eq!(board.get_occupied(Player::Black), 0xffff);
    assert_eq!(board.get_occupied(Player::White), 0xffff_0000_0000_0000);
    assert!(board.white_castling_k && board.white_castling_q);
    assert!(board.black_castling_k && board.black_castling_q);
    assert_eq!(board.fullmove_number, 1);
    assert!(!board.is_game_over());
}

#[test]
fn at_finds_owner_kind_and_square() {
    let mut board = Board::new();
    board.reset();
    let p = board.at((7, 4)).unwrap();
    assert_eq!(p, Piece::new(Player::White, PieceKind::King, 60));
    let q = board.at((0, 3)).unwrap();
    assert_eq!((q.player, q.kind, q.index), (Player::Black, PieceKind::Queen, 3));
    assert!(board.at((4, 4)).is_none());
}

#[test]
fn coordinates_convert_both_ways() {
    assert_eq!(Board::index_to_row_col(0), (0, 0));
    assert_eq!(Board::index_to_row_col(61), (7, 5));
    assert_eq!(Board::row_col_to_index(7, 5), 61);
    assert_eq!(Board::index_to_u64(9), 1u64 << 9);
    assert_eq!(Board::u64_to_index(1u64 << 37), 37);
    assert_eq!(Board::u64_to_index(0), 64);
    assert_eq!(Board::u64_to_row_col(1u64 << 63), (7, 7));
    assert_eq!(Board::row_col_to_u64(2, 3), 1u64 << 19);
    assert_eq!(Board::get_rows_and_cols(0b101 | (1u64 << 63)), vec![(0, 0), (0, 2), (7, 7)]);
    assert_eq!(Board::get_rows_and_cols(0), vec![]);
}

#[test]
fn off_board_counts_as_occupied() {
    let board = Board::new();
    assert!(board.is_occupied((-1, 0)));
    assert!(board.is_occupied((0, 8)));
    assert!(!board.is_occupied((3, 3)));
    assert!(!Board::in_bounds((8, 0)));
    assert!(Board::in_bounds((7, 7)));
    assert!(!board.is_valid((0, -1), 0));
    assert!(!board.is_valid((0, 0), 1));
    assert!(board.is_valid((0, 1), 1));
}

#[test]
fn selection_and_turns() {
    let mut board = Board::new();
    board.reset();
    board.select((6, 0));
    assert!(board.is_selected());
    assert_eq!(board.get_selected(), Piece::new(Player::White, PieceKind::Pawn, 48));
    board.bits = Some(7);
    board.deselect();
    assert!(!board.is_selected());
    assert_eq!(board.bits, None);
    board.swap_turns();
    assert_eq!(board.get_turn(), Player::Black);
    assert_eq!(Board::opponent(Player::Black), Player::White);
}

#[test]
fn capture_removes_the_victim() {
    let mut board = Board::new();
    board.set(PieceKind::Rook, true, 1u64 << 35);
    board.set(PieceKind::Knight, false, 1u64 << 3);
    board.apply_move(ChessMove::new(35, 3, PieceKind::Rook, Player::White));
    assert_eq!(board.black[1], 0);
    assert_eq!(board.white[3], 1u64 << 3);
}

#[test]
fn castling_moves_the_rook_and_drops_rights() {
    let mut board = Board::new();
    board.set(PieceKind::King, false, 1u64 << 4);
    board.set(PieceKind::Rook, false, 1u64 << 0);
    board.black_castling_q = true;
    board.black_castling_k = true;
    board.swap_turns();
    assert!(board.can_castle_queenside());
    board.apply_move(ChessMove::new(4, 2, PieceKind::King, Player::Black));
    assert_eq!(board.black[5], 1u64 << 2);
    assert_eq!(board.black[3], 1u64 << 3);
    assert!(!board.black_castling_q && !board.black_castling_k);
}

#[test]
fn rook_taken_at_home_takes_the_right() {
    let mut board = Board::new();
    board.set(PieceKind::Rook, true, 1u64 << 63);
    board.set(PieceKind::Bishop, false, 1u64 << 54);
    board.white_castling_k = true;
    board.white_castling_q = true;
    board.apply_move(ChessMove::new(54, 63, PieceKind::Bishop, Player::Black));
    assert!(!board.white_castling_k);
    assert!(board.white_castling_q);
    assert_eq!(board.white[3], 0);
}

#[test]
fn rook_leaving_home_drops_its_right_only() {
    let mut board = Board::new();
    board.set(PieceKind::Rook, true, 1u64 << 56);
    board.white_castling_k = true;
    board.white_castling_q = true;
    board.apply_move(ChessMove::new(56, 40, PieceKind::Rook, Player::White));
    assert!(!board.white_castling_q);
    assert!(board.white_castling_k);
}

#[test]
fn check_is_seen() {
    let mut board = Board::new();
    board.set(PieceKind::King, true, 1u64 << 60);
    board.set(PieceKind::Knight, false, 1u64 << 45);
    assert!(board.is_king_in_check(Player::White));
    assert!(!board.is_king_in_check(Player::Black));
    // A pawn attacks diagonally whether or not the square is taken.
    board.set(PieceKind::Pawn, false, 1u64 << 20);
    assert!(board.is_square_attacked_by((3, 3), Player::Black));
    assert!(!board.is_square_attacked_by((4, 4), Player::Black));
}

#[test]
fn names_of_players() {
    assert_eq!(Player::White.name(), "White");
    assert_eq!(Player::Black.name(), "Black");
    assert_eq!(PieceKind::iterator()[3], PieceKind::Rook);
    assert_eq!(PieceKind::Queen.index(), 4);
}
