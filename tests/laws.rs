use chess::board::Board;
use chess::movegen::{ChessMove, MoveGen};
use chess::piece::{PieceKind, Player};

fn all_boards(board: &Board) -> Vec<u64> {
    let mut v = board.black.to_vec();
    v.extend_from_slice(&board.white);
    v
}

fn pairwise_disjoint(board: &Board) -> bool {
    let b = all_boards(board);
    for i in 0..b.len() {
        for j in (i + 1)..b.len() {
            if b[i] & b[j] != 0 {
                return false;
            }
        }
    }
    true
}

#[test]
fn bitsets_stay_disjoint_through_play() {
    let mut board = Board::new();
    board.reset();
    assert!(pairwise_disjoint(&board));
    // Always play the last offered move, for a few dozen plies.
    for _ in 0..40 {
        let moves = MoveGen::all(&board, board.get_turn());
        if moves.is_empty() || board.is_game_over() {
            break;
        }
        board.apply_move(moves[moves.len() - 1]);
        if board.promoting.is_some() {
            board.promote_to(PieceKind::Queen);
        }
        assert!(pairwise_disjoint(&board));
    }
}

#[test]
fn turn_alternates_and_promotion_keeps_it() {
    let mut board = Board::new();
    board.reset();
    assert_eq!(board.get_turn(), Player::White);
    board.apply_move(ChessMove::new(52, 36, PieceKind::Pawn, Player::White));
    assert_eq!(board.get_turn(), Player::Black);
    board.apply_move(ChessMove::new(12, 28, PieceKind::Pawn, Player::Black));
    assert_eq!(board.get_turn(), Player::White);

    let mut promo = Board::new();
    promo.swap_turns();
    promo.set(PieceKind::Pawn, false, 1u64 << 50);
    promo.apply_move(ChessMove::new(50, 58, PieceKind::Pawn, Player::Black));
    assert_eq!(promo.get_turn(), Player::White);
    promo.promote_to(PieceKind::Knight);
    assert_eq!(promo.get_turn(), Player::White);
    assert_eq!(promo.black[1], 1u64 << 58);
}

#[test]
fn en_passant_target_lives_one_move() {
    let mut board = Board::new();
    board.reset();
    // b2-b4: rows 6 to 4 in column 1, skipping b3.
    board.apply_move(ChessMove::new(49, 33, PieceKind::Pawn, Player::White));
    assert_eq!(board.en_passant_target, Some(41));
    board.apply_move(ChessMove::new(1, 18, PieceKind::Knight, Player::Black));
    assert_eq!(board.en_passant_target, None);
    board.apply_move(ChessMove::new(33, 25, PieceKind::Pawn, Player::White));
    assert_eq!(board.en_passant_target, None);
    board.apply_move(ChessMove::new(10, 26, PieceKind::Pawn, Player::Black));
    assert_eq!(board.en_passant_target, Some(18));
}

#[test]
fn castling_rights_never_come_back() {
    let mut board = Board::new();
    board.set(PieceKind::King, true, 1u64 << 60);
    board.set(PieceKind::Rook, true, (1u64 << 56) | (1u64 << 63));
    board.set(PieceKind::King, false, 1u64 << 4);
    board.white_castling_k = true;
    board.white_castling_q = true;
    board.apply_move(ChessMove::new(60, 61, PieceKind::King, Player::White));
    assert!(!board.white_castling_k && !board.white_castling_q);
    board.apply_move(ChessMove::new(4, 5, PieceKind::King, Player::Black));
    board.apply_move(ChessMove::new(61, 60, PieceKind::King, Player::White));
    assert!(!board.white_castling_k && !board.white_castling_q);
    assert!(!board.can_castle_kingside());
}

#[test]
fn quiet_move_and_its_inverse_restore_the_bitsets() {
    let mut board = Board::new();
    board.reset();
    let before = all_boards(&board);
    board.apply_move(ChessMove::new(62, 45, PieceKind::Knight, Player::White));
    assert_ne!(all_boards(&board), before);
    board.apply_move(ChessMove::new(45, 62, PieceKind::Knight, Player::White));
    assert_eq!(all_boards(&board), before);
}
