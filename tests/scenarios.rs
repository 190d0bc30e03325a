use chess::board::Board;
use chess::movegen::{ChessMove, MoveGen};
use chess::piece::{PieceKind, Player};

fn square(name: &str) -> i32 {
    let b = name.as_bytes();
    let col = (b[0] - b'a') as i32;
    let rank = (b[1] - b'0') as i32;
    (8 - rank) * 8 + col
}

fn pawn_move(from: &str, to: &str, player: Player) -> ChessMove {
    ChessMove::new(square(from), square(to), PieceKind::Pawn, player)
}

fn has(bitboard: u64, name: &str) -> bool {
    bitboard & (1u64 << square(name)) != 0
}

#[test]
fn en_passant_after_double_push() {
    let mut board = Board::new();
    board.reset();
    let mut f6_ever_taken = false;
    let moves = [
        pawn_move("e2", "e4", Player::White),
        pawn_move("d7", "d5", Player::Black),
        pawn_move("e4", "e5", Player::White),
        pawn_move("f7", "f5", Player::Black),
    ];
    for m in moves {
        assert!(MoveGen::all(&board, board.get_turn()).contains(&m));
        board.apply_move(m);
        if board.at((2, 5)).is_some() {
            f6_ever_taken = true;
        }
    }
    assert_eq!(board.en_passant_target, Some(square("f6")));
    assert!(!f6_ever_taken);
    assert!(has(board.black[0], "f5"));

    board.apply_move(pawn_move("e5", "f6", Player::White));
    assert!(!has(board.black[0], "f5"));
    assert!(!has(board.white[0], "e5"));
    assert!(has(board.white[0], "f6"));
    assert_eq!(board.en_passant_target, None);
    assert_eq!(board.get_turn(), Player::Black);
}

#[test]
fn kingside_castling_blocked_by_attack() {
    let mut board = Board::new();
    board.set(PieceKind::King, true, 1u64 << square("e1"));
    board.set(PieceKind::Rook, true, 1u64 << square("h1"));
    board.set(PieceKind::King, false, 1u64 << square("a8"));
    board.white_castling_k = true;
    assert!(board.is_path_clear_castling(Player::White, true));
    assert!(board.can_castle_kingside());

    // A black rook on f8 looks down the empty f-file at f1.
    board.set(PieceKind::Rook, false, 1u64 << square("f8"));
    assert!(board.is_square_attacked_by((7, 5), Player::Black));
    assert!(board.white_castling_k);
    assert!(board.is_path_clear_castling(Player::White, true));
    assert!(!board.can_castle_kingside());
    let king_moves = MoveGen::king(&board, Player::White, (7, 4));
    assert!(!king_moves.iter().any(|m| m.to == square("g1")));
}

#[test]
fn promotion_is_deferred_to_the_mover() {
    let mut board = Board::new();
    board.set(PieceKind::Pawn, true, 1u64 << square("a7"));
    board.set(PieceKind::King, true, 1u64 << square("e1"));
    board.set(PieceKind::King, false, 1u64 << square("h8"));
    let m = pawn_move("a7", "a8", Player::White);
    assert!(MoveGen::all(&board, Player::White).contains(&m));
    board.apply_move(m);
    assert_eq!(board.get_turn(), Player::Black);
    assert_eq!(board.promoting, Some(1u64 << square("a8")));
    assert!(has(board.white[0], "a8"));

    board.promote_to(PieceKind::Queen);
    assert!(has(board.white[4], "a8"));
    assert!(!has(board.white[0], "a8"));
    assert_eq!(board.black[4], 0);
    assert_eq!(board.promoting, None);
    assert_eq!(board.get_turn(), Player::Black);
}
