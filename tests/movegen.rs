use chess::board::Board;
use chess::movegen::{shift, ChessMove, MoveGen};
use chess::piece::{PieceKind, Player};

fn targets(moves: &[ChessMove]) -> Vec<i32> {
    let mut t: Vec<i32> = moves.iter().map(|m| m.to).collect();
    t.sort();
    t
}

#[test]
fn opening_offers_twenty_moves() {
    let mut board = Board::new();
    board.reset();
    assert_eq!(MoveGen::all(&board, Player::White).len(), 20);
    assert_eq!(MoveGen::all(&board, Player::Black).len(), 20);
    assert_eq!(MoveGen::pawns(&board, Player::White).len(), 16);
    assert_eq!(MoveGen::knights(&board, Player::White).len(), 4);
    assert!(MoveGen::bishops(&board, Player::White).is_empty());
    assert!(MoveGen::rooks(&board, Player::White).is_empty());
}

#[test]
fn pawn_pushes_and_captures() {
    let mut board = Board::new();
    board.set(PieceKind::Pawn, true, 1u64 << 52);
    assert_eq!(targets(&MoveGen::pawn(&board, Player::White, (6, 4))), vec![36, 44]);
    board.set(PieceKind::Knight, false, 1u64 << 36);
    assert_eq!(targets(&MoveGen::pawn(&board, Player::White, (6, 4))), vec![44]);
    board.set(PieceKind::Bishop, false, 1u64 << 43);
    board.set(PieceKind::Bishop, true, 1u64 << 45);
    assert_eq!(targets(&MoveGen::pawn(&board, Player::White, (6, 4))), vec![43, 44]);
    // Captures never wrap across the edge files.
    let mut edge = Board::new();
    edge.set(PieceKind::Pawn, false, 1u64 << 8);
    edge.set(PieceKind::Rook, true, 1u64 << 15);
    assert_eq!(targets(&MoveGen::pawn(&edge, Player::Black, (1, 0))), vec![16, 24]);
}

#[test]
fn pawn_attacks_cover_empty_diagonals() {
    let mut board = Board::new();
    board.set(PieceKind::Pawn, true, 1u64 << 48);
    assert_eq!(targets(&MoveGen::pawn_attacks(&board, Player::White)), vec![41]);
}

#[test]
fn knight_and_king_offsets() {
    let board = Board::new();
    assert_eq!(targets(&MoveGen::knight(&board, Player::White, (7, 0))), vec![41, 50]);
    assert_eq!(MoveGen::knight(&board, Player::White, (4, 4)).len(), 8);
    assert_eq!(MoveGen::king_no_castling(&board, Player::White, (4, 4)).len(), 8);
    assert_eq!(
        targets(&MoveGen::king_no_castling(&board, Player::White, (0, 0))),
        vec![1, 8, 9]
    );
}

#[test]
fn sliders_stop_at_pieces() {
    let mut board = Board::new();
    assert_eq!(MoveGen::rook(&board, Player::White, (4, 4)).len(), 14);
    assert_eq!(MoveGen::bishop(&board, Player::White, (4, 4)).len(), 13);
    assert_eq!(MoveGen::queen(&board, Player::White, (4, 4)).len(), 27);
    board.set(PieceKind::Pawn, true, 1u64 << 34);
    board.set(PieceKind::Pawn, false, 1u64 << 38);
    // Row 4 from column 4: left stops before the friend on column 2, right takes on column 6.
    let row: Vec<i32> = targets(&MoveGen::rook(&board, Player::White, (4, 4)))
        .into_iter()
        .filter(|t| t / 8 == 4)
        .collect();
    assert_eq!(row, vec![35, 37, 38]);
}

#[test]
fn moves_for_a_square() {
    let mut board = Board::new();
    board.reset();
    assert_eq!(targets(&MoveGen::piece_at(&board, (7, 6))), vec![45, 47]);
    assert_eq!(targets(&MoveGen::piece_at(&board, (1, 0))), vec![16, 24]);
}

#[test]
fn castling_offered_only_when_allowed() {
    let mut board = Board::new();
    board.set(PieceKind::King, true, 1u64 << 60);
    board.set(PieceKind::Rook, true, (1u64 << 56) | (1u64 << 63));
    board.white_castling_k = true;
    board.white_castling_q = true;
    let kings = targets(&MoveGen::king(&board, Player::White, (7, 4)));
    assert!(kings.contains(&62) && kings.contains(&58));
    assert!(!MoveGen::all_no_castling(&board, Player::White)
        .iter()
        .any(|m| m.kind == PieceKind::King && m.to == 62));
    assert!(ChessMove::new(60, 62, PieceKind::King, Player::White).is_castling());
    assert!(!ChessMove::new(60, 61, PieceKind::King, Player::White).is_castling());
    board.set(PieceKind::Knight, true, 1u64 << 57);
    assert!(!board.is_path_clear_castling(Player::White, false));
    assert!(!board.can_castle_queenside());
    assert!(board.can_castle_kingside());
}

#[test]
fn shifting_both_ways() {
    assert_eq!(shift(1, 3), 8);
    assert_eq!(shift(8, -3), 1);
    assert_eq!(shift(1, 64), 0);
    assert_eq!(shift(u64::MAX, -64), 0);
    assert_eq!(shift(5, 0), 5);
}

fn pairs(moves: &[ChessMove]) -> Vec<(i32, i32)> {
    moves.iter().map(|m| (m.from, m.to)).collect()
}

#[test]
fn lists_come_in_generation_order() {
    let mut board = Board::new();
    board.reset();
    // e2: the push, then the double push.
    assert_eq!(pairs(&MoveGen::pawn(&board, Player::White, (6, 4))), vec![(52, 44), (52, 36)]);
    // Pawns square by square: a2 first, h2 last.
    let pawns = pairs(&MoveGen::pawns(&board, Player::White));
    assert_eq!(pawns[0], (48, 40));
    assert_eq!(pawns[1], (48, 32));
    assert_eq!(pawns[15], (55, 39));
    // Attacks by square, the left diagonal before the right.
    let mut lone = Board::new();
    lone.set(PieceKind::Pawn, true, (1u64 << 50) | (1u64 << 52));
    assert_eq!(
        pairs(&MoveGen::pawn_attacks(&lone, Player::White)),
        vec![(50, 41), (50, 43), (52, 43), (52, 45)]
    );
}

#[test]
fn king_lists_steps_then_castling() {
    let mut board = Board::new();
    board.set(PieceKind::King, true, 1u64 << 60);
    board.set(PieceKind::Rook, true, (1u64 << 56) | (1u64 << 63));
    board.white_castling_k = true;
    board.white_castling_q = true;
    let king = pairs(&MoveGen::king(&board, Player::White, (7, 4)));
    assert_eq!(king, vec![(60, 51), (60, 52), (60, 53), (60, 59), (60, 61), (60, 62), (60, 58)]);
    assert_eq!(MoveGen::piece_at(&board, (7, 4)), MoveGen::king(&board, Player::White, (7, 4)));
    assert_eq!(MoveGen::piece_at(&board, (7, 0)), MoveGen::rook(&board, Player::White, (7, 0)));

    // The full list without its castling moves is the castling-free list.
    let without: Vec<ChessMove> = MoveGen::all(&board, Player::White)
        .into_iter()
        .filter(|m| !m.is_castling())
        .collect();
    assert_eq!(without, MoveGen::all_no_castling(&board, Player::White));
}

#[test]
fn castling_state_does_not_change_plain_moves() {
    let mut board = Board::new();
    board.reset();
    board.apply_move(ChessMove::new(52, 36, PieceKind::Pawn, Player::White));
    let mut other = Board::new();
    other.reset();
    other.apply_move(ChessMove::new(52, 36, PieceKind::Pawn, Player::White));
    other.white_castling_k = false;
    other.black_castling_q = false;
    other.en_passant_target = None;
    other.swap_turns();
    for p in [Player::White, Player::Black] {
        assert_eq!(MoveGen::all_no_castling(&board, p), MoveGen::all_no_castling(&other, p));
        assert_eq!(MoveGen::pawn_attacks(&board, p), MoveGen::pawn_attacks(&other, p));
    }
}

#[test]
fn castling_only_from_the_home_square() {
    let mut board = Board::new();
    board.set(PieceKind::King, true, 1u64 << 54);
    board.set(PieceKind::Rook, true, 1u64 << 63);
    board.white_castling_k = true;
    let king = MoveGen::king(&board, Player::White, (6, 6));
    assert_eq!(king.iter().filter(|m| m.to == 62).count(), 1);
    assert_eq!(king, MoveGen::king_no_castling(&board, Player::White, (6, 6)));
}
