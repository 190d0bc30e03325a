//! Committing a move to the board, and completing a pending promotion.
use vstd::prelude::*;
use crate::bits::{has_bit, bit, group_bits};
use crate::piece::{Piece, PieceKind, Player, other};
use crate::board::{Board, sq, home_row};
use crate::movegen::ChessMove;

verus! {

broadcast use group_bits;

/// Where the rook goes when `p`'s king castles onto square `to`: its home
/// square and the square beside the king.
pub open spec fn castle_rook(p: Player, to: int) -> Option<(int, int)> {
    match p {
        Player::White => if to == sq(7, 6) {
            Some((sq(7, 7), sq(7, 5)))
        } else if to == sq(7, 2) {
            Some((sq(7, 0), sq(7, 3)))
        } else {
            None
        },
        Player::Black => if to == sq(0, 6) {
            Some((sq(0, 7), sq(0, 5)))
        } else if to == sq(0, 2) {
            Some((sq(0, 0), sq(0, 3)))
        } else {
            None
        },
    }
}

/// Home square of `p`'s kingside (`kingside`) or queenside rook.
pub open spec fn rook_home(p: Player, kingside: bool) -> int {
    sq(home_row(p), if kingside { 7 } else { 0 })
}

/// A pawn move across two rows.
pub open spec fn double_push(m: ChessMove) -> bool {
    m.kind == PieceKind::Pawn && (m.from_row() - m.to_row() == 2 || m.to_row() - m.from_row() == 2)
}

/// The en-passant target a move leaves behind: the skipped square of a double push.
pub open spec fn en_passant_after(m: ChessMove) -> Option<i32> {
    if double_push(m) {
        Some(sq((m.from_row() + m.to_row()) / 2, m.from_col()) as i32)
    } else {
        None
    }
}

/// A pawn landing on the far rank.
pub open spec fn promotes(m: ChessMove) -> bool {
    m.kind == PieceKind::Pawn && ((m.player == Player::White && m.to_row() == 0) || (m.player
        == Player::Black && m.to_row() == 7))
}

/// A castling right of `p` survives `m`, whose destination held `victim`.
pub open spec fn right_survives(
    m: ChessMove,
    victim: Option<(Player, PieceKind)>,
    p: Player,
    kingside: bool,
) -> bool {
    &&& !(m.player == p && m.kind == PieceKind::King)
    &&& !(m.player == p && m.kind == PieceKind::Rook && m.from == rook_home(p, kingside))
    &&& !(victim == Some((p, PieceKind::Rook)) && m.to == rook_home(p, kingside))
}

/// The player and kind of a piece, if any.
pub open spec fn identity(piece: Option<Piece>) -> Option<(Player, PieceKind)> {
    match piece {
        Some(pc) => Some((pc.player, pc.kind)),
        None => None,
    }
}

impl Board {
    /// A pawn moving diagonally onto an empty square takes en passant.
    pub open spec fn en_passant_capture(self, m: ChessMove) -> bool {
        m.kind == PieceKind::Pawn && self.occupant(m.to as int) is None && m.from_col() != m.to_col()
    }

    /// The bitset of `p`'s pieces of kind `k` once `m` is applied: the pawn
    /// taken en passant (on the mover's origin row, the destination's column)
    /// and the piece standing on the destination are removed, the mover's
    /// bits at source and destination are toggled, and a castling king's rook
    /// is toggled between its home square and the square beside the king.
    pub open spec fn bb_after(self, m: ChessMove, p: Player, k: PieceKind) -> u64 {
        let b3 = self.bb_moved(m, p, k);
        if m.castling_shape() && p == m.player && k == PieceKind::Rook {
            match castle_rook(p, m.to as int) {
                Some((rf, rt)) => b3 ^ (bit(rf) | bit(rt)),
                None => b3,
            }
        } else {
            b3
        }
    }

    /// The en-passant victim removed.
    pub open spec fn bb_passed(self, m: ChessMove, p: Player, k: PieceKind) -> u64 {
        if self.en_passant_capture(m) && p == other(m.player) && k == PieceKind::Pawn {
            self.bb(p, k) & !bit(sq(m.from_row(), m.to_col()))
        } else {
            self.bb(p, k)
        }
    }

    /// Then the piece on the destination removed.
    pub open spec fn bb_captured(self, m: ChessMove, p: Player, k: PieceKind) -> u64 {
        if self.occupant(m.to as int) == Some((p, k)) {
            self.bb_passed(m, p, k) & !bit(m.to as int)
        } else {
            self.bb_passed(m, p, k)
        }
    }

    /// Then the mover toggled off its source and onto its destination.
    pub open spec fn bb_moved(self, m: ChessMove, p: Player, k: PieceKind) -> u64 {
        if p == m.player && k == m.kind {
            self.bb_captured(m, p, k) ^ (bit(m.from as int) | bit(m.to as int))
        } else {
            self.bb_captured(m, p, k)
        }
    }

    /// A castling right of `p` survives `m`: `p`'s king does not move, `p`'s
    /// rook does not leave that home square, and no rook of `p` is taken there.
    pub open spec fn keeps_right(self, m: ChessMove, p: Player, kingside: bool) -> bool {
        right_survives(m, self.occupant(m.to as int), p, kingside)
    }

    /// `next` is this board after `m` is applied.
    pub open spec fn successor(self, m: ChessMove, next: Board) -> bool {
        &&& forall|p: Player, k: PieceKind| #[trigger] next.bb(p, k) == self.bb_after(m, p, k)
        &&& next.white_castling_k == (self.white_castling_k && self.keeps_right(
            m,
            Player::White,
            true,
        ))
        &&& next.white_castling_q == (self.white_castling_q && self.keeps_right(
            m,
            Player::White,
            false,
        ))
        &&& next.black_castling_k == (self.black_castling_k && self.keeps_right(
            m,
            Player::Black,
            true,
        ))
        &&& next.black_castling_q == (self.black_castling_q && self.keeps_right(
            m,
            Player::Black,
            false,
        ))
        &&& next.en_passant_target == en_passant_after(m)
        &&& next.promoting == if promotes(m) {
            Some(bit(m.to as int))
        } else {
            self.promoting
        }
        &&& next.turn == other(self.turn)
        &&& next.selected_piece == self.selected_piece
        &&& next.bits == self.bits
        &&& next.halfmove_clock == self.halfmove_clock
        &&& next.fullmove_number == self.fullmove_number
    }

    /// `next` is this board once the pending promotion becomes a piece of
    /// kind `k` of the player who moved last (the one not on turn).
    pub open spec fn promoted(self, k: PieceKind, next: Board) -> bool {
        let mask = self.promoting->Some_0;
        let p = other(self.turn);
        &&& forall|pb: Player, kb: PieceKind| #[trigger]
            next.bb(pb, kb) == if pb == p && kb == k {
                self.bb(p, k) | mask
            } else if pb == p && kb == PieceKind::Pawn {
                self.bb(p, PieceKind::Pawn) & !mask
            } else {
                self.bb(pb, kb)
            }
        &&& next.promoting is None
        &&& next.turn == self.turn
        &&& next.white_castling_k == self.white_castling_k
        &&& next.white_castling_q == self.white_castling_q
        &&& next.black_castling_k == self.black_castling_k
        &&& next.black_castling_q == self.black_castling_q
        &&& next.en_passant_target == self.en_passant_target
        &&& next.selected_piece == self.selected_piece
        &&& next.bits == self.bits
        &&& next.halfmove_clock == self.halfmove_clock
        &&& next.fullmove_number == self.fullmove_number
    }

    fn castle_rook_squares(p: Player, to: i32) -> (r: Option<(i32, i32)>)
        ensures
            match castle_rook(p, to as int) {
                Some((rf, rt)) => r == Some((rf as i32, rt as i32)),
                None => r is None,
            },
    {
        match p {
            Player::White => if to == 62 {
                Some((63, 61))
            } else if to == 58 {
                Some((56, 59))
            } else {
                None
            },
            Player::Black => if to == 6 {
                Some((7, 5))
            } else if to == 2 {
                Some((0, 3))
            } else {
                None
            },
        }
    }

    /// Castling rights after `m`, whose destination held `victim`.
    fn withdraw_rights(&mut self, m: ChessMove, victim: Option<Piece>)
        ensures
            final(self).white_castling_k == (old(self).white_castling_k && right_survives(
                m,
                identity(victim),
                Player::White,
                true,
            )),
            final(self).white_castling_q == (old(self).white_castling_q && right_survives(
                m,
                identity(victim),
                Player::White,
                false,
            )),
            final(self).black_castling_k == (old(self).black_castling_k && right_survives(
                m,
                identity(victim),
                Player::Black,
                true,
            )),
            final(self).black_castling_q == (old(self).black_castling_q && right_survives(
                m,
                identity(victim),
                Player::Black,
                false,
            )),
            *final(self) == (Board {
                white_castling_k: final(self).white_castling_k,
                white_castling_q: final(self).white_castling_q,
                black_castling_k: final(self).black_castling_k,
                black_castling_q: final(self).black_castling_q,
                ..*old(self)
            }),
    {
        // Castling rights.
        match (m.kind, m.player) {
            (PieceKind::King, Player::White) => {
                self.white_castling_k = false;
                self.white_castling_q = false;
            },
            (PieceKind::Rook, Player::White) => {
                if m.from == 56 {
                    self.white_castling_q = false;
                } else if m.from == 63 {
                    self.white_castling_k = false;
                }
            },
            (PieceKind::King, Player::Black) => {
                self.black_castling_k = false;
                self.black_castling_q = false;
            },
            (PieceKind::Rook, Player::Black) => {
                if m.from == 0 {
                    self.black_castling_q = false;
                } else if m.from == 7 {
                    self.black_castling_k = false;
                }
            },
            _ => {},
        }

        // A rook taken on its home square takes its right with it.
        match victim {
            Some(piece) => {
                if piece.kind == PieceKind::Rook {
                    match piece.player {
                        Player::White => if m.to == 56 {
                            self.white_castling_q = false;
                        } else if m.to == 63 {
                            self.white_castling_k = false;
                        },
                        Player::Black => if m.to == 0 {
                            self.black_castling_q = false;
                        } else if m.to == 7 {
                            self.black_castling_k = false;
                        },
                    }
                }
            },
            None => {},
        }
    }

    /// Commits `m`: en-passant target cleared, captures (en passant
    /// included), the piece moved, a new en-passant target after a double
    /// push, the rook of a castling king moved, a promotion left pending,
    /// castling rights withdrawn, and the turn passed.
    pub fn apply_move(&mut self, m: ChessMove)
        requires
            m.in_range(),
        ensures
            old(self).successor(m, *final(self)),
            old(self).consistent() && old(self).promoting is None && old(self).generated(
                old(self).turn,
                m,
            ) ==> final(self).consistent(),
    {
        let ghost start = *self;
        self.en_passant_target = None;

        let victim = self.at(Self::index_to_row_col(m.to));
        let (from_row, from_col) = Self::index_to_row_col(m.from);
        let (to_row, to_col) = Self::index_to_row_col(m.to);

        // A pawn moving diagonally onto an empty square takes en passant.
        if m.kind == PieceKind::Pawn && victim.is_none() && from_col != to_col {
            let kill = Self::index_to_u64(Self::row_col_to_index(from_row, to_col));
            let opp = Self::opponent(m.player);
            let v = self.get_bb(opp, PieceKind::Pawn) & !kill;
            self.put_bb(opp, PieceKind::Pawn, v);
        }
        let ghost after_ep = *self;
        assert(sq(to_row as int, to_col as int) == m.to);
        assert forall|p: Player, k: PieceKind| #[trigger] after_ep.bb(p, k) == start.bb_passed(m, p, k) by {}

        // Ordinary captures.
        match victim {
            Some(piece) => {
                let v = self.get_bb(piece.player, piece.kind) & !Self::index_to_u64(m.to);
                self.put_bb(piece.player, piece.kind, v);
            },
            None => {},
        }
        let ghost after_capture = *self;
        assert forall|p: Player, k: PieceKind| #[trigger] after_capture.bb(p, k) == start.bb_captured(m, p, k) by {}

        // The piece itself.
        let v = self.get_bb(m.player, m.kind) ^ (Self::index_to_u64(m.from) | Self::index_to_u64(
            m.to,
        ));
        self.put_bb(m.player, m.kind, v);
        let ghost after_move = *self;
        assert forall|p: Player, k: PieceKind| #[trigger] after_move.bb(p, k) == start.bb_moved(m, p, k) by {}

        // A double push leaves the skipped square as the en-passant target.
        if m.kind == PieceKind::Pawn && (from_row - to_row == 2 || to_row - from_row == 2) {
            self.en_passant_target = Some(Self::row_col_to_index((from_row + to_row) / 2, from_col));
        }

        // The rook of a castling king.
        if m.is_castling() {
            match Self::castle_rook_squares(m.player, m.to) {
                Some((rf, rt)) => {
                    let v = self.get_bb(m.player, PieceKind::Rook) ^ (Self::index_to_u64(rf)
                        | Self::index_to_u64(rt));
                    self.put_bb(m.player, PieceKind::Rook, v);
                },
                None => {},
            }
        }
        let ghost after_rook = *self;
        assert forall|p: Player, k: PieceKind| #[trigger] after_rook.bb(p, k) == start.bb_after(m, p, k) by {
            assert(after_move.bb(p, k) == start.bb_moved(m, p, k));
        }

        // A pawn on the far rank waits for its new kind.
        if m.kind == PieceKind::Pawn && ((m.player == Player::White && to_row == 0) || (m.player
            == Player::Black && to_row == 7)) {
            self.promoting = Some(Self::index_to_u64(m.to));
        }

        self.withdraw_rights(m, victim);
        self.swap_turns();
        proof {
            assert forall|p: Player, k: PieceKind| #[trigger] self.bb(p, k) == start.bb_after(m, p, k) by {
                assert(after_rook.bb(p, k) == start.bb_after(m, p, k));
            }
            if start.consistent() && start.promoting is None && start.generated(start.turn, m) {
                crate::laws::lemma_apply_consistent(start, m, *self);
            }
        }
    }

    /// Completes a pending promotion: the pawn on the promotion square becomes
    /// a piece of kind `kind` of the player who moved last.
    pub fn promote_to(&mut self, kind: PieceKind)
        requires
            old(self).promoting is Some,
            kind != PieceKind::Pawn,
            kind != PieceKind::King,
        ensures
            old(self).promoted(kind, *final(self)),
            old(self).consistent() ==> final(self).consistent(),
    {
        let ghost start = *self;
        let mask = self.promoting.unwrap();
        let p = Self::opponent(self.turn);
        let v = self.get_bb(p, kind) | mask;
        self.put_bb(p, kind, v);
        let ghost mid = *self;
        let v = self.get_bb(p, PieceKind::Pawn) & !mask;
        self.put_bb(p, PieceKind::Pawn, v);
        let ghost last = *self;
        self.promoting = None;
        proof {
            assert(start.bb_updated(p, kind, start.bb(p, kind) | mask, mid));
            assert(mid.bb_updated(p, PieceKind::Pawn, start.bb(p, PieceKind::Pawn) & !mask, last));
            assert forall|pb: Player, kb: PieceKind| #[trigger] self.bb(pb, kb) == last.bb(pb, kb) by {}
            assert(start.promoted(kind, *self));
            if start.consistent() {
                crate::laws::lemma_promote_consistent(start, kind, *self);
            }
        }
    }
}

} // verus!
