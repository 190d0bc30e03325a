//! Attack and check detection, and whether castling is allowed. Castling
//! is judged through attack detection, which is built on the move lists
//! that leave castling out, so the two never call each other.
use vstd::prelude::*;
use vstd::seq_lib::lemma_seq_concat_contains_all_elements;
use crate::bits::group_bits;
use crate::piece::{PieceKind, Player};
use crate::board::{Board, sq};
use crate::movegen::{ChessMove, MoveGen};

verus! {

broadcast use group_bits, lemma_seq_concat_contains_all_elements;

proof fn bv_path_masks(a: u64)
    ensures
        (a & 0x6000000000000000u64 == 0) <==> (!((a >> 61u64) & 1u64 == 1u64) && !((a >> 62u64)
            & 1u64 == 1u64)),
        (a & 0x0e00000000000000u64 == 0) <==> (!((a >> 57u64) & 1u64 == 1u64) && !((a >> 58u64)
            & 1u64 == 1u64) && !((a >> 59u64) & 1u64 == 1u64)),
        (a & 0x60u64 == 0) <==> (!((a >> 5u64) & 1u64 == 1u64) && !((a >> 6u64) & 1u64 == 1u64)),
        (a & 0x0eu64 == 0) <==> (!((a >> 1u64) & 1u64 == 1u64) && !((a >> 2u64) & 1u64 == 1u64)
            && !((a >> 3u64) & 1u64 == 1u64)),
{
    assert((a & 0x6000000000000000u64 == 0) <==> (!((a >> 61u64) & 1u64 == 1u64) && !((a
        >> 62u64) & 1u64 == 1u64))) by (bit_vector);
    assert((a & 0x0e00000000000000u64 == 0) <==> (!((a >> 57u64) & 1u64 == 1u64) && !((a
        >> 58u64) & 1u64 == 1u64) && !((a >> 59u64) & 1u64 == 1u64))) by (bit_vector);
    assert((a & 0x60u64 == 0) <==> (!((a >> 5u64) & 1u64 == 1u64) && !((a >> 6u64) & 1u64
        == 1u64))) by (bit_vector);
    assert((a & 0x0eu64 == 0) <==> (!((a >> 1u64) & 1u64 == 1u64) && !((a >> 2u64) & 1u64
        == 1u64) && !((a >> 3u64) & 1u64 == 1u64))) by (bit_vector);
}

impl Board {
    /// The squares between `player`'s king and the rook on that side are empty.
    pub fn is_path_clear_castling(&self, player: Player, kingside: bool) -> (r: bool)
        ensures
            r == self.path_clear(player, kingside),
    {
        let all = self.get_occupied(Player::White) | self.get_occupied(Player::Black);
        let path_mask: u64 = match (player, kingside) {
            (Player::White, true) => 0x6000000000000000,
            (Player::White, false) => 0x0e00000000000000,
            (Player::Black, true) => 0x60,
            (Player::Black, false) => 0x0e,
        };
        proof {
            bv_path_masks(all);
        }
        (all & path_mask) == 0
    }

    /// Some piece of `player` attacks the square at `coords`.
    pub fn is_square_attacked_by(&self, coords: (i32, i32), player: Player) -> (r: bool)
        requires
            i32::MIN <= coords.0 * 8 <= i32::MAX,
            i32::MIN <= coords.0 * 8 + coords.1 <= i32::MAX,
        ensures
            r == self.attacked(sq(coords.0 as int, coords.1 as int), player),
    {
        let target = Board::row_col_to_index(coords.0, coords.1);
        let mut all = MoveGen::all_no_castling(self, player);
        let ghost plain = all@;
        let mut attacks = MoveGen::pawn_attacks(self, player);
        let ghost pawn = attacks@;
        all.append(&mut attacks);
        let mut i: usize = 0;
        while i < all.len()
            invariant
                0 <= i <= all@.len(),
                all@ == plain + pawn,
                target == sq(coords.0 as int, coords.1 as int),
                forall|m: ChessMove| #[trigger] plain.contains(m) <==> self.pseudo_legal(player, m),
                forall|m: ChessMove| #[trigger] pawn.contains(m) <==> self.pawn_attack(player, m),
                forall|j: int| 0 <= j < i ==> all@[j].to != target,
            decreases all@.len() - i,
        {
            if all[i].to == target {
                proof {
                    let m = all@[i as int];
                    assert(all@.contains(m));
                    assert(self.pseudo_legal(player, m) || self.pawn_attack(player, m));
                }
                return true;
            }
            i += 1;
        }
        proof {
            if self.attacked(target as int, player) {
                let m = choose|m: ChessMove| m.to == target && (self.pseudo_legal(player, m)
                    || self.pawn_attack(player, m));
                assert(all@.contains(m));
                let j = choose|j: int| 0 <= j < all@.len() && all@[j] == m;
                assert(all@[j].to != target);
            }
        }
        false
    }

    /// `player`'s king, the lowest square of its king bitset, is attacked.
    pub fn is_king_in_check(&self, player: Player) -> (r: bool)
        ensures
            r == self.in_check(player),
    {
        let king = self.get_bb(player, PieceKind::King);
        let coords = Board::u64_to_row_col(king);
        proof {
            vstd::std_specs::bits::axiom_u64_trailing_zeros(king);
        }
        self.is_square_attacked_by(coords, Self::opponent(player))
    }

    /// Whether `player` may castle kingside (`kingside`) or queenside.
    pub fn castle_allowed(&self, player: Player, kingside: bool) -> (r: bool)
        ensures
            r == self.castle_ok(player, kingside),
    {
        let h: i32 = match player {
            Player::White => 7,
            Player::Black => 0,
        };
        let right = match (player, kingside) {
            (Player::White, true) => self.white_castling_k,
            (Player::White, false) => self.white_castling_q,
            (Player::Black, true) => self.black_castling_k,
            (Player::Black, false) => self.black_castling_q,
        };
        let opp = Self::opponent(player);
        let (cross, land): (i32, i32) = if kingside {
            (5, 6)
        } else {
            (2, 3)
        };
        right && self.is_path_clear_castling(player, kingside) && !self.is_king_in_check(player)
            && !self.is_square_attacked_by((h, cross), opp) && !self.is_square_attacked_by(
            (h, land),
            opp,
        )
    }

    /// Whether the player to move may castle on the king's side.
    pub fn can_castle_kingside(&self) -> (r: bool)
        ensures
            r == self.castle_ok(self.turn, true),
    {
        self.castle_allowed(self.turn, true)
    }

    /// Whether the player to move may castle on the queen's side.
    pub fn can_castle_queenside(&self) -> (r: bool)
        ensures
            r == self.castle_ok(self.turn, false),
    {
        self.castle_allowed(self.turn, false)
    }
}

} // verus!
