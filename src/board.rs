//! The authoritative game state: twelve bitsets, whose turn it is, castling
//! rights, the en-passant target and a pending promotion, with the queries
//! and the two mutating entry points (`apply_move`, `promote_to`).
use vstd::prelude::*;
use crate::bits::{has_bit, bit, group_bits};
use crate::piece::{Piece, PieceKind, Player, N_PIECES, kind_order, other};

verus! {

broadcast use group_bits;

pub struct Board {
    pub black: [u64; N_PIECES],
    pub white: [u64; N_PIECES],
    pub turn: Player,
    pub white_castling_k: bool,
    pub white_castling_q: bool,
    pub black_castling_k: bool,
    pub black_castling_q: bool,
    /// Square that a pawn skipped with its double push on the last move.
    pub en_passant_target: Option<i32>,
    pub halfmove_clock: i32,
    pub fullmove_number: i32,
    /// The piece a user has picked up, for highlighting.
    pub selected_piece: Option<Piece>,
    /// A bitset a front end may overlay on the board.
    pub bits: Option<u64>,
    /// One-square mask of a pawn that reached the last rank and awaits its new kind.
    pub promoting: Option<u64>,
}

/// Row and column both on the board.
pub open spec fn on_board(r: int, c: int) -> bool {
    0 <= r < 8 && 0 <= c < 8
}

/// Linear index of a row and column.
pub open spec fn sq(r: int, c: int) -> int {
    r * 8 + c
}

/// The row a player's pieces start on.
pub open spec fn home_row(p: Player) -> int {
    match p {
        Player::White => 7,
        Player::Black => 0,
    }
}

/// The first of the six kinds, from slot `j` on, whose bitset holds square `i`.
pub open spec fn first_kind_from(bbs: [u64; N_PIECES], i: int, j: int) -> Option<PieceKind>
    decreases 6 - j,
{
    if j < 0 || j >= 6 {
        None
    } else if has_bit(bbs[j], i) {
        Some(kind_order()[j])
    } else {
        first_kind_from(bbs, i, j + 1)
    }
}

impl Board {
    /// The bitset of `p`'s pieces of kind `k`.
    pub open spec fn bb(self, p: Player, k: PieceKind) -> u64 {
        match p {
            Player::White => self.white[k.slot()],
            Player::Black => self.black[k.slot()],
        }
    }

    /// No square holds two pieces.
    pub open spec fn disjoint(self) -> bool {
        forall|pa: Player, ka: PieceKind, pb: Player, kb: PieceKind, i: int|
            #[trigger] has_bit(self.bb(pa, ka), i) && #[trigger] has_bit(self.bb(pb, kb), i)
                ==> pa == pb && ka == kb
    }

    /// The union of `p`'s six bitsets.
    pub open spec fn occupied_bits(self, p: Player) -> u64 {
        self.bb(p, PieceKind::Pawn) | self.bb(p, PieceKind::Knight) | self.bb(p, PieceKind::Bishop)
            | self.bb(p, PieceKind::Rook) | self.bb(p, PieceKind::Queen) | self.bb(
            p,
            PieceKind::King,
        )
    }

    /// Some piece stands on square `i`.
    pub open spec fn occupied(self, i: int) -> bool {
        has_bit(self.occupied_bits(Player::White) | self.occupied_bits(Player::Black), i)
    }

    /// A probe at row `r`, column `c` is stopped: the square is off the board or taken.
    pub open spec fn blocked(self, r: int, c: int) -> bool {
        !on_board(r, c) || self.occupied(sq(r, c))
    }

    /// A piece of `p` may land on row `r`, column `c`: on the board and not held by `p`.
    pub open spec fn open_for(self, p: Player, r: int, c: int) -> bool {
        on_board(r, c) && !has_bit(self.occupied_bits(p), sq(r, c))
    }

    /// Who stands on square `i`: Black's bitsets are searched before White's,
    /// each in storage order.
    pub open spec fn occupant(self, i: int) -> Option<(Player, PieceKind)> {
        match first_kind_from(self.black, i, 0) {
            Some(k) => Some((Player::Black, k)),
            None => match first_kind_from(self.white, i, 0) {
                Some(k) => Some((Player::White, k)),
                None => None,
            },
        }
    }

    /// The same board with `p`'s bitset of kind `k` set to `v`.
    pub open spec fn bb_updated(self, p: Player, k: PieceKind, v: u64, next: Board) -> bool {
        &&& forall|pb: Player, kb: PieceKind| #[trigger]
            next.bb(pb, kb) == if pb == p && kb == k {
                v
            } else {
                self.bb(pb, kb)
            }
        &&& next.same_but_bitsets(self)
    }

    /// Every field but the twelve bitsets is that of `other`.
    pub open spec fn same_but_bitsets(self, o: Board) -> bool {
        &&& self.turn == o.turn
        &&& self.selected_piece == o.selected_piece
        &&& self.white_castling_k == o.white_castling_k
        &&& self.white_castling_q == o.white_castling_q
        &&& self.black_castling_k == o.black_castling_k
        &&& self.black_castling_q == o.black_castling_q
        &&& self.en_passant_target == o.en_passant_target
        &&& self.halfmove_clock == o.halfmove_clock
        &&& self.fullmove_number == o.fullmove_number
        &&& self.bits == o.bits
        &&& self.promoting == o.promoting
    }

    /// An empty board, White to move, no rights, nothing pending.
    pub open spec fn is_empty_board(self) -> bool {
        &&& forall|p: Player, k: PieceKind| #[trigger] self.bb(p, k) == 0
        &&& self.turn == Player::White
        &&& !self.white_castling_k && !self.white_castling_q
        &&& !self.black_castling_k && !self.black_castling_q
        &&& self.en_passant_target is None
        &&& self.halfmove_clock == 0
        &&& self.fullmove_number == 0
        &&& self.selected_piece is None
        &&& self.bits is None
        &&& self.promoting is None
    }

    pub fn new() -> (r: Self)
        ensures
            r.is_empty_board(),
            r.consistent(),
    {
        let r = Self {
            black: [0; N_PIECES],
            white: [0; N_PIECES],
            turn: Player::White,
            white_castling_k: false,
            white_castling_q: false,
            black_castling_k: false,
            black_castling_q: false,
            en_passant_target: None,
            halfmove_clock: 0,
            fullmove_number: 0,
            selected_piece: None,
            bits: None,
            promoting: None,
        };
        assert(forall|p: Player, k: PieceKind| #[trigger] r.bb(p, k) == 0);
        r
    }

    /// Sets `p`'s bitset of kind `k` to `v`.
    pub(crate) fn put_bb(&mut self, p: Player, k: PieceKind, v: u64)
        ensures
            old(self).bb_updated(p, k, v, *final(self)),
    {
        let i = k.index();
        match p {
            Player::White => self.white[i] = v,
            Player::Black => self.black[i] = v,
        }
    }

    pub(crate) fn get_bb(&self, p: Player, k: PieceKind) -> (r: u64)
        ensures
            r == self.bb(p, k),
    {
        let i = k.index();
        match p {
            Player::White => self.white[i],
            Player::Black => self.black[i],
        }
    }

    /// Adds the squares of `pos` to the bitset of `piece` for White (`is_white`) or Black.
    pub fn set(&mut self, piece: PieceKind, is_white: bool, pos: u64)
        ensures
            old(self).bb_updated(
                if is_white { Player::White } else { Player::Black },
                piece,
                old(self).bb(if is_white { Player::White } else { Player::Black }, piece) | pos,
                *final(self),
            ),
    {
        let p = if is_white { Player::White } else { Player::Black };
        let v = self.get_bb(p, piece) | pos;
        self.put_bb(p, piece, v);
    }

    /// Neither king has been taken off the board.
    pub fn is_game_over(&self) -> (r: bool)
        ensures
            r == (self.bb(Player::White, PieceKind::King) == 0 || self.bb(
                Player::Black,
                PieceKind::King,
            ) == 0),
    {
        self.white[5] == 0 || self.black[5] == 0
    }

    fn first_kind(bbs: &[u64; N_PIECES], i: i32) -> (r: Option<PieceKind>)
        requires
            0 <= i < 64,
        ensures
            r == first_kind_from(*bbs, i as int, 0),
    {
        let mask = Self::index_to_u64(i);
        let mut j: usize = 6;
        let mut found: Option<PieceKind> = None;
        while j > 0
            invariant
                0 <= j <= 6,
                mask == bit(i as int),
                0 <= i < 64,
                found == first_kind_from(*bbs, i as int, j as int),
            decreases j,
        {
            j = j - 1;
            if bbs[j] & mask != 0 {
                found = Some(PieceKind::iterator()[j]);
            }
        }
        found
    }

    /// The piece on the square at `coords` (row, column), if any.
    pub fn at(&self, coords: (i32, i32)) -> (r: Option<Piece>)
        requires
            on_board(coords.0 as int, coords.1 as int),
        ensures
            r == match self.occupant(sq(coords.0 as int, coords.1 as int)) {
                Some((p, k)) => Some(Piece { player: p, kind: k, index: sq(coords.0 as int, coords.1 as int) as i32 }),
                None => None,
            },
    {
        let i = Self::row_col_to_index(coords.0, coords.1);
        match Self::first_kind(&self.black, i) {
            Some(k) => Some(Piece::new(Player::Black, k, i)),
            None => match Self::first_kind(&self.white, i) {
                Some(k) => Some(Piece::new(Player::White, k, i)),
                None => None,
            },
        }
    }

    /// The squares held by `player`.
    pub fn get_occupied(&self, player: Player) -> (r: u64)
        ensures
            r == self.occupied_bits(player),
    {
        self.get_bb(player, PieceKind::Pawn) | self.get_bb(player, PieceKind::Knight)
            | self.get_bb(player, PieceKind::Bishop) | self.get_bb(player, PieceKind::Rook)
            | self.get_bb(player, PieceKind::Queen) | self.get_bb(player, PieceKind::King)
    }

    /// The squares held by nobody.
    pub fn get_empty(&self) -> (r: u64)
        ensures
            r == !(self.occupied_bits(Player::White) | self.occupied_bits(Player::Black)),
    {
        !(self.get_occupied(Player::White) | self.get_occupied(Player::Black))
    }

    pub fn select(&mut self, coords: (i32, i32))
        requires
            on_board(coords.0 as int, coords.1 as int),
        ensures
            *final(self) == (Board {
                selected_piece: match old(self).occupant(sq(coords.0 as int, coords.1 as int)) {
                    Some((p, k)) => Some(
                        Piece { player: p, kind: k, index: sq(coords.0 as int, coords.1 as int) as i32 },
                    ),
                    None => None,
                },
                ..*old(self)
            }),
    {
        self.selected_piece = self.at(coords);
    }

    pub fn deselect(&mut self)
        ensures
            *final(self) == (Board { selected_piece: None, bits: None, ..*old(self) }),
    {
        self.selected_piece = None;
        self.bits = None;
    }

    pub fn is_selected(&self) -> (r: bool)
        ensures
            r == self.selected_piece is Some,
    {
        self.selected_piece.is_some()
    }

    pub fn get_selected(&self) -> (r: Piece)
        requires
            self.selected_piece is Some,
        ensures
            Some(r) == self.selected_piece,
    {
        self.selected_piece.unwrap()
    }

    pub fn opponent(player: Player) -> (r: Player)
        ensures
            r == other(player),
    {
        match player {
            Player::White => Player::Black,
            Player::Black => Player::White,
        }
    }

    pub fn index_to_row_col(pos: i32) -> (r: (i32, i32))
        requires
            0 <= pos,
        ensures
            r.0 == pos / 8,
            r.1 == pos % 8,
    {
        (pos / 8, pos % 8)
    }

    pub fn row_col_to_index(row: i32, col: i32) -> (r: i32)
        requires
            i32::MIN <= row * 8 <= i32::MAX,
            i32::MIN <= row * 8 + col <= i32::MAX,
        ensures
            r == sq(row as int, col as int),
    {
        row * 8 + col
    }

    /// The (row, column) of every square of `bitboard`, in increasing square order.
    pub fn get_rows_and_cols(bitboard: u64) -> (r: Vec<(i32, i32)>)
        ensures
            forall|j: int| 0 <= j < r@.len() ==> has_bit(bitboard, sq(r@[j].0 as int, r@[j].1 as int))
                && on_board(r@[j].0 as int, r@[j].1 as int),
            forall|j: int, l: int| 0 <= j < l < r@.len() ==> sq(r@[j].0 as int, r@[j].1 as int) < sq(
                r@[l].0 as int,
                r@[l].1 as int,
            ),
            forall|i: int| #[trigger] has_bit(bitboard, i) ==> r@.contains(((i / 8) as i32, (i % 8) as i32)),
    {
        let mut res: Vec<(i32, i32)> = Vec::new();
        let mut pos: i32 = 0;
        while pos < 64
            invariant
                0 <= pos <= 64,
                forall|j: int| 0 <= j < res@.len() ==> has_bit(bitboard, sq(res@[j].0 as int, res@[j].1 as int))
                    && on_board(res@[j].0 as int, res@[j].1 as int) && sq(res@[j].0 as int, res@[j].1 as int) < pos,
                forall|j: int, l: int| 0 <= j < l < res@.len() ==> sq(res@[j].0 as int, res@[j].1 as int) < sq(
                    res@[l].0 as int,
                    res@[l].1 as int,
                ),
                forall|i: int| 0 <= i < pos && #[trigger] has_bit(bitboard, i) ==> res@.contains(((i / 8) as i32, (i % 8) as i32)),
            decreases 64 - pos,
        {
            if bitboard & Self::index_to_u64(pos) != 0 {
                let rc = Self::index_to_row_col(pos);
                let ghost prev = res@;
                res.push(rc);
                proof {
                    assert(res@[res@.len() - 1] == rc);
                    assert forall|i: int| 0 <= i < pos + 1 && #[trigger] has_bit(bitboard, i) implies res@.contains(((i / 8) as i32, (i % 8) as i32)) by {
                        if i < pos {
                            assert(prev.contains(((i / 8) as i32, (i % 8) as i32)));
                            let w = choose|w: int| 0 <= w < prev.len() && prev[w] == ((i / 8) as i32, (i % 8) as i32);
                            assert(res@[w] == prev[w]);
                        } else {
                            assert(res@[res@.len() - 1] == ((i / 8) as i32, (i % 8) as i32));
                        }
                    }
                }
            }
            pos += 1;
        }
        res
    }

    pub fn index_to_u64(index: i32) -> (r: u64)
        requires
            0 <= index < 64,
        ensures
            r == bit(index as int),
    {
        1u64 << (index as u64)
    }

    /// The lowest square of `x`; 64 when `x` is empty.
    pub fn u64_to_index(x: u64) -> (r: i32)
        ensures
            r == x.trailing_zeros(),
            0 <= r <= 64,
    {
        proof {
            vstd::std_specs::bits::axiom_u64_trailing_zeros(x);
        }
        x.trailing_zeros() as i32
    }

    pub fn u64_to_row_col(x: u64) -> (r: (i32, i32))
        ensures
            r.0 == x.trailing_zeros() / 8,
            r.1 == x.trailing_zeros() % 8,
    {
        Self::index_to_row_col(Self::u64_to_index(x))
    }

    pub fn row_col_to_u64(row: i32, col: i32) -> (r: u64)
        requires
            i32::MIN <= row * 8 <= i32::MAX,
            0 <= row * 8 + col < 64,
        ensures
            r == bit(sq(row as int, col as int)),
    {
        Self::index_to_u64(Self::row_col_to_index(row, col))
    }

    pub fn get_turn(&self) -> (r: Player)
        ensures
            r == self.turn,
    {
        self.turn
    }

    pub fn swap_turns(&mut self)
        ensures
            *final(self) == (Board { turn: other(old(self).turn), ..*old(self) }),
    {
        self.turn = Self::opponent(self.turn);
    }

    /// Row and column both within 0..=7.
    pub fn in_bounds(coords: (i32, i32)) -> (r: bool)
        ensures
            r == on_board(coords.0 as int, coords.1 as int),
    {
        coords.0 >= 0 && coords.0 <= 7 && coords.1 >= 0 && coords.1 <= 7
    }

    /// On the board and not among `friends`.
    pub fn is_valid(&self, coords: (i32, i32), friends: u64) -> (r: bool)
        ensures
            r == (on_board(coords.0 as int, coords.1 as int) && !has_bit(
                friends,
                sq(coords.0 as int, coords.1 as int),
            )),
    {
        Self::in_bounds(coords) && friends & Self::row_col_to_u64(coords.0, coords.1) == 0
    }

    /// Off the board counts as occupied, so that a probe stops at the edge.
    pub fn is_occupied(&self, coords: (i32, i32)) -> (r: bool)
        ensures
            r == self.blocked(coords.0 as int, coords.1 as int),
    {
        if !Self::in_bounds(coords) {
            return true;
        }
        let bits = Self::row_col_to_u64(coords.0, coords.1);
        (self.get_occupied(Player::White) | self.get_occupied(Player::Black)) & bits != 0
    }

    /// The standard opening position, White to move with every castling
    /// right, nothing selected or pending.
    pub open spec fn is_standard_position(self) -> bool {
        &&& self.black == [
            0x0000_0000_0000_ff00u64,
            0x0000_0000_0000_0042u64,
            0x0000_0000_0000_0024u64,
            0x0000_0000_0000_0081u64,
            0x0000_0000_0000_0008u64,
            0x0000_0000_0000_0010u64,
        ]
        &&& self.white == [
            0x00ff_0000_0000_0000u64,
            0x4200_0000_0000_0000u64,
            0x2400_0000_0000_0000u64,
            0x8100_0000_0000_0000u64,
            0x0800_0000_0000_0000u64,
            0x1000_0000_0000_0000u64,
        ]
        &&& self.turn == Player::White
        &&& self.white_castling_k && self.white_castling_q
        &&& self.black_castling_k && self.black_castling_q
        &&& self.en_passant_target is None
        &&& self.halfmove_clock == 0
        &&& self.fullmove_number == 1
        &&& self.selected_piece is None
        &&& self.bits is None
        &&& self.promoting is None
    }

    /// Sets up the standard opening position.
    pub fn reset(&mut self)
        ensures
            final(self).is_standard_position(),
            final(self).consistent(),
    {
        self.black = [
            0x0000_0000_0000_ff00,
            0x0000_0000_0000_0042,
            0x0000_0000_0000_0024,
            0x0000_0000_0000_0081,
            0x0000_0000_0000_0008,
            0x0000_0000_0000_0010,
        ];
        self.white = [
            0x00ff_0000_0000_0000,
            0x4200_0000_0000_0000,
            0x2400_0000_0000_0000,
            0x8100_0000_0000_0000,
            0x0800_0000_0000_0000,
            0x1000_0000_0000_0000,
        ];
        self.turn = Player::White;
        self.white_castling_k = true;
        self.white_castling_q = true;
        self.black_castling_k = true;
        self.black_castling_q = true;
        self.en_passant_target = None;
        self.halfmove_clock = 0;
        self.fullmove_number = 1;
        self.selected_piece = None;
        self.bits = None;
        self.promoting = None;
        proof {
            crate::laws::lemma_standard_consistent(*self);
        }
    }
}

} // verus!
