//! A flat record of a position as the text format lists it: ranks counted
//! from the bottom (square `rank * 8 + file`), the side to move as a flag,
//! and the en-passant square kept as its two characters.
use vstd::prelude::*;
use vstd::string::StrSliceExecFns;
use crate::bits::group_bits;
use crate::piece::{PieceKind, Player, N_PIECES};
use crate::fen::{
    chars_of, find_space, placement, counter, castling_letters, counter_value, field, field_has, fen_bits,
    placement_end, turn_at, castling_start, castling_end, en_passant_at, halfmove_start,
    halfmove_end, fullmove_start, fullmove_end,
};

verus! {

broadcast use group_bits;

pub struct Bitboards {
    pub black: [u64; N_PIECES],
    pub white: [u64; N_PIECES],
    pub white_turn: bool,
    pub white_castling_k: bool,
    pub white_castling_q: bool,
    pub black_castling_k: bool,
    pub black_castling_q: bool,
    /// File letter and rank digit of the en-passant square.
    pub en_passant_target: Option<String>,
    pub halfmove_clock: i32,
    pub fullmove_number: i32,
}

impl Bitboards {
    pub open spec fn bb(self, p: Player, k: PieceKind) -> u64 {
        match p {
            Player::White => self.white[k.slot()],
            Player::Black => self.black[k.slot()],
        }
    }

    /// `next` is this record with the position `s` read into it: pieces
    /// added, the turn and castling rights set where the text names them,
    /// the en-passant field (`-` for none) and both counters read.
    pub open spec fn fen_read(self, s: Seq<char>, next: Bitboards) -> bool {
        let t = turn_at(s);
        let (cs, ce) = (castling_start(s), castling_end(s));
        let e = en_passant_at(s);
        &&& forall|p: Player, k: PieceKind| #[trigger]
            next.bb(p, k) == self.bb(p, k) | fen_bits(s, placement_end(s), p, k, false)
        &&& next.white_turn == if 0 <= t < s.len() && s[t] == 'w' {
            true
        } else if 0 <= t < s.len() && s[t] == 'b' {
            false
        } else {
            self.white_turn
        }
        &&& next.white_castling_k == (self.white_castling_k || field_has(s, cs, ce, 'K'))
        &&& next.white_castling_q == (self.white_castling_q || field_has(s, cs, ce, 'Q'))
        &&& next.black_castling_k == (self.black_castling_k || field_has(s, cs, ce, 'k'))
        &&& next.black_castling_q == (self.black_castling_q || field_has(s, cs, ce, 'q'))
        &&& if 0 <= e < s.len() && s[e] == '-' {
            next.en_passant_target is None
        } else if 0 <= e && e + 2 <= s.len() {
            next.en_passant_target is Some && next.en_passant_target->Some_0@ == s.subrange(e, e + 2)
        } else {
            next.en_passant_target is None
        }
        &&& next.halfmove_clock == counter_value(field(s, halfmove_start(s, '-'), halfmove_end(s, '-')))
        &&& next.fullmove_number == counter_value(field(s, fullmove_start(s, '-'), fullmove_end(s, '-')))
    }

    pub fn new() -> (r: Self)
        ensures
            forall|p: Player, k: PieceKind| #[trigger] r.bb(p, k) == 0,
            r.white_turn,
            !r.white_castling_k && !r.white_castling_q,
            !r.black_castling_k && !r.black_castling_q,
            r.en_passant_target is None,
            r.halfmove_clock == 0,
            r.fullmove_number == 0,
    {
        Self {
            black: [0; N_PIECES],
            white: [0; N_PIECES],
            white_turn: true,
            white_castling_k: false,
            white_castling_q: false,
            black_castling_k: false,
            black_castling_q: false,
            en_passant_target: None,
            halfmove_clock: 0,
            fullmove_number: 0,
        }
    }

    /// Adds the squares of `pos` to the bitset of `piece` for White (`is_white`) or Black.
    pub fn set(&mut self, piece: PieceKind, is_white: bool, pos: u64)
        ensures
            forall|p: Player, k: PieceKind| #[trigger] final(self).bb(p, k) == if k == piece && (p
                == Player::White) == is_white {
                old(self).bb(p, k) | pos
            } else {
                old(self).bb(p, k)
            },
            final(self).white_turn == old(self).white_turn,
            final(self).white_castling_k == old(self).white_castling_k,
            final(self).white_castling_q == old(self).white_castling_q,
            final(self).black_castling_k == old(self).black_castling_k,
            final(self).black_castling_q == old(self).black_castling_q,
            final(self).en_passant_target == old(self).en_passant_target,
            final(self).halfmove_clock == old(self).halfmove_clock,
            final(self).fullmove_number == old(self).fullmove_number,
    {
        let i = piece.index();
        if is_white {
            self.white[i] = self.white[i] | pos;
        } else {
            self.black[i] = self.black[i] | pos;
        }
    }

    /// Reads the position `fen` into the record.
    pub fn apply_fen(&mut self, fen: String)
        requires
            fen@.len() <= isize::MAX,
        ensures
            old(self).fen_read(fen@, *final(self)),
    {
        let ghost start = *self;
        let v = chars_of(fen.as_str());
        let len = v.len();
        let ghost s = v@;

        // Piece placement, ranks counted from the bottom.
        let pend = find_space(&v, 0);
        let placed = placement(&v, pend, false);
        self.black[0] = self.black[0] | placed.black[0];
        self.black[1] = self.black[1] | placed.black[1];
        self.black[2] = self.black[2] | placed.black[2];
        self.black[3] = self.black[3] | placed.black[3];
        self.black[4] = self.black[4] | placed.black[4];
        self.black[5] = self.black[5] | placed.black[5];
        self.white[0] = self.white[0] | placed.white[0];
        self.white[1] = self.white[1] | placed.white[1];
        self.white[2] = self.white[2] | placed.white[2];
        self.white[3] = self.white[3] | placed.white[3];
        self.white[4] = self.white[4] | placed.white[4];
        self.white[5] = self.white[5] | placed.white[5];
        let ghost merged = *self;

        // Side to move.
        let t = pend + 1;
        if t < len {
            if v[t] == 'w' {
                self.white_turn = true;
            } else if v[t] == 'b' {
                self.white_turn = false;
            }
        }

        // Castling rights.
        let cs = t + 2;
        let ce = find_space(&v, cs);
        let (wk, wq, bk, bq) = castling_letters(&v, cs, ce);
        self.white_castling_k = self.white_castling_k || wk;
        self.white_castling_q = self.white_castling_q || wq;
        self.black_castling_k = self.black_castling_k || bk;
        self.black_castling_q = self.black_castling_q || bq;

        // En-passant square, `-` for none.
        let e = ce + 1;
        let hs;
        if e < len && v[e] == '-' {
            self.en_passant_target = None;
            hs = e + 2;
        } else {
            if e + 2 <= len {
                let text = fen.as_str().substring_char(e, e + 2);
                self.en_passant_target = Some(text.to_owned());
            } else {
                self.en_passant_target = None;
            }
            hs = e + 3;
        }

        // Halfmove clock and fullmove number.
        let he = find_space(&v, hs);
        self.halfmove_clock = counter(&v, hs, he);
        let fs = he + 1;
        let fe = find_space(&v, fs);
        self.fullmove_number = counter(&v, fs, fe);
        proof {
            assert(e == en_passant_at(s));
            assert(hs == halfmove_start(s, '-'));
            assert forall|p: Player, k: PieceKind| #[trigger] self.bb(p, k) == start.bb(p, k) | fen_bits(s, pend as int, p, k, false) by {
                assert(self.bb(p, k) == merged.bb(p, k));
                assert(placed.bb(p, k) == fen_bits(s, pend as int, p, k, false));
            }
        }
    }
}

} // verus!
