//! Reading a position in Forsyth-Edwards notation into a board. Fields are
//! separated by single spaces; whatever is missing or malformed leaves the
//! board's field as it was (turn, castling rights) or falls back to a
//! default (no en-passant target, counters zero).
use vstd::prelude::*;
use vstd::string::StrSliceExecFns;
use crate::bits::{bit, group_bits};
use crate::piece::{PieceKind, Player};
use crate::board::{Board, on_board, sq};

verus! {

broadcast use group_bits;

/// The first space at or after `from`, or the length of `s` when there is none.
pub open spec fn next_space(s: Seq<char>, from: int) -> int
    decreases s.len() - from,
{
    if from < 0 || from >= s.len() {
        s.len() as int
    } else if s[from] == ' ' {
        from
    } else {
        next_space(s, from + 1)
    }
}

/// The characters from `a` up to `b`, empty unless `a <= b` lie within `s`.
pub open spec fn field(s: Seq<char>, a: int, b: int) -> Seq<char> {
    if 0 <= a <= b <= s.len() {
        s.subrange(a, b)
    } else {
        Seq::empty()
    }
}

/// The player and kind a piece letter names: lower case for Black, upper case for White.
pub open spec fn piece_letter(c: char) -> Option<(Player, PieceKind)> {
    match c {
        'p' => Some((Player::Black, PieceKind::Pawn)),
        'n' => Some((Player::Black, PieceKind::Knight)),
        'b' => Some((Player::Black, PieceKind::Bishop)),
        'r' => Some((Player::Black, PieceKind::Rook)),
        'q' => Some((Player::Black, PieceKind::Queen)),
        'k' => Some((Player::Black, PieceKind::King)),
        'P' => Some((Player::White, PieceKind::Pawn)),
        'N' => Some((Player::White, PieceKind::Knight)),
        'B' => Some((Player::White, PieceKind::Bishop)),
        'R' => Some((Player::White, PieceKind::Rook)),
        'Q' => Some((Player::White, PieceKind::Queen)),
        'K' => Some((Player::White, PieceKind::King)),
        _ => None,
    }
}

pub open spec fn is_letter(c: char) -> bool {
    ('a' <= c && c <= 'z') || ('A' <= c && c <= 'Z')
}

pub open spec fn min8(x: int) -> int {
    if x < 8 {
        x
    } else {
        8
    }
}

/// Row and column that the first `n` characters of the placement field
/// lead to, from the top-left square: `/` opens the next row, a digit skips
/// that many squares, any letter takes one square. Beyond the board both
/// stay at 8, where nothing is placed.
pub open spec fn cursor(s: Seq<char>, n: int) -> (int, int)
    decreases n,
{
    if n <= 0 {
        (0, 0)
    } else {
        let (row, col) = cursor(s, n - 1);
        let c = s[n - 1];
        if c == '/' {
            (min8(row + 1), 0)
        } else if '1' <= c && c <= '8' {
            (row, min8(col + (c as int - '0' as int)))
        } else if is_letter(c) {
            (row, min8(col + 1))
        } else {
            (row, col)
        }
    }
}

/// The square index of the placement field's row `row` (counted from the
/// text's first row) and column `col`: rows count down the index from the
/// top (`from_top`), or up from the bottom.
pub open spec fn placed_square(row: int, col: int, from_top: bool) -> int {
    if from_top {
        sq(row, col)
    } else {
        sq(7 - row, col)
    }
}

/// The squares the first `n` characters of the placement field give to
/// `p`'s pieces of kind `k`.
pub open spec fn fen_bits(s: Seq<char>, n: int, p: Player, k: PieceKind, from_top: bool) -> u64
    decreases n,
{
    if n <= 0 {
        0
    } else {
        let prev = fen_bits(s, n - 1, p, k, from_top);
        let (row, col) = cursor(s, n - 1);
        if piece_letter(s[n - 1]) == Some((p, k)) && on_board(row, col) {
            prev | bit(placed_square(row, col, from_top))
        } else {
            prev
        }
    }
}

/// Some character from `a` up to `b` is `ch`.
pub open spec fn field_has(s: Seq<char>, a: int, b: int, ch: char) -> bool {
    exists|j: int| a <= j < b && 0 <= j < s.len() && s[j] == ch
}

pub open spec fn placement_end(s: Seq<char>) -> int {
    next_space(s, 0)
}

pub open spec fn turn_at(s: Seq<char>) -> int {
    placement_end(s) + 1
}

pub open spec fn castling_start(s: Seq<char>) -> int {
    turn_at(s) + 2
}

pub open spec fn castling_end(s: Seq<char>) -> int {
    next_space(s, castling_start(s))
}

pub open spec fn en_passant_at(s: Seq<char>) -> int {
    castling_end(s) + 1
}

/// The en-passant field is `none` (one character and its space) or a
/// square (two characters and a space).
pub open spec fn halfmove_start(s: Seq<char>, none: char) -> int {
    let e = en_passant_at(s);
    if 0 <= e < s.len() && s[e] == none {
        e + 2
    } else {
        e + 3
    }
}

pub open spec fn halfmove_end(s: Seq<char>, none: char) -> int {
    next_space(s, halfmove_start(s, none))
}

pub open spec fn fullmove_start(s: Seq<char>, none: char) -> int {
    halfmove_end(s, none) + 1
}

pub open spec fn fullmove_end(s: Seq<char>, none: char) -> int {
    next_space(s, fullmove_start(s, none))
}

/// The square a file letter and a rank digit at `e` name, if they do.
pub open spec fn square_at(s: Seq<char>, e: int) -> Option<i32> {
    if 0 <= e && e + 1 < s.len() && 'a' <= s[e] && s[e] <= 'h' && '1' <= s[e + 1] && s[e + 1] <= '8' {
        Some(sq(8 - (s[e + 1] as int - '0' as int), s[e] as int - 'a' as int) as i32)
    } else {
        None
    }
}

pub open spec fn all_digits(t: Seq<char>) -> bool {
    forall|j: int| 0 <= j < t.len() ==> '0' <= #[trigger] t[j] && t[j] <= '9'
}

/// The number that decimal digits spell.
pub open spec fn digits_value(t: Seq<char>) -> int
    decreases t.len(),
{
    if t.len() == 0 {
        0
    } else {
        digits_value(t.drop_last()) * 10 + (t.last() as int - '0' as int)
    }
}

/// A counter: an optional sign and at least one digit, whose value fits an
/// `i32`; anything else counts as zero.
pub open spec fn counter_value(t: Seq<char>) -> i32 {
    let signed = t.len() > 0 && (t[0] == '-' || t[0] == '+');
    let body = if signed {
        t.drop_first()
    } else {
        t
    };
    let v = if signed && t[0] == '-' {
        -digits_value(body)
    } else {
        digits_value(body)
    };
    if body.len() > 0 && all_digits(body) && i32::MIN <= v <= i32::MAX {
        v as i32
    } else {
        0
    }
}

impl Board {
    /// `next` is this board with the position `s` read into it: the placed
    /// pieces added to the bitsets, the turn set by `w` or `b`, each
    /// castling right set by its letter, the en-passant target and both
    /// counters read; the rest as it was.
    pub open spec fn fen_applied(self, s: Seq<char>, next: Board) -> bool {
        let t = turn_at(s);
        let (cs, ce) = (castling_start(s), castling_end(s));
        let e = en_passant_at(s);
        &&& forall|p: Player, k: PieceKind| #[trigger]
            next.bb(p, k) == self.bb(p, k) | fen_bits(s, placement_end(s), p, k, true)
        &&& next.turn == if 0 <= t < s.len() && s[t] == 'w' {
            Player::White
        } else if 0 <= t < s.len() && s[t] == 'b' {
            Player::Black
        } else {
            self.turn
        }
        &&& next.white_castling_k == (self.white_castling_k || field_has(s, cs, ce, 'K'))
        &&& next.white_castling_q == (self.white_castling_q || field_has(s, cs, ce, 'Q'))
        &&& next.black_castling_k == (self.black_castling_k || field_has(s, cs, ce, 'k'))
        &&& next.black_castling_q == (self.black_castling_q || field_has(s, cs, ce, 'q'))
        &&& next.en_passant_target == if 0 <= e < s.len() && s[e] == '-' {
            None
        } else {
            square_at(s, e)
        }
        &&& next.halfmove_clock == counter_value(field(s, halfmove_start(s, '-'), halfmove_end(s, '-')))
        &&& next.fullmove_number == counter_value(field(s, fullmove_start(s, '-'), fullmove_end(s, '-')))
        &&& next.selected_piece == self.selected_piece
        &&& next.bits == self.bits
        &&& next.promoting == self.promoting
    }
}

pub(crate) fn chars_of(s: &str) -> (r: Vec<char>)
    ensures
        r@ == s@,
{
    let n = s.unicode_len();
    let mut v: Vec<char> = Vec::new();
    let mut i: usize = 0;
    while i < n
        invariant
            n == s@.len(),
            i <= n,
            v@ == s@.subrange(0, i as int),
        decreases n - i,
    {
        v.push(s.get_char(i));
        i += 1;
        assert(v@ =~= s@.subrange(0, i as int));
    }
    assert(v@ =~= s@);
    v
}

pub(crate) fn find_space(v: &Vec<char>, from: usize) -> (r: usize)
    ensures
        r == next_space(v@, from as int),
        r <= v@.len(),
{
    if from >= v.len() {
        return v.len();
    }
    let mut j = from;
    while j < v.len() && v[j] != ' '
        invariant
            from <= j <= v@.len(),
            next_space(v@, from as int) == next_space(v@, j as int),
        decreases v@.len() - j,
    {
        j += 1;
    }
    j
}

proof fn lemma_digits_step(v: Seq<char>, a: int, j: int)
    requires
        0 <= a <= j < v.len(),
    ensures
        digits_value(v.subrange(a, j + 1)) == digits_value(v.subrange(a, j)) * 10 + (v[j] as int
            - '0' as int),
        all_digits(v.subrange(a, j + 1)) <==> all_digits(v.subrange(a, j)) && '0' <= v[j] && v[j]
            <= '9',
{
    assert(v.subrange(a, j + 1).drop_last() =~= v.subrange(a, j));
    assert(v.subrange(a, j + 1)[j - a] == v[j]);
    if all_digits(v.subrange(a, j)) && '0' <= v[j] && v[j] <= '9' {
        assert forall|i: int| 0 <= i < v.subrange(a, j + 1).len() implies '0' <= #[trigger] v.subrange(a, j + 1)[i]
            && v.subrange(a, j + 1)[i] <= '9' by {
            if i < j - a {
                assert(v.subrange(a, j + 1)[i] == v.subrange(a, j)[i]);
            }
        }
    }
    if all_digits(v.subrange(a, j + 1)) {
        assert forall|i: int| 0 <= i < v.subrange(a, j).len() implies '0' <= #[trigger] v.subrange(a, j)[i]
            && v.subrange(a, j)[i] <= '9' by {
            assert(v.subrange(a, j + 1)[i] == v.subrange(a, j)[i]);
        }
    }
}

/// The counter written in `v` from `a` up to `b`.
pub(crate) fn counter(v: &Vec<char>, a: usize, b: usize) -> (r: i32)
    ensures
        r == counter_value(field(v@, a as int, b as int)),
{
    if !(a < b && b <= v.len()) {
        return 0;
    }
    let ghost t = v@.subrange(a as int, b as int);
    let signed = v[a] == '-' || v[a] == '+';
    let negative = v[a] == '-';
    let start = if signed {
        a + 1
    } else {
        a
    };
    assert(t.drop_first() =~= v@.subrange(a + 1, b as int));
    assert(v@.subrange(start as int, start as int) =~= Seq::<char>::empty());
    let mut acc: i64 = 0;
    let mut bad = start >= b;
    let mut j = start;
    while j < b
        invariant
            a < b <= v@.len(),
            start <= j <= b,
            !bad ==> all_digits(v@.subrange(start as int, j as int)) && acc == digits_value(
                v@.subrange(start as int, j as int),
            ) && 0 <= acc <= 0x8000_0000,
            bad ==> start >= b || !all_digits(v@.subrange(start as int, j as int)) || digits_value(
                v@.subrange(start as int, j as int),
            ) > 0x8000_0000,
        decreases b - j,
    {
        proof {
            lemma_digits_step(v@, start as int, j as int);
        }
        let c = v[j];
        if !bad {
            if '0' <= c && c <= '9' {
                acc = acc * 10 + (c as i64 - '0' as i64);
                if acc > 0x8000_0000 {
                    bad = true;
                }
            } else {
                bad = true;
            }
        } else {
            proof {
                if start < b && all_digits(v@.subrange(start as int, j as int)) && '0' <= c && c <= '9' {
                    assert(digits_value(v@.subrange(start as int, j as int)) >= 0) by {
                        lemma_digits_nonneg(v@.subrange(start as int, j as int));
                    }
                }
            }
        }
        j += 1;
    }
    if bad {
        proof {
            let body = v@.subrange(start as int, b as int);
            if body.len() > 0 && all_digits(body) {
                assert(digits_value(body) > 0x8000_0000);
            }
        }
        0
    } else if negative {
        (-acc) as i32
    } else if acc <= 0x7fff_ffff {
        acc as i32
    } else {
        0
    }
}

proof fn lemma_digits_nonneg(t: Seq<char>)
    requires
        all_digits(t),
    ensures
        digits_value(t) >= 0,
    decreases t.len(),
{
    if t.len() > 0 {
        assert(t.drop_last().len() < t.len());
        assert forall|i: int| 0 <= i < t.drop_last().len() implies '0' <= #[trigger] t.drop_last()[i]
            && t.drop_last()[i] <= '9' by {
            assert(t.drop_last()[i] == t[i]);
        }
        lemma_digits_nonneg(t.drop_last());
        assert(t.last() == t[t.len() - 1]);
    }
}

/// Which of the castling letters `K`, `Q`, `k`, `q` occur in `v` from `a` up to `b`.
pub(crate) fn castling_letters(v: &Vec<char>, a: usize, b: usize) -> (r: (bool, bool, bool, bool))
    requires
        b <= v@.len(),
    ensures
        r.0 == field_has(v@, a as int, b as int, 'K'),
        r.1 == field_has(v@, a as int, b as int, 'Q'),
        r.2 == field_has(v@, a as int, b as int, 'k'),
        r.3 == field_has(v@, a as int, b as int, 'q'),
{
    let ghost s = v@;
    let mut found = (false, false, false, false);
    if b <= a {
        return found;
    }
    let mut j = a;
    while j < b
        invariant
            a <= j <= b <= s.len(),
            s == v@,
            found.0 == field_has(s, a as int, j as int, 'K'),
            found.1 == field_has(s, a as int, j as int, 'Q'),
            found.2 == field_has(s, a as int, j as int, 'k'),
            found.3 == field_has(s, a as int, j as int, 'q'),
        decreases b - j,
    {
        let c = v[j];
        if c == 'K' {
            found.0 = true;
        } else if c == 'Q' {
            found.1 = true;
        } else if c == 'k' {
            found.2 = true;
        } else if c == 'q' {
            found.3 = true;
        }
        proof {
            assert forall|ch: char| field_has(s, a as int, j + 1, ch) <==> (field_has(s, a as int, j as int, ch) || s[j as int] == ch) by {
                if field_has(s, a as int, j + 1, ch) && !field_has(s, a as int, j as int, ch) {
                    let w = choose|w: int| a <= w < j + 1 && 0 <= w < s.len() && s[w] == ch;
                    assert(w == j);
                }
                if s[j as int] == ch {
                    assert(a <= j < j + 1 && 0 <= j < s.len() && s[j as int] == ch);
                }
            }
        }
        j += 1;
    }
    found
}

fn letter_piece(c: char) -> (r: Option<(Player, PieceKind)>)
    ensures
        r == piece_letter(c),
{
    match c {
        'p' => Some((Player::Black, PieceKind::Pawn)),
        'n' => Some((Player::Black, PieceKind::Knight)),
        'b' => Some((Player::Black, PieceKind::Bishop)),
        'r' => Some((Player::Black, PieceKind::Rook)),
        'q' => Some((Player::Black, PieceKind::Queen)),
        'k' => Some((Player::Black, PieceKind::King)),
        'P' => Some((Player::White, PieceKind::Pawn)),
        'N' => Some((Player::White, PieceKind::Knight)),
        'B' => Some((Player::White, PieceKind::Bishop)),
        'R' => Some((Player::White, PieceKind::Rook)),
        'Q' => Some((Player::White, PieceKind::Queen)),
        'K' => Some((Player::White, PieceKind::King)),
        _ => None,
    }
}

/// The pieces the placement field (the characters before `end`) puts on an
/// empty board.
pub(crate) fn placement(v: &Vec<char>, end: usize, from_top: bool) -> (r: Board)
    requires
        end <= v@.len(),
    ensures
        forall|p: Player, k: PieceKind| #[trigger] r.bb(p, k) == fen_bits(v@, end as int, p, k, from_top),
{
    let mut placed = Board::new();
    let mut row: usize = 0;
    let mut col: usize = 0;
    let mut j: usize = 0;
    while j < end
        invariant
            end <= v@.len(),
            j <= end,
            (row as int, col as int) == cursor(v@, j as int),
            row <= 8,
            col <= 8,
            forall|p: Player, k: PieceKind| #[trigger] placed.bb(p, k) == fen_bits(v@, j as int, p, k, from_top),
        decreases end - j,
    {
        let c = v[j];
        if c == '/' {
            row = if row < 8 {
                row + 1
            } else {
                8
            };
            col = 0;
        } else if '1' <= c && c <= '8' {
            let d = (c as u32 - '0' as u32) as usize;
            col = if col + d < 8 {
                col + d
            } else {
                8
            };
        } else if ('a' <= c && c <= 'z') || ('A' <= c && c <= 'Z') {
            match letter_piece(c) {
                Some((p, k)) => {
                    if row < 8 && col < 8 {
                        let index = if from_top {
                            row * 8 + col
                        } else {
                            (7 - row) * 8 + col
                        };
                        let v = placed.get_bb(p, k) | Board::index_to_u64(index as i32);
                        placed.put_bb(p, k, v);
                    }
                },
                None => {},
            }
            col = if col + 1 < 8 {
                col + 1
            } else {
                8
            };
        }
        j += 1;
    }
    placed
}

impl Board {
    /// Adds each of `other`'s twelve bitsets to this board's.
    fn merge(&mut self, other: &Board)
        ensures
            forall|p: Player, k: PieceKind| #[trigger] final(self).bb(p, k) == old(self).bb(p, k) | other.bb(p, k),
            final(self).same_but_bitsets(*old(self)),
    {
        self.black[0] = self.black[0] | other.black[0];
        self.black[1] = self.black[1] | other.black[1];
        self.black[2] = self.black[2] | other.black[2];
        self.black[3] = self.black[3] | other.black[3];
        self.black[4] = self.black[4] | other.black[4];
        self.black[5] = self.black[5] | other.black[5];
        self.white[0] = self.white[0] | other.white[0];
        self.white[1] = self.white[1] | other.white[1];
        self.white[2] = self.white[2] | other.white[2];
        self.white[3] = self.white[3] | other.white[3];
        self.white[4] = self.white[4] | other.white[4];
        self.white[5] = self.white[5] | other.white[5];
    }

    /// Reads the position `fen` into the board: pieces are added to those
    /// already there, the turn and the castling rights are set where the
    /// text names them, and the en-passant target and the two counters are
    /// read, falling back to none and zero.
    pub fn apply_fen(&mut self, fen: String)
        requires
            fen@.len() <= isize::MAX,
        ensures
            old(self).fen_applied(fen@, *final(self)),
    {
        let ghost start = *self;
        let v = chars_of(fen.as_str());
        let len = v.len();
        let ghost s = v@;
        assert(s == fen@);

        // Piece placement.
        let pend = find_space(&v, 0);
        let placed = placement(&v, pend, true);
        self.merge(&placed);
        let ghost merged = *self;

        // Side to move.
        let t = pend + 1;
        if t < len {
            if v[t] == 'w' {
                self.turn = Player::White;
            } else if v[t] == 'b' {
                self.turn = Player::Black;
            }
        }

        // Castling rights.
        let cs = t + 2;
        let ce = find_space(&v, cs);
        let (wk, wq, bk, bq) = castling_letters(&v, cs, ce);
        self.white_castling_k = self.white_castling_k || wk;
        self.white_castling_q = self.white_castling_q || wq;
        self.black_castling_k = self.black_castling_k || bk;
        self.black_castling_q = self.black_castling_q || bq;

        // En-passant target.
        let e = ce + 1;
        let hs;
        if e < len && v[e] == '-' {
            self.en_passant_target = None;
            hs = e + 2;
        } else {
            if e + 1 < len && 'a' <= v[e] && v[e] <= 'h' && '1' <= v[e + 1] && v[e + 1] <= '8' {
                let row = 8 - (v[e + 1] as u32 - '0' as u32) as i32;
                let col = (v[e] as u32 - 'a' as u32) as i32;
                self.en_passant_target = Some(Board::row_col_to_index(row, col));
            } else {
                self.en_passant_target = None;
            }
            hs = e + 3;
        }

        // Halfmove clock and fullmove number.
        let he = find_space(&v, hs);
        self.halfmove_clock = counter(&v, hs, he);
        let fs = he + 1;
        let fe = find_space(&v, fs);
        self.fullmove_number = counter(&v, fs, fe);
        proof {
            assert forall|p: Player, k: PieceKind| #[trigger] self.bb(p, k) == start.bb(p, k) | fen_bits(s, pend as int, p, k, true) by {
                assert(self.bb(p, k) == merged.bb(p, k));
                assert(merged.bb(p, k) == start.bb(p, k) | placed.bb(p, k));
                assert(placed.bb(p, k) == fen_bits(s, pend as int, p, k, true));
            }
            assert(e == en_passant_at(s));
            assert(hs == halfmove_start(s, '-'));
            assert(self.white_castling_k == (start.white_castling_k || field_has(s, cs as int, ce as int, 'K')));
            assert(self.turn == if 0 <= t < s.len() && s[t as int] == 'w' { Player::White } else if 0 <= t < s.len() && s[t as int] == 'b' { Player::Black } else { start.turn });
            assert(self.en_passant_target == if 0 <= e < s.len() && s[e as int] == '-' { None } else { square_at(s, e as int) });
        }
    }
}

} // verus!
