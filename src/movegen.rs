//! Move records and pseudo-legal move generation.
use vstd::prelude::*;
use vstd::seq_lib::{lemma_seq_concat_contains_all_elements, lemma_seq_contains_after_push};
use crate::bits::{has_bit, group_bits};
use crate::piece::{PieceKind, Player, other};
use crate::board::{Board, on_board, sq, home_row};

verus! {

broadcast use group_bits, lemma_seq_concat_contains_all_elements, lemma_seq_contains_after_push;

/// The row direction in which `p`'s pawns advance.
pub open spec fn pawn_dir(p: Player) -> int {
    match p {
        Player::White => -1,
        Player::Black => 1,
    }
}

/// The row from which `p`'s pawns may advance two squares.
pub open spec fn pawn_start(p: Player) -> int {
    match p {
        Player::White => 6,
        Player::Black => 1,
    }
}

/// Offsets of a knight's jump: one and two squares along the two axes.
pub open spec fn knight_jump(dr: int, dc: int) -> bool {
    ((dr == 1 || dr == -1) && (dc == 2 || dc == -2)) || ((dr == 2 || dr == -2) && (dc == 1 || dc
        == -1))
}

/// Offsets of a king's step: one square in any of the eight directions.
pub open spec fn king_step(dr: int, dc: int) -> bool {
    -1 <= dr <= 1 && -1 <= dc <= 1 && !(dr == 0 && dc == 0)
}

/// The longest ray on the board.
pub open spec fn max_ray() -> nat {
    7
}

impl Board {
    /// A pawn of `p` on (r, c) may go to (tr, tc): one square forward onto
    /// an empty square; two from its starting row over two empty squares;
    /// one square diagonally forward onto a square an enemy holds.
    pub open spec fn pawn_reaches(self, p: Player, r: int, c: int, tr: int, tc: int) -> bool {
        let d = pawn_dir(p);
        ||| tc == c && tr == r + d && !self.blocked(r + d, c)
        ||| tc == c && tr == r + 2 * d && r == pawn_start(p) && !self.blocked(r + d, c)
            && !self.blocked(r + 2 * d, c)
        ||| (tc == c - 1 || tc == c + 1) && tr == r + d && self.open_for(p, tr, tc) && self.blocked(
            tr,
            tc,
        )
    }

    /// A pawn of `p` on (r, c) attacks (tr, tc): one square diagonally
    /// forward, on the board and not held by `p`, whoever else holds it.
    pub open spec fn pawn_attacks_square(self, p: Player, r: int, c: int, tr: int, tc: int) -> bool {
        (tc == c - 1 || tc == c + 1) && tr == r + pawn_dir(p) && self.open_for(p, tr, tc)
    }

    /// A ray of `p` from (r, c) in direction (dr, dc), over at most `steps`
    /// squares, reaches (tr, tc): the next square is (tr, tc) and open for
    /// `p`, or the next square is empty and the ray goes on from there.
    pub open spec fn slide(self, p: Player, r: int, c: int, dr: int, dc: int, tr: int, tc: int, steps: nat) -> bool
        decreases steps,
    {
        if steps == 0 {
            false
        } else {
            (r + dr == tr && c + dc == tc && self.open_for(p, tr, tc)) || (!self.blocked(r + dr, c + dc)
                && self.slide(p, r + dr, c + dc, dr, dc, tr, tc, (steps - 1) as nat))
        }
    }

    pub open spec fn slides_diagonally(self, p: Player, r: int, c: int, tr: int, tc: int) -> bool {
        ||| self.slide(p, r, c, -1, -1, tr, tc, max_ray())
        ||| self.slide(p, r, c, -1, 1, tr, tc, max_ray())
        ||| self.slide(p, r, c, 1, -1, tr, tc, max_ray())
        ||| self.slide(p, r, c, 1, 1, tr, tc, max_ray())
    }

    pub open spec fn slides_straight(self, p: Player, r: int, c: int, tr: int, tc: int) -> bool {
        ||| self.slide(p, r, c, 0, -1, tr, tc, max_ray())
        ||| self.slide(p, r, c, 0, 1, tr, tc, max_ray())
        ||| self.slide(p, r, c, -1, 0, tr, tc, max_ray())
        ||| self.slide(p, r, c, 1, 0, tr, tc, max_ray())
    }

    /// A piece of kind `k` of `p` on (r, c) may move to (tr, tc), castling aside.
    pub open spec fn reaches(self, p: Player, k: PieceKind, r: int, c: int, tr: int, tc: int) -> bool {
        match k {
            PieceKind::Pawn => self.pawn_reaches(p, r, c, tr, tc),
            PieceKind::Knight => self.open_for(p, tr, tc) && knight_jump(tr - r, tc - c),
            PieceKind::Bishop => self.slides_diagonally(p, r, c, tr, tc),
            PieceKind::Rook => self.slides_straight(p, r, c, tr, tc),
            PieceKind::Queen => self.slides_diagonally(p, r, c, tr, tc) || self.slides_straight(
                p,
                r,
                c,
                tr,
                tc,
            ),
            PieceKind::King => self.open_for(p, tr, tc) && king_step(tr - r, tc - c),
        }
    }

    /// `m` is a move of a piece of kind `k` of `p` standing on (r, c), castling aside.
    pub open spec fn moves_of(self, p: Player, k: PieceKind, r: int, c: int, m: ChessMove) -> bool {
        &&& m.from == sq(r, c)
        &&& m.player == p
        &&& m.kind == k
        &&& self.reaches(p, k, r, c, m.to_row(), m.to_col())
    }

    /// `m` is a pseudo-legal move of `p`, castling aside: a piece of `p` of
    /// `m`'s kind stands on `m.from` and may go to `m.to`.
    pub open spec fn pseudo_legal(self, p: Player, m: ChessMove) -> bool {
        &&& 0 <= m.from < 64
        &&& has_bit(self.bb(p, m.kind), m.from as int)
        &&& self.moves_of(p, m.kind, m.from_row(), m.from_col(), m)
    }

    /// `m` is a diagonal attack of a pawn of `p`.
    pub open spec fn pawn_attack(self, p: Player, m: ChessMove) -> bool {
        &&& 0 <= m.from < 64
        &&& m.player == p
        &&& m.kind == PieceKind::Pawn
        &&& has_bit(self.bb(p, PieceKind::Pawn), m.from as int)
        &&& self.pawn_attacks_square(p, m.from_row(), m.from_col(), m.to_row(), m.to_col())
    }

    /// Some piece of `p` attacks square `t`: a pseudo-legal move of `p`, or
    /// a pawn's diagonal attack, lands on it.
    pub open spec fn attacked(self, t: int, p: Player) -> bool {
        exists|m: ChessMove| #![trigger self.pseudo_legal(p, m)] #![trigger self.pawn_attack(p, m)]
            m.to == t && (self.pseudo_legal(p, m) || self.pawn_attack(p, m))
    }

    /// `p`'s king, the lowest square of its king bitset, is attacked by the other player.
    pub open spec fn in_check(self, p: Player) -> bool {
        self.attacked(self.bb(p, PieceKind::King).trailing_zeros() as int, other(p))
    }

    pub open spec fn has_right(self, p: Player, kingside: bool) -> bool {
        match (p, kingside) {
            (Player::White, true) => self.white_castling_k,
            (Player::White, false) => self.white_castling_q,
            (Player::Black, true) => self.black_castling_k,
            (Player::Black, false) => self.black_castling_q,
        }
    }

    /// The squares strictly between `p`'s king and rook are empty.
    pub open spec fn path_clear(self, p: Player, kingside: bool) -> bool {
        let h = home_row(p);
        if kingside {
            !self.occupied(sq(h, 5)) && !self.occupied(sq(h, 6))
        } else {
            !self.occupied(sq(h, 1)) && !self.occupied(sq(h, 2)) && !self.occupied(sq(h, 3))
        }
    }

    /// `p` may castle on that side: the right is held, the path is empty,
    /// the king is not in check, and neither the square it crosses nor the
    /// one it lands on is attacked.
    pub open spec fn castle_ok(self, p: Player, kingside: bool) -> bool {
        let h = home_row(p);
        &&& self.has_right(p, kingside)
        &&& self.path_clear(p, kingside)
        &&& !self.in_check(p)
        &&& if kingside {
            !self.attacked(sq(h, 5), other(p)) && !self.attacked(sq(h, 6), other(p))
        } else {
            !self.attacked(sq(h, 2), other(p)) && !self.attacked(sq(h, 3), other(p))
        }
    }

    /// `m` castles the king of `p` standing on (r, c), its home square.
    pub open spec fn castles_from(self, p: Player, r: int, c: int, m: ChessMove) -> bool {
        &&& r == home_row(p) && c == 4
        &&& m.from == sq(r, c)
        &&& m.player == p
        &&& m.kind == PieceKind::King
        &&& ((m.to == sq(home_row(p), 6) && self.castle_ok(p, true)) || (m.to == sq(home_row(p), 2)
            && self.castle_ok(p, false)))
    }

    /// The move of a piece of kind `kind` of `p` from square `from` to (tr, tc).
    pub open spec fn move_to(p: Player, kind: PieceKind, from: int, tr: int, tc: int) -> ChessMove {
        ChessMove { from: from as i32, to: sq(tr, tc) as i32, kind, player: p }
    }

    /// The one-step move by (dr, dc) from (r, c), if that square is open for `p`.
    pub open spec fn step_list(self, p: Player, kind: PieceKind, r: int, c: int, dr: int, dc: int) -> Seq<ChessMove> {
        if self.open_for(p, r + dr, c + dc) {
            seq![Self::move_to(p, kind, sq(r, c), r + dr, c + dc)]
        } else {
            seq![]
        }
    }

    /// A knight's jumps, in the order of its eight offsets.
    pub open spec fn knight_list(self, p: Player, r: int, c: int) -> Seq<ChessMove> {
        let k = PieceKind::Knight;
        self.step_list(p, k, r, c, -2, -1) + self.step_list(p, k, r, c, -1, -2) + self.step_list(p, k, r, c, 1, -2)
            + self.step_list(p, k, r, c, 2, -1) + self.step_list(p, k, r, c, -2, 1) + self.step_list(p, k, r, c, -1, 2)
            + self.step_list(p, k, r, c, 1, 2) + self.step_list(p, k, r, c, 2, 1)
    }

    /// A king's steps, row by row from the row above.
    pub open spec fn king_step_list(self, p: Player, r: int, c: int) -> Seq<ChessMove> {
        let k = PieceKind::King;
        self.step_list(p, k, r, c, -1, -1) + self.step_list(p, k, r, c, -1, 0) + self.step_list(p, k, r, c, -1, 1)
            + self.step_list(p, k, r, c, 0, -1) + self.step_list(p, k, r, c, 0, 1) + self.step_list(p, k, r, c, 1, -1)
            + self.step_list(p, k, r, c, 1, 0) + self.step_list(p, k, r, c, 1, 1)
    }

    /// The moves from square `from` along a ray that has reached (r, c),
    /// nearest first: each empty square, then an enemy's square that stops it.
    pub open spec fn ray_list(self, p: Player, kind: PieceKind, from: int, r: int, c: int, dr: int, dc: int, steps: nat) -> Seq<ChessMove>
        decreases steps,
    {
        if steps == 0 || !on_board(r + dr, c + dc) {
            seq![]
        } else if !self.occupied(sq(r + dr, c + dc)) {
            seq![Self::move_to(p, kind, from, r + dr, c + dc)] + self.ray_list(p, kind, from, r + dr, c + dc, dr, dc, (steps - 1) as nat)
        } else if self.open_for(p, r + dr, c + dc) {
            seq![Self::move_to(p, kind, from, r + dr, c + dc)]
        } else {
            seq![]
        }
    }

    pub open spec fn ray_from(self, p: Player, kind: PieceKind, r: int, c: int, dr: int, dc: int) -> Seq<ChessMove> {
        self.ray_list(p, kind, sq(r, c), r, c, dr, dc, max_ray())
    }

    /// The diagonal rays in turn: up-left, up-right, down-left, down-right.
    pub open spec fn diagonal_list(self, p: Player, kind: PieceKind, r: int, c: int) -> Seq<ChessMove> {
        self.ray_from(p, kind, r, c, -1, -1) + self.ray_from(p, kind, r, c, -1, 1) + self.ray_from(p, kind, r, c, 1, -1)
            + self.ray_from(p, kind, r, c, 1, 1)
    }

    /// The straight rays in turn: left, right, up, down.
    pub open spec fn straight_list(self, p: Player, kind: PieceKind, r: int, c: int) -> Seq<ChessMove> {
        self.ray_from(p, kind, r, c, 0, -1) + self.ray_from(p, kind, r, c, 0, 1) + self.ray_from(p, kind, r, c, -1, 0)
            + self.ray_from(p, kind, r, c, 1, 0)
    }

    /// A pawn's moves: the push, the double push, the capture to the left, the capture to the right.
    pub open spec fn pawn_list(self, p: Player, r: int, c: int) -> Seq<ChessMove> {
        let d = pawn_dir(p);
        let k = PieceKind::Pawn;
        let pushes = if !self.blocked(r + d, c) {
            seq![Self::move_to(p, k, sq(r, c), r + d, c)] + if r == pawn_start(p) && !self.blocked(r + 2 * d, c) {
                seq![Self::move_to(p, k, sq(r, c), r + 2 * d, c)]
            } else {
                seq![]
            }
        } else {
            seq![]
        };
        let left = if self.open_for(p, r + d, c - 1) && self.blocked(r + d, c - 1) {
            seq![Self::move_to(p, k, sq(r, c), r + d, c - 1)]
        } else {
            seq![]
        };
        let right = if self.open_for(p, r + d, c + 1) && self.blocked(r + d, c + 1) {
            seq![Self::move_to(p, k, sq(r, c), r + d, c + 1)]
        } else {
            seq![]
        };
        pushes + left + right
    }

    /// The moves of a piece of kind `k` of `p` on (r, c), castling aside.
    pub open spec fn piece_list(self, p: Player, k: PieceKind, r: int, c: int) -> Seq<ChessMove> {
        match k {
            PieceKind::Pawn => self.pawn_list(p, r, c),
            PieceKind::Knight => self.knight_list(p, r, c),
            PieceKind::Bishop => self.diagonal_list(p, k, r, c),
            PieceKind::Rook => self.straight_list(p, k, r, c),
            PieceKind::Queen => self.straight_list(p, k, r, c) + self.diagonal_list(p, k, r, c),
            PieceKind::King => self.king_step_list(p, r, c),
        }
    }

    /// Castling moves of `p`'s king on (r, c): kingside, then queenside.
    pub open spec fn castle_list(self, p: Player, r: int, c: int) -> Seq<ChessMove> {
        let h = home_row(p);
        if r == h && c == 4 {
            (if self.castle_ok(p, true) {
                seq![Self::move_to(p, PieceKind::King, sq(r, c), h, 6)]
            } else {
                seq![]
            }) + (if self.castle_ok(p, false) {
                seq![Self::move_to(p, PieceKind::King, sq(r, c), h, 2)]
            } else {
                seq![]
            })
        } else {
            seq![]
        }
    }

    /// A king's steps, then its castling moves.
    pub open spec fn king_list(self, p: Player, r: int, c: int) -> Seq<ChessMove> {
        self.king_step_list(p, r, c) + self.castle_list(p, r, c)
    }

    /// The moves of `p`'s pieces of kind `k` on squares below `n`, square by square upward.
    pub open spec fn collect_list(self, p: Player, k: PieceKind, n: int) -> Seq<ChessMove>
        decreases n,
    {
        if n <= 0 {
            seq![]
        } else {
            self.collect_list(p, k, n - 1) + if has_bit(self.bb(p, k), n - 1) {
                self.piece_list(p, k, (n - 1) / 8, (n - 1) % 8)
            } else {
                seq![]
            }
        }
    }

    /// The moves of `p`'s kings on squares below `n`, castling included.
    pub open spec fn kings_list(self, p: Player, n: int) -> Seq<ChessMove>
        decreases n,
    {
        if n <= 0 {
            seq![]
        } else {
            self.kings_list(p, n - 1) + if has_bit(self.bb(p, PieceKind::King), n - 1) {
                self.king_list(p, (n - 1) / 8, (n - 1) % 8)
            } else {
                seq![]
            }
        }
    }

    /// The diagonal attacks of `p`'s pawns on squares below `n`: by square, left before right.
    pub open spec fn pawn_attack_list(self, p: Player, n: int) -> Seq<ChessMove>
        decreases n,
    {
        if n <= 0 {
            seq![]
        } else {
            let (r, c) = ((n - 1) / 8, (n - 1) % 8);
            self.pawn_attack_list(p, n - 1) + if has_bit(self.bb(p, PieceKind::Pawn), n - 1) {
                self.step_list(p, PieceKind::Pawn, r, c, pawn_dir(p), -1) + self.step_list(
                    p,
                    PieceKind::Pawn,
                    r,
                    c,
                    pawn_dir(p),
                    1,
                )
            } else {
                seq![]
            }
        }
    }

    /// Every pseudo-legal move of `p`: pawns, knights, bishops, rooks, queens, kings.
    pub open spec fn plain_list(self, p: Player) -> Seq<ChessMove> {
        self.collect_list(p, PieceKind::Pawn, 64) + self.collect_list(p, PieceKind::Knight, 64)
            + self.collect_list(p, PieceKind::Bishop, 64) + self.collect_list(p, PieceKind::Rook, 64)
            + self.collect_list(p, PieceKind::Queen, 64) + self.collect_list(p, PieceKind::King, 64)
    }

    /// Every move offered to `p`: as `plain_list`, with each king's castling after its steps.
    pub open spec fn full_list(self, p: Player) -> Seq<ChessMove> {
        self.collect_list(p, PieceKind::Pawn, 64) + self.collect_list(p, PieceKind::Knight, 64)
            + self.collect_list(p, PieceKind::Bishop, 64) + self.collect_list(p, PieceKind::Rook, 64)
            + self.collect_list(p, PieceKind::Queen, 64) + self.kings_list(p, 64)
    }

    /// `m` is a move of `p` that the generator offers: pseudo-legal, or castling.
    pub open spec fn generated(self, p: Player, m: ChessMove) -> bool {
        ||| self.pseudo_legal(p, m)
        ||| (0 <= m.from < 64 && has_bit(self.bb(p, PieceKind::King), m.from as int)
            && self.castles_from(p, m.from_row(), m.from_col(), m))
    }
}

#[derive(Debug, Copy, Clone, PartialEq, Eq, Structural)]
pub struct ChessMove {
    /// Square the piece leaves.
    pub from: i32,
    /// Square the piece lands on.
    pub to: i32,
    pub kind: PieceKind,
    pub player: Player,
}

impl ChessMove {
    /// Source and destination both name squares of the board.
    pub open spec fn in_range(self) -> bool {
        0 <= self.from < 64 && 0 <= self.to < 64
    }

    pub open spec fn from_row(self) -> int {
        self.from as int / 8
    }

    pub open spec fn from_col(self) -> int {
        self.from as int % 8
    }

    pub open spec fn to_row(self) -> int {
        self.to as int / 8
    }

    pub open spec fn to_col(self) -> int {
        self.to as int % 8
    }

    /// A king move across two files: the shape of castling.
    pub open spec fn castling_shape(self) -> bool {
        self.kind == PieceKind::King && (self.to_col() - self.from_col() == 2 || self.from_col()
            - self.to_col() == 2)
    }

    pub fn new(from: i32, to: i32, kind: PieceKind, player: Player) -> (r: Self)
        ensures
            r == (ChessMove { from, to, kind, player }),
    {
        Self { from, to, kind, player }
    }

    pub fn is_castling(&self) -> (r: bool)
        requires
            0 <= self.from,
            0 <= self.to,
        ensures
            r == self.castling_shape(),
    {
        self.kind == PieceKind::King && {
            let from = Board::index_to_row_col(self.from);
            let to = Board::index_to_row_col(self.to);
            to.1 - from.1 == 2 || from.1 - to.1 == 2
        }
    }
}


proof fn lemma_coords(r: int, c: int)
    requires
        on_board(r, c),
    ensures
        sq(r, c) / 8 == r,
        sq(r, c) % 8 == c,
        0 <= sq(r, c) < 64,
{
}

/// Joining two duplicate-free lists with no element in common gives a duplicate-free list.
proof fn lemma_join(a: Seq<ChessMove>, b: Seq<ChessMove>)
    requires
        a.no_duplicates(),
        b.no_duplicates(),
        forall|m: ChessMove| #[trigger] a.contains(m) ==> !b.contains(m),
    ensures
        (a + b).no_duplicates(),
{
    assert forall|i: int, j: int| 0 <= i < a.len() && 0 <= j < b.len() implies a[i] != b[j] by {
        assert(a.contains(a[i]));
        assert(b.contains(b[j]));
    }
    vstd::seq_lib::lemma_no_dup_in_concat(a, b);
}

/// The move generator: per-piece, per-kind and per-player move lists.
pub struct MoveGen {}

impl MoveGen {
    /// Adds the move from (x, y) to (x + dx, y + dy) when that square is open for `player`.
    fn step(
        board: &Board,
        player: Player,
        friends: u64,
        coords: (i32, i32),
        dx: i32,
        dy: i32,
        kind: PieceKind,
        moves: &mut Vec<ChessMove>,
    )
        requires
            on_board(coords.0 as int, coords.1 as int),
            -2 <= dx <= 2,
            -2 <= dy <= 2,
            friends == board.occupied_bits(player),
        ensures
            forall|m: ChessMove| #[trigger]
                final(moves)@.contains(m) <==> old(moves)@.contains(m) || (m.from == sq(
                    coords.0 as int,
                    coords.1 as int,
                ) && m.player == player && m.kind == kind && m.to_row() == coords.0 + dx
                    && m.to_col() == coords.1 + dy && board.open_for(
                    player,
                    coords.0 + dx,
                    coords.1 + dy,
                )),
            old(moves)@.no_duplicates() && (forall|m: ChessMove| #[trigger]
                old(moves)@.contains(m) ==> !(m.from == sq(coords.0 as int, coords.1 as int)
                    && m.to_row() == coords.0 + dx && m.to_col() == coords.1 + dy))
                ==> final(moves)@.no_duplicates(),
            final(moves)@ == old(moves)@ + board.step_list(
                player,
                kind,
                coords.0 as int,
                coords.1 as int,
                dx as int,
                dy as int,
            ),
    {
        let (x, y) = coords;
        let to = (x + dx, y + dy);
        let ghost before = moves@;
        if board.is_valid(to, friends) {
            proof {
                lemma_coords(to.0 as int, to.1 as int);
            }
            let mv = ChessMove::new(
                Board::row_col_to_index(x, y),
                Board::row_col_to_index(to.0, to.1),
                kind,
                player,
            );
            moves.push(mv);
            proof {
                if before.no_duplicates() && !before.contains(mv) {
                    assert forall|i: int, j: int| 0 <= i < j < moves@.len() implies moves@[i] != moves@[j] by {
                        if j == moves@.len() - 1 {
                            assert(before.contains(moves@[i]) ==> moves@[i] != mv);
                            assert(moves@[i] == before[i]);
                        }
                    }
                }
                assert(moves@ =~= before + board.step_list(player, kind, x as int, y as int, dx as int, dy as int));
            }
        } else {
            assert(moves@ =~= before + board.step_list(player, kind, x as int, y as int, dx as int, dy as int));
        }
    }

    /// The moves along one ray from (x, y): every empty square up to the
    /// first piece or the edge, and that piece's square if an enemy holds it.
    #[verifier::rlimit(60)]
    fn ray(
        board: &Board,
        player: Player,
        friends: u64,
        coords: (i32, i32),
        dx: i32,
        dy: i32,
        kind: PieceKind,
    ) -> (r: Vec<ChessMove>)
        requires
            on_board(coords.0 as int, coords.1 as int),
            -1 <= dx <= 1,
            -1 <= dy <= 1,
            !(dx == 0 && dy == 0),
            friends == board.occupied_bits(player),
        ensures
            r@ == board.ray_from(player, kind, coords.0 as int, coords.1 as int, dx as int, dy as int),
            r@.no_duplicates(),
            forall|m: ChessMove| #[trigger]
                r@.contains(m) <==> (m.from == sq(coords.0 as int, coords.1 as int) && m.player
                    == player && m.kind == kind && board.slide(
                    player,
                    coords.0 as int,
                    coords.1 as int,
                    dx as int,
                    dy as int,
                    m.to_row(),
                    m.to_col(),
                    max_ray(),
                )),
    {
        let (x, y) = coords;
        let from = Board::row_col_to_index(x, y);
        let mut res: Vec<ChessMove> = Vec::new();
        let mut tx: i32 = x;
        let mut ty: i32 = y;
        let mut left: u32 = 7;
        while left > 0
            invariant
                on_board(x as int, y as int),
                on_board(tx as int, ty as int),
                from == sq(x as int, y as int),
                -1 <= dx <= 1,
                -1 <= dy <= 1,
                !(dx == 0 && dy == 0),
                friends == board.occupied_bits(player),
                left <= 7,
                board.ray_list(player, kind, from as int, x as int, y as int, dx as int, dy as int, max_ray())
                    == res@ + board.ray_list(player, kind, from as int, tx as int, ty as int, dx as int, dy as int, left as nat),
                res@.no_duplicates(),
                forall|m: ChessMove| #[trigger]
                    res@.contains(m) ==> !board.slide(player, tx as int, ty as int, dx as int, dy as int, m.to_row(), m.to_col(), left as nat),
                forall|tr: int, tc: int|
                    #[trigger] board.slide(player, tx as int, ty as int, dx as int, dy as int, tr, tc, left as nat)
                        ==> board.slide(player, x as int, y as int, dx as int, dy as int, tr, tc, max_ray()),
                forall|m: ChessMove| #[trigger]
                    res@.contains(m) ==> m.from == from && m.player == player && m.kind == kind
                        && board.slide(player, x as int, y as int, dx as int, dy as int, m.to_row(), m.to_col(), max_ray()),
                forall|m: ChessMove|
                    m.from == from && m.player == player && m.kind == kind
                        && #[trigger] board.slide(player, x as int, y as int, dx as int, dy as int, m.to_row(), m.to_col(), max_ray())
                        ==> res@.contains(m) || board.slide(player, tx as int, ty as int, dx as int, dy as int, m.to_row(), m.to_col(), left as nat),
            decreases left,
        {
            let nx = tx + dx;
            let ny = ty + dy;
            if !Board::in_bounds((nx, ny)) {
                let ghost rest = board.ray_list(player, kind, from as int, tx as int, ty as int, dx as int, dy as int, left as nat);
                assert(rest =~= Seq::<ChessMove>::empty());
                left = 0;
                proof {
                    assert(res@ + rest =~= res@ + board.ray_list(player, kind, from as int, tx as int, ty as int, dx as int, dy as int, 0));
                    assert forall|tr: int, tc: int|
                        !#[trigger] board.slide(player, tx as int, ty as int, dx as int, dy as int, tr, tc, 0) by {}
                }
            } else {
                proof {
                    lemma_coords(nx as int, ny as int);
                }
                let mv = ChessMove::new(from, Board::row_col_to_index(nx, ny), kind, player);
                let ghost (ox, oy, ol) = (tx as int, ty as int, left as nat);
                let ghost old_res = res@;
                assert(mv.to_row() == nx && mv.to_col() == ny);
                assert(mv == Board::move_to(player, kind, from as int, nx as int, ny as int));
                let ghost rest = board.ray_list(player, kind, from as int, ox, oy, dx as int, dy as int, ol);
                if !board.is_occupied((nx, ny)) {
                    proof {
                        assert(board.slide(player, ox, oy, dx as int, dy as int, nx as int, ny as int, ol));
                        assert forall|tr: int, tc: int|
                            #[trigger] board.slide(player, nx as int, ny as int, dx as int, dy as int, tr, tc, (ol - 1) as nat)
                            implies board.slide(player, x as int, y as int, dx as int, dy as int, tr, tc, max_ray()) by {
                            assert(board.slide(player, ox, oy, dx as int, dy as int, tr, tc, ol));
                        }
                    }
                    assert(!old_res.contains(mv));
                    res.push(mv);
                    tx = nx;
                    ty = ny;
                    left = left - 1;
                    proof {
                        assert(rest == seq![mv] + board.ray_list(player, kind, from as int, tx as int, ty as int, dx as int, dy as int, left as nat));
                        assert(old_res + rest =~= res@ + board.ray_list(player, kind, from as int, tx as int, ty as int, dx as int, dy as int, left as nat));
                        assert forall|i: int, j: int| 0 <= i < j < res@.len() implies res@[i] != res@[j] by {
                            if j == res@.len() - 1 {
                                assert(res@[i] == old_res[i]);
                                assert(old_res.contains(old_res[i]));
                            }
                        }
                        assert forall|m: ChessMove| #[trigger] res@.contains(m)
                            implies !board.slide(player, tx as int, ty as int, dx as int, dy as int, m.to_row(), m.to_col(), left as nat) by {
                            if board.slide(player, tx as int, ty as int, dx as int, dy as int, m.to_row(), m.to_col(), left as nat) {
                                crate::laws::lemma_slide(*board, player, tx as int, ty as int, dx as int, dy as int, m.to_row(), m.to_col(), left as nat);
                                if m != mv {
                                    assert(old_res.contains(m));
                                    assert(board.slide(player, ox, oy, dx as int, dy as int, m.to_row(), m.to_col(), ol));
                                }
                            }
                        }
                        assert(left as nat == (ol - 1) as nat);
                        assert forall|tr: int, tc: int|
                            #[trigger] board.slide(player, tx as int, ty as int, dx as int, dy as int, tr, tc, left as nat)
                            implies board.slide(player, x as int, y as int, dx as int, dy as int, tr, tc, max_ray()) by {
                            assert(board.slide(player, nx as int, ny as int, dx as int, dy as int, tr, tc, (ol - 1) as nat));
                        }
                        assert forall|m: ChessMove|
                            m.from == from && m.player == player && m.kind == kind
                                && #[trigger] board.slide(player, x as int, y as int, dx as int, dy as int, m.to_row(), m.to_col(), max_ray())
                            implies res@.contains(m) || board.slide(player, tx as int, ty as int, dx as int, dy as int, m.to_row(), m.to_col(), left as nat) by {
                            if !res@.contains(m) {
                                assert(res@ == old_res.push(mv));
                                assert(!old_res.contains(m));
                                assert(board.slide(player, ox, oy, dx as int, dy as int, m.to_row(), m.to_col(), ol));
                            }
                        }
                    }
                } else {
                    if board.is_valid((nx, ny), friends) {
                        proof {
                            assert(board.slide(player, ox, oy, dx as int, dy as int, nx as int, ny as int, ol));
                        }
                        assert(!old_res.contains(mv));
                        res.push(mv);
                        proof {
                            assert forall|i: int, j: int| 0 <= i < j < res@.len() implies res@[i] != res@[j] by {
                                if j == res@.len() - 1 {
                                    assert(res@[i] == old_res[i]);
                                    assert(old_res.contains(old_res[i]));
                                }
                            }
                        }
                    }
                    left = 0;
                    proof {
                        assert(old_res + rest =~= res@ + board.ray_list(player, kind, from as int, tx as int, ty as int, dx as int, dy as int, 0));
                        assert forall|tr: int, tc: int|
                            !#[trigger] board.slide(player, tx as int, ty as int, dx as int, dy as int, tr, tc, 0) by {}
                        assert forall|m: ChessMove|
                            m.from == from && m.player == player && m.kind == kind
                                && #[trigger] board.slide(player, x as int, y as int, dx as int, dy as int, m.to_row(), m.to_col(), max_ray())
                            implies res@.contains(m) by {
                            assert(res@ == old_res || res@ == old_res.push(mv));
                            if !old_res.contains(m) {
                                assert(board.slide(player, ox, oy, dx as int, dy as int, m.to_row(), m.to_col(), ol));
                                assert(m.to == mv.to);
                                assert(m == mv);
                            }
                        }
                    }
                }
            }
        }
        assert(res@ =~= res@ + board.ray_list(player, kind, from as int, tx as int, ty as int, dx as int, dy as int, 0));
        res
    }

    /// Adds the moves along one more ray, in a direction none of `moves` took.
    fn add_ray(
        board: &Board,
        player: Player,
        friends: u64,
        coords: (i32, i32),
        dx: i32,
        dy: i32,
        kind: PieceKind,
        moves: &mut Vec<ChessMove>,
    )
        requires
            on_board(coords.0 as int, coords.1 as int),
            -1 <= dx <= 1,
            -1 <= dy <= 1,
            !(dx == 0 && dy == 0),
            friends == board.occupied_bits(player),
            old(moves)@.no_duplicates(),
            forall|m: ChessMove| #[trigger]
                old(moves)@.contains(m) ==> !board.slide(
                    player,
                    coords.0 as int,
                    coords.1 as int,
                    dx as int,
                    dy as int,
                    m.to_row(),
                    m.to_col(),
                    max_ray(),
                ),
        ensures
            final(moves)@ == old(moves)@ + board.ray_from(player, kind, coords.0 as int, coords.1 as int, dx as int, dy as int),
            final(moves)@.no_duplicates(),
            forall|m: ChessMove| #[trigger]
                final(moves)@.contains(m) <==> old(moves)@.contains(m) || (m.from == sq(
                    coords.0 as int,
                    coords.1 as int,
                ) && m.player == player && m.kind == kind && board.slide(
                    player,
                    coords.0 as int,
                    coords.1 as int,
                    dx as int,
                    dy as int,
                    m.to_row(),
                    m.to_col(),
                    max_ray(),
                )),
    {
        let mut more = Self::ray(board, player, friends, coords, dx, dy, kind);
        proof {
            lemma_join(moves@, more@);
        }
        moves.append(&mut more);
    }

    pub fn pawn(board: &Board, player: Player, coords: (i32, i32)) -> (r: Vec<ChessMove>)
        requires
            on_board(coords.0 as int, coords.1 as int),
        ensures
            forall|m: ChessMove| #[trigger]
                r@.contains(m) <==> board.moves_of(
                    player,
                    PieceKind::Pawn,
                    coords.0 as int,
                    coords.1 as int,
                    m,
                ),
            r@.no_duplicates(),
            r@ == board.pawn_list(player, coords.0 as int, coords.1 as int),
    {
        let (x, y) = coords;
        let friends = board.get_occupied(player);
        let d: i32 = match player {
            Player::White => -1,
            Player::Black => 1,
        };
        let start: i32 = match player {
            Player::White => 6,
            Player::Black => 1,
        };
        let from = Board::row_col_to_index(x, y);
        let mut moves: Vec<ChessMove> = Vec::new();

        // Straight ahead onto an empty square, and two squares from the start row.
        if !board.is_occupied((x + d, y)) {
            proof {
                lemma_coords(x + d, y as int);
            }
            moves.push(ChessMove::new(from, Board::row_col_to_index(x + d, y), PieceKind::Pawn, player));
            if x == start && !board.is_occupied((x + 2 * d, y)) {
                proof {
                    lemma_coords(x + 2 * d, y as int);
                }
                moves.push(
                    ChessMove::new(from, Board::row_col_to_index(x + 2 * d, y), PieceKind::Pawn, player),
                );
            }
        }
        // Diagonal captures.

        let left = (x + d, y - 1);
        if board.is_valid(left, friends) && board.is_occupied(left) {
            proof {
                lemma_coords(left.0 as int, left.1 as int);
            }
            moves.push(ChessMove::new(from, Board::row_col_to_index(left.0, left.1), PieceKind::Pawn, player));
        }
        let right = (x + d, y + 1);
        if board.is_valid(right, friends) && board.is_occupied(right) {
            proof {
                lemma_coords(right.0 as int, right.1 as int);
            }
            moves.push(ChessMove::new(from, Board::row_col_to_index(right.0, right.1), PieceKind::Pawn, player));
        }
        assert(moves@ =~= board.pawn_list(player, x as int, y as int));
        moves
    }

    pub fn knight(board: &Board, player: Player, coords: (i32, i32)) -> (r: Vec<ChessMove>)
        requires
            on_board(coords.0 as int, coords.1 as int),
        ensures
            forall|m: ChessMove| #[trigger]
                r@.contains(m) <==> board.moves_of(
                    player,
                    PieceKind::Knight,
                    coords.0 as int,
                    coords.1 as int,
                    m,
                ),
            r@.no_duplicates(),
            r@ == board.knight_list(player, coords.0 as int, coords.1 as int),
    {
        let friends = board.get_occupied(player);
        let mut moves: Vec<ChessMove> = Vec::new();
        let k = PieceKind::Knight;
        Self::step(board, player, friends, coords, -2, -1, k, &mut moves);
        Self::step(board, player, friends, coords, -1, -2, k, &mut moves);
        Self::step(board, player, friends, coords, 1, -2, k, &mut moves);
        Self::step(board, player, friends, coords, 2, -1, k, &mut moves);
        Self::step(board, player, friends, coords, -2, 1, k, &mut moves);
        Self::step(board, player, friends, coords, -1, 2, k, &mut moves);
        Self::step(board, player, friends, coords, 1, 2, k, &mut moves);
        Self::step(board, player, friends, coords, 2, 1, k, &mut moves);
        assert(moves@ =~= board.knight_list(player, coords.0 as int, coords.1 as int));
        moves
    }

    pub fn bishop(board: &Board, player: Player, coords: (i32, i32)) -> (r: Vec<ChessMove>)
        requires
            on_board(coords.0 as int, coords.1 as int),
        ensures
            forall|m: ChessMove| #[trigger]
                r@.contains(m) <==> board.moves_of(
                    player,
                    PieceKind::Bishop,
                    coords.0 as int,
                    coords.1 as int,
                    m,
                ),
            r@.no_duplicates(),
            r@ == board.diagonal_list(player, PieceKind::Bishop, coords.0 as int, coords.1 as int),
    {
        broadcast use crate::laws::lemma_rays_apart;

        let friends = board.get_occupied(player);
        let k = PieceKind::Bishop;
        let mut moves: Vec<ChessMove> = Vec::new();
        Self::add_ray(board, player, friends, coords, -1, -1, k, &mut moves);
        Self::add_ray(board, player, friends, coords, -1, 1, k, &mut moves);
        Self::add_ray(board, player, friends, coords, 1, -1, k, &mut moves);
        Self::add_ray(board, player, friends, coords, 1, 1, k, &mut moves);
        assert(moves@ =~= board.diagonal_list(player, PieceKind::Bishop, coords.0 as int, coords.1 as int));
        moves
    }

    pub fn rook(board: &Board, player: Player, coords: (i32, i32)) -> (r: Vec<ChessMove>)
        requires
            on_board(coords.0 as int, coords.1 as int),
        ensures
            forall|m: ChessMove| #[trigger]
                r@.contains(m) <==> board.moves_of(
                    player,
                    PieceKind::Rook,
                    coords.0 as int,
                    coords.1 as int,
                    m,
                ),
            r@.no_duplicates(),
            r@ == board.straight_list(player, PieceKind::Rook, coords.0 as int, coords.1 as int),
    {
        broadcast use crate::laws::lemma_rays_apart;

        let friends = board.get_occupied(player);
        let k = PieceKind::Rook;
        let mut moves: Vec<ChessMove> = Vec::new();
        Self::add_ray(board, player, friends, coords, 0, -1, k, &mut moves);
        Self::add_ray(board, player, friends, coords, 0, 1, k, &mut moves);
        Self::add_ray(board, player, friends, coords, -1, 0, k, &mut moves);
        Self::add_ray(board, player, friends, coords, 1, 0, k, &mut moves);
        assert(moves@ =~= board.straight_list(player, PieceKind::Rook, coords.0 as int, coords.1 as int));
        moves
    }

    pub fn queen(board: &Board, player: Player, coords: (i32, i32)) -> (r: Vec<ChessMove>)
        requires
            on_board(coords.0 as int, coords.1 as int),
        ensures
            forall|m: ChessMove| #[trigger]
                r@.contains(m) <==> board.moves_of(
                    player,
                    PieceKind::Queen,
                    coords.0 as int,
                    coords.1 as int,
                    m,
                ),
            r@.no_duplicates(),
            r@ == board.straight_list(player, PieceKind::Queen, coords.0 as int, coords.1 as int) + board.diagonal_list(player, PieceKind::Queen, coords.0 as int, coords.1 as int),
    {
        broadcast use crate::laws::lemma_rays_apart;

        let friends = board.get_occupied(player);
        let k = PieceKind::Queen;
        let mut moves: Vec<ChessMove> = Vec::new();
        Self::add_ray(board, player, friends, coords, 0, -1, k, &mut moves);
        Self::add_ray(board, player, friends, coords, 0, 1, k, &mut moves);
        Self::add_ray(board, player, friends, coords, -1, 0, k, &mut moves);
        Self::add_ray(board, player, friends, coords, 1, 0, k, &mut moves);
        Self::add_ray(board, player, friends, coords, -1, -1, k, &mut moves);
        Self::add_ray(board, player, friends, coords, -1, 1, k, &mut moves);
        Self::add_ray(board, player, friends, coords, 1, -1, k, &mut moves);
        Self::add_ray(board, player, friends, coords, 1, 1, k, &mut moves);
        assert(moves@ =~= board.straight_list(player, PieceKind::Queen, coords.0 as int, coords.1 as int) + board.diagonal_list(player, PieceKind::Queen, coords.0 as int, coords.1 as int));
        moves
    }

    pub fn king_no_castling(board: &Board, player: Player, coords: (i32, i32)) -> (r: Vec<ChessMove>)
        requires
            on_board(coords.0 as int, coords.1 as int),
        ensures
            forall|m: ChessMove| #[trigger]
                r@.contains(m) <==> board.moves_of(
                    player,
                    PieceKind::King,
                    coords.0 as int,
                    coords.1 as int,
                    m,
                ),
            r@.no_duplicates(),
            r@ == board.king_step_list(player, coords.0 as int, coords.1 as int),
    {
        let friends = board.get_occupied(player);
        let mut moves: Vec<ChessMove> = Vec::new();
        let k = PieceKind::King;
        Self::step(board, player, friends, coords, -1, -1, k, &mut moves);
        Self::step(board, player, friends, coords, -1, 0, k, &mut moves);
        Self::step(board, player, friends, coords, -1, 1, k, &mut moves);
        Self::step(board, player, friends, coords, 0, -1, k, &mut moves);
        Self::step(board, player, friends, coords, 0, 1, k, &mut moves);
        Self::step(board, player, friends, coords, 1, -1, k, &mut moves);
        Self::step(board, player, friends, coords, 1, 0, k, &mut moves);
        Self::step(board, player, friends, coords, 1, 1, k, &mut moves);
        assert(moves@ =~= board.king_step_list(player, coords.0 as int, coords.1 as int));
        moves
    }

    /// The moves of a piece of kind `kind` of `player` on `coords`, castling aside.
    fn piece_moves(board: &Board, player: Player, kind: PieceKind, coords: (i32, i32)) -> (r: Vec<ChessMove>)
        requires
            on_board(coords.0 as int, coords.1 as int),
        ensures
            forall|m: ChessMove| #[trigger]
                r@.contains(m) <==> board.moves_of(player, kind, coords.0 as int, coords.1 as int, m),
            r@.no_duplicates(),
            r@ == board.piece_list(player, kind, coords.0 as int, coords.1 as int),
    {
        match kind {
            PieceKind::Pawn => Self::pawn(board, player, coords),
            PieceKind::Knight => Self::knight(board, player, coords),
            PieceKind::Bishop => Self::bishop(board, player, coords),
            PieceKind::Rook => Self::rook(board, player, coords),
            PieceKind::Queen => Self::queen(board, player, coords),
            PieceKind::King => Self::king_no_castling(board, player, coords),
        }
    }

    /// The pseudo-legal moves of all of `player`'s pieces of kind `kind`, castling aside.
    pub(crate) fn collect(board: &Board, player: Player, kind: PieceKind) -> (r: Vec<ChessMove>)
        ensures
            forall|m: ChessMove| #[trigger]
                r@.contains(m) <==> m.kind == kind && board.pseudo_legal(player, m),
            r@.no_duplicates(),
            r@ == board.collect_list(player, kind, 64),
    {
        let pieces = board.get_bb(player, kind);
        let mut moves: Vec<ChessMove> = Vec::new();
        let mut i: i32 = 0;
        while i < 64
            invariant
                0 <= i <= 64,
                pieces == board.bb(player, kind),
                forall|m: ChessMove| #[trigger]
                    moves@.contains(m) <==> m.from < i && m.kind == kind && board.pseudo_legal(player, m),
                moves@.no_duplicates(),
                moves@ == board.collect_list(player, kind, i as int),
            decreases 64 - i,
        {
            if pieces & Board::index_to_u64(i) != 0 {
                let mut more = Self::piece_moves(board, player, kind, Board::index_to_row_col(i));
                proof {
                    lemma_join(moves@, more@);
                }
                moves.append(&mut more);
            }
            assert(moves@ =~= board.collect_list(player, kind, i + 1));
            i += 1;
        }
        moves
    }

    pub fn pawns(board: &Board, player: Player) -> (r: Vec<ChessMove>)
        ensures
            forall|m: ChessMove| #[trigger]
                r@.contains(m) <==> m.kind == PieceKind::Pawn && board.pseudo_legal(player, m),
            r@.no_duplicates(),
            r@ == board.collect_list(player, PieceKind::Pawn, 64),
    {
        Self::collect(board, player, PieceKind::Pawn)
    }

    pub fn knights(board: &Board, player: Player) -> (r: Vec<ChessMove>)
        ensures
            forall|m: ChessMove| #[trigger]
                r@.contains(m) <==> m.kind == PieceKind::Knight && board.pseudo_legal(player, m),
            r@.no_duplicates(),
            r@ == board.collect_list(player, PieceKind::Knight, 64),
    {
        Self::collect(board, player, PieceKind::Knight)
    }

    pub fn bishops(board: &Board, player: Player) -> (r: Vec<ChessMove>)
        ensures
            forall|m: ChessMove| #[trigger]
                r@.contains(m) <==> m.kind == PieceKind::Bishop && board.pseudo_legal(player, m),
            r@.no_duplicates(),
            r@ == board.collect_list(player, PieceKind::Bishop, 64),
    {
        Self::collect(board, player, PieceKind::Bishop)
    }

    pub fn rooks(board: &Board, player: Player) -> (r: Vec<ChessMove>)
        ensures
            forall|m: ChessMove| #[trigger]
                r@.contains(m) <==> m.kind == PieceKind::Rook && board.pseudo_legal(player, m),
            r@.no_duplicates(),
            r@ == board.collect_list(player, PieceKind::Rook, 64),
    {
        Self::collect(board, player, PieceKind::Rook)
    }

    /// Every pseudo-legal move of `player`, castling left out; what attack
    /// detection is built on.
    pub fn all_no_castling(board: &Board, player: Player) -> (r: Vec<ChessMove>)
        ensures
            forall|m: ChessMove| #[trigger] r@.contains(m) <==> board.pseudo_legal(player, m),
            r@.no_duplicates(),
            r@ == board.plain_list(player),
    {
        let mut moves = Self::collect(board, player, PieceKind::Pawn);
        Self::add_kind(board, player, PieceKind::Knight, &mut moves);
        Self::add_kind(board, player, PieceKind::Bishop, &mut moves);
        Self::add_kind(board, player, PieceKind::Rook, &mut moves);
        Self::add_kind(board, player, PieceKind::Queen, &mut moves);
        Self::add_kind(board, player, PieceKind::King, &mut moves);
        assert(moves@ =~= board.plain_list(player));
        moves
    }

    /// Adds the moves of `player`'s pieces of kind `kind`, a kind none of `moves` has.
    fn add_kind(board: &Board, player: Player, kind: PieceKind, moves: &mut Vec<ChessMove>)
        requires
            old(moves)@.no_duplicates(),
            forall|m: ChessMove| #[trigger] old(moves)@.contains(m) ==> m.kind != kind,
        ensures
            final(moves)@ == old(moves)@ + board.collect_list(player, kind, 64),
            final(moves)@.no_duplicates(),
            forall|m: ChessMove| #[trigger]
                final(moves)@.contains(m) <==> old(moves)@.contains(m) || (m.kind == kind
                    && board.pseudo_legal(player, m)),
    {
        let mut more = Self::collect(board, player, kind);
        proof {
            lemma_join(moves@, more@);
        }
        moves.append(&mut more);
    }

    /// The squares `player`'s pawns attack, as moves: one square diagonally
    /// forward, whether or not a piece stands there.
    pub fn pawn_attacks(board: &Board, player: Player) -> (r: Vec<ChessMove>)
        ensures
            forall|m: ChessMove| #[trigger] r@.contains(m) <==> board.pawn_attack(player, m),
            r@.no_duplicates(),
            r@ == board.pawn_attack_list(player, 64),
    {
        let pawns = board.get_bb(player, PieceKind::Pawn);
        let friends = board.get_occupied(player);
        let d: i32 = match player {
            Player::White => -1,
            Player::Black => 1,
        };
        let mut moves: Vec<ChessMove> = Vec::new();
        let mut i: i32 = 0;
        while i < 64
            invariant
                0 <= i <= 64,
                pawns == board.bb(player, PieceKind::Pawn),
                friends == board.occupied_bits(player),
                d == pawn_dir(player),
                forall|m: ChessMove| #[trigger]
                    moves@.contains(m) <==> m.from < i && board.pawn_attack(player, m),
                moves@.no_duplicates(),
                moves@ == board.pawn_attack_list(player, i as int),
            decreases 64 - i,
        {
            if pawns & Board::index_to_u64(i) != 0 {
                let coords = Board::index_to_row_col(i);
                Self::step(board, player, friends, coords, d, -1, PieceKind::Pawn, &mut moves);
                Self::step(board, player, friends, coords, d, 1, PieceKind::Pawn, &mut moves);
            }
            assert(moves@ =~= board.pawn_attack_list(player, i + 1));
            i += 1;
        }
        moves
    }

    /// Castling moves of `player`'s king standing on `coords`, onto the
    /// king's destination square on each side where castling is allowed.
    fn castling(board: &Board, player: Player, coords: (i32, i32)) -> (r: Vec<ChessMove>)
        requires
            on_board(coords.0 as int, coords.1 as int),
        ensures
            forall|m: ChessMove| #[trigger]
                r@.contains(m) <==> board.castles_from(player, coords.0 as int, coords.1 as int, m),
            r@.no_duplicates(),
            r@ == board.castle_list(player, coords.0 as int, coords.1 as int),
    {
        let mut moves: Vec<ChessMove> = Vec::new();
        let from = Board::row_col_to_index(coords.0, coords.1);
        let h: i32 = match player {
            Player::White => 7,
            Player::Black => 0,
        };
        if coords.0 == h && coords.1 == 4 {
            if board.castle_allowed(player, true) {
                moves.push(ChessMove::new(from, Board::row_col_to_index(h, 6), PieceKind::King, player));
            }
            if board.castle_allowed(player, false) {
                moves.push(ChessMove::new(from, Board::row_col_to_index(h, 2), PieceKind::King, player));
            }
            assert(moves@ =~= board.castle_list(player, coords.0 as int, coords.1 as int));
        } else {
            assert(moves@ =~= board.castle_list(player, coords.0 as int, coords.1 as int));
        }
        moves
    }

    /// The king's eight steps and its castling moves.
    pub fn king(board: &Board, player: Player, coords: (i32, i32)) -> (r: Vec<ChessMove>)
        requires
            on_board(coords.0 as int, coords.1 as int),
        ensures
            forall|m: ChessMove| #[trigger]
                r@.contains(m) <==> board.moves_of(
                    player,
                    PieceKind::King,
                    coords.0 as int,
                    coords.1 as int,
                    m,
                ) || board.castles_from(player, coords.0 as int, coords.1 as int, m),
            r@ == board.king_list(player, coords.0 as int, coords.1 as int),
            r@.no_duplicates(),
    {
        let mut moves = Self::king_no_castling(board, player, coords);
        let mut castles = Self::castling(board, player, coords);
        proof {
            lemma_join(moves@, castles@);
        }
        moves.append(&mut castles);
        assert(moves@ =~= board.king_list(player, coords.0 as int, coords.1 as int));
        moves
    }

    /// Moves of every king of `player`, castling included.
    fn kings(board: &Board, player: Player) -> (r: Vec<ChessMove>)
        ensures
            forall|m: ChessMove| #[trigger]
                r@.contains(m) <==> m.kind == PieceKind::King && 0 <= m.from < 64 && has_bit(
                    board.bb(player, PieceKind::King),
                    m.from as int,
                ) && (board.moves_of(player, PieceKind::King, m.from_row(), m.from_col(), m)
                    || board.castles_from(player, m.from_row(), m.from_col(), m)),
            r@ == board.kings_list(player, 64),
            r@.no_duplicates(),
    {
        let pieces = board.get_bb(player, PieceKind::King);
        let mut moves: Vec<ChessMove> = Vec::new();
        let mut i: i32 = 0;
        while i < 64
            invariant
                0 <= i <= 64,
                pieces == board.bb(player, PieceKind::King),
                forall|m: ChessMove| #[trigger]
                    moves@.contains(m) <==> m.from < i && m.kind == PieceKind::King && 0 <= m.from
                        < 64 && has_bit(pieces, m.from as int) && (board.moves_of(
                        player,
                        PieceKind::King,
                        m.from_row(),
                        m.from_col(),
                        m,
                    ) || board.castles_from(player, m.from_row(), m.from_col(), m)),
                moves@ == board.kings_list(player, i as int),
                moves@.no_duplicates(),
            decreases 64 - i,
        {
            if pieces & Board::index_to_u64(i) != 0 {
                let mut more = Self::king(board, player, Board::index_to_row_col(i));
                proof {
                    lemma_join(moves@, more@);
                }
                moves.append(&mut more);
            }
            assert(moves@ =~= board.kings_list(player, i + 1));
            i += 1;
        }
        moves
    }

    /// Every move the generator offers `player`: the pseudo-legal moves of
    /// all pieces, and castling.
    pub fn all(board: &Board, player: Player) -> (r: Vec<ChessMove>)
        ensures
            forall|m: ChessMove| #[trigger] r@.contains(m) <==> board.generated(player, m),
            r@ == board.full_list(player),
            r@.no_duplicates(),
    {
        let mut moves = Self::collect(board, player, PieceKind::Pawn);
        Self::add_kind(board, player, PieceKind::Knight, &mut moves);
        Self::add_kind(board, player, PieceKind::Bishop, &mut moves);
        Self::add_kind(board, player, PieceKind::Rook, &mut moves);
        Self::add_kind(board, player, PieceKind::Queen, &mut moves);
        let mut kings = Self::kings(board, player);
        proof {
            lemma_join(moves@, kings@);
        }
        moves.append(&mut kings);
        assert(moves@ =~= board.full_list(player));
        moves
    }

    /// The moves of the piece on `coords`, for its owner, castling included.
    pub fn piece_at(board: &Board, coords: (i32, i32)) -> (r: Vec<ChessMove>)
        requires
            on_board(coords.0 as int, coords.1 as int),
            board.occupant(sq(coords.0 as int, coords.1 as int)) is Some,
        ensures
            ({
                let (p, k) = board.occupant(sq(coords.0 as int, coords.1 as int))->Some_0;
                forall|m: ChessMove| #[trigger]
                    r@.contains(m) <==> board.moves_of(p, k, coords.0 as int, coords.1 as int, m)
                        || (k == PieceKind::King && board.castles_from(
                        p,
                        coords.0 as int,
                        coords.1 as int,
                        m,
                    ))
            }),
            ({
                let (p, k) = board.occupant(sq(coords.0 as int, coords.1 as int))->Some_0;
                r@ == if k == PieceKind::King {
                    board.king_list(p, coords.0 as int, coords.1 as int)
                } else {
                    board.piece_list(p, k, coords.0 as int, coords.1 as int)
                }
            }),
            r@.no_duplicates(),
    {
        let piece = board.at(coords).unwrap();
        let player = piece.player;
        match piece.kind {
            PieceKind::Pawn => Self::pawn(board, player, coords),
            PieceKind::Knight => Self::knight(board, player, coords),
            PieceKind::Bishop => Self::bishop(board, player, coords),
            PieceKind::Rook => Self::rook(board, player, coords),
            PieceKind::Queen => Self::queen(board, player, coords),
            PieceKind::King => Self::king(board, player, coords),
        }
    }
}

/// Shifts `x` left by a positive amount or right by a negative one; shifts
/// of 64 or more either way give 0.
pub fn shift(x: u64, shamt: i32) -> (r: u64)
    requires
        shamt > i32::MIN,
    ensures
        r == if shamt > 0 {
            if shamt >= 64 {
                0
            } else {
                x << (shamt as u64)
            }
        } else {
            if -shamt >= 64 {
                0
            } else {
                x >> ((-shamt) as u64)
            }
        },
{
    if shamt > 0 {
        if shamt >= 64 {
            0
        } else {
            x << (shamt as u64)
        }
    } else {
        if -shamt >= 64 {
            0
        } else {
            x >> ((-shamt) as u64)
        }
    }
}

} // verus!
