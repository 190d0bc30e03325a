//! Properties of the rules engine that hold across calls: the board never
//! puts two pieces on one square, turns alternate, the en-passant target
//! lives for one move, castling rights only ever disappear, and a quiet
//! move followed by its inverse leaves the pieces where they were.
use vstd::prelude::*;
use crate::bits::{has_bit, bit, group_bits};
use crate::piece::{PieceKind, Player, other};
use crate::board::{Board, first_kind_from, on_board, sq, home_row};
use crate::movegen::{ChessMove, max_ray, pawn_dir};
use crate::apply::{castle_rook, rook_home, double_push, promotes};

verus! {

broadcast use group_bits;

/// Who stands on a square, in terms of the bitsets: nobody exactly when no
/// bitset holds it, and on a board without overlaps, exactly the owner of
/// the one bitset that holds it.
pub proof fn lemma_occupant(b: Board, i: int)
    requires
        0 <= i < 64,
    ensures
        (b.occupant(i) is None) <==> (forall|p: Player, k: PieceKind| !has_bit(#[trigger] b.bb(p, k), i)),
        b.disjoint() ==> forall|p: Player, k: PieceKind|
            (b.occupant(i) == Some((p, k))) <==> has_bit(#[trigger] b.bb(p, k), i),
{
    reveal_with_fuel(first_kind_from, 7);
    assert(b.bb(Player::Black, PieceKind::Pawn) == b.black[0]);
    assert(b.bb(Player::Black, PieceKind::Knight) == b.black[1]);
    assert(b.bb(Player::Black, PieceKind::Bishop) == b.black[2]);
    assert(b.bb(Player::Black, PieceKind::Rook) == b.black[3]);
    assert(b.bb(Player::Black, PieceKind::Queen) == b.black[4]);
    assert(b.bb(Player::Black, PieceKind::King) == b.black[5]);
    assert(b.bb(Player::White, PieceKind::Pawn) == b.white[0]);
    assert(b.bb(Player::White, PieceKind::Knight) == b.white[1]);
    assert(b.bb(Player::White, PieceKind::Bishop) == b.white[2]);
    assert(b.bb(Player::White, PieceKind::Rook) == b.white[3]);
    assert(b.bb(Player::White, PieceKind::Queen) == b.white[4]);
    assert(b.bb(Player::White, PieceKind::King) == b.white[5]);
}

/// A ray lands on a square open for its player, and moves away from its start
/// along each axis in the sign of its direction.
pub proof fn lemma_slide(
    b: Board,
    p: Player,
    r: int,
    c: int,
    dr: int,
    dc: int,
    tr: int,
    tc: int,
    n: nat,
)
    requires
        b.slide(p, r, c, dr, dc, tr, tc, n),
    ensures
        b.open_for(p, tr, tc),
        dr > 0 ==> tr > r,
        dr < 0 ==> tr < r,
        dr == 0 ==> tr == r,
        dc > 0 ==> tc > c,
        dc < 0 ==> tc < c,
        dc == 0 ==> tc == c,
    decreases n,
{
    if !(r + dr == tr && c + dc == tc && b.open_for(p, tr, tc)) {
        lemma_slide(b, p, r + dr, c + dc, dr, dc, tr, tc, (n - 1) as nat);
    }
}

/// Two rays from one square in different directions never reach the same square.
pub broadcast proof fn lemma_rays_apart(
    b: Board,
    p: Player,
    r: int,
    c: int,
    dr: int,
    dc: int,
    er: int,
    ec: int,
    tr: int,
    tc: int,
)
    requires
        -1 <= dr <= 1 && -1 <= dc <= 1 && !(dr == 0 && dc == 0),
        -1 <= er <= 1 && -1 <= ec <= 1 && !(er == 0 && ec == 0),
        #[trigger] b.slide(p, r, c, dr, dc, tr, tc, max_ray()),
        #[trigger] b.slide(p, r, c, er, ec, tr, tc, max_ray()),
    ensures
        dr == er && dc == ec,
{
    lemma_slide(b, p, r, c, dr, dc, tr, tc, max_ray());
    lemma_slide(b, p, r, c, er, ec, tr, tc, max_ray());
}

/// What every move the generator offers satisfies: it belongs to its player,
/// names two distinct squares of the board, starts where a piece of its kind
/// stands and lands where its player has no piece; it is never an
/// en-passant capture; and a move of castling shape is a castling move
/// allowed on that side.
pub proof fn lemma_generated(b: Board, p: Player, m: ChessMove)
    requires
        b.generated(p, m),
    ensures
        m.player == p,
        m.in_range(),
        m.from != m.to,
        has_bit(b.bb(p, m.kind), m.from as int),
        b.open_for(p, m.to_row(), m.to_col()),
        !b.en_passant_capture(m),
        m.castling_shape() ==> b.castles_from(p, m.from_row(), m.from_col(), m),
{
    let (r, c, tr, tc) = (m.from_row(), m.from_col(), m.to_row(), m.to_col());
    lemma_occupant(b, m.from as int);
    if b.pseudo_legal(p, m) {
        match m.kind {
            PieceKind::Bishop => {
                if b.slide(p, r, c, -1, -1, tr, tc, max_ray()) {
                    lemma_slide(b, p, r, c, -1, -1, tr, tc, max_ray());
                } else if b.slide(p, r, c, -1, 1, tr, tc, max_ray()) {
                    lemma_slide(b, p, r, c, -1, 1, tr, tc, max_ray());
                } else if b.slide(p, r, c, 1, -1, tr, tc, max_ray()) {
                    lemma_slide(b, p, r, c, 1, -1, tr, tc, max_ray());
                } else {
                    lemma_slide(b, p, r, c, 1, 1, tr, tc, max_ray());
                }
            },
            PieceKind::Rook => {
                if b.slide(p, r, c, 0, -1, tr, tc, max_ray()) {
                    lemma_slide(b, p, r, c, 0, -1, tr, tc, max_ray());
                } else if b.slide(p, r, c, 0, 1, tr, tc, max_ray()) {
                    lemma_slide(b, p, r, c, 0, 1, tr, tc, max_ray());
                } else if b.slide(p, r, c, -1, 0, tr, tc, max_ray()) {
                    lemma_slide(b, p, r, c, -1, 0, tr, tc, max_ray());
                } else {
                    lemma_slide(b, p, r, c, 1, 0, tr, tc, max_ray());
                }
            },
            PieceKind::Queen => {
                if b.slide(p, r, c, -1, -1, tr, tc, max_ray()) {
                    lemma_slide(b, p, r, c, -1, -1, tr, tc, max_ray());
                } else if b.slide(p, r, c, -1, 1, tr, tc, max_ray()) {
                    lemma_slide(b, p, r, c, -1, 1, tr, tc, max_ray());
                } else if b.slide(p, r, c, 1, -1, tr, tc, max_ray()) {
                    lemma_slide(b, p, r, c, 1, -1, tr, tc, max_ray());
                } else if b.slide(p, r, c, 1, 1, tr, tc, max_ray()) {
                    lemma_slide(b, p, r, c, 1, 1, tr, tc, max_ray());
                } else if b.slide(p, r, c, 0, -1, tr, tc, max_ray()) {
                    lemma_slide(b, p, r, c, 0, -1, tr, tc, max_ray());
                } else if b.slide(p, r, c, 0, 1, tr, tc, max_ray()) {
                    lemma_slide(b, p, r, c, 0, 1, tr, tc, max_ray());
                } else if b.slide(p, r, c, -1, 0, tr, tc, max_ray()) {
                    lemma_slide(b, p, r, c, -1, 0, tr, tc, max_ray());
                } else {
                    lemma_slide(b, p, r, c, 1, 0, tr, tc, max_ray());
                }
            },
            PieceKind::Pawn => {
                lemma_occupant(b, m.to as int);
            },
            _ => {},
        }
    } else {
        lemma_occupant(b, m.to as int);
    }
}

/// The rook squares a castling-shaped move toggles, if any.
pub open spec fn rook_toggle(m: ChessMove) -> Option<(int, int)> {
    if m.castling_shape() {
        castle_rook(m.player, m.to as int)
    } else {
        None
    }
}

impl Board {
    /// What holds of every position reached in play: no square holds two
    /// pieces, each castling right still held has its rook on that rook's
    /// home square, and a pending promotion marks a pawn of the player who
    /// moved last.
    pub open spec fn consistent(self) -> bool {
        &&& self.disjoint()
        &&& forall|p: Player, ks: bool| #[trigger]
            self.has_right(p, ks) ==> has_bit(self.bb(p, PieceKind::Rook), rook_home(p, ks))
        &&& self.promoting is Some ==> exists|s: int|
            0 <= s < 64 && self.promoting->Some_0 == bit(s) && #[trigger] has_bit(
                self.bb(other(self.turn), PieceKind::Pawn),
                s,
            )
    }

    /// Who holds square `i` once the generated move `m` is applied.
    pub open spec fn holds_after(self, m: ChessMove, q: Player, k: PieceKind, i: int) -> bool {
        if i == m.to as int {
            q == m.player && k == m.kind
        } else if i == m.from as int {
            false
        } else {
            match rook_toggle(m) {
                Some((rf, rt)) => if i == rf {
                    false
                } else if i == rt {
                    q == m.player && k == PieceKind::Rook
                } else {
                    has_bit(self.bb(q, k), i)
                },
                None => has_bit(self.bb(q, k), i),
            }
        }
    }
}

proof fn lemma_empty_square(b: Board, i: int)
    requires
        0 <= i < 64,
        !b.occupied(i),
    ensures
        forall|q: Player, k: PieceKind| !has_bit(#[trigger] b.bb(q, k), i),
{
    assert forall|q: Player, k: PieceKind| !has_bit(#[trigger] b.bb(q, k), i) by {
        assert(has_bit(b.occupied_bits(q), i) ==> has_bit(b.occupied_bits(Player::White) | b.occupied_bits(Player::Black), i));
    }
}

/// The rook squares of an offered castling move: the rook stands on the
/// first, and the second and the king's destination are empty.
proof fn lemma_castle_squares(b: Board, m: ChessMove)
    requires
        b.consistent(),
        b.generated(b.turn, m),
        rook_toggle(m) is Some,
    ensures
        ({
            let (rf, rt) = rook_toggle(m)->Some_0;
            &&& 0 <= rf < 64
            &&& 0 <= rt < 64
            &&& has_bit(b.bb(m.player, PieceKind::Rook), rf)
            &&& forall|q: Player, k: PieceKind| !has_bit(#[trigger] b.bb(q, k), rt)
            &&& rf != m.to && rt != m.to && rf != rt
        }),
{
    lemma_generated(b, b.turn, m);
    let p = m.player;
    let h = home_row(p);
    if m.to == sq(h, 6) {
        assert(b.castle_ok(p, true));
        assert(b.has_right(p, true));
        lemma_empty_square(b, sq(h, 5));
    } else {
        assert(b.castle_ok(p, false));
        assert(b.has_right(p, false));
        lemma_empty_square(b, sq(h, 3));
    }
}

/// Square by square, the board after a generated move: the mover on its
/// destination, nothing on its source, a castling rook moved, the rest as
/// before.
proof fn lemma_apply_square(b: Board, m: ChessMove, n: Board, q: Player, k: PieceKind, i: int)
    requires
        b.consistent(),
        b.generated(b.turn, m),
        b.successor(m, n),
        0 <= i < 64,
    ensures
        has_bit(n.bb(q, k), i) <==> b.holds_after(m, q, k, i),
{
    lemma_generated(b, b.turn, m);
    lemma_occupant(b, m.to as int);
    lemma_occupant(b, m.from as int);
    assert(n.bb(q, k) == b.bb_after(m, q, k));
    if rook_toggle(m) is Some {
        lemma_castle_squares(b, m);
    }
    assert(has_bit(b.bb(m.player, m.kind), m.from as int));
    if let Some((pv, kv)) = b.occupant(m.to as int) {
        assert(has_bit(b.bb(pv, kv), m.to as int));
        assert(pv != m.player);
    }
}

/// A generated move keeps a consistent board consistent.
pub proof fn lemma_apply_consistent(b: Board, m: ChessMove, n: Board)
    requires
        b.consistent(),
        b.promoting is None,
        b.generated(b.turn, m),
        b.successor(m, n),
    ensures
        n.consistent(),
{
    lemma_generated(b, b.turn, m);
    assert forall|pa: Player, ka: PieceKind, pb: Player, kb: PieceKind, i: int|
        #[trigger] has_bit(n.bb(pa, ka), i) && #[trigger] has_bit(n.bb(pb, kb), i)
        implies pa == pb && ka == kb by {
        lemma_apply_square(b, m, n, pa, ka, i);
        lemma_apply_square(b, m, n, pb, kb, i);
    }
    assert forall|q: Player, ks: bool| #[trigger] n.has_right(q, ks)
        implies has_bit(n.bb(q, PieceKind::Rook), rook_home(q, ks)) by {
        let i = rook_home(q, ks);
        assert(b.has_right(q, ks));
        lemma_apply_square(b, m, n, q, PieceKind::Rook, i);
        lemma_occupant(b, i);
        if rook_toggle(m) is Some {
            lemma_castle_squares(b, m);
        }
    }
    if promotes(m) {
        lemma_apply_square(b, m, n, m.player, PieceKind::Pawn, m.to as int);
        assert(has_bit(n.bb(other(n.turn), PieceKind::Pawn), m.to as int));
    }
}

/// Completing a pending promotion keeps a consistent board consistent.
pub proof fn lemma_promote_consistent(b: Board, k: PieceKind, n: Board)
    requires
        b.consistent(),
        b.promoting is Some,
        k != PieceKind::Pawn,
        k != PieceKind::King,
        b.promoted(k, n),
    ensures
        n.consistent(),
{
    let s = choose|s: int|
        0 <= s < 64 && b.promoting->Some_0 == bit(s) && #[trigger] has_bit(
            b.bb(other(b.turn), PieceKind::Pawn),
            s,
        );
    let p = other(b.turn);
    assert forall|q: Player, j: PieceKind, i: int| 0 <= i < 64 implies #[trigger] has_bit(n.bb(q, j), i)
        <==> if i == s { q == p && j == k } else { has_bit(b.bb(q, j), i) } by {
        assert(n.bb(q, j) == if q == p && j == k {
            b.bb(p, k) | bit(s)
        } else if q == p && j == PieceKind::Pawn {
            b.bb(p, PieceKind::Pawn) & !bit(s)
        } else {
            b.bb(q, j)
        });
    }
    assert forall|pa: Player, ka: PieceKind, pb: Player, kb: PieceKind, i: int|
        #[trigger] has_bit(n.bb(pa, ka), i) && #[trigger] has_bit(n.bb(pb, kb), i)
        implies pa == pb && ka == kb by {
        assert(0 <= i < 64);
    }
    assert forall|q: Player, ks: bool| #[trigger] n.has_right(q, ks)
        implies has_bit(n.bb(q, PieceKind::Rook), rook_home(q, ks)) by {
        assert(b.has_right(q, ks));
        assert(has_bit(b.bb(q, PieceKind::Rook), rook_home(q, ks)));
    }
}

/// The standard opening position is consistent.
pub proof fn lemma_standard_consistent(b: Board)
    requires
        b.is_standard_position(),
    ensures
        b.consistent(),
{
    let bl = b.black;
    let wh = b.white;
    assert(bl[0] == 0xff00u64 && bl[1] == 0x42u64 && bl[2] == 0x24u64 && bl[3] == 0x81u64 && bl[4] == 0x08u64 && bl[5] == 0x10u64);
    assert(wh[0] == 0x00ff_0000_0000_0000u64 && wh[1] == 0x4200_0000_0000_0000u64 && wh[2] == 0x2400_0000_0000_0000u64
        && wh[3] == 0x8100_0000_0000_0000u64 && wh[4] == 0x0800_0000_0000_0000u64 && wh[5] == 0x1000_0000_0000_0000u64);
    assert forall|pa: Player, ka: PieceKind, pb: Player, kb: PieceKind, i: int|
        #[trigger] has_bit(b.bb(pa, ka), i) && #[trigger] has_bit(b.bb(pb, kb), i)
        implies pa == pb && ka == kb by {
        let (x, y) = (b.bb(pa, ka), b.bb(pb, kb));
        assert(has_bit(x & y, i));
        assert(has_bit(y & x, i));
        if !(pa == pb && ka == kb) {
            lemma_standard_pairs();
            assert(x & y == 0 || y & x == 0);
        }
    }
    lemma_standard_rooks();
}


/// Each two of the twelve opening bitsets share no square.
proof fn lemma_standard_pairs()
    ensures
        0xff00u64 & 0x42u64 == 0u64 &&
        0xff00u64 & 0x24u64 == 0u64 &&
        0xff00u64 & 0x81u64 == 0u64 &&
        0xff00u64 & 0x8u64 == 0u64 &&
        0xff00u64 & 0x10u64 == 0u64 &&
        0xff00u64 & 0xff000000000000u64 == 0u64 &&
        0xff00u64 & 0x4200000000000000u64 == 0u64 &&
        0xff00u64 & 0x2400000000000000u64 == 0u64 &&
        0xff00u64 & 0x8100000000000000u64 == 0u64 &&
        0xff00u64 & 0x800000000000000u64 == 0u64 &&
        0xff00u64 & 0x1000000000000000u64 == 0u64 &&
        0x42u64 & 0x24u64 == 0u64 &&
        0x42u64 & 0x81u64 == 0u64 &&
        0x42u64 & 0x8u64 == 0u64 &&
        0x42u64 & 0x10u64 == 0u64 &&
        0x42u64 & 0xff000000000000u64 == 0u64 &&
        0x42u64 & 0x4200000000000000u64 == 0u64 &&
        0x42u64 & 0x2400000000000000u64 == 0u64 &&
        0x42u64 & 0x8100000000000000u64 == 0u64 &&
        0x42u64 & 0x800000000000000u64 == 0u64 &&
        0x42u64 & 0x1000000000000000u64 == 0u64 &&
        0x24u64 & 0x81u64 == 0u64 &&
        0x24u64 & 0x8u64 == 0u64 &&
        0x24u64 & 0x10u64 == 0u64 &&
        0x24u64 & 0xff000000000000u64 == 0u64 &&
        0x24u64 & 0x4200000000000000u64 == 0u64 &&
        0x24u64 & 0x2400000000000000u64 == 0u64 &&
        0x24u64 & 0x8100000000000000u64 == 0u64 &&
        0x24u64 & 0x800000000000000u64 == 0u64 &&
        0x24u64 & 0x1000000000000000u64 == 0u64 &&
        0x81u64 & 0x8u64 == 0u64 &&
        0x81u64 & 0x10u64 == 0u64 &&
        0x81u64 & 0xff000000000000u64 == 0u64 &&
        0x81u64 & 0x4200000000000000u64 == 0u64 &&
        0x81u64 & 0x2400000000000000u64 == 0u64 &&
        0x81u64 & 0x8100000000000000u64 == 0u64 &&
        0x81u64 & 0x800000000000000u64 == 0u64 &&
        0x81u64 & 0x1000000000000000u64 == 0u64 &&
        0x8u64 & 0x10u64 == 0u64 &&
        0x8u64 & 0xff000000000000u64 == 0u64 &&
        0x8u64 & 0x4200000000000000u64 == 0u64 &&
        0x8u64 & 0x2400000000000000u64 == 0u64 &&
        0x8u64 & 0x8100000000000000u64 == 0u64 &&
        0x8u64 & 0x800000000000000u64 == 0u64 &&
        0x8u64 & 0x1000000000000000u64 == 0u64 &&
        0x10u64 & 0xff000000000000u64 == 0u64 &&
        0x10u64 & 0x4200000000000000u64 == 0u64 &&
        0x10u64 & 0x2400000000000000u64 == 0u64 &&
        0x10u64 & 0x8100000000000000u64 == 0u64 &&
        0x10u64 & 0x800000000000000u64 == 0u64 &&
        0x10u64 & 0x1000000000000000u64 == 0u64 &&
        0xff000000000000u64 & 0x4200000000000000u64 == 0u64 &&
        0xff000000000000u64 & 0x2400000000000000u64 == 0u64 &&
        0xff000000000000u64 & 0x8100000000000000u64 == 0u64 &&
        0xff000000000000u64 & 0x800000000000000u64 == 0u64 &&
        0xff000000000000u64 & 0x1000000000000000u64 == 0u64 &&
        0x4200000000000000u64 & 0x2400000000000000u64 == 0u64 &&
        0x4200000000000000u64 & 0x8100000000000000u64 == 0u64 &&
        0x4200000000000000u64 & 0x800000000000000u64 == 0u64 &&
        0x4200000000000000u64 & 0x1000000000000000u64 == 0u64 &&
        0x2400000000000000u64 & 0x8100000000000000u64 == 0u64 &&
        0x2400000000000000u64 & 0x800000000000000u64 == 0u64 &&
        0x2400000000000000u64 & 0x1000000000000000u64 == 0u64 &&
        0x8100000000000000u64 & 0x800000000000000u64 == 0u64 &&
        0x8100000000000000u64 & 0x1000000000000000u64 == 0u64 &&
        0x800000000000000u64 & 0x1000000000000000u64 == 0u64,
{
    assert(0xff00u64 & 0x42u64 == 0u64 &&
        0xff00u64 & 0x24u64 == 0u64 &&
        0xff00u64 & 0x81u64 == 0u64 &&
        0xff00u64 & 0x8u64 == 0u64 &&
        0xff00u64 & 0x10u64 == 0u64 &&
        0xff00u64 & 0xff000000000000u64 == 0u64 &&
        0xff00u64 & 0x4200000000000000u64 == 0u64 &&
        0xff00u64 & 0x2400000000000000u64 == 0u64 &&
        0xff00u64 & 0x8100000000000000u64 == 0u64 &&
        0xff00u64 & 0x800000000000000u64 == 0u64 &&
        0xff00u64 & 0x1000000000000000u64 == 0u64 &&
        0x42u64 & 0x24u64 == 0u64 &&
        0x42u64 & 0x81u64 == 0u64 &&
        0x42u64 & 0x8u64 == 0u64 &&
        0x42u64 & 0x10u64 == 0u64 &&
        0x42u64 & 0xff000000000000u64 == 0u64 &&
        0x42u64 & 0x4200000000000000u64 == 0u64 &&
        0x42u64 & 0x2400000000000000u64 == 0u64 &&
        0x42u64 & 0x8100000000000000u64 == 0u64 &&
        0x42u64 & 0x800000000000000u64 == 0u64 &&
        0x42u64 & 0x1000000000000000u64 == 0u64 &&
        0x24u64 & 0x81u64 == 0u64 &&
        0x24u64 & 0x8u64 == 0u64 &&
        0x24u64 & 0x10u64 == 0u64 &&
        0x24u64 & 0xff000000000000u64 == 0u64 &&
        0x24u64 & 0x4200000000000000u64 == 0u64 &&
        0x24u64 & 0x2400000000000000u64 == 0u64 &&
        0x24u64 & 0x8100000000000000u64 == 0u64 &&
        0x24u64 & 0x800000000000000u64 == 0u64 &&
        0x24u64 & 0x1000000000000000u64 == 0u64 &&
        0x81u64 & 0x8u64 == 0u64 &&
        0x81u64 & 0x10u64 == 0u64 &&
        0x81u64 & 0xff000000000000u64 == 0u64 &&
        0x81u64 & 0x4200000000000000u64 == 0u64 &&
        0x81u64 & 0x2400000000000000u64 == 0u64 &&
        0x81u64 & 0x8100000000000000u64 == 0u64 &&
        0x81u64 & 0x800000000000000u64 == 0u64 &&
        0x81u64 & 0x1000000000000000u64 == 0u64 &&
        0x8u64 & 0x10u64 == 0u64 &&
        0x8u64 & 0xff000000000000u64 == 0u64 &&
        0x8u64 & 0x4200000000000000u64 == 0u64 &&
        0x8u64 & 0x2400000000000000u64 == 0u64 &&
        0x8u64 & 0x8100000000000000u64 == 0u64 &&
        0x8u64 & 0x800000000000000u64 == 0u64 &&
        0x8u64 & 0x1000000000000000u64 == 0u64 &&
        0x10u64 & 0xff000000000000u64 == 0u64 &&
        0x10u64 & 0x4200000000000000u64 == 0u64 &&
        0x10u64 & 0x2400000000000000u64 == 0u64 &&
        0x10u64 & 0x8100000000000000u64 == 0u64 &&
        0x10u64 & 0x800000000000000u64 == 0u64 &&
        0x10u64 & 0x1000000000000000u64 == 0u64 &&
        0xff000000000000u64 & 0x4200000000000000u64 == 0u64 &&
        0xff000000000000u64 & 0x2400000000000000u64 == 0u64 &&
        0xff000000000000u64 & 0x8100000000000000u64 == 0u64 &&
        0xff000000000000u64 & 0x800000000000000u64 == 0u64 &&
        0xff000000000000u64 & 0x1000000000000000u64 == 0u64 &&
        0x4200000000000000u64 & 0x2400000000000000u64 == 0u64 &&
        0x4200000000000000u64 & 0x8100000000000000u64 == 0u64 &&
        0x4200000000000000u64 & 0x800000000000000u64 == 0u64 &&
        0x4200000000000000u64 & 0x1000000000000000u64 == 0u64 &&
        0x2400000000000000u64 & 0x8100000000000000u64 == 0u64 &&
        0x2400000000000000u64 & 0x800000000000000u64 == 0u64 &&
        0x2400000000000000u64 & 0x1000000000000000u64 == 0u64 &&
        0x8100000000000000u64 & 0x800000000000000u64 == 0u64 &&
        0x8100000000000000u64 & 0x1000000000000000u64 == 0u64 &&
        0x800000000000000u64 & 0x1000000000000000u64 == 0u64) by (bit_vector);
}

/// The opening rook bitsets hold the four home squares.
proof fn lemma_standard_rooks()
    ensures
        has_bit(0x81u64, 0),
        has_bit(0x81u64, 7),
        has_bit(0x8100_0000_0000_0000u64, 56),
        has_bit(0x8100_0000_0000_0000u64, 63),
{
    assert((0x81u64 >> 0u64) & 1u64 == 1u64 && (0x81u64 >> 7u64) & 1u64 == 1u64
        && (0x8100_0000_0000_0000u64 >> 56u64) & 1u64 == 1u64
        && (0x8100_0000_0000_0000u64 >> 63u64) & 1u64 == 1u64) by (bit_vector);
}

/// One step of play: a move the generator offers the player to move,
/// applied while no promotion is pending, or the completion of a pending
/// promotion with a knight, bishop, rook or queen.
pub open spec fn play_step(b: Board, n: Board) -> bool {
    ||| (b.promoting is None && exists|m: ChessMove| #[trigger]
        b.generated(b.turn, m) && b.successor(m, n))
    ||| (b.promoting is Some && exists|k: PieceKind|
        k != PieceKind::Pawn && k != PieceKind::King && #[trigger] b.promoted(k, n))
}

/// A game from the opening: the first board is the standard position and
/// each board is one step of play from the one before.
pub open spec fn is_game(trace: Seq<Board>) -> bool {
    &&& trace.len() > 0
    &&& trace[0].is_standard_position()
    &&& forall|i: int| 0 <= i < trace.len() - 1 ==> play_step(#[trigger] trace[i], trace[i + 1])
}

proof fn lemma_game_consistent(trace: Seq<Board>, i: int)
    requires
        is_game(trace),
        0 <= i < trace.len(),
    ensures
        trace[i].consistent(),
    decreases i,
{
    if i == 0 {
        lemma_standard_consistent(trace[0]);
    } else {
        lemma_game_consistent(trace, i - 1);
        let (b, n) = (trace[i - 1], trace[i]);
        assert(play_step(b, n));
        if b.promoting is None {
            let m = choose|m: ChessMove| #[trigger] b.generated(b.turn, m) && b.successor(m, n);
            lemma_apply_consistent(b, m, n);
        } else {
            let k = choose|k: PieceKind|
                k != PieceKind::Pawn && k != PieceKind::King && #[trigger] b.promoted(k, n);
            lemma_promote_consistent(b, k, n);
        }
    }
}

/// In every position of a game played from the opening, no square holds two
/// pieces: the twelve bitsets are pairwise disjoint.
pub proof fn law_no_square_holds_two_pieces(trace: Seq<Board>, i: int)
    requires
        is_game(trace),
        0 <= i < trace.len(),
    ensures
        trace[i].disjoint(),
{
    lemma_game_consistent(trace, i);
}

/// Applying a move passes the turn to the other player.
pub proof fn law_move_passes_turn(b: Board, m: ChessMove, n: Board)
    requires
        b.successor(m, n),
    ensures
        n.turn == other(b.turn),
{
}

/// Completing a promotion leaves the turn where the move before left it.
pub proof fn law_promotion_keeps_turn(b: Board, k: PieceKind, n: Board)
    requires
        b.promoted(k, n),
    ensures
        n.turn == b.turn,
{
}

/// After a pawn's double push the en-passant target is the square it
/// skipped (a white pawn from row 6 to row 4 leaves row 5 of its column);
/// after any other move there is none.
pub proof fn law_en_passant_lifecycle(b: Board, m: ChessMove, n: Board)
    requires
        b.successor(m, n),
    ensures
        double_push(m) ==> n.en_passant_target == Some(
            sq((m.from_row() + m.to_row()) / 2, m.from_col()) as i32,
        ),
        m.kind == PieceKind::Pawn && m.player == Player::White && m.from_row() == 6
            && m.to_row() == 4 ==> n.en_passant_target == Some(sq(5, m.from_col()) as i32),
        !double_push(m) ==> n.en_passant_target is None,
{
}

/// One step of any kind: some move applied, or some promotion completed.
pub open spec fn any_step(b: Board, n: Board) -> bool {
    (exists|m: ChessMove| #[trigger] b.successor(m, n)) || (exists|k: PieceKind| #[trigger] b.promoted(
        k,
        n,
    ))
}

/// A castling right, once gone, stays gone through any later moves and promotions.
pub proof fn law_castling_rights_never_return(
    trace: Seq<Board>,
    i: int,
    j: int,
    p: Player,
    kingside: bool,
)
    requires
        forall|x: int| 0 <= x < trace.len() - 1 ==> any_step(#[trigger] trace[x], trace[x + 1]),
        0 <= i <= j < trace.len(),
        !trace[i].has_right(p, kingside),
    ensures
        !trace[j].has_right(p, kingside),
    decreases j - i,
{
    if i < j {
        let (b, n) = (trace[i], trace[i + 1]);
        assert(any_step(b, n));
        if exists|m: ChessMove| #[trigger] b.successor(m, n) {
            let m = choose|m: ChessMove| #[trigger] b.successor(m, n);
            assert(!n.has_right(p, kingside));
        } else {
            let k = choose|k: PieceKind| #[trigger] b.promoted(k, n);
            assert(!n.has_right(p, kingside));
        }
        law_castling_rights_never_return(trace, i + 1, j, p, kingside);
    }
}

/// The move that takes the piece of `m` back from `m`'s destination to its source.
pub open spec fn inverse(m: ChessMove) -> ChessMove {
    ChessMove { from: m.to, to: m.from, ..m }
}

proof fn bv_toggle_twice(v: u64, a: u64, c: u64)
    ensures
        (v ^ (a | c)) ^ (c | a) == v,
{
    assert((v ^ (a | c)) ^ (c | a) == v) by (bit_vector);
}

/// A quiet move (its piece stands on its source, its destination is empty,
/// it is neither a pawn's diagonal nor a king's two-file move) followed by
/// its inverse leaves all twelve bitsets as they were.
pub proof fn law_quiet_move_round_trip(b: Board, m: ChessMove, n: Board, n2: Board)
    requires
        b.disjoint(),
        m.in_range(),
        m.from != m.to,
        has_bit(b.bb(m.player, m.kind), m.from as int),
        b.occupant(m.to as int) is None,
        !m.castling_shape(),
        !(m.kind == PieceKind::Pawn && m.from_col() != m.to_col()),
        b.successor(m, n),
        n.successor(inverse(m), n2),
    ensures
        forall|p: Player, k: PieceKind| #[trigger] n2.bb(p, k) == b.bb(p, k),
{
    let mi = inverse(m);
    lemma_occupant(b, m.to as int);
    lemma_occupant(b, m.from as int);
    assert forall|p: Player, k: PieceKind| !has_bit(#[trigger] n.bb(p, k), m.from as int) by {
        assert(n.bb(p, k) == b.bb_after(m, p, k));
    }
    lemma_occupant(n, m.from as int);
    assert(!mi.castling_shape());
    assert forall|p: Player, k: PieceKind| #[trigger] n2.bb(p, k) == b.bb(p, k) by {
        assert(n.bb(p, k) == b.bb_after(m, p, k));
        assert(n2.bb(p, k) == n.bb_after(mi, p, k));
        bv_toggle_twice(b.bb(p, k), bit(m.from as int), bit(m.to as int));
    }
}

proof fn lemma_ray_list_same_pieces(
    b1: Board,
    b2: Board,
    p: Player,
    k: PieceKind,
    from: int,
    r: int,
    c: int,
    dr: int,
    dc: int,
    n: nat,
)
    requires
        b1.black == b2.black,
        b1.white == b2.white,
    ensures
        b1.ray_list(p, k, from, r, c, dr, dc, n) == b2.ray_list(p, k, from, r, c, dr, dc, n),
    decreases n,
{
    if n > 0 {
        lemma_ray_list_same_pieces(b1, b2, p, k, from, r + dr, c + dc, dr, dc, (n - 1) as nat);
    }
}

proof fn lemma_piece_list_same_pieces(b1: Board, b2: Board, p: Player, k: PieceKind, r: int, c: int)
    requires
        b1.black == b2.black,
        b1.white == b2.white,
    ensures
        b1.piece_list(p, k, r, c) == b2.piece_list(p, k, r, c),
{
    let f = sq(r, c);
    assert forall|q: Player, j: PieceKind| #[trigger] b1.bb(q, j) == b2.bb(q, j) by {}
    assert forall|q: Player| #[trigger] b1.occupied_bits(q) == b2.occupied_bits(q) by {}
    assert forall|rr: int, cc: int| #[trigger] b1.blocked(rr, cc) == b2.blocked(rr, cc) by {}
    assert forall|q: Player, rr: int, cc: int| #[trigger] b1.open_for(q, rr, cc) == b2.open_for(q, rr, cc) by {}
    match k {
        PieceKind::Pawn => {
            assert(b1.pawn_list(p, r, c) =~= b2.pawn_list(p, r, c));
        },
        PieceKind::Knight => {
            assert(b1.knight_list(p, r, c) =~= b2.knight_list(p, r, c));
        },
        PieceKind::King => {
            assert(b1.king_step_list(p, r, c) =~= b2.king_step_list(p, r, c));
        },
        _ => {
            lemma_ray_list_same_pieces(b1, b2, p, k, f, r, c, -1, -1, max_ray());
            lemma_ray_list_same_pieces(b1, b2, p, k, f, r, c, -1, 1, max_ray());
            lemma_ray_list_same_pieces(b1, b2, p, k, f, r, c, 1, -1, max_ray());
            lemma_ray_list_same_pieces(b1, b2, p, k, f, r, c, 1, 1, max_ray());
            lemma_ray_list_same_pieces(b1, b2, p, k, f, r, c, 0, -1, max_ray());
            lemma_ray_list_same_pieces(b1, b2, p, k, f, r, c, 0, 1, max_ray());
            lemma_ray_list_same_pieces(b1, b2, p, k, f, r, c, -1, 0, max_ray());
            lemma_ray_list_same_pieces(b1, b2, p, k, f, r, c, 1, 0, max_ray());
        },
    }
}

proof fn lemma_collect_list_same_pieces(b1: Board, b2: Board, p: Player, k: PieceKind, n: int)
    requires
        b1.black == b2.black,
        b1.white == b2.white,
    ensures
        b1.collect_list(p, k, n) == b2.collect_list(p, k, n),
        b1.pawn_attack_list(p, n) == b2.pawn_attack_list(p, n),
    decreases n,
{
    if n > 0 {
        lemma_collect_list_same_pieces(b1, b2, p, k, n - 1);
        lemma_piece_list_same_pieces(b1, b2, p, k, (n - 1) / 8, (n - 1) % 8);
    }
}

/// The castling-free move list and the pawn attacks depend on the pieces
/// alone: two boards with the same twelve bitsets give the same lists,
/// whatever their castling rights, turn, en-passant target or pending
/// promotion. So attack detection never looks at castling.
pub proof fn law_plain_moves_read_only_the_pieces(b1: Board, b2: Board, p: Player)
    requires
        b1.black == b2.black,
        b1.white == b2.white,
    ensures
        b1.plain_list(p) == b2.plain_list(p),
        b1.pawn_attack_list(p, 64) == b2.pawn_attack_list(p, 64),
{
    lemma_collect_list_same_pieces(b1, b2, p, PieceKind::Pawn, 64);
    lemma_collect_list_same_pieces(b1, b2, p, PieceKind::Knight, 64);
    lemma_collect_list_same_pieces(b1, b2, p, PieceKind::Bishop, 64);
    lemma_collect_list_same_pieces(b1, b2, p, PieceKind::Rook, 64);
    lemma_collect_list_same_pieces(b1, b2, p, PieceKind::Queen, 64);
    lemma_collect_list_same_pieces(b1, b2, p, PieceKind::King, 64);
}

/// Keeps the moves that are not of castling shape.
pub open spec fn castling_free() -> spec_fn(ChessMove) -> bool {
    |m: ChessMove| !m.castling_shape()
}

proof fn lemma_filter_keeps_all(s: Seq<ChessMove>, pred: spec_fn(ChessMove) -> bool)
    requires
        forall|m: ChessMove| #[trigger] s.contains(m) ==> pred(m),
    ensures
        s.filter(pred) == s,
    decreases s.len(),
{
    reveal(Seq::filter);
    if s.len() > 0 {
        assert forall|m: ChessMove| #[trigger] s.drop_last().contains(m) implies pred(m) by {
            let i = choose|i: int| 0 <= i < s.drop_last().len() && s.drop_last()[i] == m;
            assert(s[i] == m);
            assert(s.contains(m));
        }
        lemma_filter_keeps_all(s.drop_last(), pred);
        assert(s.contains(s[s.len() - 1]));
        assert(s.drop_last().push(s.last()) =~= s);
    }
}

proof fn lemma_filter_drops_all(s: Seq<ChessMove>, pred: spec_fn(ChessMove) -> bool)
    requires
        forall|m: ChessMove| #[trigger] s.contains(m) ==> !pred(m),
    ensures
        s.filter(pred) == Seq::<ChessMove>::empty(),
    decreases s.len(),
{
    reveal(Seq::filter);
    if s.len() > 0 {
        assert forall|m: ChessMove| #[trigger] s.drop_last().contains(m) implies !pred(m) by {
            let i = choose|i: int| 0 <= i < s.drop_last().len() && s.drop_last()[i] == m;
            assert(s[i] == m);
            assert(s.contains(m));
        }
        lemma_filter_drops_all(s.drop_last(), pred);
        assert(s.contains(s[s.len() - 1]));
    } else {
        assert(s =~= Seq::<ChessMove>::empty());
    }
}

proof fn lemma_ray_list_kind(b: Board, p: Player, k: PieceKind, from: int, r: int, c: int, dr: int, dc: int, n: nat)
    ensures
        forall|m: ChessMove| #[trigger] b.ray_list(p, k, from, r, c, dr, dc, n).contains(m) ==> m.kind == k,
    decreases n,
{
    broadcast use vstd::seq_lib::lemma_seq_concat_contains_all_elements;
    broadcast use vstd::seq_lib::lemma_seq_contains_after_push;
    broadcast use vstd::seq_lib::lemma_seq_empty_contains_nothing;

    let mv = Board::move_to(p, k, from, r + dr, c + dc);
    assert(seq![mv] =~= Seq::<ChessMove>::empty().push(mv));
    let l = b.ray_list(p, k, from, r, c, dr, dc, n);
    if n > 0 {
        let rest = b.ray_list(p, k, from, r + dr, c + dc, dr, dc, (n - 1) as nat);
        lemma_ray_list_kind(b, p, k, from, r + dr, c + dc, dr, dc, (n - 1) as nat);
        assert(l == seq![mv] + rest || l == seq![mv] || l == Seq::<ChessMove>::empty());
    } else {
        assert(l == Seq::<ChessMove>::empty());
    }
}

proof fn lemma_step_kind(b: Board, p: Player, k: PieceKind, r: int, c: int, dr: int, dc: int)
    ensures
        forall|m: ChessMove| #[trigger] b.step_list(p, k, r, c, dr, dc).contains(m) ==> m.kind == k,
{
    broadcast use vstd::seq_lib::lemma_seq_contains_after_push;

    let mv = Board::move_to(p, k, sq(r, c), r + dr, c + dc);
    assert(seq![mv] =~= Seq::<ChessMove>::empty().push(mv));
}

proof fn lemma_rays_kind(b: Board, p: Player, k: PieceKind, r: int, c: int)
    ensures
        forall|m: ChessMove| #[trigger] b.diagonal_list(p, k, r, c).contains(m) ==> m.kind == k,
        forall|m: ChessMove| #[trigger] b.straight_list(p, k, r, c).contains(m) ==> m.kind == k,
{
    broadcast use vstd::seq_lib::lemma_seq_concat_contains_all_elements;

    let f = sq(r, c);
    lemma_ray_list_kind(b, p, k, f, r, c, -1, -1, max_ray());
    lemma_ray_list_kind(b, p, k, f, r, c, -1, 1, max_ray());
    lemma_ray_list_kind(b, p, k, f, r, c, 1, -1, max_ray());
    lemma_ray_list_kind(b, p, k, f, r, c, 1, 1, max_ray());
    lemma_ray_list_kind(b, p, k, f, r, c, 0, -1, max_ray());
    lemma_ray_list_kind(b, p, k, f, r, c, 0, 1, max_ray());
    lemma_ray_list_kind(b, p, k, f, r, c, -1, 0, max_ray());
    lemma_ray_list_kind(b, p, k, f, r, c, 1, 0, max_ray());
}

proof fn lemma_pawn_list_kind(b: Board, p: Player, r: int, c: int)
    ensures
        forall|m: ChessMove| #[trigger] b.pawn_list(p, r, c).contains(m) ==> m.kind == PieceKind::Pawn,
{
    broadcast use vstd::seq_lib::lemma_seq_concat_contains_all_elements;
    broadcast use vstd::seq_lib::lemma_seq_contains_after_push;

    let d = pawn_dir(p);
    let k = PieceKind::Pawn;
    let f = sq(r, c);
    assert(seq![Board::move_to(p, k, f, r + d, c)] =~= Seq::<ChessMove>::empty().push(Board::move_to(p, k, f, r + d, c)));
    assert(seq![Board::move_to(p, k, f, r + 2 * d, c)] =~= Seq::<ChessMove>::empty().push(Board::move_to(p, k, f, r + 2 * d, c)));
    assert(seq![Board::move_to(p, k, f, r + d, c - 1)] =~= Seq::<ChessMove>::empty().push(Board::move_to(p, k, f, r + d, c - 1)));
    assert(seq![Board::move_to(p, k, f, r + d, c + 1)] =~= Seq::<ChessMove>::empty().push(Board::move_to(p, k, f, r + d, c + 1)));
}

proof fn lemma_knight_list_kind(b: Board, p: Player, r: int, c: int)
    ensures
        forall|m: ChessMove| #[trigger] b.knight_list(p, r, c).contains(m) ==> m.kind == PieceKind::Knight,
{
    broadcast use vstd::seq_lib::lemma_seq_concat_contains_all_elements;

    let k = PieceKind::Knight;
    lemma_step_kind(b, p, k, r, c, -2, -1);
    lemma_step_kind(b, p, k, r, c, -1, -2);
    lemma_step_kind(b, p, k, r, c, 1, -2);
    lemma_step_kind(b, p, k, r, c, 2, -1);
    lemma_step_kind(b, p, k, r, c, -2, 1);
    lemma_step_kind(b, p, k, r, c, -1, 2);
    lemma_step_kind(b, p, k, r, c, 1, 2);
    lemma_step_kind(b, p, k, r, c, 2, 1);
}

proof fn lemma_king_steps_free(b: Board, p: Player, r: int, c: int)
    requires
        on_board(r, c),
    ensures
        forall|m: ChessMove| #[trigger] b.king_step_list(p, r, c).contains(m) ==> (castling_free())(m),
{
    broadcast use vstd::seq_lib::lemma_seq_concat_contains_all_elements;

    lemma_step_not_castling(b, p, r, c, -1, -1);
    lemma_step_not_castling(b, p, r, c, -1, 0);
    lemma_step_not_castling(b, p, r, c, -1, 1);
    lemma_step_not_castling(b, p, r, c, 0, -1);
    lemma_step_not_castling(b, p, r, c, 0, 1);
    lemma_step_not_castling(b, p, r, c, 1, -1);
    lemma_step_not_castling(b, p, r, c, 1, 0);
    lemma_step_not_castling(b, p, r, c, 1, 1);
}

proof fn lemma_step_not_castling(b: Board, p: Player, r: int, c: int, dr: int, dc: int)
    requires
        on_board(r, c),
        -1 <= dc <= 1,
    ensures
        forall|m: ChessMove| #[trigger] b.step_list(p, PieceKind::King, r, c, dr, dc).contains(m)
            ==> (castling_free())(m),
{
    broadcast use vstd::seq_lib::lemma_seq_contains_after_push;

    let m = Board::move_to(p, PieceKind::King, sq(r, c), r + dr, c + dc);
    assert(seq![m] =~= Seq::<ChessMove>::empty().push(m));
    if b.open_for(p, r + dr, c + dc) {
        assert(m.from_col() == c && m.to_col() == c + dc);
    }
}

/// None of a piece's castling-free moves has castling shape.
proof fn lemma_piece_list_castling_free(b: Board, p: Player, k: PieceKind, r: int, c: int)
    requires
        on_board(r, c),
    ensures
        b.piece_list(p, k, r, c).filter(castling_free()) == b.piece_list(p, k, r, c),
{
    let l = b.piece_list(p, k, r, c);
    match k {
        PieceKind::Pawn => lemma_pawn_list_kind(b, p, r, c),
        PieceKind::Knight => lemma_knight_list_kind(b, p, r, c),
        PieceKind::Bishop => lemma_rays_kind(b, p, k, r, c),
        PieceKind::Rook => lemma_rays_kind(b, p, k, r, c),
        PieceKind::Queen => {
            broadcast use vstd::seq_lib::lemma_seq_concat_contains_all_elements;

            lemma_rays_kind(b, p, k, r, c);
        },
        PieceKind::King => lemma_king_steps_free(b, p, r, c),
    }
    assert forall|m: ChessMove| #[trigger] l.contains(m) implies (castling_free())(m) by {}
    lemma_filter_keeps_all(l, castling_free());
}

proof fn lemma_castle_list_shape(b: Board, p: Player, r: int, c: int)
    ensures
        forall|m: ChessMove| #[trigger] b.castle_list(p, r, c).contains(m) ==> !(castling_free())(m),
{
    broadcast use vstd::seq_lib::lemma_seq_concat_contains_all_elements;
    broadcast use vstd::seq_lib::lemma_seq_contains_after_push;

    let h = home_row(p);
    let ks = Board::move_to(p, PieceKind::King, sq(r, c), h, 6);
    let qs = Board::move_to(p, PieceKind::King, sq(r, c), h, 2);
    assert(seq![ks] =~= Seq::<ChessMove>::empty().push(ks));
    assert(seq![qs] =~= Seq::<ChessMove>::empty().push(qs));
    if r == h && c == 4 {
        assert(ks.from_col() == 4 && ks.to_col() == 6);
        assert(qs.from_col() == 4 && qs.to_col() == 2);
    }
}

/// A king's full list without castling moves is its list of steps.
proof fn lemma_king_list_castling_free(b: Board, p: Player, r: int, c: int)
    requires
        on_board(r, c),
    ensures
        b.king_list(p, r, c).filter(castling_free()) == b.king_step_list(p, r, c),
{
    Seq::filter_distributes_over_add(b.king_step_list(p, r, c), b.castle_list(p, r, c), castling_free());
    lemma_king_steps_free(b, p, r, c);
    lemma_filter_keeps_all(b.king_step_list(p, r, c), castling_free());
    let cl = b.castle_list(p, r, c);
    lemma_castle_list_shape(b, p, r, c);
    lemma_filter_drops_all(cl, castling_free());
    assert(b.king_step_list(p, r, c) + Seq::<ChessMove>::empty() =~= b.king_step_list(p, r, c));
}

proof fn lemma_collect_list_castling_free(b: Board, p: Player, k: PieceKind, n: int)
    requires
        n <= 64,
    ensures
        b.collect_list(p, k, n).filter(castling_free()) == b.collect_list(p, k, n),
    decreases n,
{
    if n > 0 {
        lemma_collect_list_castling_free(b, p, k, n - 1);
        let last = if has_bit(b.bb(p, k), n - 1) {
            b.piece_list(p, k, (n - 1) / 8, (n - 1) % 8)
        } else {
            seq![]
        };
        Seq::filter_distributes_over_add(b.collect_list(p, k, n - 1), last, castling_free());
        if has_bit(b.bb(p, k), n - 1) {
            lemma_piece_list_castling_free(b, p, k, (n - 1) / 8, (n - 1) % 8);
        } else {
            lemma_filter_keeps_all(last, castling_free());
        }
    } else {
        lemma_filter_keeps_all(b.collect_list(p, k, n), castling_free());
    }
}

proof fn lemma_kings_list_castling_free(b: Board, p: Player, n: int)
    requires
        n <= 64,
    ensures
        b.kings_list(p, n).filter(castling_free()) == b.collect_list(p, PieceKind::King, n),
    decreases n,
{
    broadcast use vstd::seq_lib::lemma_seq_empty_contains_nothing;

    if n > 0 {
        lemma_kings_list_castling_free(b, p, n - 1);
        let (r, c) = ((n - 1) / 8, (n - 1) % 8);
        let prev = b.kings_list(p, n - 1);
        if has_bit(b.bb(p, PieceKind::King), n - 1) {
            let kl = b.king_list(p, r, c);
            assert(b.kings_list(p, n) == prev + kl);
            assert(b.collect_list(p, PieceKind::King, n) == b.collect_list(p, PieceKind::King, n - 1)
                + b.king_step_list(p, r, c));
            Seq::filter_distributes_over_add(prev, kl, castling_free());
            lemma_king_list_castling_free(b, p, r, c);
        } else {
            assert(b.kings_list(p, n) =~= prev);
            assert(b.collect_list(p, PieceKind::King, n) =~= b.collect_list(p, PieceKind::King, n - 1));
        }
    } else {
        lemma_filter_keeps_all(b.kings_list(p, n), castling_free());
    }
}

/// The full move list with its castling moves taken out is the castling-free
/// list, in the same order.
pub proof fn law_castling_free_part_of_all(b: Board, p: Player)
    ensures
        b.full_list(p).filter(castling_free()) == b.plain_list(p),
{
    let (l0, l1, l2, l3, l4) = (
        b.collect_list(p, PieceKind::Pawn, 64),
        b.collect_list(p, PieceKind::Knight, 64),
        b.collect_list(p, PieceKind::Bishop, 64),
        b.collect_list(p, PieceKind::Rook, 64),
        b.collect_list(p, PieceKind::Queen, 64),
    );
    let kings = b.kings_list(p, 64);
    Seq::filter_distributes_over_add(l0 + l1 + l2 + l3 + l4, kings, castling_free());
    Seq::filter_distributes_over_add(l0 + l1 + l2 + l3, l4, castling_free());
    Seq::filter_distributes_over_add(l0 + l1 + l2, l3, castling_free());
    Seq::filter_distributes_over_add(l0 + l1, l2, castling_free());
    Seq::filter_distributes_over_add(l0, l1, castling_free());
    lemma_collect_list_castling_free(b, p, PieceKind::Pawn, 64);
    lemma_collect_list_castling_free(b, p, PieceKind::Knight, 64);
    lemma_collect_list_castling_free(b, p, PieceKind::Bishop, 64);
    lemma_collect_list_castling_free(b, p, PieceKind::Rook, 64);
    lemma_collect_list_castling_free(b, p, PieceKind::Queen, 64);
    lemma_kings_list_castling_free(b, p, 64);
}

} // verus!
