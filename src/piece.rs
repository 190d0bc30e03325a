//! The two players, the six kinds of piece, and a piece standing on a square.
use vstd::prelude::*;

verus! {

pub const N_PIECES: usize = 6;

#[derive(Copy, Clone, Debug, PartialEq, Eq, Structural)]
pub enum PieceKind {
    Pawn,
    Knight,
    Bishop,
    Rook,
    Queen,
    King,
}

#[derive(Copy, Clone, Debug, PartialEq, Eq, Structural)]
pub enum Player {
    Black,
    White,
}

#[derive(Copy, Clone, Debug, PartialEq, Eq, Structural)]
pub struct Piece {
    pub player: Player,
    pub kind: PieceKind,
    /// The square the piece stands on.
    pub index: i32,
}

/// The kinds in the order in which a player's six bitsets are stored.
pub open spec fn kind_order() -> Seq<PieceKind> {
    seq![
        PieceKind::Pawn,
        PieceKind::Knight,
        PieceKind::Bishop,
        PieceKind::Rook,
        PieceKind::Queen,
        PieceKind::King,
    ]
}

/// The player who is not `p`.
pub open spec fn other(p: Player) -> Player {
    match p {
        Player::White => Player::Black,
        Player::Black => Player::White,
    }
}

impl PieceKind {
    /// Position of this kind's bitset within a player's six.
    pub open spec fn slot(self) -> int {
        match self {
            PieceKind::Pawn => 0,
            PieceKind::Knight => 1,
            PieceKind::Bishop => 2,
            PieceKind::Rook => 3,
            PieceKind::Queen => 4,
            PieceKind::King => 5,
        }
    }

    pub fn index(self) -> (r: usize)
        ensures
            r == self.slot(),
            r < N_PIECES,
            kind_order()[r as int] == self,
    {
        match self {
            PieceKind::Pawn => 0,
            PieceKind::Knight => 1,
            PieceKind::Bishop => 2,
            PieceKind::Rook => 3,
            PieceKind::Queen => 4,
            PieceKind::King => 5,
        }
    }

    /// All six kinds, in storage order.
    pub fn iterator() -> (r: [PieceKind; N_PIECES])
        ensures
            r@ == kind_order(),
    {
        let r = [
            PieceKind::Pawn,
            PieceKind::Knight,
            PieceKind::Bishop,
            PieceKind::Rook,
            PieceKind::Queen,
            PieceKind::King,
        ];
        assert(r@ =~= kind_order());
        r
    }
}

impl Player {
    /// The player's name, as a game log or a window title shows it.
    pub fn name(&self) -> (r: &'static str)
        ensures
            *self == Player::Black ==> r@ == "Black"@,
            *self == Player::White ==> r@ == "White"@,
    {
        match self {
            Player::Black => "Black",
            Player::White => "White",
        }
    }
}

impl Piece {
    pub fn new(player: Player, kind: PieceKind, index: i32) -> (r: Self)
        ensures
            r == (Piece { player, kind, index }),
    {
        Self { player, kind, index }
    }
}

} // verus!
