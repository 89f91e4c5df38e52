use vstd::prelude::*;

verus! {

/// The two sides of the game.
#[derive(Clone, Copy, Debug, PartialEq, Eq, Structural)]
pub enum PieceColor {
    White,
    Black,
}

/// The kinds of chess pieces.
#[derive(Clone, Copy, Debug, PartialEq, Eq, Structural)]
pub enum PieceType {
    King,
    Queen,
    Rook,
    Bishop,
    Knight,
    Pawn,
}

/// The side that is not `c`.
pub open spec fn opposite(c: PieceColor) -> PieceColor {
    match c {
        PieceColor::White => PieceColor::Black,
        PieceColor::Black => PieceColor::White,
    }
}

impl PieceColor {
    /// The other side.
    pub fn opposite(self) -> (r: PieceColor)
        ensures
            r == opposite(self),
            r != self,
    {
        match self {
            PieceColor::White => PieceColor::Black,
            PieceColor::Black => PieceColor::White,
        }
    }
}

/// A chess piece: where it stands, its side and its kind.
#[derive(Clone, Copy, Debug, PartialEq, Eq, Structural)]
pub struct Piece {
    pub x: u8,
    pub y: u8,
    pub color: PieceColor,
    pub piece_type: PieceType,
}

} // verus!
