use vstd::prelude::*;

use crate::movement::PlayerTurn;
use crate::pieces::PieceColor;

verus! {

/// The line that announces the side to move.
pub fn next_move_text(turn: PlayerTurn) -> (r: &'static str)
    ensures
        r@ == (match turn.0 {
            PieceColor::White => "Next move: White"@,
            PieceColor::Black => "Next move: Black"@,
        }),
{
    match turn.0 {
        PieceColor::White => "Next move: White",
        PieceColor::Black => "Next move: Black",
    }
}

/// The line that announces the end of the game, won by `winner`.
pub fn win_text(winner: PieceColor) -> (r: &'static str)
    ensures
        r@ == (match winner {
            PieceColor::White => "White won! Thanks for playing!"@,
            PieceColor::Black => "Black won! Thanks for playing!"@,
        }),
{
    match winner {
        PieceColor::White => "White won! Thanks for playing!",
        PieceColor::Black => "Black won! Thanks for playing!",
    }
}

} // verus!
