use vstd::prelude::*;

use crate::color::Color;

verus! {

/// The kind of a chess piece.
#[derive(Clone, Copy, Debug, PartialEq, Eq, Structural)]
pub enum PieceType {
    Pawn,
    Knight,
    Bishop,
    Rook,
    Queen,
    King,
}

/// A piece with a kind and a color. A piece carries no information about
/// its place on the board; the board slot that holds it implies the square.
#[derive(Clone, Copy, Debug, PartialEq, Eq, Structural)]
pub struct Piece {
    pub piece_type: PieceType,
    pub color: Color,
}

impl Piece {
    /// Creates a new [Piece].
    pub fn new(piece_type: PieceType, color: Color) -> (r: Piece)
        ensures
            r.piece_type == piece_type,
            r.color == color,
    {
        Piece { piece_type, color }
    }
}

} // verus!
