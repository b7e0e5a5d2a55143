use vstd::prelude::*;

verus! {

/// One of the two sides of a chess game.
#[derive(Clone, Copy, Debug, PartialEq, Eq, Structural)]
pub enum Color {
    White,
    Black,
}

/// The side opposite to `c`.
pub open spec fn other(c: Color) -> Color {
    match c {
        Color::White => Color::Black,
        Color::Black => Color::White,
    }
}

impl Color {
    /// Returns the inverted [Color].
    pub fn get_inverse(&self) -> (r: Color)
        ensures
            r == other(*self),
    {
        if *self == Color::White {
            Color::Black
        } else {
            Color::White
        }
    }
}

} // verus!
