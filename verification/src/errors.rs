use vstd::prelude::*;

verus! {

/// The ways an operation on the board can fail.
///
/// `OutOfBounds` means a directional step or a coordinate conversion would
/// leave the 8x8 grid. `NoPieceAtSquare` means a move was requested for a
/// square that holds no piece. Both are recoverable at the call site.
#[derive(Clone, Copy, Debug, PartialEq, Eq, Structural)]
pub enum ChessError {
    OutOfBounds,
    NoPieceAtSquare,
}

} // verus!
