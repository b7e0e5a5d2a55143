use vstd::prelude::*;

use crate::board::Board;
use crate::color::Color;
use crate::errors::ChessError;
use crate::move_gen::has_move;
use crate::move_gen::legal;
use crate::move_gen::mask_of;
use crate::move_gen::Mask;
use crate::piece::Piece;
use crate::piece::PieceType;
use crate::square::step_result;
use crate::square::Square;

verus! {

/// A chess move: an origin square, a destination square, and the piece
/// kind a pawn becomes when the move promotes it. A move is meaningful
/// only relative to the position it was generated from; it does not by
/// itself certify legality.
#[derive(Clone, Copy, Debug, PartialEq, Eq, Structural)]
pub struct ChessMove {
    pub start: Square,
    pub dest: Square,
    pub promo: Option<PieceType>,
}

/// What a color-oriented move builder returns for the piece on `sq`:
/// `NoPieceAtSquare` when the square is empty, and otherwise the result
/// of stepping with the deltas as seen by a White piece, mirrored when
/// the piece is Black.
pub open spec fn build_result(
    g: Seq<Option<Piece>>,
    sq: Square,
    dr_white: int,
    df_white: int,
    mul: int,
    promo: Option<PieceType>,
    r: Result<ChessMove, ChessError>,
) -> bool {
    match g[sq.0 as int] {
        Some(p) => {
            let dr = if p.color is White {
                dr_white
            } else {
                -dr_white
            };
            let df = if p.color is White {
                df_white
            } else {
                -df_white
            };
            step_result(sq.0 as int, dr, df, mul, promo, r)
        },
        None => r == Err::<ChessMove, ChessError>(ChessError::NoPieceAtSquare),
    }
}

impl ChessMove {
    /// Creates a new [ChessMove].
    pub fn new(start: Square, destination: Square, promotion: Option<PieceType>) -> (r: ChessMove)
        ensures
            r.start == start,
            r.dest == destination,
            r.promo == promotion,
    {
        ChessMove { start, dest: destination, promo: promotion }
    }

    /// Whether this move is valid in the given position: it is valid iff
    /// it appears in the legal-move set computed for the side to move.
    pub fn is_valid(&self, board: &Board) -> (r: bool)
        requires
            board.wf(),
        ensures
            r == legal(board@, mask_of(board@.turn), *self),
    {
        let mask = if board.get_turn() == Color::White {
            Mask::White
        } else {
            Mask::Black
        };
        let legal_moves = board.gen_moves(mask);
        has_move(&legal_moves, *self)
    }

    /// Builds a move for the piece on `sq`, stepping by the given deltas as
    /// oriented for a White piece; the direction is mirrored for a Black
    /// piece, so that "up" always points away from the piece's back rank.
    pub(crate) fn create(
        board: &Board,
        sq: Square,
        mul: u8,
        promo: Option<PieceType>,
        dr_white: i8,
        df_white: i8,
    ) -> (r: Result<ChessMove, ChessError>)
        requires
            board.wf(),
            sq.valid(),
            -1 <= dr_white as int <= 1,
            -1 <= df_white as int <= 1,
        ensures
            build_result(
                board@.grid,
                sq,
                dr_white as int,
                df_white as int,
                mul as int,
                promo,
                r,
            ),
    {
        let cell = *board.get(sq);
        match cell {
            Some(p) => {
                if p.color == crate::color::Color::White {
                    sq.step(dr_white, df_white, mul, promo)
                } else {
                    sq.step(-dr_white, -df_white, mul, promo)
                }
            },
            None => Err(ChessError::NoPieceAtSquare),
        }
    }

    /// Builds the move `mul` squares forward for the piece on `sq`.
    pub fn up(board: &Board, sq: Square, mul: u8, promo: Option<PieceType>) -> (r: Result<
        ChessMove,
        ChessError,
    >)
        requires
            board.wf(),
            sq.valid(),
        ensures
            build_result(board@.grid, sq, 1, 0, mul as int, promo, r),
    {
        ChessMove::create(board, sq, mul, promo, 1, 0)
    }

    /// Builds the move `mul` squares backward for the piece on `sq`.
    pub fn down(board: &Board, sq: Square, mul: u8, promo: Option<PieceType>) -> (r: Result<
        ChessMove,
        ChessError,
    >)
        requires
            board.wf(),
            sq.valid(),
        ensures
            build_result(board@.grid, sq, -1, 0, mul as int, promo, r),
    {
        ChessMove::create(board, sq, mul, promo, -1, 0)
    }

    /// Builds the move `mul` squares to the piece's right on `sq`.
    pub fn right(board: &Board, sq: Square, mul: u8, promo: Option<PieceType>) -> (r: Result<
        ChessMove,
        ChessError,
    >)
        requires
            board.wf(),
            sq.valid(),
        ensures
            build_result(board@.grid, sq, 0, 1, mul as int, promo, r),
    {
        ChessMove::create(board, sq, mul, promo, 0, 1)
    }

    /// Builds the move `mul` squares to the piece's left on `sq`.
    pub fn left(board: &Board, sq: Square, mul: u8, promo: Option<PieceType>) -> (r: Result<
        ChessMove,
        ChessError,
    >)
        requires
            board.wf(),
            sq.valid(),
        ensures
            build_result(board@.grid, sq, 0, -1, mul as int, promo, r),
    {
        ChessMove::create(board, sq, mul, promo, 0, -1)
    }

    /// Builds the move `mul` squares diagonally forward-right for the piece on `sq`.
    pub fn up_right(
        board: &Board,
        sq: Square,
        mul: u8,
        promo: Option<PieceType>,
    ) -> (r: Result<ChessMove, ChessError>)
        requires
            board.wf(),
            sq.valid(),
        ensures
            build_result(board@.grid, sq, 1, 1, mul as int, promo, r),
    {
        ChessMove::create(board, sq, mul, promo, 1, 1)
    }

    /// Builds the move `mul` squares diagonally forward-left for the piece on `sq`.
    pub fn up_left(
        board: &Board,
        sq: Square,
        mul: u8,
        promo: Option<PieceType>,
    ) -> (r: Result<ChessMove, ChessError>)
        requires
            board.wf(),
            sq.valid(),
        ensures
            build_result(board@.grid, sq, 1, -1, mul as int, promo, r),
    {
        ChessMove::create(board, sq, mul, promo, 1, -1)
    }

    /// Builds the move `mul` squares diagonally backward-right for the piece on `sq`.
    pub fn down_right(
        board: &Board,
        sq: Square,
        mul: u8,
        promo: Option<PieceType>,
    ) -> (r: Result<ChessMove, ChessError>)
        requires
            board.wf(),
            sq.valid(),
        ensures
            build_result(board@.grid, sq, -1, 1, mul as int, promo, r),
    {
        ChessMove::create(board, sq, mul, promo, -1, 1)
    }

    /// Builds the move `mul` squares diagonally backward-left for the piece on `sq`.
    pub fn down_left(
        board: &Board,
        sq: Square,
        mul: u8,
        promo: Option<PieceType>,
    ) -> (r: Result<ChessMove, ChessError>)
        requires
            board.wf(),
            sq.valid(),
        ensures
            build_result(board@.grid, sq, -1, -1, mul as int, promo, r),
    {
        ChessMove::create(board, sq, mul, promo, -1, -1)
    }
}

} // verus!
