use vstd::prelude::*;

use crate::chess_move::ChessMove;
use crate::errors::ChessError;
use crate::file::file_index;
use crate::file::File;
use crate::piece::PieceType;
use crate::rank::rank_index;
use crate::rank::Rank;

verus! {

/// A cell of the board, stored as a linear index.
///
/// The index runs from 0 (rank one, file a) to 63 (rank eight, file h):
/// `index = row * 8 + column`, where row 0 is the rank nearest to White
/// and column 0 is file a.
#[derive(Clone, Copy, Debug, PartialEq, Eq, Structural)]
pub struct Square(pub usize);

/// Whether a linear index lies on the board.
pub open spec fn sq_valid(i: int) -> bool {
    0 <= i < 64
}

/// The row of a linear index (0 = rank one, 7 = rank eight).
pub open spec fn rank_of(i: int) -> int {
    i / 8
}

/// The column of a linear index (0 = file a, 7 = file h).
pub open spec fn file_of(i: int) -> int {
    i % 8
}

/// Whether moving `mul` steps of `(dr, df)` (rank delta, file delta) from
/// `i` stays on the board. Rank and file are checked separately, so a step
/// can never wrap around a board edge.
pub open spec fn step_ok(i: int, dr: int, df: int, mul: int) -> bool {
    &&& 0 <= rank_of(i) + dr * mul < 8
    &&& 0 <= file_of(i) + df * mul < 8
}

/// The linear index reached by moving `mul` steps of `(dr, df)` from `i`.
/// Meaningful when `step_ok` holds for the same arguments.
pub open spec fn step_to(i: int, dr: int, df: int, mul: int) -> int {
    (rank_of(i) + dr * mul) * 8 + (file_of(i) + df * mul)
}

/// What a directional step returns: the move onto the stepped-to square
/// when the step stays on the board, and `OutOfBounds` otherwise.
pub open spec fn step_result(
    i: int,
    dr: int,
    df: int,
    mul: int,
    promo: Option<PieceType>,
    r: Result<ChessMove, ChessError>,
) -> bool {
    if step_ok(i, dr, df, mul) {
        &&& r matches Ok(m)
        &&& m.start.0 as int == i
        &&& m.dest.0 as int == step_to(i, dr, df, mul)
        &&& sq_valid(m.dest.0 as int)
        &&& m.promo == promo
    } else {
        r == Err::<ChessMove, ChessError>(ChessError::OutOfBounds)
    }
}

impl Square {
    /// Whether this square lies on the board.
    pub open spec fn valid(self) -> bool {
        sq_valid(self.0 as int)
    }

    /// Creates the [Square] at the given rank and file.
    pub fn new(rank: Rank, file: File) -> (r: Square)
        ensures
            r.0 as int == rank_index(rank) * 8 + file_index(file),
            r.valid(),
    {
        Square(rank.to_usize() * 8 + file.to_usize())
    }

    /// Extracts the [Rank] of this square; fails when the square is off the board.
    pub fn get_rank(&self) -> (r: Result<Rank, ChessError>)
        ensures
            r is Ok <==> self.valid(),
            r is Ok ==> rank_index(r->Ok_0) == rank_of(self.0 as int),
            r is Err ==> r->Err_0 == ChessError::OutOfBounds,
    {
        Rank::try_from_usize(self.0 / 8)
    }

    /// Extracts the [File] of this square; fails when the square is off the board.
    pub fn get_file(&self) -> (r: Result<File, ChessError>)
        ensures
            r is Ok <==> self.valid(),
            r is Ok ==> file_index(r->Ok_0) == file_of(self.0 as int),
            r is Err ==> r->Err_0 == ChessError::OutOfBounds,
    {
        if self.0 >= 64 {
            Err(ChessError::OutOfBounds)
        } else {
            File::try_from_usize(self.0 % 8)
        }
    }

    /// Moves `mul` steps of `(dr, df)` and builds the move onto the reached
    /// square, or fails when the step would leave the board. Rank and file
    /// are tracked separately, so the result never wraps around an edge.
    pub(crate) fn step(self, dr: i8, df: i8, mul: u8, promo: Option<PieceType>) -> (r: Result<
        ChessMove,
        ChessError,
    >)
        requires
            self.valid(),
            -2 <= dr as int <= 2,
            -2 <= df as int <= 2,
        ensures
            step_result(self.0 as int, dr as int, df as int, mul as int, promo, r),
            r matches Ok(m) ==> m.start == self,
    {
        proof {
            assert(-510 <= (dr as int) * (mul as int) <= 510) by (nonlinear_arith)
                requires
                    -2 <= dr as int <= 2,
                    0 <= mul as int <= 255,
            ;
            assert(-510 <= (df as int) * (mul as int) <= 510) by (nonlinear_arith)
                requires
                    -2 <= df as int <= 2,
                    0 <= mul as int <= 255,
            ;
        }
        let rk = (self.0 / 8) as i64;
        let fl = (self.0 % 8) as i64;
        let nr = rk + (dr as i64) * (mul as i64);
        let nf = fl + (df as i64) * (mul as i64);
        if 0 <= nr && nr < 8 && 0 <= nf && nf < 8 {
            Ok(ChessMove { start: self, dest: Square((nr * 8 + nf) as usize), promo })
        } else {
            Err(ChessError::OutOfBounds)
        }
    }

    /// Builds the move `mul` squares toward rank eight.
    pub fn up(self, mul: u8, promo: Option<PieceType>) -> (r: Result<ChessMove, ChessError>)
        requires
            self.valid(),
        ensures
            step_result(self.0 as int, 1, 0, mul as int, promo, r),
    {
        self.step(1, 0, mul, promo)
    }

    /// Builds the move `mul` squares toward rank one.
    pub fn down(self, mul: u8, promo: Option<PieceType>) -> (r: Result<
        ChessMove,
        ChessError,
    >)
        requires
            self.valid(),
        ensures
            step_result(self.0 as int, -1, 0, mul as int, promo, r),
    {
        self.step(-1, 0, mul, promo)
    }

    /// Builds the move `mul` squares toward file h.
    pub fn right(self, mul: u8, promo: Option<PieceType>) -> (r: Result<
        ChessMove,
        ChessError,
    >)
        requires
            self.valid(),
        ensures
            step_result(self.0 as int, 0, 1, mul as int, promo, r),
    {
        self.step(0, 1, mul, promo)
    }

    /// Builds the move `mul` squares toward file a.
    pub fn left(self, mul: u8, promo: Option<PieceType>) -> (r: Result<
        ChessMove,
        ChessError,
    >)
        requires
            self.valid(),
        ensures
            step_result(self.0 as int, 0, -1, mul as int, promo, r),
    {
        self.step(0, -1, mul, promo)
    }

    /// Builds the move `mul` squares diagonally toward rank eight and file h.
    pub fn up_right(self, mul: u8, promo: Option<PieceType>) -> (r: Result<
        ChessMove,
        ChessError,
    >)
        requires
            self.valid(),
        ensures
            step_result(self.0 as int, 1, 1, mul as int, promo, r),
    {
        self.step(1, 1, mul, promo)
    }

    /// Builds the move `mul` squares diagonally toward rank eight and file a.
    pub fn up_left(self, mul: u8, promo: Option<PieceType>) -> (r: Result<
        ChessMove,
        ChessError,
    >)
        requires
            self.valid(),
        ensures
            step_result(self.0 as int, 1, -1, mul as int, promo, r),
    {
        self.step(1, -1, mul, promo)
    }

    /// Builds the move `mul` squares diagonally toward rank one and file h.
    pub fn down_right(self, mul: u8, promo: Option<PieceType>) -> (r: Result<
        ChessMove,
        ChessError,
    >)
        requires
            self.valid(),
        ensures
            step_result(self.0 as int, -1, 1, mul as int, promo, r),
    {
        self.step(-1, 1, mul, promo)
    }

    /// Builds the move `mul` squares diagonally toward rank one and file a.
    pub fn down_left(self, mul: u8, promo: Option<PieceType>) -> (r: Result<
        ChessMove,
        ChessError,
    >)
        requires
            self.valid(),
        ensures
            step_result(self.0 as int, -1, -1, mul as int, promo, r),
    {
        self.step(-1, -1, mul, promo)
    }
}

} // verus!
