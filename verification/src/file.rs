use vstd::prelude::*;

use crate::errors::ChessError;

verus! {

/// A vertical column of the board, `A` through `H`.
#[derive(Clone, Copy, Debug, PartialEq, Eq, Structural)]
pub enum File {
    A,
    B,
    C,
    D,
    E,
    F,
    G,
    H,
}

/// The column index of a file: 0 for `A` up to 7 for `H`.
pub open spec fn file_index(f: File) -> int {
    match f {
        File::A => 0,
        File::B => 1,
        File::C => 2,
        File::D => 3,
        File::E => 4,
        File::F => 5,
        File::G => 6,
        File::H => 7,
    }
}

impl File {
    /// Converts a column index to a [File]; fails when the index is off the board.
    pub fn try_from_usize(num: usize) -> (r: Result<File, ChessError>)
        ensures
            r is Ok <==> num < 8,
            r is Ok ==> file_index(r->Ok_0) == num as int,
            r is Err ==> r->Err_0 == ChessError::OutOfBounds,
    {
        match num {
            0 => Ok(File::A),
            1 => Ok(File::B),
            2 => Ok(File::C),
            3 => Ok(File::D),
            4 => Ok(File::E),
            5 => Ok(File::F),
            6 => Ok(File::G),
            7 => Ok(File::H),
            _ => Err(ChessError::OutOfBounds),
        }
    }

    /// Converts a [File] to its column index.
    pub fn to_usize(&self) -> (r: usize)
        ensures
            r as int == file_index(*self),
    {
        match self {
            File::A => 0,
            File::B => 1,
            File::C => 2,
            File::D => 3,
            File::E => 4,
            File::F => 5,
            File::G => 6,
            File::H => 7,
        }
    }
}

} // verus!
