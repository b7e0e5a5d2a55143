use vstd::prelude::*;

use crate::errors::ChessError;

verus! {

/// A horizontal row of the board. `First` is the rank nearest to White's
/// side; `Eighth` is the rank nearest to Black's side.
#[derive(Clone, Copy, Debug, PartialEq, Eq, Structural)]
pub enum Rank {
    First,
    Second,
    Third,
    Fourth,
    Fifth,
    Sixth,
    Seventh,
    Eighth,
}

/// The row index of a rank: 0 for `First` up to 7 for `Eighth`.
pub open spec fn rank_index(r: Rank) -> int {
    match r {
        Rank::First => 0,
        Rank::Second => 1,
        Rank::Third => 2,
        Rank::Fourth => 3,
        Rank::Fifth => 4,
        Rank::Sixth => 5,
        Rank::Seventh => 6,
        Rank::Eighth => 7,
    }
}

/// The decimal label of a rank, `"1"` through `"8"`.
pub open spec fn rank_label(r: Rank) -> Seq<char> {
    match r {
        Rank::First => "1"@,
        Rank::Second => "2"@,
        Rank::Third => "3"@,
        Rank::Fourth => "4"@,
        Rank::Fifth => "5"@,
        Rank::Sixth => "6"@,
        Rank::Seventh => "7"@,
        Rank::Eighth => "8"@,
    }
}

impl Rank {
    /// Converts a row index to a [Rank]; fails when the index is off the board.
    pub fn try_from_usize(num: usize) -> (r: Result<Rank, ChessError>)
        ensures
            r is Ok <==> num < 8,
            r is Ok ==> rank_index(r->Ok_0) == num as int,
            r is Err ==> r->Err_0 == ChessError::OutOfBounds,
    {
        match num {
            0 => Ok(Rank::First),
            1 => Ok(Rank::Second),
            2 => Ok(Rank::Third),
            3 => Ok(Rank::Fourth),
            4 => Ok(Rank::Fifth),
            5 => Ok(Rank::Sixth),
            6 => Ok(Rank::Seventh),
            7 => Ok(Rank::Eighth),
            _ => Err(ChessError::OutOfBounds),
        }
    }

    /// Converts a [Rank] to its row index.
    pub fn to_usize(&self) -> (r: usize)
        ensures
            r as int == rank_index(*self),
    {
        match self {
            Rank::First => 0,
            Rank::Second => 1,
            Rank::Third => 2,
            Rank::Fourth => 3,
            Rank::Fifth => 4,
            Rank::Sixth => 5,
            Rank::Seventh => 6,
            Rank::Eighth => 7,
        }
    }

    /// Converts a [Rank] to its decimal label as a [String].
    pub fn to_string(&self) -> (s: String)
        ensures
            s@ == rank_label(*self),
    {
        match self {
            Rank::First => "1".to_string(),
            Rank::Second => "2".to_string(),
            Rank::Third => "3".to_string(),
            Rank::Fourth => "4".to_string(),
            Rank::Fifth => "5".to_string(),
            Rank::Sixth => "6".to_string(),
            Rank::Seventh => "7".to_string(),
            Rank::Eighth => "8".to_string(),
        }
    }
}

} // verus!
