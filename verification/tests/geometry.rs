use chess_rules::ChessError;
use chess_rules::File;
use chess_rules::Rank;
use chess_rules::Square;

fn sq(rank: Rank, file: File) -> Square {
    Square::new(rank, file)
}

#[test]
fn step_then_opposite_step_returns_home() {
    // Stepping up and then down by the same multiplier lands back on the
    // original square, and so does every other direction pair.
    let c3 = sq(Rank::Third, File::C);
    let up2 = c3.up(2, None).unwrap();
    let back = up2.dest.down(2, None).unwrap();
    assert_eq!(back.dest, c3);

    let lr = c3.right(3, None).unwrap();
    let lr_back = lr.dest.left(3, None).unwrap();
    assert_eq!(lr_back.dest, c3);

    let diag = c3.up_right(4, None).unwrap();
    let diag_back = diag.dest.down_left(4, None).unwrap();
    assert_eq!(diag_back.dest, c3);

    let diag2 = c3.up_left(1, None).unwrap();
    let diag2_back = diag2.dest.down_right(1, None).unwrap();
    assert_eq!(diag2_back.dest, c3);
}

#[test]
fn step_off_the_board_fails() {
    let h1 = sq(Rank::First, File::H);
    assert_eq!(h1.right(1, None).unwrap_err(), ChessError::OutOfBounds);
    assert_eq!(h1.down(1, None).unwrap_err(), ChessError::OutOfBounds);
    assert_eq!(h1.up_right(1, None).unwrap_err(), ChessError::OutOfBounds);
    assert!(h1.up(7, None).is_ok());
    assert_eq!(h1.up(8, None).unwrap_err(), ChessError::OutOfBounds);

    let a8 = sq(Rank::Eighth, File::A);
    assert_eq!(a8.left(1, None).unwrap_err(), ChessError::OutOfBounds);
    assert_eq!(a8.up(1, None).unwrap_err(), ChessError::OutOfBounds);
    assert!(a8.down_right(7, None).is_ok());
}

#[test]
fn steps_never_wrap_around_the_edge() {
    // From h3, one square "right" must fail rather than reappear on the
    // a-file of the next rank.
    let h3 = sq(Rank::Third, File::H);
    assert!(h3.right(1, None).is_err());
    // From a4, a left-up diagonal must fail rather than wrap.
    let a4 = sq(Rank::Fourth, File::A);
    assert!(a4.up_left(1, None).is_err());
}

#[test]
fn square_decomposes_into_rank_and_file() {
    let e4 = sq(Rank::Fourth, File::E);
    assert_eq!(e4.get_rank().unwrap(), Rank::Fourth);
    assert_eq!(e4.get_file().unwrap(), File::E);

    let a1 = sq(Rank::First, File::A);
    assert_eq!(a1.0, 0);
    let h8 = sq(Rank::Eighth, File::H);
    assert_eq!(h8.0, 63);
}

#[test]
fn invalid_square_reports_out_of_bounds() {
    let bad = Square(99);
    assert_eq!(bad.get_rank().unwrap_err(), ChessError::OutOfBounds);
    assert_eq!(bad.get_file().unwrap_err(), ChessError::OutOfBounds);
}

#[test]
fn rank_labels() {
    assert_eq!(Rank::First.to_string(), "1");
    assert_eq!(Rank::Fourth.to_string(), "4");
    assert_eq!(Rank::Eighth.to_string(), "8");
}
