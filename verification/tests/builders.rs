use chess_rules::Board;
use chess_rules::ChessError;
use chess_rules::ChessMove;
use chess_rules::Color;
use chess_rules::File;
use chess_rules::Piece;
use chess_rules::PieceType;
use chess_rules::Rank;
use chess_rules::Square;

fn sq(rank: Rank, file: File) -> Square {
    Square::new(rank, file)
}

#[test]
fn forward_mirrors_between_the_colors() {
    let mut board = Board::empty(Color::White);
    let d4 = sq(Rank::Fourth, File::D);
    let d5 = sq(Rank::Fifth, File::D);
    board.place_piece(d4, Some(Piece::new(PieceType::Pawn, Color::White)));
    board.place_piece(d5, Some(Piece::new(PieceType::Pawn, Color::Black)));

    // "Up" for the White pawn heads toward rank eight.
    let white_up = ChessMove::up(&board, d4, 1, None).unwrap();
    assert_eq!(white_up.dest.get_rank().unwrap(), Rank::Fifth);

    // The same builder heads toward rank one for the Black pawn.
    let black_up = ChessMove::up(&board, d5, 1, None).unwrap();
    assert_eq!(black_up.dest.get_rank().unwrap(), Rank::Fourth);

    // Left and right mirror as well.
    let white_right = ChessMove::right(&board, d4, 1, None).unwrap();
    assert_eq!(white_right.dest.get_file().unwrap(), File::E);
    let black_right = ChessMove::right(&board, d5, 1, None).unwrap();
    assert_eq!(black_right.dest.get_file().unwrap(), File::C);

    // Diagonals combine both mirrors.
    let white_diag = ChessMove::up_left(&board, d4, 2, None).unwrap();
    assert_eq!(white_diag.dest, sq(Rank::Sixth, File::B));
    let black_diag = ChessMove::up_left(&board, d5, 2, None).unwrap();
    assert_eq!(black_diag.dest, sq(Rank::Third, File::F));
}

#[test]
fn builders_fail_at_the_board_edge() {
    let mut board = Board::empty(Color::White);
    let h1 = sq(Rank::First, File::H);
    board.place_piece(h1, Some(Piece::new(PieceType::Rook, Color::White)));
    assert_eq!(
        ChessMove::right(&board, h1, 1, None).unwrap_err(),
        ChessError::OutOfBounds
    );
    assert_eq!(
        ChessMove::down(&board, h1, 1, None).unwrap_err(),
        ChessError::OutOfBounds
    );
    assert!(ChessMove::up(&board, h1, 7, None).is_ok());
    assert!(ChessMove::left(&board, h1, 7, None).is_ok());
    assert_eq!(
        ChessMove::up(&board, h1, 8, None).unwrap_err(),
        ChessError::OutOfBounds
    );
}

#[test]
fn builders_refuse_an_empty_square() {
    let board = Board::empty(Color::White);
    let d4 = sq(Rank::Fourth, File::D);
    assert_eq!(
        ChessMove::up(&board, d4, 1, None).unwrap_err(),
        ChessError::NoPieceAtSquare
    );
    assert_eq!(
        ChessMove::down_right(&board, d4, 1, None).unwrap_err(),
        ChessError::NoPieceAtSquare
    );
}
