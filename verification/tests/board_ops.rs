use chess_rules::Board;
use chess_rules::ChessError;
use chess_rules::ChessMove;
use chess_rules::Color;
use chess_rules::File;
use chess_rules::Piece;
use chess_rules::PieceType;
use chess_rules::Rank;
use chess_rules::Square;

fn sq(rank: Rank, file: File) -> Square {
    Square::new(rank, file)
}

fn mv(from: Square, to: Square) -> ChessMove {
    ChessMove::new(from, to, None)
}

#[test]
fn deafult_sets_up_the_standard_position() {
    let board = Board::deafult();
    assert_eq!(
        *board.get(sq(Rank::First, File::E)),
        Some(Piece::new(PieceType::King, Color::White))
    );
    assert_eq!(
        *board.get(sq(Rank::First, File::D)),
        Some(Piece::new(PieceType::Queen, Color::White))
    );
    assert_eq!(
        *board.get(sq(Rank::Eighth, File::E)),
        Some(Piece::new(PieceType::King, Color::Black))
    );
    assert_eq!(
        *board.get(sq(Rank::Eighth, File::B)),
        Some(Piece::new(PieceType::Knight, Color::Black))
    );
    assert_eq!(
        *board.get(sq(Rank::Second, File::C)),
        Some(Piece::new(PieceType::Pawn, Color::White))
    );
    assert_eq!(
        *board.get(sq(Rank::Seventh, File::H)),
        Some(Piece::new(PieceType::Pawn, Color::Black))
    );
    assert_eq!(*board.get(sq(Rank::Fourth, File::E)), None);
}

#[test]
fn empty_board_is_empty() {
    let board = Board::empty(Color::Black);
    let cells = board.iter();
    assert_eq!(cells.len(), 64);
    assert!(cells.iter().all(|c| c.is_none()));
    assert_eq!(board.get_turn(), Color::Black);
}

#[test]
fn place_and_remove_pieces() {
    let mut board = Board::empty(Color::White);
    let d5 = sq(Rank::Fifth, File::D);
    board.place_piece(d5, Some(Piece::new(PieceType::Bishop, Color::Black)));
    assert_eq!(*board.get(d5), Some(Piece::new(PieceType::Bishop, Color::Black)));
    board.remove_piece(d5);
    assert_eq!(*board.get(d5), None);
    assert_eq!(board.get_history().len(), 0);
}

#[test]
fn get_square_finds_the_first_matching_cell() {
    let board = Board::deafult();
    let king = Some(Piece::new(PieceType::King, Color::White));
    assert_eq!(board.get_square(&king), Some(sq(Rank::First, File::E)));
    // The first empty cell of the starting position is a3.
    assert_eq!(board.get_square(&None), Some(sq(Rank::Third, File::A)));
}

#[test]
fn make_move_relocates_the_piece() {
    let mut board = Board::deafult();
    let e2 = sq(Rank::Second, File::E);
    let e4 = sq(Rank::Fourth, File::E);
    board.make_move(mv(e2, e4)).unwrap();
    assert_eq!(*board.get(e2), None);
    assert_eq!(*board.get(e4), Some(Piece::new(PieceType::Pawn, Color::White)));
    assert_eq!(board.get_history().len(), 1);
    // The snapshot still shows the pawn on e2.
    assert_eq!(
        *board.get_from_previous(e2),
        Some(Piece::new(PieceType::Pawn, Color::White))
    );
}

#[test]
fn make_move_rejects_an_empty_origin() {
    let mut board = Board::deafult();
    let before = board.iter();
    let e4 = sq(Rank::Fourth, File::E);
    let e5 = sq(Rank::Fifth, File::E);
    assert_eq!(board.make_move(mv(e4, e5)).unwrap_err(), ChessError::NoPieceAtSquare);
    // Nothing changed, not even the history.
    assert_eq!(board.get_history().len(), 0);
    assert_eq!(board.iter(), before);
}

#[test]
fn make_move_rejects_squares_off_the_board() {
    let mut board = Board::deafult();
    let e2 = sq(Rank::Second, File::E);
    assert_eq!(
        board.make_move(ChessMove::new(e2, Square(64), None)).unwrap_err(),
        ChessError::OutOfBounds
    );
    assert_eq!(
        board.make_move(ChessMove::new(Square(200), e2, None)).unwrap_err(),
        ChessError::OutOfBounds
    );
    assert_eq!(board.get_history().len(), 0);
}

#[test]
fn en_passant_removes_the_captured_pawn() {
    let mut board = Board::empty(Color::White);
    board.place_piece(sq(Rank::Fifth, File::E), Some(Piece::new(PieceType::Pawn, Color::White)));
    board.place_piece(sq(Rank::Seventh, File::D), Some(Piece::new(PieceType::Pawn, Color::Black)));
    // Black plays the double step d7-d5.
    board
        .make_move(mv(sq(Rank::Seventh, File::D), sq(Rank::Fifth, File::D)))
        .unwrap();
    // White captures en passant: e5xd6.
    board
        .make_move(mv(sq(Rank::Fifth, File::E), sq(Rank::Sixth, File::D)))
        .unwrap();
    assert_eq!(*board.get(sq(Rank::Fifth, File::E)), None);
    assert_eq!(
        *board.get(sq(Rank::Sixth, File::D)),
        Some(Piece::new(PieceType::Pawn, Color::White))
    );
    // The captured pawn's square is empty too.
    assert_eq!(*board.get(sq(Rank::Fifth, File::D)), None);
}

#[test]
fn castling_moves_king_and_rook_and_spends_the_rights() {
    let mut board = Board::empty(Color::White);
    board.place_piece(sq(Rank::First, File::E), Some(Piece::new(PieceType::King, Color::White)));
    board.place_piece(sq(Rank::First, File::H), Some(Piece::new(PieceType::Rook, Color::White)));
    board.place_piece(sq(Rank::Eighth, File::E), Some(Piece::new(PieceType::King, Color::Black)));
    board.place_piece(sq(Rank::Eighth, File::A), Some(Piece::new(PieceType::Rook, Color::Black)));

    // White castles short in a single apply call.
    board
        .make_move(mv(sq(Rank::First, File::E), sq(Rank::First, File::G)))
        .unwrap();
    assert_eq!(
        *board.get(sq(Rank::First, File::G)),
        Some(Piece::new(PieceType::King, Color::White))
    );
    assert_eq!(
        *board.get(sq(Rank::First, File::F)),
        Some(Piece::new(PieceType::Rook, Color::White))
    );
    assert_eq!(*board.get(sq(Rank::First, File::E)), None);
    assert_eq!(*board.get(sq(Rank::First, File::H)), None);

    // Black castles long in a single apply call.
    board
        .make_move(mv(sq(Rank::Eighth, File::E), sq(Rank::Eighth, File::C)))
        .unwrap();
    assert_eq!(
        *board.get(sq(Rank::Eighth, File::C)),
        Some(Piece::new(PieceType::King, Color::Black))
    );
    assert_eq!(
        *board.get(sq(Rank::Eighth, File::D)),
        Some(Piece::new(PieceType::Rook, Color::Black))
    );
    assert_eq!(*board.get(sq(Rank::Eighth, File::E)), None);
    assert_eq!(*board.get(sq(Rank::Eighth, File::A)), None);

    // All four relevant rights flags are spent.
    let white = board.castling_rights(Color::White);
    let black = board.castling_rights(Color::Black);
    assert!(white.king_moved);
    assert!(white.kingside_rook_moved);
    assert!(black.king_moved);
    assert!(black.queenside_rook_moved);
}

#[test]
fn rook_moves_spend_their_own_flag() {
    let mut board = Board::deafult();
    board
        .make_move(mv(sq(Rank::Second, File::A), sq(Rank::Fourth, File::A)))
        .unwrap();
    board
        .make_move(mv(sq(Rank::First, File::A), sq(Rank::Third, File::A)))
        .unwrap();
    let white = board.castling_rights(Color::White);
    assert!(white.queenside_rook_moved);
    assert!(!white.kingside_rook_moved);
    assert!(!white.king_moved);
}

#[test]
fn promotion_replaces_the_pawn_with_the_carried_kind() {
    let mut board = Board::empty(Color::White);
    let a7 = sq(Rank::Seventh, File::A);
    let a8 = sq(Rank::Eighth, File::A);
    board.place_piece(a7, Some(Piece::new(PieceType::Pawn, Color::White)));
    board
        .make_move(ChessMove::new(a7, a8, Some(PieceType::Rook)))
        .unwrap();
    assert_eq!(*board.get(a7), None);
    assert_eq!(*board.get(a8), Some(Piece::new(PieceType::Rook, Color::White)));
}

#[test]
fn clear_history_drops_the_snapshots_and_nothing_else() {
    let mut board = Board::deafult();
    board
        .make_move(mv(sq(Rank::Second, File::E), sq(Rank::Fourth, File::E)))
        .unwrap();
    board
        .make_move(mv(sq(Rank::Seventh, File::E), sq(Rank::Fifth, File::E)))
        .unwrap();
    assert_eq!(board.get_history().len(), 2);
    let grid_before = board.iter();
    board.clear_history();
    assert_eq!(board.get_history().len(), 0);
    assert_eq!(board.iter(), grid_before);
}

#[test]
fn rank_cells_read_a_whole_row() {
    let board = Board::deafult();
    let second = board.get_rank_cells(Rank::Second);
    assert_eq!(second.len(), 8);
    assert!(second
        .iter()
        .all(|c| *c == Some(Piece::new(PieceType::Pawn, Color::White))));
    let first = board.get_rank_cells(Rank::First);
    assert_eq!(first[0], Some(Piece::new(PieceType::Rook, Color::White)));
    assert_eq!(first[4], Some(Piece::new(PieceType::King, Color::White)));
    let fifth = board.get_rank_cells(Rank::Fifth);
    assert!(fifth.iter().all(|c| c.is_none()));
}

#[test]
fn iter_walks_the_whole_grid() {
    let board = Board::deafult();
    let cells = board.iter();
    assert_eq!(cells.len(), 64);
    assert_eq!(cells.iter().filter(|c| c.is_some()).count(), 32);
}

#[test]
fn colors_invert() {
    assert_eq!(Color::White.get_inverse(), Color::Black);
    assert_eq!(Color::Black.get_inverse(), Color::White);
}
