use chess_rules::Board;
use chess_rules::ChessMove;
use chess_rules::Color;
use chess_rules::File;
use chess_rules::Mask;
use chess_rules::Piece;
use chess_rules::PieceType;
use chess_rules::Rank;
use chess_rules::Square;

fn sq(rank: Rank, file: File) -> Square {
    Square::new(rank, file)
}

fn mv(from: Square, to: Square) -> ChessMove {
    ChessMove::new(from, to, None)
}

#[test]
fn starting_position_has_twenty_legal_moves_per_side() {
    let board = Board::deafult();
    assert_eq!(board.gen_moves(Mask::White).len(), 20);
    assert_eq!(board.gen_moves(Mask::Black).len(), 20);
}

#[test]
fn rook_rays_stop_at_the_first_occupied_square() {
    let mut board = Board::empty(Color::White);
    let a1 = sq(Rank::First, File::A);
    board.place_piece(a1, Some(Piece::new(PieceType::Rook, Color::White)));
    board.place_piece(sq(Rank::Fourth, File::A), Some(Piece::new(PieceType::Pawn, Color::Black)));
    let moves = board.gen_moves(Mask::Both);
    // Up the a-file: a2, a3, then the capture on a4 and nothing beyond.
    assert!(moves.contains(&mv(a1, sq(Rank::Second, File::A))));
    assert!(moves.contains(&mv(a1, sq(Rank::Third, File::A))));
    assert!(moves.contains(&mv(a1, sq(Rank::Fourth, File::A))));
    assert!(!moves.contains(&mv(a1, sq(Rank::Fifth, File::A))));
    assert!(!moves.contains(&mv(a1, sq(Rank::Sixth, File::A))));
}

#[test]
fn ray_excludes_a_square_occupied_by_the_own_side() {
    let mut board = Board::empty(Color::White);
    let c1 = sq(Rank::First, File::C);
    board.place_piece(c1, Some(Piece::new(PieceType::Bishop, Color::White)));
    board.place_piece(sq(Rank::Third, File::E), Some(Piece::new(PieceType::Pawn, Color::White)));
    let moves = board.gen_moves(Mask::White);
    assert!(moves.contains(&mv(c1, sq(Rank::Second, File::D))));
    assert!(!moves.contains(&mv(c1, sq(Rank::Third, File::E))));
    assert!(!moves.contains(&mv(c1, sq(Rank::Fourth, File::F))));
}

#[test]
fn knight_on_the_edge_never_wraps() {
    let mut board = Board::empty(Color::White);
    let h4 = sq(Rank::Fourth, File::H);
    board.place_piece(h4, Some(Piece::new(PieceType::Knight, Color::White)));
    let moves = board.gen_moves(Mask::Both);
    assert_eq!(moves.len(), 4);
    assert!(moves.contains(&mv(h4, sq(Rank::Second, File::G))));
    assert!(moves.contains(&mv(h4, sq(Rank::Third, File::F))));
    assert!(moves.contains(&mv(h4, sq(Rank::Fifth, File::F))));
    assert!(moves.contains(&mv(h4, sq(Rank::Sixth, File::G))));
    // No destination differs from the origin's file by more than two.
    for m in &moves {
        let dist = (m.start.0 % 8).abs_diff(m.dest.0 % 8);
        assert!(dist <= 2);
    }
}

#[test]
fn a_pinned_piece_may_not_expose_its_king() {
    let mut board = Board::empty(Color::White);
    let e1 = sq(Rank::First, File::E);
    let e2 = sq(Rank::Second, File::E);
    let e8 = sq(Rank::Eighth, File::E);
    board.place_piece(e1, Some(Piece::new(PieceType::King, Color::White)));
    board.place_piece(e2, Some(Piece::new(PieceType::Rook, Color::White)));
    board.place_piece(e8, Some(Piece::new(PieceType::Rook, Color::Black)));
    let moves = board.gen_moves(Mask::White);
    // The rook may slide along the e-file, up to capturing the black rook.
    assert!(moves.contains(&mv(e2, sq(Rank::Third, File::E))));
    assert!(moves.contains(&mv(e2, e8)));
    // It may not leave the file: that would leave the king capturable.
    assert!(!moves.contains(&mv(e2, sq(Rank::Second, File::D))));
    assert!(!moves.contains(&mv(e2, sq(Rank::Second, File::H))));
}

#[test]
fn the_king_never_steps_into_a_defended_square() {
    let mut board = Board::empty(Color::White);
    let e1 = sq(Rank::First, File::E);
    board.place_piece(e1, Some(Piece::new(PieceType::King, Color::White)));
    board.place_piece(sq(Rank::Eighth, File::D), Some(Piece::new(PieceType::Rook, Color::Black)));
    let moves = board.gen_moves(Mask::White);
    assert!(!moves.contains(&mv(e1, sq(Rank::First, File::D))));
    assert!(!moves.contains(&mv(e1, sq(Rank::Second, File::D))));
    assert!(moves.contains(&mv(e1, sq(Rank::First, File::F))));
    assert!(moves.contains(&mv(e1, sq(Rank::Second, File::E))));
}

#[test]
fn pawn_pushes_require_an_empty_path() {
    let mut board = Board::deafult();
    board.place_piece(sq(Rank::Third, File::E), Some(Piece::new(PieceType::Knight, Color::Black)));
    let moves = board.gen_moves(Mask::White);
    let e2 = sq(Rank::Second, File::E);
    assert!(!moves.contains(&mv(e2, sq(Rank::Third, File::E))));
    assert!(!moves.contains(&mv(e2, sq(Rank::Fourth, File::E))));
    // Neighboring pawns are unaffected, and may capture the knight.
    assert!(moves.contains(&mv(sq(Rank::Second, File::D), sq(Rank::Third, File::E))));
    assert!(moves.contains(&mv(sq(Rank::Second, File::F), sq(Rank::Third, File::E))));
}

#[test]
fn en_passant_is_generated_only_right_after_the_double_step() {
    let mut board = Board::empty(Color::White);
    let e5 = sq(Rank::Fifth, File::E);
    board.place_piece(e5, Some(Piece::new(PieceType::Pawn, Color::White)));
    board.place_piece(sq(Rank::Seventh, File::D), Some(Piece::new(PieceType::Pawn, Color::Black)));
    board.place_piece(sq(Rank::Second, File::H), Some(Piece::new(PieceType::Pawn, Color::White)));
    board.place_piece(sq(Rank::Seventh, File::H), Some(Piece::new(PieceType::Pawn, Color::Black)));

    // Before any move there is no snapshot, so no en passant.
    let moves0 = board.gen_moves(Mask::White);
    assert!(!moves0.contains(&mv(e5, sq(Rank::Sixth, File::D))));

    // Right after d7-d5 the capture exists.
    board
        .make_move(mv(sq(Rank::Seventh, File::D), sq(Rank::Fifth, File::D)))
        .unwrap();
    let moves1 = board.gen_moves(Mask::White);
    assert!(moves1.contains(&mv(e5, sq(Rank::Sixth, File::D))));

    // After an intervening pair of moves the opportunity is gone.
    board
        .make_move(mv(sq(Rank::Second, File::H), sq(Rank::Third, File::H)))
        .unwrap();
    board
        .make_move(mv(sq(Rank::Seventh, File::H), sq(Rank::Sixth, File::H)))
        .unwrap();
    let moves2 = board.gen_moves(Mask::White);
    assert!(!moves2.contains(&mv(e5, sq(Rank::Sixth, File::D))));
}

#[test]
fn castling_is_generated_only_with_rights_and_room() {
    let mut board = Board::empty(Color::White);
    let e1 = sq(Rank::First, File::E);
    board.place_piece(e1, Some(Piece::new(PieceType::King, Color::White)));
    board.place_piece(sq(Rank::First, File::A), Some(Piece::new(PieceType::Rook, Color::White)));
    board.place_piece(sq(Rank::First, File::H), Some(Piece::new(PieceType::Rook, Color::White)));
    let moves = board.gen_moves(Mask::White);
    assert!(moves.contains(&mv(e1, sq(Rank::First, File::G))));
    assert!(moves.contains(&mv(e1, sq(Rank::First, File::C))));

    // A piece between king and rook blocks that wing.
    let mut blocked = Board::empty(Color::White);
    blocked.place_piece(e1, Some(Piece::new(PieceType::King, Color::White)));
    blocked.place_piece(sq(Rank::First, File::A), Some(Piece::new(PieceType::Rook, Color::White)));
    blocked.place_piece(sq(Rank::First, File::H), Some(Piece::new(PieceType::Rook, Color::White)));
    blocked.place_piece(
        sq(Rank::First, File::B),
        Some(Piece::new(PieceType::Knight, Color::White)),
    );
    let blocked_moves = blocked.gen_moves(Mask::White);
    assert!(blocked_moves.contains(&mv(e1, sq(Rank::First, File::G))));
    assert!(!blocked_moves.contains(&mv(e1, sq(Rank::First, File::C))));

    // A rook that has moved and returned has spent its right.
    let mut spent = Board::empty(Color::White);
    spent.place_piece(e1, Some(Piece::new(PieceType::King, Color::White)));
    spent.place_piece(sq(Rank::First, File::H), Some(Piece::new(PieceType::Rook, Color::White)));
    spent
        .make_move(mv(sq(Rank::First, File::H), sq(Rank::Second, File::H)))
        .unwrap();
    spent
        .make_move(mv(sq(Rank::Second, File::H), sq(Rank::First, File::H)))
        .unwrap();
    let spent_moves = spent.gen_moves(Mask::White);
    assert!(!spent_moves.contains(&mv(e1, sq(Rank::First, File::G))));
}

#[test]
fn promotion_moves_carry_the_configured_kind() {
    let mut board = Board::empty(Color::White);
    let a7 = sq(Rank::Seventh, File::A);
    let a8 = sq(Rank::Eighth, File::A);
    board.place_piece(a7, Some(Piece::new(PieceType::Pawn, Color::White)));
    board.place_piece(sq(Rank::Eighth, File::B), Some(Piece::new(PieceType::Rook, Color::Black)));

    let moves = board.gen_moves(Mask::White);
    // Both the push and the capture land on the eighth rank and carry the
    // default target, Queen.
    assert!(moves.contains(&ChessMove::new(a7, a8, Some(PieceType::Queen))));
    assert!(moves.contains(&ChessMove::new(
        a7,
        sq(Rank::Eighth, File::B),
        Some(PieceType::Queen)
    )));
    assert!(!moves.contains(&mv(a7, a8)));
    for m in &moves {
        if m.dest.get_rank().unwrap() == Rank::Eighth {
            assert_eq!(m.promo, Some(PieceType::Queen));
        }
    }

    // Reconfiguring the target changes the carried kind.
    board.pawn_promo = PieceType::Knight;
    let knight_moves = board.gen_moves(Mask::White);
    assert!(knight_moves.contains(&ChessMove::new(a7, a8, Some(PieceType::Knight))));
    assert!(!knight_moves.contains(&ChessMove::new(a7, a8, Some(PieceType::Queen))));

    // Applying the promotion puts the configured piece on the board.
    let promoting = ChessMove::new(a7, a8, Some(PieceType::Knight));
    board.make_move(promoting).unwrap();
    assert_eq!(*board.get(a8), Some(Piece::new(PieceType::Knight, Color::White)));
}

#[test]
fn is_valid_accepts_exactly_the_legal_moves_of_the_side_to_move() {
    let board = Board::deafult();
    let e2e4 = mv(sq(Rank::Second, File::E), sq(Rank::Fourth, File::E));
    let e2e5 = mv(sq(Rank::Second, File::E), sq(Rank::Fifth, File::E));
    let e7e5 = mv(sq(Rank::Seventh, File::E), sq(Rank::Fifth, File::E));
    assert!(e2e4.is_valid(&board));
    assert!(!e2e5.is_valid(&board));
    // Black is not to move on a fresh board.
    assert!(!e7e5.is_valid(&board));
}

#[test]
fn legal_move_lists_hold_no_duplicates() {
    let board = Board::deafult();
    let moves = board.gen_moves(Mask::Both);
    for (i, a) in moves.iter().enumerate() {
        for b in moves.iter().skip(i + 1) {
            assert_ne!(a, b);
        }
    }
}

#[test]
fn mask_inverse_flips_white_and_black() {
    let mut m = Mask::White;
    m.inverse();
    assert_eq!(m, Mask::Black);
    m.inverse();
    assert_eq!(m, Mask::White);
    let mut b = Mask::Both;
    b.inverse();
    assert_eq!(b, Mask::White);
}
