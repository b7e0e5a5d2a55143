//! A chess rules engine: board state, pseudo-legal move generation,
//! legality filtering, and move application with the special rules
//! (castling, en passant, promotion) tracked explicitly.

pub mod board;
pub mod chess_move;
pub mod color;
pub mod errors;
pub mod file;
pub mod laws;
pub mod move_gen;
pub mod piece;
pub mod rank;
pub mod square;

pub use crate::board::Board;
pub use crate::board::CastlingRights;
pub use crate::board::Position;
pub use crate::chess_move::ChessMove;
pub use crate::color::Color;
pub use crate::errors::ChessError;
pub use crate::file::File;
pub use crate::move_gen::Mask;
pub use crate::piece::Piece;
pub use crate::piece::PieceType;
pub use crate::rank::Rank;
pub use crate::square::Square;
