//! A rules engine for chess without castling or en passant: pseudo-legal move
//! generation, check detection, king-safety filtering and the game state machine.
pub mod pieces;
pub mod geometry;
pub mod movegen;
pub mod rules;
pub mod notation;
pub mod game;

pub use pieces::{ChessError, Colour, GameState, Piece};
pub use geometry::Board;
pub use game::Game;
pub use movegen::pseudo_legal_moves;
pub use rules::{has_any_legal_move, is_in_check, legal_moves, simulate_move};
