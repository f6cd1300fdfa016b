//! Colours, pieces, game states and the errors the engine reports.
use vstd::prelude::*;

verus! {

/// The state of a game as seen by the side to move.
#[derive(Copy, Clone, Debug, PartialEq, Eq, Structural)]
pub enum GameState {
    InProgress,
    Check,
    CheckMate,
    /// Reserved; the engine never enters it.
    GameOver,
}

/// The two sides; White moves first.
#[derive(Copy, Clone, Debug, PartialEq, Eq, Structural)]
pub enum Colour {
    White,
    Black,
}

/// A piece: its kind, carrying the colour of the side that owns it.
#[derive(Copy, Clone, Debug, PartialEq, Eq, Structural)]
pub enum Piece {
    King(Colour),
    Queen(Colour),
    Rook(Colour),
    Bishop(Colour),
    Knight(Colour),
    Pawn(Colour),
}

/// Why a request was refused.
#[derive(Copy, Clone, Debug, PartialEq, Eq, Structural)]
pub enum ChessError {
    /// A square name that is not a letter `a`..`h` followed by a digit `1`..`8`.
    InvalidNotation,
    /// The origin square holds no piece.
    EmptySquare,
    /// The origin square holds a piece of the other side.
    WrongOwner,
    /// The destination is not among the legal moves of the piece.
    IllegalDestination,
    /// The game has ended in checkmate.
    GameOver,
    /// The move would take a king off the board, which legal play never does.
    InvariantViolation,
}

/// The other side.
pub open spec fn opponent(c: Colour) -> Colour {
    match c {
        Colour::White => Colour::Black,
        Colour::Black => Colour::White,
    }
}

/// The side that owns a piece.
pub open spec fn colour_of(p: Piece) -> Colour {
    match p {
        Piece::King(c) => c,
        Piece::Queen(c) => c,
        Piece::Rook(c) => c,
        Piece::Bishop(c) => c,
        Piece::Knight(c) => c,
        Piece::Pawn(c) => c,
    }
}

impl Colour {
    /// The other side.
    pub fn other(self) -> (r: Colour)
        ensures
            r == opponent(self),
    {
        match self {
            Colour::White => Colour::Black,
            Colour::Black => Colour::White,
        }
    }
}

impl Piece {
    /// The side that owns this piece.
    pub fn colour(self) -> (r: Colour)
        ensures
            r == colour_of(self),
    {
        match self {
            Piece::King(c) => c,
            Piece::Queen(c) => c,
            Piece::Rook(c) => c,
            Piece::Bishop(c) => c,
            Piece::Knight(c) => c,
            Piece::Pawn(c) => c,
        }
    }
}

} // verus!
