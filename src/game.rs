//! The game: one board, the side to move and the status, changed only by
//! moves and promotions.
use vstd::prelude::*;
use crate::pieces::{ChessError, Colour, GameState, Piece, colour_of, opponent};
use crate::geometry::{
    Board, file, is_square, lemma_square_coords, lemma_square_split, owned_by, pseudo_move, rank,
    ray_square,
};
use crate::notation::{
    names_of, notation_of, parse_square, square_names, square_of,
    valid_notation,
};
use crate::rules::{
    after_move, contains_square, has_any_legal_move, has_legal_move, in_check, is_in_check,
    legal_move, legal_moves, lemma_one_king_after_move, lemma_one_king_update,
    lemma_pseudo_move_target, one_king, simulate_move,
};
use crate::movegen::pseudo_legal_moves;

verus! {

/// The piece that starts on file `f` of the back rank of colour `c`.
pub open spec fn back_rank_piece(f: int, c: Colour) -> Piece {
    if f == 0 || f == 7 {
        Piece::Rook(c)
    } else if f == 1 || f == 6 {
        Piece::Knight(c)
    } else if f == 2 || f == 5 {
        Piece::Bishop(c)
    } else if f == 3 {
        Piece::King(c)
    } else {
        Piece::Queen(c)
    }
}

/// What square `s` holds in the starting position.
pub open spec fn initial_piece(s: int) -> Option<Piece> {
    if rank(s) == 0 {
        Some(back_rank_piece(file(s), Colour::White))
    } else if rank(s) == 1 {
        Some(Piece::Pawn(Colour::White))
    } else if rank(s) == 6 {
        Some(Piece::Pawn(Colour::Black))
    } else if rank(s) == 7 {
        Some(back_rank_piece(file(s), Colour::Black))
    } else {
        None
    }
}

/// The starting position.
pub open spec fn initial_board() -> Seq<Option<Piece>> {
    Seq::new(64, |s: int| initial_piece(s))
}

/// In the starting position no rook can move: each is hemmed in by its own
/// pawn ahead and its own knight beside it.
pub proof fn lemma_initial_rooks_blocked()
    ensures
        forall|r: int, t: int|
            (r == 0 || r == 7 || r == 56 || r == 63) ==> !#[trigger] pseudo_move(
                initial_board(),
                r,
                t,
            ),
{
    let b = initial_board();
    assert forall|r: int, t: int| (r == 0 || r == 7 || r == 56 || r == 63) implies !#[trigger] pseudo_move(
        b,
        r,
        t,
    ) by {
        assert(b[r] == initial_piece(r));
        assert(b[r] is Some && b[r]->0 is Rook);
        let up = if r < 8 { 1int } else { -1int };
        let side = if r % 8 == 0 { 1int } else { -1int };
        assert(b[ray_square(r, 0, up, 1)] == initial_piece(ray_square(r, 0, up, 1)));
        assert(b[ray_square(r, side, 0, 1)] == initial_piece(ray_square(r, side, 0, 1)));
        if is_square(t) {
            assert(b[t] == initial_piece(t));
        }
    }
}

/// The two characters that draw one square: the piece's symbol, or `*` for
/// an empty square, then a space.
pub open spec fn glyph(sq: Option<Piece>) -> Seq<char> {
    match sq {
        None => seq!['*', ' '],
        Some(Piece::King(_)) => seq!['\u{2654}', ' '],
        Some(Piece::Queen(_)) => seq!['\u{2655}', ' '],
        Some(Piece::Rook(_)) => seq!['\u{2656}', ' '],
        Some(Piece::Bishop(_)) => seq!['\u{2657}', ' '],
        Some(Piece::Knight(_)) => seq!['\u{2658}', ' '],
        Some(Piece::Pawn(_)) => seq!['\u{2659}', ' '],
    }
}

/// The drawing of the first `n` squares: a line break, then the squares in
/// order, with a line break after every eighth.
pub open spec fn board_text(b: Seq<Option<Piece>>, n: int) -> Seq<char>
    decreases n,
{
    if n <= 0 {
        seq!['\n']
    } else {
        board_text(b, n - 1) + glyph(b[n - 1]) + if n % 8 == 0 {
            seq!['\n']
        } else {
            Seq::empty()
        }
    }
}

fn glyph_str(sq: Option<Piece>) -> (r: &'static str)
    ensures
        r@ == glyph(sq),
{
    match sq {
        None => {
            proof {
                reveal_strlit("* ");
            }
            "* "
        },
        Some(Piece::King(_)) => {
            proof {
                reveal_strlit("\u{2654} ");
            }
            "\u{2654} "
        },
        Some(Piece::Queen(_)) => {
            proof {
                reveal_strlit("\u{2655} ");
            }
            "\u{2655} "
        },
        Some(Piece::Rook(_)) => {
            proof {
                reveal_strlit("\u{2656} ");
            }
            "\u{2656} "
        },
        Some(Piece::Bishop(_)) => {
            proof {
                reveal_strlit("\u{2657} ");
            }
            "\u{2657} "
        },
        Some(Piece::Knight(_)) => {
            proof {
                reveal_strlit("\u{2658} ");
            }
            "\u{2658} "
        },
        Some(Piece::Pawn(_)) => {
            proof {
                reveal_strlit("\u{2659} ");
            }
            "\u{2659} "
        },
    }
}

/// What a game is: its board, the side to move and its status.
pub struct GameView {
    pub board: Seq<Option<Piece>>,
    pub active: Colour,
    pub state: GameState,
}

/// The status of the side `c` to move on board `b`: checkmate when its king is
/// attacked and it has no legal move, check when attacked otherwise, and in
/// progress when not attacked.
pub open spec fn status_after(b: Seq<Option<Piece>>, c: Colour) -> GameState {
    if in_check(b, c) {
        if has_legal_move(b, c) {
            GameState::Check
        } else {
            GameState::CheckMate
        }
    } else {
        GameState::InProgress
    }
}

/// A move from the square named `from` to the square named `to`: the game
/// afterwards, and whether the move was applied or why it was refused. A
/// refused move leaves the game, and so its status, as it was.
pub open spec fn play(g: GameView, from: Seq<char>, to: Seq<char>) -> (GameView, Result<
    (),
    ChessError,
>) {
    if g.state == GameState::CheckMate {
        (g, Err(ChessError::GameOver))
    } else if !valid_notation(from) || !valid_notation(to) {
        (g, Err(ChessError::InvalidNotation))
    } else {
        let f = square_of(from);
        let t = square_of(to);
        if g.board[f] is None {
            (g, Err(ChessError::EmptySquare))
        } else if colour_of(g.board[f]->0) != g.active {
            (g, Err(ChessError::WrongOwner))
        } else if !legal_move(g.board, f, t) {
            (g, Err(ChessError::IllegalDestination))
        } else if g.board[t] is Some && g.board[t]->0 is King {
            (g, Err(ChessError::InvariantViolation))
        } else {
            let b = after_move(g.board, f, t);
            let next = opponent(g.active);
            let state = status_after(b, next);
            (GameView { board: b, active: next, state }, Ok(()))
        }
    }
}

/// The piece that a promotion request names for colour `c`: `q`, `r`, `b` or `n`.
pub open spec fn promotion_piece(kind: Seq<char>, c: Colour) -> Option<Piece> {
    if kind == seq!['q'] {
        Some(Piece::Queen(c))
    } else if kind == seq!['r'] {
        Some(Piece::Rook(c))
    } else if kind == seq!['b'] {
        Some(Piece::Bishop(c))
    } else if kind == seq!['n'] {
        Some(Piece::Knight(c))
    } else {
        None
    }
}

/// A promotion of the pawn on the square named `square` to the piece named
/// `kind`: the game afterwards and whether it was applied.
pub open spec fn promote(g: GameView, square: Seq<char>, kind: Seq<char>) -> (GameView, bool) {
    if valid_notation(square) && g.board[square_of(square)] == Some(Piece::Pawn(g.active))
        && promotion_piece(kind, g.active) is Some {
        (
            GameView {
                board: g.board.update(square_of(square), promotion_piece(kind, g.active)),
                ..g
            },
            true,
        )
    } else {
        (g, false)
    }
}

/// A refused move leaves the game as it was, status included, so asking for
/// it again is refused the same way, reports the same status and still
/// changes nothing.
pub proof fn lemma_rejection_idempotent(g: GameView, from: Seq<char>, to: Seq<char>)
    requires
        play(g, from, to).1 is Err,
    ensures
        play(g, from, to).0 == g,
        play(g, from, to).0.state == g.state,
        play(play(g, from, to).0, from, to) == play(g, from, to),
{
}

/// A game in play. Each side has exactly one king on the board at all times.
#[derive(Debug)]
pub struct Game {
    state: GameState,
    active_colour: Colour,
    board: Board,
}

impl View for Game {
    type V = GameView;

    closed spec fn view(&self) -> GameView {
        GameView { board: self.board@, active: self.active_colour, state: self.state }
    }
}

fn starting_piece(s: usize) -> (r: Option<Piece>)
    requires
        s < 64,
    ensures
        r == initial_piece(s as int),
{
    let (f, c) = (s % 8, if s / 8 < 2 { Colour::White } else { Colour::Black });
    match s / 8 {
        1 => Some(Piece::Pawn(Colour::White)),
        6 => Some(Piece::Pawn(Colour::Black)),
        0 | 7 => Some(
            if f == 0 || f == 7 {
                Piece::Rook(c)
            } else if f == 1 || f == 6 {
                Piece::Knight(c)
            } else if f == 2 || f == 5 {
                Piece::Bishop(c)
            } else if f == 3 {
                Piece::King(c)
            } else {
                Piece::Queen(c)
            },
        ),
        _ => None,
    }
}

impl Game {
    #[verifier::type_invariant]
    spec fn kings_present(self) -> bool {
        one_king(self.board@, Colour::White) && one_king(self.board@, Colour::Black)
    }

    /// Makes known to a caller's proof what holds of every game: a board of
    /// 64 squares with exactly one king of each colour. It does nothing at run
    /// time.
    pub fn well_formed(&self)
        ensures
            self@.board.len() == 64,
            one_king(self@.board, Colour::White),
            one_king(self@.board, Colour::Black),
    {
        proof {
            use_type_invariant(self);
        }
    }

    /// A game in the starting position, White to move.
    pub fn new() -> (g: Game)
        ensures
            g@.board == initial_board(),
            g@.active == Colour::White,
            g@.state == GameState::InProgress,
    {
        let mut board: Board = [None; 64];
        let mut i: usize = 0;
        while i < 64
            invariant
                0 <= i <= 64,
                forall|j: int| 0 <= j < i ==> board@[j] == initial_piece(j),
            decreases 64 - i,
        {
            board[i] = starting_piece(i);
            i = i + 1;
        }
        proof {
            assert(board@ =~= initial_board());
            assert(board@[3] == Some(Piece::King(Colour::White)));
            assert(board@[59] == Some(Piece::King(Colour::Black)));
            assert forall|s: int| is_square(s) && #[trigger] board@[s] is Some && board@[s]->0 is King
                implies s == 3 || s == 59 by {
                lemma_square_split(s);
            }
        }
        Game { state: GameState::InProgress, active_colour: Colour::White, board }
    }

    /// Reads a square name such as `e2` into its file and rank. Files count
    /// from `h` (file 0) to `a` (file 7); ranks from `1` (rank 0) to `8`.
    pub fn convert_from_notation(notation: &str) -> (r: Result<(i32, i32), ChessError>)
        ensures
            r is Ok <==> valid_notation(notation@),
            r is Err ==> r == Err::<(i32, i32), ChessError>(ChessError::InvalidNotation),
            r is Ok ==> square_of(notation@) == (r->Ok_0).1 * 8 + (r->Ok_0).0,
            r is Ok ==> file(square_of(notation@)) == (r->Ok_0).0 && rank(square_of(notation@))
                == (r->Ok_0).1,
    {
        match parse_square(notation) {
            Some((f, r)) => {
                proof {
                    lemma_square_coords(f as int, r as int);
                }
                Ok((f as i32, r as i32))
            },
            None => Err(ChessError::InvalidNotation),
        }
    }

    /// The name of square `numeric_position`, such as `e2`.
    pub fn convert_to_notation(numeric_position: i32) -> (r: String)
        requires
            0 <= numeric_position < 64,
        ensures
            r@ == notation_of(numeric_position as int),
    {
        crate::notation::square_name(numeric_position as usize)
    }

    /// The colour of the piece on square `position`, if there is one.
    pub fn get_piece_colour(&self, position: i32) -> (r: Option<Colour>)
        requires
            0 <= position < 64,
        ensures
            r == (if self@.board[position as int] is Some {
                Some(colour_of(self@.board[position as int]->0))
            } else {
                None
            }),
    {
        match self.board[position as usize] {
            Some(p) => Some(p.colour()),
            None => None,
        }
    }

    /// The current status.
    pub fn get_game_state(&self) -> (r: GameState)
        ensures
            r == self@.state,
    {
        self.state
    }

    /// The side to move.
    pub fn active_colour(&self) -> (r: Colour)
        ensures
            r == self@.active,
    {
        self.active_colour
    }

    /// A copy of the board, square by square.
    pub fn board(&self) -> (r: Board)
        ensures
            r@ == self@.board,
    {
        self.board
    }

    /// The board drawn as text, rank by rank from White's back rank, one line
    /// per rank.
    pub fn board_string(&self) -> (r: String)
        ensures
            r@ == board_text(self@.board, 64),
    {
        proof {
            reveal_strlit("\n");
        }
        let mut text = String::from_str("\n");
        let mut i: usize = 0;
        while i < 64
            invariant
                0 <= i <= 64,
                text@ == board_text(self.board@, i as int),
            decreases 64 - i,
        {
            text.append(glyph_str(self.board[i]));
            if (i + 1) % 8 == 0 {
                proof {
                    reveal_strlit("\n");
                }
                text.append("\n");
            }
            proof {
                assert(text@ =~= board_text(self.board@, i + 1));
            }
            i = i + 1;
        }
        text
    }

    /// Moves the piece on the square named `from` to the square named `to`
    /// when that is a legal move of the side to move, and passes the turn.
    /// Returns the status afterwards (that of the side now to move, or the
    /// unchanged status after a refusal) with `Ok` when the move was applied
    /// or the reason it was refused. A refused move changes nothing.
    pub fn make_move(&mut self, from: &str, to: &str) -> (r: (GameState, Result<(), ChessError>))
        ensures
            (final(self)@, r.1) == play(old(self)@, from@, to@),
            r.0 == final(self)@.state,
    {
        proof {
            use_type_invariant(&*self);
        }
        if self.state == GameState::CheckMate {
            return (self.state, Err(ChessError::GameOver));
        }
        let (ff, fr) = match parse_square(from) {
            Some(x) => x,
            None => {
                return (self.state, Err(ChessError::InvalidNotation));
            },
        };
        let (tf, tr) = match parse_square(to) {
            Some(x) => x,
            None => {
                return (self.state, Err(ChessError::InvalidNotation));
            },
        };
        let f = fr * 8 + ff;
        let t = tr * 8 + tf;
        let active = self.active_colour;
        let moves = match legal_moves(&self.board, f, active) {
            Ok(v) => v,
            Err(e) => {
                return (self.state, Err(e));
            },
        };
        if !contains_square(&moves, t) {
            return (self.state, Err(ChessError::IllegalDestination));
        }
        if let Some(Piece::King(_)) = self.board[t] {
            return (self.state, Err(ChessError::InvariantViolation));
        }
        let board = simulate_move(&self.board, f, t);
        let next = active.other();
        proof {
            lemma_pseudo_move_target(self.board@, f as int, t as int);
            lemma_one_king_after_move(self.board@, f as int, t as int, active);
            lemma_one_king_after_move(self.board@, f as int, t as int, next);
        }
        let state = if is_in_check(&board, next) {
            if has_any_legal_move(&board, next) {
                GameState::Check
            } else {
                GameState::CheckMate
            }
        } else {
            GameState::InProgress
        };
        *self = Game { state, active_colour: next, board };
        (state, Ok(()))
    }

    /// Replaces the pawn of the side to move on the square named `position`
    /// by the piece named `piece` (`q`, `r`, `b` or `n`) of the same side.
    /// Returns whether it did; any other request changes nothing.
    pub fn set_promotion(&mut self, position: &str, piece: &str) -> (applied: bool)
        ensures
            (final(self)@, applied) == promote(old(self)@, position@, piece@),
    {
        proof {
            use_type_invariant(&*self);
        }
        let (f, r) = match parse_square(position) {
            Some(x) => x,
            None => {
                return false;
            },
        };
        let sq = r * 8 + f;
        let active = self.active_colour;
        match self.board[sq] {
            Some(Piece::Pawn(c)) => {
                if c != active {
                    return false;
                }
            },
            _ => {
                return false;
            },
        }
        if piece.unicode_len() != 1 {
            return false;
        }
        let letter = piece.get_char(0);
        let promoted = match letter {
            'q' => Piece::Queen(active),
            'r' => Piece::Rook(active),
            'b' => Piece::Bishop(active),
            'n' => Piece::Knight(active),
            _ => {
                proof {
                    assert(piece@ != seq!['q'] && piece@ != seq!['r']);
                    assert(piece@ != seq!['b'] && piece@ != seq!['n']);
                }
                return false;
            },
        };
        proof {
            assert(piece@ =~= seq![letter]);
        }
        let mut board = self.board;
        board[sq] = Some(promoted);
        proof {
            lemma_one_king_update(self.board@, sq as int, Some(promoted), Colour::White);
            lemma_one_king_update(self.board@, sq as int, Some(promoted), Colour::Black);
            assert(board@ == self.board@.update(sq as int, Some(promoted)));
        }
        *self = Game { state: self.state, active_colour: active, board };
        true
    }

    /// Whether the side `checking_for` has no legal move at all, whether or
    /// not its king is attacked.
    pub fn checkmate_checker(&self, checking_for: Colour) -> (r: bool)
        ensures
            r == !has_legal_move(self@.board, checking_for),
    {
        proof {
            use_type_invariant(self);
        }
        !has_any_legal_move(&self.board, checking_for)
    }

    /// The names of the pseudo-legal destinations, on `board`, of the piece
    /// of `checking_for` on the square named `position`.
    pub fn get_possible_moves(&self, board: Board, position: &str, checking_for: Colour) -> (r:
        Result<Vec<String>, ChessError>)
        ensures
            !valid_notation(position@) <==> r == Err::<Vec<String>, ChessError>(
                ChessError::InvalidNotation,
            ),
            r is Ok <==> valid_notation(position@) && owned_by(
                board@,
                square_of(position@),
                checking_for,
            ),
            valid_notation(position@) ==> {
                let from = square_of(position@);
                &&& board@[from] is None <==> r == Err::<Vec<String>, ChessError>(
                    ChessError::EmptySquare,
                )
                &&& (board@[from] is Some && colour_of(board@[from]->0) != checking_for) <==> r
                    == Err::<Vec<String>, ChessError>(ChessError::WrongOwner)
                &&& r is Ok ==> forall|t: int|
                    is_square(t) ==> (names_of(r->Ok_0@).contains(#[trigger] notation_of(t))
                        <==> pseudo_move(board@, from, t))
            },
            r is Ok ==> forall|i: int|
                0 <= i < r->Ok_0@.len() ==> valid_notation(#[trigger] r->Ok_0@[i]@),
    {
        let (f, r) = match parse_square(position) {
            Some(x) => x,
            None => {
                return Err(ChessError::InvalidNotation);
            },
        };
        let from = r * 8 + f;
        let moves = match pseudo_legal_moves(&board, from, checking_for) {
            Ok(v) => v,
            Err(e) => {
                return Err(e);
            },
        };
        proof {
            assert forall|i: int| 0 <= i < moves@.len() implies moves@[i] < 64 by {
                assert(moves@.contains(moves@[i]));
                lemma_pseudo_move_target(board@, from as int, moves@[i] as int);
            }
        }
        let names = square_names(&moves);
        proof {
            assert forall|t: int| is_square(t) implies (names_of(names@).contains(
                #[trigger] notation_of(t),
            ) <==> pseudo_move(board@, from as int, t)) by {
                assert(names_of(names@).contains(notation_of((t as usize) as int)) <==> moves@.contains(t as usize));
            }
        }
        Ok(names)
    }

    /// The names of the legal destinations of the piece of the side to move
    /// on the square named `position`.
    pub fn get_legal_moves(&self, position: &str) -> (r: Result<Vec<String>, ChessError>)
        ensures
            !valid_notation(position@) <==> r == Err::<Vec<String>, ChessError>(
                ChessError::InvalidNotation,
            ),
            r is Ok <==> valid_notation(position@) && owned_by(
                self@.board,
                square_of(position@),
                self@.active,
            ),
            valid_notation(position@) ==> {
                let from = square_of(position@);
                &&& self@.board[from] is None <==> r == Err::<Vec<String>, ChessError>(
                    ChessError::EmptySquare,
                )
                &&& (self@.board[from] is Some && colour_of(self@.board[from]->0) != self@.active)
                    <==> r == Err::<Vec<String>, ChessError>(ChessError::WrongOwner)
                &&& r is Ok ==> forall|t: int|
                    is_square(t) ==> (names_of(r->Ok_0@).contains(#[trigger] notation_of(t))
                        <==> legal_move(self@.board, from, t))
            },
            r is Ok ==> forall|i: int|
                0 <= i < r->Ok_0@.len() ==> valid_notation(#[trigger] r->Ok_0@[i]@),
    {
        proof {
            use_type_invariant(self);
        }
        let (f, r) = match parse_square(position) {
            Some(x) => x,
            None => {
                return Err(ChessError::InvalidNotation);
            },
        };
        let from = r * 8 + f;
        let moves = match legal_moves(&self.board, from, self.active_colour) {
            Ok(v) => v,
            Err(e) => {
                return Err(e);
            },
        };
        proof {
            assert forall|i: int| 0 <= i < moves@.len() implies moves@[i] < 64 by {
                assert(moves@.contains(moves@[i]));
                lemma_pseudo_move_target(self.board@, from as int, moves@[i] as int);
            }
        }
        let names = square_names(&moves);
        proof {
            assert forall|t: int| is_square(t) implies (names_of(names@).contains(
                #[trigger] notation_of(t),
            ) <==> legal_move(self.board@, from as int, t)) by {
                assert(names_of(names@).contains(notation_of((t as usize) as int)) <==> moves@.contains(t as usize));
            }
        }
        Ok(names)
    }
}

} // verus!
