use chess::{
    has_any_legal_move, is_in_check, legal_moves, pseudo_legal_moves, simulate_move, Board,
    ChessError, Colour, Game, GameState, Piece,
};

fn sq(name: &str) -> usize {
    let (file, rank) = Game::convert_from_notation(name).unwrap();
    (rank * 8 + file) as usize
}

fn sorted(mut v: Vec<usize>) -> Vec<usize> {
    v.sort();
    v.dedup();
    v
}

fn squares(names: &[&str]) -> Vec<usize> {
    sorted(names.iter().map(|n| sq(n)).collect())
}

fn empty_board() -> Board {
    [None; 64]
}

fn names_sorted(mut v: Vec<String>) -> Vec<String> {
    v.sort();
    v
}

#[test]
fn notation_round_trip_all_squares() {
    for letter in ['a', 'b', 'c', 'd', 'e', 'f', 'g', 'h'] {
        for digit in ['1', '2', '3', '4', '5', '6', '7', '8'] {
            let name: String = [letter, digit].iter().collect();
            let (file, rank) = Game::convert_from_notation(&name).unwrap();
            assert_eq!(Game::convert_to_notation(rank * 8 + file), name);
        }
    }
    for index in 0..64 {
        let (file, rank) = Game::convert_from_notation(&Game::convert_to_notation(index)).unwrap();
        assert_eq!(rank * 8 + file, index);
    }
}

#[test]
fn notation_values() {
    assert_eq!(Game::convert_from_notation("a1"), Ok((7, 0)));
    assert_eq!(Game::convert_from_notation("h1"), Ok((0, 0)));
    assert_eq!(Game::convert_from_notation("e2"), Ok((3, 1)));
    assert_eq!(Game::convert_from_notation("d8"), Ok((4, 7)));
    assert_eq!(Game::convert_to_notation(59), "e8");
    assert_eq!(Game::convert_to_notation(0), "h1");
    assert_eq!(Game::convert_to_notation(63), "a8");
}

#[test]
fn notation_rejects_malformed_names() {
    for bad in ["", "a", "e", "i1", "a0", "a9", "A1", "a10", "1a", "e2 ", "\u{e9}1"] {
        assert_eq!(Game::convert_from_notation(bad), Err(ChessError::InvalidNotation), "{bad}");
    }
}

#[test]
fn initial_state() {
    let game = Game::new();
    assert_eq!(game.get_game_state(), GameState::InProgress);
    assert_eq!(game.active_colour(), Colour::White);
    let board = game.board();
    assert_eq!(board[sq("e1")], Some(Piece::King(Colour::White)));
    assert_eq!(board[sq("d1")], Some(Piece::Queen(Colour::White)));
    assert_eq!(board[sq("e8")], Some(Piece::King(Colour::Black)));
    assert_eq!(board[sq("b8")], Some(Piece::Knight(Colour::Black)));
    assert_eq!(board[sq("c2")], Some(Piece::Pawn(Colour::White)));
    assert_eq!(board[sq("c7")], Some(Piece::Pawn(Colour::Black)));
    assert_eq!(board[sq("c4")], None);
    assert_eq!(board.iter().filter(|p| p.is_some()).count(), 32);
    for rook in ["a1", "h1"] {
        assert_eq!(game.get_possible_moves(board, rook, Colour::White), Ok(vec![]));
    }
    for rook in ["a8", "h8"] {
        assert_eq!(game.get_possible_moves(board, rook, Colour::Black), Ok(vec![]));
    }
    assert!(!is_in_check(&board, Colour::White));
    assert!(has_any_legal_move(&board, Colour::White));
}

#[test]
fn initial_moves() {
    let game = Game::new();
    let board = game.board();
    assert_eq!(
        names_sorted(game.get_possible_moves(board, "e2", Colour::White).unwrap()),
        vec!["e3".to_string(), "e4".to_string()]
    );
    assert_eq!(
        names_sorted(game.get_legal_moves("g1").unwrap()),
        vec!["f3".to_string(), "h3".to_string()]
    );
    let total: usize = (0..64)
        .filter_map(|i| legal_moves(&board, i, Colour::White).ok())
        .map(|v| v.len())
        .sum();
    assert_eq!(total, 20);
}

#[test]
fn piece_colour() {
    let game = Game::new();
    assert_eq!(game.get_piece_colour(3), Some(Colour::White));
    assert_eq!(game.get_piece_colour(59), Some(Colour::Black));
    assert_eq!(game.get_piece_colour(30), None);
}

#[test]
fn generator_reports_empty_and_foreign_squares() {
    let game = Game::new();
    let board = game.board();
    assert_eq!(pseudo_legal_moves(&board, sq("e4"), Colour::White), Err(ChessError::EmptySquare));
    assert_eq!(pseudo_legal_moves(&board, sq("e7"), Colour::White), Err(ChessError::WrongOwner));
    assert_eq!(game.get_possible_moves(board, "e9", Colour::White), Err(ChessError::InvalidNotation));
    assert_eq!(game.get_legal_moves("e7"), Err(ChessError::WrongOwner));
    assert_eq!(game.get_legal_moves("e5"), Err(ChessError::EmptySquare));
}

#[test]
fn pawn_double_push_blocked() {
    for blocker in [Piece::Knight(Colour::Black), Piece::Knight(Colour::White)] {
        let mut board = empty_board();
        board[sq("e2")] = Some(Piece::Pawn(Colour::White));
        board[sq("e4")] = Some(blocker);
        let moves = pseudo_legal_moves(&board, sq("e2"), Colour::White).unwrap();
        assert_eq!(sorted(moves), squares(&["e3"]));
    }
    let mut board = empty_board();
    board[sq("d7")] = Some(Piece::Pawn(Colour::Black));
    board[sq("d5")] = Some(Piece::Pawn(Colour::White));
    let moves = pseudo_legal_moves(&board, sq("d7"), Colour::Black).unwrap();
    assert_eq!(sorted(moves), squares(&["d6"]));
}

#[test]
fn pawn_blocked_one_ahead_has_no_push() {
    let mut board = empty_board();
    board[sq("e2")] = Some(Piece::Pawn(Colour::White));
    board[sq("e3")] = Some(Piece::Pawn(Colour::Black));
    let moves = pseudo_legal_moves(&board, sq("e2"), Colour::White).unwrap();
    assert_eq!(moves, vec![]);
}

#[test]
fn pawn_captures_only_enemies() {
    let mut board = empty_board();
    board[sq("e4")] = Some(Piece::Pawn(Colour::White));
    board[sq("d5")] = Some(Piece::Rook(Colour::Black));
    board[sq("f5")] = Some(Piece::Rook(Colour::White));
    let moves = pseudo_legal_moves(&board, sq("e4"), Colour::White).unwrap();
    assert_eq!(sorted(moves), squares(&["e5", "d5"]));
    // A pawn on the edge file does not wrap round to the other edge.
    let mut board = empty_board();
    board[sq("h2")] = Some(Piece::Pawn(Colour::White));
    board[sq("a4")] = Some(Piece::Pawn(Colour::Black));
    board[sq("g3")] = Some(Piece::Pawn(Colour::Black));
    let moves = pseudo_legal_moves(&board, sq("h2"), Colour::White).unwrap();
    assert_eq!(sorted(moves), squares(&["h3", "h4", "g3"]));
}

#[test]
fn rook_capture_or_block() {
    let mut board = empty_board();
    board[sq("h1")] = Some(Piece::Rook(Colour::White));
    board[sq("e1")] = Some(Piece::Bishop(Colour::Black));
    board[sq("h2")] = Some(Piece::Pawn(Colour::White));
    let moves = pseudo_legal_moves(&board, sq("h1"), Colour::White).unwrap();
    assert_eq!(sorted(moves), squares(&["g1", "f1", "e1"]));

    board[sq("e1")] = Some(Piece::Bishop(Colour::White));
    let moves = pseudo_legal_moves(&board, sq("h1"), Colour::White).unwrap();
    assert_eq!(sorted(moves), squares(&["g1", "f1"]));
}

#[test]
fn sliding_pieces_on_open_board() {
    let mut board = empty_board();
    board[sq("d4")] = Some(Piece::Rook(Colour::White));
    let moves = pseudo_legal_moves(&board, sq("d4"), Colour::White).unwrap();
    assert_eq!(moves.len(), 14);
    board[sq("d4")] = Some(Piece::Bishop(Colour::White));
    let moves = pseudo_legal_moves(&board, sq("d4"), Colour::White).unwrap();
    assert_eq!(moves.len(), 13);
    board[sq("d4")] = Some(Piece::Queen(Colour::White));
    let moves = pseudo_legal_moves(&board, sq("d4"), Colour::White).unwrap();
    assert_eq!(moves.len(), 27);
    // Diagonals from a corner do not wrap round the edge.
    let mut board = empty_board();
    board[sq("h1")] = Some(Piece::Bishop(Colour::Black));
    let moves = pseudo_legal_moves(&board, sq("h1"), Colour::Black).unwrap();
    assert_eq!(sorted(moves), squares(&["g2", "f3", "e4", "d5", "c6", "b7", "a8"]));
}

#[test]
fn knight_and_king_stay_on_board() {
    let mut board = empty_board();
    board[sq("h1")] = Some(Piece::Knight(Colour::White));
    board[sq("f2")] = Some(Piece::Pawn(Colour::White));
    board[sq("g3")] = Some(Piece::Pawn(Colour::Black));
    let moves = pseudo_legal_moves(&board, sq("h1"), Colour::White).unwrap();
    assert_eq!(sorted(moves), squares(&["g3"]));

    let mut board = empty_board();
    board[sq("d4")] = Some(Piece::Knight(Colour::White));
    assert_eq!(pseudo_legal_moves(&board, sq("d4"), Colour::White).unwrap().len(), 8);

    let mut board = empty_board();
    board[sq("a8")] = Some(Piece::King(Colour::Black));
    board[sq("b8")] = Some(Piece::Rook(Colour::Black));
    let moves = pseudo_legal_moves(&board, sq("a8"), Colour::Black).unwrap();
    assert_eq!(sorted(moves), squares(&["a7", "b7"]));
}

#[test]
fn pinned_rook_keeps_the_file_blocked() {
    let mut board = empty_board();
    board[sq("e1")] = Some(Piece::King(Colour::White));
    board[sq("e2")] = Some(Piece::Rook(Colour::White));
    board[sq("e8")] = Some(Piece::Rook(Colour::Black));
    board[sq("a8")] = Some(Piece::King(Colour::Black));
    let pseudo = pseudo_legal_moves(&board, sq("e2"), Colour::White).unwrap();
    assert!(pseudo.contains(&sq("a2")));
    let legal = legal_moves(&board, sq("e2"), Colour::White).unwrap();
    assert_eq!(sorted(legal), squares(&["e3", "e4", "e5", "e6", "e7", "e8"]));
}

#[test]
fn king_may_not_step_into_attack() {
    let mut board = empty_board();
    board[sq("e1")] = Some(Piece::King(Colour::White));
    board[sq("d8")] = Some(Piece::Rook(Colour::Black));
    board[sq("a8")] = Some(Piece::King(Colour::Black));
    let legal = legal_moves(&board, sq("e1"), Colour::White).unwrap();
    assert_eq!(sorted(legal), squares(&["e2", "f1", "f2"]));
}

#[test]
fn pawn_gives_check() {
    let mut board = empty_board();
    board[sq("e1")] = Some(Piece::King(Colour::White));
    board[sq("d2")] = Some(Piece::Pawn(Colour::Black));
    board[sq("a8")] = Some(Piece::King(Colour::Black));
    assert!(is_in_check(&board, Colour::White));
    board[sq("d2")] = None;
    board[sq("e2")] = Some(Piece::Pawn(Colour::Black));
    assert!(!is_in_check(&board, Colour::White));
}

#[test]
fn simulation_leaves_board_alone() {
    let board = Game::new().board();
    let next = simulate_move(&board, sq("e2"), sq("e4"));
    assert_eq!(next[sq("e4")], Some(Piece::Pawn(Colour::White)));
    assert_eq!(next[sq("e2")], None);
    assert_eq!(board[sq("e2")], Some(Piece::Pawn(Colour::White)));
    assert_eq!(board[sq("e4")], None);
}

#[test]
fn fools_mate() {
    let mut game = Game::new();
    assert_eq!(game.make_move("g2", "g4"), (GameState::InProgress, Ok(())));
    assert_eq!(game.active_colour(), Colour::Black);
    assert_eq!(game.make_move("e7", "e5"), (GameState::InProgress, Ok(())));
    assert_eq!(game.make_move("f2", "f3"), (GameState::InProgress, Ok(())));
    assert_eq!(game.make_move("d8", "h4"), (GameState::CheckMate, Ok(())));
    assert_eq!(game.get_game_state(), GameState::CheckMate);
    assert_eq!(game.active_colour(), Colour::White);
    let board = game.board();
    assert!(is_in_check(&board, Colour::White));
    assert!(!has_any_legal_move(&board, Colour::White));
    assert!(game.checkmate_checker(Colour::White));
    assert!(!game.checkmate_checker(Colour::Black));
    assert_eq!(game.make_move("e2", "e3"), (GameState::CheckMate, Err(ChessError::GameOver)));
    assert_eq!(game.board(), board);
}

#[test]
fn check_that_can_be_answered() {
    let mut game = Game::new();
    assert_eq!(game.make_move("e2", "e4"), (GameState::InProgress, Ok(())));
    assert_eq!(game.make_move("f7", "f6"), (GameState::InProgress, Ok(())));
    assert_eq!(game.make_move("d1", "h5"), (GameState::Check, Ok(())));
    // A move that leaves the king attacked is refused.
    assert_eq!(game.make_move("a7", "a6"),
        (GameState::Check, Err(ChessError::IllegalDestination)));
    assert_eq!(game.get_game_state(), GameState::Check);
    assert_eq!(game.make_move("g7", "g6"), (GameState::InProgress, Ok(())));
}

#[test]
fn rejected_moves_change_nothing() {
    let mut game = Game::new();
    let board = game.board();
    for _ in 0..2 {
        assert_eq!(game.make_move("e2", "e5"), (GameState::InProgress, Err(ChessError::IllegalDestination)));
        assert_eq!(game.board(), board);
        assert_eq!(game.get_game_state(), GameState::InProgress);
        assert_eq!(game.active_colour(), Colour::White);
    }
    assert_eq!(game.make_move("e4", "e5"), (GameState::InProgress, Err(ChessError::EmptySquare)));
    assert_eq!(game.make_move("e7", "e6"), (GameState::InProgress, Err(ChessError::WrongOwner)));
    assert_eq!(game.make_move("z9", "e4"), (GameState::InProgress, Err(ChessError::InvalidNotation)));
    assert_eq!(game.make_move("e2", "e44"), (GameState::InProgress, Err(ChessError::InvalidNotation)));
    assert_eq!(game.make_move("a1", "a2"), (GameState::InProgress, Err(ChessError::IllegalDestination)));
    assert_eq!(game.board(), board);
}

#[test]
fn owned_piece_always_lists_its_moves() {
    let game = Game::new();
    let board = game.board();
    for index in 0..64 {
        let name = Game::convert_to_notation(index);
        for colour in [Colour::White, Colour::Black] {
            let owned = game.get_piece_colour(index) == Some(colour);
            assert_eq!(game.get_possible_moves(board, &name, colour).is_ok(), owned);
        }
        let mine = game.get_piece_colour(index) == Some(Colour::White);
        assert_eq!(game.get_legal_moves(&name).is_ok(), mine);
    }
}

#[test]
fn king_capture_is_refused() {
    let mut game = Game::new();
    assert!(game.make_move("h2", "h4").1.is_ok());
    assert!(game.make_move("f7", "f6").1.is_ok());
    assert!(game.make_move("h4", "h5").1.is_ok());
    assert!(game.make_move("a7", "a6").1.is_ok());
    assert!(game.set_promotion("h5", "q"));
    let board = game.board();
    assert!(is_in_check(&board, Colour::Black));
    assert_eq!(game.make_move("h5", "e8"),
        (GameState::InProgress, Err(ChessError::InvariantViolation)));
    assert_eq!(game.board(), board);
}

#[test]
fn promotion() {
    let mut game = Game::new();
    assert!(game.set_promotion("e2", "q"));
    assert_eq!(game.board()[sq("e2")], Some(Piece::Queen(Colour::White)));
    assert!(game.set_promotion("d2", "n"));
    assert_eq!(game.board()[sq("d2")], Some(Piece::Knight(Colour::White)));
    assert!(game.set_promotion("c2", "r"));
    assert_eq!(game.board()[sq("c2")], Some(Piece::Rook(Colour::White)));
    assert!(game.set_promotion("b2", "b"));
    assert_eq!(game.board()[sq("b2")], Some(Piece::Bishop(Colour::White)));
    let board = game.board();
    // Not a pawn, not the mover's pawn, not a piece letter, not a square.
    assert!(!game.set_promotion("e1", "q"));
    assert!(!game.set_promotion("e7", "q"));
    assert!(!game.set_promotion("a2", "k"));
    assert!(!game.set_promotion("a2", "qq"));
    assert!(!game.set_promotion("a9", "q"));
    assert_eq!(game.board(), board);
    assert_eq!(game.active_colour(), Colour::White);
}

#[test]
fn board_drawing() {
    let game = Game::new();
    let text = game.board_string();
    let lines: Vec<&str> = text.split('\n').collect();
    assert_eq!(lines.len(), 10);
    assert_eq!(lines[0], "");
    assert_eq!(lines[1], "\u{2656} \u{2658} \u{2657} \u{2654} \u{2655} \u{2657} \u{2658} \u{2656} ");
    assert_eq!(lines[2], "\u{2659} ".repeat(8));
    assert_eq!(lines[3], "* ".repeat(8));
    assert_eq!(lines[9], "");
}
