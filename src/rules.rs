//! King safety: check detection, move simulation, the legality filter and the
//! search for any legal move.
use vstd::prelude::*;
use crate::pieces::{ChessError, Colour, Piece, colour_of, opponent};
use crate::geometry::{
    Board, file, is_square, lemma_square_coords, lemma_square_split, on_board, owned_by,
    path_clear, pseudo_move, rank, ray_move, ray_square, scale,
};
use crate::movegen::{lemma_push_contains, pseudo_legal_moves};

verus! {

/// The first square at or after `i` that holds the king of colour `c`, or 64
/// when there is none.
pub open spec fn king_from(b: Seq<Option<Piece>>, c: Colour, i: int) -> int
    decreases 64 - i,
{
    if i >= 64 {
        64
    } else if b[i] == Some(Piece::King(c)) {
        i
    } else {
        king_from(b, c, i + 1)
    }
}

/// The square of the king of colour `c`: the first one, scanning from square 0.
pub open spec fn king_square(b: Seq<Option<Piece>>, c: Colour) -> int {
    king_from(b, c, 0)
}

/// The board holds a king of colour `c`.
pub open spec fn has_king(b: Seq<Option<Piece>>, c: Colour) -> bool {
    exists|s: int| is_square(s) && #[trigger] b[s] == Some(Piece::King(c))
}

/// The board holds exactly one king of colour `c`.
pub open spec fn one_king(b: Seq<Option<Piece>>, c: Colour) -> bool {
    &&& has_king(b, c)
    &&& forall|s: int, t: int|
        is_square(s) && is_square(t) && #[trigger] b[s] == Some(Piece::King(c)) && #[trigger] b[t]
            == Some(Piece::King(c)) ==> s == t
}

/// Some piece of colour `c` has `sq` among its pseudo-legal destinations.
pub open spec fn attacked_by(b: Seq<Option<Piece>>, sq: int, c: Colour) -> bool {
    exists|from: int| is_square(from) && owned_by(b, from, c) && #[trigger] pseudo_move(b, from, sq)
}

/// The king of colour `c` is attacked by a piece of the other colour.
pub open spec fn in_check(b: Seq<Option<Piece>>, c: Colour) -> bool {
    is_square(king_square(b, c)) && attacked_by(b, king_square(b, c), opponent(c))
}

/// The board after the piece on `from` moves to `to`.
pub open spec fn after_move(b: Seq<Option<Piece>>, from: int, to: int) -> Seq<Option<Piece>> {
    b.update(to, b[from]).update(from, None)
}

/// A pseudo-legal move that leaves the mover's king unattacked.
pub open spec fn legal_move(b: Seq<Option<Piece>>, from: int, to: int) -> bool {
    pseudo_move(b, from, to) && !in_check(after_move(b, from, to), colour_of(b[from]->0))
}

/// Some piece of colour `c` has a legal move.
pub open spec fn has_legal_move(b: Seq<Option<Piece>>, c: Colour) -> bool {
    exists|from: int, to: int|
        is_square(from) && owned_by(b, from, c) && #[trigger] legal_move(b, from, to)
}

/// The scan for a king ends on that king when the board has one.
pub proof fn lemma_king_from(b: Seq<Option<Piece>>, c: Colour, i: int)
    requires
        0 <= i <= 64,
    ensures
        i <= king_from(b, c, i) <= 64,
        king_from(b, c, i) < 64 ==> b[king_from(b, c, i)] == Some(Piece::King(c)),
        (exists|s: int| i <= s < 64 && #[trigger] b[s] == Some(Piece::King(c))) ==> king_from(
            b,
            c,
            i,
        ) < 64,
    decreases 64 - i,
{
    if i < 64 {
        lemma_king_from(b, c, i + 1);
        if exists|s: int| i <= s < 64 && #[trigger] b[s] == Some(Piece::King(c)) {
            let s = choose|s: int| i <= s < 64 && #[trigger] b[s] == Some(Piece::King(c));
            if s > i {
                assert(b[s] == Some(Piece::King(c)) && i + 1 <= s < 64);
            }
        }
    }
}

/// A pseudo-legal move never lands on a piece of the mover's own side.
pub proof fn lemma_pseudo_move_target(b: Seq<Option<Piece>>, from: int, to: int)
    requires
        is_square(from),
        b[from] is Some,
        pseudo_move(b, from, to),
    ensures
        is_square(to),
        to != from,
        !owned_by(b, to, colour_of(b[from]->0)),
{
}

/// Writing a value other than the king of colour `c` over a square that does
/// not hold that king keeps it the only one.
pub proof fn lemma_one_king_update(b: Seq<Option<Piece>>, s: int, v: Option<Piece>, c: Colour)
    requires
        b.len() == 64,
        is_square(s),
        one_king(b, c),
        b[s] != Some(Piece::King(c)),
        v != Some(Piece::King(c)),
    ensures
        one_king(b.update(s, v), c),
{
    let k = choose|k: int| is_square(k) && #[trigger] b[k] == Some(Piece::King(c));
    assert(b.update(s, v)[k] == Some(Piece::King(c)));
}

/// A move onto a square that does not hold the king of colour `c` keeps that
/// king the only one, whether or not it is the piece that moves.
pub proof fn lemma_one_king_after_move(b: Seq<Option<Piece>>, from: int, to: int, c: Colour)
    requires
        b.len() == 64,
        is_square(from),
        is_square(to),
        from != to,
        one_king(b, c),
        b[to] != Some(Piece::King(c)),
    ensures
        one_king(after_move(b, from, to), c),
{
    let a = after_move(b, from, to);
    if b[from] == Some(Piece::King(c)) {
        assert(a[to] == Some(Piece::King(c)));
        assert forall|s: int, t: int|
            is_square(s) && is_square(t) && #[trigger] a[s] == Some(Piece::King(c)) && #[trigger] a[t]
                == Some(Piece::King(c)) implies s == t by {
            if s != to {
                assert(b[s] == Some(Piece::King(c)));
            }
            if t != to {
                assert(b[t] == Some(Piece::King(c)));
            }
        }
    } else {
        lemma_one_king_update(b, to, b[from], c);
        lemma_one_king_update(b.update(to, b[from]), from, None, c);
    }
}

/// A rook that stands between its own king and an enemy rook on one file,
/// with every other square between them empty, has no legal move off that
/// file: leaving it would expose the king.
pub proof fn lemma_pinned_rook_stays_on_file(
    b: Seq<Option<Piece>>,
    king: int,
    sr: int,
    i: int,
    j: int,
    to: int,
)
    requires
        b.len() == 64,
        is_square(king),
        b[king] is Some && b[king]->0 is King,
        one_king(b, colour_of(b[king]->0)),
        sr == 1 || sr == -1,
        0 < i < j,
        on_board(file(king), rank(king) + scale(sr, j)),
        b[ray_square(king, 0, sr, i)] == Some(Piece::Rook(colour_of(b[king]->0))),
        b[ray_square(king, 0, sr, j)] == Some(Piece::Rook(opponent(colour_of(b[king]->0)))),
        forall|m: int| 1 <= m < j && m != i ==> #[trigger] b[ray_square(king, 0, sr, m)] is None,
        pseudo_move(b, ray_square(king, 0, sr, i), to),
        file(to) != file(king),
    ensures
        !legal_move(b, ray_square(king, 0, sr, i), to),
{
    let c = colour_of(b[king]->0);
    let rook = ray_square(king, 0, sr, i);
    let enemy = ray_square(king, 0, sr, j);
    lemma_square_split(king);
    lemma_square_coords(file(king), rank(king) + scale(sr, i));
    lemma_square_coords(file(king), rank(king) + scale(sr, j));
    lemma_pseudo_move_target(b, rook, to);
    let a = after_move(b, rook, to);
    // The king is still the only one of its colour, so the scan finds it.
    lemma_king_from(a, c, 0);
    assert(a[king] == Some(Piece::King(c)));
    assert(king_square(a, c) == king) by {
        let k = king_square(a, c);
        if k != king {
            assert(a[k] == Some(Piece::King(c)));
            assert(b[k] == Some(Piece::King(c)));
        }
    }
    // The enemy rook now sees the king down the file.
    assert(a[enemy] == b[enemy]);
    assert forall|m: int| 1 <= m < j implies #[trigger] a[ray_square(enemy, 0, -sr, m)] is None by {
        lemma_square_coords(file(king), rank(king) + scale(sr, j - m));
        assert(ray_square(enemy, 0, -sr, m) == ray_square(king, 0, sr, j - m));
        if j - m != i {
            assert(b[ray_square(king, 0, sr, j - m)] is None);
        }
    }
    assert(path_clear(a, enemy, 0, -sr, j));
    assert(ray_move(a, enemy, 0, -sr, king));
    assert(owned_by(a, enemy, opponent(c)));
    assert(pseudo_move(a, enemy, king));
    assert(in_check(a, c));
}

fn is_king_of(sq: Option<Piece>, c: Colour) -> (r: bool)
    ensures
        r == (sq == Some(Piece::King(c))),
{
    match sq {
        Some(Piece::King(k)) => k == c,
        _ => false,
    }
}

pub(crate) fn contains_square(v: &Vec<usize>, s: usize) -> (r: bool)
    ensures
        r == v@.contains(s),
{
    let mut i: usize = 0;
    while i < v.len()
        invariant
            0 <= i <= v.len(),
            forall|j: int| 0 <= j < i ==> v@[j] != s,
        decreases v.len() - i,
    {
        if v[i] == s {
            return true;
        }
        i = i + 1;
    }
    false
}

/// The square of the king of colour `c`, which must be on the board.
fn find_king(board: &Board, c: Colour) -> (r: usize)
    requires
        has_king(board@, c),
    ensures
        r == king_square(board@, c),
        r < 64,
{
    proof {
        lemma_king_from(board@, c, 0);
    }
    let mut i: usize = 0;
    while i < 64
        invariant
            0 <= i <= 64,
            king_from(board@, c, i as int) == king_square(board@, c),
            king_square(board@, c) < 64,
        decreases 64 - i,
    {
        if is_king_of(board[i], c) {
            return i;
        }
        i = i + 1;
    }
    proof {
        lemma_king_from(board@, c, 64);
    }
    i
}

/// Whether the king of colour `colour` is attacked: whether any piece of the
/// other side has the king's square among its pseudo-legal destinations.
pub fn is_in_check(board: &Board, colour: Colour) -> (r: bool)
    requires
        one_king(board@, colour),
    ensures
        r == in_check(board@, colour),
{
    let king = find_king(board, colour);
    let enemy = colour.other();
    let mut from: usize = 0;
    while from < 64
        invariant
            0 <= from <= 64,
            king == king_square(board@, colour),
            king < 64,
            enemy == opponent(colour),
            forall|f: int|
                0 <= f < from ==> !(owned_by(board@, f, enemy) && #[trigger] pseudo_move(
                    board@,
                    f,
                    king as int,
                )),
        decreases 64 - from,
    {
        match pseudo_legal_moves(board, from, enemy) {
            Ok(moves) => {
                if contains_square(&moves, king) {
                    return true;
                }
            },
            Err(_) => {},
        }
        from = from + 1;
    }
    false
}

/// The board after the piece on `from` moves to `to`; `board` is left as it is.
pub fn simulate_move(board: &Board, from: usize, to: usize) -> (r: Board)
    requires
        from < 64,
        to < 64,
    ensures
        r@ == after_move(board@, from as int, to as int),
{
    let mut next: Board = *board;
    next[to] = board[from];
    next[from] = None;
    proof {
        assert(next@ =~= after_move(board@, from as int, to as int));
    }
    next
}

/// The legal destinations of the piece on `from`, which must belong to
/// `colour`: its pseudo-legal destinations after which the king of `colour`
/// is not attacked.
pub fn legal_moves(board: &Board, from: usize, colour: Colour) -> (r: Result<Vec<usize>, ChessError>)
    requires
        from < 64,
        one_king(board@, colour),
    ensures
        board@[from as int] is None <==> r == Err::<Vec<usize>, ChessError>(ChessError::EmptySquare),
        (board@[from as int] is Some && colour_of(board@[from as int]->0) != colour) <==> r == Err::<
            Vec<usize>,
            ChessError,
        >(ChessError::WrongOwner),
        r is Ok <==> owned_by(board@, from as int, colour),
        r is Ok ==> forall|t: usize| #[trigger]
            r->Ok_0@.contains(t) <==> legal_move(board@, from as int, t as int),
{
    let candidates = match pseudo_legal_moves(board, from, colour) {
        Ok(v) => v,
        Err(e) => {
            return Err(e);
        },
    };
    let mut out: Vec<usize> = Vec::new();
    proof {
        lemma_push_contains(out@, 0usize);
    }
    let mut i: usize = 0;
    while i < candidates.len()
        invariant
            0 <= i <= candidates.len(),
            from < 64,
            owned_by(board@, from as int, colour),
            one_king(board@, colour),
            forall|t: usize| #[trigger]
                candidates@.contains(t) <==> pseudo_move(board@, from as int, t as int),
            forall|t: usize| #[trigger]
                out@.contains(t) <==> (candidates@.subrange(0, i as int).contains(t) && legal_move(
                    board@,
                    from as int,
                    t as int,
                )),
        decreases candidates.len() - i,
    {
        let to = candidates[i];
        proof {
            assert(candidates@.contains(to));
            lemma_pseudo_move_target(board@, from as int, to as int);
            lemma_one_king_after_move(board@, from as int, to as int, colour);
            assert(candidates@.subrange(0, i + 1) =~= candidates@.subrange(0, i as int).push(to));
            lemma_push_contains(candidates@.subrange(0, i as int), to);
        }
        let next = simulate_move(board, from, to);
        if !is_in_check(&next, colour) {
            proof {
                lemma_push_contains(out@, to);
            }
            out.push(to);
        }
        i = i + 1;
    }
    proof {
        assert(candidates@.subrange(0, candidates@.len() as int) =~= candidates@);
    }
    Ok(out)
}

/// Whether any piece of colour `colour` has a legal move.
pub fn has_any_legal_move(board: &Board, colour: Colour) -> (r: bool)
    requires
        one_king(board@, colour),
    ensures
        r == has_legal_move(board@, colour),
{
    let mut from: usize = 0;
    while from < 64
        invariant
            0 <= from <= 64,
            one_king(board@, colour),
            forall|f: int, t: int|
                0 <= f < from && owned_by(board@, f, colour) ==> !#[trigger] legal_move(
                    board@,
                    f,
                    t,
                ),
        decreases 64 - from,
    {
        match legal_moves(board, from, colour) {
            Ok(moves) => {
                if moves.len() > 0 {
                    proof {
                        assert(moves@.contains(moves@[0]));
                        assert(legal_move(board@, from as int, moves@[0] as int));
                    }
                    return true;
                }
                proof {
                    assert forall|t: int| !legal_move(board@, from as int, t) by {
                        if legal_move(board@, from as int, t) {
                            lemma_pseudo_move_target(board@, from as int, t);
                            assert(moves@.contains(t as usize));
                        }
                    }
                }
            },
            Err(_) => {},
        }
        from = from + 1;
    }
    false
}

} // verus!
