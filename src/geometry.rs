//! Squares of the board and the movement rules of each piece, stated over a
//! board seen as a sequence of 64 optional pieces.
//!
//! Square `s` lies on file `s % 8` and rank `s / 8`; rank 0 is White's back rank.
use vstd::prelude::*;
use crate::pieces::{Colour, Piece, colour_of};

verus! {

/// The board: 64 squares, each empty or holding one piece.
pub type Board = [Option<Piece>; 64];

pub open spec fn file(s: int) -> int {
    s % 8
}

pub open spec fn rank(s: int) -> int {
    s / 8
}

pub open spec fn square_at(f: int, r: int) -> int {
    r * 8 + f
}

pub open spec fn on_board(f: int, r: int) -> bool {
    0 <= f < 8 && 0 <= r < 8
}

pub open spec fn is_square(s: int) -> bool {
    0 <= s < 64
}

pub open spec fn abs(x: int) -> int {
    if x < 0 { -x } else { x }
}

/// `k` steps along one axis in direction `s` (negative, zero or positive).
pub open spec fn scale(s: int, k: int) -> int {
    if s > 0 { k } else if s < 0 { -k } else { 0 }
}

/// Whether square `s` holds a piece of colour `c`.
pub open spec fn owned_by(b: Seq<Option<Piece>>, s: int, c: Colour) -> bool {
    b[s] is Some && colour_of(b[s]->0) == c
}

/// The piece on `from` may end on `to`: `to` is empty or holds an enemy piece.
pub open spec fn can_land(b: Seq<Option<Piece>>, from: int, to: int) -> bool {
    b[to] is None || colour_of(b[to]->0) != colour_of(b[from]->0)
}

/// `to` lies `df` files and `dr` ranks away from `from`.
pub open spec fn offset_is(from: int, to: int, df: int, dr: int) -> bool {
    is_square(to) && file(to) - file(from) == df && rank(to) - rank(from) == dr
}

/// A single jump by `(df, dr)` onto a square that is empty or holds an enemy.
pub open spec fn step_move(b: Seq<Option<Piece>>, from: int, df: int, dr: int, to: int) -> bool {
    offset_is(from, to, df, dr) && can_land(b, from, to)
}

/// The square `j` steps from `from` in direction `(sf, sr)`.
pub open spec fn ray_square(from: int, sf: int, sr: int, j: int) -> int {
    square_at(file(from) + scale(sf, j), rank(from) + scale(sr, j))
}

/// The first `k - 1` squares from `from` in direction `(sf, sr)` are empty.
pub open spec fn path_clear(b: Seq<Option<Piece>>, from: int, sf: int, sr: int, k: int) -> bool {
    forall|j: int| 1 <= j < k ==> #[trigger] b[ray_square(from, sf, sr, j)] is None
}

/// The distance between two squares counted in king steps.
pub open spec fn distance(from: int, to: int) -> int {
    let df = abs(file(to) - file(from));
    let dr = abs(rank(to) - rank(from));
    if df >= dr { df } else { dr }
}

/// A slide from `from` to `to` in direction `(sf, sr)` over empty squares,
/// ending on an empty square or on an enemy piece.
pub open spec fn ray_move(b: Seq<Option<Piece>>, from: int, sf: int, sr: int, to: int) -> bool {
    let k = distance(from, to);
    &&& is_square(to)
    &&& k >= 1
    &&& file(to) - file(from) == scale(sf, k)
    &&& rank(to) - rank(from) == scale(sr, k)
    &&& path_clear(b, from, sf, sr, k)
    &&& can_land(b, from, to)
}

pub open spec fn king_move(b: Seq<Option<Piece>>, from: int, to: int) -> bool {
    is_square(to) && distance(from, to) == 1 && can_land(b, from, to)
}

pub open spec fn knight_move(b: Seq<Option<Piece>>, from: int, to: int) -> bool {
    let df = abs(file(to) - file(from));
    let dr = abs(rank(to) - rank(from));
    &&& is_square(to)
    &&& (df == 1 && dr == 2 || df == 2 && dr == 1)
    &&& can_land(b, from, to)
}

pub open spec fn rook_move(b: Seq<Option<Piece>>, from: int, to: int) -> bool {
    ||| ray_move(b, from, 0, 1, to)
    ||| ray_move(b, from, 0, -1, to)
    ||| ray_move(b, from, 1, 0, to)
    ||| ray_move(b, from, -1, 0, to)
}

pub open spec fn bishop_move(b: Seq<Option<Piece>>, from: int, to: int) -> bool {
    ||| ray_move(b, from, 1, 1, to)
    ||| ray_move(b, from, 1, -1, to)
    ||| ray_move(b, from, -1, 1, to)
    ||| ray_move(b, from, -1, -1, to)
}

/// The rank direction in which pawns of colour `c` advance.
pub open spec fn forward(c: Colour) -> int {
    match c {
        Colour::White => 1,
        Colour::Black => -1,
    }
}

/// The rank on which pawns of colour `c` start.
pub open spec fn pawn_start_rank(c: Colour) -> int {
    match c {
        Colour::White => 1,
        Colour::Black => 6,
    }
}

/// A pawn of colour `c` on `from` advancing: one step ahead onto an empty
/// square, or two steps from its starting rank over two empty squares.
pub open spec fn pawn_advance(b: Seq<Option<Piece>>, from: int, c: Colour, to: int) -> bool {
    let d = forward(c);
    ||| offset_is(from, to, 0, d) && b[to] is None
    ||| offset_is(from, to, 0, 2 * d) && rank(from) == pawn_start_rank(c) && b[from + 8 * d] is None
        && b[to] is None
}

/// A pawn of colour `c` on `from` capturing one step diagonally ahead.
pub open spec fn pawn_capture(b: Seq<Option<Piece>>, from: int, c: Colour, to: int) -> bool {
    let d = forward(c);
    &&& offset_is(from, to, 1, d) || offset_is(from, to, -1, d)
    &&& b[to] is Some
    &&& colour_of(b[to]->0) != c
}

pub open spec fn pawn_move(b: Seq<Option<Piece>>, from: int, c: Colour, to: int) -> bool {
    pawn_advance(b, from, c, to) || pawn_capture(b, from, c, to)
}

/// `to` is a pseudo-legal destination of the piece on `from`: it obeys the
/// piece's movement and the occupancy of the board, whatever it does to the
/// safety of the mover's king.
pub open spec fn pseudo_move(b: Seq<Option<Piece>>, from: int, to: int) -> bool {
    match b[from] {
        None => false,
        Some(p) => match p {
            Piece::King(_) => king_move(b, from, to),
            Piece::Queen(_) => rook_move(b, from, to) || bishop_move(b, from, to),
            Piece::Rook(_) => rook_move(b, from, to),
            Piece::Bishop(_) => bishop_move(b, from, to),
            Piece::Knight(_) => knight_move(b, from, to),
            Piece::Pawn(c) => pawn_move(b, from, c, to),
        },
    }
}

/// The file and rank of a square built from in-range coordinates.
pub proof fn lemma_square_coords(f: int, r: int)
    requires
        0 <= f < 8,
    ensures
        file(square_at(f, r)) == f,
        rank(square_at(f, r)) == r,
{
    assert((r * 8 + f) % 8 == f && (r * 8 + f) / 8 == r) by (nonlinear_arith)
        requires 0 <= f < 8;
}

/// A square is rebuilt from its file and rank.
pub proof fn lemma_square_split(s: int)
    requires
        is_square(s),
    ensures
        s == square_at(file(s), rank(s)),
        on_board(file(s), rank(s)),
{
}

/// A pawn on its starting rank whose square ahead is empty and whose square
/// two ahead is occupied may advance one square and not two: the one-square
/// push is its only destination on its own file.
pub proof fn lemma_pawn_double_push_blocked(b: Seq<Option<Piece>>, from: int, c: Colour)
    requires
        b.len() == 64,
        is_square(from),
        b[from] == Some(Piece::Pawn(c)),
        rank(from) == pawn_start_rank(c),
        b[from + 8 * forward(c)] is None,
        b[from + 16 * forward(c)] is Some,
    ensures
        pseudo_move(b, from, from + 8 * forward(c)),
        !pseudo_move(b, from, from + 16 * forward(c)),
        forall|t: int|
            is_square(t) && file(t) == file(from) ==> (#[trigger] pseudo_move(b, from, t) <==> t
                == from + 8 * forward(c)),
{
    lemma_square_split(from);
    let d = forward(c);
    lemma_square_coords(file(from), rank(from) + d);
    lemma_square_coords(file(from), rank(from) + 2 * d);
    assert forall|t: int|
        is_square(t) && file(t) == file(from) implies (#[trigger] pseudo_move(b, from, t) <==> t
            == from + 8 * d) by {
        lemma_square_split(t);
    }
}

/// A rook whose rank is open for `n` squares in direction `s` up to a piece:
/// when that piece is an enemy it may capture it, when it is a friend it may
/// not land on it, and either way it reaches nothing beyond it.
pub proof fn lemma_rook_capture_or_block(b: Seq<Option<Piece>>, from: int, s: int, n: int)
    requires
        b.len() == 64,
        is_square(from),
        b[from] is Some && b[from]->0 is Rook,
        s == 1 || s == -1,
        n >= 1,
        on_board(file(from) + scale(s, n), rank(from)),
        b[ray_square(from, s, 0, n)] is Some,
        forall|j: int| 1 <= j < n ==> #[trigger] b[ray_square(from, s, 0, j)] is None,
    ensures
        pseudo_move(b, from, ray_square(from, s, 0, n)) <==> colour_of(
            b[ray_square(from, s, 0, n)]->0,
        ) != colour_of(b[from]->0),
        forall|t: int|
            is_square(t) && rank(t) == rank(from) && file(t) - file(from) == scale(
                s,
                distance(from, t),
            ) && distance(from, t) > n ==> !#[trigger] pseudo_move(b, from, t),
{
    let target = ray_square(from, s, 0, n);
    lemma_square_split(from);
    lemma_square_coords(file(from) + scale(s, n), rank(from));
    assert(distance(from, target) == n);
    assert(path_clear(b, from, s, 0, n));
    if colour_of(b[target]->0) != colour_of(b[from]->0) {
        assert(ray_move(b, from, s, 0, target));
    }
    assert forall|t: int|
        is_square(t) && rank(t) == rank(from) && file(t) - file(from) == scale(
            s,
            distance(from, t),
        ) && distance(from, t) > n implies !#[trigger] pseudo_move(b, from, t) by {
        if ray_move(b, from, s, 0, t) {
            assert(b[ray_square(from, s, 0, n)] is None);
        }
    }
}

} // verus!
