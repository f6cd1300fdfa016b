//! Pseudo-legal move generation: every destination that a piece's movement and
//! the occupancy of the board allow, ignoring the safety of the mover's king.
use vstd::prelude::*;
use crate::pieces::{ChessError, Colour, Piece, colour_of};
use crate::geometry::{
    Board, distance, file, forward, is_square, lemma_square_coords, lemma_square_split, offset_is,
    owned_by, path_clear, pawn_advance, pawn_move, pawn_start_rank, pseudo_move, rank, ray_move,
    ray_square, scale, square_at, step_move,
};

verus! {

/// Membership after a push: the old members and the pushed value.
pub(crate) proof fn lemma_push_contains<T>(s: Seq<T>, x: T)
    ensures
        forall|y: T| #[trigger] s.push(x).contains(y) <==> s.contains(y) || y == x,
{
    assert forall|y: T| #[trigger] s.push(x).contains(y) <==> s.contains(y) || y == x by {
        if s.contains(y) {
            let i = choose|i: int| 0 <= i < s.len() && s[i] == y;
            assert(s.push(x)[i] == y);
        }
        if y == x {
            assert(s.push(x)[s.len() as int] == y);
        }
        if s.push(x).contains(y) && y != x {
            let i = choose|i: int| 0 <= i < s.len() + 1 && s.push(x)[i] == y;
            assert(s[i] == y);
        }
    }
}

/// Whether `to` is empty or holds a piece of another colour than `c`.
fn lands_on(b: &Board, to: usize, c: Colour) -> (r: bool)
    requires
        to < 64,
    ensures
        r == (b@[to as int] is None || colour_of(b@[to as int]->0) != c),
{
    match b[to] {
        None => true,
        Some(p) => p.colour() != c,
    }
}

/// The square `(df, dr)` away from `from`, if it lies on the board.
fn offset_square(from: usize, df: i32, dr: i32) -> (r: Option<usize>)
    requires
        from < 64,
        -2 <= df <= 2,
        -2 <= dr <= 2,
    ensures
        r is Some ==> offset_is(from as int, r->0 as int, df as int, dr as int),
        r is None ==> forall|t: int| !offset_is(from as int, t, df as int, dr as int),
{
    let f: i32 = (from % 8) as i32 + df;
    let r: i32 = (from / 8) as i32 + dr;
    if 0 <= f && f < 8 && 0 <= r && r < 8 {
        proof {
            lemma_square_coords(f as int, r as int);
        }
        Some((r * 8 + f) as usize)
    } else {
        proof {
            assert forall|t: int| !offset_is(from as int, t, df as int, dr as int) by {
                if is_square(t) {
                    lemma_square_split(t);
                }
            }
        }
        None
    }
}

/// Adds the jump by `(df, dr)` when it lands on the board, on an empty square
/// or on an enemy piece.
fn push_step(b: &Board, from: usize, c: Colour, df: i32, dr: i32, out: &mut Vec<usize>)
    requires
        from < 64,
        owned_by(b@, from as int, c),
        -2 <= df <= 2,
        -2 <= dr <= 2,
    ensures
        forall|t: usize| #[trigger]
            final(out)@.contains(t) <==> old(out)@.contains(t) || step_move(
                b@,
                from as int,
                df as int,
                dr as int,
                t as int,
            ),
{
    proof {
        lemma_push_contains(out@, 0usize);
    }
    match offset_square(from, df, dr) {
        Some(t) => {
            if lands_on(b, t, c) {
                proof {
                    lemma_push_contains(out@, t);
                    assert forall|u: usize| step_move(b@, from as int, df as int, dr as int, u as int)
                        implies u == t by {
                        lemma_square_split(u as int);
                        lemma_square_split(t as int);
                    }
                }
                out.push(t);
            } else {
                proof {
                    assert forall|u: usize| step_move(b@, from as int, df as int, dr as int, u as int)
                        implies false by {
                        lemma_square_split(u as int);
                        lemma_square_split(t as int);
                    }
                }
            }
        },
        None => {},
    }
}

/// Adds the squares reached by sliding from `from` in direction `(sf, sr)`:
/// each empty square up to the first occupied one, and that one if it holds
/// an enemy piece.
fn push_ray(b: &Board, from: usize, c: Colour, sf: i32, sr: i32, out: &mut Vec<usize>)
    requires
        from < 64,
        owned_by(b@, from as int, c),
        -1 <= sf <= 1,
        -1 <= sr <= 1,
        sf != 0 || sr != 0,
    ensures
        forall|t: usize| #[trigger]
            final(out)@.contains(t) <==> old(out)@.contains(t) || ray_move(
                b@,
                from as int,
                sf as int,
                sr as int,
                t as int,
            ),
{
    let ghost start = out@;
    let f0: i32 = (from % 8) as i32;
    let r0: i32 = (from / 8) as i32;
    let mut k: i32 = 1;
    let mut f: i32 = f0 + sf;
    let mut r: i32 = r0 + sr;
    loop
        invariant_except_break
            forall|t: usize| #[trigger]
                out@.contains(t) <==> start.contains(t) || (ray_move(
                    b@,
                    from as int,
                    sf as int,
                    sr as int,
                    t as int,
                ) && distance(from as int, t as int) < k),
        invariant
            start == old(out)@,
            from < 64,
            owned_by(b@, from as int, c),
            -1 <= sf <= 1,
            -1 <= sr <= 1,
            sf != 0 || sr != 0,
            1 <= k <= 8,
            f0 == file(from as int),
            r0 == rank(from as int),
            f == f0 + scale(sf as int, k as int),
            r == r0 + scale(sr as int, k as int),
            path_clear(b@, from as int, sf as int, sr as int, k as int),
        ensures
            forall|t: usize| #[trigger]
                out@.contains(t) <==> start.contains(t) || ray_move(
                    b@,
                    from as int,
                    sf as int,
                    sr as int,
                    t as int,
                ),
        decreases 8 - k,
    {
        if f < 0 || f >= 8 || r < 0 || r >= 8 {
            proof {
                assert forall|u: usize| ray_move(b@, from as int, sf as int, sr as int, u as int)
                    implies distance(from as int, u as int) < k by {
                    lemma_square_split(u as int);
                }
            }
            break;
        }
        let t: usize = (r * 8 + f) as usize;
        proof {
            lemma_square_coords(f as int, r as int);
            assert(t as int == ray_square(from as int, sf as int, sr as int, k as int));
            assert(distance(from as int, t as int) == k);
            assert forall|u: usize|
                ray_move(b@, from as int, sf as int, sr as int, u as int) && distance(
                    from as int,
                    u as int,
                ) == k implies u == t by {
                lemma_square_split(u as int);
            }
        }
        match b[t] {
            None => {
                proof {
                    lemma_push_contains(out@, t);
                    assert(ray_move(b@, from as int, sf as int, sr as int, t as int));
                    assert forall|j: int| 1 <= j < k + 1 implies #[trigger] b@[ray_square(
                        from as int,
                        sf as int,
                        sr as int,
                        j,
                    )] is None by {
                        if j < k {
                            assert(path_clear(b@, from as int, sf as int, sr as int, k as int));
                        }
                    }
                }
                out.push(t);
                k = k + 1;
                f = f + sf;
                r = r + sr;
            },
            Some(p) => {
                proof {
                    assert(b@[ray_square(from as int, sf as int, sr as int, k as int)] is Some);
                    assert forall|u: usize| ray_move(b@, from as int, sf as int, sr as int, u as int)
                        implies distance(from as int, u as int) <= k by {
                        let d = distance(from as int, u as int);
                        if d > k {
                            assert(path_clear(b@, from as int, sf as int, sr as int, d));
                            assert(b@[ray_square(from as int, sf as int, sr as int, k as int)] is None);
                        }
                    }
                }
                if p.colour() != c {
                    proof {
                        lemma_push_contains(out@, t);
                        assert(ray_move(b@, from as int, sf as int, sr as int, t as int));
                    }
                    out.push(t);
                }
                break;
            },
        }
    }
}

/// Adds the moves of a pawn of colour `c` standing on `from`.
fn push_pawn(b: &Board, from: usize, c: Colour, out: &mut Vec<usize>)
    requires
        from < 64,
        owned_by(b@, from as int, c),
    ensures
        forall|t: usize| #[trigger]
            final(out)@.contains(t) <==> old(out)@.contains(t) || pawn_move(
                b@,
                from as int,
                c,
                t as int,
            ),
{
    let d: i32 = match c {
        Colour::White => 1,
        Colour::Black => -1,
    };
    let start_rank: usize = match c {
        Colour::White => 1,
        Colour::Black => 6,
    };
    let ghost start = out@;
    let ghost fr = from as int;
    let ghost d2: int = 2 * d;
    proof {
        lemma_square_split(fr);
        assert(d == forward(c) && start_rank == pawn_start_rank(c));
        assert forall|t: int| offset_is(fr, t, 0, d as int) implies t == fr + 8 * d by {
            lemma_square_split(t);
        }
        assert forall|t: int| offset_is(fr, t, 0, d2) implies t == fr + 16 * d by {
            lemma_square_split(t);
        }
        assert forall|t: int, df: int| offset_is(fr, t, df, d as int) implies t == fr + 8 * d + df by {
            lemma_square_split(t);
        }
    }
    // Pushes ahead.
    match offset_square(from, 0, d) {
        Some(t) => {
            if b[t].is_none() {
                proof {
                    lemma_push_contains(out@, t);
                }
                out.push(t);
                if from / 8 == start_rank {
                    match offset_square(from, 0, 2 * d) {
                        Some(t2) => {
                            if b[t2].is_none() {
                                proof {
                                    lemma_push_contains(out@, t2);
                                }
                                out.push(t2);
                            }
                        },
                        None => {},
                    }
                }
            }
        },
        None => {
            proof {
                assert forall|t: int| !offset_is(fr, t, 0, d2) by {
                    if offset_is(fr, t, 0, d2) {
                        let mid = square_at(file(fr), rank(fr) + d);
                        lemma_square_split(t);
                        lemma_square_coords(file(fr), rank(fr) + d);
                        assert(offset_is(fr, mid, 0, d as int));
                    }
                }
            }
        },
    }
    let ghost pushes = out@;
    assert(forall|t: usize| #[trigger]
        pushes.contains(t) <==> start.contains(t) || pawn_advance(b@, fr, c, t as int));
    // Diagonal captures.
    let mut i: usize = 0;
    while i < 2
        invariant
            0 <= i <= 2,
            from < 64,
            owned_by(b@, from as int, c),
            fr == from as int,
            d == forward(c),
            forall|t: int, df: int| offset_is(fr, t, df, d as int) ==> t == fr + 8 * d + df,
            forall|t: usize| #[trigger]
                out@.contains(t) <==> pushes.contains(t) || ((offset_is(fr, t as int, 1, d as int)
                    && i >= 1 || offset_is(fr, t as int, -1, d as int) && i >= 2) && b@[t as int] is Some
                    && colour_of(b@[t as int]->0) != c),
        decreases 2 - i,
    {
        let df: i32 = if i == 0 { 1 } else { -1 };
        match offset_square(from, df, d) {
            Some(t) => {
                let enemy = match b[t] {
                    None => false,
                    Some(p) => p.colour() != c,
                };
                if enemy {
                    proof {
                        lemma_push_contains(out@, t);
                    }
                    out.push(t);
                }
            },
            None => {},
        }
        i = i + 1;
    }
}

/// The pseudo-legal destinations of the piece on `from`, which must belong to
/// `colour`: every square its movement and the board's occupancy allow,
/// whether or not the move leaves its own king attacked. An empty origin and
/// a piece of the other side are reported apart.
pub fn pseudo_legal_moves(board: &Board, from: usize, colour: Colour) -> (r: Result<
    Vec<usize>,
    ChessError,
>)
    requires
        from < 64,
    ensures
        board@[from as int] is None <==> r == Err::<Vec<usize>, ChessError>(ChessError::EmptySquare),
        (board@[from as int] is Some && colour_of(board@[from as int]->0) != colour) <==> r == Err::<
            Vec<usize>,
            ChessError,
        >(ChessError::WrongOwner),
        r is Ok <==> owned_by(board@, from as int, colour),
        r is Ok ==> forall|t: usize| #[trigger]
            r->Ok_0@.contains(t) <==> pseudo_move(board@, from as int, t as int),
{
    match board[from] {
        None => Err(ChessError::EmptySquare),
        Some(p) => {
            if p.colour() != colour {
                return Err(ChessError::WrongOwner);
            }
            let mut out: Vec<usize> = Vec::new();
            proof {
                lemma_push_contains(out@, 0usize);
                assert(forall|t: usize| !out@.contains(t));
            }
            match p {
                Piece::King(_) => {
                    push_step(board, from, colour, 1, 1, &mut out);
                    push_step(board, from, colour, 1, 0, &mut out);
                    push_step(board, from, colour, 1, -1, &mut out);
                    push_step(board, from, colour, 0, 1, &mut out);
                    push_step(board, from, colour, 0, -1, &mut out);
                    push_step(board, from, colour, -1, 1, &mut out);
                    push_step(board, from, colour, -1, 0, &mut out);
                    push_step(board, from, colour, -1, -1, &mut out);
                },
                Piece::Knight(_) => {
                    push_step(board, from, colour, 1, 2, &mut out);
                    push_step(board, from, colour, 2, 1, &mut out);
                    push_step(board, from, colour, 2, -1, &mut out);
                    push_step(board, from, colour, 1, -2, &mut out);
                    push_step(board, from, colour, -1, -2, &mut out);
                    push_step(board, from, colour, -2, -1, &mut out);
                    push_step(board, from, colour, -2, 1, &mut out);
                    push_step(board, from, colour, -1, 2, &mut out);
                },
                Piece::Rook(_) => {
                    push_ray(board, from, colour, 0, 1, &mut out);
                    push_ray(board, from, colour, 0, -1, &mut out);
                    push_ray(board, from, colour, 1, 0, &mut out);
                    push_ray(board, from, colour, -1, 0, &mut out);
                },
                Piece::Bishop(_) => {
                    push_ray(board, from, colour, 1, 1, &mut out);
                    push_ray(board, from, colour, 1, -1, &mut out);
                    push_ray(board, from, colour, -1, 1, &mut out);
                    push_ray(board, from, colour, -1, -1, &mut out);
                },
                Piece::Queen(_) => {
                    push_ray(board, from, colour, 0, 1, &mut out);
                    push_ray(board, from, colour, 0, -1, &mut out);
                    push_ray(board, from, colour, 1, 0, &mut out);
                    push_ray(board, from, colour, -1, 0, &mut out);
                    push_ray(board, from, colour, 1, 1, &mut out);
                    push_ray(board, from, colour, 1, -1, &mut out);
                    push_ray(board, from, colour, -1, 1, &mut out);
                    push_ray(board, from, colour, -1, -1, &mut out);
                },
                Piece::Pawn(_) => {
                    push_pawn(board, from, colour, &mut out);
                },
            }
            Ok(out)
        },
    }
}

} // verus!
