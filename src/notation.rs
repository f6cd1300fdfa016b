//! Square names: a file letter `a`..`h` and a rank digit `1`..`8`. Files are
//! numbered from the `h` side, so `h` is file 0 and `a` is file 7.
use vstd::prelude::*;
use crate::geometry::{file, is_square, rank, square_at};

verus! {

/// The file that a letter names, or -1 for a character that names none.
pub open spec fn letter_file(c: char) -> int {
    if c == 'a' { 7 }
    else if c == 'b' { 6 }
    else if c == 'c' { 5 }
    else if c == 'd' { 4 }
    else if c == 'e' { 3 }
    else if c == 'f' { 2 }
    else if c == 'g' { 1 }
    else if c == 'h' { 0 }
    else { -1 }
}

/// The rank that a digit names, or -1 for a character that names none.
pub open spec fn digit_rank(c: char) -> int {
    if c == '1' { 0 }
    else if c == '2' { 1 }
    else if c == '3' { 2 }
    else if c == '4' { 3 }
    else if c == '5' { 4 }
    else if c == '6' { 5 }
    else if c == '7' { 6 }
    else if c == '8' { 7 }
    else { -1 }
}

/// The letter of a file in `0..8`.
pub open spec fn file_letter(f: int) -> char {
    if f == 7 { 'a' }
    else if f == 6 { 'b' }
    else if f == 5 { 'c' }
    else if f == 4 { 'd' }
    else if f == 3 { 'e' }
    else if f == 2 { 'f' }
    else if f == 1 { 'g' }
    else { 'h' }
}

/// The digit of a rank in `0..8`.
pub open spec fn rank_digit(r: int) -> char {
    if r == 0 { '1' }
    else if r == 1 { '2' }
    else if r == 2 { '3' }
    else if r == 3 { '4' }
    else if r == 4 { '5' }
    else if r == 5 { '6' }
    else if r == 6 { '7' }
    else { '8' }
}

/// Exactly one file letter followed by one rank digit.
pub open spec fn valid_notation(s: Seq<char>) -> bool {
    s.len() == 2 && letter_file(s[0]) >= 0 && digit_rank(s[1]) >= 0
}

/// The square that a valid name denotes.
pub open spec fn square_of(s: Seq<char>) -> int {
    square_at(letter_file(s[0]), digit_rank(s[1]))
}

/// The texts of a sequence of strings.
pub open spec fn names_of(v: Seq<String>) -> Seq<Seq<char>> {
    v.map_values(|n: String| n@)
}

/// The name of a square.
pub open spec fn notation_of(sq: int) -> Seq<char> {
    seq![file_letter(file(sq)), rank_digit(rank(sq))]
}

/// Reading a valid name and writing the square back gives the same name.
pub proof fn lemma_notation_round_trip(s: Seq<char>)
    requires
        valid_notation(s),
    ensures
        is_square(square_of(s)),
        notation_of(square_of(s)) == s,
{
    crate::geometry::lemma_square_coords(letter_file(s[0]), digit_rank(s[1]));
    assert(notation_of(square_of(s)) =~= s);
}

/// Every square has a valid name, which reads back as that square.
pub proof fn lemma_square_round_trip(sq: int)
    requires
        is_square(sq),
    ensures
        valid_notation(notation_of(sq)),
        square_of(notation_of(sq)) == sq,
{
    crate::geometry::lemma_square_split(sq);
}

/// Reads a square name into its file and rank.
pub fn parse_square(s: &str) -> (r: Option<(usize, usize)>)
    ensures
        r is Some <==> valid_notation(s@),
        r is Some ==> (r->0).0 == letter_file(s@[0]) && (r->0).1 == digit_rank(s@[1]),
{
    if s.unicode_len() != 2 {
        return None;
    }
    let letter = s.get_char(0);
    let digit = s.get_char(1);
    let f: usize = match letter {
        'a' => 7,
        'b' => 6,
        'c' => 5,
        'd' => 4,
        'e' => 3,
        'f' => 2,
        'g' => 1,
        'h' => 0,
        _ => {
            return None;
        },
    };
    let r: usize = match digit {
        '1' => 0,
        '2' => 1,
        '3' => 2,
        '4' => 3,
        '5' => 4,
        '6' => 5,
        '7' => 6,
        '8' => 7,
        _ => {
            return None;
        },
    };
    Some((f, r))
}

fn file_name(f: usize) -> (r: &'static str)
    requires
        f < 8,
    ensures
        r@ == seq![file_letter(f as int)],
{
    match f {
        0 => {
            proof {
                reveal_strlit("h");
            }
            "h"
        },
        1 => {
            proof {
                reveal_strlit("g");
            }
            "g"
        },
        2 => {
            proof {
                reveal_strlit("f");
            }
            "f"
        },
        3 => {
            proof {
                reveal_strlit("e");
            }
            "e"
        },
        4 => {
            proof {
                reveal_strlit("d");
            }
            "d"
        },
        5 => {
            proof {
                reveal_strlit("c");
            }
            "c"
        },
        6 => {
            proof {
                reveal_strlit("b");
            }
            "b"
        },
        _ => {
            proof {
                reveal_strlit("a");
            }
            "a"
        },
    }
}

fn rank_name(r: usize) -> (s: &'static str)
    requires
        r < 8,
    ensures
        s@ == seq![rank_digit(r as int)],
{
    match r {
        0 => {
            proof {
                reveal_strlit("1");
            }
            "1"
        },
        1 => {
            proof {
                reveal_strlit("2");
            }
            "2"
        },
        2 => {
            proof {
                reveal_strlit("3");
            }
            "3"
        },
        3 => {
            proof {
                reveal_strlit("4");
            }
            "4"
        },
        4 => {
            proof {
                reveal_strlit("5");
            }
            "5"
        },
        5 => {
            proof {
                reveal_strlit("6");
            }
            "6"
        },
        6 => {
            proof {
                reveal_strlit("7");
            }
            "7"
        },
        _ => {
            proof {
                reveal_strlit("8");
            }
            "8"
        },
    }
}

/// The name of a square.
pub fn square_name(sq: usize) -> (r: String)
    requires
        sq < 64,
    ensures
        r@ == notation_of(sq as int),
{
    let name = String::from_str(file_name(sq % 8));
    let name = name.concat(rank_name(sq / 8));
    proof {
        assert(name@ =~= notation_of(sq as int));
    }
    name
}

/// The names of the squares of `squares`, in the same order.
pub fn square_names(squares: &Vec<usize>) -> (r: Vec<String>)
    requires
        forall|i: int| 0 <= i < squares@.len() ==> squares@[i] < 64,
    ensures
        r@.len() == squares@.len(),
        forall|i: int| 0 <= i < r@.len() ==> #[trigger] r@[i]@ == notation_of(squares@[i] as int),
        forall|i: int| 0 <= i < r@.len() ==> valid_notation(#[trigger] r@[i]@),
        forall|t: usize|
            t < 64 ==> (names_of(r@).contains(#[trigger] notation_of(t as int))
                <==> squares@.contains(t)),
{
    let mut out: Vec<String> = Vec::new();
    let mut i: usize = 0;
    while i < squares.len()
        invariant
            0 <= i <= squares@.len(),
            out@.len() == i,
            forall|i: int| 0 <= i < squares@.len() ==> squares@[i] < 64,
            forall|j: int| 0 <= j < i ==> #[trigger] out@[j]@ == notation_of(squares@[j] as int),
        decreases squares@.len() - i,
    {
        out.push(square_name(squares[i]));
        i = i + 1;
    }
    proof {
        assert forall|i: int| 0 <= i < out@.len() implies valid_notation(#[trigger] out@[i]@) by {
            lemma_square_round_trip(squares@[i] as int);
        }
        assert forall|t: usize| t < 64 implies (names_of(out@).contains(
            #[trigger] notation_of(t as int),
        ) <==> squares@.contains(t)) by {
            if names_of(out@).contains(notation_of(t as int)) {
                let i = choose|i: int|
                    0 <= i < names_of(out@).len() && names_of(out@)[i] == notation_of(t as int);
                lemma_square_round_trip(t as int);
                lemma_square_round_trip(squares@[i] as int);
                assert(squares@[i] == t);
            }
            if squares@.contains(t) {
                let i = choose|i: int| 0 <= i < squares@.len() && squares@[i] == t;
                assert(names_of(out@)[i] == notation_of(t as int));
            }
        }
    }
    out
}

} // verus!
