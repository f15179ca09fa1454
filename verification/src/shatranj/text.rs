use vstd::prelude::*;

use crate::shatranj::piece::{Piece, piece_char_spec};
use crate::shatranj::types::{Square, file_of, rank_of};

verus! {

/// The decimal digit `d` as a character.
pub open spec fn digit_char(d: int) -> char {
    (48 + d) as char
}

/// The decimal numeral of `n`, without leading zeros.
pub open spec fn dec(n: nat) -> Seq<char>
    decreases n,
{
    if n < 10 {
        seq![digit_char(n as int)]
    } else {
        dec(n / 10) + seq![digit_char((n % 10) as int)]
    }
}

fn digit_str(d: u64) -> (r: &'static str)
    requires
        d < 10,
    ensures
        r@ == seq![digit_char(d as int)],
{
    match d {
        0 => {
            proof { reveal_strlit("0"); }
            "0"
        },
        1 => {
            proof { reveal_strlit("1"); }
            "1"
        },
        2 => {
            proof { reveal_strlit("2"); }
            "2"
        },
        3 => {
            proof { reveal_strlit("3"); }
            "3"
        },
        4 => {
            proof { reveal_strlit("4"); }
            "4"
        },
        5 => {
            proof { reveal_strlit("5"); }
            "5"
        },
        6 => {
            proof { reveal_strlit("6"); }
            "6"
        },
        7 => {
            proof { reveal_strlit("7"); }
            "7"
        },
        8 => {
            proof { reveal_strlit("8"); }
            "8"
        },
        _ => {
            proof { reveal_strlit("9"); }
            "9"
        },
    }
}

/// Appends the decimal numeral of `n`.
pub fn append_decimal(out: &mut String, n: u64)
    ensures
        final(out)@ == old(out)@ + dec(n as nat),
    decreases n,
{
    if n >= 10 {
        append_decimal(out, n / 10);
    }
    out.append(digit_str(n % 10));
    proof {
        assert(final(out)@ =~= old(out)@ + dec(n as nat)) by {
            if n >= 10 {
                assert(dec(n as nat) == dec((n / 10) as nat) + seq![digit_char((n % 10) as int)]);
            }
        }
    }
}

/// The letter of file `f`, `a` to `h`.
pub open spec fn file_letter(f: int) -> char {
    (97 + f) as char
}

/// The digit of rank `r`, `1` to `8`.
pub open spec fn rank_digit(r: int) -> char {
    (49 + r) as char
}

pub fn file_str(f: u8) -> (r: &'static str)
    requires
        f < 8,
    ensures
        r@ == seq![file_letter(f as int)],
{
    match f {
        0 => {
            proof { reveal_strlit("a"); }
            "a"
        },
        1 => {
            proof { reveal_strlit("b"); }
            "b"
        },
        2 => {
            proof { reveal_strlit("c"); }
            "c"
        },
        3 => {
            proof { reveal_strlit("d"); }
            "d"
        },
        4 => {
            proof { reveal_strlit("e"); }
            "e"
        },
        5 => {
            proof { reveal_strlit("f"); }
            "f"
        },
        6 => {
            proof { reveal_strlit("g"); }
            "g"
        },
        _ => {
            proof { reveal_strlit("h"); }
            "h"
        },
    }
}

pub fn rank_str(r: u8) -> (s: &'static str)
    requires
        r < 8,
    ensures
        s@ == seq![rank_digit(r as int)],
{
    match r {
        0 => {
            proof { reveal_strlit("1"); }
            "1"
        },
        1 => {
            proof { reveal_strlit("2"); }
            "2"
        },
        2 => {
            proof { reveal_strlit("3"); }
            "3"
        },
        3 => {
            proof { reveal_strlit("4"); }
            "4"
        },
        4 => {
            proof { reveal_strlit("5"); }
            "5"
        },
        5 => {
            proof { reveal_strlit("6"); }
            "6"
        },
        6 => {
            proof { reveal_strlit("7"); }
            "7"
        },
        _ => {
            proof { reveal_strlit("8"); }
            "8"
        },
    }
}

/// The name of the square with index `i`, such as `e4`.
pub open spec fn square_name(i: int) -> Seq<char> {
    seq![file_letter(file_of(i)), rank_digit(rank_of(i))]
}

/// Appends the name of `sq`.
pub fn append_square(out: &mut String, sq: Square)
    ensures
        final(out)@ == old(out)@ + square_name(sq.idx()),
{
    out.append(file_str(sq.file().index()));
    out.append(rank_str(sq.rank().index()));
    proof {
        assert(final(out)@ =~= old(out)@ + square_name(sq.idx()));
    }
}

/// The FEN letter of `p` as a one-letter string.
pub fn piece_str(p: Piece) -> (r: &'static str)
    ensures
        r@ == seq![piece_char_spec(p) as char],
{
    match p {
        Piece::WP => {
            proof { reveal_strlit("P"); }
            "P"
        },
        Piece::WA => {
            proof { reveal_strlit("B"); }
            "B"
        },
        Piece::WF => {
            proof { reveal_strlit("Q"); }
            "Q"
        },
        Piece::WN => {
            proof { reveal_strlit("N"); }
            "N"
        },
        Piece::WR => {
            proof { reveal_strlit("R"); }
            "R"
        },
        Piece::WK => {
            proof { reveal_strlit("K"); }
            "K"
        },
        Piece::BP => {
            proof { reveal_strlit("p"); }
            "p"
        },
        Piece::BA => {
            proof { reveal_strlit("b"); }
            "b"
        },
        Piece::BF => {
            proof { reveal_strlit("q"); }
            "q"
        },
        Piece::BN => {
            proof { reveal_strlit("n"); }
            "n"
        },
        Piece::BR => {
            proof { reveal_strlit("r"); }
            "r"
        },
        Piece::BK => {
            proof { reveal_strlit("k"); }
            "k"
        },
    }
}

/// The decimal numeral of `n`, with a minus sign when it is negative.
pub open spec fn signed_dec(n: int) -> Seq<char> {
    if n < 0 {
        seq!['-'] + dec((-n) as nat)
    } else {
        dec(n as nat)
    }
}

/// Appends the decimal numeral of `n`, with a minus sign when it is negative.
pub fn append_signed(out: &mut String, n: i32)
    ensures
        final(out)@ == old(out)@ + signed_dec(n as int),
{
    if n < 0 {
        proof {
            reveal_strlit("-");
        }
        out.append("-");
        let ghost mid = out@;
        let magnitude: u64 = (-(n as i64)) as u64;
        append_decimal(out, magnitude);
        proof {
            assert(final(out)@ =~= old(out)@ + signed_dec(n as int));
        }
    } else {
        append_decimal(out, n as u64);
    }
}

} // verus!
