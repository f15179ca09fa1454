use vstd::prelude::*;

use crate::shatranj::board::{Board, BoardState, ksq, lemma_king_squares, lemma_single_king};
use crate::shatranj::piece::{Colour, Piece, PieceType, piece_of};
use crate::shatranj::piecelayout::Position;
use crate::shatranj::types::{File, Rank, Square};
use crate::shatranj::piece::piece_char_spec;
use crate::shatranj::text::{append_decimal, dec, digit_char, piece_str, rank_digit, rank_str};

verus! {

// ---------------------------------------------------------------------------
// Fields separated by spaces.
// ---------------------------------------------------------------------------

/// The index of the first space of `s`, or its length when it has none.
pub open spec fn first_space(s: Seq<u8>) -> int
    decreases s.len(),
{
    if s.len() == 0 {
        0
    } else if s[0] == 32u8 {
        0
    } else {
        1 + first_space(s.drop_first())
    }
}

pub proof fn lemma_first_space(s: Seq<u8>)
    ensures
        0 <= first_space(s) <= s.len(),
        first_space(s) < s.len() ==> s[first_space(s)] == 32u8,
        forall|j: int| 0 <= j < first_space(s) ==> s[j] != 32u8,
    decreases s.len(),
{
    if s.len() > 0 && s[0] != 32u8 {
        lemma_first_space(s.drop_first());
        assert forall|j: int| 0 <= j < first_space(s) implies s[j] != 32u8 by {
            if j > 0 {
                assert(s[j] == s.drop_first()[j - 1]);
            }
        }
    }
}

/// The fields of `s`, split at each space: `k` spaces make `k + 1` fields.
pub open spec fn split_fields(s: Seq<u8>) -> Seq<Seq<u8>>
    decreases s.len(),
{
    let i = first_space(s);
    if i >= s.len() {
        seq![s]
    } else {
        proof {
            lemma_first_space(s);
        }
        seq![s.subrange(0, i)] + split_fields(s.subrange(i + 1, s.len() as int))
    }
}

/// The index of the first space at or after `start`, or the length of `s`.
fn find_space(s: &[u8], start: usize) -> (r: usize)
    requires
        start <= s@.len(),
    ensures
        r == start + first_space(s@.subrange(start as int, s@.len() as int)),
{
    let mut i = start;
    while i < s.len() && s[i] != 32u8
        invariant
            start <= i <= s@.len(),
            first_space(s@.subrange(start as int, s@.len() as int)) == (i - start) + first_space(s@.subrange(i as int, s@.len() as int)),
        decreases s@.len() - i,
    {
        assert(s@.subrange(i as int, s@.len() as int).drop_first() =~= s@.subrange(i + 1, s@.len() as int));
        i = i + 1;
    }
    i
}

/// The field of `s` with index `n`, if it has that many.
pub fn field_at(s: &[u8], n: usize) -> (r: Option<&[u8]>)
    ensures
        r is Some <==> n < split_fields(s@).len(),
        r matches Some(f) ==> f@ == split_fields(s@)[n as int],
{
    let mut rest: &[u8] = s;
    let mut k: usize = 0;
    proof {
        lemma_split_fields_len(s@);
        assert(split_fields(s@).subrange(0, split_fields(s@).len() as int) =~= split_fields(s@));
    }
    loop
        invariant
            k <= n,
            k < split_fields(s@).len(),
            split_fields(rest@) =~= split_fields(s@).subrange(k as int, split_fields(s@).len() as int),
        decreases n - k,
    {
        let i = find_space(rest, 0);
        proof {
            assert(rest@.subrange(0, rest@.len() as int) =~= rest@);
            lemma_first_space(rest@);
        }
        if k == n {
            let f = vstd::slice::slice_subrange(rest, 0, i);
            proof {
                if i >= rest@.len() {
                    assert(f@ =~= rest@);
                }
                assert(split_fields(rest@)[0] == f@);
            }
            return Some(f);
        }
        if i >= rest.len() {
            proof {
                assert(split_fields(rest@).len() == 1);
            }
            return None;
        }
        let next = vstd::slice::slice_subrange(rest, i + 1, rest.len());
        proof {
            lemma_split_fields_len(next@);
            assert(first_space(rest@) == i);
            assert(split_fields(rest@) =~= seq![rest@.subrange(0, i as int)] + split_fields(next@));
            let fr = split_fields(rest@);
            let fnx = split_fields(next@);
            let fs = split_fields(s@);
            assert(fr.len() == fnx.len() + 1);
            assert forall|j: int| 0 <= j < fnx.len() implies fnx[j] == fs[k + 1 + j] by {
                assert(fnx[j] == fr[j + 1]);
                assert(fr[j + 1] == fs[k + j + 1]);
            }
            assert(fnx =~= fs.subrange(k + 1, fs.len() as int));
        }
        rest = next;
        k = k + 1;
    }
}

proof fn lemma_split_fields_len(s: Seq<u8>)
    ensures
        split_fields(s).len() >= 1,
    decreases s.len(),
{
    lemma_first_space(s);
    if first_space(s) < s.len() {
        lemma_split_fields_len(s.subrange(first_space(s) + 1, s.len() as int));
    }
}

// ---------------------------------------------------------------------------
// Unsigned decimal numbers.
// ---------------------------------------------------------------------------

pub open spec fn is_digit(c: u8) -> bool {
    48u8 <= c <= 57u8
}

/// The value of a string of decimal digits.
pub open spec fn digits_value(d: Seq<u8>) -> nat
    decreases d.len(),
{
    if d.len() == 0 {
        0
    } else {
        digits_value(d.drop_last()) * 10 + (d.last() - 48u8) as nat
    }
}

/// Every byte of `d` is a decimal digit.
pub open spec fn all_digits(d: Seq<u8>) -> bool {
    forall|i: int| 0 <= i < d.len() ==> #[trigger] is_digit(d[i])
}

/// The digits of an unsigned number, after an optional leading `+`.
pub open spec fn unsigned_digits(s: Seq<u8>) -> Seq<u8> {
    if s.len() > 0 && s[0] == 43u8 {
        s.drop_first()
    } else {
        s
    }
}

/// The number that `s` writes, when it is an optional `+` followed by one or
/// more decimal digits and the number is at most `max`.
pub open spec fn parse_unsigned(s: Seq<u8>, max: nat) -> Option<nat> {
    let d = unsigned_digits(s);
    if d.len() > 0 && all_digits(d) && digits_value(d) <= max {
        Some(digits_value(d))
    } else {
        None
    }
}

proof fn lemma_digits_grow(d: Seq<u8>, i: int, j: int)
    requires
        0 <= i <= j <= d.len(),
        forall|k: int| 0 <= k < d.len() ==> #[trigger] is_digit(d[k]),
    ensures
        digits_value(d.subrange(0, i)) <= digits_value(d.subrange(0, j)),
    decreases j - i,
{
    if i < j {
        lemma_digits_grow(d, i, j - 1);
        assert(d.subrange(0, j).drop_last() =~= d.subrange(0, j - 1));
    }
}

/// Parses an unsigned decimal number no greater than `max`.
pub fn parse_decimal(s: &[u8], max: u64) -> (r: Option<u64>)
    ensures
        r == match parse_unsigned(s@, max as nat) {
            Some(v) => Some(v as u64),
            None => None::<u64>,
        },
{
    let start: usize = if s.len() > 0 && s[0] == 43u8 { 1 } else { 0 };
    let ghost d = unsigned_digits(s@);
    proof {
        assert(d =~= s@.subrange(start as int, s@.len() as int));
    }
    if start >= s.len() {
        return None;
    }
    let mut acc: u64 = 0;
    let mut i = start;
    while i < s.len()
        invariant
            start <= i <= s@.len(),
            start < s@.len(),
            d == unsigned_digits(s@),
            d =~= s@.subrange(start as int, s@.len() as int),
            forall|k: int| 0 <= k < i - start ==> #[trigger] is_digit(d[k]),
            acc == digits_value(d.subrange(0, i - start)),
            acc <= max,
        decreases s@.len() - i,
    {
        let c = s[i];
        if c < 48u8 || c > 57u8 {
            proof {
                assert(!is_digit(d[i - start]));
                assert(!all_digits(d));
                assert(parse_unsigned(s@, max as nat) is None);
            }
            return None;
        }
        let ghost k = i - start;
        proof {
            assert(d.subrange(0, k + 1).drop_last() =~= d.subrange(0, k));
            assert(d.subrange(0, k + 1).last() == c);
        }
        let digit = (c - 48u8) as u64;
        if digit > max || acc > (max - digit) / 10 {
            proof {
                assert(acc * 10 + digit > max) by (nonlinear_arith)
                    requires digit > max || acc > (max - digit) / 10;
                if all_digits(d) {
                    lemma_digits_grow(d, k + 1, d.len() as int);
                    assert(d.subrange(0, d.len() as int) =~= d);
                    assert(digits_value(d) > max);
                }
                assert(parse_unsigned(s@, max as nat) is None);
            }
            return None;
        }
        proof {
            assert(acc * 10 + digit <= max) by (nonlinear_arith)
                requires digit <= max, acc <= (max - digit) / 10;
        }
        acc = acc * 10 + digit;
        i = i + 1;
    }
    proof {
        assert(d.subrange(0, d.len() as int) =~= d);
        assert(all_digits(d));
    }
    Some(acc)
}

// ---------------------------------------------------------------------------
// Reading a position in Forsyth-Edwards notation.
// ---------------------------------------------------------------------------

/// Why a FEN string was refused.
#[derive(Debug, Clone, Copy, PartialEq, Eq, Structural)]
pub enum FenError {
    /// The string holds a character outside ASCII.
    NotAscii,
    /// The string has no space after the piece placement.
    MissingSpace,
    /// The piece placement holds this unexpected character.
    UnexpectedChar(u8),
    /// The side-to-move field is missing.
    MissingSide,
    /// The side-to-move field is neither `w` nor `b`.
    InvalidSide,
    /// The halfmove clock field is missing.
    MissingHalfmove,
    /// The halfmove clock field is not a number from 0 to 255.
    InvalidHalfmove,
    /// The fullmove number field is missing.
    MissingFullmove,
    /// The fullmove number field is not a number.
    InvalidFullmove,
    /// The piece placement puts a piece on a square that already holds a
    /// different piece (a rank of more than eight squares).
    OccupiedSquare,
}

/// The piece that a FEN letter names: upper case for white, lower case for
/// black; `B` is the alfil and `Q` the ferz.
pub open spec fn fen_piece(c: u8) -> Option<Piece> {
    if c == 80u8 { Some(Piece::WP) }
    else if c == 82u8 { Some(Piece::WR) }
    else if c == 78u8 { Some(Piece::WN) }
    else if c == 66u8 { Some(Piece::WA) }
    else if c == 81u8 { Some(Piece::WF) }
    else if c == 75u8 { Some(Piece::WK) }
    else if c == 112u8 { Some(Piece::BP) }
    else if c == 114u8 { Some(Piece::BR) }
    else if c == 110u8 { Some(Piece::BN) }
    else if c == 98u8 { Some(Piece::BA) }
    else if c == 113u8 { Some(Piece::BF) }
    else if c == 107u8 { Some(Piece::BK) }
    else { None }
}

fn piece_from_fen_char(c: u8) -> (r: Option<Piece>)
    ensures
        r == fen_piece(c),
{
    match c {
        80u8 => Some(Piece::WP),
        82u8 => Some(Piece::WR),
        78u8 => Some(Piece::WN),
        66u8 => Some(Piece::WA),
        81u8 => Some(Piece::WF),
        75u8 => Some(Piece::WK),
        112u8 => Some(Piece::BP),
        114u8 => Some(Piece::BR),
        110u8 => Some(Piece::BN),
        98u8 => Some(Piece::BA),
        113u8 => Some(Piece::BF),
        107u8 => Some(Piece::BK),
        _ => None,
    }
}

/// The state of reading a piece placement.
pub enum Placed {
    /// Reading goes on at `rank` and `file`, with `pos` placed so far;
    /// `clash` tells whether a piece was put on a square holding another
    /// (the square keeps its first piece).
    Going { rank: int, file: int, pos: Position, clash: bool },
    /// A `/` below the first rank.
    Stuck,
    /// An unexpected character.
    Bad { c: u8 },
}

pub open spec fn min7(x: int) -> int {
    if x < 7 { x } else { 7 }
}

/// Reading one more character of a piece placement.
pub open spec fn place_step(s: Placed, c: u8) -> Placed {
    match s {
        Placed::Going { rank, file, pos, clash } => match fen_piece(c) {
            Some(p) => {
                let i = rank * 8 + file;
                if pos[i] is Some && pos[i] != Some(p) {
                    Placed::Going { rank, file: min7(file + 1), pos, clash: true }
                } else {
                    Placed::Going { rank, file: min7(file + 1), pos: pos.update(i, Some(p)), clash }
                }
            },
            None => if 49u8 <= c <= 56u8 {
                Placed::Going { rank, file: min7(file + (c - 48u8)), pos, clash }
            } else if c == 47u8 {
                if rank == 0 {
                    Placed::Stuck
                } else {
                    Placed::Going { rank: rank - 1, file: 0, pos, clash }
                }
            } else {
                Placed::Bad { c }
            },
        },
        other => other,
    }
}

/// Reading a piece placement from the eighth rank down, each rank from the
/// a-file; a digit skips that many squares, and the file never passes h.
pub open spec fn placement(bs: Seq<u8>) -> Placed
    decreases bs.len(),
{
    if bs.len() == 0 {
        Placed::Going { rank: 7, file: 0, pos: Seq::new(64, |i: int| None::<Piece>), clash: false }
    } else {
        place_step(placement(bs.drop_last()), bs.last())
    }
}

/// Once reading has stopped, the rest of the placement changes nothing.
proof fn lemma_placement_stops(bs: Seq<u8>, j: int)
    requires
        0 <= j <= bs.len(),
        placement(bs.subrange(0, j)) !is Going,
    ensures
        placement(bs) == placement(bs.subrange(0, j)),
    decreases bs.len() - j,
{
    if j < bs.len() {
        assert(bs.subrange(0, j + 1).drop_last() =~= bs.subrange(0, j));
        lemma_placement_stops(bs, j + 1);
    } else {
        assert(bs.subrange(0, j) =~= bs);
    }
}

/// What a FEN string describes, when it can be read.
pub struct FenState {
    pub pos: Position,
    pub side: Colour,
    pub halfmove: nat,
    pub fullmove: nat,
}

/// The outcome of reading a FEN string: an error; a `/` below the first
/// rank; every field read, but a piece put on a square holding another; or
/// the position described.
pub enum FenParse {
    Fail(FenError),
    Stuck,
    Clash(FenState),
    Ready(FenState),
}

/// The bytes of an ASCII string.
pub open spec fn ascii_bytes(cs: Seq<char>) -> Seq<u8> {
    Seq::new(cs.len(), |i: int| cs[i] as u8)
}

/// Reading a FEN string: the piece placement, then after a space the fields
/// side to move, two fields skipped, the halfmove clock and the fullmove number.
pub open spec fn fen_parse(fen: &str) -> FenParse {
    if !vstd::string::is_ascii(fen) {
        FenParse::Fail(FenError::NotAscii)
    } else {
        let bs = ascii_bytes(fen@);
        let sp = first_space(bs);
        if sp >= bs.len() {
            FenParse::Fail(FenError::MissingSpace)
        } else {
            let info = split_fields(bs.subrange(sp + 1, bs.len() as int));
            match placement(bs.subrange(0, sp)) {
                Placed::Bad { c } => FenParse::Fail(FenError::UnexpectedChar(c)),
                Placed::Stuck => FenParse::Stuck,
                Placed::Going { rank, file, pos, clash } => {
                    if info[0] != seq![119u8] && info[0] != seq![98u8] {
                        FenParse::Fail(FenError::InvalidSide)
                    } else if info.len() < 4 {
                        FenParse::Fail(FenError::MissingHalfmove)
                    } else if parse_unsigned(info[3], 255) is None {
                        FenParse::Fail(FenError::InvalidHalfmove)
                    } else if info.len() < 5 {
                        FenParse::Fail(FenError::MissingFullmove)
                    } else if parse_unsigned(info[4], usize::MAX as nat) is None {
                        FenParse::Fail(FenError::InvalidFullmove)
                    } else {
                        let st = FenState {
                            pos,
                            side: if info[0] == seq![119u8] { Colour::White } else { Colour::Black },
                            halfmove: parse_unsigned(info[3], 255)->0,
                            fullmove: parse_unsigned(info[4], usize::MAX as nat)->0,
                        };
                        if clash { FenParse::Clash(st) } else { FenParse::Ready(st) }
                    }
                },
            }
        }
    }
}

/// The only king of colour `c` in `pos` stands on `k`.
pub open spec fn only_king_on(pos: Position, c: Colour, k: int) -> bool {
    forall|i: int| 0 <= i < 64 ==> (pos[i] == Some(piece_of(c, PieceType::King)) <==> i == k)
}

/// Exactly one king of colour `c` stands in `pos`.
pub open spec fn single_king(pos: Position, c: Colour) -> bool {
    exists|k: int| 0 <= k < 64 && #[trigger] only_king_on(pos, c, k)
}

/// A fullmove number from which the ply count can be computed: at least one,
/// and small enough that the ply count fits in a `usize`.
pub open spec fn fullmove_fits(s: FenState) -> bool {
    &&& 1 <= s.fullmove
    &&& (s.fullmove - 1) * 2 + 1 <= usize::MAX
}

/// A described position that a board can hold: one king a side, and a
/// fullmove number that fits.
pub open spec fn loadable(s: FenState) -> bool {
    &&& single_king(s.pos, Colour::White)
    &&& single_king(s.pos, Colour::Black)
    &&& fullmove_fits(s)
}

/// The board holds what the FEN string describes, with no history.
pub open spec fn loaded(st: BoardState, s: FenState) -> bool {
    &&& st.wf()
    &&& st.pos() == s.pos
    &&& st.side == s.side
    &&& st.seventy_move_counter == s.halfmove
    &&& st.ply == (s.fullmove - 1) * 2 + if s.side == Colour::Black { 1int } else { 0 }
    &&& st.height == 0
    &&& st.history.len() == 0
}

impl Board {
    /// Sets the side to move from the field `w` or `b`.
    fn set_side(&mut self, side_part: Option<&[u8]>) -> (r: Result<(), FenError>)
        ensures
            match side_part {
                None => r == Err::<(), FenError>(FenError::MissingSide) && final(self)@ == old(self)@,
                Some(f) => if f@ == seq![119u8] {
                    r is Ok && final(self)@ == (BoardState { side: Colour::White, ..old(self)@ })
                } else if f@ == seq![98u8] {
                    r is Ok && final(self)@ == (BoardState { side: Colour::Black, ..old(self)@ })
                } else {
                    r == Err::<(), FenError>(FenError::InvalidSide) && final(self)@ == old(self)@
                },
            },
    {
        match side_part {
            Some(f) => {
                if f.len() == 1 && f[0] == 119u8 {
                    proof {
                        assert(f@ =~= seq![119u8]);
                    }
                    self.side = Colour::White;
                    Ok(())
                } else if f.len() == 1 && f[0] == 98u8 {
                    proof {
                        assert(f@ =~= seq![98u8]);
                    }
                    self.side = Colour::Black;
                    Ok(())
                } else {
                    proof {
                        if f@ == seq![119u8] || f@ == seq![98u8] {
                            assert(f@.len() == 1);
                        }
                    }
                    Err(FenError::InvalidSide)
                }
            },
            None => Err(FenError::MissingSide),
        }
    }

    /// Sets the halfmove clock from its field.
    fn set_halfmove(&mut self, halfmove_part: Option<&[u8]>) -> (r: Result<(), FenError>)
        ensures
            match halfmove_part {
                None => r == Err::<(), FenError>(FenError::MissingHalfmove) && final(self)@ == old(self)@,
                Some(f) => match parse_unsigned(f@, 255) {
                    Some(v) => r is Ok && final(self)@ == (BoardState { seventy_move_counter: v as u8, ..old(self)@ }),
                    None => r == Err::<(), FenError>(FenError::InvalidHalfmove) && final(self)@ == old(self)@,
                },
            },
    {
        match halfmove_part {
            None => Err(FenError::MissingHalfmove),
            Some(f) => match parse_decimal(f, 255) {
                Some(v) => {
                    self.seventy_move_counter = v as u8;
                    Ok(())
                },
                None => Err(FenError::InvalidHalfmove),
            },
        }
    }

    /// Sets the ply count from the fullmove number field and the side to move.
    fn set_fullmove(&mut self, fullmove_part: Option<&[u8]>) -> (r: Result<(), FenError>)
        requires
            fullmove_part matches Some(f) ==> (parse_unsigned(f@, usize::MAX as nat) matches Some(n)
                ==> 1 <= n && (n - 1) * 2 + 1 <= usize::MAX),
        ensures
            match fullmove_part {
                None => r == Err::<(), FenError>(FenError::MissingFullmove) && final(self)@ == old(self)@,
                Some(f) => match parse_unsigned(f@, usize::MAX as nat) {
                    Some(n) => r is Ok && final(self)@ == (BoardState {
                        ply: ((n - 1) * 2 + if old(self)@.side == Colour::Black { 1int } else { 0 }) as usize,
                        ..old(self)@
                    }),
                    None => r == Err::<(), FenError>(FenError::InvalidFullmove) && final(self)@ == old(self)@,
                },
            },
    {
        match fullmove_part {
            None => Err(FenError::MissingFullmove),
            Some(f) => match parse_decimal(f, usize::MAX as u64) {
                Some(n) => {
                    let fullmove_number = n as usize;
                    self.ply = (fullmove_number - 1) * 2;
                    if self.side == Colour::Black {
                        self.ply = self.ply + 1;
                    }
                    Ok(())
                },
                None => Err(FenError::InvalidFullmove),
            },
        }
    }
}

impl Board {
    /// Reads the piece placement `board`: on success the pieces stand where
    /// the placement puts them, and the result tells whether a piece was put
    /// on a square holding a different one (that square keeps its first piece).
    fn place_pieces(&mut self, board: &[u8]) -> (r: Result<bool, FenError>)
        requires
            old(self)@.pieces.matches(old(self)@.pos()),
            old(self)@.pos() == Seq::new(64, |i: int| None::<Piece>),
            placement(board@) !is Stuck,
        ensures
            final(self)@ == (BoardState { pieces: final(self)@.pieces, piece_array: final(self)@.piece_array, ..old(self)@ }),
            final(self)@.pieces.matches(final(self)@.pos()),
            match placement(board@) {
                Placed::Going { rank, file, pos, clash } => r == Ok::<bool, FenError>(clash) && final(self)@.pos() == pos,
                Placed::Bad { c } => r == Err::<bool, FenError>(FenError::UnexpectedChar(c)),
                Placed::Stuck => false,
            },
    {
        let ghost st0 = self@;
        let mut rank = Rank::Eight;
        let mut file = File::A;
        let mut clash = false;
        let mut i: usize = 0;
        proof {
            assert(board@.subrange(0, 0) =~= Seq::<u8>::empty());
            assert(self@.pos() =~= Seq::new(64, |i: int| None::<Piece>));
        }
        while i < board.len()
            invariant
                st0 == old(self)@,
                0 <= i <= board@.len(),
                placement(board@) !is Stuck,
                placement(board@.subrange(0, i as int))
                    == (Placed::Going { rank: rank.idx(), file: file.idx(), pos: self@.pos(), clash }),
                self@ == (BoardState { pieces: self@.pieces, piece_array: self@.piece_array, ..st0 }),
                self@.pieces.matches(self@.pos()),
            decreases board@.len() - i,
        {
            let c = board[i];
            let ghost before = board@.subrange(0, i as int);
            let ghost after = board@.subrange(0, i + 1);
            proof {
                assert(after.drop_last() =~= before);
                assert(after.last() == c);
                assert(placement(after) == place_step(placement(before), c));
            }
            match piece_from_fen_char(c) {
                Some(p) => {
                    let sq = Square::from_rank_file(rank, file);
                    match self.piece_at(sq) {
                        Some(q) if q != p => {
                            clash = true;
                        },
                        _ => {
                            self.add_piece(sq, p);
                        },
                    }
                    file = match file.add(1) {
                        Some(f) => f,
                        None => File::H,
                    };
                },
                None => {
                    if c >= 49u8 && c <= 56u8 {
                        let mut j: u8 = 0;
                        let ghost f0 = file.idx();
                        while j < c - 48u8
                            invariant
                                49u8 <= c <= 56u8,
                                j <= c - 48u8,
                                0 <= f0 < 8,
                                file.idx() == min7(f0 + j),
                            decreases c - 48u8 - j,
                        {
                            file = match file.add(1) {
                                Some(f) => f,
                                None => File::H,
                            };
                            j = j + 1;
                        }
                    } else if c == 47u8 {
                        let below = rank.sub(1);
                        proof {
                            if below is None {
                                lemma_placement_stops(board@, i + 1);
                            }
                        }
                        rank = below.unwrap();
                        file = File::A;
                    } else {
                        proof {
                            lemma_placement_stops(board@, i + 1);
                        }
                        return Err(FenError::UnexpectedChar(c));
                    }
                },
            }
            i = i + 1;
        }
        proof {
            assert(board@.subrange(0, board@.len() as int) =~= board@);
        }
        Ok(clash)
    }

    /// Sets up the board from a FEN string. Of the fields after the piece
    /// placement, castling and en-passant are skipped.
    pub fn set_from_fen(&mut self, fen: &str) -> (r: Result<(), FenError>)
        requires
            fen_parse(fen) !is Stuck,
            fen_parse(fen) matches FenParse::Ready(s) ==> loadable(s),
            fen_parse(fen) matches FenParse::Clash(s) ==> fullmove_fits(s),
        ensures
            match fen_parse(fen) {
                FenParse::Fail(e) => r == Err::<(), FenError>(e),
                FenParse::Clash(_) => r == Err::<(), FenError>(FenError::OccupiedSquare),
                FenParse::Ready(s) => r is Ok && loaded(final(self)@, s),
                FenParse::Stuck => false,
            },
            fen_parse(fen) == FenParse::Fail(FenError::NotAscii) ==> final(self)@ == old(self)@,
    {
        if !fen.is_ascii() {
            return Err(FenError::NotAscii);
        }
        self.reset();
        let bytes = fen.as_bytes();
        proof {
            broadcast use vstd::string::is_ascii_spec_bytes;
            assert(bytes@ =~= ascii_bytes(fen@));
        }
        let split_idx = find_space(bytes, 0);
        proof {
            assert(bytes@.subrange(0, bytes@.len() as int) =~= bytes@);
        }
        if split_idx >= bytes.len() {
            return Err(FenError::MissingSpace);
        }
        let (board_part, info_part) = bytes.split_at(split_idx);
        let ghost bs = bytes@;
        proof {
            assert(bs == ascii_bytes(fen@));
            assert(first_space(bs) == split_idx);
            assert(board_part@ == bs.subrange(0, split_idx as int));
        }
        let clash = match self.place_pieces(board_part) {
            Ok(clash) => clash,
            Err(e) => {
                return Err(e);
            },
        };
        let info = vstd::slice::slice_subrange(info_part, 1, info_part.len());
        let ghost fields = split_fields(info@);
        proof {
            assert(info@ =~= bytes@.subrange(split_idx + 1, bytes@.len() as int));
            lemma_split_fields_len(info@);
        }
        match self.set_side(field_at(info, 0)) {
            Ok(()) => {},
            Err(e) => {
                return Err(e);
            },
        }
        match self.set_halfmove(field_at(info, 3)) {
            Ok(()) => {},
            Err(e) => {
                return Err(e);
            },
        }
        let full_field = field_at(info, 4);
        proof {
            assert(full_field matches Some(f) ==> (parse_unsigned(f@, usize::MAX as nat) matches Some(n)
                ==> 1 <= n && (n - 1) * 2 + 1 <= usize::MAX)) by {
                if let Some(f) = full_field {
                    if let Some(n) = parse_unsigned(f@, usize::MAX as nat) {
                        assert(fields[4] == f@);
                        assert(fen_parse(fen) is Ready || fen_parse(fen) is Clash);
                        if let FenParse::Ready(s) = fen_parse(fen) {
                            assert(s.fullmove == n);
                            assert(loadable(s));
                        }
                        if let FenParse::Clash(s) = fen_parse(fen) {
                            assert(s.fullmove == n);
                            assert(fullmove_fits(s));
                        }
                    }
                }
            }
        }
        match self.set_fullmove(full_field) {
            Ok(()) => {},
            Err(e) => {
                return Err(e);
            },
        }
        if clash {
            return Err(FenError::OccupiedSquare);
        }
        proof {
            if let FenParse::Ready(s) = fen_parse(fen) {
                let kw = choose|k: int| 0 <= k < 64 && #[trigger] only_king_on(s.pos, Colour::White, k);
                let kb = choose|k: int| 0 <= k < 64 && #[trigger] only_king_on(s.pos, Colour::Black, k);
                lemma_single_king(self@.pieces, self@.pos(), Colour::White, kw);
                lemma_single_king(self@.pieces, self@.pos(), Colour::Black, kb);
            }
            self@.pieces.lemma_matches_pos(self@.pos());
        }
        self.regenerate_zobrist();
        self.regenerate_threats();
        Ok(())
    }

    /// A board set up from a FEN string.
    pub fn from_fen(fen: &str) -> (r: Result<Board, FenError>)
        requires
            fen_parse(fen) !is Stuck,
            fen_parse(fen) matches FenParse::Ready(s) ==> loadable(s),
            fen_parse(fen) matches FenParse::Clash(s) ==> fullmove_fits(s),
        ensures
            match fen_parse(fen) {
                FenParse::Fail(e) => r == Err::<Board, FenError>(e),
                FenParse::Clash(_) => r == Err::<Board, FenError>(FenError::OccupiedSquare),
                FenParse::Ready(s) => r matches Ok(b) && loaded(b@, s),
                FenParse::Stuck => false,
            },
    {
        let mut out = Board::new();
        match out.set_from_fen(fen) {
            Ok(()) => Ok(out),
            Err(e) => Err(e),
        }
    }
}

/// The piece on square `i` at the start of a game.
pub open spec fn start_piece(i: int) -> Option<Piece> {
    if 8 <= i < 16 {
        Some(Piece::WP)
    } else if 48 <= i < 56 {
        Some(Piece::BP)
    } else if i == 0 || i == 7 {
        Some(Piece::WR)
    } else if i == 1 || i == 6 {
        Some(Piece::WN)
    } else if i == 2 || i == 5 {
        Some(Piece::WA)
    } else if i == 3 {
        Some(Piece::WK)
    } else if i == 4 {
        Some(Piece::WF)
    } else if i == 56 || i == 63 {
        Some(Piece::BR)
    } else if i == 57 || i == 62 {
        Some(Piece::BN)
    } else if i == 58 || i == 61 {
        Some(Piece::BA)
    } else if i == 59 {
        Some(Piece::BK)
    } else if i == 60 {
        Some(Piece::BF)
    } else {
        None
    }
}

/// The position at the start of a game.
pub open spec fn start_position() -> Position {
    Seq::new(64, |i: int| start_piece(i))
}

/// What the starting FEN describes.
pub open spec fn start_state() -> FenState {
    FenState { pos: start_position(), side: Colour::White, halfmove: 0, fullmove: 1 }
}

fn start_piece_at(i: u8) -> (r: Option<Piece>)
    ensures
        r == start_piece(i as int),
{
    if 8 <= i && i < 16 {
        Some(Piece::WP)
    } else if 48 <= i && i < 56 {
        Some(Piece::BP)
    } else if i == 0 || i == 7 {
        Some(Piece::WR)
    } else if i == 1 || i == 6 {
        Some(Piece::WN)
    } else if i == 2 || i == 5 {
        Some(Piece::WA)
    } else if i == 3 {
        Some(Piece::WK)
    } else if i == 4 {
        Some(Piece::WF)
    } else if i == 56 || i == 63 {
        Some(Piece::BR)
    } else if i == 57 || i == 62 {
        Some(Piece::BN)
    } else if i == 58 || i == 61 {
        Some(Piece::BA)
    } else if i == 59 {
        Some(Piece::BK)
    } else if i == 60 {
        Some(Piece::BF)
    } else {
        None
    }
}

impl Board {
    /// The FEN string of the position at the start of a game.
    pub const STARTING_FEN: &'static str = "rnbkqbnr/pppppppp/8/8/8/8/PPPPPPPP/RNBKQBNR w - - 0 1";

    /// Sets up the position at the start of a game, white to move.
    pub fn set_startpos(&mut self)
        ensures
            loaded(final(self)@, start_state()),
    {
        self.reset();
        let mut i: u8 = 0;
        proof {
            assert(self@.pos() =~= Seq::new(64, |j: int| if j < 0 { start_piece(j) } else { None::<Piece> }));
        }
        while i < 64
            invariant
                i <= 64,
                self@.pieces.matches(self@.pos()),
                self@.pos() == Seq::new(64, |j: int| if j < i { start_piece(j) } else { None::<Piece> }),
                self@.side == Colour::White,
                self@.seventy_move_counter == 0,
                self@.ply == 0,
                self@.height == 0,
                self@.history.len() == 0,
            decreases 64 - i,
        {
            let sq = Square::from_index(i);
            if let Some(p) = start_piece_at(i) {
                self.add_piece(sq, p);
            }
            proof {
                assert(self@.pos() =~= Seq::new(64, |j: int| if j < i + 1 { start_piece(j) } else { None::<Piece> }));
            }
            i = i + 1;
        }
        proof {
            assert(self@.pos() =~= start_position());
            lemma_single_king(self@.pieces, self@.pos(), Colour::White, 3);
            lemma_single_king(self@.pieces, self@.pos(), Colour::Black, 59);
            self@.pieces.lemma_matches_pos(self@.pos());
        }
        self.regenerate_zobrist();
        self.regenerate_threats();
    }
}

impl Default for Board {
    /// The position at the start of a game.
    fn default() -> (r: Board)
        ensures
            loaded(r@, start_state()),
    {
        let mut out = Board::new();
        out.set_startpos();
        out
    }
}

// ---------------------------------------------------------------------------
// Writing a position in Forsyth-Edwards notation.
// ---------------------------------------------------------------------------

/// The FEN text of rank `r` from file `f` on, with `run` empty squares met
/// just before: a piece by its letter, a run of empty squares by its length.
pub open spec fn rank_text(pos: Position, r: int, f: int, run: nat) -> Seq<char>
    decreases 8 - f,
{
    if f >= 8 {
        if run > 0 { dec(run) } else { Seq::empty() }
    } else {
        match pos[r * 8 + f] {
            Some(p) => (if run > 0 { dec(run) } else { Seq::empty() }) + seq![piece_char_spec(p) as char] + rank_text(pos, r, f + 1, 0),
            None => rank_text(pos, r, f + 1, run + 1),
        }
    }
}

/// The FEN text of ranks `r` down to the first, separated by `/`.
pub open spec fn ranks_text(pos: Position, r: int) -> Seq<char>
    decreases r,
{
    if r <= 0 {
        rank_text(pos, 0, 0, 0)
    } else {
        rank_text(pos, r, 0, 0) + seq!['/'] + ranks_text(pos, r - 1)
    }
}

/// The FEN text of a board: the piece placement from the eighth rank down,
/// the side to move, no castling and no en-passant square, the halfmove clock
/// and the fullmove number.
pub open spec fn fen_text(st: BoardState) -> Seq<char> {
    ranks_text(st.pos(), 7)
        + (if st.side == Colour::White { seq![' ', 'w'] } else { seq![' ', 'b'] })
        + seq![' ', '-', ' ', '-', ' ']
        + dec(st.seventy_move_counter as nat)
        + seq![' ']
        + dec((st.ply / 2 + 1) as nat)
}

impl Board {
    /// Appends the FEN text of rank `rank`.
    fn append_rank(&self, out: &mut String, rank: u8)
        requires
            rank < 8,
        ensures
            final(out)@ == old(out)@ + rank_text(self@.pos(), rank as int, 0, 0),
    {
        let ghost base = out@;
        let ghost pos = self@.pos();
        let mut counter: u64 = 0;
        let mut file: u8 = 0;
        proof {
            assert(out@ + rank_text(pos, rank as int, 0, 0) =~= base + rank_text(pos, rank as int, 0, 0));
        }
        while file < 8
            invariant
                rank < 8,
                file <= 8,
                counter <= file,
                pos == self@.pos(),
                out@ + rank_text(pos, rank as int, file as int, counter as nat) == base + rank_text(pos, rank as int, 0, 0),
            decreases 8 - file,
        {
            let sq = Square::from_index(rank * 8 + file);
            let ghost before = out@;
            match self.piece_at(sq) {
                Some(piece) => {
                    if counter != 0 {
                        append_decimal(out, counter);
                    }
                    let ghost mid = out@;
                    out.append(piece_str(piece));
                    proof {
                        let run_text = if counter > 0 { dec(counter as nat) } else { Seq::<char>::empty() };
                        assert(mid =~= before + run_text);
                        assert(out@ + rank_text(pos, rank as int, file + 1, 0) =~= before + rank_text(pos, rank as int, file as int, counter as nat));
                    }
                    counter = 0;
                },
                None => {
                    counter = counter + 1;
                },
            }
            file = file + 1;
        }
        let ghost before = out@;
        if counter != 0 {
            append_decimal(out, counter);
        }
        proof {
            assert(out@ =~= before + rank_text(pos, rank as int, 8, counter as nat));
            assert(out@ =~= base + rank_text(pos, rank as int, 0, 0));
        }
    }

    /// The board in Forsyth-Edwards notation.
    pub fn to_string(&self) -> (r: String)
        ensures
            r@ == fen_text(self@),
    {
        let ghost pos = self@.pos();
        proof {
            reveal_strlit("");
        }
        let mut out = String::from_str("");
        let mut rank: u8 = 7;
        loop
            invariant_except_break
                rank < 8,
                pos == self@.pos(),
                out@ + ranks_text(pos, rank as int) == ranks_text(pos, 7),
            ensures
                pos == self@.pos(),
                out@ == ranks_text(pos, 7),
            decreases rank,
        {
            let ghost before = out@;
            self.append_rank(&mut out, rank);
            if rank == 0 {
                proof {
                    assert(out@ =~= ranks_text(pos, 7));
                }
                break;
            }
            proof {
                reveal_strlit("/");
            }
            out.append("/");
            proof {
                assert(out@ + ranks_text(pos, rank - 1) =~= before + ranks_text(pos, rank as int));
            }
            rank = rank - 1;
        }
        let ghost placed = out@;
        if self.side == Colour::White {
            proof {
                reveal_strlit(" w");
            }
            out.append(" w");
        } else {
            proof {
                reveal_strlit(" b");
            }
            out.append(" b");
        }
        proof {
            reveal_strlit(" - - ");
            reveal_strlit(" ");
        }
        out.append(" - - ");
        append_decimal(&mut out, self.seventy_move_counter as u64);
        out.append(" ");
        append_decimal(&mut out, (self.ply / 2 + 1) as u64);
        proof {
            assert(out@ =~= fen_text(self@));
        }
        out
    }
}


// ---------------------------------------------------------------------------
// A diagram of the board.
// ---------------------------------------------------------------------------

/// The cells of rank `r` from file `f` on: each piece by its letter, each
/// empty square by a dot, every cell followed by a space.
pub open spec fn diagram_cells(pos: Position, r: int, f: int) -> Seq<char>
    decreases 8 - f,
{
    if f >= 8 {
        Seq::empty()
    } else {
        let cell = match pos[r * 8 + f] {
            Some(p) => piece_char_spec(p) as char,
            None => '.',
        };
        seq![cell, ' '] + diagram_cells(pos, r, f + 1)
    }
}

/// The lines of ranks `r` down to the first: the rank's number, then its cells.
pub open spec fn diagram_ranks(pos: Position, r: int) -> Seq<char>
    decreases r + 1,
{
    if r < 0 {
        Seq::empty()
    } else {
        seq![rank_digit(r), ' '] + diagram_cells(pos, r, 0) + seq!['\n'] + diagram_ranks(pos, r - 1)
    }
}

/// The diagram of a board: its ranks from the eighth down, the files'
/// letters, and its FEN text.
pub open spec fn diagram_text(st: BoardState) -> Seq<char> {
    diagram_ranks(st.pos(), 7) + "  a b c d e f g h\n"@ + "FEN: "@ + fen_text(st) + seq!['\n']
}

impl Board {
    /// The board drawn rank by rank, with its FEN text below.
    pub fn diagram(&self) -> (r: String)
        ensures
            r@ == diagram_text(self@),
    {
        let ghost pos = self@.pos();
        proof {
            reveal_strlit("");
        }
        let mut out = String::from_str("");
        let mut rank: u8 = 8;
        while rank > 0
            invariant
                rank <= 8,
                pos == self@.pos(),
                out@ + diagram_ranks(pos, rank - 1) == diagram_ranks(pos, 7),
            decreases rank,
        {
            rank = rank - 1;
            let ghost before = out@;
            out.append(rank_str(rank));
            proof {
                reveal_strlit(" ");
            }
            out.append(" ");
            let ghost row_start = out@;
            let mut file: u8 = 0;
            while file < 8
                invariant
                    rank < 8,
                    file <= 8,
                    pos == self@.pos(),
                    out@ + diagram_cells(pos, rank as int, file as int) == row_start + diagram_cells(pos, rank as int, 0),
                decreases 8 - file,
            {
                let ghost cur = out@;
                let sq = Square::from_index(rank * 8 + file);
                match self.piece_at(sq) {
                    Some(piece) => {
                        out.append(piece_str(piece));
                    },
                    None => {
                        proof {
                            reveal_strlit(".");
                        }
                        out.append(".");
                    },
                }
                proof {
                    reveal_strlit(" ");
                }
                out.append(" ");
                proof {
                    assert(out@ + diagram_cells(pos, rank as int, file + 1) =~= cur + diagram_cells(pos, rank as int, file as int));
                }
                file = file + 1;
            }
            proof {
                reveal_strlit("\n");
            }
            out.append("\n");
            proof {
                assert(out@ + diagram_ranks(pos, rank - 1) =~= before + diagram_ranks(pos, rank as int));
            }
        }
        proof {
            reveal_strlit("  a b c d e f g h\n");
            reveal_strlit("FEN: ");
            reveal_strlit("\n");
            assert(out@ =~= diagram_ranks(pos, 7));
        }
        out.append("  a b c d e f g h\n");
        out.append("FEN: ");
        let fen = self.to_string();
        out.append(fen.as_str());
        out.append("\n");
        proof {
            assert(out@ =~= diagram_text(self@));
        }
        out
    }
}

// ---------------------------------------------------------------------------
// Reading back what was written.
// ---------------------------------------------------------------------------

proof fn lemma_ascii_bytes_add(a: Seq<char>, b: Seq<char>)
    ensures
        ascii_bytes(a + b) == ascii_bytes(a) + ascii_bytes(b),
{
    assert(ascii_bytes(a + b) =~= ascii_bytes(a) + ascii_bytes(b));
}

/// The letter of a piece reads back as that piece.
proof fn lemma_piece_letter(p: Piece)
    ensures
        fen_piece((piece_char_spec(p) as char) as u8) == Some(p),
        (piece_char_spec(p) as char) as u8 == piece_char_spec(p),
        65 <= piece_char_spec(p) <= 122,
        !(48 <= piece_char_spec(p) <= 57),
{
    match p {
        Piece::WP => {}, Piece::WA => {}, Piece::WF => {}, Piece::WN => {}, Piece::WR => {}, Piece::WK => {},
        Piece::BP => {}, Piece::BA => {}, Piece::BF => {}, Piece::BN => {}, Piece::BR => {}, Piece::BK => {},
    }
}

/// The bytes of a decimal numeral are its digits, and they spell its value.
proof fn lemma_dec_bytes(n: nat)
    ensures
        dec(n).len() >= 1,
        ascii_bytes(dec(n)).len() == dec(n).len(),
        all_digits(ascii_bytes(dec(n))),
        digits_value(ascii_bytes(dec(n))) == n,
        forall|i: int| 0 <= i < dec(n).len() ==> 48 <= (#[trigger] dec(n)[i]) as int <= 57,
    decreases n,
{
    if n < 10 {
        let b = ascii_bytes(dec(n));
        assert(b.len() == 1);
        assert(b[0] == 48 + n);
        assert(b.last() == b[0]);
        assert(b.drop_last() =~= Seq::<u8>::empty());
        assert(digits_value(b) == digits_value(b.drop_last()) * 10 + (b.last() - 48u8) as nat);
    } else {
        lemma_dec_bytes(n / 10);
        let a = dec(n / 10);
        let d = seq![digit_char((n % 10) as int)];
        lemma_ascii_bytes_add(a, d);
        let b = ascii_bytes(dec(n));
        assert(b.drop_last() =~= ascii_bytes(a));
        assert(b.last() == 48 + n % 10);
        assert(digits_value(b) == digits_value(ascii_bytes(a)) * 10 + n % 10);
        assert(n == (n / 10) * 10 + n % 10);
        assert forall|i: int| 0 <= i < b.len() implies #[trigger] is_digit(b[i]) by {
            if i < a.len() {
                assert(b[i] == ascii_bytes(a)[i]);
            }
        }
        assert forall|i: int| 0 <= i < dec(n).len() implies 48 <= (#[trigger] dec(n)[i]) as int <= 57 by {
            if i < a.len() {
                assert(dec(n)[i] == a[i]);
            }
        }
    }
}

/// A decimal numeral reads back as its value.
proof fn lemma_dec_parses(n: nat, max: nat)
    requires
        n <= max,
    ensures
        parse_unsigned(ascii_bytes(dec(n)), max) == Some(n),
{
    lemma_dec_bytes(n);
    let b = ascii_bytes(dec(n));
    assert(is_digit(b[0]));
    assert(unsigned_digits(b) == b);
}

/// Reading placement bytes on from the state `s`.
pub open spec fn place_all(s: Placed, bs: Seq<u8>) -> Placed
    decreases bs.len(),
{
    if bs.len() == 0 {
        s
    } else {
        place_all(place_step(s, bs[0]), bs.drop_first())
    }
}

proof fn lemma_placement_concat(a: Seq<u8>, b: Seq<u8>)
    ensures
        placement(a + b) == place_all(placement(a), b),
    decreases b.len(),
{
    if b.len() == 0 {
        assert(a + b =~= a);
    } else {
        let a1 = a.push(b[0]);
        assert(a1.drop_last() =~= a);
        assert(a + b =~= a1 + b.drop_first());
        lemma_placement_concat(a1, b.drop_first());
    }
}

proof fn lemma_place_all_concat(s: Placed, a: Seq<u8>, b: Seq<u8>)
    ensures
        place_all(s, a + b) == place_all(place_all(s, a), b),
    decreases a.len(),
{
    if a.len() > 0 {
        assert((a + b).drop_first() =~= a.drop_first() + b);
        assert((a + b)[0] == a[0]);
        lemma_place_all_concat(place_step(s, a[0]), a.drop_first(), b);
    } else {
        assert(a + b =~= b);
    }
}

/// `p` with the squares of rank `r` from file `g` on taken from `pos`.
pub open spec fn fill_rank(p: Position, pos: Position, r: int, g: int) -> Position {
    Seq::new(p.len(), |i: int| if r * 8 + g <= i < r * 8 + 8 { pos[i] } else { p[i] })
}

/// Reading the text of rank `r` from file `f` on, with a run of `run` empty
/// squares pending, fills the rest of the rank from `pos`.
proof fn lemma_rank_place(pos: Position, r: int, f: int, run: nat, p: Position)
    requires
        0 <= r < 8,
        0 <= run <= f <= 8,
        p.len() == 64,
        pos.len() == 64,
        forall|g: int| f - run <= g < 8 ==> (#[trigger] p[r * 8 + g]) is None,
        forall|g: int| f - run <= g < f ==> (#[trigger] pos[r * 8 + g]) is None,
    ensures
        place_all(Placed::Going { rank: r, file: min7(f - run), pos: p, clash: false }, ascii_bytes(rank_text(pos, r, f, run)))
            == (Placed::Going { rank: r, file: 7, pos: fill_rank(p, pos, r, f - run), clash: false }),
    decreases 8 - f,
{
    reveal_with_fuel(place_all, 2);
    let start = Placed::Going { rank: r, file: min7(f - run), pos: p, clash: false };
    if f >= 8 {
        if run > 0 {
            let b = ascii_bytes(dec(run));
            assert(b =~= seq![(48 + run) as u8]);
            assert(b.drop_first() =~= Seq::<u8>::empty());
            assert(fill_rank(p, pos, r, f - run) =~= p) by {
                assert forall|i: int| 0 <= i < 64 implies #[trigger] fill_rank(p, pos, r, f - run)[i] == p[i] by {
                    if r * 8 + f - run <= i < r * 8 + 8 {
                        assert(p[r * 8 + (i - r * 8)] is None);
                        assert(pos[r * 8 + (i - r * 8)] is None);
                    }
                }
            }
        } else {
            assert(ascii_bytes(rank_text(pos, r, f, run)) =~= Seq::<u8>::empty());
            assert(fill_rank(p, pos, r, f - run) =~= p);
        }
    } else {
        let i = r * 8 + f;
        match pos[i] {
            Some(pc) => {
                let run_text = if run > 0 { dec(run) } else { Seq::<char>::empty() };
                let rest = rank_text(pos, r, f + 1, 0);
                let c = piece_char_spec(pc) as char;
                assert(rank_text(pos, r, f, run) == run_text + seq![c] + rest);
                lemma_ascii_bytes_add(run_text + seq![c], rest);
                lemma_ascii_bytes_add(run_text, seq![c]);
                let rb = ascii_bytes(run_text);
                let cb = ascii_bytes(seq![c]);
                lemma_place_all_concat(start, rb + cb, ascii_bytes(rest));
                lemma_place_all_concat(start, rb, cb);
                // the pending run moves the file to `f`
                let at_f = Placed::Going { rank: r, file: f, pos: p, clash: false };
                if run > 0 {
                    assert(rb =~= seq![(48 + run) as u8]);
                    assert(rb.drop_first() =~= Seq::<u8>::empty());
                    assert(place_all(start, rb) == at_f);
                } else {
                    assert(rb =~= Seq::<u8>::empty());
                    assert(place_all(start, rb) == at_f);
                }
                // the piece goes on its square
                lemma_piece_letter(pc);
                assert(cb =~= seq![piece_char_spec(pc)]);
                assert(cb.drop_first() =~= Seq::<u8>::empty());
                assert(p[r * 8 + f] is None);
                let p1 = p.update(i, Some(pc));
                assert(place_all(at_f, cb) == Placed::Going { rank: r, file: min7(f + 1), pos: p1, clash: false });
                assert forall|g: int| f + 1 <= g < 8 implies (#[trigger] p1[r * 8 + g]) is None by {
                    assert(p[r * 8 + g] is None);
                }
                lemma_rank_place(pos, r, f + 1, 0, p1);
                assert(fill_rank(p1, pos, r, f + 1) =~= fill_rank(p, pos, r, f - run)) by {
                    assert forall|j: int| 0 <= j < 64 implies #[trigger] fill_rank(p1, pos, r, f + 1)[j] == fill_rank(p, pos, r, f - run)[j] by {
                        if r * 8 + f - run <= j < r * 8 + f {
                            assert(p[r * 8 + (j - r * 8)] is None);
                            assert(pos[r * 8 + (j - r * 8)] is None);
                        }
                    }
                }
            },
            None => {
                assert(rank_text(pos, r, f, run) == rank_text(pos, r, f + 1, run + 1));
                lemma_rank_place(pos, r, f + 1, run + 1, p);
            },
        }
    }
}

/// `p` with the squares of ranks `r` and below taken from `pos`.
pub open spec fn fill_below(p: Position, pos: Position, r: int) -> Position {
    Seq::new(p.len(), |i: int| if i < r * 8 + 8 { pos[i] } else { p[i] })
}

/// Reading the text of ranks `r` down to the first fills them from `pos`.
proof fn lemma_ranks_place(pos: Position, r: int, p: Position)
    requires
        0 <= r < 8,
        p.len() == 64,
        pos.len() == 64,
        forall|i: int| 0 <= i < r * 8 + 8 ==> (#[trigger] p[i]) is None,
    ensures
        place_all(Placed::Going { rank: r, file: 0, pos: p, clash: false }, ascii_bytes(ranks_text(pos, r)))
            == (Placed::Going { rank: 0, file: 7, pos: fill_below(p, pos, r), clash: false }),
    decreases r,
{
    reveal_with_fuel(place_all, 2);
    assert forall|g: int| 0 <= g < 8 implies (#[trigger] p[r * 8 + g]) is None by {}
    lemma_rank_place(pos, r, 0, 0, p);
    let p1 = fill_rank(p, pos, r, 0);
    if r == 0 {
        assert(fill_rank(p, pos, r, 0) =~= fill_below(p, pos, r));
    } else {
        let rt = rank_text(pos, r, 0, 0);
        let rest = ranks_text(pos, r - 1);
        lemma_ascii_bytes_add(rt + seq!['/'], rest);
        lemma_ascii_bytes_add(rt, seq!['/']);
        let start = Placed::Going { rank: r, file: 0, pos: p, clash: false };
        let sb = ascii_bytes(seq!['/']);
        assert(sb =~= seq![47u8]);
        assert(sb.drop_first() =~= Seq::<u8>::empty());
        lemma_place_all_concat(start, ascii_bytes(rt) + sb, ascii_bytes(rest));
        lemma_place_all_concat(start, ascii_bytes(rt), sb);
        assert(place_all(Placed::Going { rank: r, file: 7, pos: p1, clash: false }, sb) == Placed::Going { rank: r - 1, file: 0, pos: p1, clash: false });
        assert forall|i: int| 0 <= i < (r - 1) * 8 + 8 implies (#[trigger] p1[i]) is None by {
            assert(p[i] is None);
        }
        lemma_ranks_place(pos, r - 1, p1);
        assert(fill_below(p1, pos, r - 1) =~= fill_below(p, pos, r));
    }
}

/// The characters of a rank's text: piece letters and the digits 1 to 8.
proof fn lemma_rank_text_chars(pos: Position, r: int, f: int, run: nat)
    requires
        0 <= r < 8,
        0 <= f <= 8,
        run <= f,
        pos.len() == 64,
    ensures
        forall|i: int| 0 <= i < rank_text(pos, r, f, run).len() ==> {
            let c = #[trigger] rank_text(pos, r, f, run)[i];
            48 < c as int <= 56 || 65 <= c as int <= 122
        },
    decreases 8 - f,
{
    if f >= 8 {
        if run > 0 {
            assert(dec(run) =~= seq![digit_char(run as int)]);
            assert(digit_char(run as int) as int == 48 + run);
            assert(rank_text(pos, r, f, run) == dec(run));
        } else {
            assert(rank_text(pos, r, f, run).len() == 0);
        }
    } else {
        match pos[r * 8 + f] {
            Some(pc) => {
                lemma_rank_text_chars(pos, r, f + 1, 0);
                assert(digit_char(run as int) as int == 48 + run);
                lemma_piece_letter(pc);
                let run_text = if run > 0 { dec(run) } else { Seq::<char>::empty() };
                if run > 0 {
                    assert(dec(run) =~= seq![digit_char(run as int)]);
                }
                let t = rank_text(pos, r, f, run);
                let rest = rank_text(pos, r, f + 1, 0);
                assert(t == run_text + seq![piece_char_spec(pc) as char] + rest);
                assert forall|i: int| 0 <= i < t.len() implies {
                    let c = #[trigger] t[i];
                    48 < c as int <= 56 || 65 <= c as int <= 122
                } by {
                    if i >= run_text.len() + 1 {
                        assert(t[i] == rest[i - run_text.len() - 1]);
                    }
                }
            },
            None => {
                lemma_rank_text_chars(pos, r, f + 1, run + 1);
                assert(rank_text(pos, r, f, run) == rank_text(pos, r, f + 1, run + 1));
            },
        }
    }
}

/// The characters of the ranks' text: piece letters, the digits 1 to 8 and `/`.
proof fn lemma_ranks_text_chars(pos: Position, r: int)
    requires
        0 <= r < 8,
        pos.len() == 64,
    ensures
        forall|i: int| 0 <= i < ranks_text(pos, r).len() ==> {
            let c = #[trigger] ranks_text(pos, r)[i];
            c == '/' || 48 < c as int <= 56 || 65 <= c as int <= 122
        },
    decreases r,
{
    lemma_rank_text_chars(pos, r, 0, 0);
    if r > 0 {
        lemma_ranks_text_chars(pos, r - 1);
        let a = rank_text(pos, r, 0, 0);
        let b = ranks_text(pos, r - 1);
        let t = ranks_text(pos, r);
        assert(t == a + seq!['/'] + b);
        assert forall|i: int| 0 <= i < t.len() implies {
            let c = #[trigger] t[i];
            c == '/' || 48 < c as int <= 56 || 65 <= c as int <= 122
        } by {
            if i < a.len() {
                assert(t[i] == a[i]);
            } else if i > a.len() {
                assert(t[i] == b[i - a.len() - 1]);
            }
        }
    }
}

proof fn lemma_first_space_concat(a: Seq<u8>, b: Seq<u8>)
    requires
        forall|i: int| 0 <= i < a.len() ==> a[i] != 32u8,
    ensures
        first_space(a + b) == a.len() + first_space(b),
    decreases a.len(),
{
    if a.len() > 0 {
        assert((a + b).drop_first() =~= a.drop_first() + b);
        assert((a + b)[0] == a[0]);
        lemma_first_space_concat(a.drop_first(), b);
    } else {
        assert(a + b =~= b);
    }
}

/// A field without spaces, a space, then the rest: the field comes first.
proof fn lemma_split_concat(a: Seq<u8>, b: Seq<u8>)
    requires
        forall|i: int| 0 <= i < a.len() ==> a[i] != 32u8,
    ensures
        split_fields(a + seq![32u8] + b) == seq![a] + split_fields(b),
{
    let s = a + seq![32u8] + b;
    assert(a + (seq![32u8] + b) =~= s);
    assert((seq![32u8] + b)[0] == 32u8);
    lemma_first_space_concat(a, seq![32u8] + b);
    assert(s.subrange(0, a.len() as int) =~= a);
    assert(s.subrange(a.len() as int + 1, s.len() as int) =~= b);
}

/// A text without spaces is one field.
proof fn lemma_split_single(a: Seq<u8>)
    requires
        forall|i: int| 0 <= i < a.len() ==> a[i] != 32u8,
    ensures
        split_fields(a) == seq![a],
{
    lemma_first_space_concat(a, Seq::<u8>::empty());
    assert(a + Seq::<u8>::empty() =~= a);
}

/// What the FEN text of a board describes.
pub open spec fn fen_state_of(st: BoardState) -> FenState {
    FenState {
        pos: st.pos(),
        side: st.side,
        halfmove: st.seventy_move_counter as nat,
        fullmove: (st.ply / 2 + 1) as nat,
    }
}

/// Reading back the FEN text of a board gives its position, its side to move,
/// its halfmove clock and its fullmove number; when the board is consistent,
/// that description can be loaded.
#[verifier::rlimit(40)]
pub proof fn lemma_fen_text_reads_back(st: BoardState, fen: &str)
    requires
        fen@ == fen_text(st),
    ensures
        fen_parse(fen) == FenParse::Ready(fen_state_of(st)),
        st.wf() ==> loadable(fen_state_of(st)),
{
    let pos = st.pos();
    let full = (st.ply / 2 + 1) as nat;
    let r = ranks_text(pos, 7);
    let side_t: Seq<char> = if st.side == Colour::White { seq![' ', 'w'] } else { seq![' ', 'b'] };
    let mid: Seq<char> = seq![' ', '-', ' ', '-', ' '];
    let d1 = dec(st.seventy_move_counter as nat);
    let d2 = dec(full);
    let rest = side_t + mid + d1 + seq![' '] + d2;
    assert(fen@ =~= r + rest);
    lemma_ranks_text_chars(pos, 7);
    lemma_dec_bytes(st.seventy_move_counter as nat);
    lemma_dec_bytes(full);

    // the text is ASCII
    assert(vstd::string::is_ascii(fen)) by {
        assert forall|i: int| 0 <= i < fen@.len() implies '\0' <= #[trigger] fen@[i] <= '\u{7f}' by {
            if i < r.len() {
                assert(fen@[i] == r[i]);
            } else {
                let j = i - r.len();
                assert(fen@[i] == rest[j]);
                let k = side_t.len() + mid.len();
                if j >= k && j < k + d1.len() {
                    assert(rest[j] == d1[j - k]);
                } else if j >= k + d1.len() + 1 {
                    assert(rest[j] == d2[j - k - d1.len() - 1]);
                }
            }
        }
    }

    // the bytes: the placement, then a space and the fields
    let bs = ascii_bytes(fen@);
    let rb = ascii_bytes(r);
    let wb: Seq<u8> = if st.side == Colour::White { seq![119u8] } else { seq![98u8] };
    let x4 = ascii_bytes(d1);
    let x5 = ascii_bytes(d2);
    let tail4 = x4 + seq![32u8] + x5;
    let tail3 = seq![45u8] + seq![32u8] + tail4;
    let tail2 = seq![45u8] + seq![32u8] + tail3;
    let tail1 = wb + seq![32u8] + tail2;
    lemma_ascii_bytes_add(r, rest);
    assert(ascii_bytes(rest) =~= seq![32u8] + tail1) by {
        lemma_ascii_bytes_add(side_t + mid + d1 + seq![' '], d2);
        lemma_ascii_bytes_add(side_t + mid + d1, seq![' ']);
        lemma_ascii_bytes_add(side_t + mid, d1);
        lemma_ascii_bytes_add(side_t, mid);
    }
    assert(bs =~= rb + (seq![32u8] + tail1));
    assert forall|i: int| 0 <= i < rb.len() implies rb[i] != 32u8 by {
        assert(rb[i] == r[i] as u8);
        let c = r[i];
        assert(c == '/' || 48 < c as int <= 56 || 65 <= c as int <= 122);
    }
    lemma_first_space_concat(rb, seq![32u8] + tail1);
    assert(first_space(seq![32u8] + tail1) == 0);
    let sp = first_space(bs);
    assert(sp == rb.len());
    assert(bs.subrange(0, sp) =~= rb);
    assert(bs.subrange(sp + 1, bs.len() as int) =~= tail1);

    // the placement gives the position
    let empty = Seq::new(64, |i: int| None::<Piece>);
    lemma_placement_concat(Seq::<u8>::empty(), rb);
    assert(Seq::<u8>::empty() + rb =~= rb);
    lemma_ranks_place(pos, 7, empty);
    assert(fill_below(empty, pos, 7) =~= pos);
    assert(placement(rb) == Placed::Going { rank: 0, file: 7, pos: pos, clash: false });

    // the fields
    assert forall|i: int| 0 <= i < x4.len() implies x4[i] != 32u8 by {
        assert(is_digit(x4[i]));
    }
    assert forall|i: int| 0 <= i < x5.len() implies x5[i] != 32u8 by {
        assert(is_digit(x5[i]));
    }
    lemma_split_single(x5);
    lemma_split_concat(x4, x5);
    lemma_split_concat(seq![45u8], tail4);
    lemma_split_concat(seq![45u8], tail3);
    lemma_split_concat(wb, tail2);
    let info = split_fields(tail1);
    assert(info =~= seq![wb, seq![45u8], seq![45u8], x4, x5]);
    lemma_dec_parses(st.seventy_move_counter as nat, 255);
    lemma_dec_parses(full, usize::MAX as nat);

    if st.wf() {
        lemma_king_squares(st.pieces, pos, Colour::White);
        lemma_king_squares(st.pieces, pos, Colour::Black);
        assert(only_king_on(pos, Colour::White, ksq(st.pieces, Colour::White)));
        assert(only_king_on(pos, Colour::Black, ksq(st.pieces, Colour::Black)));
    }
}

/// Reading a canonical FEN text (the text of some board) gives a board whose
/// text is that FEN text again.
pub proof fn lemma_fen_canonical_text(st: BoardState, fen: &str, b: BoardState)
    requires
        fen@ == fen_text(st),
        loaded(b, fen_state_of(st)),
    ensures
        fen_text(b) == fen@,
{
    let black: int = if st.side == Colour::Black { 1 } else { 0 };
    assert(b.ply == (st.ply / 2) * 2 + black);
    assert(b.ply / 2 == st.ply / 2);
    assert(b.pos() == st.pos());
}

} // verus!
