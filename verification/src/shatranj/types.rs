use vstd::prelude::*;

use crate::shatranj::piece::Colour;
use crate::shatranj::squareset::{SquareSet, bit, lemma_bit_single};
use crate::shatranj::piecelayout::{PieceLayout, Threats};
use crate::shatranj::piece::Piece;

verus! {

/// A rank of the board, from the first (white's back rank) to the eighth.
#[derive(Clone, Copy, Debug, PartialEq, Eq, Structural, Hash, PartialOrd, Ord)]
pub enum Rank {
    One,
    Two,
    Three,
    Four,
    Five,
    Six,
    Seven,
    Eight,
}

/// A file of the board, from the a-file to the h-file.
#[derive(Clone, Copy, Debug, PartialEq, Eq, Structural, Hash, PartialOrd, Ord)]
pub enum File {
    A,
    B,
    C,
    D,
    E,
    F,
    G,
    H,
}

impl Rank {
    pub open spec fn idx(self) -> int {
        self as int
    }

    pub fn index(self) -> (r: u8)
        ensures
            r == self.idx(),
            r < 8,
    {
        self as u8
    }

    pub fn from_index(i: u8) -> (r: Option<Rank>)
        ensures
            i < 8 <==> r is Some,
            r matches Some(rk) ==> rk.idx() == i,
    {
        match i {
            0 => Some(Rank::One),
            1 => Some(Rank::Two),
            2 => Some(Rank::Three),
            3 => Some(Rank::Four),
            4 => Some(Rank::Five),
            5 => Some(Rank::Six),
            6 => Some(Rank::Seven),
            7 => Some(Rank::Eight),
            _ => None,
        }
    }

    /// The rank `n` steps below this one, if there is one.
    pub fn sub(self, n: u8) -> (r: Option<Rank>)
        ensures
            r matches Some(rk) ==> rk.idx() == self.idx() - n,
            r is Some <==> self.idx() >= n,
    {
        let i = self.index();
        if i >= n {
            Rank::from_index(i - n)
        } else {
            None
        }
    }
}

impl File {
    pub open spec fn idx(self) -> int {
        self as int
    }

    pub fn index(self) -> (r: u8)
        ensures
            r == self.idx(),
            r < 8,
    {
        self as u8
    }

    pub fn from_index(i: u8) -> (r: Option<File>)
        ensures
            i < 8 <==> r is Some,
            r matches Some(f) ==> f.idx() == i,
    {
        match i {
            0 => Some(File::A),
            1 => Some(File::B),
            2 => Some(File::C),
            3 => Some(File::D),
            4 => Some(File::E),
            5 => Some(File::F),
            6 => Some(File::G),
            7 => Some(File::H),
            _ => None,
        }
    }

    /// The file `n` steps to the right of this one, if there is one.
    pub fn add(self, n: u8) -> (r: Option<File>)
        ensures
            r matches Some(f) ==> f.idx() == self.idx() + n,
            r is Some <==> self.idx() + n < 8,
    {
        let i = self.index();
        if n < 8 && i + n < 8 {
            File::from_index(i + n)
        } else {
            None
        }
    }
}

/// A square of the board; A1 is index 0, H1 is 7, A8 is 56 and H8 is 63.
#[derive(Clone, Copy, Debug, PartialEq, Eq, Structural, Hash, PartialOrd, Ord)]
pub enum Square {
    A1,
    B1,
    C1,
    D1,
    E1,
    F1,
    G1,
    H1,
    A2,
    B2,
    C2,
    D2,
    E2,
    F2,
    G2,
    H2,
    A3,
    B3,
    C3,
    D3,
    E3,
    F3,
    G3,
    H3,
    A4,
    B4,
    C4,
    D4,
    E4,
    F4,
    G4,
    H4,
    A5,
    B5,
    C5,
    D5,
    E5,
    F5,
    G5,
    H5,
    A6,
    B6,
    C6,
    D6,
    E6,
    F6,
    G6,
    H6,
    A7,
    B7,
    C7,
    D7,
    E7,
    F7,
    G7,
    H7,
    A8,
    B8,
    C8,
    D8,
    E8,
    F8,
    G8,
    H8
}

/// The rank of the square with index `i`.
pub open spec fn rank_of(i: int) -> int {
    i / 8
}

/// The file of the square with index `i`.
pub open spec fn file_of(i: int) -> int {
    i % 8
}

pub open spec fn abs_diff(a: int, b: int) -> int {
    if a >= b { a - b } else { b - a }
}

/// The king-move distance between the squares with indices `a` and `b`.
pub open spec fn chebyshev(a: int, b: int) -> int {
    let df = abs_diff(file_of(a), file_of(b));
    let dr = abs_diff(rank_of(a), rank_of(b));
    if df >= dr { df } else { dr }
}

impl Square {
    pub open spec fn idx(self) -> int {
        self as int
    }

    pub proof fn lemma_idx_bounds(self)
        ensures
            0 <= self.idx() < 64,
    {
    }

    /// The square with the given index (which must be on the board).
    pub fn from_index(i: u8) -> (r: Square)
        requires
            i < 64,
        ensures
            r.idx() == i,
    {
        match i {
            0 => Square::A1,
            1 => Square::B1,
            2 => Square::C1,
            3 => Square::D1,
            4 => Square::E1,
            5 => Square::F1,
            6 => Square::G1,
            7 => Square::H1,
            8 => Square::A2,
            9 => Square::B2,
            10 => Square::C2,
            11 => Square::D2,
            12 => Square::E2,
            13 => Square::F2,
            14 => Square::G2,
            15 => Square::H2,
            16 => Square::A3,
            17 => Square::B3,
            18 => Square::C3,
            19 => Square::D3,
            20 => Square::E3,
            21 => Square::F3,
            22 => Square::G3,
            23 => Square::H3,
            24 => Square::A4,
            25 => Square::B4,
            26 => Square::C4,
            27 => Square::D4,
            28 => Square::E4,
            29 => Square::F4,
            30 => Square::G4,
            31 => Square::H4,
            32 => Square::A5,
            33 => Square::B5,
            34 => Square::C5,
            35 => Square::D5,
            36 => Square::E5,
            37 => Square::F5,
            38 => Square::G5,
            39 => Square::H5,
            40 => Square::A6,
            41 => Square::B6,
            42 => Square::C6,
            43 => Square::D6,
            44 => Square::E6,
            45 => Square::F6,
            46 => Square::G6,
            47 => Square::H6,
            48 => Square::A7,
            49 => Square::B7,
            50 => Square::C7,
            51 => Square::D7,
            52 => Square::E7,
            53 => Square::F7,
            54 => Square::G7,
            55 => Square::H7,
            56 => Square::A8,
            57 => Square::B8,
            58 => Square::C8,
            59 => Square::D8,
            60 => Square::E8,
            61 => Square::F8,
            62 => Square::G8,
            _ => Square::H8,
        }
    }

    /// The square with the given index, if it is on the board.
    pub fn new(i: u8) -> (r: Option<Square>)
        ensures
            i < 64 <==> r is Some,
            r matches Some(s) ==> s.idx() == i,
    {
        if i < 64 {
            Some(Square::from_index(i))
        } else {
            None
        }
    }

    /// The square with the given index, clamped onto the board.
    pub fn new_clamped(i: u8) -> (r: Square)
        ensures
            r.idx() == if i < 64 { i as int } else { 63 },
    {
        if i < 64 {
            Square::from_index(i)
        } else {
            Square::H8
        }
    }

    pub fn index(self) -> (r: usize)
        ensures
            r == self.idx(),
            r < 64,
    {
        self as usize
    }

    pub fn inner(self) -> (r: u8)
        ensures
            r == self.idx(),
            r < 64,
    {
        self as u8
    }

    pub fn signed_inner(self) -> (r: i16)
        ensures
            r == self.idx(),
            0 <= r < 64,
    {
        self as u8 as i16
    }

    pub fn rank(self) -> (r: Rank)
        ensures
            r.idx() == rank_of(self.idx()),
    {
        let i = self as u8;
        match Rank::from_index(i / 8) {
            Some(r) => r,
            None => Rank::Eight,
        }
    }

    pub fn file(self) -> (r: File)
        ensures
            r.idx() == file_of(self.idx()),
    {
        let i = self as u8;
        match File::from_index(i % 8) {
            Some(f) => f,
            None => File::H,
        }
    }

    pub fn from_rank_file(rank: Rank, file: File) -> (r: Square)
        ensures
            r.idx() == rank.idx() * 8 + file.idx(),
    {
        Square::from_index(rank.index() * 8 + file.index())
    }

    /// The square `n` steps further along in index order, if there is one.
    pub fn add(self, n: u8) -> (r: Option<Square>)
        ensures
            r is Some <==> self.idx() + n < 64,
            r matches Some(s) ==> s.idx() == self.idx() + n,
    {
        let i = self as u8;
        if n < 64 && i + n < 64 {
            Some(Square::from_index(i + n))
        } else {
            None
        }
    }

    /// The square `n` steps further along in index order, stopping at H8.
    pub fn saturating_add(self, n: u8) -> (r: Square)
        ensures
            r.idx() == if self.idx() + n < 64 { self.idx() + n } else { 63 },
    {
        match self.add(n) {
            Some(s) => s,
            None => Square::H8,
        }
    }

    /// The square a pawn of `side` on this square would advance to, if any.
    pub fn pawn_push(self, side: Colour) -> (r: Option<Square>)
        ensures
            r is Some <==> pawn_push_idx(self.idx(), side) is Some,
            r matches Some(s) ==> pawn_push_idx(self.idx(), side) == Some(s.idx()),
    {
        let i = self as u8;
        match side {
            Colour::White => {
                if i < 56 {
                    Some(Square::from_index(i + 8))
                } else {
                    None
                }
            },
            Colour::Black => {
                if i >= 8 {
                    Some(Square::from_index(i - 8))
                } else {
                    None
                }
            },
        }
    }

    /// The king-move distance between two squares.
    pub fn distance(a: Square, b: Square) -> (r: u8)
        ensures
            r == chebyshev(a.idx(), b.idx()),
    {
        let fa = a.file().index();
        let fb = b.file().index();
        let ra = a.rank().index();
        let rb = b.rank().index();
        let df = if fa >= fb { fa - fb } else { fb - fa };
        let dr = if ra >= rb { ra - rb } else { rb - ra };
        if df >= dr { df } else { dr }
    }

    /// The set holding just this square.
    pub fn as_set(self) -> (r: SquareSet)
        ensures
            forall|j: int| bit(r.inner, j) <==> j == self.idx(),
    {
        let i = self as u64;
        proof {
            assert forall|j: int| bit(1u64 << i, j) <==> j == self.idx() by {
                lemma_bit_single(i, j);
            }
        }
        SquareSet::from_inner(1u64 << i)
    }

    /// All the squares of the board, in index order.
    pub fn all() -> (r: Vec<Square>)
        ensures
            r.len() == 64,
            forall|i: int| 0 <= i < 64 ==> (#[trigger] r@[i]).idx() == i,
    {
        let mut v: Vec<Square> = Vec::new();
        let mut i: u8 = 0;
        while i < 64
            invariant
                i <= 64,
                v.len() == i,
                forall|j: int| 0 <= j < i ==> (#[trigger] v@[j]).idx() == j,
            decreases 64 - i,
        {
            v.push(Square::from_index(i));
            i = i + 1;
        }
        v
    }
}

/// The index of the square a pawn of `side` on square `i` advances to, if any.
pub open spec fn pawn_push_idx(i: int, side: Colour) -> Option<int> {
    match side {
        Colour::White => if i < 56 { Some(i + 8) } else { None },
        Colour::Black => if i >= 8 { Some(i - 8) } else { None },
    }
}

/// The square with index `i` (H8 for indices off the board).
pub open spec fn sq_at(i: int) -> Square {
    choose|s: Square| s.idx() == i || (!(0 <= i < 64) && s == Square::H8)
}

pub proof fn lemma_sq_at(s: Square)
    ensures
        sq_at(s.idx()) == s,
{
    assert(s.idx() == s.idx());
}

impl Square {
    pub open spec fn from_index_spec(i: int) -> Square
        recommends
            0 <= i < 64,
    {
        if i == 0 { Square::A1 } else
        if i == 1 { Square::B1 } else
        if i == 2 { Square::C1 } else
        if i == 3 { Square::D1 } else
        if i == 4 { Square::E1 } else
        if i == 5 { Square::F1 } else
        if i == 6 { Square::G1 } else
        if i == 7 { Square::H1 } else
        if i == 8 { Square::A2 } else
        if i == 9 { Square::B2 } else
        if i == 10 { Square::C2 } else
        if i == 11 { Square::D2 } else
        if i == 12 { Square::E2 } else
        if i == 13 { Square::F2 } else
        if i == 14 { Square::G2 } else
        if i == 15 { Square::H2 } else
        if i == 16 { Square::A3 } else
        if i == 17 { Square::B3 } else
        if i == 18 { Square::C3 } else
        if i == 19 { Square::D3 } else
        if i == 20 { Square::E3 } else
        if i == 21 { Square::F3 } else
        if i == 22 { Square::G3 } else
        if i == 23 { Square::H3 } else
        if i == 24 { Square::A4 } else
        if i == 25 { Square::B4 } else
        if i == 26 { Square::C4 } else
        if i == 27 { Square::D4 } else
        if i == 28 { Square::E4 } else
        if i == 29 { Square::F4 } else
        if i == 30 { Square::G4 } else
        if i == 31 { Square::H4 } else
        if i == 32 { Square::A5 } else
        if i == 33 { Square::B5 } else
        if i == 34 { Square::C5 } else
        if i == 35 { Square::D5 } else
        if i == 36 { Square::E5 } else
        if i == 37 { Square::F5 } else
        if i == 38 { Square::G5 } else
        if i == 39 { Square::H5 } else
        if i == 40 { Square::A6 } else
        if i == 41 { Square::B6 } else
        if i == 42 { Square::C6 } else
        if i == 43 { Square::D6 } else
        if i == 44 { Square::E6 } else
        if i == 45 { Square::F6 } else
        if i == 46 { Square::G6 } else
        if i == 47 { Square::H6 } else
        if i == 48 { Square::A7 } else
        if i == 49 { Square::B7 } else
        if i == 50 { Square::C7 } else
        if i == 51 { Square::D7 } else
        if i == 52 { Square::E7 } else
        if i == 53 { Square::F7 } else
        if i == 54 { Square::G7 } else
        if i == 55 { Square::H7 } else
        if i == 56 { Square::A8 } else
        if i == 57 { Square::B8 } else
        if i == 58 { Square::C8 } else
        if i == 59 { Square::D8 } else
        if i == 60 { Square::E8 } else
        if i == 61 { Square::F8 } else
        if i == 62 { Square::G8 } else { Square::H8 }
    }
}

/// Whether a position is in check, checkmate, or neither.
#[derive(Clone, Copy, Debug, PartialEq, Eq, Structural)]
pub enum CheckState {
    NoCheck,
    Check,
    Checkmate,
}

/// The state that making a move saves, so that it can be unmade.
#[derive(Clone, Copy, Debug, PartialEq, Eq)]
pub struct Undo {
    pub seventy_move_counter: u8,
    pub threats: Threats,
    pub piece_layout: PieceLayout,
    pub piece_array: [Option<Piece>; 64],
    pub key: u64,
    pub pawn_key: u64,
    pub non_pawn_key: [u64; 2],
    pub minor_key: u64,
    pub major_key: u64,
}

} // verus!
