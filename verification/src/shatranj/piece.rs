use vstd::prelude::*;

verus! {

/// The colour of a side or of a piece.
#[derive(Clone, Copy, Debug, PartialEq, Eq, Structural, Hash, PartialOrd, Ord)]
pub enum Colour {
    White,
    Black,
}

impl Colour {
    pub open spec fn idx(self) -> int {
        self as int
    }

    pub open spec fn opp(self) -> Colour {
        match self {
            Colour::White => Colour::Black,
            Colour::Black => Colour::White,
        }
    }

    pub fn index(self) -> (r: usize)
        ensures
            r == self.idx(),
            r < 2,
    {
        self as usize
    }

    pub fn flip(self) -> (r: Colour)
        ensures
            r == self.opp(),
    {
        match self {
            Colour::White => Colour::Black,
            Colour::Black => Colour::White,
        }
    }
}

/// The six kinds of shatranj piece; the alfil and the ferz stand where the
/// bishop and the queen stand in chess.
#[derive(Clone, Copy, Debug, PartialEq, Eq, Structural, Hash, PartialOrd, Ord)]
pub enum PieceType {
    Pawn,
    Alfil,
    Ferz,
    Knight,
    Rook,
    King,
}

impl PieceType {
    pub open spec fn idx(self) -> int {
        self as int
    }

    pub fn index(self) -> (r: usize)
        ensures
            r == self.idx(),
            r < 6,
    {
        self as usize
    }

    pub fn from_index(i: usize) -> (r: PieceType)
        requires
            i < 6,
        ensures
            r.idx() == i,
    {
        match i {
            0 => PieceType::Pawn,
            1 => PieceType::Alfil,
            2 => PieceType::Ferz,
            3 => PieceType::Knight,
            4 => PieceType::Rook,
            _ => PieceType::King,
        }
    }

    /// Whether a pawn may promote to this piece type (only the ferz).
    pub fn legal_promo(self) -> (r: bool)
        ensures
            r == (self == PieceType::Ferz),
    {
        match self {
            PieceType::Ferz => true,
            _ => false,
        }
    }

    /// The letter of this piece type in FEN, upper case.
    pub fn upper_char(self) -> (r: u8)
        ensures
            r == upper_char_spec(self),
    {
        match self {
            PieceType::Pawn => 80u8,
            PieceType::Alfil => 66u8,
            PieceType::Ferz => 81u8,
            PieceType::Knight => 78u8,
            PieceType::Rook => 82u8,
            PieceType::King => 75u8,
        }
    }
}

pub open spec fn upper_char_spec(pt: PieceType) -> u8 {
    match pt {
        PieceType::Pawn => 80u8,
        PieceType::Alfil => 66u8,
        PieceType::Ferz => 81u8,
        PieceType::Knight => 78u8,
        PieceType::Rook => 82u8,
        PieceType::King => 75u8,
    }
}

/// A piece: a colour together with a piece type.
#[derive(Clone, Copy, Debug, PartialEq, Eq, Structural, Hash, PartialOrd, Ord)]
pub enum Piece {
    WP,
    WA,
    WF,
    WN,
    WR,
    WK,
    BP,
    BA,
    BF,
    BN,
    BR,
    BK,
}

pub open spec fn piece_of(c: Colour, t: PieceType) -> Piece {
    match (c, t) {
        (Colour::White, PieceType::Pawn) => Piece::WP,
        (Colour::White, PieceType::Alfil) => Piece::WA,
        (Colour::White, PieceType::Ferz) => Piece::WF,
        (Colour::White, PieceType::Knight) => Piece::WN,
        (Colour::White, PieceType::Rook) => Piece::WR,
        (Colour::White, PieceType::King) => Piece::WK,
        (Colour::Black, PieceType::Pawn) => Piece::BP,
        (Colour::Black, PieceType::Alfil) => Piece::BA,
        (Colour::Black, PieceType::Ferz) => Piece::BF,
        (Colour::Black, PieceType::Knight) => Piece::BN,
        (Colour::Black, PieceType::Rook) => Piece::BR,
        (Colour::Black, PieceType::King) => Piece::BK,
    }
}

impl Piece {
    pub open spec fn idx(self) -> int {
        self as int
    }

    pub open spec fn colour_spec(self) -> Colour {
        if self.idx() < 6 { Colour::White } else { Colour::Black }
    }

    pub open spec fn type_spec(self) -> PieceType {
        match self {
            Piece::WP | Piece::BP => PieceType::Pawn,
            Piece::WA | Piece::BA => PieceType::Alfil,
            Piece::WF | Piece::BF => PieceType::Ferz,
            Piece::WN | Piece::BN => PieceType::Knight,
            Piece::WR | Piece::BR => PieceType::Rook,
            Piece::WK | Piece::BK => PieceType::King,
        }
    }

    pub proof fn lemma_piece_of(self)
        ensures
            piece_of(self.colour_spec(), self.type_spec()) == self,
            self.idx() == self.colour_spec().idx() * 6 + self.type_spec().idx(),
            0 <= self.idx() < 12,
    {
    }

    pub proof fn lemma_of_piece(c: Colour, t: PieceType)
        ensures
            piece_of(c, t).colour_spec() == c,
            piece_of(c, t).type_spec() == t,
            piece_of(c, t).idx() == c.idx() * 6 + t.idx(),
    {
    }

    pub fn index(self) -> (r: usize)
        ensures
            r == self.idx(),
            r < 12,
    {
        self as usize
    }

    pub fn new(colour: Colour, piece_type: PieceType) -> (r: Piece)
        ensures
            r == piece_of(colour, piece_type),
    {
        match (colour, piece_type) {
            (Colour::White, PieceType::Pawn) => Piece::WP,
            (Colour::White, PieceType::Alfil) => Piece::WA,
            (Colour::White, PieceType::Ferz) => Piece::WF,
            (Colour::White, PieceType::Knight) => Piece::WN,
            (Colour::White, PieceType::Rook) => Piece::WR,
            (Colour::White, PieceType::King) => Piece::WK,
            (Colour::Black, PieceType::Pawn) => Piece::BP,
            (Colour::Black, PieceType::Alfil) => Piece::BA,
            (Colour::Black, PieceType::Ferz) => Piece::BF,
            (Colour::Black, PieceType::Knight) => Piece::BN,
            (Colour::Black, PieceType::Rook) => Piece::BR,
            (Colour::Black, PieceType::King) => Piece::BK,
        }
    }

    pub fn colour(self) -> (r: Colour)
        ensures
            r == self.colour_spec(),
    {
        if (self as u8) < 6 { Colour::White } else { Colour::Black }
    }

    pub fn piece_type(self) -> (r: PieceType)
        ensures
            r == self.type_spec(),
    {
        match self {
            Piece::WP | Piece::BP => PieceType::Pawn,
            Piece::WA | Piece::BA => PieceType::Alfil,
            Piece::WF | Piece::BF => PieceType::Ferz,
            Piece::WN | Piece::BN => PieceType::Knight,
            Piece::WR | Piece::BR => PieceType::Rook,
            Piece::WK | Piece::BK => PieceType::King,
        }
    }

    /// The letter of this piece in FEN: upper case for white, lower case for black.
    pub fn char(self) -> (r: u8)
        ensures
            r == piece_char_spec(self),
    {
        let c = self.piece_type().upper_char();
        match self.colour() {
            Colour::White => c,
            Colour::Black => c + 32,
        }
    }
}

pub open spec fn piece_char_spec(p: Piece) -> u8 {
    match p.colour_spec() {
        Colour::White => upper_char_spec(p.type_spec()),
        Colour::Black => (upper_char_spec(p.type_spec()) + 32) as u8,
    }
}

} // verus!
