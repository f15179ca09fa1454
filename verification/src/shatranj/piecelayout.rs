use vstd::prelude::*;

use crate::shatranj::piece::{Colour, Piece, PieceType, piece_of};
use crate::shatranj::squareset::{SquareSet, bit, lemma_bits_ops, lemma_bit_ext, lemma_bit_zero};
use crate::shatranj::types::Square;

verus! {

/// The squares attacked by the side not to move, and those of its pieces
/// that give check.
#[derive(Clone, Copy, Debug, PartialEq, Eq)]
pub struct Threats {
    pub all: SquareSet,
    pub checkers: SquareSet,
}

impl Threats {
    pub fn empty() -> (r: Threats)
        ensures
            r.all.inner == 0,
            r.checkers.inner == 0,
    {
        Threats { all: SquareSet::empty(), checkers: SquareSet::empty() }
    }
}

/// The square-sets of a position: one per piece type and one per colour.
#[derive(Clone, Copy, Debug, PartialEq, Eq)]
pub struct PieceLayout {
    pub pieces: [SquareSet; 6],
    pub colours: [SquareSet; 2],
}

/// A position as the piece standing on each of the 64 squares.
pub type Position = Seq<Option<Piece>>;

impl PieceLayout {
    pub open spec fn tbits(self, t: int) -> u64 {
        self.pieces@[t].inner
    }

    pub open spec fn cbits(self, c: int) -> u64 {
        self.colours@[c].inner
    }

    pub open spec fn colour_at(self, i: int) -> Option<Colour> {
        if bit(self.cbits(0), i) {
            Some(Colour::White)
        } else if bit(self.cbits(1), i) {
            Some(Colour::Black)
        } else {
            None
        }
    }

    pub open spec fn type_at(self, i: int) -> Option<PieceType> {
        if bit(self.tbits(0), i) {
            Some(PieceType::Pawn)
        } else if bit(self.tbits(1), i) {
            Some(PieceType::Alfil)
        } else if bit(self.tbits(2), i) {
            Some(PieceType::Ferz)
        } else if bit(self.tbits(3), i) {
            Some(PieceType::Knight)
        } else if bit(self.tbits(4), i) {
            Some(PieceType::Rook)
        } else if bit(self.tbits(5), i) {
            Some(PieceType::King)
        } else {
            None
        }
    }

    pub open spec fn piece_at_spec(self, i: int) -> Option<Piece> {
        match (self.colour_at(i), self.type_at(i)) {
            (Some(c), Some(t)) => Some(piece_of(c, t)),
            _ => None,
        }
    }

    /// The position that the square-sets describe.
    pub open spec fn pos(self) -> Position {
        Seq::new(64, |i: int| self.piece_at_spec(i))
    }

    /// The square-sets describe exactly the position `p`: a square is in the
    /// set of a type (of a colour) iff a piece of that type (colour) stands there.
    pub open spec fn matches(self, p: Position) -> bool {
        &&& p.len() == 64
        &&& forall|t: int, i: int| 0 <= t < 6 ==> (#[trigger] bit(self.tbits(t), i) <==> (0 <= i < 64 && p[i] is Some && p[i]->0.type_spec().idx() == t))
        &&& forall|c: int, i: int| 0 <= c < 2 ==> (#[trigger] bit(self.cbits(c), i) <==> (0 <= i < 64 && p[i] is Some && p[i]->0.colour_spec().idx() == c))
    }

    /// The square-sets are consistent: they describe some position.
    pub open spec fn wf(self) -> bool {
        self.matches(self.pos())
    }

    pub proof fn lemma_matches_pos(self, p: Position)
        requires
            self.matches(p),
        ensures
            self.pos() == p,
            self.wf(),
    {
        assert forall|i: int| 0 <= i < 64 implies self.pos()[i] == p[i] by {
            assert(bit(self.tbits(0), i) == (p[i] is Some && p[i]->0.type_spec().idx() == 0));
            assert(bit(self.tbits(1), i) == (p[i] is Some && p[i]->0.type_spec().idx() == 1));
            assert(bit(self.tbits(2), i) == (p[i] is Some && p[i]->0.type_spec().idx() == 2));
            assert(bit(self.tbits(3), i) == (p[i] is Some && p[i]->0.type_spec().idx() == 3));
            assert(bit(self.tbits(4), i) == (p[i] is Some && p[i]->0.type_spec().idx() == 4));
            assert(bit(self.tbits(5), i) == (p[i] is Some && p[i]->0.type_spec().idx() == 5));
            assert(bit(self.cbits(0), i) == (p[i] is Some && p[i]->0.colour_spec().idx() == 0));
            assert(bit(self.cbits(1), i) == (p[i] is Some && p[i]->0.colour_spec().idx() == 1));
            if p[i] is Some {
                p[i]->0.lemma_piece_of();
            }
        }
        assert(self.pos() =~= p);
    }

    /// A layout is determined by the position it describes.
    pub proof fn lemma_matches_unique(a: PieceLayout, b: PieceLayout, p: Position)
        requires
            a.matches(p),
            b.matches(p),
        ensures
            a == b,
    {
        assert forall|t: int| 0 <= t < 6 implies a.pieces@[t] == b.pieces@[t] by {
            assert forall|i: int| 0 <= i < 64 implies bit(a.tbits(t), i) == bit(b.tbits(t), i) by {
                assert(bit(a.tbits(t), i) == (0 <= i < 64 && p[i] is Some && p[i]->0.type_spec().idx() == t));
                assert(bit(b.tbits(t), i) == (0 <= i < 64 && p[i] is Some && p[i]->0.type_spec().idx() == t));
            }
            lemma_bit_ext(a.tbits(t), b.tbits(t));
        }
        assert forall|c: int| 0 <= c < 2 implies a.colours@[c] == b.colours@[c] by {
            assert forall|i: int| 0 <= i < 64 implies bit(a.cbits(c), i) == bit(b.cbits(c), i) by {
                assert(bit(a.cbits(c), i) == (0 <= i < 64 && p[i] is Some && p[i]->0.colour_spec().idx() == c));
                assert(bit(b.cbits(c), i) == (0 <= i < 64 && p[i] is Some && p[i]->0.colour_spec().idx() == c));
            }
            lemma_bit_ext(a.cbits(c), b.cbits(c));
        }
        assert(a.pieces =~= b.pieces);
        assert(a.colours =~= b.colours);
    }

    /// The layout with no pieces.
    pub fn null() -> (r: PieceLayout)
        ensures
            r.matches(Seq::new(64, |i: int| None::<Piece>)),
    {
        let e = SquareSet::empty();
        let r = PieceLayout { pieces: [e; 6], colours: [e; 2] };
        proof {
            assert forall|t: int, i: int| 0 <= t < 6 implies !#[trigger] bit(r.tbits(t), i) by {
                lemma_bit_zero(i);
            }
            assert forall|c: int, i: int| 0 <= c < 2 implies !#[trigger] bit(r.cbits(c), i) by {
                lemma_bit_zero(i);
            }
        }
        r
    }

    pub fn reset(&mut self)
        ensures
            final(self).matches(Seq::new(64, |i: int| None::<Piece>)),
    {
        *self = PieceLayout::null();
    }

    /// Puts `piece` on the square `sq`: its bit is set in the set of the
    /// piece's type and in that of its colour. When the layout is consistent
    /// and the square is empty or holds `piece` already, the layout describes
    /// the position with `piece` on `sq`.
    pub fn set_piece_at(&mut self, sq: Square, piece: Piece)
        ensures
            forall|tt: int, i: int| 0 <= tt < 6 ==> (#[trigger] bit(final(self).tbits(tt), i)
                <==> (bit(old(self).tbits(tt), i) || (tt == piece.type_spec().idx() && i == sq.idx()))),
            forall|cc: int, i: int| 0 <= cc < 2 ==> (#[trigger] bit(final(self).cbits(cc), i)
                <==> (bit(old(self).cbits(cc), i) || (cc == piece.colour_spec().idx() && i == sq.idx()))),
            old(self).matches(old(self).pos()) && (old(self).pos()[sq.idx()] is None || old(self).pos()[sq.idx()] == Some(piece))
                ==> final(self).matches(old(self).pos().update(sq.idx(), Some(piece))),
    {
        let ghost p = self.pos();
        let bb = sq.as_set();
        let t = piece.piece_type().index();
        let c = piece.colour().index();
        let nt = SquareSet::from_inner(self.pieces[t].inner | bb.inner);
        let nc = SquareSet::from_inner(self.colours[c].inner | bb.inner);
        proof {
            lemma_bits_ops(self.pieces[t as int].inner, bb.inner);
            lemma_bits_ops(self.colours[c as int].inner, bb.inner);
        }
        self.pieces[t] = nt;
        self.colours[c] = nc;
        proof {
            assert forall|tt: int, i: int| 0 <= tt < 6 implies (#[trigger] bit(self.tbits(tt), i)
                <==> (bit(old(self).tbits(tt), i) || (tt == piece.type_spec().idx() && i == sq.idx()))) by {
                if tt != t {
                    assert(self.tbits(tt) == old(self).tbits(tt));
                }
            }
            assert forall|cc: int, i: int| 0 <= cc < 2 implies (#[trigger] bit(self.cbits(cc), i)
                <==> (bit(old(self).cbits(cc), i) || (cc == piece.colour_spec().idx() && i == sq.idx()))) by {
                if cc != c {
                    assert(self.cbits(cc) == old(self).cbits(cc));
                }
            }
            if old(self).matches(p) && (p[sq.idx()] is None || p[sq.idx()] == Some(piece)) {
                let q = p.update(sq.idx(), Some(piece));
                assert forall|tt: int, i: int| 0 <= tt < 6 implies (#[trigger] bit(self.tbits(tt), i) <==> (0 <= i < 64 && q[i] is Some && q[i]->0.type_spec().idx() == tt)) by {
                    assert(bit(old(self).tbits(tt), i) <==> (0 <= i < 64 && p[i] is Some && p[i]->0.type_spec().idx() == tt));
                    if tt != t {
                        assert(self.tbits(tt) == old(self).tbits(tt));
                    }
                }
                assert forall|cc: int, i: int| 0 <= cc < 2 implies (#[trigger] bit(self.cbits(cc), i) <==> (0 <= i < 64 && q[i] is Some && q[i]->0.colour_spec().idx() == cc)) by {
                    assert(bit(old(self).cbits(cc), i) <==> (0 <= i < 64 && p[i] is Some && p[i]->0.colour_spec().idx() == cc));
                    if cc != c {
                        assert(self.cbits(cc) == old(self).cbits(cc));
                    }
                }
            }
        }
    }

    /// Takes `piece` off the square `sq`, where it stands.
    pub fn clear_piece_at(&mut self, sq: Square, piece: Piece)
        requires
            old(self).matches(old(self).pos()),
            old(self).pos()[sq.idx()] == Some(piece),
        ensures
            final(self).matches(old(self).pos().update(sq.idx(), None)),
    {
        let ghost p = self.pos();
        let bb = sq.as_set();
        let t = piece.piece_type().index();
        let c = piece.colour().index();
        let nt = SquareSet::from_inner(self.pieces[t].inner ^ bb.inner);
        let nc = SquareSet::from_inner(self.colours[c].inner ^ bb.inner);
        proof {
            lemma_bits_ops(self.pieces[t as int].inner, bb.inner);
            lemma_bits_ops(self.colours[c as int].inner, bb.inner);
            assert(bit(self.tbits(t as int), sq.idx()));
            assert(bit(self.cbits(c as int), sq.idx()));
        }
        self.pieces[t] = nt;
        self.colours[c] = nc;
        proof {
            let q = p.update(sq.idx(), None);
            assert forall|tt: int, i: int| 0 <= tt < 6 implies (#[trigger] bit(self.tbits(tt), i) <==> (0 <= i < 64 && q[i] is Some && q[i]->0.type_spec().idx() == tt)) by {
                if tt == t {
                    assert(bit(old(self).tbits(tt), i) <==> (0 <= i < 64 && p[i] is Some && p[i]->0.type_spec().idx() == tt));
                } else {
                    assert(self.tbits(tt) == old(self).tbits(tt));
                    assert(bit(old(self).tbits(tt), i) <==> (0 <= i < 64 && p[i] is Some && p[i]->0.type_spec().idx() == tt));
                }
            }
            assert forall|cc: int, i: int| 0 <= cc < 2 implies (#[trigger] bit(self.cbits(cc), i) <==> (0 <= i < 64 && q[i] is Some && q[i]->0.colour_spec().idx() == cc)) by {
                if cc == c {
                    assert(bit(old(self).cbits(cc), i) <==> (0 <= i < 64 && p[i] is Some && p[i]->0.colour_spec().idx() == cc));
                } else {
                    assert(self.cbits(cc) == old(self).cbits(cc));
                    assert(bit(old(self).cbits(cc), i) <==> (0 <= i < 64 && p[i] is Some && p[i]->0.colour_spec().idx() == cc));
                }
            }
        }
    }

    /// Moves `piece` from `from`, where it stands, to the empty square `to`.
    pub fn move_piece(&mut self, from: Square, to: Square, piece: Piece)
        requires
            old(self).matches(old(self).pos()),
            old(self).pos()[from.idx()] == Some(piece),
            old(self).pos()[to.idx()] is None,
        ensures
            final(self).matches(old(self).pos().update(from.idx(), None).update(to.idx(), Some(piece))),
    {
        let ghost p = self.pos();
        let fb = from.as_set();
        let tb = to.as_set();
        let ft = fb.inner | tb.inner;
        let t = piece.piece_type().index();
        let c = piece.colour().index();
        proof {
            lemma_bits_ops(fb.inner, tb.inner);
            lemma_bits_ops(self.pieces[t as int].inner, ft);
            lemma_bits_ops(self.colours[c as int].inner, ft);
        }
        let nt = SquareSet::from_inner(self.pieces[t].inner ^ ft);
        let nc = SquareSet::from_inner(self.colours[c].inner ^ ft);
        self.pieces[t] = nt;
        self.colours[c] = nc;
    }

    /// The piece on `sq`, if any.
    pub fn piece_at(&self, sq: Square) -> (r: Option<Piece>)
        ensures
            r == self.piece_at_spec(sq.idx()),
    {
        let colour = if self.colours[0].contains_square(sq) {
            Colour::White
        } else if self.colours[1].contains_square(sq) {
            Colour::Black
        } else {
            return None;
        };
        let mut t: usize = 0;
        while t < 6
            invariant
                t <= 6,
                forall|k: int| 0 <= k < t ==> !bit(self.tbits(k), sq.idx()),
                self.colour_at(sq.idx()) == Some(colour),
            decreases 6 - t,
        {
            if self.pieces[t].contains_square(sq) {
                return Some(Piece::new(colour, PieceType::from_index(t)));
            }
            t = t + 1;
        }
        None
    }

    pub fn piece_bb(&self, piece: Piece) -> (r: SquareSet)
        ensures
            r.inner == self.tbits(piece.type_spec().idx()) & self.cbits(piece.colour_spec().idx()),
    {
        let t = piece.piece_type().index();
        let c = piece.colour().index();
        SquareSet::from_inner(self.pieces[t].inner & self.colours[c].inner)
    }

    /// The pieces of type `t` and colour `c`.
    pub fn of(&self, c: Colour, t: PieceType) -> (r: SquareSet)
        ensures
            r.inner == self.tbits(t.idx()) & self.cbits(c.idx()),
    {
        SquareSet::from_inner(self.pieces[t.index()].inner & self.colours[c.index()].inner)
    }

    pub fn of_type(&self, t: PieceType) -> (r: SquareSet)
        ensures
            r.inner == self.tbits(t.idx()),
    {
        self.pieces[t.index()]
    }

    pub fn occupied_co(&self, c: Colour) -> (r: SquareSet)
        ensures
            r.inner == self.cbits(c.idx()),
    {
        self.colours[c.index()]
    }

    pub fn occupied(&self) -> (r: SquareSet)
        ensures
            r.inner == self.cbits(0) | self.cbits(1),
    {
        SquareSet::from_inner(self.colours[0].inner | self.colours[1].inner)
    }

    pub fn empty(&self) -> (r: SquareSet)
        ensures
            r.inner == !(self.cbits(0) | self.cbits(1)),
    {
        SquareSet::from_inner(!(self.colours[0].inner | self.colours[1].inner))
    }
}

/// In a consistent layout, the sets say exactly where each kind of piece stands.
pub proof fn lemma_wf_bits(l: PieceLayout)
    requires
        l.wf(),
    ensures
        forall|c: Colour, t: PieceType, i: int| #[trigger] bit(l.tbits(t.idx()) & l.cbits(c.idx()), i) <==> (0 <= i < 64 && l.pos()[i] == Some(piece_of(c, t))),
        forall|i: int| #[trigger] bit(l.cbits(0) | l.cbits(1), i) <==> (0 <= i < 64 && l.pos()[i] is Some),
        forall|i: int| #[trigger] bit(!(l.cbits(0) | l.cbits(1)), i) <==> (0 <= i < 64 && l.pos()[i] is None),
        forall|c: Colour, i: int| #[trigger] bit(l.cbits(c.idx()), i) <==> (0 <= i < 64 && l.pos()[i] is Some && l.pos()[i]->0.colour_spec() == c),
        forall|t: PieceType, i: int| #[trigger] bit(l.tbits(t.idx()), i) <==> (0 <= i < 64 && l.pos()[i] is Some && l.pos()[i]->0.type_spec() == t),
{
    let p = l.pos();
    assert forall|c: Colour, t: PieceType, i: int| #[trigger] bit(l.tbits(t.idx()) & l.cbits(c.idx()), i) <==> (0 <= i < 64 && p[i] == Some(piece_of(c, t))) by {
        lemma_bits_ops(l.tbits(t.idx()), l.cbits(c.idx()));
        assert(bit(l.tbits(t.idx()), i) <==> (0 <= i < 64 && p[i] is Some && p[i]->0.type_spec().idx() == t.idx()));
        assert(bit(l.cbits(c.idx()), i) <==> (0 <= i < 64 && p[i] is Some && p[i]->0.colour_spec().idx() == c.idx()));
        Piece::lemma_of_piece(c, t);
        if p[i] is Some {
            p[i]->0.lemma_piece_of();
        }
    }
    assert forall|i: int| #[trigger] bit(l.cbits(0) | l.cbits(1), i) <==> (0 <= i < 64 && p[i] is Some) by {
        lemma_bits_ops(l.cbits(0), l.cbits(1));
        assert(bit(l.cbits(0), i) <==> (0 <= i < 64 && p[i] is Some && p[i]->0.colour_spec().idx() == 0));
        assert(bit(l.cbits(1), i) <==> (0 <= i < 64 && p[i] is Some && p[i]->0.colour_spec().idx() == 1));
    }
    assert forall|i: int| #[trigger] bit(!(l.cbits(0) | l.cbits(1)), i) <==> (0 <= i < 64 && p[i] is None) by {
        lemma_bits_ops(l.cbits(0) | l.cbits(1), 0);
        lemma_bits_ops(l.cbits(0), l.cbits(1));
        assert(bit(l.cbits(0), i) <==> (0 <= i < 64 && p[i] is Some && p[i]->0.colour_spec().idx() == 0));
        assert(bit(l.cbits(1), i) <==> (0 <= i < 64 && p[i] is Some && p[i]->0.colour_spec().idx() == 1));
    }
    assert forall|c: Colour, i: int| #[trigger] bit(l.cbits(c.idx()), i) <==> (0 <= i < 64 && p[i] is Some && p[i]->0.colour_spec() == c) by {
        assert(bit(l.cbits(c.idx()), i) <==> (0 <= i < 64 && p[i] is Some && p[i]->0.colour_spec().idx() == c.idx()));
    }
    assert forall|t: PieceType, i: int| #[trigger] bit(l.tbits(t.idx()), i) <==> (0 <= i < 64 && p[i] is Some && p[i]->0.type_spec() == t) by {
        assert(bit(l.tbits(t.idx()), i) <==> (0 <= i < 64 && p[i] is Some && p[i]->0.type_spec().idx() == t.idx()));
    }
}

} // verus!
