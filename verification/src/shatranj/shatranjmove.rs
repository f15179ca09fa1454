use vstd::prelude::*;

use crate::shatranj::types::Square;
use crate::shatranj::text::{append_square, square_name};

verus! {

pub const PROMO_FLAG_BITS: u16 = 0b0001_0000_0000_0000u16;

pub const VALID_BITS: u16 = 0b0001_1111_1111_1111u16;

pub const SQ_MASK: u16 = 0b11_1111u16;

pub const TO_SHIFT: u16 = 6u16;

/// A move packed into 16 bits: six bits of from-square, six bits of
/// to-square, then the promotion flag; the top three bits stay clear.
#[derive(Clone, Copy, Debug, PartialEq, Eq, Hash, PartialOrd, Ord)]
pub struct Move {
    data: u16,
}

impl Move {
    /// The packed bits of the move.
    pub closed spec fn bits(self) -> u16 {
        self.data
    }

    pub open spec fn from_idx(self) -> int {
        (self.bits() & 0x3Fu16) as int
    }

    pub open spec fn to_idx(self) -> int {
        ((self.bits() >> 6u16) & 0x3Fu16) as int
    }

    pub open spec fn promo(self) -> bool {
        self.bits() & 0x1000u16 == 0x1000u16
    }

    pub open spec fn valid(self) -> bool {
        self.bits() & !0x1FFFu16 == 0u16
    }

    /// The move's bits, for a move from `from` to `to`.
    pub open spec fn pack(from: int, to: int, promo: bool) -> u16 {
        (from + to * 64 + if promo { 0x1000int } else { 0 }) as u16
    }

    #[verifier::type_invariant]
    spec fn nonzero(self) -> bool {
        self.data != 0
    }

    pub proof fn lemma_idx_bounds(self)
        ensures
            0 <= self.from_idx() < 64,
            0 <= self.to_idx() < 64,
    {
        let d = self.bits();
        assert(d & 0x3Fu16 < 64) by (bit_vector);
        assert((d >> 6u16) & 0x3Fu16 < 64) by (bit_vector);
    }

    /// Two valid moves with the same squares and promotion flag are the same move.
    pub proof fn lemma_valid_eq(a: Move, b: Move)
        requires
            a.valid(),
            b.valid(),
            a.from_idx() == b.from_idx(),
            a.to_idx() == b.to_idx(),
            a.promo() == b.promo(),
        ensures
            a == b,
    {
        let x = a.bits();
        let y = b.bits();
        assert(x & !0x1FFFu16 == 0u16 && y & !0x1FFFu16 == 0u16 && x & 0x3Fu16 == y & 0x3Fu16
            && (x >> 6u16) & 0x3Fu16 == (y >> 6u16) & 0x3Fu16
            && (x & 0x1000u16 == 0x1000u16) == (y & 0x1000u16 == 0x1000u16) ==> x == y) by (bit_vector);
    }

    proof fn lemma_pack(f: u16, t: u16, p: bool)
        requires
            f < 64,
            t < 64,
        ensures
            ({
                let d = (f | (t << 6u16) | if p { 0x1000u16 } else { 0u16 }) as u16;
                &&& d == Move::pack(f as int, t as int, p)
                &&& (d & 0x3Fu16) == f
                &&& ((d >> 6u16) & 0x3Fu16) == t
                &&& (d & 0x1000u16 == 0x1000u16) == p
                &&& d & !0x1FFFu16 == 0u16
                &&& (f != t ==> d != 0)
            }),
    {
        let d = (f | (t << 6u16) | if p { 0x1000u16 } else { 0u16 }) as u16;
        if p {
            assert(f < 64 && t < 64 ==> {
                let e = f | (t << 6u16) | 0x1000u16;
                &&& e == f + t * 64 + 0x1000
                &&& e & 0x3Fu16 == f
                &&& (e >> 6u16) & 0x3Fu16 == t
                &&& e & 0x1000u16 == 0x1000u16
                &&& e & !0x1FFFu16 == 0u16
                &&& e != 0u16
            }) by (bit_vector);
        } else {
            assert(f < 64 && t < 64 ==> {
                let e = f | (t << 6u16) | 0u16;
                &&& e == f + t * 64
                &&& e & 0x3Fu16 == f
                &&& (e >> 6u16) & 0x3Fu16 == t
                &&& e & 0x1000u16 != 0x1000u16
                &&& e & !0x1FFFu16 == 0u16
                &&& (f != t ==> e != 0u16)
            }) by (bit_vector);
        }
    }

    /// A promoting move from `from` to `to`.
    pub fn new_promo(from: Square, to: Square) -> (r: Move)
        requires
            from != to,
        ensures
            r.from_idx() == from.idx(),
            r.to_idx() == to.idx(),
            r.promo(),
            r.valid(),
            r.bits() == Move::pack(from.idx(), to.idx(), true),
    {
        let f = from.inner() as u16;
        let t = to.inner() as u16;
        proof {
            Move::lemma_pack(f, t, true);
        }
        let data = f | (t << TO_SHIFT) | PROMO_FLAG_BITS;
        Move { data }
    }

    /// A move from `from` to `to` that does not promote.
    pub fn new(from: Square, to: Square) -> (r: Move)
        requires
            from != to,
        ensures
            r.from_idx() == from.idx(),
            r.to_idx() == to.idx(),
            !r.promo(),
            r.valid(),
            r.bits() == Move::pack(from.idx(), to.idx(), false),
    {
        let f = from.inner() as u16;
        let t = to.inner() as u16;
        proof {
            Move::lemma_pack(f, t, false);
            Square::lemma_idx_bounds(from);
        }
        let data = f | (t << TO_SHIFT);
        proof {
            assert(data == (f | (t << 6u16) | 0u16)) by (bit_vector)
                requires data == f | (t << 6u16);
        }
        Move { data }
    }

    pub fn from(self) -> (r: Square)
        ensures
            r.idx() == self.from_idx(),
    {
        let i = self.data & SQ_MASK;
        proof {
            let d = self.data;
            assert(d & 0x3Fu16 < 64) by (bit_vector);
        }
        Square::from_index(i as u8)
    }

    pub fn to(self) -> (r: Square)
        ensures
            r.idx() == self.to_idx(),
    {
        let i = (self.data >> TO_SHIFT) & SQ_MASK;
        proof {
            let d = self.data;
            assert((d >> 6u16) & 0x3Fu16 < 64) by (bit_vector);
        }
        Square::from_index(i as u8)
    }

    pub fn is_promo(self) -> (r: bool)
        ensures
            r == self.promo(),
    {
        (self.data & PROMO_FLAG_BITS) == PROMO_FLAG_BITS
    }

    pub fn is_valid(self) -> (r: bool)
        ensures
            r == self.valid(),
    {
        (self.data & !VALID_BITS) == 0
    }

    pub fn inner(self) -> (r: u16)
        ensures
            r == self.bits(),
            r != 0,
    {
        proof {
            use_type_invariant(self);
        }
        self.data
    }

    /// The move with the given bits; zero is no move.
    pub fn from_raw(data: u16) -> (r: Option<Move>)
        ensures
            r is Some <==> data != 0,
            r matches Some(m) ==> m.bits() == data,
    {
        if data == 0 {
            None
        } else {
            Some(Move { data })
        }
    }
}

/// The text of a move: its from- and to-squares, then `q` when it promotes.
pub open spec fn move_text(m: Move) -> Seq<char> {
    square_name(m.from_idx()) + square_name(m.to_idx()) + if m.promo() { seq!['q'] } else { Seq::<char>::empty() }
}

impl Move {
    /// Appends the text of the move.
    pub fn append_to(self, out: &mut String)
        ensures
            final(out)@ == old(out)@ + move_text(self),
    {
        append_square(out, self.from());
        append_square(out, self.to());
        if self.is_promo() {
            proof {
                reveal_strlit("q");
            }
            out.append("q");
        }
        proof {
            assert(final(out)@ =~= old(out)@ + move_text(self));
        }
    }

    /// The text of the move, such as `e2e3` or `a7a8q`.
    pub fn to_string(self) -> (r: String)
        ensures
            r@ == move_text(self),
    {
        proof {
            reveal_strlit("");
        }
        let mut out = String::from_str("");
        self.append_to(&mut out);
        proof {
            assert(out@ =~= move_text(self));
        }
        out
    }
}

} // verus!
