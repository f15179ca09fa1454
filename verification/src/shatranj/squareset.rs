use vstd::prelude::*;

use crate::shatranj::types::Square;

verus! {

/// Whether bit `i` of `x` is set (bits off the end of a 64-bit word never are).
pub open spec fn bit(x: u64, i: int) -> bool {
    0 <= i < 64 && (x >> (i as u64)) & 1u64 == 1u64
}

pub proof fn lemma_bit_or(a: u64, b: u64, i: int)
    ensures
        bit(a | b, i) == (bit(a, i) || bit(b, i)),
{
    if 0 <= i < 64 {
        let j = i as u64;
        assert(((a | b) >> j) & 1u64 == 1u64 <==> ((a >> j) & 1u64 == 1u64 || (b >> j) & 1u64 == 1u64)) by (bit_vector);
    }
}

pub proof fn lemma_bit_and(a: u64, b: u64, i: int)
    ensures
        bit(a & b, i) == (bit(a, i) && bit(b, i)),
{
    if 0 <= i < 64 {
        let j = i as u64;
        assert(((a & b) >> j) & 1u64 == 1u64 <==> ((a >> j) & 1u64 == 1u64 && (b >> j) & 1u64 == 1u64)) by (bit_vector);
    }
}

pub proof fn lemma_bit_xor(a: u64, b: u64, i: int)
    ensures
        bit(a ^ b, i) == (bit(a, i) != bit(b, i)),
{
    if 0 <= i < 64 {
        let j = i as u64;
        assert(((a ^ b) >> j) & 1u64 == 1u64 <==> ((a >> j) & 1u64 == 1u64) != ((b >> j) & 1u64 == 1u64)) by (bit_vector);
    }
}

pub proof fn lemma_bit_not(a: u64, i: int)
    ensures
        bit(!a, i) == (0 <= i < 64 && !bit(a, i)),
{
    if 0 <= i < 64 {
        let j = i as u64;
        assert(((!a) >> j) & 1u64 == 1u64 <==> !((a >> j) & 1u64 == 1u64)) by (bit_vector)
            requires j < 64;
    }
}

pub proof fn lemma_bit_single(k: u64, i: int)
    requires
        k < 64,
    ensures
        bit(1u64 << k, i) == (i == k),
{
    if 0 <= i < 64 {
        let j = i as u64;
        assert(((1u64 << k) >> j) & 1u64 == 1u64 <==> j == k) by (bit_vector)
            requires k < 64, j < 64;
    }
}

pub proof fn lemma_bit_zero(i: int)
    ensures
        !bit(0u64, i),
{
    if 0 <= i < 64 {
        let j = i as u64;
        assert((0u64 >> j) & 1u64 == 0u64) by (bit_vector);
    }
}

pub proof fn lemma_bit_full(i: int)
    ensures
        bit(0xFFFF_FFFF_FFFF_FFFFu64, i) == (0 <= i < 64),
{
    if 0 <= i < 64 {
        let j = i as u64;
        assert((0xFFFF_FFFF_FFFF_FFFFu64 >> j) & 1u64 == 1u64) by (bit_vector)
            requires j < 64;
    }
}

/// The bit-wise operations, stated at once for every bit.
pub proof fn lemma_bits_ops(a: u64, b: u64)
    ensures
        forall|i: int| #[trigger] bit(a | b, i) == (bit(a, i) || bit(b, i)),
        forall|i: int| #[trigger] bit(a & b, i) == (bit(a, i) && bit(b, i)),
        forall|i: int| #[trigger] bit(a ^ b, i) == (bit(a, i) != bit(b, i)),
        forall|i: int| #[trigger] bit(!a, i) == (0 <= i < 64 && !bit(a, i)),
{
    assert forall|i: int| #[trigger] bit(a | b, i) == (bit(a, i) || bit(b, i)) by {
        lemma_bit_or(a, b, i);
    }
    assert forall|i: int| #[trigger] bit(a & b, i) == (bit(a, i) && bit(b, i)) by {
        lemma_bit_and(a, b, i);
    }
    assert forall|i: int| #[trigger] bit(a ^ b, i) == (bit(a, i) != bit(b, i)) by {
        lemma_bit_xor(a, b, i);
    }
    assert forall|i: int| #[trigger] bit(!a, i) == (0 <= i < 64 && !bit(a, i)) by {
        lemma_bit_not(a, i);
    }
}

proof fn lemma_no_bits_zero(x: u64)
    requires
        forall|i: int| !bit(x, i),
    ensures
        x == 0,
{
    assert(!bit(x, 0));
        assert(!bit(x, 1));
        assert(!bit(x, 2));
        assert(!bit(x, 3));
        assert(!bit(x, 4));
        assert(!bit(x, 5));
        assert(!bit(x, 6));
        assert(!bit(x, 7));
        assert(!bit(x, 8));
        assert(!bit(x, 9));
        assert(!bit(x, 10));
        assert(!bit(x, 11));
        assert(!bit(x, 12));
        assert(!bit(x, 13));
        assert(!bit(x, 14));
        assert(!bit(x, 15));
        assert(!bit(x, 16));
        assert(!bit(x, 17));
        assert(!bit(x, 18));
        assert(!bit(x, 19));
        assert(!bit(x, 20));
        assert(!bit(x, 21));
        assert(!bit(x, 22));
        assert(!bit(x, 23));
        assert(!bit(x, 24));
        assert(!bit(x, 25));
        assert(!bit(x, 26));
        assert(!bit(x, 27));
        assert(!bit(x, 28));
        assert(!bit(x, 29));
        assert(!bit(x, 30));
        assert(!bit(x, 31));
        assert(!bit(x, 32));
        assert(!bit(x, 33));
        assert(!bit(x, 34));
        assert(!bit(x, 35));
        assert(!bit(x, 36));
        assert(!bit(x, 37));
        assert(!bit(x, 38));
        assert(!bit(x, 39));
        assert(!bit(x, 40));
        assert(!bit(x, 41));
        assert(!bit(x, 42));
        assert(!bit(x, 43));
        assert(!bit(x, 44));
        assert(!bit(x, 45));
        assert(!bit(x, 46));
        assert(!bit(x, 47));
        assert(!bit(x, 48));
        assert(!bit(x, 49));
        assert(!bit(x, 50));
        assert(!bit(x, 51));
        assert(!bit(x, 52));
        assert(!bit(x, 53));
        assert(!bit(x, 54));
        assert(!bit(x, 55));
        assert(!bit(x, 56));
        assert(!bit(x, 57));
        assert(!bit(x, 58));
        assert(!bit(x, 59));
        assert(!bit(x, 60));
        assert(!bit(x, 61));
        assert(!bit(x, 62));
        assert(!bit(x, 63));
    assert(
            (x >> 0u64) & 1u64 != 1u64 &&
            (x >> 1u64) & 1u64 != 1u64 &&
            (x >> 2u64) & 1u64 != 1u64 &&
            (x >> 3u64) & 1u64 != 1u64 &&
            (x >> 4u64) & 1u64 != 1u64 &&
            (x >> 5u64) & 1u64 != 1u64 &&
            (x >> 6u64) & 1u64 != 1u64 &&
            (x >> 7u64) & 1u64 != 1u64 &&
            (x >> 8u64) & 1u64 != 1u64 &&
            (x >> 9u64) & 1u64 != 1u64 &&
            (x >> 10u64) & 1u64 != 1u64 &&
            (x >> 11u64) & 1u64 != 1u64 &&
            (x >> 12u64) & 1u64 != 1u64 &&
            (x >> 13u64) & 1u64 != 1u64 &&
            (x >> 14u64) & 1u64 != 1u64 &&
            (x >> 15u64) & 1u64 != 1u64 &&
            (x >> 16u64) & 1u64 != 1u64 &&
            (x >> 17u64) & 1u64 != 1u64 &&
            (x >> 18u64) & 1u64 != 1u64 &&
            (x >> 19u64) & 1u64 != 1u64 &&
            (x >> 20u64) & 1u64 != 1u64 &&
            (x >> 21u64) & 1u64 != 1u64 &&
            (x >> 22u64) & 1u64 != 1u64 &&
            (x >> 23u64) & 1u64 != 1u64 &&
            (x >> 24u64) & 1u64 != 1u64 &&
            (x >> 25u64) & 1u64 != 1u64 &&
            (x >> 26u64) & 1u64 != 1u64 &&
            (x >> 27u64) & 1u64 != 1u64 &&
            (x >> 28u64) & 1u64 != 1u64 &&
            (x >> 29u64) & 1u64 != 1u64 &&
            (x >> 30u64) & 1u64 != 1u64 &&
            (x >> 31u64) & 1u64 != 1u64 &&
            (x >> 32u64) & 1u64 != 1u64 &&
            (x >> 33u64) & 1u64 != 1u64 &&
            (x >> 34u64) & 1u64 != 1u64 &&
            (x >> 35u64) & 1u64 != 1u64 &&
            (x >> 36u64) & 1u64 != 1u64 &&
            (x >> 37u64) & 1u64 != 1u64 &&
            (x >> 38u64) & 1u64 != 1u64 &&
            (x >> 39u64) & 1u64 != 1u64 &&
            (x >> 40u64) & 1u64 != 1u64 &&
            (x >> 41u64) & 1u64 != 1u64 &&
            (x >> 42u64) & 1u64 != 1u64 &&
            (x >> 43u64) & 1u64 != 1u64 &&
            (x >> 44u64) & 1u64 != 1u64 &&
            (x >> 45u64) & 1u64 != 1u64 &&
            (x >> 46u64) & 1u64 != 1u64 &&
            (x >> 47u64) & 1u64 != 1u64 &&
            (x >> 48u64) & 1u64 != 1u64 &&
            (x >> 49u64) & 1u64 != 1u64 &&
            (x >> 50u64) & 1u64 != 1u64 &&
            (x >> 51u64) & 1u64 != 1u64 &&
            (x >> 52u64) & 1u64 != 1u64 &&
            (x >> 53u64) & 1u64 != 1u64 &&
            (x >> 54u64) & 1u64 != 1u64 &&
            (x >> 55u64) & 1u64 != 1u64 &&
            (x >> 56u64) & 1u64 != 1u64 &&
            (x >> 57u64) & 1u64 != 1u64 &&
            (x >> 58u64) & 1u64 != 1u64 &&
            (x >> 59u64) & 1u64 != 1u64 &&
            (x >> 60u64) & 1u64 != 1u64 &&
            (x >> 61u64) & 1u64 != 1u64 &&
            (x >> 62u64) & 1u64 != 1u64 &&
            (x >> 63u64) & 1u64 != 1u64
        ==> x == 0u64) by (bit_vector);
}

/// Two words with the same bits are equal.
pub proof fn lemma_bit_ext(a: u64, b: u64)
    requires
        forall|i: int| 0 <= i < 64 ==> bit(a, i) == bit(b, i),
    ensures
        a == b,
{
    assert forall|i: int| !bit(a ^ b, i) by {
        lemma_bit_xor(a, b, i);
    }
    lemma_no_bits_zero(a ^ b);
    assert(a ^ b == 0u64 ==> a == b) by (bit_vector);
}

/// The lowest set bit of a non-zero word is the one `trailing_zeros` names,
/// and clearing it with `x & (x - 1)` leaves every other bit alone.
pub proof fn lemma_lowest_bit(x: u64)
    requires
        x != 0,
    ensures
        (x.trailing_zeros() as int) < 64,
        bit(x, x.trailing_zeros() as int),
        forall|j: int| 0 <= j < x.trailing_zeros() ==> !bit(x, j),
        forall|j: int| #[trigger] bit(x & ((x - 1u64) as u64), j) == (bit(x, j) && j != x.trailing_zeros()),
{
    broadcast use vstd::std_specs::bits::axiom_u64_trailing_zeros;
    let t = x.trailing_zeros() as u64;
    assert forall|j: int| 0 <= j < x.trailing_zeros() implies !bit(x, j) by {
        let jj = j as u64;
        assert((x >> jj) & 1u64 == 0u64);
    }
    assert forall|j: int| #[trigger] bit(x & ((x - 1u64) as u64), j) == (bit(x, j) && j != t) by {
        if 0 <= j < 64 {
            let jj = j as u64;
            if jj < t {
                assert((x >> jj) & 1u64 == 0u64);
                assert((x >> jj) & 1u64 == 0u64 ==> ((x & ((x - 1u64) as u64)) >> jj) & 1u64 == 0u64) by (bit_vector);
            } else if jj == t {
                assert(x != 0 && x << ((64 - t) as u64) == 0 && (x >> t) & 1u64 == 1u64 && t < 64
                    ==> ((x & ((x - 1u64) as u64)) >> t) & 1u64 == 0u64) by (bit_vector);
            } else {
                assert(x != 0 && x << ((64 - t) as u64) == 0 && (x >> t) & 1u64 == 1u64 && t < jj && jj < 64
                    ==> (((x & ((x - 1u64) as u64)) >> jj) & 1u64 == 1u64 <==> (x >> jj) & 1u64 == 1u64)) by (bit_vector);
            }
        }
    }
}

/// The number of set bits among the lowest `n` bits of `x`.
pub open spec fn popcount_upto(x: u64, n: int) -> nat
    decreases n,
{
    if n <= 0 {
        0
    } else {
        popcount_upto(x, n - 1) + if bit(x, n - 1) { 1nat } else { 0nat }
    }
}

/// The number of set bits of `x`.
pub open spec fn popcount(x: u64) -> nat {
    popcount_upto(x, 64)
}

/// A set of squares, one bit per square.
#[derive(Clone, Copy, Debug, PartialEq, Eq, Hash, PartialOrd, Ord)]
pub struct SquareSet {
    pub inner: u64,
}

impl SquareSet {
    /// Whether `sq` is in the set.
    pub open spec fn has(self, i: int) -> bool {
        bit(self.inner, i)
    }

    pub fn empty() -> (r: SquareSet)
        ensures
            r.inner == 0,
            forall|i: int| !#[trigger] bit(r.inner, i),
    {
        proof {
            assert forall|i: int| !#[trigger] bit(0u64, i) by {
                lemma_bit_zero(i);
            }
        }
        SquareSet { inner: 0 }
    }

    pub fn full() -> (r: SquareSet)
        ensures
            r.inner == 0xFFFF_FFFF_FFFF_FFFFu64,
            forall|i: int| #[trigger] bit(r.inner, i) <==> 0 <= i < 64,
    {
        proof {
            assert forall|i: int| #[trigger] bit(0xFFFF_FFFF_FFFF_FFFFu64, i) <==> 0 <= i < 64 by {
                lemma_bit_full(i);
            }
        }
        SquareSet { inner: 0xFFFF_FFFF_FFFF_FFFF }
    }

    pub fn from_inner(x: u64) -> (r: SquareSet)
        ensures
            r.inner == x,
    {
        SquareSet { inner: x }
    }

    pub fn inner(self) -> (r: u64)
        ensures
            r == self.inner,
    {
        self.inner
    }

    pub fn is_empty(self) -> (r: bool)
        ensures
            r == (self.inner == 0),
            r == (forall|i: int| !#[trigger] bit(self.inner, i)),
    {
        proof {
            if self.inner == 0 {
                assert forall|i: int| !#[trigger] bit(self.inner, i) by {
                    lemma_bit_zero(i);
                }
            } else {
                lemma_lowest_bit(self.inner);
            }
        }
        self.inner == 0
    }

    pub fn non_empty(self) -> (r: bool)
        ensures
            r == (self.inner != 0),
            r == (exists|i: int| #[trigger] bit(self.inner, i)),
    {
        proof {
            if self.inner == 0 {
                assert forall|i: int| !#[trigger] bit(self.inner, i) by {
                    lemma_bit_zero(i);
                }
            } else {
                lemma_lowest_bit(self.inner);
            }
        }
        self.inner != 0
    }

    pub fn contains_square(self, sq: Square) -> (r: bool)
        ensures
            r == bit(self.inner, sq.idx()),
    {
        let i = sq.index() as u64;
        (self.inner >> i) & 1 == 1
    }

    pub fn add_square(self, sq: Square) -> (r: SquareSet)
        ensures
            forall|i: int| #[trigger] bit(r.inner, i) == (bit(self.inner, i) || i == sq.idx()),
    {
        let s = sq.as_set();
        proof {
            lemma_bits_ops(self.inner, s.inner);
        }
        SquareSet { inner: self.inner | s.inner }
    }

    pub fn remove_square(self, sq: Square) -> (r: SquareSet)
        ensures
            forall|i: int| #[trigger] bit(r.inner, i) == (bit(self.inner, i) && i != sq.idx()),
    {
        let s = sq.as_set();
        proof {
            lemma_bits_ops(self.inner, !s.inner);
            lemma_bits_ops(s.inner, self.inner);
        }
        SquareSet { inner: self.inner & !s.inner }
    }

    /// The lowest square in a non-empty set.
    pub fn first(self) -> (r: Square)
        requires
            self.inner != 0,
        ensures
            bit(self.inner, r.idx()),
            forall|j: int| 0 <= j < r.idx() ==> !bit(self.inner, j),
            r.idx() == self.inner.trailing_zeros(),
    {
        proof {
            lemma_lowest_bit(self.inner);
        }
        Square::from_index(self.inner.trailing_zeros() as u8)
    }

    /// The set without its lowest square.
    pub fn without_first(self) -> (r: SquareSet)
        requires
            self.inner != 0,
        ensures
            forall|j: int| #[trigger] bit(r.inner, j) == (bit(self.inner, j) && j != self.inner.trailing_zeros()),
            r.inner == self.inner & ((self.inner - 1u64) as u64),
    {
        proof {
            lemma_lowest_bit(self.inner);
        }
        SquareSet { inner: self.inner & (self.inner - 1) }
    }

    /// The number of squares in the set.
    pub fn count(self) -> (r: u32)
        ensures
            r == popcount(self.inner),
            r <= 64,
    {
        let mut n: u32 = 0;
        let mut i: u64 = 0;
        while i < 64
            invariant
                i <= 64,
                n == popcount_upto(self.inner, i as int),
                n <= i,
            decreases 64 - i,
        {
            if (self.inner >> i) & 1 == 1 {
                n = n + 1;
            }
            i = i + 1;
        }
        n
    }
}


pub open spec fn shifted_right(bb: u64, n: int, x: int) -> bool {
    0 <= x < 64 && x + n < 64 && bit(bb, x + n)
}

pub open spec fn shifted_left(bb: u64, n: int, x: int) -> bool {
    0 <= x < 64 && x >= n && bit(bb, x - n)
}

proof fn lemma_shr(bb: u64, n: u64, x: int)
    requires
        n < 64,
    ensures
        bit(bb >> n, x) == shifted_right(bb, n as int, x),
{
    if 0 <= x < 64 {
        let xx = x as u64;
        if x + n < 64 {
            assert(((bb >> n) >> xx) & 1u64 == (bb >> ((xx + n) as u64)) & 1u64) by (bit_vector)
                requires xx + n < 64;
        } else {
            assert(((bb >> n) >> xx) & 1u64 == 0u64) by (bit_vector)
                requires xx + n >= 64, xx < 64, n < 64;
        }
    }
}

proof fn lemma_shl(bb: u64, n: u64, x: int)
    requires
        n < 64,
    ensures
        bit(bb << n, x) == shifted_left(bb, n as int, x),
{
    if 0 <= x < 64 {
        let xx = x as u64;
        if x >= n {
            assert(((bb << n) >> xx) & 1u64 == (bb >> ((xx - n) as u64)) & 1u64) by (bit_vector)
                requires xx >= n, xx < 64;
        } else {
            assert(((bb << n) >> xx) & 1u64 == 0u64) by (bit_vector)
                requires xx < n, n < 64;
        }
    }
}

proof fn lemma_file_masks(x: int)
    ensures
        bit(0xFEFE_FEFE_FEFE_FEFEu64, x) == (0 <= x < 64 && x % 8 != 0),
        bit(0x7F7F_7F7F_7F7F_7F7Fu64, x) == (0 <= x < 64 && x % 8 != 7),
{
    if 0 <= x < 64 {
        let xx = x as u64;
        assert((0xFEFE_FEFE_FEFE_FEFEu64 >> xx) & 1u64 == 1u64 <==> xx % 8 != 0) by (bit_vector)
            requires xx < 64;
        assert((0x7F7F_7F7F_7F7F_7F7Fu64 >> xx) & 1u64 == 1u64 <==> xx % 8 != 7) by (bit_vector)
            requires xx < 64;
    }
}

impl std::ops::BitOr for SquareSet {
    type Output = SquareSet;

    fn bitor(self, rhs: SquareSet) -> (r: SquareSet) {
        SquareSet { inner: self.inner | rhs.inner }
    }
}

impl vstd::std_specs::ops::BitOrSpecImpl for SquareSet {
    open spec fn obeys_bitor_spec() -> bool {
        true
    }

    open spec fn bitor_req(self, rhs: SquareSet) -> bool {
        true
    }

    open spec fn bitor_spec(self, rhs: SquareSet) -> SquareSet {
        SquareSet { inner: self.inner | rhs.inner }
    }
}

impl std::ops::BitAnd for SquareSet {
    type Output = SquareSet;

    fn bitand(self, rhs: SquareSet) -> (r: SquareSet) {
        SquareSet { inner: self.inner & rhs.inner }
    }
}

impl vstd::std_specs::ops::BitAndSpecImpl for SquareSet {
    open spec fn obeys_bitand_spec() -> bool {
        true
    }

    open spec fn bitand_req(self, rhs: SquareSet) -> bool {
        true
    }

    open spec fn bitand_spec(self, rhs: SquareSet) -> SquareSet {
        SquareSet { inner: self.inner & rhs.inner }
    }
}

impl std::ops::Not for SquareSet {
    type Output = SquareSet;

    fn not(self) -> (r: SquareSet) {
        SquareSet { inner: !self.inner }
    }
}

impl vstd::std_specs::ops::NotSpecImpl for SquareSet {
    open spec fn obeys_not_spec() -> bool {
        true
    }

    open spec fn not_req(self) -> bool {
        true
    }

    open spec fn not_spec(self) -> SquareSet {
        SquareSet { inner: !self.inner }
    }
}

impl SquareSet {
    /// The set moved `n` ranks' worth of bits down (towards A1).
    pub fn shr(self, n: u64) -> (r: SquareSet)
        requires
            n < 64,
        ensures
            forall|x: int| #[trigger] bit(r.inner, x) == shifted_right(self.inner, n as int, x),
    {
        proof {
            assert forall|x: int| #[trigger] bit(self.inner >> n, x) == shifted_right(self.inner, n as int, x) by {
                lemma_shr(self.inner, n, x);
            }
        }
        SquareSet { inner: self.inner >> n }
    }

    /// The set moved `n` bits up (towards H8).
    pub fn shl(self, n: u64) -> (r: SquareSet)
        requires
            n < 64,
        ensures
            forall|x: int| #[trigger] bit(r.inner, x) == shifted_left(self.inner, n as int, x),
    {
        proof {
            assert forall|x: int| #[trigger] bit(self.inner << n, x) == shifted_left(self.inner, n as int, x) by {
                lemma_shl(self.inner, n, x);
            }
        }
        SquareSet { inner: self.inner << n }
    }

    pub fn north_one(self) -> (r: SquareSet)
        ensures
            forall|x: int| #[trigger] bit(r.inner, x) == shifted_left(self.inner, 8, x),
    {
        self.shl(8)
    }

    pub fn south_one(self) -> (r: SquareSet)
        ensures
            forall|x: int| #[trigger] bit(r.inner, x) == shifted_right(self.inner, 8, x),
    {
        self.shr(8)
    }

    pub fn north_east_one(self) -> (r: SquareSet)
        ensures
            forall|x: int| #[trigger] bit(r.inner, x) == (shifted_left(self.inner, 9, x) && x % 8 != 0),
    {
        let s = self.inner << 9;
        proof {
            assert forall|x: int| #[trigger] bit(s & 0xFEFE_FEFE_FEFE_FEFEu64, x) == (shifted_left(self.inner, 9, x) && x % 8 != 0) by {
                lemma_shl(self.inner, 9, x);
                lemma_file_masks(x);
                lemma_bit_and(s, 0xFEFE_FEFE_FEFE_FEFEu64, x);
            }
        }
        SquareSet { inner: s & 0xFEFE_FEFE_FEFE_FEFE }
    }

    pub fn north_west_one(self) -> (r: SquareSet)
        ensures
            forall|x: int| #[trigger] bit(r.inner, x) == (shifted_left(self.inner, 7, x) && x % 8 != 7),
    {
        let s = self.inner << 7;
        proof {
            assert forall|x: int| #[trigger] bit(s & 0x7F7F_7F7F_7F7F_7F7Fu64, x) == (shifted_left(self.inner, 7, x) && x % 8 != 7) by {
                lemma_shl(self.inner, 7, x);
                lemma_file_masks(x);
                lemma_bit_and(s, 0x7F7F_7F7F_7F7F_7F7Fu64, x);
            }
        }
        SquareSet { inner: s & 0x7F7F_7F7F_7F7F_7F7F }
    }

    pub fn south_east_one(self) -> (r: SquareSet)
        ensures
            forall|x: int| #[trigger] bit(r.inner, x) == (shifted_right(self.inner, 7, x) && x % 8 != 0),
    {
        let s = self.inner >> 7;
        proof {
            assert forall|x: int| #[trigger] bit(s & 0xFEFE_FEFE_FEFE_FEFEu64, x) == (shifted_right(self.inner, 7, x) && x % 8 != 0) by {
                lemma_shr(self.inner, 7, x);
                lemma_file_masks(x);
                lemma_bit_and(s, 0xFEFE_FEFE_FEFE_FEFEu64, x);
            }
        }
        SquareSet { inner: s & 0xFEFE_FEFE_FEFE_FEFE }
    }

    pub fn south_west_one(self) -> (r: SquareSet)
        ensures
            forall|x: int| #[trigger] bit(r.inner, x) == (shifted_right(self.inner, 9, x) && x % 8 != 7),
    {
        let s = self.inner >> 9;
        proof {
            assert forall|x: int| #[trigger] bit(s & 0x7F7F_7F7F_7F7F_7F7Fu64, x) == (shifted_right(self.inner, 9, x) && x % 8 != 7) by {
                lemma_shr(self.inner, 9, x);
                lemma_file_masks(x);
                lemma_bit_and(s, 0x7F7F_7F7F_7F7F_7F7Fu64, x);
            }
        }
        SquareSet { inner: s & 0x7F7F_7F7F_7F7F_7F7F }
    }
}


// ---------------------------------------------------------------------------
// Counting set bits.
// ---------------------------------------------------------------------------

/// A word whose bits (below `n`) lie among those of `x` has no more of them.
pub proof fn lemma_pop_sub(z: u64, x: u64, n: int)
    requires
        forall|i: int| 0 <= i < n && #[trigger] bit(z, i) ==> bit(x, i),
    ensures
        popcount_upto(z, n) <= popcount_upto(x, n),
    decreases n,
{
    if n > 0 {
        lemma_pop_sub(z, x, n - 1);
    }
}

/// A word whose bits lie among those of `x` or `y` has at most as many as both together.
pub proof fn lemma_pop_union_bound(z: u64, x: u64, y: u64, n: int)
    requires
        forall|i: int| 0 <= i < n && #[trigger] bit(z, i) ==> bit(x, i) || bit(y, i),
    ensures
        popcount_upto(z, n) <= popcount_upto(x, n) + popcount_upto(y, n),
    decreases n,
{
    if n > 0 {
        lemma_pop_union_bound(z, x, y, n - 1);
    }
}

/// The bits of `z` split into those of `x` and those of `y`, which are disjoint.
pub proof fn lemma_pop_split(z: u64, x: u64, y: u64, n: int)
    requires
        forall|i: int| 0 <= i < n ==> (#[trigger] bit(z, i) == (bit(x, i) || bit(y, i))),
        forall|i: int| 0 <= i < n ==> !(#[trigger] bit(x, i) && bit(y, i)),
    ensures
        popcount_upto(z, n) == popcount_upto(x, n) + popcount_upto(y, n),
    decreases n,
{
    if n > 0 {
        lemma_pop_split(z, x, y, n - 1);
        assert(bit(z, n - 1) == (bit(x, n - 1) || bit(y, n - 1)));
        assert(!(bit(x, n - 1) && bit(y, n - 1)));
    }
}

pub proof fn lemma_pop_zero(n: int)
    ensures
        popcount_upto(0u64, n) == 0,
    decreases n,
{
    if n > 0 {
        lemma_pop_zero(n - 1);
        lemma_bit_zero(n - 1);
    }
}

pub proof fn lemma_pop_single(t: u64, n: int)
    requires
        t < 64,
        n <= 64,
    ensures
        popcount_upto(1u64 << t, n) == if t < n { 1nat } else { 0nat },
    decreases n,
{
    if n > 0 {
        lemma_pop_single(t, n - 1);
        lemma_bit_single(t, n - 1);
    }
}

/// Clearing the lowest set bit removes exactly one.
pub proof fn lemma_pop_clear_lowest(x: u64)
    requires
        x != 0,
    ensures
        popcount(x & ((x - 1u64) as u64)) + 1 == popcount(x),
{
    lemma_lowest_bit(x);
    let t = x.trailing_zeros() as u64;
    let y = x & ((x - 1u64) as u64);
    assert forall|i: int| 0 <= i < 64 implies (#[trigger] bit(x, i) == (bit(y, i) || bit(1u64 << t, i))) by {
        lemma_bit_single(t, i);
    }
    assert forall|i: int| 0 <= i < 64 implies !(#[trigger] bit(y, i) && bit(1u64 << t, i)) by {
        lemma_bit_single(t, i);
    }
    lemma_pop_split(x, y, 1u64 << t, 64);
    lemma_pop_single(t, 64);
}

pub proof fn lemma_pop_bounded(x: u64, n: int)
    ensures
        popcount_upto(x, n) <= if n < 0 { 0 } else { n },
    decreases n,
{
    if n > 0 {
        lemma_pop_bounded(x, n - 1);
    }
}


impl SquareSet {
    /// The squares of rank `r` (0 is the first rank).
    pub fn rank(r: u8) -> (s: SquareSet)
        requires
            r < 8,
        ensures
            forall|x: int| #[trigger] bit(s.inner, x) <==> (0 <= x < 64 && x / 8 == r),
    {
        let rr = r as u64;
        let v = 0xFFu64 << (8 * rr);
        proof {
            assert forall|x: int| #[trigger] bit(v, x) <==> (0 <= x < 64 && x / 8 == r) by {
                if 0 <= x < 64 {
                    let xx = x as u64;
                    assert(((0xFFu64 << (8 * rr)) >> xx) & 1u64 == 1u64 <==> xx / 8 == rr) by (bit_vector)
                        requires rr < 8, xx < 64;
                }
            }
        }
        SquareSet { inner: v }
    }

    /// The squares of file `f` (0 is the a-file).
    pub fn file(f: u8) -> (s: SquareSet)
        requires
            f < 8,
        ensures
            forall|x: int| #[trigger] bit(s.inner, x) <==> (0 <= x < 64 && x % 8 == f),
    {
        let ff = f as u64;
        let v = 0x0101_0101_0101_0101u64 << ff;
        proof {
            assert forall|x: int| #[trigger] bit(v, x) <==> (0 <= x < 64 && x % 8 == f) by {
                if 0 <= x < 64 {
                    let xx = x as u64;
                    assert(((0x0101_0101_0101_0101u64 << ff) >> xx) & 1u64 == 1u64 <==> xx % 8 == ff) by (bit_vector)
                        requires ff < 8, xx < 64;
                }
            }
        }
        SquareSet { inner: v }
    }
}

} // verus!
