use vstd::prelude::*;

use crate::shatranj::attacks::{lemma_ray_back, lemma_ray_geometry, on_ray, ray_at, ray_clear, ray_len, rook_rel, slide_rel};
use crate::shatranj::squareset::{
    SquareSet, bit, lemma_bit_single, lemma_bits_ops, lemma_bit_zero, lemma_pop_clear_lowest, lemma_pop_single,
    lemma_pop_union_bound, lemma_pop_zero, popcount, popcount_upto,
};
use crate::shatranj::types::{Square, file_of, rank_of};
use crate::rng::{XORSHIFT_SEED, XorShiftState, xorshift_n};

verus! {

/// How many steps a slider on `s` can take along direction `dir` before leaving the board.
pub open spec fn ray_steps(s: int, dir: int) -> int {
    if dir == 0 {
        7 - rank_of(s)
    } else if dir == 1 {
        rank_of(s)
    } else if dir == 2 {
        7 - file_of(s)
    } else {
        file_of(s)
    }
}

/// The squares a slider on `sq` reaches along direction `dir` (north, south,
/// east, west), up to and including the first square that is in `block`.
fn slide(sq: Square, dir: u8, block: u64) -> (r: u64)
    requires
        dir < 4,
    ensures
        forall|x: int| #[trigger] bit(r, x) <==> slide_rel(sq.idx(), dir as int, x, block),
        popcount(r) <= ray_steps(sq.idx(), dir as int),
{
    let s: i32 = sq.index() as i32;
    let tr: i32 = s / 8;
    let tf: i32 = s % 8;
    let ghost si = s as int;
    let ghost d = dir as int;
    let mut attacks: u64 = 0;
    let mut j: i32 = 1;
    proof {
        assert forall|x: int| #[trigger] bit(attacks, x) <==> (on_ray(si, d, x) && ray_len(si, d, x) < j) by {
            lemma_bit_zero(x);
            if on_ray(si, d, x) {
                lemma_ray_back(si, d, x);
            }
        }
    }
    proof {
        lemma_pop_zero(64);
    }
    loop
        invariant_except_break
            1 <= j <= 8,
            j - 1 <= ray_steps(si, d),
            popcount(attacks) <= j - 1,
            0 <= si < 64,
            s == si,
            tr == rank_of(si),
            tf == file_of(si),
            d == dir,
            dir < 4,
            ray_clear(si, d, j as int, block),
            forall|x: int| #[trigger] bit(attacks, x) <==> (on_ray(si, d, x) && ray_len(si, d, x) < j),
        ensures
            forall|x: int| #[trigger] bit(attacks, x) <==> slide_rel(si, d, x, block),
            popcount(attacks) <= ray_steps(si, d),
        decreases 8 - j,
    {
        let ok = if dir == 0 {
            tr + j <= 7
        } else if dir == 1 {
            tr - j >= 0
        } else if dir == 2 {
            tf + j <= 7
        } else {
            tf - j >= 0
        };
        if !ok {
            proof {
                assert forall|x: int| #[trigger] bit(attacks, x) <==> slide_rel(si, d, x, block) by {
                    if on_ray(si, d, x) {
                        lemma_ray_back(si, d, x);
                        assert(ray_len(si, d, x) < j);
                        assert forall|k: int| 1 <= k < ray_len(si, d, x) implies !#[trigger] bit(block, ray_at(si, d, k)) by {
                            assert(k < j);
                        }
                    }
                }
            }
            break;
        }
        let t: i32 = if dir == 0 {
            s + 8 * j
        } else if dir == 1 {
            s - 8 * j
        } else if dir == 2 {
            s + j
        } else {
            s - j
        };
        proof {
            lemma_ray_geometry(si, d, j as int);
        }
        let tt = t as u64;
        let single = 1u64 << tt;
        proof {
            assert forall|x: int| #[trigger] bit(single, x) <==> x == tt by {
                lemma_bit_single(tt, x);
            }
            lemma_bits_ops(attacks, single);
        }
        let ghost old_attacks = attacks;
        proof {
            lemma_pop_single(tt, 64);
            lemma_pop_union_bound(attacks | single, attacks, single, 64);
        }
        attacks = attacks | single;
        if (block >> tt) & 1 == 1 {
            proof {
                assert(bit(block, ray_at(si, d, j as int)));
                assert forall|x: int| #[trigger] bit(attacks, x) <==> slide_rel(si, d, x, block) by {
                    if on_ray(si, d, x) {
                        lemma_ray_back(si, d, x);
                        if ray_len(si, d, x) <= j {
                            assert forall|k: int| 1 <= k < ray_len(si, d, x) implies !#[trigger] bit(block, ray_at(si, d, k)) by {
                                assert(k < j);
                            }
                        } else {
                            assert(!ray_clear(si, d, ray_len(si, d, x), block));
                        }
                        assert(bit(old_attacks, x) <==> ray_len(si, d, x) < j);
                    }
                    if x == tt {
                        assert(on_ray(si, d, x));
                    }
                }
            }
            break;
        }
        proof {
            assert forall|x: int| #[trigger] bit(attacks, x) <==> (on_ray(si, d, x) && ray_len(si, d, x) < j + 1) by {
                if on_ray(si, d, x) {
                    lemma_ray_back(si, d, x);
                }
            }
            assert forall|k: int| 1 <= k < j + 1 implies !#[trigger] bit(block, ray_at(si, d, k)) by {
                if k < j {
                } else {
                    assert(k == j);
                }
            }
        }
        j = j + 1;
    }
    attacks
}

/// The squares a rook on `square` attacks when `block` is occupied, found by
/// walking each of the four rays until it meets a piece.
pub fn rook_attacks_on_the_fly(square: Square, block: SquareSet) -> (r: SquareSet)
    ensures
        forall|x: int| #[trigger] bit(r.inner, x) <==> rook_rel(square.idx(), x, block.inner),
        popcount(r.inner) <= 14,
{
    let n = slide(square, 0, block.inner);
    let s = slide(square, 1, block.inner);
    let e = slide(square, 2, block.inner);
    let w = slide(square, 3, block.inner);
    proof {
        lemma_bits_ops(n, s);
        lemma_bits_ops(n | s, e);
        lemma_bits_ops(n | s | e, w);
        lemma_pop_union_bound(n | s, n, s, 64);
        lemma_pop_union_bound(n | s | e, n | s, e, 64);
        lemma_pop_union_bound(n | s | e | w, n | s | e, w, 64);
    }
    SquareSet::from_inner(n | s | e | w)
}

/// The number of relevant bits in the square-set of a rook's attacks from each
/// square: on a1 a rook reaches fourteen squares along its file and rank, but
/// what stands on a8 and h1 never matters, so twelve bits are relevant.
pub const ROOK_REL_BITS: [i32; 64] = [
    12i32, 11i32, 11i32, 11i32, 11i32, 11i32, 11i32, 12i32,
    11i32, 10i32, 10i32, 10i32, 10i32, 10i32, 10i32, 11i32,
    11i32, 10i32, 10i32, 10i32, 10i32, 10i32, 10i32, 11i32,
    11i32, 10i32, 10i32, 10i32, 10i32, 10i32, 10i32, 11i32,
    11i32, 10i32, 10i32, 10i32, 10i32, 10i32, 10i32, 11i32,
    11i32, 10i32, 10i32, 10i32, 10i32, 10i32, 10i32, 11i32,
    11i32, 10i32, 10i32, 10i32, 10i32, 10i32, 10i32, 11i32,
    12i32, 11i32, 11i32, 11i32, 11i32, 11i32, 11i32, 12i32,
];

/// The squares whose occupancy can change a rook's attacks from `s`: its file
/// and rank, without `s` itself and without the edge squares at their ends.
pub open spec fn rook_mask_rel(s: int, x: int) -> bool {
    &&& 0 <= s < 64
    &&& 0 <= x < 64
    &&& ((file_of(x) == file_of(s) && rank_of(x) != rank_of(s) && 1 <= rank_of(x) <= 6)
        || (rank_of(x) == rank_of(s) && file_of(x) != file_of(s) && 1 <= file_of(x) <= 6))
}

/// The relevant-occupancy mask of a rook on `sq`.
pub fn mask_rook_attacks(sq: Square) -> (r: SquareSet)
    ensures
        forall|x: int| #[trigger] bit(r.inner, x) <==> rook_mask_rel(sq.idx(), x),
{
    let mut attacks: u64 = 0;
    let s = sq.inner();
    let tr = s / 8;
    let tf = s % 8;
    proof {
        assert forall|x: int| !#[trigger] bit(attacks, x) by {
            lemma_bit_zero(x);
        }
    }
    // up the file
    let mut r: u8 = tr + 1;
    while r <= 6
        invariant
            tr == rank_of(s as int), tf == file_of(s as int), s < 64,
            tr + 1 <= r <= 8,
            forall|x: int| #[trigger] bit(attacks, x) <==> (0 <= x < 64 && file_of(x) == tf && tr < rank_of(x) < r && rank_of(x) <= 6),
        decreases 7 - r,
    {
        let t = (r * 8 + tf) as u64;
        proof {
            lemma_bits_ops(attacks, 1u64 << t);
            assert forall|x: int| #[trigger] bit(1u64 << t, x) <==> x == t by {
                lemma_bit_single(t, x);
            }
        }
        attacks = attacks | (1u64 << t);
        r = r + 1;
    }
    let ghost up = attacks;
    // down the file
    let mut r: i8 = tr as i8 - 1;
    while r >= 1
        invariant
            tr == rank_of(s as int), tf == file_of(s as int), s < 64,
            0 <= r + 1 <= tr,
            forall|x: int| #[trigger] bit(attacks, x) <==> ((0 <= x < 64 && file_of(x) == tf && tr < rank_of(x) <= 6)
                || (0 <= x < 64 && file_of(x) == tf && r < rank_of(x) < tr && rank_of(x) >= 1)),
        decreases r,
    {
        let t = (r as u8 * 8 + tf) as u64;
        proof {
            lemma_bits_ops(attacks, 1u64 << t);
            assert forall|x: int| #[trigger] bit(1u64 << t, x) <==> x == t by {
                lemma_bit_single(t, x);
            }
        }
        attacks = attacks | (1u64 << t);
        r = r - 1;
    }
    // along the rank, east
    let mut f: u8 = tf + 1;
    while f <= 6
        invariant
            tr == rank_of(s as int), tf == file_of(s as int), s < 64,
            tf + 1 <= f <= 8,
            forall|x: int| #[trigger] bit(attacks, x) <==> ((0 <= x < 64 && file_of(x) == tf && rank_of(x) != tr && 1 <= rank_of(x) <= 6)
                || (0 <= x < 64 && rank_of(x) == tr && tf < file_of(x) < f && file_of(x) <= 6)),
        decreases 7 - f,
    {
        let t = (tr * 8 + f) as u64;
        proof {
            lemma_bits_ops(attacks, 1u64 << t);
            assert forall|x: int| #[trigger] bit(1u64 << t, x) <==> x == t by {
                lemma_bit_single(t, x);
            }
        }
        attacks = attacks | (1u64 << t);
        f = f + 1;
    }
    // along the rank, west
    let mut f: i8 = tf as i8 - 1;
    while f >= 1
        invariant
            tr == rank_of(s as int), tf == file_of(s as int), s < 64,
            0 <= f + 1 <= tf,
            forall|x: int| #[trigger] bit(attacks, x) <==> ((0 <= x < 64 && file_of(x) == tf && rank_of(x) != tr && 1 <= rank_of(x) <= 6)
                || (0 <= x < 64 && rank_of(x) == tr && tf < file_of(x) <= 6)
                || (0 <= x < 64 && rank_of(x) == tr && f < file_of(x) < tf && file_of(x) >= 1)),
        decreases f,
    {
        let t = (tr * 8 + f as u8) as u64;
        proof {
            lemma_bits_ops(attacks, 1u64 << t);
            assert forall|x: int| #[trigger] bit(1u64 << t, x) <==> x == t by {
                lemma_bit_single(t, x);
            }
        }
        attacks = attacks | (1u64 << t);
        f = f - 1;
    }
    SquareSet::from_inner(attacks)
}

// ---------------------------------------------------------------------------
// Occupancy variations.
// ---------------------------------------------------------------------------

proof fn lemma_pop_mono(x: u64, a: int, b: int)
    requires
        a <= b,
    ensures
        popcount_upto(x, a) <= popcount_upto(x, b),
    decreases b - a,
{
    if a < b {
        lemma_pop_mono(x, a, b - 1);
    }
}

proof fn lemma_pop_gap(x: u64, a: int, b: int)
    requires
        0 <= a <= b,
        forall|i: int| a <= i < b ==> !bit(x, i),
    ensures
        popcount_upto(x, a) == popcount_upto(x, b),
    decreases b - a,
{
    if a < b {
        lemma_pop_gap(x, a, b - 1);
    }
}

/// Bit `k` of `index` is set.
pub open spec fn index_bit(index: usize, k: int) -> bool {
    (index >> (k as usize)) & 1usize == 1usize
}

/// The occupancy that `index` picks out of `mask`: the `k`-th lowest square of
/// the mask is occupied when bit `k` of `index` is set, for `k` below `bits`.
pub open spec fn occupancy_rel(index: usize, bits: int, mask: u64, x: int) -> bool {
    &&& bit(mask, x)
    &&& popcount_upto(mask, x) < bits
    &&& index_bit(index, popcount_upto(mask, x) as int)
}

/// The occupancy variation number `index` of the lowest `bits_in_mask` squares of `attack_mask`.
pub fn set_occupancy(index: usize, bits_in_mask: i32, attack_mask: SquareSet) -> (r: SquareSet)
    requires
        0 <= bits_in_mask <= popcount(attack_mask.inner),
        bits_in_mask <= usize::BITS,
    ensures
        forall|x: int| #[trigger] bit(r.inner, x) <==> occupancy_rel(index, bits_in_mask as int, attack_mask.inner, x),
{
    let ghost mask = attack_mask.inner;
    let mut occupancy = SquareSet::empty();
    let mut rem = attack_mask;
    let mut count: i32 = 0;
    let ghost mut p: int = 0;
    proof {
        lemma_pop_zero(0);
    }
    while count < bits_in_mask
        invariant
            0 <= count <= bits_in_mask,
            bits_in_mask <= popcount(mask),
            bits_in_mask <= usize::BITS,
            mask == attack_mask.inner,
            0 <= p <= 64,
            popcount_upto(mask, p) == count,
            popcount(rem.inner) + count == popcount(mask),
            forall|x: int| #[trigger] bit(rem.inner, x) <==> (bit(mask, x) && x >= p),
            forall|x: int| #[trigger] bit(occupancy.inner, x) <==> (bit(mask, x) && x < p && index_bit(index, popcount_upto(mask, x) as int)),
        decreases bits_in_mask - count,
    {
        proof {
            if rem.inner == 0 {
                lemma_pop_zero(64);
            }
        }
        let square = rem.first();
        let ghost sq = square.idx();
        proof {
            assert forall|i: int| p <= i < sq implies !bit(mask, i) by {
                if bit(mask, i) {
                    assert(bit(rem.inner, i));
                }
            }
            lemma_pop_gap(mask, p, sq);
            assert(popcount_upto(mask, sq + 1) == count + 1);
            lemma_pop_clear_lowest(rem.inner);
            crate::shatranj::squareset::lemma_lowest_bit(rem.inner);
        }
        let ghost old_rem = rem.inner;
        rem = rem.remove_square(square);
        proof {
            assert forall|i: int| 0 <= i < 64 implies bit(rem.inner, i) == bit(old_rem & ((old_rem - 1u64) as u64), i) by {}
            crate::shatranj::squareset::lemma_bit_ext(rem.inner, old_rem & ((old_rem - 1u64) as u64));
        }
        if index & (1usize << (count as usize)) != 0 {
            proof {
                let k = count as usize;
                assert(index & (1usize << k) != 0 ==> (index >> k) & 1usize == 1usize) by (bit_vector)
                    requires k < 64;
            }
            occupancy = occupancy.add_square(square);
        } else {
            proof {
                let k = count as usize;
                assert(index & (1usize << k) == 0 ==> (index >> k) & 1usize != 1usize) by (bit_vector)
                    requires k < 64;
            }
        }
        proof {
            p = sq + 1;
        }
        count = count + 1;
    }
    proof {
        assert forall|x: int| #[trigger] bit(occupancy.inner, x) <==> occupancy_rel(index, bits_in_mask as int, mask, x) by {
            if bit(mask, x) {
                if x < p {
                    lemma_pop_mono(mask, x + 1, p);
                } else {
                    lemma_pop_mono(mask, p, x);
                }
            }
        }
    }
    occupancy
}

// ---------------------------------------------------------------------------
// Magic numbers.
// ---------------------------------------------------------------------------

/// The set bits of `w` are the squares `x` with `rel(x)`.
pub open spec fn has_bits(w: u64, rel: spec_fn(int) -> bool) -> bool {
    forall|i: int| #[trigger] bit(w, i) <==> rel(i)
}

/// The word whose set bits are the squares `x` with `rel(x)`.
pub open spec fn word_of(rel: spec_fn(int) -> bool) -> u64 {
    choose|w: u64| #[trigger] has_bits(w, rel)
}

/// The relevant-occupancy mask of a rook on `s`, as a word.
pub open spec fn rook_mask_word(s: int) -> u64 {
    word_of(|x: int| rook_mask_rel(s, x))
}

/// Occupancy variation number `c` of a rook on `s`, over `bits` relevant bits.
pub open spec fn occupancy_word(s: int, bits: int, c: int) -> u64 {
    word_of(|x: int| occupancy_rel(c as usize, bits, rook_mask_word(s), x))
}

/// A rook's attacks from `s` when `occ` is occupied, as a word.
pub open spec fn rook_attack_word(s: int, occ: u64) -> u64 {
    word_of(|x: int| rook_rel(s, x, occ))
}

/// The table index that `magic` gives the occupancy `occ`.
pub open spec fn magic_index(occ: u64, magic: u64, bits: int) -> int {
    (occ.wrapping_mul(magic) >> ((64 - bits) as u64)) as int
}

/// The number of occupancy variations over `bits` bits.
pub open spec fn variations(bits: int) -> int {
    (1u64 << (bits as u64)) as int
}

/// `magic` works for a rook on `s`: occupancy variations that it sends to the
/// same index have the same attacks.
pub open spec fn magic_works(s: int, bits: int, magic: u64) -> bool {
    forall|a: int, b: int|
        0 <= a < variations(bits) && 0 <= b < variations(bits)
        && #[trigger] magic_index(occupancy_word(s, bits, a), magic, bits) == #[trigger] magic_index(occupancy_word(s, bits, b), magic, bits)
        ==> rook_attack_word(s, occupancy_word(s, bits, a)) == rook_attack_word(s, occupancy_word(s, bits, b))
}

/// The quick test a candidate must pass: the top byte of the mask times the
/// candidate has at least six set bits.
pub open spec fn dense_enough(mask: u64, magic: u64) -> bool {
    popcount(mask.wrapping_mul(magic) & 0xFF00_0000_0000_0000u64) >= 6
}

/// A good magic number for a rook on `s`.
pub open spec fn magic_good(s: int, bits: int, magic: u64) -> bool {
    dense_enough(rook_mask_word(s), magic) && magic_works(s, bits, magic)
}

/// The `n`-th candidate the search draws from the generator.
pub open spec fn candidate(n: nat) -> u64 {
    xorshift_n(XORSHIFT_SEED, 3 * n + 1) & xorshift_n(XORSHIFT_SEED, 3 * n + 2) & xorshift_n(XORSHIFT_SEED, 3 * n + 3)
}

proof fn lemma_xorshift_add(x: u64, a: nat, b: nat)
    ensures
        xorshift_n(xorshift_n(x, a), b) == xorshift_n(x, a + b),
    decreases b,
{
    if b > 0 {
        lemma_xorshift_add(x, a, (b - 1) as nat);
    }
}

proof fn lemma_word_of(rel: spec_fn(int) -> bool, w: u64)
    requires
        forall|i: int| #[trigger] bit(w, i) <==> rel(i),
    ensures
        word_of(rel) == w,
{
    assert(has_bits(w, rel));
    let v = word_of(rel);
    assert forall|i: int| 0 <= i < 64 implies bit(v, i) == bit(w, i) by {}
    crate::shatranj::squareset::lemma_bit_ext(v, w);
}

/// A rook always attacks some square next to it.
proof fn lemma_rook_attacks_some(s: int, occ: u64, w: u64)
    requires
        0 <= s < 64,
        forall|x: int| #[trigger] bit(w, x) <==> rook_rel(s, x, occ),
    ensures
        w != 0,
{
    let t = if rank_of(s) < 7 { s + 8 } else { s - 8 };
    let d = if rank_of(s) < 7 { 0int } else { 1int };
    lemma_ray_geometry(s, d, 1);
    assert(ray_at(s, d, 1) == t);
    assert(ray_clear(s, d, 1, occ));
    assert(slide_rel(s, d, t, occ));
    assert(bit(w, t));
    lemma_bit_zero(t);
}

proof fn lemma_magic_index_range(w: u64, magic: u64, bits: int)
    requires
        1 <= bits <= 12,
    ensures
        0 <= magic_index(w, magic, bits) < 4096,
{
    let p = w.wrapping_mul(magic);
    let sh = (64 - bits) as u64;
    assert((p >> sh) < 4096) by (bit_vector)
        requires 52 <= sh <= 63;
}

/// `magic` is the first good candidate, and it is candidate `n`.
pub open spec fn first_good(s: int, bits: int, n: nat, magic: u64) -> bool {
    &&& magic == candidate(n)
    &&& magic_good(s, bits, magic)
    &&& forall|j: nat| j < n ==> !#[trigger] magic_good(s, bits, candidate(j))
}

/// Tries `magic` on the occupancy variations: whether two variations that it
/// sends to the same index have different attacks.
fn magic_fails(
    square: Square,
    relevant_bits: i32,
    occupancies: &Vec<SquareSet>,
    attacks: &Vec<SquareSet>,
    used_indices: &mut Vec<SquareSet>,
    magic: u64,
    occupancy_variations: usize,
) -> (fail: bool)
    requires
        1 <= relevant_bits <= 12,
        occupancy_variations == variations(relevant_bits as int),
        occupancies@.len() == occupancy_variations,
        attacks@.len() == occupancy_variations,
        old(used_indices)@.len() == 4096,
        forall|c: int| 0 <= c < occupancy_variations ==> (#[trigger] occupancies@[c]).inner == occupancy_word(square.idx(), relevant_bits as int, c),
        forall|c: int| 0 <= c < occupancy_variations ==> (#[trigger] attacks@[c]).inner == rook_attack_word(square.idx(), occupancies@[c].inner),
        forall|c: int| 0 <= c < occupancy_variations ==> (#[trigger] attacks@[c]).inner != 0,
    ensures
        final(used_indices)@.len() == 4096,
        fail == !magic_works(square.idx(), relevant_bits as int, magic),
{
    let ghost s = square.idx();
    let ghost bits = relevant_bits as int;
    // reset the used attacks
    let mut i: usize = 0;
    while i < used_indices.len()
        invariant
            used_indices@.len() == 4096,
            i <= 4096,
            forall|k: int| 0 <= k < i ==> (#[trigger] used_indices@[k]).inner == 0,
        decreases 4096 - i,
    {
        used_indices.set(i, SquareSet::empty());
        i = i + 1;
    }
    let shift: u64 = (64 - relevant_bits) as u64;
    let mut count: usize = 0;
    let mut fail = false;
    while !fail && count < occupancy_variations
        invariant
            1 <= relevant_bits <= 12,
            shift == 64 - relevant_bits,
            s == square.idx(),
            bits == relevant_bits,
            occupancy_variations == variations(bits),
            occupancies@.len() == occupancy_variations,
            attacks@.len() == occupancy_variations,
            used_indices@.len() == 4096,
            count <= occupancy_variations,
            forall|c: int| 0 <= c < occupancy_variations ==> (#[trigger] occupancies@[c]).inner == occupancy_word(s, bits, c),
            forall|c: int| 0 <= c < occupancy_variations ==> (#[trigger] attacks@[c]).inner == rook_attack_word(s, occupancies@[c].inner),
            forall|c: int| 0 <= c < occupancy_variations ==> (#[trigger] attacks@[c]).inner != 0,
            forall|k: int| 0 <= k < 4096 && (#[trigger] used_indices@[k]).inner != 0 ==> exists|c: int| 0 <= c < count
                && magic_index(occupancy_word(s, bits, c), magic, bits) == k && #[trigger] attacks@[c].inner == used_indices@[k].inner,
            !fail ==> forall|c: int| 0 <= c < count ==> used_indices@[magic_index(occupancy_word(s, bits, c), magic, bits)].inner == (#[trigger] attacks@[c]).inner,
            fail ==> !magic_works(s, bits, magic),
        decreases occupancy_variations - count + if fail { 0int } else { 1 },
    {
        let occ = occupancies[count].inner();
        let magic_index_exec = (occ.wrapping_mul(magic) >> shift) as usize;
        let ghost k = magic_index(occupancy_word(s, bits, count as int), magic, bits);
        proof {
            lemma_magic_index_range(occ, magic, bits);
            assert(magic_index_exec == k);
        }
        if used_indices[magic_index_exec].inner() == 0 {
            // a free index: assign the attack map
            let ghost before = used_indices@;
            used_indices.set(magic_index_exec, attacks[count]);
            proof {
                assert forall|c: int| 0 <= c < count + 1 implies used_indices@[magic_index(occupancy_word(s, bits, c), magic, bits)].inner == (#[trigger] attacks@[c]).inner by {
                    if c < count {
                        let kc = magic_index(occupancy_word(s, bits, c), magic, bits);
                        lemma_magic_index_range(occupancy_word(s, bits, c), magic, bits);
                        assert(before[kc].inner == attacks@[c].inner);
                        if kc == k {
                            assert(attacks@[c].inner != 0);
                        }
                    }
                }
                assert forall|k2: int| 0 <= k2 < 4096 && (#[trigger] used_indices@[k2]).inner != 0 implies exists|c: int| 0 <= c < count + 1
                    && magic_index(occupancy_word(s, bits, c), magic, bits) == k2 && #[trigger] attacks@[c].inner == used_indices@[k2].inner by {
                    if k2 == k {
                        assert(attacks@[count as int].inner == used_indices@[k2].inner);
                    } else {
                        assert(before[k2].inner != 0);
                    }
                }
            }
        } else if used_indices[magic_index_exec].inner() != attacks[count].inner() {
            // a collision
            proof {
                let c = choose|c: int| 0 <= c < count && magic_index(occupancy_word(s, bits, c), magic, bits) == k && #[trigger] attacks@[c].inner == used_indices@[k].inner;
                assert(rook_attack_word(s, occupancy_word(s, bits, c)) != rook_attack_word(s, occupancy_word(s, bits, count as int)));
                assert(!magic_works(s, bits, magic));
            }
            fail = true;
        } else {
            proof {
                assert forall|c: int| 0 <= c < count + 1 implies used_indices@[magic_index(occupancy_word(s, bits, c), magic, bits)].inner == (#[trigger] attacks@[c]).inner by {}
                assert forall|k2: int| 0 <= k2 < 4096 && (#[trigger] used_indices@[k2]).inner != 0 implies exists|c: int| 0 <= c < count + 1
                    && magic_index(occupancy_word(s, bits, c), magic, bits) == k2 && #[trigger] attacks@[c].inner == used_indices@[k2].inner by {
                    let c = choose|c: int| 0 <= c < count && magic_index(occupancy_word(s, bits, c), magic, bits) == k2 && #[trigger] attacks@[c].inner == used_indices@[k2].inner;
                    assert(attacks@[c].inner == used_indices@[k2].inner);
                }
            }
        }
        count = count + 1;
    }
    proof {
        if !fail {
            assert forall|a: int, b: int|
                0 <= a < variations(bits) && 0 <= b < variations(bits)
                && #[trigger] magic_index(occupancy_word(s, bits, a), magic, bits) == #[trigger] magic_index(occupancy_word(s, bits, b), magic, bits)
                implies rook_attack_word(s, occupancy_word(s, bits, a)) == rook_attack_word(s, occupancy_word(s, bits, b)) by {
                assert(used_indices@[magic_index(occupancy_word(s, bits, a), magic, bits)].inner == attacks@[a].inner);
                assert(used_indices@[magic_index(occupancy_word(s, bits, b), magic, bits)].inner == attacks@[b].inner);
            }
        }
    }
    fail
}

/// Searches for a magic number for a rook on `square` over `relevant_bits`
/// bits: the first of the generator's candidates, among the first hundred
/// million, that passes the quick test and sends no two occupancy variations
/// with different attacks to the same index; none when no candidate does.
pub fn find_magic(square: Square, relevant_bits: i32) -> (r: Option<u64>)
    requires
        1 <= relevant_bits <= 12,
        relevant_bits <= popcount(rook_mask_word(square.idx())),
    ensures
        r is Some ==> exists|n: nat| n < 100_000_000 && #[trigger] first_good(square.idx(), relevant_bits as int, n, r->0),
        r is None ==> forall|n: nat| n < 100_000_000 ==> !#[trigger] magic_good(square.idx(), relevant_bits as int, candidate(n)),
{
    let ghost s = square.idx();
    let ghost bits = relevant_bits as int;
    // mask piece attack
    let mask_attack = mask_rook_attacks(square);
    proof {
        lemma_word_of(|x: int| rook_mask_rel(s, x), mask_attack.inner);
    }
    // occupancy variations
    let shifted: u64 = 1u64 << (relevant_bits as u64);
    proof {
        let b = relevant_bits as u64;
        assert(1 <= b <= 12 ==> (1u64 << b) <= 4096) by (bit_vector);
    }
    let occupancy_variations = shifted as usize;
    let mut occupancies: Vec<SquareSet> = Vec::new();
    let mut attacks: Vec<SquareSet> = Vec::new();
    let mut count: usize = 0;
    while count < occupancy_variations
        invariant
            1 <= relevant_bits <= 12,
            relevant_bits <= popcount(mask_attack.inner),
            s == square.idx(),
            bits == relevant_bits,
            mask_attack.inner == rook_mask_word(s),
            occupancy_variations == variations(bits),
            occupancy_variations <= 4096,
            count <= occupancy_variations,
            occupancies@.len() == count,
            attacks@.len() == count,
            forall|c: int| 0 <= c < count ==> (#[trigger] occupancies@[c]).inner == occupancy_word(s, bits, c),
            forall|c: int| 0 <= c < count ==> (#[trigger] attacks@[c]).inner == rook_attack_word(s, occupancies@[c].inner),
            forall|c: int| 0 <= c < count ==> (#[trigger] attacks@[c]).inner != 0,
        decreases occupancy_variations - count,
    {
        let occ = set_occupancy(count, relevant_bits, mask_attack);
        let att = rook_attacks_on_the_fly(square, occ);
        proof {
            lemma_word_of(|x: int| occupancy_rel(count as usize, bits, rook_mask_word(s), x), occ.inner);
            lemma_word_of(|x: int| rook_rel(s, x, occ.inner), att.inner);
            lemma_rook_attacks_some(s, occ.inner, att.inner);
        }
        occupancies.push(occ);
        attacks.push(att);
        count = count + 1;
    }
    let mut used_indices: Vec<SquareSet> = Vec::new();
    let mut i: usize = 0;
    while i < 4096
        invariant
            i <= 4096,
            used_indices@.len() == i,
        decreases 4096 - i,
    {
        used_indices.push(SquareSet::empty());
        i = i + 1;
    }
    let mut rng = XorShiftState::new();
    let mut random_count: u32 = 0;
    while random_count < 100_000_000
        invariant
            1 <= relevant_bits <= 12,
            s == square.idx(),
            bits == relevant_bits,
            mask_attack.inner == rook_mask_word(s),
            occupancy_variations == variations(bits),
            occupancies@.len() == occupancy_variations,
            attacks@.len() == occupancy_variations,
            used_indices@.len() == 4096,
            forall|c: int| 0 <= c < occupancy_variations ==> (#[trigger] occupancies@[c]).inner == occupancy_word(s, bits, c),
            forall|c: int| 0 <= c < occupancy_variations ==> (#[trigger] attacks@[c]).inner == rook_attack_word(s, occupancies@[c].inner),
            forall|c: int| 0 <= c < occupancy_variations ==> (#[trigger] attacks@[c]).inner != 0,
            random_count <= 100_000_000,
            rng.state == xorshift_n(XORSHIFT_SEED, 3 * random_count as nat),
            forall|j: nat| j < random_count ==> !#[trigger] magic_good(s, bits, candidate(j)),
        decreases 100_000_000 - random_count,
    {
        let ghost st0 = rng.state;
        let magic = rng.random_few_bits();
        proof {
            let n = random_count as nat;
            lemma_xorshift_add(XORSHIFT_SEED, 3 * n, 1);
            lemma_xorshift_add(XORSHIFT_SEED, 3 * n, 2);
            lemma_xorshift_add(XORSHIFT_SEED, 3 * n, 3);
            assert(magic == candidate(n));
            assert(rng.state == xorshift_n(XORSHIFT_SEED, 3 * (n + 1)));
        }
        let top = SquareSet::from_inner(mask_attack.inner().wrapping_mul(magic) & 0xFF00_0000_0000_0000u64);
        if top.count() < 6 {
            random_count = random_count + 1;
            continue;
        }
        let fail = magic_fails(square, relevant_bits, &occupancies, &attacks, &mut used_indices, magic, occupancy_variations);
        if !fail {
            let r = Some(magic);
            proof {
                let n = random_count as nat;
                assert(first_good(square.idx(), relevant_bits as int, n, r->0));
            }
            return r;
        }
        random_count = random_count + 1;
    }
    None
}

} // verus!
