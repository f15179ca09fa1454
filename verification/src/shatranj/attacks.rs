use vstd::prelude::*;

use crate::shatranj::piece::{Colour, PieceType};
use crate::shatranj::squareset::bit;
use crate::shatranj::types::{abs_diff, chebyshev, file_of, rank_of};

verus! {

// ---------------------------------------------------------------------------
// How each piece attacks, stated on square indices.
// ---------------------------------------------------------------------------

/// An alfil leaps exactly two squares diagonally.
pub open spec fn alfil_rel(s: int, x: int) -> bool {
    0 <= s < 64 && 0 <= x < 64 && abs_diff(file_of(s), file_of(x)) == 2 && abs_diff(rank_of(s), rank_of(x)) == 2
}

/// A ferz steps exactly one square diagonally.
pub open spec fn ferz_rel(s: int, x: int) -> bool {
    0 <= s < 64 && 0 <= x < 64 && abs_diff(file_of(s), file_of(x)) == 1 && abs_diff(rank_of(s), rank_of(x)) == 1
}

/// A knight leaps one square along one axis and two along the other.
pub open spec fn knight_rel(s: int, x: int) -> bool {
    0 <= s < 64 && 0 <= x < 64 && (
        (abs_diff(file_of(s), file_of(x)) == 1 && abs_diff(rank_of(s), rank_of(x)) == 2)
        || (abs_diff(file_of(s), file_of(x)) == 2 && abs_diff(rank_of(s), rank_of(x)) == 1))
}

/// A king steps to any neighbouring square.
pub open spec fn king_rel(s: int, x: int) -> bool {
    0 <= s < 64 && 0 <= x < 64 && chebyshev(s, x) == 1
}

/// A pawn of colour `c` standing on `s` attacks `x`: one rank forward, one file aside.
pub open spec fn pawn_rel(c: Colour, s: int, x: int) -> bool {
    0 <= s < 64 && 0 <= x < 64 && abs_diff(file_of(s), file_of(x)) == 1 && match c {
        Colour::White => rank_of(x) == rank_of(s) + 1,
        Colour::Black => rank_of(x) == rank_of(s) - 1,
    }
}

/// The four directions a rook slides in: north, south, east and west.
pub open spec fn on_ray(s: int, dir: int, x: int) -> bool {
    0 <= s < 64 && 0 <= x < 64 && if dir == 0 {
        file_of(x) == file_of(s) && rank_of(x) > rank_of(s)
    } else if dir == 1 {
        file_of(x) == file_of(s) && rank_of(x) < rank_of(s)
    } else if dir == 2 {
        rank_of(x) == rank_of(s) && file_of(x) > file_of(s)
    } else {
        rank_of(x) == rank_of(s) && file_of(x) < file_of(s)
    }
}

/// How many steps along direction `dir` lead from `s` to `x`.
pub open spec fn ray_len(s: int, dir: int, x: int) -> int {
    if dir == 0 {
        rank_of(x) - rank_of(s)
    } else if dir == 1 {
        rank_of(s) - rank_of(x)
    } else if dir == 2 {
        file_of(x) - file_of(s)
    } else {
        file_of(s) - file_of(x)
    }
}

/// The square `j` steps from `s` along direction `dir`.
pub open spec fn ray_at(s: int, dir: int, j: int) -> int {
    if dir == 0 {
        s + 8 * j
    } else if dir == 1 {
        s - 8 * j
    } else if dir == 2 {
        s + j
    } else {
        s - j
    }
}

/// None of the first `n - 1` squares along the ray from `s` is occupied.
pub open spec fn ray_clear(s: int, dir: int, n: int, occ: u64) -> bool {
    forall|j: int| 1 <= j < n ==> !#[trigger] bit(occ, ray_at(s, dir, j))
}

/// A slider on `s` moving along `dir` reaches `x`: every square before it is empty.
pub open spec fn slide_rel(s: int, dir: int, x: int, occ: u64) -> bool {
    on_ray(s, dir, x) && ray_clear(s, dir, ray_len(s, dir, x), occ)
}

/// A rook on `s` attacks `x` along a rank or a file, up to the first occupied square.
pub open spec fn rook_rel(s: int, x: int, occ: u64) -> bool {
    slide_rel(s, 0, x, occ) || slide_rel(s, 1, x, occ) || slide_rel(s, 2, x, occ) || slide_rel(s, 3, x, occ)
}

/// The attack relation of a piece type other than the pawn.
pub open spec fn attacks_rel(pt: PieceType, s: int, x: int, occ: u64) -> bool {
    match pt {
        PieceType::Alfil => alfil_rel(s, x),
        PieceType::Ferz => ferz_rel(s, x),
        PieceType::Knight => knight_rel(s, x),
        PieceType::Rook => rook_rel(s, x, occ),
        PieceType::King => king_rel(s, x),
        PieceType::Pawn => false,
    }
}

/// The squares that the pawns `bb` of colour `c` attack.
pub open spec fn pawn_attacked(c: Colour, bb: u64, x: int) -> bool {
    0 <= x < 64 && match c {
        Colour::White => (file_of(x) != 0 && x >= 9 && bit(bb, x - 9)) || (file_of(x) != 7 && x >= 7 && bit(bb, x - 7)),
        Colour::Black => (file_of(x) != 0 && x + 7 < 64 && bit(bb, x + 7)) || (file_of(x) != 7 && x + 9 < 64 && bit(bb, x + 9)),
    }
}

pub proof fn lemma_pawn_attacked(c: Colour, bb: u64, x: int)
    ensures
        pawn_attacked(c, bb, x) <==> exists|s: int| #[trigger] bit(bb, s) && pawn_rel(c, s, x),
{
    if pawn_attacked(c, bb, x) {
        match c {
            Colour::White => {
                if file_of(x) != 0 && x >= 9 && bit(bb, x - 9) {
                    assert(pawn_rel(c, x - 9, x));
                } else {
                    assert(pawn_rel(c, x - 7, x));
                }
            },
            Colour::Black => {
                if file_of(x) != 0 && x + 7 < 64 && bit(bb, x + 7) {
                    assert(pawn_rel(c, x + 7, x));
                } else {
                    assert(pawn_rel(c, x + 9, x));
                }
            },
        }
    }
    if exists|s: int| #[trigger] bit(bb, s) && pawn_rel(c, s, x) {
        let s = choose|s: int| #[trigger] bit(bb, s) && pawn_rel(c, s, x);
        lemma_pawn_rel_cases(c, s, x);
    }
}

proof fn lemma_pawn_rel_cases(c: Colour, s: int, x: int)
    requires
        pawn_rel(c, s, x),
    ensures
        c == Colour::White ==> (s == x - 9 && file_of(x) != 0 && x >= 9) || (s == x - 7 && file_of(x) != 7 && x >= 7),
        c == Colour::Black ==> (s == x + 7 && file_of(x) != 0 && x + 7 < 64) || (s == x + 9 && file_of(x) != 7 && x + 9 < 64),
{
}

// ---------------------------------------------------------------------------
// The rook.
// ---------------------------------------------------------------------------

pub proof fn lemma_ray_geometry(s: int, dir: int, j: int)
    requires
        0 <= s < 64,
        0 <= dir < 4,
        1 <= j,
        0 <= ray_at(s, dir, j) < 64,
        dir == 0 ==> rank_of(s) + j <= 7,
        dir == 1 ==> rank_of(s) - j >= 0,
        dir == 2 ==> file_of(s) + j <= 7,
        dir == 3 ==> file_of(s) - j >= 0,
    ensures
        on_ray(s, dir, ray_at(s, dir, j)),
        ray_len(s, dir, ray_at(s, dir, j)) == j,
{
}

pub proof fn lemma_ray_back(s: int, dir: int, x: int)
    requires
        0 <= dir < 4,
        on_ray(s, dir, x),
    ensures
        ray_at(s, dir, ray_len(s, dir, x)) == x,
        1 <= ray_len(s, dir, x) <= 7,
        dir == 0 ==> rank_of(s) + ray_len(s, dir, x) <= 7,
        dir == 1 ==> rank_of(s) - ray_len(s, dir, x) >= 0,
        dir == 2 ==> file_of(s) + ray_len(s, dir, x) <= 7,
        dir == 3 ==> file_of(s) - ray_len(s, dir, x) >= 0,
{
}


// ---------------------------------------------------------------------------
// Lines between two squares.
// ---------------------------------------------------------------------------

/// The squares `a` and `b` share a rank, a file or a diagonal.
pub open spec fn aligned(a: int, b: int) -> bool {
    ||| rank_of(a) == rank_of(b)
    ||| file_of(a) == file_of(b)
    ||| abs_diff(rank_of(a), rank_of(b)) == abs_diff(file_of(a), file_of(b))
}

/// The coordinate `k` steps from `p` towards `q` (staying at `p` when they are equal).
pub open spec fn step_toward(p: int, q: int, k: int) -> int {
    if q > p {
        p + k
    } else if q < p {
        p - k
    } else {
        p
    }
}

/// The square `x` lies strictly between `a` and `b` on the rank, file or
/// diagonal that joins them.
pub open spec fn between(a: int, b: int, x: int) -> bool {
    let k = chebyshev(a, x);
    &&& 0 <= a < 64
    &&& 0 <= b < 64
    &&& 0 <= x < 64
    &&& aligned(a, b)
    &&& 0 < k < chebyshev(a, b)
    &&& rank_of(x) == step_toward(rank_of(a), rank_of(b), k)
    &&& file_of(x) == step_toward(file_of(a), file_of(b), k)
}

/// The squares between `a` and `b` are those between `b` and `a`.
pub proof fn lemma_between_sym(a: int, b: int, x: int)
    ensures
        between(a, b, x) <==> between(b, a, x),
{
    if 0 <= a < 64 && 0 <= b < 64 && 0 <= x < 64 {
        let (ra, fa, rb, fb, rx, fx) = (rank_of(a), file_of(a), rank_of(b), file_of(b), rank_of(x), file_of(x));
        assert(0 <= ra < 8 && 0 <= fa < 8 && 0 <= rb < 8 && 0 <= fb < 8 && 0 <= rx < 8 && 0 <= fx < 8);
    }
}

/// The squares a rook passes on its way along a ray lie between its square and
/// the square it reaches.
pub proof fn lemma_ray_between(s: int, dir: int, x: int, j: int)
    requires
        0 <= dir < 4,
        on_ray(s, dir, x),
        1 <= j < ray_len(s, dir, x),
    ensures
        between(s, x, ray_at(s, dir, j)),
{
    lemma_ray_back(s, dir, x);
    lemma_ray_geometry(s, dir, j);
    let y = ray_at(s, dir, j);
    assert(0 <= y < 64);
}

/// A square between a rook's square and a square on one of its rays is a
/// square the rook passes on that ray.
pub proof fn lemma_between_on_ray(s: int, dir: int, x: int, y: int)
    requires
        0 <= dir < 4,
        on_ray(s, dir, x),
        between(s, x, y),
    ensures
        1 <= chebyshev(s, y) < ray_len(s, dir, x),
        ray_at(s, dir, chebyshev(s, y)) == y,
{
    lemma_ray_back(s, dir, x);
}

/// A rook attacks a square only over empty squares.
pub proof fn lemma_rook_blocked(s: int, x: int, y: int, occ: u64)
    requires
        rook_rel(s, x, occ),
        between(s, x, y),
    ensures
        !bit(occ, y),
{
    let dir = if slide_rel(s, 0, x, occ) { 0int } else if slide_rel(s, 1, x, occ) { 1int } else if slide_rel(s, 2, x, occ) { 2int } else { 3int };
    lemma_between_on_ray(s, dir, x, y);
    let j = chebyshev(s, y);
    assert(!bit(occ, ray_at(s, dir, j)));
}

/// Two squares on lines of a rank or a file from `k`, both beyond the same square
/// `t`: one lies between `k` and the other.
pub proof fn lemma_two_beyond(k: int, a: int, b: int, t: int)
    requires
        between(a, k, t),
        between(b, k, t),
        rank_of(a) == rank_of(k) || file_of(a) == file_of(k),
        rank_of(b) == rank_of(k) || file_of(b) == file_of(k),
        a != b,
    ensures
        between(a, k, b) || between(b, k, a),
{
    lemma_between_sym(a, k, t);
    lemma_between_sym(b, k, t);
    lemma_between_sym(a, k, b);
    lemma_between_sym(b, k, a);
    let (rk, fk, ra, fa, rb, fb, rt, ft) = (rank_of(k), file_of(k), rank_of(a), file_of(a), rank_of(b), file_of(b), rank_of(t), file_of(t));
    assert(0 <= rk < 8 && 0 <= fk < 8 && 0 <= ra < 8 && 0 <= fa < 8 && 0 <= rb < 8 && 0 <= fb < 8 && 0 <= rt < 8 && 0 <= ft < 8);
    assert(a == ra * 8 + fa && b == rb * 8 + fb);
}

// ---------------------------------------------------------------------------
// Symmetry: a piece on `s` attacks `x` iff the same piece on `x` attacks `s`.
// ---------------------------------------------------------------------------

proof fn lemma_slide_sym(s: int, x: int, occ: u64, dir: int)
    requires
        dir == 0 || dir == 2,
    ensures
        slide_rel(s, dir, x, occ) <==> slide_rel(x, dir + 1, s, occ),
{
    if on_ray(s, dir, x) {
        assert(on_ray(x, dir + 1, s));
        let n = ray_len(s, dir, x);
        assert(ray_len(x, dir + 1, s) == n);
        if ray_clear(s, dir, n, occ) {
            assert forall|j: int| 1 <= j < n implies !#[trigger] bit(occ, ray_at(x, dir + 1, j)) by {
                assert(ray_at(x, dir + 1, j) == ray_at(s, dir, n - j));
            }
        }
        if ray_clear(x, dir + 1, n, occ) {
            assert forall|j: int| 1 <= j < n implies !#[trigger] bit(occ, ray_at(s, dir, j)) by {
                assert(ray_at(s, dir, j) == ray_at(x, dir + 1, n - j));
            }
        }
    }
    if on_ray(x, dir + 1, s) {
        assert(on_ray(s, dir, x));
    }
}

pub proof fn lemma_rook_sym(s: int, x: int, occ: u64)
    ensures
        rook_rel(s, x, occ) <==> rook_rel(x, s, occ),
{
    lemma_slide_sym(s, x, occ, 0);
    lemma_slide_sym(s, x, occ, 2);
    lemma_slide_sym(x, s, occ, 0);
    lemma_slide_sym(x, s, occ, 2);
}

pub proof fn lemma_attacks_sym(pt: PieceType, s: int, x: int, occ: u64)
    ensures
        attacks_rel(pt, s, x, occ) <==> attacks_rel(pt, x, s, occ),
{
    lemma_rook_sym(s, x, occ);
}

pub proof fn lemma_pawn_sym(c: Colour, s: int, x: int)
    ensures
        pawn_rel(c, s, x) <==> pawn_rel(c.opp(), x, s),
{
}

} // verus!
