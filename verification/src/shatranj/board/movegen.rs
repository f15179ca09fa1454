use vstd::prelude::*;

use crate::shatranj::attacks::{
    alfil_rel, attacks_rel, ferz_rel, king_rel, knight_rel, pawn_attacked, rook_rel,
};
use crate::ext::{move_items, moves_as_slice, moves_clear, moves_new, moves_push};
use crate::shatranj::board::{Board, BoardState, bb, occ};
use crate::shatranj::magic::rook_attacks_on_the_fly;
use crate::shatranj::attacks::{pawn_rel, between, step_toward};
use crate::shatranj::piece::Piece;
use crate::shatranj::piecelayout::PieceLayout;
use crate::shatranj::board::{ksq, lemma_one_king, one_king};
use crate::shatranj::piecelayout::lemma_wf_bits;
use crate::shatranj::types::pawn_push_idx;
use crate::shatranj::squareset::{lemma_pop_clear_lowest, lemma_pop_split, lemma_pop_sub};
use crate::shatranj::piece::{Colour, PieceType};
use crate::shatranj::shatranjmove::{Move, move_text};
use crate::shatranj::text::{append_decimal, append_signed, dec, signed_dec};
use crate::shatranj::squareset::{
    SquareSet, bit, lemma_bit_single, lemma_bits_ops, lemma_bit_zero, lemma_pop_single, lemma_pop_union_bound,
    lemma_pop_zero, popcount,
};
use crate::shatranj::types::{Square, abs_diff, chebyshev, file_of, rank_of};

verus! {

/// The most moves a move list holds.
pub const MAX_POSITION_MOVES: usize = 218;

/// A move in a move list, with its ordering score.
#[derive(Debug, Clone, Copy, PartialEq, Eq)]
pub struct MoveListEntry {
    pub mov: Move,
    pub score: i32,
}

impl MoveListEntry {
    /// The score of a tactical move (a capture or a promotion) before ordering.
    pub const TACTICAL_SENTINEL: i32 = 0x7FFF_FFFFi32;

    /// The score of a quiet move before ordering.
    pub const QUIET_SENTINEL: i32 = 0x7FFF_FFFEi32;
}

/// A list of at most 218 moves.
pub struct MoveList {
    inner: arrayvec::ArrayVec<MoveListEntry, 218>,
}

impl MoveList {
    pub closed spec fn entries(&self) -> Seq<MoveListEntry> {
        move_items(self.inner)
    }

    pub open spec fn moves(&self) -> Seq<Move> {
        self.entries().map_values(|e: MoveListEntry| e.mov)
    }

    pub fn new() -> (r: MoveList)
        ensures
            r.entries() == Seq::<MoveListEntry>::empty(),
    {
        MoveList { inner: moves_new() }
    }

    fn push<const TACTICAL: bool>(&mut self, m: Move)
        requires
            old(self).entries().len() < 218,
        ensures
            final(self).entries() == old(self).entries().push(MoveListEntry { mov: m, score: if TACTICAL { MoveListEntry::TACTICAL_SENTINEL } else { MoveListEntry::QUIET_SENTINEL } }),
    {
        let score = if TACTICAL { MoveListEntry::TACTICAL_SENTINEL } else { MoveListEntry::QUIET_SENTINEL };
        moves_push(&mut self.inner, MoveListEntry { mov: m, score });
    }

    /// The moves of the list, in order.
    pub fn iter_moves(&self) -> (r: Vec<Move>)
        ensures
            r@ == self.moves(),
    {
        let entries = moves_as_slice(&self.inner);
        let mut out: Vec<Move> = Vec::new();
        let mut i: usize = 0;
        while i < entries.len()
            invariant
                i <= entries@.len(),
                entries@ == self.entries(),
                out@ == self.entries().subrange(0, i as int).map_values(|e: MoveListEntry| e.mov),
            decreases entries@.len() - i,
        {
            out.push(entries[i].mov);
            i = i + 1;
            assert(out@ =~= self.entries().subrange(0, i as int).map_values(|e: MoveListEntry| e.mov));
        }
        assert(self.entries().subrange(0, entries@.len() as int) =~= self.entries());
        out
    }

    pub fn clear(&mut self)
        ensures
            final(self).entries() == Seq::<MoveListEntry>::empty(),
    {
        moves_clear(&mut self.inner);
    }

    pub fn len(&self) -> (r: usize)
        ensures
            r == self.entries().len(),
    {
        moves_as_slice(&self.inner).len()
    }

    /// The entries of the list, in order.
    pub fn as_slice(&self) -> (r: &[MoveListEntry])
        ensures
            r@ == self.entries(),
    {
        moves_as_slice(&self.inner)
    }
}

impl Default for MoveList {
    fn default() -> (r: MoveList)
        ensures
            r.entries() == Seq::<MoveListEntry>::empty(),
    {
        MoveList::new()
    }
}

// ---------------------------------------------------------------------------
// What the generators produce.
// ---------------------------------------------------------------------------

/// A piece of the side to move stands on `x`.
pub open spec fn own(st: BoardState, x: int) -> bool {
    st.pos()[x] is Some && st.pos()[x]->0.colour_spec() == st.side
}

/// A piece of the side not to move stands on `x`.
pub open spec fn enemy(st: BoardState, x: int) -> bool {
    st.pos()[x] is Some && st.pos()[x]->0.colour_spec() != st.side
}

/// No piece stands on `x`.
pub open spec fn vacant(st: BoardState, x: int) -> bool {
    st.pos()[x] is None
}

/// The type of the piece on `x`.
pub open spec fn type_on(st: BoardState, x: int) -> PieceType {
    st.pos()[x]->0.type_spec()
}

/// The side to move is checked by more than one piece.
pub open spec fn double_check(st: BoardState) -> bool {
    popcount(st.threats.checkers.inner) > 1
}

/// A square that a piece other than the king may move to: any square when the
/// side to move is not in check; else a checker, or a square between the king
/// and the (lowest) checker.
pub open spec fn evasion_target(st: BoardState, x: int) -> bool {
    let chk = st.threats.checkers.inner;
    &&& 0 <= x < 64
    &&& chk != 0 ==> (bit(chk, x) || between(ksq(st.pieces, st.side), chk.trailing_zeros() as int, x))
}

/// The first and the last rank, where pawns promote.
pub open spec fn last_rank(t: int) -> bool {
    t > 55 || t < 8
}

/// A king move: one step onto a square that the other side does not attack
/// and the side to move does not hold.
pub open spec fn king_move(st: BoardState, f: int, t: int, p: bool) -> bool {
    &&& f == ksq(st.pieces, st.side)
    &&& king_rel(f, t)
    &&& !bit(st.threats.all.inner, t)
    &&& !own(st, t)
    &&& !p
}

/// A move of an alfil, ferz, knight or rook of the side to move.
pub open spec fn piece_move(st: BoardState, f: int, t: int, p: bool) -> bool {
    &&& 0 <= f < 64
    &&& own(st, f)
    &&& type_on(st, f) != PieceType::King
    &&& type_on(st, f) != PieceType::Pawn
    &&& attacks_rel(type_on(st, f), f, t, occ(st.pieces))
    &&& !own(st, t)
    &&& evasion_target(st, t)
    &&& !p
}

/// A pawn move of one square: forward onto an empty square, or diagonally
/// forward onto a piece of the other side; it promotes on the last rank.
pub open spec fn pawn_move(st: BoardState, f: int, t: int, p: bool) -> bool {
    &&& 0 <= f < 64
    &&& own(st, f)
    &&& type_on(st, f) == PieceType::Pawn
    &&& evasion_target(st, t)
    &&& p == last_rank(t)
    &&& ((vacant(st, t) && pawn_push_idx(f, st.side) == Some(t)) || (enemy(st, t) && pawn_rel(st.side, f, t)))
}

/// The moves of a full generation: in double check only king moves.
pub open spec fn gen_move(st: BoardState, f: int, t: int, p: bool) -> bool {
    ||| king_move(st, f, t, p)
    ||| !double_check(st) && (piece_move(st, f, t, p) || pawn_move(st, f, t, p))
}

/// The moves a generator produces in `mode`: 0 all moves, 1 the tactical ones
/// (captures and promotions), 2 the quiet ones (moves onto empty squares).
pub open spec fn cand(st: BoardState, mode: int, f: int, t: int, p: bool) -> bool {
    if mode == 0 {
        gen_move(st, f, t, p)
    } else if mode == 1 {
        gen_move(st, f, t, p) && (p || enemy(st, t))
    } else {
        gen_move(st, f, t, p) && !p && vacant(st, t)
    }
}

pub open spec fn sentinel(tactical: bool) -> i32 {
    if tactical { MoveListEntry::TACTICAL_SENTINEL } else { MoveListEntry::QUIET_SENTINEL }
}

/// The score a generated move starts with: tactical for captures and promotions.
pub open spec fn score_of(st: BoardState, t: int, p: bool) -> i32 {
    sentinel(p || enemy(st, t))
}

pub open spec fn entry_ok(st: BoardState, e: MoveListEntry, mode: int) -> bool {
    &&& e.mov.valid()
    &&& cand(st, mode, e.mov.from_idx(), e.mov.to_idx(), e.mov.promo())
    &&& e.score == score_of(st, e.mov.to_idx(), e.mov.promo())
}

/// Every entry from `start` on is a move of `mode` with its starting score.
pub open spec fn ok_from(st: BoardState, es: Seq<MoveListEntry>, start: int, mode: int) -> bool {
    forall|k: int| start <= k < es.len() ==> #[trigger] entry_ok(st, es[k], mode)
}

/// Some entry of `es` is the move from `f` to `t`, promoting when `p`.
pub open spec fn has_move(es: Seq<MoveListEntry>, f: int, t: int, p: bool) -> bool {
    exists|k: int| 0 <= k < es.len() && #[trigger] es[k].mov.from_idx() == f && es[k].mov.to_idx() == t && es[k].mov.promo() == p
}

/// `a` is the beginning of `b`.
pub open spec fn extends(b: Seq<MoveListEntry>, a: Seq<MoveListEntry>) -> bool {
    a.len() <= b.len() && b.subrange(0, a.len() as int) == a
}

pub proof fn lemma_extends(a: Seq<MoveListEntry>, b: Seq<MoveListEntry>)
    requires
        extends(b, a),
    ensures
        forall|k: int| 0 <= k < a.len() ==> b[k] == a[k],
        forall|f: int, t: int, p: bool| #![trigger has_move(b, f, t, p)] has_move(a, f, t, p) ==> has_move(b, f, t, p),
{
    assert forall|k: int| 0 <= k < a.len() implies b[k] == a[k] by {
        assert(b.subrange(0, a.len() as int)[k] == b[k]);
    }
    assert forall|f: int, t: int, p: bool| has_move(a, f, t, p) implies has_move(b, f, t, p) by {
        let k = choose|k: int| 0 <= k < a.len() && #[trigger] a[k].mov.from_idx() == f && a[k].mov.to_idx() == t && a[k].mov.promo() == p;
        assert(b[k] == a[k]);
    }
}

proof fn lemma_extends_trans(a: Seq<MoveListEntry>, b: Seq<MoveListEntry>, c: Seq<MoveListEntry>)
    requires
        extends(b, a),
        extends(c, b),
    ensures
        extends(c, a),
{
    lemma_extends(b, c);
    lemma_extends(a, b);
    assert(c.subrange(0, a.len() as int) =~= a);
}

proof fn lemma_ok_join(st: BoardState, a: Seq<MoveListEntry>, b: Seq<MoveListEntry>, start: int, mode: int)
    requires
        extends(b, a),
        0 <= start <= a.len(),
        ok_from(st, a, start, mode),
        ok_from(st, b, a.len() as int, mode),
    ensures
        ok_from(st, b, start, mode),
{
    lemma_extends(a, b);
    assert forall|k: int| start <= k < b.len() implies #[trigger] entry_ok(st, b[k], mode) by {
        if k < a.len() {
            assert(b[k] == a[k]);
        }
    }
}

/// No two entries of `es` from `start` up to `end` hold the same move.
pub open spec fn distinct_in(es: Seq<MoveListEntry>, start: int, end: int) -> bool {
    forall|j: int, k: int| start <= j < k < end ==> #[trigger] es[j].mov != #[trigger] es[k].mov
}

proof fn lemma_distinct_extends(a: Seq<MoveListEntry>, b: Seq<MoveListEntry>, start: int)
    requires
        extends(b, a),
        0 <= start,
        distinct_in(a, start, a.len() as int),
    ensures
        distinct_in(b, start, a.len() as int),
{
    lemma_extends(a, b);
    assert forall|j: int, k: int| start <= j < k < a.len() implies #[trigger] b[j].mov != #[trigger] b[k].mov by {
        assert(b[j] == a[j] && b[k] == a[k]);
    }
}

proof fn lemma_distinct_join(es: Seq<MoveListEntry>, s: int, m: int, e: int)
    requires
        s <= m <= e,
        distinct_in(es, s, m),
        distinct_in(es, m, e),
        forall|j: int, k: int| s <= j < m && m <= k < e ==> #[trigger] es[j].mov != #[trigger] es[k].mov,
    ensures
        distinct_in(es, s, e),
{
}

/// A block of entries whose moves start on pieces of type `t` holds no move
/// of the entries before it, whose moves start on pieces of other types.
proof fn lemma_join_types(st: BoardState, es: Seq<MoveListEntry>, s: int, m: int, e: int, t: PieceType)
    requires
        0 <= s <= m <= e <= es.len(),
        distinct_in(es, s, m),
        distinct_in(es, m, e),
        forall|k: int| s <= k < m ==> type_on(st, (#[trigger] es[k]).mov.from_idx()) != t,
        forall|k: int| m <= k < e ==> type_on(st, (#[trigger] es[k]).mov.from_idx()) == t,
    ensures
        distinct_in(es, s, e),
{
    assert forall|j: int, k: int| s <= j < m && m <= k < e implies #[trigger] es[j].mov != #[trigger] es[k].mov by {
        assert(type_on(st, es[j].mov.from_idx()) != t);
        assert(type_on(st, es[k].mov.from_idx()) == t);
    }
    lemma_distinct_join(es, s, m, e);
}

/// The pawn moves, then the alfil, ferz, knight, king and rook moves, each
/// block without repeats, hold no move twice.
proof fn lemma_join_pieces(st: BoardState, es: Seq<MoveListEntry>, e0: int, e2: int, e3: int, e4: int, e5: int, e6: int, e7: int)
    requires
        0 <= e0 <= e2 <= e3 <= e4 <= e5 <= e6 <= e7 <= es.len(),
        distinct_in(es, e0, e2),
        distinct_in(es, e2, e3),
        distinct_in(es, e3, e4),
        distinct_in(es, e4, e5),
        distinct_in(es, e5, e6),
        distinct_in(es, e6, e7),
        forall|k: int| e0 <= k < e2 ==> type_on(st, (#[trigger] es[k]).mov.from_idx()) == PieceType::Pawn,
        forall|k: int| e2 <= k < e3 ==> type_on(st, (#[trigger] es[k]).mov.from_idx()) == PieceType::Alfil,
        forall|k: int| e3 <= k < e4 ==> type_on(st, (#[trigger] es[k]).mov.from_idx()) == PieceType::Ferz,
        forall|k: int| e4 <= k < e5 ==> type_on(st, (#[trigger] es[k]).mov.from_idx()) == PieceType::Knight,
        forall|k: int| e5 <= k < e6 ==> type_on(st, (#[trigger] es[k]).mov.from_idx()) == PieceType::King,
        forall|k: int| e6 <= k < e7 ==> type_on(st, (#[trigger] es[k]).mov.from_idx()) == PieceType::Rook,
    ensures
        distinct_in(es, e0, e7),
{
    lemma_join_types(st, es, e0, e2, e3, PieceType::Alfil);
    lemma_join_types(st, es, e0, e3, e4, PieceType::Ferz);
    lemma_join_types(st, es, e0, e4, e5, PieceType::Knight);
    lemma_join_types(st, es, e0, e5, e6, PieceType::King);
    lemma_join_types(st, es, e0, e6, e7, PieceType::Rook);
}

/// What the square-sets of a consistent board say of each square.
pub proof fn lemma_st_bits(st: BoardState)
    requires
        st.pieces.matches(st.pos()),
    ensures
        forall|t: PieceType, i: int| #[trigger] bit(bb(st.pieces, st.side, t), i) <==> (0 <= i < 64 && own(st, i) && type_on(st, i) == t),
        forall|i: int| #[trigger] bit(st.pieces.cbits(st.side.opp().idx()), i) <==> (0 <= i < 64 && enemy(st, i)),
        forall|i: int| #[trigger] bit(st.pieces.cbits(st.side.idx()), i) <==> (0 <= i < 64 && own(st, i)),
        forall|i: int| #[trigger] bit(!occ(st.pieces), i) <==> (0 <= i < 64 && vacant(st, i)),
        forall|i: int| #[trigger] bit(occ(st.pieces), i) <==> (0 <= i < 64 && !vacant(st, i)),
{
    let l = st.pieces;
    l.lemma_matches_pos(st.pos());
    lemma_wf_bits(l);
    assert forall|t: PieceType, i: int| #[trigger] bit(bb(st.pieces, st.side, t), i) <==> (0 <= i < 64 && own(st, i) && type_on(st, i) == t) by {
        Piece::lemma_of_piece(st.side, t);
        if 0 <= i < 64 && st.pos()[i] is Some {
            st.pos()[i]->0.lemma_piece_of();
        }
    }
    assert forall|i: int| #[trigger] bit(st.pieces.cbits(st.side.opp().idx()), i) <==> (0 <= i < 64 && enemy(st, i)) by {
        assert(bit(l.cbits(st.side.opp().idx()), i) <==> (0 <= i < 64 && l.pos()[i] is Some && l.pos()[i]->0.colour_spec() == st.side.opp()));
    }
    assert forall|i: int| #[trigger] bit(st.pieces.cbits(st.side.idx()), i) <==> (0 <= i < 64 && own(st, i)) by {
        assert(bit(l.cbits(st.side.idx()), i) <==> (0 <= i < 64 && l.pos()[i] is Some && l.pos()[i]->0.colour_spec() == st.side));
    }
}

/// Two disjoint parts of `a` hold no more squares than `a`.
proof fn lemma_pop_pair(x: u64, y: u64, a: u64)
    requires
        forall|i: int| #[trigger] bit(x, i) ==> bit(a, i),
        forall|i: int| #[trigger] bit(y, i) ==> bit(a, i),
        forall|i: int| !(#[trigger] bit(x, i) && bit(y, i)),
    ensures
        popcount(x) + popcount(y) <= popcount(a),
{
    lemma_bits_ops(x, y);
    lemma_pop_split(x | y, x, y, 64);
    lemma_pop_sub(x | y, a, 64);
}

/// Pushes a move from `from` to each square of `targets`, lowest first.
#[verifier::rlimit(50)]
fn push_targets<const TACTICAL: bool>(
    list: &mut MoveList,
    from: Square,
    targets: SquareSet,
    st: Ghost<BoardState>,
    mode: Ghost<int>,
)
    requires
        old(list).entries().len() + popcount(targets.inner) <= 218,
        forall|t: int| #[trigger] bit(targets.inner, t) ==> t != from.idx() && cand(st@, mode@, from.idx(), t, false) && score_of(st@, t, false) == sentinel(TACTICAL),
    ensures
        final(list).entries().len() == old(list).entries().len() + popcount(targets.inner),
        extends(final(list).entries(), old(list).entries()),
        ok_from(st@, final(list).entries(), old(list).entries().len() as int, mode@),
        forall|t: int| #[trigger] bit(targets.inner, t) ==> has_move(final(list).entries(), from.idx(), t, false),
        forall|k: int| old(list).entries().len() <= k < final(list).entries().len() ==> {
            let mv = #[trigger] final(list).entries()[k].mov;
            mv.from_idx() == from.idx() && bit(targets.inner, mv.to_idx()) && !mv.promo()
        },
        distinct_in(final(list).entries(), old(list).entries().len() as int, final(list).entries().len() as int),
{
    let ghost l0 = list.entries();
    let mut rem = targets;
    proof {
        assert(list.entries().subrange(0, l0.len() as int) =~= l0);
    }
    while rem.non_empty()
        invariant
            forall|t: int| #[trigger] bit(rem.inner, t) ==> bit(targets.inner, t),
            forall|t: int| #[trigger] bit(targets.inner, t) ==> t != from.idx() && cand(st@, mode@, from.idx(), t, false) && score_of(st@, t, false) == sentinel(TACTICAL),
            list.entries().len() + popcount(rem.inner) == l0.len() + popcount(targets.inner),
            l0.len() + popcount(targets.inner) <= 218,
            extends(list.entries(), l0),
            ok_from(st@, list.entries(), l0.len() as int, mode@),
            forall|t: int| #[trigger] bit(targets.inner, t) && !bit(rem.inner, t) ==> has_move(list.entries(), from.idx(), t, false),
            forall|k: int| l0.len() <= k < list.entries().len() ==> {
                let mv = #[trigger] list.entries()[k].mov;
                mv.from_idx() == from.idx() && bit(targets.inner, mv.to_idx()) && !bit(rem.inner, mv.to_idx()) && !mv.promo()
            },
            distinct_in(list.entries(), l0.len() as int, list.entries().len() as int),
        decreases rem.inner,
    {
        let to = rem.first();
        proof {
            lemma_pop_clear_lowest(rem.inner);
            let x0 = rem.inner;
            assert(x0 != 0 ==> (x0 & ((x0 - 1u64) as u64)) < x0) by (bit_vector);
        }
        let m = Move::new(from, to);
        let ghost before = list.entries();
        list.push::<TACTICAL>(m);
        proof {
            let cur = list.entries();
            assert(cur.subrange(0, before.len() as int) =~= before);
            lemma_extends(before, cur);
            lemma_extends_trans(l0, before, cur);
            assert forall|k: int| l0.len() <= k < cur.len() implies #[trigger] entry_ok(st@, cur[k], mode@) by {
                if k < before.len() {
                    assert(cur[k] == before[k]);
                }
            }
            assert(cur[before.len() as int].mov == m);
            assert(has_move(cur, from.idx(), to.idx(), false));
            assert forall|j: int, k: int| l0.len() <= j < k < cur.len() implies #[trigger] cur[j].mov != #[trigger] cur[k].mov by {
                if k < before.len() {
                    assert(cur[j] == before[j] && cur[k] == before[k]);
                } else {
                    assert(cur[j] == before[j]);
                    assert(!bit(rem.inner, before[j].mov.to_idx()));
                }
            }
        }
        rem = rem.without_first();
        proof {
            let cur = list.entries();
            assert forall|k: int| l0.len() <= k < cur.len() implies {
                let mv = #[trigger] cur[k].mov;
                mv.from_idx() == from.idx() && bit(targets.inner, mv.to_idx()) && !bit(rem.inner, mv.to_idx()) && !mv.promo()
            } by {
                assert(!bit(rem.inner, to.idx()));
            }
        }
    }
    proof {
        crate::shatranj::squareset::lemma_pop_zero(64);
    }
}

/// Pushes, for each square `f` of `from_mask`, a move from `f` to `f + off`.
#[verifier::rlimit(50)]
fn push_pawn_moves<const TACTICAL: bool, const PROMO: bool>(
    list: &mut MoveList,
    from_mask: SquareSet,
    off: i8,
    st: Ghost<BoardState>,
    mode: Ghost<int>,
)
    requires
        -16 <= off <= 16,
        off != 0,
        old(list).entries().len() + popcount(from_mask.inner) <= 218,
        forall|f: int| #[trigger] bit(from_mask.inner, f) ==> 0 <= f + off < 64 && cand(st@, mode@, f, f + off, PROMO) && score_of(st@, f + off, PROMO) == sentinel(TACTICAL),
    ensures
        final(list).entries().len() == old(list).entries().len() + popcount(from_mask.inner),
        extends(final(list).entries(), old(list).entries()),
        ok_from(st@, final(list).entries(), old(list).entries().len() as int, mode@),
        forall|f: int| #[trigger] bit(from_mask.inner, f) ==> has_move(final(list).entries(), f, f + off, PROMO),
        forall|k: int| old(list).entries().len() <= k < final(list).entries().len() ==> {
            let mv = #[trigger] final(list).entries()[k].mov;
            bit(from_mask.inner, mv.from_idx()) && mv.to_idx() == mv.from_idx() + off && mv.promo() == PROMO
        },
        distinct_in(final(list).entries(), old(list).entries().len() as int, final(list).entries().len() as int),
{
    let ghost l0 = list.entries();
    let mut rem = from_mask;
    proof {
        assert(list.entries().subrange(0, l0.len() as int) =~= l0);
    }
    while rem.non_empty()
        invariant
            -16 <= off <= 16,
            off != 0,
            forall|f: int| #[trigger] bit(rem.inner, f) ==> bit(from_mask.inner, f),
            forall|f: int| #[trigger] bit(from_mask.inner, f) ==> 0 <= f + off < 64 && cand(st@, mode@, f, f + off, PROMO) && score_of(st@, f + off, PROMO) == sentinel(TACTICAL),
            list.entries().len() + popcount(rem.inner) == l0.len() + popcount(from_mask.inner),
            l0.len() + popcount(from_mask.inner) <= 218,
            extends(list.entries(), l0),
            ok_from(st@, list.entries(), l0.len() as int, mode@),
            forall|f: int| #[trigger] bit(from_mask.inner, f) && !bit(rem.inner, f) ==> has_move(list.entries(), f, f + off, PROMO),
            forall|k: int| l0.len() <= k < list.entries().len() ==> {
                let mv = #[trigger] list.entries()[k].mov;
                bit(from_mask.inner, mv.from_idx()) && !bit(rem.inner, mv.from_idx()) && mv.to_idx() == mv.from_idx() + off && mv.promo() == PROMO
            },
            distinct_in(list.entries(), l0.len() as int, list.entries().len() as int),
        decreases rem.inner,
    {
        let from = rem.first();
        proof {
            lemma_pop_clear_lowest(rem.inner);
            let x0 = rem.inner;
            assert(x0 != 0 ==> (x0 & ((x0 - 1u64) as u64)) < x0) by (bit_vector);
            assert(bit(from_mask.inner, from.idx()));
        }
        let t = (from.index() as i16 + off as i16) as u8;
        let to = Square::from_index(t);
        let m = if PROMO { Move::new_promo(from, to) } else { Move::new(from, to) };
        let ghost before = list.entries();
        list.push::<TACTICAL>(m);
        proof {
            let cur = list.entries();
            assert(cur.subrange(0, before.len() as int) =~= before);
            lemma_extends(before, cur);
            lemma_extends_trans(l0, before, cur);
            assert forall|k: int| l0.len() <= k < cur.len() implies #[trigger] entry_ok(st@, cur[k], mode@) by {
                if k < before.len() {
                    assert(cur[k] == before[k]);
                }
            }
            assert(cur[before.len() as int].mov == m);
            assert(has_move(cur, from.idx(), from.idx() + off, PROMO));
            assert forall|j: int, k: int| l0.len() <= j < k < cur.len() implies #[trigger] cur[j].mov != #[trigger] cur[k].mov by {
                if k < before.len() {
                    assert(cur[j] == before[j] && cur[k] == before[k]);
                } else {
                    assert(cur[j] == before[j]);
                    assert(!bit(rem.inner, before[j].mov.from_idx()));
                }
            }
        }
        rem = rem.without_first();
        proof {
            let cur = list.entries();
            assert forall|k: int| l0.len() <= k < cur.len() implies {
                let mv = #[trigger] cur[k].mov;
                bit(from_mask.inner, mv.from_idx()) && !bit(rem.inner, mv.from_idx()) && mv.to_idx() == mv.from_idx() + off && mv.promo() == PROMO
            } by {
                assert(!bit(rem.inner, from.idx()));
            }
        }
    }
    proof {
        crate::shatranj::squareset::lemma_pop_zero(64);
    }
}

// ---------------------------------------------------------------------------
// Lines between squares.
// ---------------------------------------------------------------------------

/// The squares strictly between `sq1` and `sq2` on the rank, file or diagonal
/// that joins them; none when the two share no such line.
#[verifier::rlimit(30)]
pub fn in_between(sq1: Square, sq2: Square) -> (r: SquareSet)
    ensures
        forall|x: int| #[trigger] bit(r.inner, x) <==> between(sq1.idx(), sq2.idx(), x),
{
    let a = sq1.inner();
    let b = sq2.inner();
    let ra = a / 8;
    let fa = a % 8;
    let rb = b / 8;
    let fb = b % 8;
    let dr = if ra >= rb { ra - rb } else { rb - ra };
    let df = if fa >= fb { fa - fb } else { fb - fa };
    let n = if df >= dr { df } else { dr };
    if !(ra == rb || fa == fb || dr == df) {
        proof {
            assert forall|x: int| !#[trigger] bit(0u64, x) && !between(sq1.idx(), sq2.idx(), x) by {
                lemma_bit_zero(x);
            }
        }
        return SquareSet::from_inner(0);
    }
    let mut acc: u64 = 0;
    let mut k: u8 = 1;
    proof {
        assert forall|x: int| #[trigger] bit(acc, x) <==> (between(a as int, b as int, x) && chebyshev(a as int, x) < k) by {
            lemma_bit_zero(x);
        }
    }
    while k < n
        invariant
            1 <= k <= n + 1,
            a == sq1.idx(),
            b == sq2.idx(),
            a < 64 && b < 64,
            ra == rank_of(a as int) && fa == file_of(a as int),
            rb == rank_of(b as int) && fb == file_of(b as int),
            dr == abs_diff(ra as int, rb as int) && df == abs_diff(fa as int, fb as int),
            n == chebyshev(a as int, b as int),
            ra == rb || fa == fb || dr == df,
            forall|x: int| #[trigger] bit(acc, x) <==> (between(a as int, b as int, x) && chebyshev(a as int, x) < k),
        decreases n - k,
    {
        let r = if rb > ra { ra + k } else if rb < ra { ra - k } else { ra };
        let f = if fb > fa { fa + k } else if fb < fa { fa - k } else { fa };
        let idx = r * 8 + f;
        proof {
            assert(r == step_toward(ra as int, rb as int, k as int));
            assert(f == step_toward(fa as int, fb as int, k as int));
            assert(rank_of(idx as int) == r && file_of(idx as int) == f);
            assert(chebyshev(a as int, idx as int) == k);
            lemma_bits_ops(acc, 1u64 << (idx as u64));
            assert forall|x: int| #[trigger] bit(acc | (1u64 << (idx as u64)), x) <==> (between(a as int, b as int, x) && chebyshev(a as int, x) < k + 1) by {
                lemma_bit_single(idx as u64, x);
                if between(a as int, b as int, x) && chebyshev(a as int, x) == k {
                    assert(x == 8 * rank_of(x) + file_of(x));
                }
            }
        }
        acc = acc | (1u64 << (idx as u64));
        k = k + 1;
    }
    SquareSet::from_inner(acc)
}

// ---------------------------------------------------------------------------
// The leaping pieces.
// ---------------------------------------------------------------------------

/// The square `delta` steps from `sq` in index order, as a one-square set,
/// when it is on the board and within two king moves of `sq`; else nothing.
fn jump_target(sq: Square, delta: i16) -> (r: u64)
    requires
        -18 <= delta <= 18,
    ensures
        forall|x: int| #[trigger] bit(r, x) <==> (x == sq.idx() + delta && 0 <= x < 64 && chebyshev(sq.idx(), x) <= 2),
        popcount(r) <= 1,
{
    let attacked_sq = sq.signed_inner() + delta;
    if 0 <= attacked_sq && attacked_sq < 64 && Square::distance(sq, Square::new_clamped(attacked_sq as u8)) <= 2 {
        let t = attacked_sq as u64;
        proof {
            assert forall|x: int| #[trigger] bit(1u64 << t, x) <==> x == t by {
                lemma_bit_single(t, x);
            }
            lemma_pop_single(t, 64);
        }
        1u64 << t
    } else {
        proof {
            assert forall|x: int| !#[trigger] bit(0u64, x) by {
                lemma_bit_zero(x);
            }
            lemma_pop_zero(64);
        }
        0
    }
}

proof fn lemma_jump4(s: int, x: int, is_ferz: bool)
    requires
        0 <= s < 64,
    ensures
        (if is_ferz { ferz_rel(s, x) } else { alfil_rel(s, x) }) <==> (0 <= x < 64 && chebyshev(s, x) <= 2 && (
            if is_ferz { x == s + 9 || x == s + 7 || x == s - 7 || x == s - 9 }
            else { x == s + 18 || x == s + 14 || x == s - 14 || x == s - 18 })),
{
}

proof fn lemma_jump8(s: int, x: int, is_knight: bool)
    requires
        0 <= s < 64,
    ensures
        (if is_knight { knight_rel(s, x) } else { king_rel(s, x) }) <==> (0 <= x < 64 && chebyshev(s, x) <= 2 && (
            if is_knight { x == s + 17 || x == s + 15 || x == s + 10 || x == s + 6 || x == s - 17 || x == s - 15 || x == s - 10 || x == s - 6 }
            else { x == s + 9 || x == s + 8 || x == s + 7 || x == s + 1 || x == s - 9 || x == s - 8 || x == s - 7 || x == s - 1 })),
{
}

proof fn pop_or(a: u64, b: u64)
    ensures
        popcount(a | b) <= popcount(a) + popcount(b),
{
    lemma_bits_ops(a, b);
    lemma_pop_union_bound(a | b, a, b, 64);
}

/// The attacks of an alfil (or, with `IS_FERZ`, a ferz) on `sq`.
fn jumping_attacks4<const IS_FERZ: bool>(sq: Square) -> (r: SquareSet)
    ensures
        forall|x: int| #[trigger] bit(r.inner, x) <==> if IS_FERZ { ferz_rel(sq.idx(), x) } else { alfil_rel(sq.idx(), x) },
        popcount(r.inner) <= 4,
{
    let (d0, d1, d2, d3): (i16, i16, i16, i16) = if IS_FERZ { (9, 7, -7, -9) } else { (18, 14, -14, -18) };
    let a = jump_target(sq, d0);
    let b = jump_target(sq, d1);
    let c = jump_target(sq, d2);
    let d = jump_target(sq, d3);
    let r = a | b | c | d;
    proof {
        assert forall|x: int| #[trigger] bit(r, x) <==> if IS_FERZ { ferz_rel(sq.idx(), x) } else { alfil_rel(sq.idx(), x) } by {
            lemma_bits_ops(a, b);
            lemma_bits_ops(a | b, c);
            lemma_bits_ops(a | b | c, d);
            lemma_jump4(sq.idx(), x, IS_FERZ);
        }
        pop_or(a, b);
        pop_or(a | b, c);
        pop_or(a | b | c, d);
    }
    SquareSet::from_inner(r)
}

/// The attacks of a knight (or, without `IS_KNIGHT`, a king) on `sq`.
fn jumping_attacks8<const IS_KNIGHT: bool>(sq: Square) -> (r: SquareSet)
    ensures
        forall|x: int| #[trigger] bit(r.inner, x) <==> if IS_KNIGHT { knight_rel(sq.idx(), x) } else { king_rel(sq.idx(), x) },
        popcount(r.inner) <= 8,
{
    let (d0, d1, d2, d3, d4, d5, d6, d7): (i16, i16, i16, i16, i16, i16, i16, i16) =
        if IS_KNIGHT { (17, 15, 10, 6, -17, -15, -10, -6) } else { (9, 8, 7, 1, -9, -8, -7, -1) };
    let a0 = jump_target(sq, d0);
    let a1 = jump_target(sq, d1);
    let a2 = jump_target(sq, d2);
    let a3 = jump_target(sq, d3);
    let a4 = jump_target(sq, d4);
    let a5 = jump_target(sq, d5);
    let a6 = jump_target(sq, d6);
    let a7 = jump_target(sq, d7);
    let r = a0 | a1 | a2 | a3 | a4 | a5 | a6 | a7;
    proof {
        assert forall|x: int| #[trigger] bit(r, x) <==> if IS_KNIGHT { knight_rel(sq.idx(), x) } else { king_rel(sq.idx(), x) } by {
            lemma_bits_ops(a0, a1);
            lemma_bits_ops(a0 | a1, a2);
            lemma_bits_ops(a0 | a1 | a2, a3);
            lemma_bits_ops(a0 | a1 | a2 | a3, a4);
            lemma_bits_ops(a0 | a1 | a2 | a3 | a4, a5);
            lemma_bits_ops(a0 | a1 | a2 | a3 | a4 | a5, a6);
            lemma_bits_ops(a0 | a1 | a2 | a3 | a4 | a5 | a6, a7);
            lemma_jump8(sq.idx(), x, IS_KNIGHT);
        }
        pop_or(a0, a1);
        pop_or(a0 | a1, a2);
        pop_or(a0 | a1 | a2, a3);
        pop_or(a0 | a1 | a2 | a3, a4);
        pop_or(a0 | a1 | a2 | a3 | a4, a5);
        pop_or(a0 | a1 | a2 | a3 | a4 | a5, a6);
        pop_or(a0 | a1 | a2 | a3 | a4 | a5 | a6, a7);
    }
    SquareSet::from_inner(r)
}

/// The table of alfil (or ferz) attacks, one entry per square.
pub fn init_jumping_attacks4<const IS_FERZ: bool>() -> (r: [SquareSet; 64])
    ensures
        forall|s: int, x: int| 0 <= s < 64 ==> (#[trigger] bit(r@[s].inner, x) <==> if IS_FERZ { ferz_rel(s, x) } else { alfil_rel(s, x) }),
{
    let mut attacks = [SquareSet::empty(); 64];
    let mut i: u8 = 0;
    while i < 64
        invariant
            i <= 64,
            forall|s: int, x: int| 0 <= s < i ==> (#[trigger] bit(attacks@[s].inner, x) <==> if IS_FERZ { ferz_rel(s, x) } else { alfil_rel(s, x) }),
        decreases 64 - i,
    {
        let sq = Square::from_index(i);
        attacks[i as usize] = jumping_attacks4::<IS_FERZ>(sq);
        i = i + 1;
    }
    attacks
}

/// The table of knight (or king) attacks, one entry per square.
pub fn init_jumping_attacks8<const IS_KNIGHT: bool>() -> (r: [SquareSet; 64])
    ensures
        forall|s: int, x: int| 0 <= s < 64 ==> (#[trigger] bit(r@[s].inner, x) <==> if IS_KNIGHT { knight_rel(s, x) } else { king_rel(s, x) }),
{
    let mut attacks = [SquareSet::empty(); 64];
    let mut i: u8 = 0;
    while i < 64
        invariant
            i <= 64,
            forall|s: int, x: int| 0 <= s < i ==> (#[trigger] bit(attacks@[s].inner, x) <==> if IS_KNIGHT { knight_rel(s, x) } else { king_rel(s, x) }),
        decreases 64 - i,
    {
        let sq = Square::from_index(i);
        attacks[i as usize] = jumping_attacks8::<IS_KNIGHT>(sq);
        i = i + 1;
    }
    attacks
}

pub fn alfil_attacks(sq: Square) -> (r: SquareSet)
    ensures
        forall|x: int| #[trigger] bit(r.inner, x) <==> alfil_rel(sq.idx(), x),
        popcount(r.inner) <= 4,
{
    jumping_attacks4::<false>(sq)
}

pub fn ferz_attacks(sq: Square) -> (r: SquareSet)
    ensures
        forall|x: int| #[trigger] bit(r.inner, x) <==> ferz_rel(sq.idx(), x),
        popcount(r.inner) <= 4,
{
    jumping_attacks4::<true>(sq)
}

pub fn knight_attacks(sq: Square) -> (r: SquareSet)
    ensures
        forall|x: int| #[trigger] bit(r.inner, x) <==> knight_rel(sq.idx(), x),
        popcount(r.inner) <= 8,
{
    jumping_attacks8::<true>(sq)
}

pub fn king_attacks(sq: Square) -> (r: SquareSet)
    ensures
        forall|x: int| #[trigger] bit(r.inner, x) <==> king_rel(sq.idx(), x),
        popcount(r.inner) <= 8,
{
    jumping_attacks8::<false>(sq)
}


// ---------------------------------------------------------------------------
// Pawns.
// ---------------------------------------------------------------------------

/// The squares that the pawns `bb` of colour `c` attack.
pub fn pawn_attacks(c: Colour, bb: SquareSet) -> (r: SquareSet)
    ensures
        forall|x: int| #[trigger] bit(r.inner, x) <==> pawn_attacked(c, bb.inner, x),
{
    match c {
        Colour::White => {
            let a = bb.north_east_one();
            let b = bb.north_west_one();
            proof {
                lemma_bits_ops(a.inner, b.inner);
            }
            a | b
        },
        Colour::Black => {
            let a = bb.south_east_one();
            let b = bb.south_west_one();
            proof {
                lemma_bits_ops(a.inner, b.inner);
            }
            a | b
        },
    }
}

/// The squares a rook on `sq` attacks, given the occupied squares `blockers`.
pub fn rook_attacks(sq: Square, blockers: SquareSet) -> (r: SquareSet)
    ensures
        forall|x: int| #[trigger] bit(r.inner, x) <==> rook_rel(sq.idx(), x, blockers.inner),
        popcount(r.inner) <= 14,
{
    rook_attacks_on_the_fly(sq, blockers)
}

/// The most squares a piece of type `pt` (not a pawn) can attack.
pub open spec fn max_moves(pt: PieceType) -> int {
    match pt {
        PieceType::Alfil => 4,
        PieceType::Ferz => 4,
        PieceType::Knight => 8,
        PieceType::Rook => 14,
        PieceType::King => 8,
        PieceType::Pawn => 0,
    }
}

/// The attacks of a piece of type `pt` (not a pawn) on `sq`.
pub fn attacks_by_type(pt: PieceType, sq: Square, blockers: SquareSet) -> (r: SquareSet)
    requires
        pt != PieceType::Pawn,
    ensures
        forall|x: int| #[trigger] bit(r.inner, x) <==> attacks_rel(pt, sq.idx(), x, blockers.inner),
        popcount(r.inner) <= max_moves(pt),
{
    proof {
        lemma_pop_zero(64);
    }
    match pt {
        PieceType::Alfil => alfil_attacks(sq),
        PieceType::Rook => rook_attacks(sq, blockers),
        PieceType::Ferz => ferz_attacks(sq),
        PieceType::Knight => knight_attacks(sq),
        PieceType::King => king_attacks(sq),
        PieceType::Pawn => SquareSet::empty(),
    }
}


// ---------------------------------------------------------------------------
// Attacks of a whole set of pieces.
// ---------------------------------------------------------------------------

/// The squares attacked by pieces of type `pt` standing on the squares of `bb`.
pub fn union_attacks(pt: PieceType, bb: SquareSet, blockers: SquareSet) -> (r: SquareSet)
    requires
        pt != PieceType::Pawn,
    ensures
        forall|x: int| #[trigger] bit(r.inner, x) <==> exists|s: int| #[trigger] bit(bb.inner, s) && attacks_rel(pt, s, x, blockers.inner),
{
    let mut acc: u64 = 0;
    let mut rem = bb;
    proof {
        assert forall|x: int| #[trigger] bit(acc, x) <==> exists|s: int| #[trigger] bit(bb.inner, s) && !bit(rem.inner, s) && attacks_rel(pt, s, x, blockers.inner) by {
            lemma_bit_zero(x);
        }
    }
    while rem.non_empty()
        invariant
            pt != PieceType::Pawn,
            forall|s: int| #[trigger] bit(rem.inner, s) ==> bit(bb.inner, s),
            forall|x: int| #[trigger] bit(acc, x) <==> exists|s: int| #[trigger] bit(bb.inner, s) && !bit(rem.inner, s) && attacks_rel(pt, s, x, blockers.inner),
        decreases rem.inner,
    {
        let sq = rem.first();
        let a = attacks_by_type(pt, sq, blockers);
        let next = rem.without_first();
        proof {
            let x0 = rem.inner;
            assert(x0 != 0 ==> (x0 & ((x0 - 1u64) as u64)) < x0) by (bit_vector);
            lemma_bits_ops(acc, a.inner);
            assert forall|x: int| #[trigger] bit(acc | a.inner, x) <==> exists|s: int| #[trigger] bit(bb.inner, s) && !bit(next.inner, s) && attacks_rel(pt, s, x, blockers.inner) by {
                if bit(acc | a.inner, x) {
                    if bit(acc, x) {
                        let s = choose|s: int| #[trigger] bit(bb.inner, s) && !bit(rem.inner, s) && attacks_rel(pt, s, x, blockers.inner);
                        assert(!bit(next.inner, s));
                    } else {
                        assert(bit(bb.inner, sq.idx()) && !bit(next.inner, sq.idx()));
                    }
                }
                if exists|s: int| #[trigger] bit(bb.inner, s) && !bit(next.inner, s) && attacks_rel(pt, s, x, blockers.inner) {
                    let s = choose|s: int| #[trigger] bit(bb.inner, s) && !bit(next.inner, s) && attacks_rel(pt, s, x, blockers.inner);
                    if s == sq.idx() {
                        assert(bit(a.inner, x));
                    } else {
                        assert(!bit(rem.inner, s));
                    }
                }
            }
        }
        acc = acc | a.inner;
        rem = next;
    }
    proof {
        assert forall|x: int| #[trigger] bit(acc, x) <==> exists|s: int| #[trigger] bit(bb.inner, s) && attacks_rel(pt, s, x, blockers.inner) by {
            if exists|s: int| #[trigger] bit(bb.inner, s) && attacks_rel(pt, s, x, blockers.inner) {
                let s = choose|s: int| #[trigger] bit(bb.inner, s) && attacks_rel(pt, s, x, blockers.inner);
                assert(!bit(rem.inner, s));
            }
        }
    }
    SquareSet::from_inner(acc)
}


// ---------------------------------------------------------------------------
// Generating the moves of the side to move.
// ---------------------------------------------------------------------------

/// A bound on the number of moves the side `c` can have: three per pawn,
/// four per alfil or ferz, eight per knight and for the king, fourteen per rook.
pub open spec fn move_budget(l: PieceLayout, c: Colour) -> nat {
    3 * popcount(bb(l, c, PieceType::Pawn)) + 4 * popcount(bb(l, c, PieceType::Alfil)) + 4 * popcount(bb(l, c, PieceType::Ferz))
        + 8 * popcount(bb(l, c, PieceType::Knight)) + 14 * popcount(bb(l, c, PieceType::Rook)) + 8
}

/// A bound on the number of quiet moves the side `c` can have: one per pawn,
/// the full share of every other piece.
pub open spec fn quiet_budget(l: PieceLayout, c: Colour) -> nat {
    popcount(bb(l, c, PieceType::Pawn)) + 4 * popcount(bb(l, c, PieceType::Alfil)) + 4 * popcount(bb(l, c, PieceType::Ferz))
        + 8 * popcount(bb(l, c, PieceType::Knight)) + 14 * popcount(bb(l, c, PieceType::Rook)) + 8
}

/// The generators run in three modes: all moves, the tactical ones, the quiet ones.
pub open spec fn mode_flags(mode: int, caps: bool, quiets: bool) -> bool {
    &&& mode == 0 ==> caps && quiets
    &&& mode == 1 ==> caps && !quiets
    &&& mode == 2 ==> !caps && quiets
    &&& 0 <= mode <= 2
}

impl Board {
    /// The king moves of the side to move: captures when `CAPS`, moves onto
    /// empty squares when `QUIETS`.
    #[verifier::rlimit(50)]
    fn gen_king_moves<const CAPS: bool, const QUIETS: bool>(&self, list: &mut MoveList, mode: Ghost<int>)
        requires
            self.wf(),
            mode_flags(mode@, CAPS, QUIETS),
            old(list).entries().len() + 8 <= 218,
        ensures
            extends(final(list).entries(), old(list).entries()),
            final(list).entries().len() <= old(list).entries().len() + 8,
            ok_from(self@, final(list).entries(), old(list).entries().len() as int, mode@),
            forall|t: int| king_move(self@, ksq(self@.pieces, self@.side), t, false) && ((CAPS && enemy(self@, t)) || (QUIETS && vacant(self@, t)))
                ==> #[trigger] has_move(final(list).entries(), ksq(self@.pieces, self@.side), t, false),
            forall|k: int| old(list).entries().len() <= k < final(list).entries().len()
                ==> (#[trigger] final(list).entries()[k]).mov.from_idx() == ksq(self@.pieces, self@.side),
            distinct_in(final(list).entries(), old(list).entries().len() as int, final(list).entries().len() as int),
    {
        let ghost st = self@;
        let ghost l0 = list.entries();
        let c = self.side;
        let ksq_ = self.king_sq(c);
        let their = self.pieces.occupied_co(c.flip());
        let free = self.pieces.empty();
        let katt = king_attacks(ksq_);
        let moves = katt & SquareSet::from_inner(!self.threats.all.inner);
        let caps = moves & their;
        let quiets = moves & free;
        proof {
            assert(st.pieces == self.pieces && st.side == c && st.threats == self.threats);
            lemma_st_bits(st);
            lemma_bits_ops(katt.inner, !self.threats.all.inner);
            lemma_bits_ops(self.threats.all.inner, 0);
            lemma_bits_ops(moves.inner, their.inner);
            lemma_bits_ops(moves.inner, free.inner);
            assert(free.inner == !occ(st.pieces));
            lemma_pop_pair(caps.inner, quiets.inner, katt.inner);
            assert(list.entries().subrange(0, l0.len() as int) =~= l0);
        }
        if CAPS {
            push_targets::<true>(list, ksq_, caps, Ghost(st), mode);
        }
        let ghost mid = list.entries();
        proof {
            assert(extends(mid, l0));
            assert(ok_from(st, mid, l0.len() as int, mode@));
        }
        if QUIETS {
            push_targets::<false>(list, ksq_, quiets, Ghost(st), mode);
        }
        proof {
            let cur = list.entries();
            if !CAPS {
                assert(mid =~= l0);
            }
            if !QUIETS {
                assert(cur =~= mid);
            }
            assert(cur.subrange(0, mid.len() as int) =~= mid) ;
            lemma_distinct_extends(mid, cur, l0.len() as int);
            assert forall|j: int, k: int| l0.len() <= j < mid.len() && mid.len() <= k < cur.len()
                implies #[trigger] cur[j].mov != #[trigger] cur[k].mov by {
                assert(cur.subrange(0, mid.len() as int)[j] == cur[j]);
                assert(bit(caps.inner, cur[j].mov.to_idx()));
                assert(bit(quiets.inner, cur[k].mov.to_idx()));
            }
            lemma_distinct_join(cur, l0.len() as int, mid.len() as int, cur.len() as int);
            lemma_extends(mid, cur);
            lemma_extends_trans(l0, mid, cur);
            lemma_ok_join(st, mid, cur, l0.len() as int, mode@);
            crate::shatranj::squareset::lemma_pop_zero(64);
            assert forall|t: int| king_move(st, ksq(st.pieces, st.side), t, false) && ((CAPS && enemy(st, t)) || (QUIETS && vacant(st, t)))
                implies #[trigger] has_move(cur, ksq(st.pieces, st.side), t, false) by {
                if CAPS && enemy(st, t) {
                    assert(bit(caps.inner, t));
                    assert(has_move(mid, ksq_.idx(), t, false));
                } else {
                    assert(bit(quiets.inner, t));
                }
            }
        }
    }
}

impl Board {
    /// The moves of the pieces of type `pt` (an alfil, ferz, knight or rook) of
    /// the side to move onto the squares of `valid`: captures when `CAPS`, moves
    /// onto empty squares when `QUIETS`.
    #[verifier::rlimit(50)]
    fn gen_piece_moves<const CAPS: bool, const QUIETS: bool>(
        &self,
        list: &mut MoveList,
        pt: PieceType,
        valid: SquareSet,
        mode: Ghost<int>,
    )
        requires
            self.wf(),
            !double_check(self@),
            mode_flags(mode@, CAPS, QUIETS),
            pt == PieceType::Alfil || pt == PieceType::Ferz || pt == PieceType::Knight || pt == PieceType::Rook,
            forall|x: int| #[trigger] bit(valid.inner, x) <==> evasion_target(self@, x),
            old(list).entries().len() + max_moves(pt) * popcount(bb(self@.pieces, self@.side, pt)) <= 218,
        ensures
            extends(final(list).entries(), old(list).entries()),
            final(list).entries().len() <= old(list).entries().len() + max_moves(pt) * popcount(bb(self@.pieces, self@.side, pt)),
            ok_from(self@, final(list).entries(), old(list).entries().len() as int, mode@),
            forall|f: int, t: int| type_on(self@, f) == pt && piece_move(self@, f, t, false) && ((CAPS && enemy(self@, t)) || (QUIETS && vacant(self@, t)))
                ==> #[trigger] has_move(final(list).entries(), f, t, false),
            forall|k: int| old(list).entries().len() <= k < final(list).entries().len()
                ==> bit(bb(self@.pieces, self@.side, pt), (#[trigger] final(list).entries()[k]).mov.from_idx()),
            distinct_in(final(list).entries(), old(list).entries().len() as int, final(list).entries().len() as int),
    {
        let ghost st = self@;
        let ghost l0 = list.entries();
        let ghost mx = max_moves(pt);
        let c = self.side;
        let their = self.pieces.occupied_co(c.flip());
        let free = self.pieces.empty();
        let blockers = self.pieces.occupied();
        let ours = self.pieces.of(c, pt);
        proof {
            assert(st.pieces == self.pieces && st.side == c);
            lemma_st_bits(st);
            assert(free.inner == !occ(st.pieces));
            assert(blockers.inner == occ(st.pieces));
            assert(ours.inner == bb(st.pieces, st.side, pt));
            assert(list.entries().subrange(0, l0.len() as int) =~= l0);
        }
        let mut rem = ours;
        while rem.non_empty()
            invariant
                st == self@,
                self.wf(),
                !double_check(st),
                mode_flags(mode@, CAPS, QUIETS),
                pt == PieceType::Alfil || pt == PieceType::Ferz || pt == PieceType::Knight || pt == PieceType::Rook,
                mx == max_moves(pt),
                forall|x: int| #[trigger] bit(valid.inner, x) <==> evasion_target(st, x),
                forall|i: int| #[trigger] bit(bb(st.pieces, st.side, pt), i) <==> (0 <= i < 64 && own(st, i) && type_on(st, i) == pt),
                forall|i: int| #[trigger] bit(their.inner, i) <==> (0 <= i < 64 && enemy(st, i)),
                forall|i: int| #[trigger] bit(free.inner, i) <==> (0 <= i < 64 && vacant(st, i)),
                blockers.inner == occ(st.pieces),
                ours.inner == bb(st.pieces, st.side, pt),
                forall|i: int| #[trigger] bit(rem.inner, i) ==> bit(ours.inner, i),
                popcount(rem.inner) <= popcount(ours.inner),
                l0.len() + mx * popcount(ours.inner) <= 218,
                list.entries().len() + mx * popcount(rem.inner) <= l0.len() + mx * popcount(ours.inner),
                extends(list.entries(), l0),
                ok_from(st, list.entries(), l0.len() as int, mode@),
                forall|f: int, t: int| bit(ours.inner, f) && !bit(rem.inner, f) && piece_move(st, f, t, false) && ((CAPS && enemy(st, t)) || (QUIETS && vacant(st, t)))
                    ==> #[trigger] has_move(list.entries(), f, t, false),
                forall|k: int| l0.len() <= k < list.entries().len()
                    ==> bit(ours.inner, (#[trigger] list.entries()[k]).mov.from_idx()) && !bit(rem.inner, list.entries()[k].mov.from_idx()),
                distinct_in(list.entries(), l0.len() as int, list.entries().len() as int),
            decreases rem.inner,
        {
            let sq = rem.first();
            let att = attacks_by_type(pt, sq, blockers);
            let moves = att & valid;
            let caps = moves & their;
            let quiets = moves & free;
            let next = rem.without_first();
            let ghost e0 = list.entries();
            proof {
                let x0 = rem.inner;
                assert(x0 != 0 ==> (x0 & ((x0 - 1u64) as u64)) < x0) by (bit_vector);
                lemma_pop_clear_lowest(rem.inner);
                lemma_bits_ops(att.inner, valid.inner);
                lemma_bits_ops(moves.inner, their.inner);
                lemma_bits_ops(moves.inner, free.inner);
                lemma_pop_pair(caps.inner, quiets.inner, att.inner);
                assert(bit(ours.inner, sq.idx()));
                assert(own(st, sq.idx()) && type_on(st, sq.idx()) == pt);
                assert(list.entries().subrange(0, e0.len() as int) =~= e0);
                assert(mx * popcount(rem.inner) == mx * popcount(next.inner) + mx) by (nonlinear_arith)
                    requires popcount(rem.inner) == popcount(next.inner) + 1;
                assert forall|t: int| #[trigger] bit(att.inner, t) implies t != sq.idx() by {}
            }
            if CAPS {
                push_targets::<true>(list, sq, caps, Ghost(st), mode);
            }
            let ghost e1 = list.entries();
            proof {
                assert(extends(e1, e0));
            }
            if QUIETS {
                push_targets::<false>(list, sq, quiets, Ghost(st), mode);
            }
            proof {
                let e2 = list.entries();
                assert(e2.subrange(0, e1.len() as int) =~= e1);
                lemma_extends(e1, e2);
                lemma_extends(e0, e1);
                lemma_extends_trans(e0, e1, e2);
                lemma_extends(e0, e2);
                lemma_extends_trans(l0, e0, e2);
                lemma_ok_join(st, e1, e2, e0.len() as int, mode@);
                lemma_ok_join(st, e0, e2, l0.len() as int, mode@);
                if !CAPS {
                    assert(e1 =~= e0);
                }
                if !QUIETS {
                    assert(e2 =~= e1);
                }
                lemma_distinct_extends(e1, e2, e0.len() as int);
                assert forall|j: int, k: int| e0.len() <= j < e1.len() && e1.len() <= k < e2.len()
                    implies #[trigger] e2[j].mov != #[trigger] e2[k].mov by {
                    assert(e2[j] == e1[j]);
                    assert(bit(caps.inner, e1[j].mov.to_idx()));
                    assert(bit(quiets.inner, e2[k].mov.to_idx()));
                }
                lemma_distinct_join(e2, e0.len() as int, e1.len() as int, e2.len() as int);
                lemma_distinct_extends(e0, e2, l0.len() as int);
                assert forall|k: int| e0.len() <= k < e2.len() implies (#[trigger] e2[k]).mov.from_idx() == sq.idx() by {
                    if k < e1.len() {
                        assert(e2[k] == e1[k]);
                    }
                }
                assert forall|j: int, k: int| l0.len() <= j < e0.len() && e0.len() <= k < e2.len()
                    implies #[trigger] e2[j].mov != #[trigger] e2[k].mov by {
                    assert(e2[j] == e0[j]);
                    assert(!bit(rem.inner, e0[j].mov.from_idx()));
                    assert(e2[k].mov.from_idx() == sq.idx());
                }
                lemma_distinct_join(e2, l0.len() as int, e0.len() as int, e2.len() as int);
                assert forall|k: int| l0.len() <= k < e2.len()
                    implies bit(ours.inner, (#[trigger] e2[k]).mov.from_idx()) && !bit(next.inner, e2[k].mov.from_idx()) by {
                    if k < e0.len() {
                        assert(e2[k] == e0[k]);
                    } else {
                        assert(e2[k].mov.from_idx() == sq.idx());
                    }
                }
                crate::shatranj::squareset::lemma_pop_zero(64);
                assert forall|f: int, t: int| bit(ours.inner, f) && !bit(next.inner, f) && piece_move(st, f, t, false) && ((CAPS && enemy(st, t)) || (QUIETS && vacant(st, t)))
                    implies #[trigger] has_move(e2, f, t, false) by {
                    if f == sq.idx() {
                        if CAPS && enemy(st, t) {
                            assert(bit(caps.inner, t));
                            assert(has_move(e1, f, t, false));
                        } else {
                            assert(bit(quiets.inner, t));
                        }
                    } else {
                        assert(!bit(rem.inner, f));
                        assert(has_move(e0, f, t, false));
                    }
                }
            }
            rem = next;
        }
        proof {
            assert forall|f: int, t: int| type_on(st, f) == pt && piece_move(st, f, t, false) && ((CAPS && enemy(st, t)) || (QUIETS && vacant(st, t)))
                implies #[trigger] has_move(list.entries(), f, t, false) by {
                assert(bit(ours.inner, f));
                assert(!bit(rem.inner, f));
            }
            crate::shatranj::squareset::lemma_pop_zero(64);
        }
    }
}

/// Two blocks of pawn moves along the pawns' files: the blocks differ in the
/// length of the step or in the promotion, and each holds no move twice.
proof fn lemma_straight_pawn_blocks(
    l0: Seq<MoveListEntry>,
    e1: Seq<MoveListEntry>,
    e2: Seq<MoveListEntry>,
    pawns: u64,
    m1: u64,
    m2: u64,
    off1: int,
    off2: int,
    p1: bool,
    p2: bool,
)
    requires
        extends(e2, e1),
        l0.len() <= e1.len(),
        off1 % 8 == 0,
        off2 % 8 == 0,
        off1 != off2 || p1 != p2,
        forall|f: int| #[trigger] bit(m1, f) ==> bit(pawns, f),
        forall|f: int| #[trigger] bit(m2, f) ==> bit(pawns, f),
        forall|k: int| l0.len() <= k < e1.len() ==> {
            let mv = #[trigger] e1[k].mov;
            bit(m1, mv.from_idx()) && mv.to_idx() == mv.from_idx() + off1 && mv.promo() == p1
        },
        forall|k: int| e1.len() <= k < e2.len() ==> {
            let mv = #[trigger] e2[k].mov;
            bit(m2, mv.from_idx()) && mv.to_idx() == mv.from_idx() + off2 && mv.promo() == p2
        },
        distinct_in(e1, l0.len() as int, e1.len() as int),
        distinct_in(e2, e1.len() as int, e2.len() as int),
    ensures
        distinct_in(e2, l0.len() as int, e2.len() as int),
        forall|k: int| l0.len() <= k < e2.len() ==> {
            let mv = #[trigger] e2[k].mov;
            bit(pawns, mv.from_idx()) && file_of(mv.to_idx()) == file_of(mv.from_idx())
        },
{
    lemma_extends(e1, e2);
    lemma_distinct_extends(e1, e2, l0.len() as int);
    assert forall|j: int, k: int| l0.len() <= j < e1.len() && e1.len() <= k < e2.len()
        implies #[trigger] e2[j].mov != #[trigger] e2[k].mov by {
        assert(e2[j] == e1[j]);
    }
    lemma_distinct_join(e2, l0.len() as int, e1.len() as int, e2.len() as int);
    assert forall|k: int| l0.len() <= k < e2.len() implies {
        let mv = #[trigger] e2[k].mov;
        bit(pawns, mv.from_idx()) && file_of(mv.to_idx()) == file_of(mv.from_idx())
    } by {
        if k < e1.len() {
            assert(e2[k] == e1[k]);
            assert(bit(m1, e1[k].mov.from_idx()));
        } else {
            assert(bit(m2, e2[k].mov.from_idx()));
        }
    }
}

impl Board {
    /// The pawn advances of one square of the side to move onto the squares of
    /// `valid`, promoting ones included.
    #[verifier::rlimit(50)]
    fn generate_pawn_forward(&self, list: &mut MoveList, valid: SquareSet)
        requires
            self.wf(),
            !double_check(self@),
            forall|x: int| #[trigger] bit(valid.inner, x) <==> evasion_target(self@, x),
            old(list).entries().len() + popcount(bb(self@.pieces, self@.side, PieceType::Pawn)) <= 218,
        ensures
            extends(final(list).entries(), old(list).entries()),
            final(list).entries().len() <= old(list).entries().len() + popcount(bb(self@.pieces, self@.side, PieceType::Pawn)),
            ok_from(self@, final(list).entries(), old(list).entries().len() as int, 0),
            forall|f: int, t: int, p: bool| pawn_move(self@, f, t, p) && vacant(self@, t) ==> #[trigger] has_move(final(list).entries(), f, t, p),
            forall|k: int| old(list).entries().len() <= k < final(list).entries().len() ==> {
                let mv = #[trigger] final(list).entries()[k].mov;
                bit(bb(self@.pieces, self@.side, PieceType::Pawn), mv.from_idx()) && file_of(mv.to_idx()) == file_of(mv.from_idx())
            },
            distinct_in(final(list).entries(), old(list).entries().len() as int, final(list).entries().len() as int),
    {
        let ghost st = self@;
        let ghost l0 = list.entries();
        let white = self.side == Colour::White;
        let promo_rank = if white { SquareSet::rank(6) } else { SquareSet::rank(1) };
        let empty = self.pieces.empty();
        let shifted_empty = if white { empty.shr(8) } else { empty.shl(8) };
        let shifted_valid = if white { valid.shr(8) } else { valid.shl(8) };
        let our_pawns = self.pieces.of(self.side, PieceType::Pawn);
        let pushable = our_pawns & shifted_empty;
        let promoting = pushable & promo_rank;
        let from_mask = pushable & SquareSet::from_inner(!promoting.inner) & shifted_valid;
        let promo_mask = promoting & shifted_valid;
        let off: i8 = if white { 8 } else { -8 };
        proof {
            assert(st.pieces == self.pieces && st.side == self.side);
            lemma_st_bits(st);
            assert(empty.inner == !occ(st.pieces));
            assert(our_pawns.inner == bb(st.pieces, st.side, PieceType::Pawn));
            lemma_bits_ops(our_pawns.inner, shifted_empty.inner);
            lemma_bits_ops(pushable.inner, promo_rank.inner);
            lemma_bits_ops(pushable.inner, !promoting.inner);
            lemma_bits_ops(pushable.inner & !promoting.inner, shifted_valid.inner);
            lemma_bits_ops(promoting.inner, shifted_valid.inner);
            assert forall|f: int| #[trigger] bit(from_mask.inner, f) implies 0 <= f + off < 64 && cand(st, 0, f, f + off, false) && score_of(st, f + off, false) == sentinel(false) by {
                if bit(from_mask.inner, f) {
                    assert(bit(our_pawns.inner, f));
                    assert(bit(empty.inner, f + off));
                    assert(pawn_move(st, f, f + off, false));
                }
            }
            assert forall|f: int| #[trigger] bit(promo_mask.inner, f) implies 0 <= f + off < 64 && cand(st, 0, f, f + off, true) && score_of(st, f + off, true) == sentinel(true) by {
                if bit(promo_mask.inner, f) {
                    assert(bit(our_pawns.inner, f));
                    assert(bit(empty.inner, f + off));
                    assert(pawn_move(st, f, f + off, true));
                }
            }
            lemma_pop_pair(from_mask.inner, promo_mask.inner, our_pawns.inner);
        }
        push_pawn_moves::<false, false>(list, from_mask, off, Ghost(st), Ghost(0));
        let ghost e1 = list.entries();
        push_pawn_moves::<true, true>(list, promo_mask, off, Ghost(st), Ghost(0));
        proof {
            let e2 = list.entries();
            lemma_extends(e1, e2);
            lemma_extends_trans(l0, e1, e2);
            lemma_ok_join(st, e1, e2, l0.len() as int, 0);
            lemma_straight_pawn_blocks(l0, e1, e2, our_pawns.inner, from_mask.inner, promo_mask.inner, off as int, off as int, false, true);
            assert forall|f: int, t: int, p: bool| pawn_move(st, f, t, p) && vacant(st, t) implies #[trigger] has_move(e2, f, t, p) by {
                assert(t == f + off);
                assert(bit(empty.inner, t));
                assert(bit(our_pawns.inner, f));
                assert(bit(valid.inner, t));
                if p {
                    assert(bit(promo_mask.inner, f));
                } else {
                    assert(bit(from_mask.inner, f));
                    assert(has_move(e1, f, t, p));
                }
            }
        }
    }
}

impl Board {
    /// The pawn captures of the side to move onto the squares of `valid`,
    /// promoting ones included.
    #[verifier::rlimit(50)]
    fn generate_pawn_caps(&self, list: &mut MoveList, valid: SquareSet, mode: Ghost<int>)
        requires
            self.wf(),
            !double_check(self@),
            mode@ == 0 || mode@ == 1,
            forall|x: int| #[trigger] bit(valid.inner, x) <==> evasion_target(self@, x),
            old(list).entries().len() + 2 * popcount(bb(self@.pieces, self@.side, PieceType::Pawn)) <= 218,
        ensures
            extends(final(list).entries(), old(list).entries()),
            final(list).entries().len() <= old(list).entries().len() + 2 * popcount(bb(self@.pieces, self@.side, PieceType::Pawn)),
            ok_from(self@, final(list).entries(), old(list).entries().len() as int, mode@),
            forall|f: int, t: int, p: bool| pawn_move(self@, f, t, p) && enemy(self@, t) ==> #[trigger] has_move(final(list).entries(), f, t, p),
            forall|k: int| old(list).entries().len() <= k < final(list).entries().len() ==> {
                let mv = #[trigger] final(list).entries()[k].mov;
                bit(bb(self@.pieces, self@.side, PieceType::Pawn), mv.from_idx()) && file_of(mv.to_idx()) != file_of(mv.from_idx())
            },
            distinct_in(final(list).entries(), old(list).entries().len() as int, final(list).entries().len() as int),
    {
        let ghost st = self@;
        let ghost l0 = list.entries();
        let white = self.side == Colour::White;
        let our_pawns = self.pieces.of(self.side, PieceType::Pawn);
        let their_pieces = self.pieces.occupied_co(self.side.flip());
        // to determine which pawns can capture, shift the opponent's pieces backwards
        let behind_west = if white { their_pieces.south_east_one() } else { their_pieces.north_east_one() };
        let behind_east = if white { their_pieces.south_west_one() } else { their_pieces.north_west_one() };
        let attacking_west = behind_west & our_pawns;
        let attacking_east = behind_east & our_pawns;
        let valid_west = if white { valid.south_east_one() } else { valid.north_east_one() };
        let valid_east = if white { valid.south_west_one() } else { valid.north_west_one() };
        let promo_rank = if white { SquareSet::rank(6) } else { SquareSet::rank(1) };
        let not_promo = SquareSet::from_inner(!promo_rank.inner);
        let west_off: i8 = if white { 7 } else { -9 };
        let east_off: i8 = if white { 9 } else { -7 };
        let m1 = attacking_west & not_promo & valid_west;
        let m2 = attacking_east & not_promo & valid_east;
        let m3 = attacking_west & promo_rank & valid_west;
        let m4 = attacking_east & promo_rank & valid_east;
        proof {
            assert(st.pieces == self.pieces && st.side == self.side);
            lemma_st_bits(st);
            assert(our_pawns.inner == bb(st.pieces, st.side, PieceType::Pawn));
            lemma_bits_ops(promo_rank.inner, 0);
            lemma_bits_ops(attacking_west.inner, not_promo.inner);
            lemma_bits_ops(attacking_east.inner, not_promo.inner);
            lemma_bits_ops(attacking_west.inner, promo_rank.inner);
            lemma_bits_ops(attacking_east.inner, promo_rank.inner);
            lemma_bits_ops(attacking_west.inner & not_promo.inner, valid_west.inner);
            lemma_bits_ops(attacking_east.inner & not_promo.inner, valid_east.inner);
            lemma_bits_ops(attacking_west.inner & promo_rank.inner, valid_west.inner);
            lemma_bits_ops(attacking_east.inner & promo_rank.inner, valid_east.inner);
            lemma_bits_ops(behind_west.inner, our_pawns.inner);
            lemma_bits_ops(behind_east.inner, our_pawns.inner);
            assert forall|f: int| #[trigger] bit(attacking_west.inner, f) implies 0 <= f + west_off < 64 && bit(our_pawns.inner, f)
                && enemy(st, f + west_off) && pawn_rel(st.side, f, f + west_off) by {
            }
            assert forall|f: int| #[trigger] bit(attacking_east.inner, f) implies 0 <= f + east_off < 64 && bit(our_pawns.inner, f)
                && enemy(st, f + east_off) && pawn_rel(st.side, f, f + east_off) by {
            }
            assert forall|f: int| #[trigger] bit(m1.inner, f) implies 0 <= f + west_off < 64 && cand(st, mode@, f, f + west_off, false) && score_of(st, f + west_off, false) == sentinel(true) by {
                if bit(m1.inner, f) {
                    assert(bit(attacking_west.inner, f));
                    assert(pawn_move(st, f, f + west_off, false));
                }
            }
            assert forall|f: int| #[trigger] bit(m2.inner, f) implies 0 <= f + east_off < 64 && cand(st, mode@, f, f + east_off, false) && score_of(st, f + east_off, false) == sentinel(true) by {
                if bit(m2.inner, f) {
                    assert(bit(attacking_east.inner, f));
                    assert(pawn_move(st, f, f + east_off, false));
                }
            }
            assert forall|f: int| #[trigger] bit(m3.inner, f) implies 0 <= f + west_off < 64 && cand(st, mode@, f, f + west_off, true) && score_of(st, f + west_off, true) == sentinel(true) by {
                if bit(m3.inner, f) {
                    assert(bit(attacking_west.inner, f));
                    assert(pawn_move(st, f, f + west_off, true));
                }
            }
            assert forall|f: int| #[trigger] bit(m4.inner, f) implies 0 <= f + east_off < 64 && cand(st, mode@, f, f + east_off, true) && score_of(st, f + east_off, true) == sentinel(true) by {
                if bit(m4.inner, f) {
                    assert(bit(attacking_east.inner, f));
                    assert(pawn_move(st, f, f + east_off, true));
                }
            }
            lemma_pop_pair(m1.inner, m3.inner, our_pawns.inner);
            lemma_pop_pair(m2.inner, m4.inner, our_pawns.inner);
        }
        push_pawn_moves::<true, false>(list, m1, west_off, Ghost(st), mode);
        let ghost e1 = list.entries();
        push_pawn_moves::<true, false>(list, m2, east_off, Ghost(st), mode);
        let ghost e2 = list.entries();
        push_pawn_moves::<true, true>(list, m3, west_off, Ghost(st), mode);
        let ghost e3 = list.entries();
        push_pawn_moves::<true, true>(list, m4, east_off, Ghost(st), mode);
        proof {
            let e4 = list.entries();
            lemma_extends(e3, e4);
            lemma_extends(e2, e3);
            lemma_extends(e1, e2);
            lemma_extends_trans(e1, e2, e3);
            lemma_extends_trans(e1, e3, e4);
            lemma_extends_trans(e2, e3, e4);
            lemma_extends_trans(l0, e1, e4);
            lemma_extends(e1, e4);
            lemma_extends(e2, e4);
            lemma_ok_join(st, e1, e2, l0.len() as int, mode@);
            lemma_ok_join(st, e2, e3, l0.len() as int, mode@);
            lemma_ok_join(st, e3, e4, l0.len() as int, mode@);
            // the four blocks differ in the direction or in the promotion
            lemma_extends_trans(l0, e1, e2);
            lemma_extends_trans(l0, e2, e3);
            lemma_distinct_extends(e1, e4, l0.len() as int);
            lemma_distinct_extends(e2, e4, e1.len() as int);
            lemma_distinct_extends(e3, e4, e2.len() as int);
            assert(west_off != east_off);
            assert forall|j: int, k: int| l0.len() <= j < e1.len() && e1.len() <= k < e2.len()
                implies #[trigger] e4[j].mov != #[trigger] e4[k].mov by {
                assert(e4[j] == e1[j] && e4[k] == e2[k]);
            }
            lemma_distinct_join(e4, l0.len() as int, e1.len() as int, e2.len() as int);
            assert forall|j: int, k: int| l0.len() <= j < e2.len() && e2.len() <= k < e3.len()
                implies #[trigger] e4[j].mov != #[trigger] e4[k].mov by {
                assert(e4[j] == e2[j] && e4[k] == e3[k]);
                if j < e1.len() {
                    assert(e2[j] == e1[j]);
                }
            }
            lemma_distinct_join(e4, l0.len() as int, e2.len() as int, e3.len() as int);
            assert forall|j: int, k: int| l0.len() <= j < e3.len() && e3.len() <= k < e4.len()
                implies #[trigger] e4[j].mov != #[trigger] e4[k].mov by {
                assert(e4[j] == e3[j]);
                if j < e1.len() {
                    assert(e3[j] == e2[j] && e2[j] == e1[j]);
                } else if j < e2.len() {
                    assert(e3[j] == e2[j]);
                }
            }
            lemma_distinct_join(e4, l0.len() as int, e3.len() as int, e4.len() as int);
            assert forall|k: int| l0.len() <= k < e4.len() implies {
                let mv = #[trigger] e4[k].mov;
                bit(bb(st.pieces, st.side, PieceType::Pawn), mv.from_idx()) && file_of(mv.to_idx()) != file_of(mv.from_idx())
            } by {
                if k < e1.len() {
                    assert(e4[k] == e1[k]);
                    assert(bit(attacking_west.inner, e1[k].mov.from_idx()));
                } else if k < e2.len() {
                    assert(e4[k] == e2[k]);
                    assert(bit(attacking_east.inner, e2[k].mov.from_idx()));
                } else if k < e3.len() {
                    assert(e4[k] == e3[k]);
                    assert(bit(attacking_west.inner, e3[k].mov.from_idx()));
                } else {
                    assert(bit(attacking_east.inner, e4[k].mov.from_idx()));
                }
            }
            assert forall|f: int, t: int, p: bool| pawn_move(st, f, t, p) && enemy(st, t) implies #[trigger] has_move(e4, f, t, p) by {
                assert(bit(our_pawns.inner, f));
                assert(bit(their_pieces.inner, t));
                assert(bit(valid.inner, t));
                if t == f + west_off {
                    assert(bit(attacking_west.inner, f));
                    if p {
                        assert(bit(m3.inner, f));
                        assert(has_move(e3, f, t, p));
                    } else {
                        assert(bit(m1.inner, f));
                        assert(has_move(e1, f, t, p));
                    }
                } else {
                    assert(t == f + east_off);
                    assert(bit(attacking_east.inner, f));
                    if p {
                        assert(bit(m4.inner, f));
                    } else {
                        assert(bit(m2.inner, f));
                        assert(has_move(e2, f, t, p));
                    }
                }
            }
        }
    }
}

impl Board {
    /// The promoting pawn advances of the side to move onto the squares of `valid`.
    #[verifier::rlimit(50)]
    fn generate_forward_promos(&self, list: &mut MoveList, valid: SquareSet)
        requires
            self.wf(),
            !double_check(self@),
            forall|x: int| #[trigger] bit(valid.inner, x) <==> evasion_target(self@, x),
            old(list).entries().len() + popcount(bb(self@.pieces, self@.side, PieceType::Pawn)) <= 218,
        ensures
            extends(final(list).entries(), old(list).entries()),
            final(list).entries().len() <= old(list).entries().len() + popcount(bb(self@.pieces, self@.side, PieceType::Pawn)),
            ok_from(self@, final(list).entries(), old(list).entries().len() as int, 1),
            forall|f: int, t: int| pawn_move(self@, f, t, true) && vacant(self@, t) ==> #[trigger] has_move(final(list).entries(), f, t, true),
            forall|k: int| old(list).entries().len() <= k < final(list).entries().len() ==> {
                let mv = #[trigger] final(list).entries()[k].mov;
                bit(bb(self@.pieces, self@.side, PieceType::Pawn), mv.from_idx()) && file_of(mv.to_idx()) == file_of(mv.from_idx())
            },
            distinct_in(final(list).entries(), old(list).entries().len() as int, final(list).entries().len() as int),
    {
        let ghost st = self@;
        let white = self.side == Colour::White;
        let promo_rank = if white { SquareSet::rank(6) } else { SquareSet::rank(1) };
        let empty = self.pieces.empty();
        let shifted_empty = if white { empty.shr(8) } else { empty.shl(8) };
        let shifted_valid = if white { valid.shr(8) } else { valid.shl(8) };
        let our_pawns = self.pieces.of(self.side, PieceType::Pawn);
        let pushable = our_pawns & shifted_empty;
        let promoting = pushable & promo_rank;
        let from_mask = promoting & shifted_valid;
        let off: i8 = if white { 8 } else { -8 };
        proof {
            assert(st.pieces == self.pieces && st.side == self.side);
            lemma_st_bits(st);
            assert(empty.inner == !occ(st.pieces));
            assert(our_pawns.inner == bb(st.pieces, st.side, PieceType::Pawn));
            lemma_bits_ops(our_pawns.inner, shifted_empty.inner);
            lemma_bits_ops(pushable.inner, promo_rank.inner);
            lemma_bits_ops(promoting.inner, shifted_valid.inner);
            assert forall|f: int| #[trigger] bit(from_mask.inner, f) implies 0 <= f + off < 64 && cand(st, 1, f, f + off, true) && score_of(st, f + off, true) == sentinel(true) by {
                if bit(from_mask.inner, f) {
                    assert(bit(our_pawns.inner, f));
                    assert(bit(empty.inner, f + off));
                    assert(pawn_move(st, f, f + off, true));
                }
            }
            lemma_pop_sub(from_mask.inner, our_pawns.inner, 64);
        }
        let ghost l0 = list.entries();
        push_pawn_moves::<true, true>(list, from_mask, off, Ghost(st), Ghost(1));
        proof {
            assert forall|k: int| l0.len() <= k < list.entries().len() implies {
                let mv = #[trigger] list.entries()[k].mov;
                bit(bb(st.pieces, st.side, PieceType::Pawn), mv.from_idx()) && file_of(mv.to_idx()) == file_of(mv.from_idx())
            } by {
                assert(bit(from_mask.inner, list.entries()[k].mov.from_idx()));
            }
            assert forall|f: int, t: int| pawn_move(st, f, t, true) && vacant(st, t) implies #[trigger] has_move(list.entries(), f, t, true) by {
                assert(t == f + off);
                assert(bit(empty.inner, t));
                assert(bit(our_pawns.inner, f));
                assert(bit(valid.inner, t));
                assert(bit(from_mask.inner, f));
            }
        }
    }

    /// The quiet pawn advances of the side to move onto the squares of `valid`:
    /// one square forward onto an empty square, without promoting.
    #[verifier::rlimit(50)]
    fn generate_pawn_quiet(&self, list: &mut MoveList, valid: SquareSet)
        requires
            self.wf(),
            !double_check(self@),
            forall|x: int| #[trigger] bit(valid.inner, x) <==> evasion_target(self@, x),
            old(list).entries().len() + popcount(bb(self@.pieces, self@.side, PieceType::Pawn)) <= 218,
        ensures
            extends(final(list).entries(), old(list).entries()),
            final(list).entries().len() <= old(list).entries().len() + popcount(bb(self@.pieces, self@.side, PieceType::Pawn)),
            ok_from(self@, final(list).entries(), old(list).entries().len() as int, 2),
            forall|f: int, t: int| pawn_move(self@, f, t, false) && vacant(self@, t)
                ==> #[trigger] has_move(final(list).entries(), f, t, false),
            forall|k: int| old(list).entries().len() <= k < final(list).entries().len() ==> {
                let mv = #[trigger] final(list).entries()[k].mov;
                bit(bb(self@.pieces, self@.side, PieceType::Pawn), mv.from_idx()) && file_of(mv.to_idx()) == file_of(mv.from_idx())
            },
            distinct_in(final(list).entries(), old(list).entries().len() as int, final(list).entries().len() as int),
    {
        let ghost st = self@;
        let ghost l0 = list.entries();
        let white = self.side == Colour::White;
        let promo_rank = if white { SquareSet::rank(6) } else { SquareSet::rank(1) };
        let empty = self.pieces.empty();
        let shifted_empty = if white { empty.shr(8) } else { empty.shl(8) };
        let shifted_valid = if white { valid.shr(8) } else { valid.shl(8) };
        let our_pawns = self.pieces.of(self.side, PieceType::Pawn);
        let pushable = our_pawns & shifted_empty;
        let promoting = pushable & promo_rank;
        let from_mask = pushable & SquareSet::from_inner(!promoting.inner) & shifted_valid;
        let off: i8 = if white { 8 } else { -8 };
        proof {
            assert(st.pieces == self.pieces && st.side == self.side);
            lemma_st_bits(st);
            assert(empty.inner == !occ(st.pieces));
            assert(our_pawns.inner == bb(st.pieces, st.side, PieceType::Pawn));
            lemma_bits_ops(our_pawns.inner, shifted_empty.inner);
            lemma_bits_ops(pushable.inner, promo_rank.inner);
            lemma_bits_ops(pushable.inner, !promoting.inner);
            lemma_bits_ops(pushable.inner & !promoting.inner, shifted_valid.inner);
            lemma_bits_ops(promoting.inner, 0);
            assert forall|f: int| #[trigger] bit(from_mask.inner, f) implies 0 <= f + off < 64 && cand(st, 2, f, f + off, false) && score_of(st, f + off, false) == sentinel(false) by {
                assert(bit(pushable.inner & !promoting.inner, f));
                assert(bit(pushable.inner, f));
                assert(!bit(promoting.inner, f));
                assert(!bit(promo_rank.inner, f));
                assert(bit(shifted_valid.inner, f));
                assert(bit(our_pawns.inner, f));
                assert(bit(empty.inner, f + off));
                assert(!last_rank(f + off));
                assert(pawn_move(st, f, f + off, false));
            }
            lemma_pop_sub(from_mask.inner, our_pawns.inner, 64);
        }
        push_pawn_moves::<false, false>(list, from_mask, off, Ghost(st), Ghost(2));
        proof {
            let e1 = list.entries();
            assert forall|k: int| l0.len() <= k < e1.len() implies {
                let mv = #[trigger] e1[k].mov;
                bit(bb(st.pieces, st.side, PieceType::Pawn), mv.from_idx()) && file_of(mv.to_idx()) == file_of(mv.from_idx())
            } by {
                assert(bit(from_mask.inner, e1[k].mov.from_idx()));
            }
            assert forall|f: int, t: int| pawn_move(st, f, t, false) && vacant(st, t)
                implies #[trigger] has_move(e1, f, t, false) by {
                assert(bit(our_pawns.inner, f));
                assert(bit(valid.inner, t));
                assert(bit(empty.inner, t));
                assert(t == f + off);
                assert(bit(pushable.inner, f));
                assert(!last_rank(t));
                assert(!bit(promo_rank.inner, f));
                assert(bit(from_mask.inner, f));
            }
        }
    }
}

/// How a capture generator is asked to run.
pub trait MoveGenMode {
    const SKIP_QUIETS: bool;
}

/// Generate the tactical moves only.
pub struct SkipQuiets;

impl MoveGenMode for SkipQuiets {
    const SKIP_QUIETS: bool = true;
}

/// Generate every move.
pub struct AllMoves;

impl MoveGenMode for AllMoves {
    const SKIP_QUIETS: bool = false;
}

/// The blocks of a generation, each without repeats and each starting its
/// moves on its own kind of piece, hold no move twice: first the pawn moves
/// that go straight ahead, then those that go to another file, then the alfil,
/// ferz, knight, king and rook moves.
proof fn lemma_pieces_distinct(
    st: BoardState,
    e0: Seq<MoveListEntry>,
    e1: Seq<MoveListEntry>,
    e2: Seq<MoveListEntry>,
    e3: Seq<MoveListEntry>,
    e4: Seq<MoveListEntry>,
    e5: Seq<MoveListEntry>,
    e6: Seq<MoveListEntry>,
    e7: Seq<MoveListEntry>,
)
    requires
        st.wf(),
        extends(e1, e0),
        extends(e7, e1), extends(e7, e2), extends(e7, e3), extends(e7, e4), extends(e7, e5), extends(e7, e6),
        e0.len() <= e1.len() <= e2.len() <= e3.len() <= e4.len() <= e5.len() <= e6.len() <= e7.len(),
        distinct_in(e1, e0.len() as int, e1.len() as int),
        distinct_in(e2, e1.len() as int, e2.len() as int),
        distinct_in(e3, e2.len() as int, e3.len() as int),
        distinct_in(e4, e3.len() as int, e4.len() as int),
        distinct_in(e5, e4.len() as int, e5.len() as int),
        distinct_in(e6, e5.len() as int, e6.len() as int),
        distinct_in(e7, e6.len() as int, e7.len() as int),
        forall|k: int| e0.len() <= k < e1.len() ==> {
            let mv = #[trigger] e1[k].mov;
            bit(bb(st.pieces, st.side, PieceType::Pawn), mv.from_idx()) && file_of(mv.to_idx()) == file_of(mv.from_idx())
        },
        forall|k: int| e1.len() <= k < e2.len() ==> {
            let mv = #[trigger] e2[k].mov;
            bit(bb(st.pieces, st.side, PieceType::Pawn), mv.from_idx()) && file_of(mv.to_idx()) != file_of(mv.from_idx())
        },
        forall|k: int| e2.len() <= k < e3.len() ==> bit(bb(st.pieces, st.side, PieceType::Alfil), (#[trigger] e3[k]).mov.from_idx()),
        forall|k: int| e3.len() <= k < e4.len() ==> bit(bb(st.pieces, st.side, PieceType::Ferz), (#[trigger] e4[k]).mov.from_idx()),
        forall|k: int| e4.len() <= k < e5.len() ==> bit(bb(st.pieces, st.side, PieceType::Knight), (#[trigger] e5[k]).mov.from_idx()),
        forall|k: int| e5.len() <= k < e6.len() ==> (#[trigger] e6[k]).mov.from_idx() == ksq(st.pieces, st.side),
        forall|k: int| e6.len() <= k < e7.len() ==> bit(bb(st.pieces, st.side, PieceType::Rook), (#[trigger] e7[k]).mov.from_idx()),
    ensures
        distinct_in(e7, e0.len() as int, e7.len() as int),
{
    lemma_st_bits(st);
    lemma_one_king(st.pieces, st.side);
    lemma_extends(e1, e7);
    lemma_extends(e2, e7);
    lemma_extends(e3, e7);
    lemma_extends(e4, e7);
    lemma_extends(e5, e7);
    lemma_extends(e6, e7);
    lemma_distinct_extends(e1, e7, e0.len() as int);
    lemma_distinct_extends(e2, e7, e1.len() as int);
    lemma_distinct_extends(e3, e7, e2.len() as int);
    lemma_distinct_extends(e4, e7, e3.len() as int);
    lemma_distinct_extends(e5, e7, e4.len() as int);
    lemma_distinct_extends(e6, e7, e5.len() as int);
    // the two pawn blocks go to different files
    assert forall|j: int, k: int| e0.len() <= j < e1.len() && e1.len() <= k < e2.len()
        implies #[trigger] e7[j].mov != #[trigger] e7[k].mov by {
        assert(e7[j] == e1[j] && e7[k] == e2[k]);
    }
    lemma_distinct_join(e7, e0.len() as int, e1.len() as int, e2.len() as int);
    assert forall|k: int| e0.len() <= k < e2.len() implies type_on(st, (#[trigger] e7[k]).mov.from_idx()) == PieceType::Pawn by {
        if k < e1.len() {
            assert(e7[k] == e1[k]);
        } else {
            assert(e7[k] == e2[k]);
        }
    }
    assert forall|k: int| e2.len() <= k < e3.len() implies type_on(st, (#[trigger] e7[k]).mov.from_idx()) == PieceType::Alfil by {
        assert(e7[k] == e3[k]);
    }
    assert forall|k: int| e3.len() <= k < e4.len() implies type_on(st, (#[trigger] e7[k]).mov.from_idx()) == PieceType::Ferz by {
        assert(e7[k] == e4[k]);
    }
    assert forall|k: int| e4.len() <= k < e5.len() implies type_on(st, (#[trigger] e7[k]).mov.from_idx()) == PieceType::Knight by {
        assert(e7[k] == e5[k]);
    }
    assert forall|k: int| e5.len() <= k < e6.len() implies type_on(st, (#[trigger] e7[k]).mov.from_idx()) == PieceType::King by {
        assert(e7[k] == e6[k]);
        assert(bit(bb(st.pieces, st.side, PieceType::King), ksq(st.pieces, st.side)));
    }
    assert forall|k: int| e6.len() <= k < e7.len() implies type_on(st, (#[trigger] e7[k]).mov.from_idx()) == PieceType::Rook by {
    }
    lemma_join_pieces(st, e7, e0.len() as int, e2.len() as int, e3.len() as int, e4.len() as int, e5.len() as int, e6.len() as int, e7.len() as int);
}

impl Board {
    /// The squares a piece other than the king may move to.
    fn valid_targets(&self) -> (r: SquareSet)
        requires
            one_king(self@.pieces, self@.side),
        ensures
            forall|x: int| #[trigger] bit(r.inner, x) <==> evasion_target(self@, x),
    {
        if self.in_check() {
            let k = self.king_sq(self.side);
            let chk = self.threats.checkers;
            let first = chk.first();
            let ray = in_between(k, first);
            proof {
                lemma_bits_ops(ray.inner, chk.inner);
            }
            ray | chk
        } else {
            SquareSet::full()
        }
    }

    /// Every move of the side to move, appended to `move_list`.
    #[verifier::rlimit(50)]
    fn generate_moves_for(&self, move_list: &mut MoveList)
        requires
            self.wf(),
            old(move_list).entries().len() + move_budget(self@.pieces, self@.side) <= 218,
        ensures
            extends(final(move_list).entries(), old(move_list).entries()),
            ok_from(self@, final(move_list).entries(), old(move_list).entries().len() as int, 0),
            forall|f: int, t: int, p: bool| gen_move(self@, f, t, p) ==> #[trigger] has_move(final(move_list).entries(), f, t, p),
            distinct_in(final(move_list).entries(), old(move_list).entries().len() as int, final(move_list).entries().len() as int),
    {
        let ghost st = self@;
        let ghost e0 = move_list.entries();
        proof {
            lemma_st_bits(st);
            lemma_one_king(st.pieces, st.side);
        }
        if self.threats.checkers.count() > 1 {
            // in double check only the king can move
            self.gen_king_moves::<true, true>(move_list, Ghost(0));
            proof {
                let e1 = move_list.entries();
                assert forall|f: int, t: int, p: bool| gen_move(st, f, t, p) implies #[trigger] has_move(e1, f, t, p) by {
                    assert(king_move(st, f, t, p));
                }
            }
            return;
        }
        let valid = self.valid_targets();
        self.generate_pawn_forward(move_list, valid);
        let ghost e1 = move_list.entries();
        self.generate_pawn_caps(move_list, valid, Ghost(0));
        let ghost e2 = move_list.entries();
        self.gen_piece_moves::<true, true>(move_list, PieceType::Alfil, valid, Ghost(0));
        let ghost e3 = move_list.entries();
        self.gen_piece_moves::<true, true>(move_list, PieceType::Ferz, valid, Ghost(0));
        let ghost e4 = move_list.entries();
        self.gen_piece_moves::<true, true>(move_list, PieceType::Knight, valid, Ghost(0));
        let ghost e5 = move_list.entries();
        self.gen_king_moves::<true, true>(move_list, Ghost(0));
        let ghost e6 = move_list.entries();
        self.gen_piece_moves::<true, true>(move_list, PieceType::Rook, valid, Ghost(0));
        proof {
            let e7 = move_list.entries();
            lemma_extends_trans(e5, e6, e7);
            lemma_extends_trans(e4, e5, e7);
            lemma_extends_trans(e3, e4, e7);
            lemma_extends_trans(e2, e3, e7);
            lemma_extends_trans(e1, e2, e7);
            lemma_extends_trans(e0, e1, e7);
            lemma_ok_join(st, e1, e2, e0.len() as int, 0);
            lemma_ok_join(st, e2, e3, e0.len() as int, 0);
            lemma_ok_join(st, e3, e4, e0.len() as int, 0);
            lemma_ok_join(st, e4, e5, e0.len() as int, 0);
            lemma_ok_join(st, e5, e6, e0.len() as int, 0);
            lemma_ok_join(st, e6, e7, e0.len() as int, 0);
            lemma_extends(e1, e7);
            lemma_extends(e2, e7);
            lemma_extends(e3, e7);
            lemma_extends(e4, e7);
            lemma_extends(e5, e7);
            lemma_extends(e6, e7);
            lemma_pieces_distinct(st, e0, e1, e2, e3, e4, e5, e6, e7);
            assert forall|f: int, t: int, p: bool| gen_move(st, f, t, p) implies #[trigger] has_move(e7, f, t, p) by {
                if king_move(st, f, t, p) {
                    assert(has_move(e6, f, t, p));
                } else if pawn_move(st, f, t, p) {
                    if vacant(st, t) {
                        assert(has_move(e1, f, t, p));
                    } else {
                        assert(has_move(e2, f, t, p));
                    }
                } else if type_on(st, f) == PieceType::Alfil {
                    assert(has_move(e3, f, t, p));
                } else if type_on(st, f) == PieceType::Ferz {
                    assert(has_move(e4, f, t, p));
                } else if type_on(st, f) == PieceType::Knight {
                    assert(has_move(e5, f, t, p));
                }
            }
        }
    }

    /// Generates every move of the side to move into `move_list`, which it
    /// clears first.
    pub fn generate_moves(&self, move_list: &mut MoveList)
        requires
            self.wf(),
            move_budget(self@.pieces, self@.side) <= 218,
        ensures
            ok_from(self@, final(move_list).entries(), 0, 0),
            forall|f: int, t: int, p: bool| gen_move(self@, f, t, p) ==> #[trigger] has_move(final(move_list).entries(), f, t, p),
            distinct_in(final(move_list).entries(), 0, final(move_list).entries().len() as int),
    {
        move_list.clear();
        self.generate_moves_for(move_list);
    }
}

impl Board {
    /// The tactical moves of the side to move, appended to `move_list`.
    #[verifier::rlimit(50)]
    fn generate_captures_for(&self, move_list: &mut MoveList)
        requires
            self.wf(),
            old(move_list).entries().len() + move_budget(self@.pieces, self@.side) <= 218,
        ensures
            extends(final(move_list).entries(), old(move_list).entries()),
            ok_from(self@, final(move_list).entries(), old(move_list).entries().len() as int, 1),
            forall|f: int, t: int, p: bool| cand(self@, 1, f, t, p) ==> #[trigger] has_move(final(move_list).entries(), f, t, p),
            distinct_in(final(move_list).entries(), old(move_list).entries().len() as int, final(move_list).entries().len() as int),
    {
        let ghost st = self@;
        let ghost e0 = move_list.entries();
        proof {
            lemma_st_bits(st);
            lemma_one_king(st.pieces, st.side);
        }
        if self.threats.checkers.count() > 1 {
            // in double check only the king can move
            self.gen_king_moves::<true, false>(move_list, Ghost(1));
            proof {
                let e1 = move_list.entries();
                assert forall|f: int, t: int, p: bool| cand(st, 1, f, t, p) implies #[trigger] has_move(e1, f, t, p) by {
                    assert(king_move(st, f, t, p));
                }
            }
            return;
        }
        let valid = self.valid_targets();
        // promotions
        self.generate_forward_promos(move_list, valid);
        let ghost e1 = move_list.entries();
        // pawn captures and capture promotions
        self.generate_pawn_caps(move_list, valid, Ghost(1));
        let ghost e2 = move_list.entries();
        self.gen_piece_moves::<true, false>(move_list, PieceType::Alfil, valid, Ghost(1));
        let ghost e3 = move_list.entries();
        self.gen_piece_moves::<true, false>(move_list, PieceType::Ferz, valid, Ghost(1));
        let ghost e4 = move_list.entries();
        self.gen_piece_moves::<true, false>(move_list, PieceType::Knight, valid, Ghost(1));
        let ghost e5 = move_list.entries();
        self.gen_king_moves::<true, false>(move_list, Ghost(1));
        let ghost e6 = move_list.entries();
        self.gen_piece_moves::<true, false>(move_list, PieceType::Rook, valid, Ghost(1));
        proof {
            let e7 = move_list.entries();
            lemma_extends_trans(e5, e6, e7);
            lemma_extends_trans(e4, e5, e7);
            lemma_extends_trans(e3, e4, e7);
            lemma_extends_trans(e2, e3, e7);
            lemma_extends_trans(e1, e2, e7);
            lemma_extends_trans(e0, e1, e7);
            lemma_ok_join(st, e1, e2, e0.len() as int, 1);
            lemma_ok_join(st, e2, e3, e0.len() as int, 1);
            lemma_ok_join(st, e3, e4, e0.len() as int, 1);
            lemma_ok_join(st, e4, e5, e0.len() as int, 1);
            lemma_ok_join(st, e5, e6, e0.len() as int, 1);
            lemma_ok_join(st, e6, e7, e0.len() as int, 1);
            lemma_extends(e1, e7);
            lemma_extends(e2, e7);
            lemma_extends(e3, e7);
            lemma_extends(e4, e7);
            lemma_extends(e5, e7);
            lemma_extends(e6, e7);
            lemma_pieces_distinct(st, e0, e1, e2, e3, e4, e5, e6, e7);
            assert forall|f: int, t: int, p: bool| cand(st, 1, f, t, p) implies #[trigger] has_move(e7, f, t, p) by {
                if king_move(st, f, t, p) {
                    assert(has_move(e6, f, t, p));
                } else if pawn_move(st, f, t, p) {
                    if enemy(st, t) {
                        assert(has_move(e2, f, t, p));
                    } else {
                        assert(has_move(e1, f, t, p));
                    }
                } else if type_on(st, f) == PieceType::Alfil {
                    assert(has_move(e3, f, t, p));
                } else if type_on(st, f) == PieceType::Ferz {
                    assert(has_move(e4, f, t, p));
                } else if type_on(st, f) == PieceType::Knight {
                    assert(has_move(e5, f, t, p));
                }
            }
        }
    }

    /// Generates the tactical moves (captures and promotions) of the side to
    /// move into `move_list`, which it clears first.
    pub fn generate_captures<Mode: MoveGenMode>(&self, move_list: &mut MoveList)
        requires
            self.wf(),
            move_budget(self@.pieces, self@.side) <= 218,
        ensures
            ok_from(self@, final(move_list).entries(), 0, 1),
            forall|f: int, t: int, p: bool| cand(self@, 1, f, t, p) ==> #[trigger] has_move(final(move_list).entries(), f, t, p),
            distinct_in(final(move_list).entries(), 0, final(move_list).entries().len() as int),
    {
        move_list.clear();
        self.generate_captures_for(move_list);
    }

    /// Appends to `move_list` the quiet moves of the side to move: its moves
    /// onto empty squares that do not promote.
    #[verifier::rlimit(50)]
    fn generate_quiets_for(&self, move_list: &mut MoveList)
        requires
            self.wf(),
            old(move_list).entries().len() + quiet_budget(self@.pieces, self@.side) <= 218,
        ensures
            extends(final(move_list).entries(), old(move_list).entries()),
            ok_from(self@, final(move_list).entries(), old(move_list).entries().len() as int, 2),
            forall|f: int, t: int, p: bool| cand(self@, 2, f, t, p) ==> #[trigger] has_move(final(move_list).entries(), f, t, p),
            distinct_in(final(move_list).entries(), old(move_list).entries().len() as int, final(move_list).entries().len() as int),
    {
        let ghost st = self@;
        let ghost e0 = move_list.entries();
        proof {
            lemma_st_bits(st);
            lemma_one_king(st.pieces, st.side);
        }
        if self.threats.checkers.count() > 1 {
            // in double check only the king can move
            self.gen_king_moves::<false, true>(move_list, Ghost(2));
            proof {
                let e1 = move_list.entries();
                assert forall|f: int, t: int, p: bool| cand(st, 2, f, t, p) implies #[trigger] has_move(e1, f, t, p) by {
                    assert(king_move(st, f, t, p));
                }
            }
            return;
        }
        let valid = self.valid_targets();
        self.generate_pawn_quiet(move_list, valid);
        let ghost e1 = move_list.entries();
        self.gen_piece_moves::<false, true>(move_list, PieceType::Alfil, valid, Ghost(2));
        let ghost e2 = move_list.entries();
        self.gen_piece_moves::<false, true>(move_list, PieceType::Ferz, valid, Ghost(2));
        let ghost e3 = move_list.entries();
        self.gen_piece_moves::<false, true>(move_list, PieceType::Knight, valid, Ghost(2));
        let ghost e4 = move_list.entries();
        self.gen_king_moves::<false, true>(move_list, Ghost(2));
        let ghost e5 = move_list.entries();
        self.gen_piece_moves::<false, true>(move_list, PieceType::Rook, valid, Ghost(2));
        proof {
            let e6 = move_list.entries();
            lemma_extends_trans(e4, e5, e6);
            lemma_extends_trans(e3, e4, e6);
            lemma_extends_trans(e2, e3, e6);
            lemma_extends_trans(e1, e2, e6);
            lemma_extends_trans(e0, e1, e6);
            lemma_ok_join(st, e1, e2, e0.len() as int, 2);
            lemma_ok_join(st, e2, e3, e0.len() as int, 2);
            lemma_ok_join(st, e3, e4, e0.len() as int, 2);
            lemma_ok_join(st, e4, e5, e0.len() as int, 2);
            lemma_ok_join(st, e5, e6, e0.len() as int, 2);
            lemma_extends(e1, e6);
            lemma_extends(e2, e6);
            lemma_extends(e3, e6);
            lemma_extends(e4, e6);
            lemma_extends(e5, e6);
            lemma_pieces_distinct(st, e0, e1, e1, e2, e3, e4, e5, e6);
            assert forall|f: int, t: int, p: bool| cand(st, 2, f, t, p) implies #[trigger] has_move(e6, f, t, p) by {
                if king_move(st, f, t, p) {
                    assert(has_move(e5, f, t, p));
                } else if pawn_move(st, f, t, p) {
                    assert(has_move(e1, f, t, p));
                } else if type_on(st, f) == PieceType::Alfil {
                    assert(has_move(e2, f, t, p));
                } else if type_on(st, f) == PieceType::Ferz {
                    assert(has_move(e3, f, t, p));
                } else if type_on(st, f) == PieceType::Knight {
                    assert(has_move(e4, f, t, p));
                }
            }
        }
    }

    /// Appends to `move_list` the quiet moves of the side to move: its moves
    /// onto empty squares that do not promote; the list is not cleared first.
    pub fn generate_quiets(&self, move_list: &mut MoveList)
        requires
            self.wf(),
            old(move_list).entries().len() + quiet_budget(self@.pieces, self@.side) <= 218,
        ensures
            extends(final(move_list).entries(), old(move_list).entries()),
            ok_from(self@, final(move_list).entries(), old(move_list).entries().len() as int, 2),
            forall|f: int, t: int, p: bool| cand(self@, 2, f, t, p) ==> #[trigger] has_move(final(move_list).entries(), f, t, p),
            distinct_in(final(move_list).entries(), old(move_list).entries().len() as int, final(move_list).entries().len() as int),
    {
        self.generate_quiets_for(move_list);
    }
}

/// Staged generation against full generation: a move of the full generation
/// is produced by exactly one of the two stages (the tactical one, or the quiet
/// one), and the stages produce nothing else.
pub proof fn lemma_staged_generation(st: BoardState, f: int, t: int, p: bool)
    ensures
        cand(st, 0, f, t, p) <==> (cand(st, 1, f, t, p) || cand(st, 2, f, t, p)),
        !(cand(st, 1, f, t, p) && cand(st, 2, f, t, p)),
{
}

/// Two listed entries for the same squares and promotion are the same entry.
proof fn lemma_entry_eq(st: BoardState, a: MoveListEntry, ma: int, b: MoveListEntry, mb: int)
    requires
        entry_ok(st, a, ma),
        entry_ok(st, b, mb),
        a.mov.from_idx() == b.mov.from_idx(),
        a.mov.to_idx() == b.mov.to_idx(),
        a.mov.promo() == b.mov.promo(),
    ensures
        a == b,
{
    Move::lemma_valid_eq(a.mov, b.mov);
}

/// Staged generation lists what full generation lists: after the tactical
/// stage into an empty list and the quiet stage appended to it, the list holds
/// the same entries as the list of a full generation, as many, each once.
pub proof fn lemma_staged_lists(
    st: BoardState,
    full: Seq<MoveListEntry>,
    tactical: Seq<MoveListEntry>,
    staged: Seq<MoveListEntry>,
)
    requires
        ok_from(st, full, 0, 0),
        forall|f: int, t: int, p: bool| gen_move(st, f, t, p) ==> #[trigger] has_move(full, f, t, p),
        distinct_in(full, 0, full.len() as int),
        ok_from(st, tactical, 0, 1),
        forall|f: int, t: int, p: bool| cand(st, 1, f, t, p) ==> #[trigger] has_move(tactical, f, t, p),
        distinct_in(tactical, 0, tactical.len() as int),
        extends(staged, tactical),
        ok_from(st, staged, tactical.len() as int, 2),
        forall|f: int, t: int, p: bool| cand(st, 2, f, t, p) ==> #[trigger] has_move(staged, f, t, p),
        distinct_in(staged, tactical.len() as int, staged.len() as int),
    ensures
        distinct_in(staged, 0, staged.len() as int),
        forall|e: MoveListEntry| staged.contains(e) <==> full.contains(e),
        staged.len() == full.len(),
{
    let c = tactical.len() as int;
    lemma_extends(tactical, staged);
    // every staged entry is a move of its stage
    assert forall|k: int| 0 <= k < c implies #[trigger] entry_ok(st, staged[k], 1) by {
        assert(staged[k] == tactical[k]);
    }
    // the stages do not meet
    assert forall|j: int, k: int| 0 <= j < c && c <= k < staged.len() implies #[trigger] staged[j].mov != #[trigger] staged[k].mov by {
        assert(entry_ok(st, staged[j], 1));
        assert(entry_ok(st, staged[k], 2));
    }
    lemma_distinct_extends(tactical, staged, 0);
    lemma_distinct_join(staged, 0, c, staged.len() as int);
    assert forall|e: MoveListEntry| staged.contains(e) implies full.contains(e) by {
        let k = choose|k: int| 0 <= k < staged.len() && staged[k] == e;
        let m = if k < c { 1int } else { 2int };
        if k < c {
            assert(entry_ok(st, staged[k], 1));
        } else {
            assert(entry_ok(st, staged[k], 2));
        }
        assert(has_move(full, e.mov.from_idx(), e.mov.to_idx(), e.mov.promo()));
        let j = choose|j: int| 0 <= j < full.len() && #[trigger] full[j].mov.from_idx() == e.mov.from_idx()
            && full[j].mov.to_idx() == e.mov.to_idx() && full[j].mov.promo() == e.mov.promo();
        assert(entry_ok(st, full[j], 0));
        lemma_entry_eq(st, full[j], 0, e, m);
    }
    assert forall|e: MoveListEntry| full.contains(e) implies staged.contains(e) by {
        let j = choose|j: int| 0 <= j < full.len() && full[j] == e;
        assert(entry_ok(st, full[j], 0));
        let f = e.mov.from_idx();
        let t = e.mov.to_idx();
        let p = e.mov.promo();
        lemma_staged_generation(st, f, t, p);
        if cand(st, 1, f, t, p) {
            assert(has_move(tactical, f, t, p));
            let k = choose|k: int| 0 <= k < tactical.len() && #[trigger] tactical[k].mov.from_idx() == f
                && tactical[k].mov.to_idx() == t && tactical[k].mov.promo() == p;
            assert(entry_ok(st, tactical[k], 1));
            lemma_entry_eq(st, tactical[k], 1, e, 0);
            assert(staged[k] == tactical[k]);
        } else {
            assert(has_move(staged, f, t, p));
            let k = choose|k: int| 0 <= k < staged.len() && #[trigger] staged[k].mov.from_idx() == f
                && staged[k].mov.to_idx() == t && staged[k].mov.promo() == p;
            let m = if k < c { 1int } else { 2int };
            if k < c {
                assert(entry_ok(st, staged[k], 1));
            } else {
                assert(entry_ok(st, staged[k], 2));
            }
            lemma_entry_eq(st, staged[k], m, e, 0);
        }
    }
    // as many: both lists hold each entry once
    assert(staged.no_duplicates()) by {
        assert forall|i: int, j: int| 0 <= i < staged.len() && 0 <= j < staged.len() && i != j implies staged[i] != staged[j] by {
            if i < j {
                assert(staged[i].mov != staged[j].mov);
            } else {
                assert(staged[j].mov != staged[i].mov);
            }
        }
    }
    assert(full.no_duplicates()) by {
        assert forall|i: int, j: int| 0 <= i < full.len() && 0 <= j < full.len() && i != j implies full[i] != full[j] by {
            if i < j {
                assert(full[i].mov != full[j].mov);
            } else {
                assert(full[j].mov != full[i].mov);
            }
        }
    }
    staged.unique_seq_to_set();
    full.unique_seq_to_set();
    assert(staged.to_set() =~= full.to_set());
}

// ---------------------------------------------------------------------------
// The text of a move list.
// ---------------------------------------------------------------------------

/// One line of a move list's text: the move and its score.
pub open spec fn entry_text(e: MoveListEntry) -> Seq<char> {
    seq![' ', ' '] + move_text(e.mov) + seq![' ', '$'] + signed_dec(e.score as int)
}

/// The lines of the first `n` entries, each ending in a comma.
pub open spec fn entry_lines(es: Seq<MoveListEntry>, n: int) -> Seq<char>
    decreases n,
{
    if n <= 0 {
        Seq::empty()
    } else {
        entry_lines(es, n - 1) + entry_text(es[n - 1]) + seq![',', ' ', '\n']
    }
}

/// The text of a move list: its length, then each move with its score.
pub open spec fn move_list_text(es: Seq<MoveListEntry>) -> Seq<char> {
    if es.len() == 0 {
        "MoveList: (0) []"@
    } else {
        "MoveList: ("@ + dec(es.len()) + ") [\n"@ + entry_lines(es, es.len() - 1) + entry_text(es.last()) + "\n]"@
    }
}

impl MoveList {
    fn append_entry(out: &mut String, e: MoveListEntry)
        ensures
            final(out)@ == old(out)@ + entry_text(e),
    {
        proof {
            reveal_strlit("  ");
            reveal_strlit(" $");
        }
        out.append("  ");
        e.mov.append_to(out);
        out.append(" $");
        append_signed(out, e.score);
        proof {
            assert(final(out)@ =~= old(out)@ + entry_text(e));
        }
    }

    /// The text of the list: its length, then each move with its score.
    pub fn to_string(&self) -> (r: String)
        ensures
            r@ == move_list_text(self.entries()),
    {
        let es = self.as_slice();
        if es.len() == 0 {
            return String::from_str("MoveList: (0) []");
        }
        let mut out = String::from_str("MoveList: (");
        append_decimal(&mut out, es.len() as u64);
        out.append(") [\n");
        let ghost head = out@;
        let mut i: usize = 0;
        while i < es.len() - 1
            invariant
                es@ == self.entries(),
                es@.len() > 0,
                i <= es@.len() - 1,
                out@ == head + entry_lines(es@, i as int),
            decreases es@.len() - 1 - i,
        {
            MoveList::append_entry(&mut out, es[i]);
            proof {
                reveal_strlit(", \n");
            }
            out.append(", \n");
            proof {
                assert(out@ =~= head + entry_lines(es@, i + 1));
            }
            i = i + 1;
        }
        MoveList::append_entry(&mut out, es[es.len() - 1]);
        out.append("\n]");
        proof {
            assert(es@.last() == es@[es@.len() - 1]);
            assert(out@ =~= move_list_text(self.entries()));
        }
        out
    }
}

} // verus!
