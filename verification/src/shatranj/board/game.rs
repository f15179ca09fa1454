use vstd::prelude::*;

use crate::shatranj::attacks::{
    alfil_rel, attacks_rel, ferz_rel, king_rel, knight_rel, lemma_attacks_sym, lemma_pawn_attacked, pawn_attacked, pawn_rel,
};
use crate::shatranj::board::movegen::{
    MoveList, MoveListEntry, distinct_in, entry_ok, gen_move, has_move, king_move, lemma_st_bits, move_budget, ok_from, own, pawn_move,
    piece_move, type_on,
};
use crate::shatranj::board::{
    Board, BoardState, after_pos, after_state, attacked_by, bb, checker, ksq, layout_of, leaves_king_attacked, lemma_kings_after,
    lemma_made_unique, lemma_one_king, lemma_unmake_undoes_make, made, makeable, occ, type_attacks,
};
use crate::shatranj::piece::{Colour, PieceType, piece_of};
use crate::shatranj::piecelayout::lemma_wf_bits;
use crate::shatranj::shatranjmove::Move;
use crate::shatranj::squareset::{SquareSet, bit, lemma_bit_zero, lemma_bits_ops, lemma_lowest_bit, popcount};
use crate::shatranj::board::movegen::king_attacks;
use crate::shatranj::piecelayout::PieceLayout;
use crate::shatranj::types::{CheckState, Undo};
use crate::shatranj::piece::Piece;
use crate::shatranj::squareset::{lemma_bit_single, lemma_pop_single, lemma_pop_split, lemma_pop_sub, lemma_pop_union_bound};
use crate::shatranj::board::one_king;
use crate::ext::choose_entry;

verus! {

// ---------------------------------------------------------------------------
// Legal moves.
// ---------------------------------------------------------------------------

/// The side to move does not attack the other king.
pub open spec fn opponent_safe(st: BoardState) -> bool {
    !attacked_by(st.pieces, st.side, ksq(st.pieces, st.side.opp()))
}

/// A board on which moves can be generated and tried: it is consistent, its
/// moves fit in a move list, the king of the side not to move is not
/// attacked, and the counters have room for one more move.
pub open spec fn playable(st: BoardState) -> bool {
    &&& st.wf()
    &&& move_budget(st.pieces, st.side) <= 218
    &&& opponent_safe(st)
    &&& st.seventy_move_counter < 255
    &&& st.ply < usize::MAX
    &&& st.height < usize::MAX
}

/// A legal move: a generated move that does not leave the mover's king attacked.
pub open spec fn legal(st: BoardState, m: Move) -> bool {
    &&& m.valid()
    &&& gen_move(st, m.from_idx(), m.to_idx(), m.promo())
    &&& !leaves_king_attacked(st, m)
}

/// The side to move has a legal move.
pub open spec fn has_legal_move(st: BoardState) -> bool {
    exists|m: Move| #[trigger] legal(st, m)
}

/// A generated move can be made: it never takes a king, and only pawns promote.
pub proof fn lemma_gen_makeable(st: BoardState, m: Move)
    requires
        st.wf(),
        opponent_safe(st),
        st.seventy_move_counter < 255,
        st.ply < usize::MAX,
        st.height < usize::MAX,
        gen_move(st, m.from_idx(), m.to_idx(), m.promo()),
    ensures
        makeable(st, m),
        st.pos()[m.from_idx()] is Some,
{
    let l = st.pieces;
    let f = m.from_idx();
    let t = m.to_idx();
    let c = st.side;
    lemma_st_bits(st);
    lemma_one_king(l, c);
    lemma_one_king(l, c.opp());
    l.lemma_matches_pos(st.pos());
    lemma_wf_bits(l);
    assert(bit(bb(l, c, PieceType::King), ksq(l, c)));
    if st.pos()[t] is Some && st.pos()[t]->0.type_spec() == PieceType::King {
        assert(!own(st, t));
        assert(st.pos()[t] == Some(piece_of(c.opp(), PieceType::King)));
        assert(bit(bb(l, c.opp(), PieceType::King), t));
        assert(t == ksq(l, c.opp()));
        if king_move(st, f, t, m.promo()) {
            assert(bit(bb(l, c, PieceType::King), f));
            assert(type_attacks(l, c, PieceType::King, t));
        } else if piece_move(st, f, t, m.promo()) {
            let pt = type_on(st, f);
            assert(bit(bb(l, c, pt), f));
            assert(type_attacks(l, c, pt, t));
        } else {
            assert(pawn_move(st, f, t, m.promo()));
            assert(bit(bb(l, c, PieceType::Pawn), f) && pawn_rel(c, f, t));
            lemma_pawn_attacked(c, bb(l, c, PieceType::Pawn), t);
        }
        assert(attacked_by(l, c, t));
    }
}

/// `es` is a list of the generated moves of `st`, as `Board::generate_moves`
/// leaves it: each generated move once, and nothing else.
pub open spec fn generated(st: BoardState, es: Seq<MoveListEntry>) -> bool {
    &&& ok_from(st, es, 0, 0)
    &&& forall|f: int, t: int, p: bool| gen_move(st, f, t, p) ==> #[trigger] has_move(es, f, t, p)
    &&& distinct_in(es, 0, es.len() as int)
}

/// Whether a move is legal on `st`.
pub open spec fn legal_on(st: BoardState) -> spec_fn(Move) -> bool {
    |m: Move| legal(st, m)
}

/// The legal moves among the moves of a list, in the list's order.
pub open spec fn legal_in_order(st: BoardState, es: Seq<MoveListEntry>) -> Seq<Move> {
    es.map_values(|e: MoveListEntry| e.mov).filter(legal_on(st))
}

impl Board {
    /// The legal moves of the side to move, in the order they are generated.
    pub fn legal_moves(&mut self) -> (r: Vec<Move>)
        requires
            playable(old(self)@),
        ensures
            final(self)@ == old(self)@,
            forall|k: int| 0 <= k < r@.len() ==> legal(old(self)@, #[trigger] r@[k]),
            forall|m: Move| legal(old(self)@, m) ==> r@.contains(m),
            forall|j: int, k: int| 0 <= j < k < r@.len() ==> #[trigger] r@[j] != #[trigger] r@[k],
            exists|es: Seq<MoveListEntry>| generated(old(self)@, es) && r@ == legal_in_order(old(self)@, es),
    {
        let ghost st = self@;
        let mut move_list = MoveList::new();
        self.generate_moves(&mut move_list);
        let moves = move_list.iter_moves();
        let ghost es = move_list.entries();
        let mut legal_moves: Vec<Move> = Vec::new();
        let mut i: usize = 0;
        while i < moves.len()
            invariant
                self@ == st,
                playable(st),
                moves@ == es.map_values(|e: MoveListEntry| e.mov),
                ok_from(st, es, 0, 0),
                i <= moves@.len(),
                forall|k: int| 0 <= k < legal_moves@.len() ==> legal(st, #[trigger] legal_moves@[k]),
                forall|j: int| 0 <= j < i ==> legal(st, #[trigger] moves@[j]) ==> legal_moves@.contains(moves@[j]),
                distinct_in(es, 0, es.len() as int),
                forall|k: int| #![trigger legal_moves@[k]] 0 <= k < legal_moves@.len() ==> exists|w: int| 0 <= w < i && #[trigger] moves@[w] == legal_moves@[k],
                forall|j: int, k: int| 0 <= j < k < legal_moves@.len() ==> #[trigger] legal_moves@[j] != #[trigger] legal_moves@[k],
                legal_moves@ == moves@.take(i as int).filter(legal_on(st)),
            decreases moves@.len() - i,
        {
            let m = moves[i];
            proof {
                assert(m == es[i as int].mov);
                assert(entry_ok(st, es[i as int], 0));
                lemma_gen_makeable(st, m);
            }
            let ghost before = legal_moves@;
            if self.make_move_simple(m) {
                proof {
                    lemma_unmake_undoes_make(st, m, self@);
                }
                self.unmake_move_base();
                legal_moves.push(m);
                proof {
                    assert(legal_moves@[before.len() as int] == m);
                    assert forall|k: int| 0 <= k < before.len() implies before[k] != m by {
                        let w = choose|w: int| 0 <= w < i && #[trigger] moves@[w] == before[k];
                        assert(moves@[w] == es[w].mov);
                        assert(es[w].mov != es[i as int].mov);
                    }
                    assert forall|j: int, k: int| 0 <= j < k < legal_moves@.len() implies #[trigger] legal_moves@[j] != #[trigger] legal_moves@[k] by {
                        assert(legal_moves@[j] == before[j]);
                        if k < before.len() {
                            assert(legal_moves@[k] == before[k]);
                        }
                    }
                }
            }
            proof {
                reveal(Seq::filter);
                assert(moves@.take(i + 1).drop_last() =~= moves@.take(i as int));
                assert(moves@.take(i + 1).last() == m);
                assert(legal_moves@ =~= moves@.take(i + 1).filter(legal_on(st)));
            }
            proof {
                assert forall|k: int| #![trigger legal_moves@[k]] 0 <= k < legal_moves@.len() implies exists|w: int| 0 <= w < i + 1 && #[trigger] moves@[w] == legal_moves@[k] by {
                    if k < before.len() {
                        assert(legal_moves@[k] == before[k]);
                        let w = choose|w: int| 0 <= w < i && #[trigger] moves@[w] == before[k];
                        assert(moves@[w] == legal_moves@[k]);
                    } else {
                        assert(moves@[i as int] == legal_moves@[k]);
                    }
                }
            }
            proof {
                assert forall|j: int| 0 <= j < i + 1 && legal(st, #[trigger] moves@[j]) implies legal_moves@.contains(moves@[j]) by {
                    if j < i {
                        let w = choose|w: int| 0 <= w < before.len() && before[w] == moves@[j];
                        assert(legal_moves@[w] == before[w]);
                    }
                    if j == i {
                        assert(legal_moves@[before.len() as int] == m);
                    }
                }
            }
            i = i + 1;
        }
        proof {
            assert forall|m: Move| legal(st, m) implies legal_moves@.contains(m) by {
                assert(has_move(es, m.from_idx(), m.to_idx(), m.promo()));
                let k = choose|k: int| 0 <= k < es.len() && #[trigger] es[k].mov.from_idx() == m.from_idx() && es[k].mov.to_idx() == m.to_idx() && es[k].mov.promo() == m.promo();
                assert(entry_ok(st, es[k], 0));
                Move::lemma_valid_eq(es[k].mov, m);
                assert(moves@[k] == m);
            }
            assert(moves@.take(moves@.len() as int) =~= moves@);
            assert(generated(st, es));
        }
        legal_moves
    }
}

impl Board {
    /// Whether the side to move has a legal move, trying the generated moves in order.
    fn any_legal_move(&mut self) -> (r: bool)
        requires
            playable(old(self)@),
        ensures
            final(self)@ == old(self)@,
            r == has_legal_move(old(self)@),
    {
        let ghost st = self@;
        let mut move_list = MoveList::new();
        self.generate_moves(&mut move_list);
        let moves = move_list.iter_moves();
        let ghost es = move_list.entries();
        let mut i: usize = 0;
        while i < moves.len()
            invariant
                st == old(self)@,
                self@ == st,
                playable(st),
                moves@ == es.map_values(|e: MoveListEntry| e.mov),
                ok_from(st, es, 0, 0),
                i <= moves@.len(),
                forall|j: int| 0 <= j < i ==> !legal(st, #[trigger] moves@[j]),
            decreases moves@.len() - i,
        {
            let m = moves[i];
            proof {
                assert(m == es[i as int].mov);
                assert(entry_ok(st, es[i as int], 0));
                lemma_gen_makeable(st, m);
            }
            if self.make_move_simple(m) {
                proof {
                    lemma_unmake_undoes_make(st, m, self@);
                    assert(legal(st, m));
                }
                self.unmake_move_base();
                return true;
            }
            i = i + 1;
        }
        proof {
            assert forall|m: Move| !legal(st, m) by {
                if legal(st, m) {
                    assert(has_move(es, m.from_idx(), m.to_idx(), m.promo()));
                    let k = choose|k: int| 0 <= k < es.len() && #[trigger] es[k].mov.from_idx() == m.from_idx() && es[k].mov.to_idx() == m.to_idx() && es[k].mov.promo() == m.promo();
                    assert(entry_ok(st, es[k], 0));
                    Move::lemma_valid_eq(es[k].mov, m);
                    assert(moves@[k] == m);
                }
            }
        }
        false
    }
}

// ---------------------------------------------------------------------------
// How a game ends.
// ---------------------------------------------------------------------------

/// How a game was won.
#[derive(Debug, Clone, Copy, PartialEq, Eq, Hash, Structural)]
pub enum WinType {
    Mate,
    BareKing,
    TB,
    Adjudication,
}

/// How a game was drawn.
#[derive(Debug, Clone, Copy, PartialEq, Eq, Hash, Structural)]
pub enum DrawType {
    TB,
    SeventyMoves,
    Repetition,
    InsufficientMaterial,
    Adjudication,
}

/// The state of a game.
#[derive(Debug, Clone, Copy, PartialEq, Eq, Hash, Structural)]
pub enum GameOutcome {
    WhiteWin(WinType),
    BlackWin(WinType),
    Draw(DrawType),
    Ongoing,
}

impl GameOutcome {
    /// The result of a finished game as one byte: 0 a black win, 1 a draw, 2 a white win.
    pub fn as_packed_u8(self) -> (r: u8)
        requires
            self != GameOutcome::Ongoing,
        ensures
            r == match self {
                GameOutcome::WhiteWin(_) => 2u8,
                GameOutcome::BlackWin(_) => 0u8,
                GameOutcome::Draw(_) => 1u8,
                GameOutcome::Ongoing => 1u8,
            },
    {
        match self {
            GameOutcome::WhiteWin(_) => 2,
            GameOutcome::BlackWin(_) => 0,
            GameOutcome::Draw(_) => 1,
            GameOutcome::Ongoing => 1,
        }
    }
}

/// Scanning the history back from index `j` two plies at a time, with the
/// position already seen `reps` times: it is seen a third time before a saved
/// state with a zero seventy-move counter stops the scan.
pub open spec fn threefold_from(h: Seq<Undo>, key: u64, j: int, reps: int) -> bool
    decreases j + 2,
{
    if j < 0 {
        false
    } else {
        let reps2 = if h[j].key == key { reps + 1 } else { reps };
        if reps2 >= 3 {
            true
        } else if h[j].seventy_move_counter == 0 {
            false
        } else {
            threefold_from(h, key, j - 2, reps2)
        }
    }
}

/// The current position has occurred three times, counting it, with the same side to move.
pub open spec fn threefold(st: BoardState) -> bool {
    threefold_from(st.history, st.key, st.history.len() - 2, 1)
}

/// Neither side has anything but its king.
pub open spec fn insufficient(st: BoardState) -> bool {
    &&& bb(st.pieces, Colour::White, PieceType::King) == st.pieces.cbits(0)
    &&& bb(st.pieces, Colour::Black, PieceType::King) == st.pieces.cbits(1)
}

/// The pieces of the other side than `c`, its king apart.
pub open spec fn their_men(l: PieceLayout, c: Colour) -> u64 {
    l.cbits(c.opp().idx()) & !bb(l, c.opp(), PieceType::King)
}

/// Colour `c` has only its king, the other side has one man besides its king,
/// and that man is out of reach of `c`'s king: not next to it, or guarded by
/// the other king.
pub open spec fn bare_king(st: BoardState, c: Colour) -> bool {
    let l = st.pieces;
    let theirs = their_men(l, c);
    &&& bb(l, c, PieceType::King) == l.cbits(c.idx())
    &&& popcount(theirs) == 1
    &&& exists|x: int| #[trigger] bit(theirs, x) && !(king_rel(ksq(l, c), x) && !king_rel(ksq(l, c.opp()), x))
}

/// `outcome` gets as far as looking for a legal move.
pub open spec fn outcome_needs_moves(st: BoardState) -> bool {
    &&& st.seventy_move_counter < 140
    &&& !threefold(st)
    &&& !insufficient(st)
    &&& !bare_king(st, Colour::White)
    &&& !bare_king(st, Colour::Black)
}

/// What `outcome` finds, in the order it looks.
pub open spec fn outcome_spec(st: BoardState) -> GameOutcome {
    if st.seventy_move_counter >= 140 {
        GameOutcome::Draw(DrawType::SeventyMoves)
    } else if threefold(st) {
        GameOutcome::Draw(DrawType::Repetition)
    } else if insufficient(st) {
        GameOutcome::Draw(DrawType::InsufficientMaterial)
    } else if bare_king(st, Colour::White) {
        GameOutcome::BlackWin(WinType::BareKing)
    } else if bare_king(st, Colour::Black) {
        GameOutcome::WhiteWin(WinType::BareKing)
    } else if has_legal_move(st) {
        GameOutcome::Ongoing
    } else if st.side == Colour::White {
        GameOutcome::BlackWin(WinType::Mate)
    } else {
        GameOutcome::WhiteWin(WinType::Mate)
    }
}

/// Why a game ends: a seventy-move draw exactly when the counter has reached
/// 140; a repetition draw only when the position was met before at an even
/// number of plies back, twice, within the saved states; a draw for want of material
/// only when both sides have nothing but their kings; a bare-king win only
/// for the side whose opponent has nothing but its king; and a game with both
/// kings bare never goes on.
pub proof fn lemma_outcome_reasons(st: BoardState)
    ensures
        (outcome_spec(st) == GameOutcome::Draw(DrawType::SeventyMoves)) <==> st.seventy_move_counter >= 140,
        outcome_spec(st) == GameOutcome::Draw(DrawType::Repetition) ==> exists|a: int, b: int| 0 <= a < b < st.history.len()
            && (st.history.len() - a) % 2 == 0 && (st.history.len() - b) % 2 == 0
            && #[trigger] st.history[a].key == st.key && #[trigger] st.history[b].key == st.key,
        outcome_spec(st) == GameOutcome::Draw(DrawType::InsufficientMaterial)
            ==> bb(st.pieces, Colour::White, PieceType::King) == st.pieces.cbits(0)
                && bb(st.pieces, Colour::Black, PieceType::King) == st.pieces.cbits(1),
        outcome_spec(st) == GameOutcome::BlackWin(WinType::BareKing) ==> bb(st.pieces, Colour::White, PieceType::King) == st.pieces.cbits(0),
        outcome_spec(st) == GameOutcome::WhiteWin(WinType::BareKing) ==> bb(st.pieces, Colour::Black, PieceType::King) == st.pieces.cbits(1),
        bb(st.pieces, Colour::White, PieceType::King) == st.pieces.cbits(0)
            && bb(st.pieces, Colour::Black, PieceType::King) == st.pieces.cbits(1) ==> outcome_spec(st) is Draw,
{
    if outcome_spec(st) == GameOutcome::Draw(DrawType::Repetition) {
        lemma_threefold_seen(st.history, st.key, st.history.len() - 2, 1);
    }
}

/// A scan that finds the position a third time has met it, among the states
/// it looked at, once more than it had when it started: twice when it started
/// from one meeting.
proof fn lemma_threefold_seen(h: Seq<Undo>, key: u64, j: int, reps: int)
    requires
        threefold_from(h, key, j, reps),
        1 <= reps < 3,
        j < h.len(),
        (h.len() - j) % 2 == 0,
    ensures
        exists|i: int| 0 <= i <= j && (h.len() - i) % 2 == 0 && #[trigger] h[i].key == key,
        reps == 1 ==> exists|a: int, b: int| 0 <= a < b <= j && (h.len() - a) % 2 == 0 && (h.len() - b) % 2 == 0
            && #[trigger] h[a].key == key && #[trigger] h[b].key == key,
    decreases j + 2,
{
    if h[j].key != key {
        lemma_threefold_seen(h, key, j - 2, reps);
    } else if reps == 1 {
        lemma_threefold_seen(h, key, j - 2, 2);
        let a: int = choose|i: int| 0 <= i <= j - 2 && (h.len() - i) % 2 == 0 && #[trigger] h[i].key == key;
        assert(h[a].key == key && h[j].key == key);
    }
}

/// A game won by mate is won by the side not to move, which then has a legal
/// move no longer; when `outcome` gets as far as looking for legal moves and
/// finds none, the game is won by mate; a game still going on has a legal move.
pub proof fn lemma_mate_goes_to_the_side_not_to_move(st: BoardState)
    ensures
        outcome_spec(st) == GameOutcome::WhiteWin(WinType::Mate) ==> st.side == Colour::Black && !has_legal_move(st),
        outcome_spec(st) == GameOutcome::BlackWin(WinType::Mate) ==> st.side == Colour::White && !has_legal_move(st),
        outcome_needs_moves(st) && !has_legal_move(st)
            ==> outcome_spec(st) == GameOutcome::WhiteWin(WinType::Mate) || outcome_spec(st) == GameOutcome::BlackWin(WinType::Mate),
        outcome_spec(st) == GameOutcome::Ongoing ==> has_legal_move(st),
{
}

impl Board {
    /// Whether colour `c` has nothing but its king.
    pub fn has_insufficient_material(&self, c: Colour) -> (r: bool)
        ensures
            r == (bb(self@.pieces, c, PieceType::King) == self@.pieces.cbits(c.idx())),
    {
        self.pieces.of(c, PieceType::King).inner() == self.pieces.occupied_co(c).inner()
    }

    /// Whether both sides have nothing but their kings.
    pub fn is_insufficient_material(&self) -> (r: bool)
        ensures
            r == insufficient(self@),
    {
        self.has_insufficient_material(Colour::White) && self.has_insufficient_material(Colour::Black)
    }

    /// Whether colour `c` has lost to a bare king.
    fn is_bare_king(&self, c: Colour) -> (r: bool)
        requires
            one_king(self@.pieces, Colour::White),
            one_king(self@.pieces, Colour::Black),
        ensures
            r == bare_king(self@, c),
    {
        let our_kings = self.pieces.of(c, PieceType::King);
        let our_pieces = self.pieces.occupied_co(c);
        if our_pieces.inner() != our_kings.inner() {
            return false;
        }
        let their_kings = self.pieces.of(c.flip(), PieceType::King);
        let their_pieces = SquareSet::from_inner(self.pieces.occupied_co(c.flip()).inner() & !their_kings.inner());
        if their_pieces.count() != 1 {
            return false;
        }
        let oka = king_attacks(self.king_sq(c));
        let tka = king_attacks(self.king_sq(c.flip()));
        let our_king_attacks = SquareSet::from_inner(oka.inner() & !tka.inner());
        let rest = SquareSet::from_inner(their_pieces.inner() & !our_king_attacks.inner());
        proof {
            lemma_bits_ops(oka.inner, !tka.inner);
            lemma_bits_ops(tka.inner, 0);
            lemma_bits_ops(their_pieces.inner, !our_king_attacks.inner);
            lemma_bits_ops(our_king_attacks.inner, 0);
            let theirs = their_men(self@.pieces, c);
            let kc = ksq(self@.pieces, c);
            let ko = ksq(self@.pieces, c.opp());
            assert(their_pieces.inner == theirs);
            assert forall|x: int| #[trigger] bit(rest.inner, x) <==> (bit(theirs, x) && !(king_rel(kc, x) && !king_rel(ko, x))) by {}
            if rest.inner != 0 {
                crate::shatranj::squareset::lemma_lowest_bit(rest.inner);
                let x = rest.inner.trailing_zeros() as int;
                assert(bit(rest.inner, x));
            }
            if exists|x: int| #[trigger] bit(theirs, x) && !(king_rel(kc, x) && !king_rel(ko, x)) {
                let x = choose|x: int| #[trigger] bit(theirs, x) && !(king_rel(kc, x) && !king_rel(ko, x));
                assert(bit(rest.inner, x));
                crate::shatranj::squareset::lemma_bit_zero(x);
            }
        }
        rest.non_empty()
    }
}

impl Board {
    /// The state of the game: drawn by the seventy-move rule, by threefold
    /// repetition or for want of material; won against a bare king or by
    /// leaving the side to move without a legal move (stalemate loses); or
    /// still going on.
    pub fn outcome(&mut self) -> (r: GameOutcome)
        requires
            old(self)@.wf(),
            outcome_needs_moves(old(self)@) ==> playable(old(self)@),
        ensures
            final(self)@ == old(self)@,
            r == outcome_spec(old(self)@),
    {
        let ghost st = self@;
        if self.seventy_move_counter >= 140 {
            return GameOutcome::Draw(DrawType::SeventyMoves);
        }
        let mut reps: u8 = 1;
        let mut j: usize = self.history.len();
        while j >= 2
            invariant
                st == old(self)@,
                self@ == st,
                st.wf(),
                outcome_needs_moves(st) ==> playable(st),
                st.seventy_move_counter < 140,
                j <= st.history.len(),
                1 <= reps < 3,
                threefold(st) == threefold_from(st.history, st.key, j - 2, reps as int),
            decreases j,
        {
            j = j - 2;
            let undo = self.history[j];
            proof {
                assert(undo == st.history[j as int]);
                assert(threefold(st) == threefold_from(st.history, st.key, j as int, reps as int));
            }
            if undo.key == self.key {
                reps = reps + 1;
                if reps == 3 {
                    proof {
                        assert(threefold(st));
                    }
                    return GameOutcome::Draw(DrawType::Repetition);
                }
            }
            // a zeroed seventy-move counter means no earlier position can repeat this one
            if undo.seventy_move_counter == 0 {
                return self.outcome_after_repetition();
            }
        }
        self.outcome_after_repetition()
    }

    /// The rest of `outcome`, once neither the seventy-move rule nor a repetition applies.
    fn outcome_after_repetition(&mut self) -> (r: GameOutcome)
        requires
            old(self)@.wf(),
            !insufficient(old(self)@) && !bare_king(old(self)@, Colour::White) && !bare_king(old(self)@, Colour::Black)
                ==> playable(old(self)@),
        ensures
            final(self)@ == old(self)@,
            r == (if insufficient(old(self)@) {
                GameOutcome::Draw(DrawType::InsufficientMaterial)
            } else if bare_king(old(self)@, Colour::White) {
                GameOutcome::BlackWin(WinType::BareKing)
            } else if bare_king(old(self)@, Colour::Black) {
                GameOutcome::WhiteWin(WinType::BareKing)
            } else if has_legal_move(old(self)@) {
                GameOutcome::Ongoing
            } else if old(self)@.side == Colour::White {
                GameOutcome::BlackWin(WinType::Mate)
            } else {
                GameOutcome::WhiteWin(WinType::Mate)
            }),
    {
        if self.is_insufficient_material() {
            return GameOutcome::Draw(DrawType::InsufficientMaterial);
        }
        if self.is_bare_king(Colour::White) {
            return GameOutcome::BlackWin(WinType::BareKing);
        }
        if self.is_bare_king(Colour::Black) {
            return GameOutcome::WhiteWin(WinType::BareKing);
        }
        if self.any_legal_move() {
            GameOutcome::Ongoing
        } else {
            match self.side {
                Colour::White => GameOutcome::BlackWin(WinType::Mate),
                Colour::Black => GameOutcome::WhiteWin(WinType::Mate),
            }
        }
    }
}

// ---------------------------------------------------------------------------
// Checks, repetitions and material.
// ---------------------------------------------------------------------------

/// Room on the board for a move and a reply: the other side's moves fit in a
/// move list too, and the counters can grow twice.
pub open spec fn reply_room(st: BoardState) -> bool {
    &&& move_budget(st.pieces, st.side.opp()) <= 218
    &&& st.seventy_move_counter < 254
    &&& st.ply < usize::MAX - 1
    &&& st.height < usize::MAX - 1
}

/// Whether the move `m` checks or mates the other side: no check when the
/// move cannot be made; else check when the other king is attacked after it,
/// and mate when besides the other side then has no legal move.
#[verifier::opaque]
pub open spec fn gives_spec(st: BoardState, m: Move) -> CheckState {
    if !(st.pos()[m.from_idx()] is Some && !leaves_king_attacked(st, m)) {
        CheckState::NoCheck
    } else if after_state(st, m).threats.checkers.inner != 0 {
        if has_legal_move(after_state(st, m)) {
            CheckState::Check
        } else {
            CheckState::Checkmate
        }
    } else {
        CheckState::NoCheck
    }
}

/// Moving a piece one square never adds men to the other side: the other
/// side's men of each type are those it had, less any captured, with one of
/// them perhaps moved to another square.
proof fn lemma_budget_after(s0: BoardState, m: Move, s1: BoardState)
    requires
        s0.wf(),
        s0.pos()[m.from_idx()] is Some,
        m.from_idx() != m.to_idx(),
        made(s0, m, s1),
    ensures
        move_budget(s1.pieces, s0.side.opp()) <= move_budget(s0.pieces, s0.side.opp()),
{
    let o = s0.side.opp();
    let l0 = s0.pieces;
    let l1 = s1.pieces;
    let f = m.from_idx();
    let t = m.to_idx();
    let moved = s0.pos()[f]->0;
    l0.lemma_matches_pos(s0.pos());
    l1.lemma_matches_pos(s1.pos());
    lemma_wf_bits(l0);
    lemma_wf_bits(l1);
    Piece::lemma_of_piece(s0.side, PieceType::Ferz);
    moved.lemma_piece_of();
    m.lemma_idx_bounds();
    assert forall|ty: PieceType| popcount(bb(l1, o, ty)) <= popcount(bb(l0, o, ty)) by {
        Piece::lemma_of_piece(o, ty);
        let b0 = bb(l0, o, ty);
        let b1 = bb(l1, o, ty);
        if !m.promo() && moved == piece_of(o, ty) {
            // the other side's piece moved from `f` to `t`
            let fb = 1u64 << (f as u64);
            let tb = 1u64 << (t as u64);
            let rest = b0 & !fb;
            lemma_bits_ops(b0, !fb);
            lemma_bits_ops(fb, 0);
            assert forall|i: int| #[trigger] bit(fb, i) == (i == f) by {
                lemma_bit_single(f as u64, i);
            }
            assert forall|i: int| #[trigger] bit(tb, i) == (i == t) by {
                lemma_bit_single(t as u64, i);
            }
            assert(bit(b0, f));
            assert forall|i: int| 0 <= i < 64 implies #[trigger] bit(b0, i) == (bit(rest, i) || bit(fb, i)) by {}
            assert forall|i: int| 0 <= i < 64 implies !(#[trigger] bit(rest, i) && bit(fb, i)) by {}
            lemma_pop_split(b0, rest, fb, 64);
            lemma_pop_single(f as u64, 64);
            assert forall|i: int| 0 <= i < 64 && #[trigger] bit(b1, i) implies bit(rest, i) || bit(tb, i) by {
                if i != t {
                    assert(s1.pos()[i] == s0.pos()[i] || i == f);
                }
            }
            lemma_pop_union_bound(b1, rest, tb, 64);
            lemma_pop_single(t as u64, 64);
        } else {
            assert forall|i: int| 0 <= i < 64 && #[trigger] bit(b1, i) implies bit(b0, i) by {
                assert(s1.pos()[i] == Some(piece_of(o, ty)));
            }
            lemma_pop_sub(b1, b0, 64);
        }
    }
    assert(popcount(bb(l1, o, PieceType::Pawn)) <= popcount(bb(l0, o, PieceType::Pawn)));
    assert(popcount(bb(l1, o, PieceType::Alfil)) <= popcount(bb(l0, o, PieceType::Alfil)));
    assert(popcount(bb(l1, o, PieceType::Ferz)) <= popcount(bb(l0, o, PieceType::Ferz)));
    assert(popcount(bb(l1, o, PieceType::Knight)) <= popcount(bb(l0, o, PieceType::Knight)));
    assert(popcount(bb(l1, o, PieceType::Rook)) <= popcount(bb(l0, o, PieceType::Rook)));
}

impl Board {
    /// Whether the move `m` gives check or checkmate.
    pub fn gives(&mut self, m: Move) -> (r: CheckState)
        requires
            playable(old(self)@),
            reply_room(old(self)@),
            makeable(old(self)@, m),
        ensures
            final(self)@ == old(self)@,
            r == gives_spec(old(self)@, m),
    {
        let ghost st = self@;
        proof {
            reveal(gives_spec);
        }
        if !self.make_move_simple(m) {
            return CheckState::NoCheck;
        }
        let ghost s1 = self@;
        proof {
            lemma_made_unique(st, m, s1, after_state(st, m));
            lemma_budget_after(st, m, s1);
            PieceLayout::lemma_matches_unique(s1.pieces, layout_of(after_pos(st, m)), after_pos(st, m));
            lemma_unmake_undoes_make(st, m, s1);
        }
        let gives_check = self.in_check();
        if gives_check {
            let found = self.any_legal_move();
            self.unmake_move_base();
            if found {
                return CheckState::Check;
            }
            return CheckState::Checkmate;
        }
        self.unmake_move_base();
        CheckState::NoCheck
    }
}

/// Whether a move checks is whether, on the board the move makes, the other
/// king is attacked by any piece of the mover, not only by the piece that
/// moved; it mates when besides the other side then has no legal move. A move
/// that leaves the mover's own king attacked gives neither.
pub proof fn lemma_gives_sees_every_check(st: BoardState, m: Move, s1: BoardState)
    requires
        st.wf(),
        makeable(st, m),
        st.pos()[m.from_idx()] is Some,
        made(st, m, s1),
    ensures
        gives_spec(st, m) != CheckState::NoCheck
            <==> (!leaves_king_attacked(st, m) && attacked_by(s1.pieces, st.side, ksq(s1.pieces, st.side.opp()))),
        gives_spec(st, m) == CheckState::Checkmate
            <==> (!leaves_king_attacked(st, m) && attacked_by(s1.pieces, st.side, ksq(s1.pieces, st.side.opp()))
                && !has_legal_move(s1)),
{
    reveal(gives_spec);
    m.lemma_idx_bounds();
    assert(made(st, m, after_state(st, m)));
    lemma_made_unique(st, m, s1, after_state(st, m));
    let l1 = s1.pieces;
    let p1 = after_pos(st, m);
    assert(layout_of(p1).matches(p1));
    PieceLayout::lemma_matches_unique(l1, layout_of(p1), p1);
    lemma_kings_after(st, m, l1);
    let c = st.side;
    let o = c.opp();
    assert(o.opp() == c);
    let k = ksq(l1, o);
    lemma_one_king(l1, c);
    lemma_one_king(l1, o);
    lemma_wf_bits(l1);
    let chk = s1.threats.checkers.inner;
    if !leaves_king_attacked(st, m) {
        if chk != 0 {
            lemma_lowest_bit(chk);
            let s: int = chk.trailing_zeros() as int;
            assert(bit(chk, s));
            assert(checker(l1, c, s));
            if bit(bb(l1, c, PieceType::Pawn), s) && pawn_rel(c, s, k) {
                lemma_pawn_attacked(c, bb(l1, c, PieceType::Pawn), k);
            } else if bit(bb(l1, c, PieceType::Alfil), s) && alfil_rel(s, k) {
                assert(type_attacks(l1, c, PieceType::Alfil, k));
            } else if bit(bb(l1, c, PieceType::Ferz), s) && ferz_rel(s, k) {
                assert(type_attacks(l1, c, PieceType::Ferz, k));
            } else if bit(bb(l1, c, PieceType::Knight), s) && knight_rel(s, k) {
                assert(type_attacks(l1, c, PieceType::Knight, k));
            } else {
                assert(type_attacks(l1, c, PieceType::Rook, k));
            }
        }
        if attacked_by(l1, c, k) {
            let s: int = if pawn_attacked(c, bb(l1, c, PieceType::Pawn), k) {
                lemma_pawn_attacked(c, bb(l1, c, PieceType::Pawn), k);
                choose|s: int| #[trigger] bit(bb(l1, c, PieceType::Pawn), s) && pawn_rel(c, s, k)
            } else if type_attacks(l1, c, PieceType::Alfil, k) {
                choose|s: int| #[trigger] bit(bb(l1, c, PieceType::Alfil), s) && attacks_rel(PieceType::Alfil, s, k, occ(l1))
            } else if type_attacks(l1, c, PieceType::Ferz, k) {
                choose|s: int| #[trigger] bit(bb(l1, c, PieceType::Ferz), s) && attacks_rel(PieceType::Ferz, s, k, occ(l1))
            } else if type_attacks(l1, c, PieceType::Knight, k) {
                choose|s: int| #[trigger] bit(bb(l1, c, PieceType::Knight), s) && attacks_rel(PieceType::Knight, s, k, occ(l1))
            } else if type_attacks(l1, c, PieceType::Rook, k) {
                choose|s: int| #[trigger] bit(bb(l1, c, PieceType::Rook), s) && attacks_rel(PieceType::Rook, s, k, occ(l1))
            } else {
                // the mover's king next to the other king would be attacked itself
                let s: int = choose|s: int| #[trigger] bit(bb(l1, c, PieceType::King), s) && attacks_rel(PieceType::King, s, k, occ(l1));
                lemma_attacks_sym(PieceType::King, s, k, occ(l1));
                assert(s == ksq(l1, c));
                assert(bit(bb(l1, o, PieceType::King), k));
                assert(type_attacks(l1, o, PieceType::King, s));
                assert(attacked_by(l1, o, ksq(l1, c)));
                assert(false);
                s
            };
            assert(checker(l1, c, s));
            assert(bit(chk, s));
            lemma_bit_zero(s);
        }
    }
}

/// The position `d` plies back, in a history of saved states, had the key `key`.
pub open spec fn seen_back(h: Seq<Undo>, key: u64, d: int) -> bool {
    h[h.len() - 1 - d].key == key
}

/// The current position occurred before, since the last irreversible move: an
/// even number of plies back, at least four, within the seventy-move counter
/// and the history.
pub open spec fn repetition(st: BoardState) -> bool {
    let lim = if st.seventy_move_counter < st.history.len() { st.seventy_move_counter as int } else { st.history.len() as int };
    exists|d: int| 3 <= d < lim && (d - 3) % 2 == 0 && #[trigger] seen_back(st.history, st.key, d)
}

/// A position met again an even number of plies back, at least four, and no
/// further back than the seventy-move counter and the saved states reach, is
/// a repetition; and every repetition is such a meeting.
pub proof fn lemma_repetition_is_an_earlier_meeting(st: BoardState)
    ensures
        forall|k: int| 4 <= k && k % 2 == 0 && k <= st.seventy_move_counter && k <= st.history.len()
            && #[trigger] st.history[st.history.len() - k].key == st.key ==> repetition(st),
        repetition(st) ==> exists|k: int| 4 <= k && k % 2 == 0 && k <= st.seventy_move_counter && k <= st.history.len()
            && #[trigger] st.history[st.history.len() - k].key == st.key,
{
    assert forall|k: int| 4 <= k && k % 2 == 0 && k <= st.seventy_move_counter && k <= st.history.len()
        && #[trigger] st.history[st.history.len() - k].key == st.key implies repetition(st) by {
        let d: int = k - 1;
        assert(seen_back(st.history, st.key, d));
    }
    if repetition(st) {
        let lim: int = if st.seventy_move_counter < st.history.len() { st.seventy_move_counter as int } else { st.history.len() as int };
        let d: int = choose|d: int| 3 <= d < lim && (d - 3) % 2 == 0 && #[trigger] seen_back(st.history, st.key, d);
        let k: int = d + 1;
        assert(st.history[st.history.len() - k].key == st.key);
    }
}

impl Board {
    /// Has the current position occurred before in the current game?
    pub fn is_repetition(&self) -> (r: bool)
        ensures
            r == repetition(self@),
    {
        // distance to the last irreversible move
        let moves_since_zeroing = self.seventy_move_counter() as usize;
        let len = self.history.len();
        let lim = if moves_since_zeroing < len { moves_since_zeroing } else { len };
        // a repetition is first possible at four plies back
        let mut d: usize = 3;
        while d < lim
            invariant
                lim <= len,
                lim <= 255,
                len == self@.history.len(),
                lim == (if self@.seventy_move_counter < self@.history.len() { self@.seventy_move_counter as int } else { self@.history.len() as int }),
                3 <= d <= 257,
                (d - 3) % 2 == 0,
                forall|e: int| 3 <= e < d && (e - 3) % 2 == 0 ==> !#[trigger] seen_back(self@.history, self@.key, e),
            decreases 257 - d,
        {
            let u = self.history[len - 1 - d];
            if u.key == self.key {
                proof {
                    assert(seen_back(self@.history, self@.key, d as int));
                }
                return true;
            }
            d = d + 2;
        }
        false
    }

    /// Should we consider the current position a draw?
    pub fn is_draw(&self) -> (r: bool)
        ensures
            r == ((self@.seventy_move_counter >= 140 || repetition(self@)) && self@.height != 0),
    {
        (self.seventy_move_counter >= 140 || self.is_repetition()) && self.height != 0
    }

    /// The material on the board, both sides together: a pawn or an alfil
    /// counts one, a ferz two, a knight four and a rook six.
    pub fn material_count(&self) -> (r: u32)
        ensures
            r == popcount(self@.pieces.tbits(0)) + popcount(self@.pieces.tbits(1)) + 2 * popcount(self@.pieces.tbits(2))
                + 4 * popcount(self@.pieces.tbits(3)) + 6 * popcount(self@.pieces.tbits(4)),
    {
        let pawn_material = self.pieces.of_type(PieceType::Pawn).count();
        let alfil_material = self.pieces.of_type(PieceType::Alfil).count();
        let ferz_material = 2 * self.pieces.of_type(PieceType::Ferz).count();
        let knight_material = 4 * self.pieces.of_type(PieceType::Knight).count();
        let rook_material = 6 * self.pieces.of_type(PieceType::Rook).count();
        pawn_material + alfil_material + ferz_material + knight_material + rook_material
    }

    /// Checks that the side to move is mated: it is in check and no generated
    /// move can be made.
    pub fn assert_mated(&mut self)
        requires
            playable(old(self)@),
            old(self)@.threats.checkers.inner != 0,
            !has_legal_move(old(self)@),
        ensures
            final(self)@ == old(self)@,
    {
        let ghost st = self@;
        let mut move_list = MoveList::new();
        self.generate_moves(&mut move_list);
        let moves = move_list.iter_moves();
        let ghost es = move_list.entries();
        let mut i: usize = 0;
        while i < moves.len()
            invariant
                self@ == st,
                playable(st),
                !has_legal_move(st),
                moves@ == es.map_values(|e: MoveListEntry| e.mov),
                ok_from(st, es, 0, 0),
                i <= moves@.len(),
            decreases moves@.len() - i,
        {
            let mv = moves[i];
            proof {
                assert(mv == es[i as int].mov);
                assert(entry_ok(st, es[i as int], 0));
                lemma_gen_makeable(st, mv);
            }
            let made_it = self.make_move_simple(mv);
            proof {
                if made_it {
                    assert(legal(st, mv));
                }
            }
            i = i + 1;
        }
    }
}

impl Board {
    /// Makes a move picked at random among the generated moves, and returns it;
    /// none when there is no move. A picked move that would leave the king
    /// attacked is returned without being made.
    pub fn make_random_move(&mut self, rng: &mut rand::rngs::ThreadRng) -> (r: Option<Move>)
        requires
            playable(old(self)@),
        ensures
            r is None <==> !(exists|f: int, t: int, p: bool| gen_move(old(self)@, f, t, p)),
            r is None ==> final(self)@ == old(self)@,
            r matches Some(m) ==> m.valid() && gen_move(old(self)@, m.from_idx(), m.to_idx(), m.promo()) && (
                if !leaves_king_attacked(old(self)@, m) {
                    made(old(self)@, m, final(self)@)
                } else {
                    final(self)@ == old(self)@
                }),
    {
        let ghost st = self@;
        let mut ml = MoveList::new();
        self.generate_moves(&mut ml);
        let ghost es = ml.entries();
        let chosen = choose_entry(ml.as_slice(), rng);
        match chosen {
            None => {
                proof {
                    assert forall|f: int, t: int, p: bool| !gen_move(st, f, t, p) by {
                        if gen_move(st, f, t, p) {
                            assert(has_move(es, f, t, p));
                        }
                    }
                }
                None
            },
            Some(entry) => {
                let mov = entry.mov;
                proof {
                    let k = choose|k: int| 0 <= k < es.len() && es[k] == *entry;
                    assert(entry_ok(st, es[k], 0));
                    lemma_gen_makeable(st, mov);
                }
                let _ = self.make_move_simple(mov);
                Some(mov)
            },
        }
    }
}

} // verus!
