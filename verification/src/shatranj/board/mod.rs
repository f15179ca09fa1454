pub mod fen;
pub mod game;
pub mod movegen;
pub mod notation;
pub mod perft;
pub mod rules;
pub mod validation;

use vstd::prelude::*;
use vstd::array::{spec_array_fill_for_copy_type, spec_array_update};

use crate::ext::{update_items, updates_as_slice, updates_new, updates_push};
use crate::lookups::{SIDE_KEY, piece_key};
use crate::makemove::{hash_piece, hash_side};
use crate::shatranj::attacks::{
    alfil_rel, attacks_rel, ferz_rel, knight_rel, lemma_attacks_sym, lemma_pawn_attacked, lemma_pawn_sym,
    lemma_rook_sym, pawn_attacked, pawn_rel, rook_rel,
};
use crate::shatranj::board::movegen::{
    alfil_attacks, attacks_by_type, ferz_attacks, king_attacks, knight_attacks, pawn_attacks, rook_attacks,
    union_attacks,
};
use crate::shatranj::piece::{Colour, Piece, PieceType, piece_char_spec, piece_of};
use crate::shatranj::text::{append_square, piece_str, square_name};
use crate::shatranj::piecelayout::{PieceLayout, Position, Threats, lemma_wf_bits};
use crate::shatranj::shatranjmove::Move;
use crate::shatranj::squareset::{SquareSet, bit, lemma_bit_ext, lemma_bit_zero, lemma_bits_ops, lemma_lowest_bit, popcount};
use crate::shatranj::types::{Square, Undo, lemma_sq_at, pawn_push_idx, sq_at};

verus! {

broadcast use vstd::std_specs::bits::axiom_u64_trailing_zeros;

/// A move seen as a piece going from one square to another.
#[derive(Clone, Copy, Debug)]
pub struct MovedPiece {
    pub from: Square,
    pub to: Square,
    pub piece: Piece,
}

/// Some unmaterialised feature update made as part of a move.
#[derive(Debug, Copy, Clone, PartialEq, Eq)]
pub struct FeatureUpdate {
    pub sq: Square,
    pub piece: Piece,
}

/// The pieces that a move puts on squares and takes off squares.
#[derive(Debug)]
pub struct UpdateBuffer {
    add: arrayvec::ArrayVec<FeatureUpdate, 2>,
    sub: arrayvec::ArrayVec<FeatureUpdate, 2>,
}

impl UpdateBuffer {
    pub closed spec fn added(&self) -> Seq<FeatureUpdate> {
        update_items(self.add)
    }

    pub closed spec fn removed(&self) -> Seq<FeatureUpdate> {
        update_items(self.sub)
    }

    /// An empty buffer.
    pub fn new() -> (r: UpdateBuffer)
        ensures
            r.added() == Seq::<FeatureUpdate>::empty(),
            r.removed() == Seq::<FeatureUpdate>::empty(),
    {
        UpdateBuffer { add: updates_new(), sub: updates_new() }
    }

    pub fn move_piece(&mut self, from: Square, to: Square, piece: Piece)
        requires
            old(self).added().len() < 2,
            old(self).removed().len() < 2,
        ensures
            final(self).added() == old(self).added().push(FeatureUpdate { sq: to, piece }),
            final(self).removed() == old(self).removed().push(FeatureUpdate { sq: from, piece }),
    {
        updates_push(&mut self.add, FeatureUpdate { sq: to, piece });
        updates_push(&mut self.sub, FeatureUpdate { sq: from, piece });
    }

    pub fn clear_piece(&mut self, sq: Square, piece: Piece)
        requires
            old(self).removed().len() < 2,
        ensures
            final(self).added() == old(self).added(),
            final(self).removed() == old(self).removed().push(FeatureUpdate { sq, piece }),
    {
        updates_push(&mut self.sub, FeatureUpdate { sq, piece });
    }

    pub fn add_piece(&mut self, sq: Square, piece: Piece)
        requires
            old(self).added().len() < 2,
        ensures
            final(self).added() == old(self).added().push(FeatureUpdate { sq, piece }),
            final(self).removed() == old(self).removed(),
    {
        updates_push(&mut self.add, FeatureUpdate { sq, piece });
    }

    pub fn adds(&self) -> (r: &[FeatureUpdate])
        ensures
            r@ == self.added(),
    {
        updates_as_slice(&self.add)
    }

    pub fn subs(&self) -> (r: &[FeatureUpdate])
        ensures
            r@ == self.removed(),
    {
        updates_as_slice(&self.sub)
    }
}

impl FeatureUpdate {
    /// The text of the update: the piece's letter, then ` on ` and the square.
    pub fn to_string(&self) -> (r: String)
        ensures
            r@ == seq![piece_char_spec(self.piece) as char] + " on "@ + square_name(self.sq.idx()),
    {
        let mut out = String::from_str(piece_str(self.piece));
        proof {
            reveal_strlit(" on ");
        }
        out.append(" on ");
        append_square(&mut out, self.sq);
        out
    }
}

impl Default for UpdateBuffer {
    fn default() -> (r: UpdateBuffer)
        ensures
            r.added() == Seq::<FeatureUpdate>::empty(),
            r.removed() == Seq::<FeatureUpdate>::empty(),
    {
        UpdateBuffer::new()
    }
}

// ---------------------------------------------------------------------------
// The model of a position.
// ---------------------------------------------------------------------------

/// The bits of the pieces of colour `c` and type `t`.
pub open spec fn bb(l: PieceLayout, c: Colour, t: PieceType) -> u64 {
    l.tbits(t.idx()) & l.cbits(c.idx())
}

/// The occupied squares.
pub open spec fn occ(l: PieceLayout) -> u64 {
    l.cbits(0) | l.cbits(1)
}

/// Some piece of colour `c` and type `t` (not a pawn) attacks `x`.
pub open spec fn type_attacks(l: PieceLayout, c: Colour, t: PieceType, x: int) -> bool {
    exists|s: int| #[trigger] bit(bb(l, c, t), s) && attacks_rel(t, s, x, occ(l))
}

/// Some piece of colour `c` attacks the square `x`.
pub open spec fn attacked_by(l: PieceLayout, c: Colour, x: int) -> bool {
    ||| pawn_attacked(c, bb(l, c, PieceType::Pawn), x)
    ||| type_attacks(l, c, PieceType::Alfil, x)
    ||| type_attacks(l, c, PieceType::Ferz, x)
    ||| type_attacks(l, c, PieceType::Knight, x)
    ||| type_attacks(l, c, PieceType::Rook, x)
    ||| type_attacks(l, c, PieceType::King, x)
}

/// Colour `c` has exactly one king.
pub open spec fn one_king(l: PieceLayout, c: Colour) -> bool {
    let k = bb(l, c, PieceType::King);
    k != 0 && k & ((k - 1) as u64) == 0
}

/// The square of the king of colour `c` (the lowest, should there be several).
pub open spec fn ksq(l: PieceLayout, c: Colour) -> int {
    bb(l, c, PieceType::King).trailing_zeros() as int
}

/// The piece on `s`, of colour `c`, gives check to the other side's king.
pub open spec fn checker(l: PieceLayout, c: Colour, s: int) -> bool {
    let k = ksq(l, c.opp());
    ||| bit(bb(l, c, PieceType::Pawn), s) && pawn_rel(c, s, k)
    ||| bit(bb(l, c, PieceType::Alfil), s) && alfil_rel(s, k)
    ||| bit(bb(l, c, PieceType::Ferz), s) && ferz_rel(s, k)
    ||| bit(bb(l, c, PieceType::Knight), s) && knight_rel(s, k)
    ||| bit(bb(l, c, PieceType::Rook), s) && rook_rel(s, k, occ(l))
}

/// `th` holds exactly the squares that colour `c` attacks, and its pieces that check.
pub open spec fn threats_ok(l: PieceLayout, c: Colour, th: Threats) -> bool {
    &&& forall|x: int| #[trigger] bit(th.all.inner, x) <==> attacked_by(l, c, x)
    &&& forall|s: int| #[trigger] bit(th.checkers.inner, s) <==> checker(l, c, s)
}

/// Which of the five Zobrist keys a piece feeds: 0 the full key, 1 the pawn
/// key, 2 and 3 the white and black non-pawn keys, 4 the minor key, 5 the major key.
pub open spec fn in_class(cls: int, p: Piece) -> bool {
    let t = p.type_spec();
    if cls == 0 {
        true
    } else if cls == 1 {
        t == PieceType::Pawn
    } else if cls == 2 {
        t != PieceType::Pawn && p.colour_spec() == Colour::White
    } else if cls == 3 {
        t != PieceType::Pawn && p.colour_spec() == Colour::Black
    } else if cls == 4 {
        t == PieceType::Alfil || t == PieceType::Knight || t == PieceType::King
    } else {
        t == PieceType::Ferz || t == PieceType::Rook || t == PieceType::King
    }
}

/// What the occupant of square `i` adds to key `cls`.
pub open spec fn piece_term(o: Option<Piece>, cls: int, i: int) -> u64 {
    match o {
        Some(p) => if in_class(cls, p) { piece_key(p, i) } else { 0 },
        None => 0,
    }
}

/// Key `cls` of the first `n` squares of `pos`.
pub open spec fn fold_key(pos: Position, cls: int, n: int) -> u64
    decreases n,
{
    if n <= 0 {
        0
    } else {
        fold_key(pos, cls, n - 1) ^ piece_term(pos[n - 1], cls, n - 1)
    }
}

pub open spec fn side_term(side: Colour) -> u64 {
    if side == Colour::White { SIDE_KEY } else { 0 }
}

/// The full Zobrist key of a position with `side` to move.
pub open spec fn full_key(pos: Position, side: Colour) -> u64 {
    fold_key(pos, 0, 64) ^ side_term(side)
}

/// The state of a board, seen from outside.
pub struct BoardState {
    pub pieces: PieceLayout,
    pub piece_array: [Option<Piece>; 64],
    pub side: Colour,
    pub seventy_move_counter: u8,
    pub ply: usize,
    pub key: u64,
    pub pawn_key: u64,
    pub non_pawn_key: [u64; 2],
    pub minor_key: u64,
    pub major_key: u64,
    pub threats: Threats,
    pub height: usize,
    pub history: Seq<Undo>,
}

impl BoardState {
    pub open spec fn pos(self) -> Position {
        self.piece_array@
    }

    pub open spec fn keys_ok(self) -> bool {
        &&& self.key == full_key(self.pos(), self.side)
        &&& self.pawn_key == fold_key(self.pos(), 1, 64)
        &&& self.non_pawn_key@[0] == fold_key(self.pos(), 2, 64)
        &&& self.non_pawn_key@[1] == fold_key(self.pos(), 3, 64)
        &&& self.minor_key == fold_key(self.pos(), 4, 64)
        &&& self.major_key == fold_key(self.pos(), 5, 64)
    }

    /// A consistent board: square-sets and piece array agree, each side has
    /// one king, the keys are those of the position, and the threats are
    /// those of the side not to move.
    pub open spec fn wf(self) -> bool {
        &&& self.pieces.matches(self.pos())
        &&& one_king(self.pieces, Colour::White)
        &&& one_king(self.pieces, Colour::Black)
        &&& self.keys_ok()
        &&& threats_ok(self.pieces, self.side.opp(), self.threats)
    }
}

/// A shatranj position, with the history needed to unmake moves.
#[derive(Clone, Debug, PartialEq, Eq)]
pub struct Board {
    /// The square-sets of all the pieces on the board.
    pub pieces: PieceLayout,
    /// An array to accelerate `Board::piece_at()`.
    pub piece_array: [Option<Piece>; 64],
    /// The side to move.
    side: Colour,
    /// The number of half moves made since the last capture or pawn advance.
    seventy_move_counter: u8,
    /// The number of half moves made since the start of the game.
    ply: usize,
    /// The Zobrist hash of the board.
    key: u64,
    /// The Zobrist hash of the pawns on the board.
    pawn_key: u64,
    /// The Zobrist hash of the non-pawns on the board, split by side.
    non_pawn_key: [u64; 2],
    /// The Zobrist hash of the minor pieces on the board.
    minor_key: u64,
    /// The Zobrist hash of the major pieces on the board.
    major_key: u64,
    /// Squares that the opponent attacks.
    threats: Threats,
    height: usize,
    history: Vec<Undo>,
}

pub proof fn lemma_one_king(l: PieceLayout, c: Colour)
    requires
        one_king(l, c),
    ensures
        0 <= ksq(l, c) < 64,
        forall|s: int| #[trigger] bit(bb(l, c, PieceType::King), s) <==> s == ksq(l, c),
{
    let k = bb(l, c, PieceType::King);
    lemma_lowest_bit(k);
    assert forall|s: int| #[trigger] bit(bb(l, c, PieceType::King), s) <==> s == ksq(l, c) by {
        lemma_bit_zero(s);
        assert(bit(k & ((k - 1) as u64), s) == (bit(k, s) && s != k.trailing_zeros()));
    }
}

impl Board {
    pub closed spec fn view(&self) -> BoardState {
        BoardState {
            pieces: self.pieces,
            piece_array: self.piece_array,
            side: self.side,
            seventy_move_counter: self.seventy_move_counter,
            ply: self.ply,
            key: self.key,
            pawn_key: self.pawn_key,
            non_pawn_key: self.non_pawn_key,
            minor_key: self.minor_key,
            major_key: self.major_key,
            threats: self.threats,
            height: self.height,
            history: self.history@,
        }
    }

    pub open spec fn wf(&self) -> bool {
        self@.wf()
    }

    /// An empty board, white to move.
    pub fn new() -> (r: Board)
        ensures
            r@.pieces.matches(Seq::new(64, |i: int| None::<Piece>)),
            r@.pos() == Seq::new(64, |i: int| None::<Piece>),
            r@.side == Colour::White,
            r@.seventy_move_counter == 0,
            r@.height == 0,
            r@.ply == 0,
            r@.key == 0,
            r@.pawn_key == 0,
            r@.non_pawn_key@ == seq![0u64, 0u64],
            r@.minor_key == 0,
            r@.major_key == 0,
            r@.threats.all.inner == 0,
            r@.threats.checkers.inner == 0,
            r@.history.len() == 0,
    {
        let mut out = Board {
            pieces: PieceLayout::null(),
            piece_array: [None; 64],
            side: Colour::White,
            seventy_move_counter: 0,
            height: 0,
            ply: 0,
            key: 0,
            pawn_key: 0,
            non_pawn_key: [0; 2],
            minor_key: 0,
            major_key: 0,
            threats: Threats::empty(),
            history: Vec::new(),
        };
        out.reset();
        proof {
            assert(out@.non_pawn_key@ =~= seq![0u64, 0u64]);
        }
        out
    }

    /// Empties the board.
    pub fn reset(&mut self)
        ensures
            final(self)@.pieces.matches(Seq::new(64, |i: int| None::<Piece>)),
            final(self)@.pos() == Seq::new(64, |i: int| None::<Piece>),
            final(self)@.side == Colour::White,
            final(self)@.seventy_move_counter == 0,
            final(self)@.height == 0,
            final(self)@.ply == 0,
            final(self)@.key == 0,
            final(self)@.pawn_key == 0,
            final(self)@.non_pawn_key == old(self)@.non_pawn_key,
            final(self)@.minor_key == old(self)@.minor_key,
            final(self)@.major_key == old(self)@.major_key,
            final(self)@.threats.all.inner == 0,
            final(self)@.threats.checkers.inner == 0,
            final(self)@.history.len() == 0,
    {
        self.pieces.reset();
        self.piece_array = [None; 64];
        self.side = Colour::White;
        self.seventy_move_counter = 0;
        self.height = 0;
        self.ply = 0;
        self.key = 0;
        self.pawn_key = 0;
        self.threats = Threats::empty();
        self.history.clear();
        assert(self.piece_array@ =~= Seq::new(64, |i: int| None::<Piece>));
    }

    /// The side to move, to be changed in place.
    pub fn turn_mut(&mut self) -> (r: &mut Colour)
        ensures
            *r == old(self)@.side,
            final(self)@ == (BoardState { side: *final(r), ..old(self)@ }),
    {
        &mut self.side
    }

    /// The halfmove clock, to be changed in place.
    pub fn halfmove_clock_mut(&mut self) -> (r: &mut u8)
        ensures
            *r == old(self)@.seventy_move_counter,
            final(self)@ == (BoardState { seventy_move_counter: *final(r), ..old(self)@ }),
    {
        &mut self.seventy_move_counter
    }

    /// The piece-array entry of `sq`, to be changed in place; the square-sets
    /// are left as they are.
    pub fn piece_at_mut(&mut self, sq: Square) -> (r: &mut Option<Piece>)
        ensures
            *r == old(self)@.pos()[sq.idx()],
            final(self)@.pos() == old(self)@.pos().update(sq.idx(), *final(r)),
            final(self)@ == (BoardState { piece_array: final(self)@.piece_array, ..old(self)@ }),
    {
        &mut self.piece_array[sq.index()]
    }

    pub fn set_fullmove_clock(&mut self, fullmove_clock: u16)
        requires
            fullmove_clock >= 1,
        ensures
            final(self)@ == (BoardState { ply: ((fullmove_clock - 1) * 2 + if old(self)@.side == Colour::Black { 1int } else { 0 }) as usize, ..old(self)@ }),
    {
        self.ply = (fullmove_clock as usize - 1) * 2 + if self.side == Colour::Black { 1 } else { 0 };
    }

    pub fn zobrist_key(&self) -> (r: u64)
        ensures
            r == self@.key,
    {
        self.key
    }

    pub fn pawn_key(&self) -> (r: u64)
        ensures
            r == self@.pawn_key,
    {
        self.pawn_key
    }

    pub fn non_pawn_key(&self, colour: Colour) -> (r: u64)
        ensures
            r == self@.non_pawn_key@[colour.idx()],
    {
        self.non_pawn_key[colour.index()]
    }

    pub fn minor_key(&self) -> (r: u64)
        ensures
            r == self@.minor_key,
    {
        self.minor_key
    }

    pub fn major_key(&self) -> (r: u64)
        ensures
            r == self@.major_key,
    {
        self.major_key
    }

    /// All five keys: full, pawn, non-pawn by side, minor, major.
    pub fn all_keys(&self) -> (r: (u64, u64, [u64; 2], u64, u64))
        ensures
            r.0 == self@.key,
            r.1 == self@.pawn_key,
            r.2 == self@.non_pawn_key,
            r.3 == self@.minor_key,
            r.4 == self@.major_key,
    {
        (self.key, self.pawn_key, self.non_pawn_key, self.minor_key, self.major_key)
    }

    /// The eight bitboards of the packed training format: white's pieces,
    /// black's pieces, then the pawns, alfils, ferzes, knights, rooks and kings
    /// of both sides.
    pub fn bulletformat_bitboards(&self) -> (r: [u64; 8])
        ensures
            r@ == seq![
                self@.pieces.cbits(0), self@.pieces.cbits(1),
                self@.pieces.tbits(0), self@.pieces.tbits(1), self@.pieces.tbits(2),
                self@.pieces.tbits(3), self@.pieces.tbits(4), self@.pieces.tbits(5),
            ],
    {
        let layout = &self.pieces;
        let bbs = [
            layout.occupied_co(Colour::White).inner(),
            layout.occupied_co(Colour::Black).inner(),
            layout.of_type(PieceType::Pawn).inner(),
            layout.of_type(PieceType::Alfil).inner(),
            layout.of_type(PieceType::Ferz).inner(),
            layout.of_type(PieceType::Knight).inner(),
            layout.of_type(PieceType::Rook).inner(),
            layout.of_type(PieceType::King).inner(),
        ];
        proof {
            assert(bbs@ =~= seq![
                self@.pieces.cbits(0), self@.pieces.cbits(1),
                self@.pieces.tbits(0), self@.pieces.tbits(1), self@.pieces.tbits(2),
                self@.pieces.tbits(3), self@.pieces.tbits(4), self@.pieces.tbits(5),
            ]);
        }
        bbs
    }

    /// The number of pieces on the board.
    pub fn n_men(&self) -> (r: u8)
        ensures
            r == popcount(occ(self@.pieces)),
    {
        self.pieces.occupied().count() as u8
    }

    pub fn ply(&self) -> (r: usize)
        ensures
            r == self@.ply,
    {
        self.ply
    }

    pub fn threats(&self) -> (r: &Threats)
        ensures
            *r == self@.threats,
    {
        &self.threats
    }

    /// The square of the king of `side`.
    pub fn king_sq(&self, side: Colour) -> (r: Square)
        requires
            one_king(self@.pieces, side),
        ensures
            r.idx() == ksq(self@.pieces, side),
            bit(bb(self@.pieces, side, PieceType::King), r.idx()),
    {
        proof {
            lemma_one_king(self.pieces, side);
        }
        self.pieces.of(side, PieceType::King).first()
    }

    pub fn in_check(&self) -> (r: bool)
        ensures
            r == (self@.threats.checkers.inner != 0),
    {
        self.threats.checkers.non_empty()
    }

    pub fn zero_height(&mut self)
        ensures
            final(self)@ == (BoardState { height: 0, ..old(self)@ }),
    {
        self.height = 0;
    }

    pub fn height(&self) -> (r: usize)
        ensures
            r == self@.height,
    {
        self.height
    }

    pub fn turn(&self) -> (r: Colour)
        ensures
            r == self@.side,
    {
        self.side
    }

    pub fn seventy_move_counter(&self) -> (r: u8)
        ensures
            r == self@.seventy_move_counter,
    {
        self.seventy_move_counter
    }

    pub fn full_move_number(&self) -> (r: usize)
        ensures
            r == self@.ply / 2 + 1,
    {
        self.ply / 2 + 1
    }
}


pub proof fn lemma_xor_facts(x: u64, a: u64, b: u64, t: u64)
    by (bit_vector)
    ensures
        x ^ 0u64 == x,
        (x ^ a) ^ a == x,
        ((x ^ a) ^ b) ^ t == ((x ^ t) ^ a) ^ b,
        (x ^ a) ^ b == (x ^ b) ^ a,
        x ^ a == a ^ x,
{
}

/// Changing one square changes each key by the old and the new occupant's terms.
pub proof fn lemma_fold_update(pos: Position, cls: int, k: int, v: Option<Piece>, n: int)
    requires
        0 <= k < pos.len(),
        0 <= n <= pos.len(),
    ensures
        fold_key(pos.update(k, v), cls, n) == if k < n {
            (fold_key(pos, cls, n) ^ piece_term(pos[k], cls, k)) ^ piece_term(v, cls, k)
        } else {
            fold_key(pos, cls, n)
        },
    decreases n,
{
    if n > 0 {
        lemma_fold_update(pos, cls, k, v, n - 1);
        let f = fold_key(pos, cls, n - 1);
        let a = piece_term(pos[k], cls, k);
        let b = piece_term(v, cls, k);
        let t = piece_term(pos[n - 1], cls, n - 1);
        lemma_xor_facts(f, a, b, t);
        lemma_xor_facts(f, t, b, a);
        if k == n - 1 {
            assert(pos.update(k, v)[n - 1] == v);
        } else {
            assert(pos.update(k, v)[n - 1] == pos[n - 1]);
        }
    }
}

/// Two positions that agree on every square have the same keys.
pub proof fn lemma_fold_ext(a: Position, b: Position, cls: int, n: int)
    requires
        forall|i: int| 0 <= i < n ==> a[i] == b[i],
    ensures
        fold_key(a, cls, n) == fold_key(b, cls, n),
    decreases n,
{
    if n > 0 {
        lemma_fold_ext(a, b, cls, n - 1);
    }
}

proof fn lemma_union_is_type_attacks(l: PieceLayout, c: Colour, t: PieceType, set: u64, o: u64, r: u64, x: int)
    requires
        set == bb(l, c, t),
        o == occ(l),
        forall|y: int| #[trigger] bit(r, y) <==> exists|s: int| #[trigger] bit(set, s) && attacks_rel(t, s, y, o),
    ensures
        bit(r, x) == type_attacks(l, c, t, x),
{
    if bit(r, x) {
        let s = choose|s: int| #[trigger] bit(set, s) && attacks_rel(t, s, x, o);
        assert(bit(bb(l, c, t), s) && attacks_rel(t, s, x, occ(l)));
    }
    if type_attacks(l, c, t, x) {
        let s = choose|s: int| #[trigger] bit(bb(l, c, t), s) && attacks_rel(t, s, x, occ(l));
        assert(bit(set, s) && attacks_rel(t, s, x, o));
    }
}

/// Toggles `piece` on `sq` in each of the keys whose class it belongs to.
fn hash_into(
    key: &mut u64,
    pawn_key: &mut u64,
    non_pawn_key: &mut [u64; 2],
    minor_key: &mut u64,
    major_key: &mut u64,
    piece: Piece,
    sq: Square,
)
    ensures
        *final(key) == *old(key) ^ piece_term(Some(piece), 0, sq.idx()),
        *final(pawn_key) == *old(pawn_key) ^ piece_term(Some(piece), 1, sq.idx()),
        final(non_pawn_key)@[0] == old(non_pawn_key)@[0] ^ piece_term(Some(piece), 2, sq.idx()),
        final(non_pawn_key)@[1] == old(non_pawn_key)@[1] ^ piece_term(Some(piece), 3, sq.idx()),
        *final(minor_key) == *old(minor_key) ^ piece_term(Some(piece), 4, sq.idx()),
        *final(major_key) == *old(major_key) ^ piece_term(Some(piece), 5, sq.idx()),
{
    proof {
        lemma_xor_facts(*key, 0, 0, 0);
        lemma_xor_facts(*pawn_key, 0, 0, 0);
        lemma_xor_facts(non_pawn_key@[0], 0, 0, 0);
        lemma_xor_facts(non_pawn_key@[1], 0, 0, 0);
        lemma_xor_facts(*minor_key, 0, 0, 0);
        lemma_xor_facts(*major_key, 0, 0, 0);
    }
    hash_piece(key, piece, sq);
    let pt = piece.piece_type();
    if pt == PieceType::Pawn {
        hash_piece(pawn_key, piece, sq);
    } else {
        let c = piece.colour().index();
        let mut k = non_pawn_key[c];
        hash_piece(&mut k, piece, sq);
        non_pawn_key[c] = k;
        if pt == PieceType::King {
            hash_piece(major_key, piece, sq);
            hash_piece(minor_key, piece, sq);
        } else if pt == PieceType::Ferz || pt == PieceType::Rook {
            hash_piece(major_key, piece, sq);
        } else {
            hash_piece(minor_key, piece, sq);
        }
    }
}

impl Board {
    /// The five keys computed afresh from the square-sets and the side to move.
    pub fn generate_pos_keys(&self) -> (r: (u64, u64, [u64; 2], u64, u64))
        ensures
            r.0 == full_key(self@.pieces.pos(), self@.side),
            r.1 == fold_key(self@.pieces.pos(), 1, 64),
            r.2@[0] == fold_key(self@.pieces.pos(), 2, 64),
            r.2@[1] == fold_key(self@.pieces.pos(), 3, 64),
            r.3 == fold_key(self@.pieces.pos(), 4, 64),
            r.4 == fold_key(self@.pieces.pos(), 5, 64),
    {
        let ghost pos = self.pieces.pos();
        let mut key: u64 = 0;
        let mut pawn_key: u64 = 0;
        let mut non_pawn_key: [u64; 2] = [0; 2];
        let mut minor_key: u64 = 0;
        let mut major_key: u64 = 0;
        let mut i: u8 = 0;
        while i < 64
            invariant
                i <= 64,
                pos == self.pieces.pos(),
                key == fold_key(pos, 0, i as int),
                pawn_key == fold_key(pos, 1, i as int),
                non_pawn_key@[0] == fold_key(pos, 2, i as int),
                non_pawn_key@[1] == fold_key(pos, 3, i as int),
                minor_key == fold_key(pos, 4, i as int),
                major_key == fold_key(pos, 5, i as int),
            decreases 64 - i,
        {
            let sq = Square::from_index(i);
            match self.pieces.piece_at(sq) {
                Some(piece) => {
                    hash_into(&mut key, &mut pawn_key, &mut non_pawn_key, &mut minor_key, &mut major_key, piece, sq);
                },
                None => {
                    proof {
                        lemma_xor_facts(key, 0, 0, 0);
                        lemma_xor_facts(pawn_key, 0, 0, 0);
                        lemma_xor_facts(non_pawn_key@[0], 0, 0, 0);
                        lemma_xor_facts(non_pawn_key@[1], 0, 0, 0);
                        lemma_xor_facts(minor_key, 0, 0, 0);
                        lemma_xor_facts(major_key, 0, 0, 0);
                    }
                },
            }
            i = i + 1;
        }
        if self.side == Colour::White {
            hash_side(&mut key);
        } else {
            proof {
                lemma_xor_facts(key, 0, 0, 0);
            }
        }
        (key, pawn_key, non_pawn_key, minor_key, major_key)
    }

    /// Recomputes the five keys from the square-sets.
    pub fn regenerate_zobrist(&mut self)
        ensures
            final(self)@ == (BoardState {
                key: full_key(old(self)@.pieces.pos(), old(self)@.side),
                pawn_key: fold_key(old(self)@.pieces.pos(), 1, 64),
                non_pawn_key: final(self)@.non_pawn_key,
                minor_key: fold_key(old(self)@.pieces.pos(), 4, 64),
                major_key: fold_key(old(self)@.pieces.pos(), 5, 64),
                ..old(self)@
            }),
            final(self)@.non_pawn_key@[0] == fold_key(old(self)@.pieces.pos(), 2, 64),
            final(self)@.non_pawn_key@[1] == fold_key(old(self)@.pieces.pos(), 3, 64),
    {
        let (key, pawn_key, non_pawn_key, minor_key, major_key) = self.generate_pos_keys();
        self.key = key;
        self.pawn_key = pawn_key;
        self.non_pawn_key = non_pawn_key;
        self.minor_key = minor_key;
        self.major_key = major_key;
    }

    /// The squares attacked by `c`, and those of its pieces that check the other king.
    pub fn generate_threats_from(&self, c: Colour) -> (r: Threats)
        requires
            one_king(self@.pieces, Colour::White),
            one_king(self@.pieces, Colour::Black),
        ensures
            threats_ok(self@.pieces, c, r),
    {
        let l = self.pieces;
        let their_pawns = l.of(c, PieceType::Pawn);
        let their_alfils = l.of(c, PieceType::Alfil);
        let their_ferzes = l.of(c, PieceType::Ferz);
        let their_knights = l.of(c, PieceType::Knight);
        let their_rooks = l.of(c, PieceType::Rook);
        let their_king = self.king_sq(c);
        let blockers = l.occupied();

        // threats
        let t_pawn = pawn_attacks(c, their_pawns);
        let t_alfil = union_attacks(PieceType::Alfil, their_alfils, blockers);
        let t_ferz = union_attacks(PieceType::Ferz, their_ferzes, blockers);
        let t_knight = union_attacks(PieceType::Knight, their_knights, blockers);
        let t_rook = union_attacks(PieceType::Rook, their_rooks, blockers);
        let t_king = king_attacks(their_king);
        let threats = t_pawn | t_alfil | t_ferz | t_knight | t_rook | t_king;

        // checkers
        let our_king = self.king_sq(c.flip());
        let king_bb = our_king.as_set();
        let backwards_from_king = pawn_attacks(c.flip(), king_bb);
        let c_pawn = backwards_from_king & their_pawns;
        let a_alfil = alfil_attacks(our_king);
        let a_ferz = ferz_attacks(our_king);
        let a_knight = knight_attacks(our_king);
        let a_rook = rook_attacks(our_king, blockers);
        let c_alfil = a_alfil & their_alfils;
        let c_ferz = a_ferz & their_ferzes;
        let c_knight = a_knight & their_knights;
        let c_rook = a_rook & their_rooks;
        let checkers = c_pawn | c_alfil | c_ferz | c_knight | c_rook;

        proof {
            lemma_one_king(l, c);
            lemma_one_king(l, c.opp());
            assert forall|x: int| #[trigger] bit(threats.inner, x) <==> attacked_by(l, c, x) by {
                lemma_bits_ops(t_pawn.inner, t_alfil.inner);
                lemma_bits_ops(t_pawn.inner | t_alfil.inner, t_ferz.inner);
                lemma_bits_ops(t_pawn.inner | t_alfil.inner | t_ferz.inner, t_knight.inner);
                lemma_bits_ops(t_pawn.inner | t_alfil.inner | t_ferz.inner | t_knight.inner, t_rook.inner);
                lemma_bits_ops(t_pawn.inner | t_alfil.inner | t_ferz.inner | t_knight.inner | t_rook.inner, t_king.inner);
                if type_attacks(l, c, PieceType::King, x) {
                    let s = choose|s: int| #[trigger] bit(bb(l, c, PieceType::King), s) && attacks_rel(PieceType::King, s, x, occ(l));
                    assert(s == ksq(l, c));
                }
                if bit(t_king.inner, x) {
                    assert(bit(bb(l, c, PieceType::King), ksq(l, c)));
                }
                assert(bit(t_pawn.inner, x) == pawn_attacked(c, bb(l, c, PieceType::Pawn), x));
                lemma_union_is_type_attacks(l, c, PieceType::Alfil, their_alfils.inner, blockers.inner, t_alfil.inner, x);
                lemma_union_is_type_attacks(l, c, PieceType::Ferz, their_ferzes.inner, blockers.inner, t_ferz.inner, x);
                lemma_union_is_type_attacks(l, c, PieceType::Knight, their_knights.inner, blockers.inner, t_knight.inner, x);
                lemma_union_is_type_attacks(l, c, PieceType::Rook, their_rooks.inner, blockers.inner, t_rook.inner, x);
                assert(bit(t_king.inner, x) == type_attacks(l, c, PieceType::King, x));
            }
            let k = our_king.idx();
            assert forall|s: int| #[trigger] bit(checkers.inner, s) <==> checker(l, c, s) by {
                lemma_bits_ops(c_pawn.inner, c_alfil.inner);
                lemma_bits_ops(c_pawn.inner | c_alfil.inner, c_ferz.inner);
                lemma_bits_ops(c_pawn.inner | c_alfil.inner | c_ferz.inner, c_knight.inner);
                lemma_bits_ops(c_pawn.inner | c_alfil.inner | c_ferz.inner | c_knight.inner, c_rook.inner);
                lemma_bits_ops(backwards_from_king.inner, their_pawns.inner);
                lemma_bits_ops(a_alfil.inner, their_alfils.inner);
                lemma_bits_ops(a_ferz.inner, their_ferzes.inner);
                lemma_bits_ops(a_knight.inner, their_knights.inner);
                lemma_bits_ops(a_rook.inner, their_rooks.inner);
                lemma_pawn_attacked(c.opp(), king_bb.inner, s);
                lemma_pawn_sym(c, s, k);
                if bit(backwards_from_king.inner, s) {
                    let t = choose|t: int| #[trigger] bit(king_bb.inner, t) && pawn_rel(c.opp(), t, s);
                    assert(t == k);
                }
                if pawn_rel(c, s, k) {
                    assert(bit(king_bb.inner, k) && pawn_rel(c.opp(), k, s));
                }
                lemma_attacks_sym(PieceType::Alfil, s, k, occ(l));
                lemma_attacks_sym(PieceType::Ferz, s, k, occ(l));
                lemma_attacks_sym(PieceType::Knight, s, k, occ(l));
                lemma_rook_sym(s, k, occ(l));
            }
        }
        Threats { all: threats, checkers }
    }

    /// The threats of `side`.
    pub fn generate_threats(&self, side: Colour) -> (r: Threats)
        requires
            one_king(self@.pieces, Colour::White),
            one_king(self@.pieces, Colour::Black),
        ensures
            threats_ok(self@.pieces, side, r),
    {
        self.generate_threats_from(side)
    }

    /// Recomputes the threats of the side not to move.
    pub fn regenerate_threats(&mut self)
        requires
            one_king(old(self)@.pieces, Colour::White),
            one_king(old(self)@.pieces, Colour::Black),
        ensures
            final(self)@ == (BoardState { threats: final(self)@.threats, ..old(self)@ }),
            threats_ok(old(self)@.pieces, old(self)@.side.opp(), final(self)@.threats),
    {
        self.threats = self.generate_threats(self.side.flip());
    }
}


/// A move is pseudo-legal: it moves a piece of the side to move as that piece
/// moves, onto a square not held by its own side, and it is flagged as a
/// promotion exactly when a pawn reaches the last rank; it may leave its king
/// attacked.
pub open spec fn pseudo_legal(st: BoardState, m: Move) -> bool {
    let f = m.from_idx();
    let t = m.to_idx();
    let pos = st.pos();
    match pos[f] {
        None => false,
        Some(p) => {
            &&& p.colour_spec() == st.side
            &&& !(pos[t] is Some && pos[t]->0.colour_spec() == st.side)
            &&& p.type_spec() != PieceType::Pawn ==> !m.promo() && attacks_rel(p.type_spec(), f, t, occ(st.pieces))
            &&& p.type_spec() == PieceType::Pawn ==> {
                &&& m.promo() <==> (t > 55 || t < 8)
                &&& pos[t] is None ==> pawn_push_idx(f, st.side) == Some(t)
                &&& pos[t] is Some ==> pawn_rel(st.side, f, t)
            }
        },
    }
}

proof fn lemma_reverse_attacks(l: PieceLayout, c: Colour, t: PieceType, ours: u64, att: u64, sq: int)
    requires
        t != PieceType::Pawn,
        ours == bb(l, c, t),
        forall|i: int| #[trigger] bit(att, i) <==> attacks_rel(t, sq, i, occ(l)),
    ensures
        (ours & att != 0) == type_attacks(l, c, t, sq),
{
    lemma_bits_ops(ours, att);
    if ours & att != 0 {
        lemma_lowest_bit(ours & att);
        let s = (ours & att).trailing_zeros() as int;
        assert(bit(ours & att, s));
        lemma_attacks_sym(t, sq, s, occ(l));
        assert(bit(bb(l, c, t), s) && attacks_rel(t, s, sq, occ(l)));
    }
    if type_attacks(l, c, t, sq) {
        let s = choose|s: int| #[trigger] bit(bb(l, c, t), s) && attacks_rel(t, s, sq, occ(l));
        lemma_attacks_sym(t, sq, s, occ(l));
        assert(bit(ours & att, s));
        lemma_bit_zero(s);
    }
}

impl Board {
    /// Whether `sq` is attacked by a piece of colour `c`.
    pub fn sq_attacked_by(&self, sq: Square, c: Colour) -> (r: bool)
        requires
            c == self@.side.opp() ==> threats_ok(self@.pieces, c, self@.threats),
        ensures
            r == attacked_by(self@.pieces, c, sq.idx()),
    {
        if c == self.side.flip() {
            return self.threats.all.contains_square(sq);
        }
        let l = self.pieces;
        let sq_bb = sq.as_set();
        let our_pawns = l.of(c, PieceType::Pawn);
        let our_alfils = l.of(c, PieceType::Alfil);
        let our_ferzes = l.of(c, PieceType::Ferz);
        let our_knights = l.of(c, PieceType::Knight);
        let our_rooks = l.of(c, PieceType::Rook);
        let our_king = l.of(c, PieceType::King);
        let blockers = l.occupied();
        let ghost i = sq.idx();

        // pawns
        let attacks = pawn_attacks(c, our_pawns);
        proof {
            lemma_bits_ops(attacks.inner, sq_bb.inner);
            if attacks.inner & sq_bb.inner != 0 {
                lemma_lowest_bit(attacks.inner & sq_bb.inner);
            }
            lemma_bit_zero(i);
        }
        if (attacks & sq_bb).non_empty() {
            return true;
        }
        // alfils
        let a = alfil_attacks(sq);
        proof { lemma_reverse_attacks(l, c, PieceType::Alfil, our_alfils.inner, a.inner, i); }
        if (our_alfils & a).non_empty() {
            return true;
        }
        // ferzes
        let a = ferz_attacks(sq);
        proof { lemma_reverse_attacks(l, c, PieceType::Ferz, our_ferzes.inner, a.inner, i); }
        if (our_ferzes & a).non_empty() {
            return true;
        }
        // knights
        let a = knight_attacks(sq);
        proof { lemma_reverse_attacks(l, c, PieceType::Knight, our_knights.inner, a.inner, i); }
        if (our_knights & a).non_empty() {
            return true;
        }
        // rooks
        let a = rook_attacks(sq, blockers);
        proof { lemma_reverse_attacks(l, c, PieceType::Rook, our_rooks.inner, a.inner, i); }
        if (our_rooks & a).non_empty() {
            return true;
        }
        // king
        let a = king_attacks(sq);
        proof { lemma_reverse_attacks(l, c, PieceType::King, our_king.inner, a.inner, i); }
        if (our_king & a).non_empty() {
            return true;
        }
        false
    }

    /// Determines if `sq` is attacked by `side`.
    pub fn sq_attacked(&self, sq: Square, side: Colour) -> (r: bool)
        requires
            side == self@.side.opp() ==> threats_ok(self@.pieces, side, self@.threats),
        ensures
            r == attacked_by(self@.pieces, side, sq.idx()),
    {
        self.sq_attacked_by(sq, side)
    }

    /// Whether any square of `squares` is attacked by `by`.
    pub fn any_attacked(&self, squares: SquareSet, by: Colour) -> (r: bool)
        requires
            by == self@.side.opp() ==> threats_ok(self@.pieces, by, self@.threats),
        ensures
            r == exists|x: int| #[trigger] bit(squares.inner, x) && attacked_by(self@.pieces, by, x),
    {
        if by == self.side.flip() {
            proof {
                lemma_bits_ops(squares.inner, self.threats.all.inner);
                if squares.inner & self.threats.all.inner != 0 {
                    lemma_lowest_bit(squares.inner & self.threats.all.inner);
                    let x = (squares.inner & self.threats.all.inner).trailing_zeros() as int;
                    assert(bit(squares.inner, x) && attacked_by(self@.pieces, by, x));
                }
                if exists|x: int| #[trigger] bit(squares.inner, x) && attacked_by(self@.pieces, by, x) {
                    let x = choose|x: int| #[trigger] bit(squares.inner, x) && attacked_by(self@.pieces, by, x);
                    assert(bit(squares.inner & self.threats.all.inner, x));
                    lemma_bit_zero(x);
                }
            }
            (squares & self.threats.all).non_empty()
        } else {
            let mut rem = squares;
            while rem.non_empty()
                invariant
                    by == self@.side.opp() ==> threats_ok(self@.pieces, by, self@.threats),
                    forall|s: int| #[trigger] bit(rem.inner, s) ==> bit(squares.inner, s),
                    forall|s: int| #[trigger] bit(squares.inner, s) && !bit(rem.inner, s) ==> !attacked_by(self@.pieces, by, s),
                decreases rem.inner,
            {
                let sq = rem.first();
                if self.sq_attacked(sq, by) {
                    return true;
                }
                let next = rem.without_first();
                proof {
                    let x0 = rem.inner;
                    assert(x0 != 0 ==> (x0 & ((x0 - 1u64) as u64)) < x0) by (bit_vector);
                }
                rem = next;
            }
            proof {
                assert forall|s: int| #[trigger] bit(squares.inner, s) implies !attacked_by(self@.pieces, by, s) by {
                    assert(!bit(rem.inner, s));
                }
            }
            false
        }
    }

    /// Checks whether a move is pseudo-legal: legal, except that it might
    /// leave the king in check.
    pub fn is_pseudo_legal(&self, m: Move) -> (r: bool)
        requires
            self@.pieces.matches(self@.pos()),
        ensures
            r == pseudo_legal(self@, m),
    {
        let from = m.from();
        let to = m.to();
        let moved_piece = self.piece_at(from);
        let captured_piece = self.piece_at(to);
        let moved_piece = match moved_piece {
            Some(p) => p,
            None => {
                return false;
            },
        };
        if moved_piece.colour() != self.side {
            return false;
        }
        if let Some(captured_piece) = captured_piece {
            if captured_piece.colour() == self.side {
                return false;
            }
        }
        if moved_piece.piece_type() != PieceType::Pawn && m.is_promo() {
            return false;
        }
        if moved_piece.piece_type() == PieceType::Pawn {
            let should_be_promoting = to.index() > 55 || to.index() < 8;
            if should_be_promoting != m.is_promo() {
                return false;
            }
            if captured_piece.is_none() {
                return match from.pawn_push(self.side) {
                    Some(s) => s == to,
                    None => false,
                };
            }
            let from_bb = from.as_set();
            let to_bb = to.as_set();
            let pa = pawn_attacks(self.side, from_bb);
            proof {
                lemma_bits_ops(pa.inner, to_bb.inner);
                lemma_pawn_attacked(self.side, from_bb.inner, to.idx());
                if pawn_attacked(self.side, from_bb.inner, to.idx()) {
                    let s = choose|s: int| #[trigger] bit(from_bb.inner, s) && pawn_rel(self.side, s, to.idx());
                    assert(s == from.idx());
                }
                if pawn_rel(self.side, from.idx(), to.idx()) {
                    assert(bit(from_bb.inner, from.idx()));
                }
                if pa.inner & to_bb.inner != 0 {
                    lemma_lowest_bit(pa.inner & to_bb.inner);
                }
                lemma_bit_zero(to.idx());
            }
            return (pa & to_bb).non_empty();
        }
        let att = attacks_by_type(moved_piece.piece_type(), from, self.pieces.occupied());
        let to_bb = to.as_set();
        proof {
            lemma_bits_ops(to_bb.inner, att.inner);
            if to_bb.inner & att.inner != 0 {
                lemma_lowest_bit(to_bb.inner & att.inner);
            }
            lemma_bit_zero(to.idx());
        }
        (to_bb & att).non_empty()
    }

    /// Puts `piece` on `sq` in the square-sets and the piece array, leaving
    /// the keys and the threats as they were. The bit of `sq` is set in the
    /// sets of the piece's type and colour; only when the square was empty or
    /// held `piece` already do the square-sets still describe the position.
    pub fn add_piece(&mut self, sq: Square, piece: Piece)
        ensures
            final(self)@ == (BoardState { pieces: final(self)@.pieces, piece_array: final(self)@.piece_array, ..old(self)@ }),
            final(self)@.pos() == old(self)@.pos().update(sq.idx(), Some(piece)),
            forall|tt: int, i: int| 0 <= tt < 6 ==> (#[trigger] bit(final(self)@.pieces.tbits(tt), i)
                <==> (bit(old(self)@.pieces.tbits(tt), i) || (tt == piece.type_spec().idx() && i == sq.idx()))),
            forall|cc: int, i: int| 0 <= cc < 2 ==> (#[trigger] bit(final(self)@.pieces.cbits(cc), i)
                <==> (bit(old(self)@.pieces.cbits(cc), i) || (cc == piece.colour_spec().idx() && i == sq.idx()))),
            old(self)@.pieces.matches(old(self)@.pos()) && (old(self)@.pos()[sq.idx()] is None || old(self)@.pos()[sq.idx()] == Some(piece))
                ==> final(self)@.pieces.matches(final(self)@.pos()),
    {
        proof {
            if self.pieces.matches(self.piece_array@) {
                self.pieces.lemma_matches_pos(self.piece_array@);
            }
        }
        self.pieces.set_piece_at(sq, piece);
        self.piece_array[sq.index()] = Some(piece);
    }

    /// Gets the piece that will be moved by the given move.
    pub fn moved_piece(&self, m: Move) -> (r: Option<Piece>)
        ensures
            r == self@.pos()[m.from_idx()],
    {
        let idx = m.from();
        self.piece_array[idx.index()]
    }

    /// Gets the piece that will be captured by the given move.
    pub fn captured_piece(&self, m: Move) -> (r: Option<Piece>)
        ensures
            r == self@.pos()[m.to_idx()],
    {
        let idx = m.to();
        self.piece_array[idx.index()]
    }

    /// Determines whether this move would be a capture in the current position.
    pub fn is_capture(&self, m: Move) -> (r: bool)
        ensures
            r == self@.pos()[m.to_idx()] is Some,
    {
        self.captured_piece(m).is_some()
    }

    /// Determines whether this move would be tactical in the current position.
    pub fn is_tactical(&self, m: Move) -> (r: bool)
        ensures
            r == (m.promo() || self@.pos()[m.to_idx()] is Some),
    {
        m.is_promo() || self.is_capture(m)
    }

    /// Gets the piece at the given square.
    pub fn piece_at(&self, sq: Square) -> (r: Option<Piece>)
        ensures
            r == self@.pos()[sq.idx()],
    {
        self.piece_array[sq.index()]
    }
}


// ---------------------------------------------------------------------------
// Making and unmaking moves.
// ---------------------------------------------------------------------------

/// The piece that a move puts on its target square.
pub open spec fn arriving_piece(st: BoardState, m: Move) -> Piece {
    if m.promo() {
        piece_of(st.side, PieceType::Ferz)
    } else {
        st.pos()[m.from_idx()]->0
    }
}

/// The position after a move that moves the piece on its from-square.
pub open spec fn after_pos(st: BoardState, m: Move) -> Position {
    st.pos().update(m.from_idx(), None).update(m.to_idx(), Some(arriving_piece(st, m)))
}

/// The square-sets of a position (there is exactly one set of square-sets for each position).
pub open spec fn layout_of(p: Position) -> PieceLayout {
    choose|l: PieceLayout| l.matches(p)
}

/// The updates that making `m` records as added: the arriving piece on the
/// destination.
pub open spec fn move_adds(st: BoardState, m: Move) -> Seq<FeatureUpdate> {
    seq![FeatureUpdate { sq: sq_at(m.to_idx()), piece: arriving_piece(st, m) }]
}

/// The updates that making `m` records as removed: the moving piece from its
/// square, then the captured piece, if any, from the destination.
pub open spec fn move_subs(st: BoardState, m: Move) -> Seq<FeatureUpdate> {
    let moving = FeatureUpdate { sq: sq_at(m.from_idx()), piece: st.pos()[m.from_idx()]->0 };
    match st.pos()[m.to_idx()] {
        Some(c) => seq![moving, FeatureUpdate { sq: sq_at(m.to_idx()), piece: c }],
        None => seq![moving],
    }
}

/// Making `m` leaves the mover's king attacked.
pub open spec fn leaves_king_attacked(st: BoardState, m: Move) -> bool {
    let l = layout_of(after_pos(st, m));
    attacked_by(l, st.side.opp(), ksq(l, st.side))
}

/// What `make_move_base` can be asked to make: the from- and to-squares
/// differ, no king is captured, no king promotes, and the counters have room.
pub open spec fn makeable(st: BoardState, m: Move) -> bool {
    &&& m.from_idx() != m.to_idx()
    &&& !(st.pos()[m.to_idx()] is Some && st.pos()[m.to_idx()]->0.type_spec() == PieceType::King)
    &&& (st.pos()[m.from_idx()] is Some && m.promo()) ==> st.pos()[m.from_idx()]->0.type_spec() != PieceType::King
    &&& st.seventy_move_counter < 255
    &&& st.ply < usize::MAX
    &&& st.height < usize::MAX
}

/// The state that making a move saves.
pub open spec fn undo_of(st: BoardState) -> Undo {
    Undo {
        seventy_move_counter: st.seventy_move_counter,
        threats: st.threats,
        piece_layout: st.pieces,
        piece_array: st.piece_array,
        key: st.key,
        pawn_key: st.pawn_key,
        non_pawn_key: st.non_pawn_key,
        minor_key: st.minor_key,
        major_key: st.major_key,
    }
}

/// `s1` is `s0` after the move `m` has been made.
pub open spec fn made(s0: BoardState, m: Move, s1: BoardState) -> bool {
    let p1 = after_pos(s0, m);
    let moved = s0.pos()[m.from_idx()]->0;
    &&& s1.pos() == p1
    &&& s1.pieces.matches(p1)
    &&& s1.side == s0.side.opp()
    &&& s1.seventy_move_counter == if s0.pos()[m.to_idx()] is Some || moved.type_spec() == PieceType::Pawn {
        0
    } else {
        s0.seventy_move_counter + 1
    }
    &&& s1.ply == s0.ply + 1
    &&& s1.height == s0.height + 1
    &&& s1.keys_ok()
    &&& threats_ok(s1.pieces, s0.side, s1.threats)
    &&& s1.history == s0.history.push(undo_of(s0))
}

/// The board after a move: the from-square is emptied, the target holds the
/// moved piece (a ferz of the mover's colour when the move promotes), every
/// other square keeps its piece, and the other side is to move.
pub proof fn lemma_made_position(s0: BoardState, m: Move, s1: BoardState)
    requires
        made(s0, m, s1),
        s0.pos()[m.from_idx()] is Some,
        m.from_idx() != m.to_idx(),
    ensures
        s1.pos()[m.from_idx()] is None,
        m.promo() ==> s1.pos()[m.to_idx()] == Some(piece_of(s0.side, PieceType::Ferz)),
        !m.promo() ==> s1.pos()[m.to_idx()] == s0.pos()[m.from_idx()],
        forall|i: int| 0 <= i < 64 && i != m.from_idx() && i != m.to_idx() ==> #[trigger] s1.pos()[i] == s0.pos()[i],
        s1.side != s0.side,
        s1.ply == s0.ply + 1,
{
    m.lemma_idx_bounds();
}

/// The seventy-move counter after a move: a pawn move or a capture sets it to
/// zero; any other move adds one to it.
pub proof fn lemma_made_counter(s0: BoardState, m: Move, s1: BoardState)
    requires
        made(s0, m, s1),
        s0.pos()[m.from_idx()] is Some,
    ensures
        s0.pos()[m.from_idx()]->0.type_spec() == PieceType::Pawn ==> s1.seventy_move_counter == 0,
        s0.pos()[m.to_idx()] is Some ==> s1.seventy_move_counter == 0,
        s0.pos()[m.from_idx()]->0.type_spec() != PieceType::Pawn && s0.pos()[m.to_idx()] is None
            ==> s1.seventy_move_counter == s0.seventy_move_counter + 1,
{
}

/// Making a move leads to exactly one state.
pub proof fn lemma_made_unique(s0: BoardState, m: Move, a: BoardState, b: BoardState)
    requires
        made(s0, m, a),
        made(s0, m, b),
    ensures
        a == b,
{
    let p1 = after_pos(s0, m);
    PieceLayout::lemma_matches_unique(a.pieces, b.pieces, p1);
    assert(a.piece_array =~= b.piece_array);
    assert(a.non_pawn_key =~= b.non_pawn_key);
    assert forall|i: int| 0 <= i < 64 implies bit(a.threats.all.inner, i) == bit(b.threats.all.inner, i) by {}
    assert forall|i: int| 0 <= i < 64 implies bit(a.threats.checkers.inner, i) == bit(b.threats.checkers.inner, i) by {}
    lemma_bit_ext(a.threats.all.inner, b.threats.all.inner);
    lemma_bit_ext(a.threats.checkers.inner, b.threats.checkers.inner);
}

/// The state that making `m` on `s0` leads to.
pub open spec fn after_state(s0: BoardState, m: Move) -> BoardState {
    choose|s1: BoardState| made(s0, m, s1)
}

/// The state that unmaking the last move restores.
pub open spec fn unmade(s: BoardState) -> BoardState {
    let u = s.history.last();
    BoardState {
        pieces: u.piece_layout,
        piece_array: u.piece_array,
        side: s.side.opp(),
        seventy_move_counter: u.seventy_move_counter,
        ply: (s.ply - 1) as usize,
        key: u.key,
        pawn_key: u.pawn_key,
        non_pawn_key: u.non_pawn_key,
        minor_key: u.minor_key,
        major_key: u.major_key,
        threats: u.threats,
        height: (s.height - 1) as usize,
        history: s.history.drop_last(),
    }
}

/// The key of the position after the move `m` with the other side to move,
/// if `m` does not promote.
pub open spec fn key_after_spec(st: BoardState, m: Move) -> u64 {
    let f = m.from_idx();
    let t = m.to_idx();
    let piece = st.pos()[f]->0;
    let k = ((st.key ^ SIDE_KEY) ^ piece_key(piece, f)) ^ piece_key(piece, t);
    match st.pos()[t] {
        Some(c) => k ^ piece_key(c, t),
        None => k,
    }
}

/// `squares` of colour `c` hold exactly the king of `c` on `k`.
proof fn lemma_single_king(l: PieceLayout, p: Position, c: Colour, k: int)
    requires
        l.matches(p),
        0 <= k < 64,
        forall|i: int| 0 <= i < 64 ==> (p[i] == Some(piece_of(c, PieceType::King)) <==> i == k),
    ensures
        one_king(l, c),
        ksq(l, c) == k,
{
    l.lemma_matches_pos(p);
    lemma_wf_bits(l);
    let b = bb(l, c, PieceType::King);
    let kk = k as u64;
    assert forall|i: int| 0 <= i < 64 implies bit(b, i) == bit(1u64 << kk, i) by {
        crate::shatranj::squareset::lemma_bit_single(kk, i);
    }
    lemma_bit_ext(b, 1u64 << kk);
    assert((1u64 << kk) != 0 && (1u64 << kk) & (((1u64 << kk) - 1u64) as u64) == 0) by (bit_vector)
        requires kk < 64;
    lemma_lowest_bit(b);
    crate::shatranj::squareset::lemma_bit_single(kk, b.trailing_zeros() as int);
}

proof fn lemma_king_squares(l: PieceLayout, p: Position, c: Colour)
    requires
        l.matches(p),
        one_king(l, c),
    ensures
        0 <= ksq(l, c) < 64,
        forall|i: int| 0 <= i < 64 ==> (p[i] == Some(piece_of(c, PieceType::King)) <==> i == ksq(l, c)),
{
    l.lemma_matches_pos(p);
    lemma_wf_bits(l);
    lemma_one_king(l, c);
    assert forall|i: int| 0 <= i < 64 implies (p[i] == Some(piece_of(c, PieceType::King)) <==> i == ksq(l, c)) by {
        assert(bit(bb(l, c, PieceType::King), i) <==> (0 <= i < 64 && l.pos()[i] == Some(piece_of(c, PieceType::King))));
    }
}

/// Each of the six keys changes by the old and the new occupant of square `k`.
proof fn lemma_fold_update_all(pos: Position, k: int, v: Option<Piece>)
    requires
        pos.len() == 64,
        0 <= k < 64,
    ensures
        forall|cls: int| #[trigger] fold_key(pos.update(k, v), cls, 64) == (fold_key(pos, cls, 64) ^ piece_term(pos[k], cls, k)) ^ piece_term(v, cls, k),
{
    assert forall|cls: int| #[trigger] fold_key(pos.update(k, v), cls, 64) == (fold_key(pos, cls, 64) ^ piece_term(pos[k], cls, k)) ^ piece_term(v, cls, k) by {
        lemma_fold_update(pos, cls, k, v, 64);
    }
}

/// `p` with the first `n` updates of `ups` applied: squares emptied, or
/// (with `add`) filled with the update's piece.
pub open spec fn apply_updates(p: Position, ups: Seq<FeatureUpdate>, n: int, add: bool) -> Position
    decreases n,
{
    if n <= 0 {
        p
    } else {
        apply_updates(p, ups, n - 1, add).update(ups[n - 1].sq.idx(), if add { Some(ups[n - 1].piece) } else { None })
    }
}

/// The keys of `cur` with `side` to move are the ones held.
pub open spec fn keys_of(cur: Position, side: Colour, key: u64, pawn_key: u64, npk: [u64; 2], minor_key: u64, major_key: u64) -> bool {
    &&& key == fold_key(cur, 0, 64) ^ side_term(side)
    &&& pawn_key == fold_key(cur, 1, 64)
    &&& npk@[0] == fold_key(cur, 2, 64)
    &&& npk@[1] == fold_key(cur, 3, 64)
    &&& minor_key == fold_key(cur, 4, 64)
    &&& major_key == fold_key(cur, 5, 64)
}

proof fn lemma_keys_step(
    cur: Position, side: Colour, k: int, v: Option<Piece>, piece: Piece,
    key: u64, pawn_key: u64, npk: [u64; 2], minor_key: u64, major_key: u64,
    key2: u64, pawn_key2: u64, npk2: [u64; 2], minor_key2: u64, major_key2: u64,
)
    requires
        cur.len() == 64,
        0 <= k < 64,
        keys_of(cur, side, key, pawn_key, npk, minor_key, major_key),
        (cur[k] == Some(piece) && v is None) || (cur[k] is None && v == Some(piece)),
        key2 == key ^ piece_term(Some(piece), 0, k),
        pawn_key2 == pawn_key ^ piece_term(Some(piece), 1, k),
        npk2@[0] == npk@[0] ^ piece_term(Some(piece), 2, k),
        npk2@[1] == npk@[1] ^ piece_term(Some(piece), 3, k),
        minor_key2 == minor_key ^ piece_term(Some(piece), 4, k),
        major_key2 == major_key ^ piece_term(Some(piece), 5, k),
    ensures
        keys_of(cur.update(k, v), side, key2, pawn_key2, npk2, minor_key2, major_key2),
{
    lemma_fold_update_all(cur, k, v);
    assert forall|cls: int| 0 <= cls < 6 implies #[trigger] fold_key(cur.update(k, v), cls, 64) == fold_key(cur, cls, 64) ^ piece_term(Some(piece), cls, k) by {
        let f = fold_key(cur, cls, 64);
        let t = piece_term(Some(piece), cls, k);
        lemma_xor_facts(f, t, 0, 0);
        lemma_xor_facts(f, 0, t, 0);
        lemma_xor_facts(0, 0, 0, 0);
        assert(fold_key(cur.update(k, v), cls, 64) == (f ^ piece_term(cur[k], cls, k)) ^ piece_term(v, cls, k));
    }
    let st = side_term(side);
    let f0 = fold_key(cur, 0, 64);
    let t0 = piece_term(Some(piece), 0, k);
    lemma_xor_facts(f0, st, t0, 0);
}

/// Applies the updates `ups` to the piece array (emptying squares, or with
/// `add` filling them), toggling each piece in the keys.
fn apply_feature_updates(
    piece_array: &mut [Option<Piece>; 64],
    key: &mut u64,
    pawn_key: &mut u64,
    non_pawn_key: &mut [u64; 2],
    minor_key: &mut u64,
    major_key: &mut u64,
    ups: &[FeatureUpdate],
    add: bool,
    side: Colour,
)
    requires
        keys_of(old(piece_array)@, side, *old(key), *old(pawn_key), *old(non_pawn_key), *old(minor_key), *old(major_key)),
        forall|j: int| 0 <= j < ups@.len() ==> if add {
            old(piece_array)@[#[trigger] ups@[j].sq.idx()] is None
        } else {
            old(piece_array)@[#[trigger] ups@[j].sq.idx()] == Some(ups@[j].piece)
        },
        forall|j: int, k: int| 0 <= j < k < ups@.len() ==> ups@[j].sq != ups@[k].sq,
    ensures
        final(piece_array)@ == apply_updates(old(piece_array)@, ups@, ups@.len() as int, add),
        keys_of(final(piece_array)@, side, *final(key), *final(pawn_key), *final(non_pawn_key), *final(minor_key), *final(major_key)),
{
    let ghost p0 = piece_array@;
    let mut i: usize = 0;
    while i < ups.len()
        invariant
            0 <= i <= ups@.len(),
            piece_array@.len() == 64,
            piece_array@ == apply_updates(p0, ups@, i as int, add),
            keys_of(piece_array@, side, *key, *pawn_key, *non_pawn_key, *minor_key, *major_key),
            forall|j: int| i <= j < ups@.len() ==> if add {
                piece_array@[#[trigger] ups@[j].sq.idx()] is None
            } else {
                piece_array@[#[trigger] ups@[j].sq.idx()] == Some(ups@[j].piece)
            },
            forall|j: int, k: int| 0 <= j < k < ups@.len() ==> ups@[j].sq != ups@[k].sq,
        decreases ups@.len() - i,
    {
        let FeatureUpdate { sq, piece } = ups[i];
        let ghost cur = piece_array@;
        let ghost k0 = *key;
        let ghost k1 = *pawn_key;
        let ghost k2 = *non_pawn_key;
        let ghost k3 = *minor_key;
        let ghost k4 = *major_key;
        let v = if add { Some(piece) } else { None };
        piece_array[sq.index()] = v;
        hash_into(key, pawn_key, non_pawn_key, minor_key, major_key, piece, sq);
        proof {
            lemma_keys_step(cur, side, sq.idx(), v, piece, k0, k1, k2, k3, k4, *key, *pawn_key, *non_pawn_key, *minor_key, *major_key);
            assert(piece_array@ =~= cur.update(sq.idx(), v));
            assert forall|j: int| i + 1 <= j < ups@.len() implies if add {
                piece_array@[#[trigger] ups@[j].sq.idx()] is None
            } else {
                piece_array@[#[trigger] ups@[j].sq.idx()] == Some(ups@[j].piece)
            } by {
                assert(ups@[i as int].sq != ups@[j].sq);
            }
        }
        i = i + 1;
    }
}

/// Moves the pieces of a move in the square-sets and records the updates in
/// `buf`; returns the piece that arrives on `to`.
fn layout_make(
    pieces: &mut PieceLayout,
    buf: &mut UpdateBuffer,
    from: Square,
    to: Square,
    piece: Piece,
    captured: Option<Piece>,
    promo: bool,
    side: Colour,
) -> (arriving: Piece)
    requires
        from != to,
        old(pieces).matches(old(pieces).pos()),
        old(pieces).pos()[from.idx()] == Some(piece),
        old(pieces).pos()[to.idx()] == captured,
        old(buf).added().len() == 0,
        old(buf).removed().len() == 0,
    ensures
        arriving == if promo { piece_of(side, PieceType::Ferz) } else { piece },
        final(pieces).matches(old(pieces).pos().update(from.idx(), None).update(to.idx(), Some(arriving))),
        final(buf).added() == seq![FeatureUpdate { sq: to, piece: arriving }],
        final(buf).removed() == if captured is Some {
            seq![FeatureUpdate { sq: from, piece }, FeatureUpdate { sq: to, piece: captured->0 }]
        } else {
            seq![FeatureUpdate { sq: from, piece }]
        },
{
    let ghost p0 = pieces.pos();
    if promo {
        // just remove the source piece, as a different piece will be arriving here
        buf.clear_piece(from, piece);
    } else {
        buf.move_piece(from, to, piece);
    }
    let ghost mut mid: Position = p0;
    if let Some(captured) = captured {
        pieces.clear_piece_at(to, captured);
        buf.clear_piece(to, captured);
        proof {
            mid = p0.update(to.idx(), None);
        }
    }
    proof {
        pieces.lemma_matches_pos(mid);
    }
    let arriving = if promo {
        let promo_piece = Piece::new(side, PieceType::Ferz);
        pieces.clear_piece_at(from, piece);
        proof {
            pieces.lemma_matches_pos(mid.update(from.idx(), None));
        }
        pieces.set_piece_at(to, promo_piece);
        buf.add_piece(to, promo_piece);
        promo_piece
    } else {
        pieces.move_piece(from, to, piece);
        piece
    };
    proof {
        assert(mid.update(from.idx(), None).update(to.idx(), Some(arriving)) =~= p0.update(from.idx(), None).update(to.idx(), Some(arriving)));
        assert(buf.added() =~= seq![FeatureUpdate { sq: to, piece: arriving }]);
        assert(buf.removed() =~= if captured is Some {
            seq![FeatureUpdate { sq: from, piece }, FeatureUpdate { sq: to, piece: captured->0 }]
        } else {
            seq![FeatureUpdate { sq: from, piece }]
        });
    }
    arriving
}

/// Some square-sets describe the position after a move.
proof fn lemma_after_layout(s0: BoardState, m: Move)
    requires
        s0.wf(),
        s0.pos()[m.from_idx()] is Some,
        m.from_idx() != m.to_idx(),
    ensures
        layout_of(after_pos(s0, m)).matches(after_pos(s0, m)),
{
    broadcast use vstd::array::axiom_spec_array_update;
    m.lemma_idx_bounds();
    let f = m.from_idx();
    let t = m.to_idx();
    let l0 = s0.pieces;
    let p0 = s0.pos();
    let p1 = after_pos(s0, m);
    let a = arriving_piece(s0, m);
    l0.lemma_matches_pos(p0);
    let fb = 1u64 << (f as u64);
    let tb = 1u64 << (t as u64);
    let keep = !fb & !tb;
    lemma_bits_ops(!fb, !tb);
    lemma_bits_ops(fb, 0);
    lemma_bits_ops(tb, 0);
    assert forall|i: int| #[trigger] bit(fb, i) == (i == f) by {
        crate::shatranj::squareset::lemma_bit_single(f as u64, i);
    }
    assert forall|i: int| #[trigger] bit(tb, i) == (i == t) by {
        crate::shatranj::squareset::lemma_bit_single(t as u64, i);
    }
    assert forall|i: int| #[trigger] bit(keep, i) == (0 <= i < 64 && i != f && i != t) by {}
    let nt = |ty: int| (l0.tbits(ty) & keep) | (if a.type_spec().idx() == ty { tb } else { 0u64 });
    let nc = |c: int| (l0.cbits(c) & keep) | (if a.colour_spec().idx() == c { tb } else { 0u64 });
    let ps0 = spec_array_update(l0.pieces, 0, SquareSet { inner: nt(0) });
    let ps1 = spec_array_update(ps0, 1, SquareSet { inner: nt(1) });
    let ps2 = spec_array_update(ps1, 2, SquareSet { inner: nt(2) });
    let ps3 = spec_array_update(ps2, 3, SquareSet { inner: nt(3) });
    let ps4 = spec_array_update(ps3, 4, SquareSet { inner: nt(4) });
    let ps5 = spec_array_update(ps4, 5, SquareSet { inner: nt(5) });
    let cs0 = spec_array_update(l0.colours, 0, SquareSet { inner: nc(0) });
    let cs1 = spec_array_update(cs0, 1, SquareSet { inner: nc(1) });
    let l1 = PieceLayout { pieces: ps5, colours: cs1 };
    assert forall|ty: int| 0 <= ty < 6 implies #[trigger] l1.tbits(ty) == nt(ty) by {}
    assert forall|c: int| 0 <= c < 2 implies #[trigger] l1.cbits(c) == nc(c) by {}
    assert forall|ty: int, i: int| 0 <= ty < 6 implies (#[trigger] bit(l1.tbits(ty), i) <==> (0 <= i < 64 && p1[i] is Some && p1[i]->0.type_spec().idx() == ty)) by {
        lemma_bits_ops(l0.tbits(ty), keep);
        lemma_bits_ops(l0.tbits(ty) & keep, if a.type_spec().idx() == ty { tb } else { 0u64 });
        lemma_bit_zero(i);
        assert(bit(l0.tbits(ty), i) <==> (0 <= i < 64 && p0[i] is Some && p0[i]->0.type_spec().idx() == ty));
    }
    assert forall|c: int, i: int| 0 <= c < 2 implies (#[trigger] bit(l1.cbits(c), i) <==> (0 <= i < 64 && p1[i] is Some && p1[i]->0.colour_spec().idx() == c)) by {
        lemma_bits_ops(l0.cbits(c), keep);
        lemma_bits_ops(l0.cbits(c) & keep, if a.colour_spec().idx() == c { tb } else { 0u64 });
        lemma_bit_zero(i);
        assert(bit(l0.cbits(c), i) <==> (0 <= i < 64 && p0[i] is Some && p0[i]->0.colour_spec().idx() == c));
    }
    assert(l1.matches(p1));
}

/// After a move that takes no king and promotes no king, each side still has
/// exactly one king, and the mover's king stands where the move left it.
proof fn lemma_kings_after(s0: BoardState, m: Move, l: PieceLayout)
    requires
        s0.wf(),
        m.from_idx() != m.to_idx(),
        !(s0.pos()[m.to_idx()] is Some && s0.pos()[m.to_idx()]->0.type_spec() == PieceType::King),
        (s0.pos()[m.from_idx()] is Some && m.promo()) ==> s0.pos()[m.from_idx()]->0.type_spec() != PieceType::King,
        s0.pos()[m.from_idx()] is Some,
        l.matches(after_pos(s0, m)),
    ensures
        one_king(l, Colour::White),
        one_king(l, Colour::Black),
        ksq(l, s0.side) == if s0.pos()[m.from_idx()] == Some(piece_of(s0.side, PieceType::King)) { m.to_idx() } else { ksq(s0.pieces, s0.side) },
{
    m.lemma_idx_bounds();
    let p0 = s0.pos();
    let p1 = after_pos(s0, m);
    let piece = p0[m.from_idx()]->0;
    lemma_king_squares(s0.pieces, p0, Colour::White);
    lemma_king_squares(s0.pieces, p0, Colour::Black);
    Piece::lemma_of_piece(Colour::White, PieceType::King);
    Piece::lemma_of_piece(Colour::Black, PieceType::King);
    Piece::lemma_of_piece(s0.side, PieceType::Ferz);
    assert forall|c: Colour| #![auto] one_king(l, c) && ksq(l, c) == if piece == piece_of(c, PieceType::King) { m.to_idx() } else { ksq(s0.pieces, c) } by {
        lemma_king_squares(s0.pieces, p0, c);
        let kc = if piece == piece_of(c, PieceType::King) { m.to_idx() } else { ksq(s0.pieces, c) };
        let king = piece_of(c, PieceType::King);
        Piece::lemma_of_piece(c, PieceType::King);
        assert forall|i: int| 0 <= i < 64 implies (p1[i] == Some(king) <==> i == kc) by {
            if i == m.to_idx() {
                assert(p1[i] == Some(arriving_piece(s0, m)));
            } else if i == m.from_idx() {
                assert(p1[i] is None);
            } else {
                assert(p1[i] == p0[i]);
                if piece == king {
                    assert(p0[m.from_idx()] == Some(king));
                }
            }
        }
        lemma_single_king(l, p1, c, kc);
    }
    assert(one_king(l, Colour::White));
    assert(one_king(l, Colour::Black));
    assert(ksq(l, s0.side) == if piece == piece_of(s0.side, PieceType::King) { m.to_idx() } else { ksq(s0.pieces, s0.side) });
}

impl Board {
    pub fn make_move_simple(&mut self, m: Move) -> (r: bool)
        requires
            old(self).wf(),
            makeable(old(self)@, m),
        ensures
            r == (old(self)@.pos()[m.from_idx()] is Some && !leaves_king_attacked(old(self)@, m)),
            r ==> made(old(self)@, m, final(self)@) && final(self).wf(),
            !r ==> final(self)@ == old(self)@,
    {
        let mut buf = UpdateBuffer::new();
        self.make_move_base(m, &mut buf)
    }

    /// Makes the move `m`, recording in `update_buffer` the pieces it takes off
    /// and puts on squares. Returns false, leaving the board as it was, when
    /// there is no piece to move or the move would leave the mover's king attacked.
    pub fn make_move_base(&mut self, m: Move, update_buffer: &mut UpdateBuffer) -> (r: bool)
        requires
            old(self).wf(),
            makeable(old(self)@, m),
            old(update_buffer).added().len() == 0,
            old(update_buffer).removed().len() == 0,
        ensures
            r == (old(self)@.pos()[m.from_idx()] is Some && !leaves_king_attacked(old(self)@, m)),
            r ==> made(old(self)@, m, final(self)@) && final(self).wf(),
            !r ==> final(self)@ == old(self)@,
            old(self)@.pos()[m.from_idx()] is Some ==> final(update_buffer).added() == move_adds(old(self)@, m)
                && final(update_buffer).removed() == move_subs(old(self)@, m),
            old(self)@.pos()[m.from_idx()] is None ==> final(update_buffer).added().len() == 0
                && final(update_buffer).removed().len() == 0,
    {
        let ghost s0 = self@;
        let ghost p0 = self@.pos();
        let from = m.from();
        let to = m.to();
        let side = self.side;
        let piece = match self.moved_piece(m) {
            Some(p) => p,
            None => {
                return false;
            },
        };
        let captured = self.captured_piece(m);

        let saved_state = Undo {
            seventy_move_counter: self.seventy_move_counter,
            threats: self.threats,
            piece_layout: self.pieces,
            piece_array: self.piece_array,
            key: self.key,
            pawn_key: self.pawn_key,
            non_pawn_key: self.non_pawn_key,
            minor_key: self.minor_key,
            major_key: self.major_key,
        };

        self.seventy_move_counter = self.seventy_move_counter + 1;
        if captured.is_some() {
            self.seventy_move_counter = 0;
        }
        if piece.piece_type() == PieceType::Pawn {
            self.seventy_move_counter = 0;
        }

        proof {
            self.pieces.lemma_matches_pos(p0);
        }
        let arriving = layout_make(&mut self.pieces, update_buffer, from, to, piece, captured, m.is_promo(), side);
        let ghost p1 = after_pos(s0, m);
        proof {
            lemma_sq_at(from);
            lemma_sq_at(to);
            assert(update_buffer.added() == move_adds(s0, m));
            assert(update_buffer.removed() == move_subs(s0, m));
            assert(p0.update(from.idx(), None).update(to.idx(), Some(arriving)) == p1);
            self.pieces.lemma_matches_pos(p1);
            PieceLayout::lemma_matches_unique(self.pieces, layout_of(p1), p1);
            lemma_kings_after(s0, m, self.pieces);
        }

        self.side = self.side.flip();

        // the mover's king must not be left attacked
        let our_king = self.king_sq(self.side.flip());
        if self.sq_attacked(our_king, self.side) {
            self.side = self.side.flip();
            self.seventy_move_counter = saved_state.seventy_move_counter;
            self.pieces = saved_state.piece_layout;
            return false;
        }

        let mut key = self.key;
        let mut pawn_key = self.pawn_key;
        let mut non_pawn_key = self.non_pawn_key;
        let mut minor_key = self.minor_key;
        let mut major_key = self.major_key;

        hash_side(&mut key);
        proof {
            lemma_xor_facts(fold_key(p0, 0, 64), side_term(side), SIDE_KEY, 0);
            lemma_xor_facts(fold_key(p0, 0, 64), 0, SIDE_KEY, 0);
            lemma_xor_facts(SIDE_KEY, SIDE_KEY, 0, 0);
            lemma_xor_facts(fold_key(p0, 0, 64), SIDE_KEY, SIDE_KEY, 0);
            lemma_xor_facts(0, SIDE_KEY, 0, 0);
        }
        let subs = update_buffer.subs();
        apply_feature_updates(&mut self.piece_array, &mut key, &mut pawn_key, &mut non_pawn_key, &mut minor_key, &mut major_key, subs, false, side.flip());
        let ghost c1 = self.piece_array@;
        proof {
            reveal_with_fuel(apply_updates, 3);
        }
        let adds = update_buffer.adds();
        apply_feature_updates(&mut self.piece_array, &mut key, &mut pawn_key, &mut non_pawn_key, &mut minor_key, &mut major_key, adds, true, side.flip());
        proof {
            reveal_with_fuel(apply_updates, 2);
            assert(self.piece_array@ =~= p1);
        }
        self.key = key;
        self.pawn_key = pawn_key;
        self.non_pawn_key = non_pawn_key;
        self.minor_key = minor_key;
        self.major_key = major_key;

        self.ply = self.ply + 1;
        self.height = self.height + 1;

        self.threats = self.generate_threats(self.side.flip());

        self.history.push(saved_state);
        proof {
            assert(self@.history =~= s0.history.push(undo_of(s0)));
        }
        true
    }
}


/// The state that a null move saves: the threats and the key.
pub open spec fn null_undo(st: BoardState) -> Undo {
    Undo {
        seventy_move_counter: 0,
        threats: st.threats,
        piece_layout: PieceLayout {
            pieces: spec_array_fill_for_copy_type::<SquareSet, 6>(SquareSet { inner: 0 }),
            colours: spec_array_fill_for_copy_type::<SquareSet, 2>(SquareSet { inner: 0 }),
        },
        piece_array: spec_array_fill_for_copy_type::<Option<Piece>, 64>(None),
        key: st.key,
        pawn_key: 0,
        non_pawn_key: spec_array_fill_for_copy_type::<u64, 2>(0),
        minor_key: 0,
        major_key: 0,
    }
}

/// `s1` is `s0` after a null move: the turn passes.
pub open spec fn made_null(s0: BoardState, s1: BoardState) -> bool {
    &&& s1 == BoardState {
        side: s0.side.opp(),
        key: s0.key ^ SIDE_KEY,
        ply: (s0.ply + 1) as usize,
        height: (s0.height + 1) as usize,
        threats: s1.threats,
        history: s0.history.push(null_undo(s0)),
        ..s0
    }
    &&& threats_ok(s1.pieces, s0.side, s1.threats)
}

/// The state that unmaking a null move restores.
pub open spec fn unmade_null(s: BoardState) -> BoardState {
    BoardState {
        height: (s.height - 1) as usize,
        ply: (s.ply - 1) as usize,
        side: s.side.opp(),
        threats: s.history.last().threats,
        key: s.history.last().key,
        history: s.history.drop_last(),
        ..s
    }
}

impl Board {
    /// Unmakes the last move, restoring the state it saved.
    pub fn unmake_move_base(&mut self)
        requires
            old(self)@.history.len() > 0,
            old(self)@.height >= 1,
            old(self)@.ply >= 1,
        ensures
            final(self)@ == unmade(old(self)@),
    {
        let undo = self.history[self.history.len() - 1];
        self.height = self.height - 1;
        self.ply = self.ply - 1;
        self.side = self.side.flip();
        self.key = undo.key;
        self.pawn_key = undo.pawn_key;
        self.non_pawn_key = undo.non_pawn_key;
        self.minor_key = undo.minor_key;
        self.major_key = undo.major_key;
        self.seventy_move_counter = undo.seventy_move_counter;
        self.threats = undo.threats;
        self.pieces = undo.piece_layout;
        self.piece_array = undo.piece_array;
        self.history.pop();
    }

    /// Passes the turn without moving.
    pub fn make_nullmove(&mut self)
        requires
            old(self).wf(),
            old(self)@.threats.checkers.inner == 0,
            old(self)@.ply < usize::MAX,
            old(self)@.height < usize::MAX,
        ensures
            made_null(old(self)@, final(self)@),
            final(self).wf(),
    {
        let ghost s0 = self@;
        let e = SquareSet::empty();
        self.history.push(Undo {
            seventy_move_counter: 0,
            threats: self.threats,
            piece_layout: PieceLayout { pieces: [e; 6], colours: [e; 2] },
            piece_array: [None; 64],
            key: self.key,
            pawn_key: 0,
            non_pawn_key: [0; 2],
            minor_key: 0,
            major_key: 0,
        });
        let mut key = self.key;
        hash_side(&mut key);
        self.key = key;
        self.side = self.side.flip();
        self.ply = self.ply + 1;
        self.height = self.height + 1;
        self.threats = self.generate_threats(self.side.flip());
        proof {
            assert(self@.history =~= s0.history.push(null_undo(s0)));
            let f = fold_key(s0.pos(), 0, 64);
            lemma_xor_facts(f, SIDE_KEY, 0, 0);
            lemma_xor_facts(f, 0, SIDE_KEY, 0);
            lemma_xor_facts(f, 0, 0, 0);
        }
    }

    /// Unmakes a null move.
    pub fn unmake_nullmove(&mut self)
        requires
            old(self)@.history.len() > 0,
            old(self)@.height >= 1,
            old(self)@.ply >= 1,
        ensures
            final(self)@ == unmade_null(old(self)@),
    {
        self.height = self.height - 1;
        self.ply = self.ply - 1;
        self.side = self.side.flip();
        let undo = self.history[self.history.len() - 1];
        self.threats = undo.threats;
        self.key = undo.key;
        self.history.pop();
    }

    /// Whether the last move made was a null move (its saved state has no kings).
    pub fn last_move_was_nullmove(&self) -> (r: bool)
        ensures
            r == (self@.history.len() > 0 && self@.history.last().piece_layout.tbits(5) == 0),
    {
        if self.history.len() > 0 {
            let u = self.history[self.history.len() - 1];
            u.piece_layout.of_type(PieceType::King).is_empty()
        } else {
            false
        }
    }

    /// Makes a guess about the new position key after a move.
    /// This is a cheap estimate, and will fail for promotions.
    pub fn key_after(&self, m: Move) -> (r: u64)
        requires
            self@.pos()[m.from_idx()] is Some,
        ensures
            r == key_after_spec(self@, m),
    {
        let src = m.from();
        let tgt = m.to();
        let piece = self.moved_piece(m).unwrap();
        let captured = self.piece_at(tgt);

        let mut new_key = self.key;
        hash_side(&mut new_key);
        hash_piece(&mut new_key, piece, src);
        hash_piece(&mut new_key, piece, tgt);

        if let Some(captured) = captured {
            hash_piece(&mut new_key, captured, tgt);
        }

        new_key
    }

    pub fn key_after_null_move(&self) -> (r: u64)
        ensures
            r == self@.key ^ SIDE_KEY,
    {
        let mut new_key = self.key;
        hash_side(&mut new_key);
        new_key
    }
}

// ---------------------------------------------------------------------------
// Laws of making and unmaking.
// ---------------------------------------------------------------------------

/// Unmaking a move restores exactly the board it was made on.
pub proof fn lemma_unmake_undoes_make(s0: BoardState, m: Move, s1: BoardState)
    requires
        made(s0, m, s1),
    ensures
        unmade(s1) == s0,
{
    assert(s1.history.drop_last() =~= s0.history);
    assert(s0.side.opp().opp() == s0.side);
}

/// Unmaking a null move restores exactly the board it was made on.
pub proof fn lemma_unmake_null_undoes_make_null(s0: BoardState, s1: BoardState)
    requires
        made_null(s0, s1),
        s0.ply < usize::MAX,
        s0.height < usize::MAX,
    ensures
        unmade_null(s1) == s0,
{
    assert(s1.history.drop_last() =~= s0.history);
    assert(s0.side.opp().opp() == s0.side);
    lemma_xor_facts(s0.key, SIDE_KEY, 0, 0);
}

/// The last saved state was saved by a null move: it holds no kings.
pub open spec fn last_was_null(st: BoardState) -> bool {
    st.history.last().piece_layout.tbits(PieceType::King.idx()) == 0
}

/// The board that unmaking the last move, of the kind it was, gives back.
pub open spec fn rewound(st: BoardState) -> BoardState {
    if last_was_null(st) {
        unmade_null(st)
    } else {
        unmade(st)
    }
}

/// A board whose saved states can be restored one after another: it is
/// consistent (its keys are those of its position), and while it has a saved
/// state, unmaking the last move gives such a board again.
pub open spec fn rewindable(st: BoardState) -> bool
    decreases st.history.len(),
{
    &&& st.wf()
    &&& st.history.len() > 0 ==> {
        &&& st.height >= 1
        &&& st.ply >= 1
        &&& rewindable(rewound(st))
    }
}

/// A board loaded from a FEN has no saved state, and is rewindable.
pub proof fn lemma_fresh_rewindable(st: BoardState)
    requires
        st.wf(),
        st.history.len() == 0,
    ensures
        rewindable(st),
{
}

/// Making a move keeps a board rewindable, and unmaking it gives back the board
/// it was made on.
pub proof fn lemma_make_keeps_rewindable(s0: BoardState, m: Move, s1: BoardState)
    requires
        rewindable(s0),
        makeable(s0, m),
        s0.pos()[m.from_idx()] is Some,
        made(s0, m, s1),
    ensures
        s1.wf(),
        rewindable(s1),
        !last_was_null(s1),
        rewound(s1) == s0,
{
    lemma_kings_after(s0, m, s1.pieces);
    assert(s0.side.opp().opp() == s0.side);
    assert(s1.wf());
    let k = s0.pieces.tbits(PieceType::King.idx());
    let w = s0.pieces.cbits(Colour::White.idx());
    assert(k == 0 ==> k & w == 0) by (bit_vector);
    assert(s1.history.last() == undo_of(s0));
    assert(!last_was_null(s1));
    lemma_unmake_undoes_make(s0, m, s1);
}

/// Making a null move keeps a board rewindable, and unmaking it gives back the
/// board it was made on.
pub proof fn lemma_make_null_keeps_rewindable(s0: BoardState, s1: BoardState)
    requires
        rewindable(s0),
        s0.ply < usize::MAX,
        s0.height < usize::MAX,
        made_null(s0, s1),
        s1.wf(),
    ensures
        rewindable(s1),
        last_was_null(s1),
        rewound(s1) == s0,
{
    assert(s1.history.last() == null_undo(s0));
    assert(last_was_null(s1));
    lemma_unmake_null_undoes_make_null(s0, s1);
}

/// Unmaking the last move of a rewindable board, with the unmaking of its kind,
/// meets that unmaking's requirements and leaves a rewindable, so consistent, board.
pub proof fn lemma_unmake_keeps_rewindable(st: BoardState)
    requires
        rewindable(st),
        st.history.len() > 0,
    ensures
        st.height >= 1,
        st.ply >= 1,
        rewindable(rewound(st)),
        rewound(st).wf(),
{
    reveal_with_fuel(rewindable, 2);
}

/// The key that `key_after` predicts for a move that does not promote is the
/// key of the board once the move is made.
pub proof fn lemma_key_after_is_key(s0: BoardState, m: Move, s1: BoardState)
    requires
        s0.wf(),
        makeable(s0, m),
        s0.pos()[m.from_idx()] is Some,
        !m.promo(),
        made(s0, m, s1),
    ensures
        s1.key == key_after_spec(s0, m),
{
    m.lemma_idx_bounds();
    let p0 = s0.pos();
    let f = m.from_idx();
    let t = m.to_idx();
    let piece = p0[f]->0;
    let pa = p0.update(f, None);
    lemma_fold_update(p0, 0, f, None, 64);
    lemma_fold_update(pa, 0, t, Some(piece), 64);
    assert(after_pos(s0, m) == pa.update(t, Some(piece)));
    let a = fold_key(p0, 0, 64);
    let pf = piece_key(piece, f);
    let pt = piece_key(piece, t);
    let ct = piece_term(p0[t], 0, t);
    let st = side_term(s0.side);
    let st1 = side_term(s0.side.opp());
    assert(st1 == st ^ SIDE_KEY) by {
        lemma_xor_facts(0, SIDE_KEY, 0, 0);
        lemma_xor_facts(SIDE_KEY, 0, 0, 0);
    }
    assert(pa[t] == p0[t]);
    assert(s1.key == (((a ^ pf) ^ 0u64) ^ ct ^ pt) ^ st1);
    assert(s0.key == a ^ st);
    let k = SIDE_KEY;
    assert((((a ^ pf) ^ 0u64) ^ ct ^ pt) ^ (st ^ k) == (((((a ^ st) ^ k) ^ pf) ^ pt) ^ ct)) by (bit_vector);
    lemma_xor_facts((((a ^ st) ^ k) ^ pf) ^ pt, 0, 0, 0);
}

} // verus!
