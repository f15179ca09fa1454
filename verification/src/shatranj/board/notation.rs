use vstd::prelude::*;

use crate::shatranj::board::movegen::{MoveList, entry_ok, gen_move, has_move, move_budget, ok_from};
use crate::shatranj::board::{Board, BoardState, bb, makeable, occ};
use crate::shatranj::board::game::{gives_spec, playable, reply_room};
use crate::shatranj::board::movegen::attacks_by_type;
use crate::shatranj::attacks::{attacks_rel, lemma_attacks_sym};
use crate::shatranj::piece::{Piece, PieceType};
use crate::shatranj::squareset::{SquareSet, bit, lemma_bits_ops, popcount_upto};
use crate::shatranj::types::{CheckState, file_of, rank_of};
use crate::shatranj::text::{file_letter, file_str, rank_digit, rank_str};
use crate::shatranj::shatranjmove::Move;
use vstd::string::StringSliceAdditionalSpecFns;

verus! {

// ---------------------------------------------------------------------------
// Moves in UCI notation.
// ---------------------------------------------------------------------------

/// Why a move in UCI notation was refused.
#[derive(Debug, Clone, Copy, PartialEq, Eq, Structural)]
pub enum UciError {
    /// The move is not four or five bytes long.
    InvalidLength(usize),
    InvalidFromFile(u8),
    InvalidFromRank(u8),
    InvalidToFile(u8),
    InvalidToRank(u8),
    /// The fifth byte is not `q`.
    InvalidPromotion(u8),
    /// No generated move goes between the two squares.
    IllegalMove,
}

pub open spec fn is_file_byte(c: u8) -> bool {
    97u8 <= c <= 104u8
}

pub open spec fn is_rank_byte(c: u8) -> bool {
    49u8 <= c <= 56u8
}

/// The square named by a file byte and a rank byte.
pub open spec fn square_of(file: u8, rank: u8) -> int {
    (rank - 49u8) * 8 + (file - 97u8)
}

/// The first error in the text of a UCI move, if any: its length, then each
/// square's file and rank, then the promotion letter.
pub open spec fn uci_syntax_error(b: Seq<u8>) -> Option<UciError> {
    if !(4 <= b.len() <= 5) {
        Some(UciError::InvalidLength(b.len() as usize))
    } else if !is_file_byte(b[0]) {
        Some(UciError::InvalidFromFile(b[0]))
    } else if !is_rank_byte(b[1]) {
        Some(UciError::InvalidFromRank(b[1]))
    } else if !is_file_byte(b[2]) {
        Some(UciError::InvalidToFile(b[2]))
    } else if !is_rank_byte(b[3]) {
        Some(UciError::InvalidToRank(b[3]))
    } else if b.len() == 5 && b[4] != 113u8 {
        Some(UciError::InvalidPromotion(b[4]))
    } else {
        None
    }
}

impl Board {
    /// Parses a move in UCI notation (`e2e3`, or `e7e8q` for a promotion) into
    /// the generated move between the two squares.
    pub fn parse_uci(&self, uci: &str) -> (r: Result<Move, UciError>)
        requires
            self@.wf(),
            move_budget(self@.pieces, self@.side) <= 218,
        ensures
            ({
                let b = uci.spec_bytes();
                match uci_syntax_error(b) {
                    Some(e) => r == Err::<Move, UciError>(e),
                    None => {
                        let f = square_of(b[0], b[1]);
                        let t = square_of(b[2], b[3]);
                        &&& r is Ok <==> exists|p: bool| gen_move(self@, f, t, p) && (b.len() == 4 || p)
                        &&& r is Err ==> r == Err::<Move, UciError>(UciError::IllegalMove)
                        &&& r matches Ok(m) ==> m.valid() && m.from_idx() == f && m.to_idx() == t
                            && gen_move(self@, f, t, m.promo()) && (b.len() == 5 ==> m.promo())
                    },
                }
            }),
    {
        let san_bytes = uci.as_bytes();
        if !(4 <= san_bytes.len() && san_bytes.len() <= 5) {
            return Err(UciError::InvalidLength(san_bytes.len()));
        }
        if !(97u8 <= san_bytes[0] && san_bytes[0] <= 104u8) {
            return Err(UciError::InvalidFromFile(san_bytes[0]));
        }
        if !(49u8 <= san_bytes[1] && san_bytes[1] <= 56u8) {
            return Err(UciError::InvalidFromRank(san_bytes[1]));
        }
        if !(97u8 <= san_bytes[2] && san_bytes[2] <= 104u8) {
            return Err(UciError::InvalidToFile(san_bytes[2]));
        }
        if !(49u8 <= san_bytes[3] && san_bytes[3] <= 56u8) {
            return Err(UciError::InvalidToRank(san_bytes[3]));
        }
        if san_bytes.len() == 5 && san_bytes[4] != 113u8 {
            return Err(UciError::InvalidPromotion(san_bytes[4]));
        }
        let from = (san_bytes[1] - 49u8) * 8 + (san_bytes[0] - 97u8);
        let to = (san_bytes[3] - 49u8) * 8 + (san_bytes[2] - 97u8);
        let short = san_bytes.len() == 4;

        let ghost st = self@;
        let mut list = MoveList::new();
        self.generate_moves(&mut list);
        let entries = list.as_slice();
        let ghost es = list.entries();
        let mut i: usize = 0;
        while i < entries.len()
            invariant
                entries@ == es,
                st == self@,
                san_bytes@ == uci.spec_bytes(),
                uci_syntax_error(san_bytes@) is None,
                from == square_of(san_bytes@[0], san_bytes@[1]),
                to == square_of(san_bytes@[2], san_bytes@[3]),
                short == (san_bytes@.len() == 4),
                ok_from(st, es, 0, 0),
                i <= es.len(),
                forall|j: int| 0 <= j < i ==> !(#[trigger] es[j].mov.from_idx() == from && es[j].mov.to_idx() == to
                    && (short || es[j].mov.promo())),
            decreases es.len() - i,
        {
            let m = entries[i].mov;
            if m.from().index() == from as usize && m.to().index() == to as usize && (short || m.is_promo()) {
                proof {
                    assert(entry_ok(st, es[i as int], 0));
                    assert(m == es[i as int].mov);
                    assert(gen_move(st, from as int, to as int, m.promo()) && (short || m.promo()));
                    assert(san_bytes@ == uci.spec_bytes());
                    assert(from == square_of(san_bytes@[0], san_bytes@[1]));
                    assert(to == square_of(san_bytes@[2], san_bytes@[3]));
                }
                return Ok(m);
            }
            i = i + 1;
        }
        proof {
            assert forall|p: bool| !(gen_move(st, from as int, to as int, p) && (short || p)) by {
                if gen_move(st, from as int, to as int, p) && (short || p) {
                    assert(has_move(es, from as int, to as int, p));
                    let k = choose|k: int| 0 <= k < es.len() && #[trigger] es[k].mov.from_idx() == from && es[k].mov.to_idx() == to && es[k].mov.promo() == p;
                    assert(es[k].mov.from_idx() == from);
                }
            }
        }
        Err(UciError::IllegalMove)
    }
}

// ---------------------------------------------------------------------------
// Moves in standard algebraic notation.
// ---------------------------------------------------------------------------

/// The letter that names a piece type in algebraic notation (none for a pawn):
/// the alfil is written `B` and the ferz `Q`.
pub open spec fn piece_letter(pt: PieceType) -> Seq<char> {
    match pt {
        PieceType::Pawn => seq![],
        PieceType::Alfil => seq!['B'],
        PieceType::Ferz => seq!['Q'],
        PieceType::Knight => seq!['N'],
        PieceType::Rook => seq!['R'],
        PieceType::King => seq!['K'],
    }
}

fn piece_str(pt: PieceType) -> (s: &'static str)
    ensures
        s@ == piece_letter(pt),
{
    match pt {
        PieceType::Pawn => {
            proof { reveal_strlit(""); }
            ""
        },
        PieceType::Alfil => {
            proof { reveal_strlit("B"); }
            "B"
        },
        PieceType::Ferz => {
            proof { reveal_strlit("Q"); }
            "Q"
        },
        PieceType::Knight => {
            proof { reveal_strlit("N"); }
            "N"
        },
        PieceType::Rook => {
            proof { reveal_strlit("R"); }
            "R"
        },
        PieceType::King => {
            proof { reveal_strlit("K"); }
            "K"
        },
    }
}

/// How many of the squares below `n` satisfy `p`.
pub open spec fn count_where(p: spec_fn(int) -> bool, n: int) -> nat
    decreases n,
{
    if n <= 0 {
        0
    } else {
        count_where(p, n - 1) + if p(n - 1) { 1nat } else { 0nat }
    }
}

proof fn lemma_count_bits(x: u64, p: spec_fn(int) -> bool, n: int)
    requires
        forall|i: int| 0 <= i < 64 ==> (bit(x, i) <==> #[trigger] p(i)),
        n <= 64,
    ensures
        popcount_upto(x, n) == count_where(p, n),
    decreases n,
{
    if n > 0 {
        lemma_count_bits(x, p, n - 1);
    }
}

/// The pieces of the mover's kind that could also reach the target of `m`.
pub open spec fn rivals(st: BoardState, m: Move, p: Piece) -> spec_fn(int) -> bool {
    |i: int| bit(bb(st.pieces, p.colour_spec(), p.type_spec()), i) && attacks_rel(p.type_spec(), m.to_idx(), i, occ(st.pieces))
}

/// The sign after a move that checks (`+`) or mates (`#`).
pub open spec fn check_suffix(c: CheckState) -> Seq<char> {
    match c {
        CheckState::NoCheck => seq![],
        CheckState::Check => seq!['+'],
        CheckState::Checkmate => seq!['#'],
    }
}

/// The text of `m`, made by the piece `p`, in standard algebraic notation.
pub open spec fn san_text(st: BoardState, m: Move, p: Piece) -> Seq<char> {
    let f = m.from_idx();
    let t = m.to_idx();
    let pt = p.type_spec();
    let cap = st.pos()[t] is Some;
    let dis = disambiguation(st, m, p);
    let prefix = move_prefix(pt, cap, file_of(f));
    let d1 = if dis.0 { seq![file_letter(file_of(f))] } else { seq![] };
    let d2 = if dis.1 { seq![rank_digit(rank_of(f))] } else { seq![] };
    let x = if cap { seq!['x'] } else { seq![] };
    let to_file = seq![file_letter(file_of(t))];
    let to_rank = seq![rank_digit(rank_of(t))];
    let promo = if m.promo() { seq!['=', 'Q'] } else { seq![] };
    let check = check_suffix(gives_spec(st, m));
    prefix + d1 + d2 + x + to_file + to_rank + promo + check
}

fn check_str(c: CheckState) -> (r: &'static str)
    ensures
        r@ == check_suffix(c),
{
    match c {
        CheckState::NoCheck => {
            proof { reveal_strlit(""); }
            ""
        },
        CheckState::Check => {
            proof { reveal_strlit("+"); }
            "+"
        },
        CheckState::Checkmate => {
            proof { reveal_strlit("#"); }
            "#"
        },
    }
}

/// What a move's text starts with: the piece letter, or for a pawn that
/// captures the letter of the file it leaves.
pub open spec fn move_prefix(pt: PieceType, cap: bool, from_file: int) -> Seq<char> {
    if pt == PieceType::Pawn {
        if cap { seq![file_letter(from_file)] } else { seq![] }
    } else {
        piece_letter(pt)
    }
}

fn prefix_str(pt: PieceType, cap: bool, from_file: u8) -> (r: &'static str)
    requires
        from_file < 8,
    ensures
        r@ == move_prefix(pt, cap, from_file as int),
{
    if pt == PieceType::Pawn {
        if cap {
            file_str(from_file)
        } else {
            proof { reveal_strlit(""); }
            ""
        }
    } else {
        piece_str(pt)
    }
}

/// `s`, or nothing.
fn keep_if(cond: bool, s: &'static str) -> (r: &'static str)
    ensures
        r@ == if cond { s@ } else { Seq::<char>::empty() },
{
    if cond {
        s
    } else {
        proof { reveal_strlit(""); }
        ""
    }
}

fn x_str() -> (r: &'static str)
    ensures
        r@ == seq!['x'],
{
    proof { reveal_strlit("x"); }
    "x"
}

fn promo_q_str() -> (r: &'static str)
    ensures
        r@ == seq!['=', 'Q'],
{
    proof { reveal_strlit("=Q"); }
    "=Q"
}

/// Whether the from-square of `m` must be named by its file, and by its rank,
/// to tell the move from the moves of other pieces of the mover's kind.
#[verifier::opaque]
pub open spec fn disambiguation(st: BoardState, m: Move, p: Piece) -> (bool, bool) {
    let f = m.from_idx();
    let amb = rivals(st, m, p);
    let needs = p.type_spec() != PieceType::Pawn && count_where(amb, 64) > 1;
    let by_file = count_where(|i: int| amb(i) && file_of(i) == file_of(f), 64) == 1;
    let by_rank = count_where(|i: int| amb(i) && rank_of(i) == rank_of(f), 64) == 1;
    let both = !by_file && !by_rank;
    (needs && (both || by_file), needs && (both || (by_rank && !by_file)))
}

/// Another piece like `p`, besides the one on `f`, stands on `i` and attacks `t`.
pub open spec fn rival_on(st: BoardState, p: Piece, f: int, t: int, i: int) -> bool {
    &&& 0 <= i < 64
    &&& i != f
    &&& st.pos()[i] == Some(p)
    &&& attacks_rel(p.type_spec(), i, t, occ(st.pieces))
}

proof fn lemma_count_one(q: spec_fn(int) -> bool, n: int, f: int)
    requires
        0 <= f < n,
        q(f),
        forall|j: int| 0 <= j < n && #[trigger] q(j) ==> j == f,
    ensures
        count_where(q, n) == 1,
    decreases n,
{
    if n - 1 > f {
        lemma_count_one(q, n - 1, f);
    } else {
        lemma_count_none(q, n - 1);
    }
}

proof fn lemma_count_none(q: spec_fn(int) -> bool, n: int)
    requires
        forall|j: int| 0 <= j < n ==> !#[trigger] q(j),
    ensures
        count_where(q, n) == 0,
    decreases n,
{
    if n > 0 {
        lemma_count_none(q, n - 1);
    }
}

proof fn lemma_count_two(q: spec_fn(int) -> bool, n: int, a: int, b: int)
    requires
        0 <= a < b < n,
        q(a),
        q(b),
    ensures
        count_where(q, n) >= 2,
    decreases n,
{
    if n - 1 > b {
        lemma_count_two(q, n - 1, a, b);
    } else {
        lemma_count_at_least_one(q, n - 1, a);
    }
}

proof fn lemma_count_at_least_one(q: spec_fn(int) -> bool, n: int, a: int)
    requires
        0 <= a < n,
        q(a),
    ensures
        count_where(q, n) >= 1,
    decreases n,
{
    if n - 1 > a {
        lemma_count_at_least_one(q, n - 1, a);
    }
}

/// A predicate that holds at `f` holds once in the squares exactly when it
/// holds nowhere else.
proof fn lemma_count_once(q: spec_fn(int) -> bool, f: int)
    requires
        0 <= f < 64,
        q(f),
    ensures
        (count_where(q, 64) == 1) <==> (forall|j: int| 0 <= j < 64 && #[trigger] q(j) ==> j == f),
{
    if forall|j: int| 0 <= j < 64 && #[trigger] q(j) ==> j == f {
        lemma_count_one(q, 64, f);
    } else {
        let j: int = choose|j: int| 0 <= j < 64 && #[trigger] q(j) && j != f;
        if j < f {
            lemma_count_two(q, 64, j, f);
        } else {
            lemma_count_two(q, 64, f, j);
        }
    }
}

/// The from-square of a piece's move is named just as far as it must be to
/// tell the move from those of the other pieces of the same kind that attack
/// its target: not at all when there is none; by its file when no other shares
/// the file; else by its rank when no other shares the rank; else by both.
/// Each other such piece then differs in a coordinate that is named.
pub proof fn lemma_disambiguation_tells_apart(st: BoardState, m: Move, p: Piece)
    requires
        st.pieces.matches(st.pos()),
        st.pos()[m.from_idx()] == Some(p),
        p.type_spec() != PieceType::Pawn,
        attacks_rel(p.type_spec(), m.from_idx(), m.to_idx(), occ(st.pieces)),
    ensures
        ({
            let f = m.from_idx();
            let t = m.to_idx();
            let dis = disambiguation(st, m, p);
            &&& (forall|i: int| !#[trigger] rival_on(st, p, f, t, i)) ==> !dis.0 && !dis.1
            &&& forall|i: int| #[trigger] rival_on(st, p, f, t, i)
                ==> (dis.0 && file_of(i) != file_of(f)) || (dis.1 && rank_of(i) != rank_of(f))
            &&& (exists|i: int| #[trigger] rival_on(st, p, f, t, i))
                && (forall|i: int| #[trigger] rival_on(st, p, f, t, i) ==> file_of(i) != file_of(f))
                ==> dis.0 && !dis.1
            &&& (exists|i: int| #[trigger] rival_on(st, p, f, t, i) && file_of(i) == file_of(f))
                && (forall|i: int| #[trigger] rival_on(st, p, f, t, i) ==> rank_of(i) != rank_of(f))
                ==> !dis.0 && dis.1
            &&& (exists|i: int| #[trigger] rival_on(st, p, f, t, i) && file_of(i) == file_of(f))
                && (exists|i: int| #[trigger] rival_on(st, p, f, t, i) && rank_of(i) == rank_of(f))
                ==> dis.0 && dis.1
        }),
{
    reveal(disambiguation);
    let f = m.from_idx();
    let t = m.to_idx();
    m.lemma_idx_bounds();
    let l = st.pieces;
    l.lemma_matches_pos(st.pos());
    crate::shatranj::piecelayout::lemma_wf_bits(l);
    p.lemma_piece_of();
    let amb = rivals(st, m, p);
    assert forall|i: int| #[trigger] amb(i) <==> (i == f || rival_on(st, p, f, t, i)) by {
        lemma_attacks_sym(p.type_spec(), t, i, occ(l));
        assert(bit(bb(l, p.colour_spec(), p.type_spec()), i) <==> (0 <= i < 64 && st.pos()[i] == Some(p)));
    }
    let qf = |i: int| amb(i) && file_of(i) == file_of(f);
    let qr = |i: int| amb(i) && rank_of(i) == rank_of(f);
    lemma_count_once(amb, f);
    lemma_count_once(qf, f);
    lemma_count_once(qr, f);
    let needs = count_where(amb, 64) > 1;
    let by_file = count_where(qf, 64) == 1;
    let by_rank = count_where(qr, 64) == 1;
    assert(count_where(amb, 64) >= 1) by {
        lemma_count_at_least_one(amb, 64, f);
    }
    assert(needs <==> exists|i: int| #[trigger] rival_on(st, p, f, t, i)) by {
        if exists|i: int| #[trigger] rival_on(st, p, f, t, i) {
            let i: int = choose|i: int| #[trigger] rival_on(st, p, f, t, i);
            assert(amb(i));
        } else {
            assert forall|j: int| 0 <= j < 64 && #[trigger] amb(j) implies j == f by {
                if j != f {
                    assert(rival_on(st, p, f, t, j));
                }
            }
        }
    }
    assert(by_file <==> forall|i: int| #[trigger] rival_on(st, p, f, t, i) ==> file_of(i) != file_of(f)) by {
        if by_file {
            assert forall|i: int| #[trigger] rival_on(st, p, f, t, i) implies file_of(i) != file_of(f) by {
                if file_of(i) == file_of(f) {
                    assert(qf(i));
                }
            }
        }
    }
    assert(by_rank <==> forall|i: int| #[trigger] rival_on(st, p, f, t, i) ==> rank_of(i) != rank_of(f)) by {
        if by_rank {
            assert forall|i: int| #[trigger] rival_on(st, p, f, t, i) implies rank_of(i) != rank_of(f) by {
                if rank_of(i) == rank_of(f) {
                    assert(qr(i));
                }
            }
        }
    }
    assert forall|i: int| #[trigger] rival_on(st, p, f, t, i) && file_of(i) == file_of(f) && rank_of(i) == rank_of(f) implies false by {
        assert(i == rank_of(i) * 8 + file_of(i) && f == rank_of(f) * 8 + file_of(f));
    }
}

/// The text of a piece's move names, after the piece letter, the file or the
/// rank of the from-square exactly when another piece of the same kind attacks
/// the target: the file when no other such piece shares it, else the rank when
/// no other shares that; with no such piece the capture sign or the target's
/// file follows the letter.
pub proof fn lemma_san_names_the_from_square(st: BoardState, m: Move, p: Piece)
    requires
        st.pieces.matches(st.pos()),
        st.pos()[m.from_idx()] == Some(p),
        p.type_spec() != PieceType::Pawn,
        attacks_rel(p.type_spec(), m.from_idx(), m.to_idx(), occ(st.pieces)),
    ensures
        ({
            let f = m.from_idx();
            let t = m.to_idx();
            let s = san_text(st, m, p);
            let ff = file_letter(file_of(f));
            let rd = rank_digit(rank_of(f));
            &&& s.len() >= 3
            &&& s[0] == piece_letter(p.type_spec())[0]
            &&& (exists|i: int| #[trigger] rival_on(st, p, f, t, i)) ==> s[1] == ff || s[1] == rd
            &&& (exists|i: int| #[trigger] rival_on(st, p, f, t, i))
                && (forall|i: int| #[trigger] rival_on(st, p, f, t, i) ==> file_of(i) != file_of(f))
                ==> s[1] == ff
            &&& (exists|i: int| #[trigger] rival_on(st, p, f, t, i) && file_of(i) == file_of(f))
                && (forall|i: int| #[trigger] rival_on(st, p, f, t, i) ==> rank_of(i) != rank_of(f))
                ==> s[1] == rd
            &&& (forall|i: int| !#[trigger] rival_on(st, p, f, t, i))
                ==> s[1] == (if st.pos()[t] is Some { 'x' } else { file_letter(file_of(t)) })
        }),
{
    lemma_disambiguation_tells_apart(st, m, p);
    let f = m.from_idx();
    let t = m.to_idx();
    let pt = p.type_spec();
    let cap = st.pos()[t] is Some;
    let dis = disambiguation(st, m, p);
    let prefix = move_prefix(pt, cap, file_of(f));
    let d1: Seq<char> = if dis.0 { seq![file_letter(file_of(f))] } else { seq![] };
    let d2: Seq<char> = if dis.1 { seq![rank_digit(rank_of(f))] } else { seq![] };
    let x: Seq<char> = if cap { seq!['x'] } else { seq![] };
    let to_file = seq![file_letter(file_of(t))];
    let to_rank = seq![rank_digit(rank_of(t))];
    let promo: Seq<char> = if m.promo() { seq!['=', 'Q'] } else { seq![] };
    let check = check_suffix(gives_spec(st, m));
    assert(prefix.len() == 1);
    let s = san_text(st, m, p);
    assert(s == prefix + d1 + d2 + x + to_file + to_rank + promo + check);
    let s1 = prefix + d1 + d2 + x + to_file;
    assert(s[1] == s1[1]);
}

/// The shape of a move's text: it ends with the check sign (`+` for check,
/// `#` for mate, nothing otherwise), before which stands `=Q` for a promotion,
/// and before that the target square; a capture puts `x` just before the
/// target; a pawn's move that captures starts with the file it leaves, and one
/// that does not is the target square alone.
pub proof fn lemma_san_text_shape(st: BoardState, m: Move, p: Piece)
    requires
        st.pos()[m.from_idx()] == Some(p),
    ensures
        ({
            let f = m.from_idx();
            let t = m.to_idx();
            let s = san_text(st, m, p);
            let sfx = check_suffix(gives_spec(st, m));
            let e = s.len() - sfx.len() - if m.promo() { 2int } else { 0 };
            let cap = st.pos()[t] is Some;
            &&& 2 <= e
            &&& s[e - 2] == file_letter(file_of(t))
            &&& s[e - 1] == rank_digit(rank_of(t))
            &&& m.promo() ==> s[e] == '=' && s[e + 1] == 'Q'
            &&& s.subrange(s.len() - sfx.len(), s.len() as int) == sfx
            &&& gives_spec(st, m) == CheckState::Check ==> s.last() == '+'
            &&& gives_spec(st, m) == CheckState::Checkmate ==> s.last() == '#'
            &&& cap ==> 3 <= e && s[e - 3] == 'x'
            &&& p.type_spec() == PieceType::Pawn && !cap ==> e == 2
            &&& p.type_spec() == PieceType::Pawn && cap ==> e == 4 && s[0] == file_letter(file_of(f))
            &&& p.type_spec() != PieceType::Pawn ==> s[0] == piece_letter(p.type_spec())[0]
        }),
{
    reveal(disambiguation);
    let f = m.from_idx();
    let t = m.to_idx();
    let pt = p.type_spec();
    let cap = st.pos()[t] is Some;
    let dis = disambiguation(st, m, p);
    let prefix = move_prefix(pt, cap, file_of(f));
    let d1: Seq<char> = if dis.0 { seq![file_letter(file_of(f))] } else { seq![] };
    let d2: Seq<char> = if dis.1 { seq![rank_digit(rank_of(f))] } else { seq![] };
    let x: Seq<char> = if cap { seq!['x'] } else { seq![] };
    let to_file = seq![file_letter(file_of(t))];
    let to_rank = seq![rank_digit(rank_of(t))];
    let promo: Seq<char> = if m.promo() { seq!['=', 'Q'] } else { seq![] };
    let sfx = check_suffix(gives_spec(st, m));
    let s = san_text(st, m, p);
    let head = prefix + d1 + d2 + x;
    let body = head + to_file + to_rank;
    assert(s == body + promo + sfx);
    let e = body.len() as int;
    assert(s.len() - sfx.len() - promo.len() == e);
    assert(s[e - 2] == body[e - 2]);
    assert(s[e - 1] == body[e - 1]);
    if m.promo() {
        assert(s[e] == (body + promo)[e]);
        assert(s[e + 1] == (body + promo)[e + 1]);
    }
    assert(s.subrange(s.len() - sfx.len(), s.len() as int) =~= sfx);
    if sfx.len() > 0 {
        assert(s.last() == sfx.last());
    }
    if cap {
        assert(s[e - 3] == head[head.len() - 1]);
    }
    if pt == PieceType::Pawn {
        assert(!dis.0 && !dis.1);
    }
    assert(s[0] == prefix[0] || prefix.len() == 0);
    if pt == PieceType::Pawn && cap {
        assert(s[0] == body[0]);
    }
}

impl Board {
    fn san_disambiguation(&self, m: Move, moved_piece: Piece) -> (r: (bool, bool))
        requires
            self@.pos()[m.from_idx()] == Some(moved_piece),
        ensures
            r == disambiguation(self@, m, moved_piece),
    {
        proof {
            reveal(disambiguation);
        }
        let ghost st = self@;
        let from = m.from();
        let to_sq = m.to();
        let pt = moved_piece.piece_type();
        let ghost amb = rivals(st, m, moved_piece);
        let possible_ambiguous_attackers = if pt == PieceType::Pawn {
            SquareSet::empty()
        } else {
            let att = attacks_by_type(pt, to_sq, self.pieces.occupied());
            let ours = self.pieces.piece_bb(moved_piece);
            proof {
                lemma_bits_ops(att.inner, ours.inner);
                assert(ours.inner == bb(st.pieces, moved_piece.colour_spec(), pt));
                assert forall|i: int| 0 <= i < 64 implies (bit(att.inner & ours.inner, i) <==> #[trigger] amb(i)) by {}
            }
            att & ours
        };
        let files = SquareSet::file(from.file().index());
        let ranks = SquareSet::rank(from.rank().index());
        let n_amb = possible_ambiguous_attackers.count();
        let n_file = (possible_ambiguous_attackers & files).count();
        let n_rank = (possible_ambiguous_attackers & ranks).count();
        proof {
            let a = possible_ambiguous_attackers.inner;
            lemma_bits_ops(a, files.inner);
            lemma_bits_ops(a, ranks.inner);
            assert forall|i: int| 0 <= i < 64 implies (bit(a, i) <==> #[trigger] amb(i)) by {}
            lemma_count_bits(a, amb, 64);
            lemma_count_bits(a & files.inner, |i: int| amb(i) && file_of(i) == file_of(from.idx()), 64);
            lemma_count_bits(a & ranks.inner, |i: int| amb(i) && rank_of(i) == rank_of(from.idx()), 64);
        }
        let needs_disambiguation = n_amb > 1 && pt != PieceType::Pawn;
        let can_be_disambiguated_by_file = n_file == 1;
        let can_be_disambiguated_by_rank = n_rank == 1;
        let needs_both = !can_be_disambiguated_by_file && !can_be_disambiguated_by_rank;
        let must_be_disambiguated_by_file = needs_both || can_be_disambiguated_by_file;
        let must_be_disambiguated_by_rank = needs_both || (can_be_disambiguated_by_rank && !can_be_disambiguated_by_file);
        (needs_disambiguation && must_be_disambiguated_by_file, needs_disambiguation && must_be_disambiguated_by_rank)
    }

    /// The move `m` in standard algebraic notation; none when no piece stands
    /// on its from-square.
    pub fn san(&mut self, m: Move) -> (r: Option<String>)
        requires
            playable(old(self)@),
            reply_room(old(self)@),
            makeable(old(self)@, m),
        ensures
            final(self)@ == old(self)@,
            match old(self)@.pos()[m.from_idx()] {
                None => r is None,
                Some(p) => r matches Some(s) && s@ == san_text(old(self)@, m, p),
            },
    {
        let ghost st = self@;
        let check_state = self.gives(m);
        let check_char = check_str(check_state);
        let from = m.from();
        let to_sq = m.to();
        let moved_piece = match self.piece_at(from) {
            Some(p) => p,
            None => {
                return None;
            },
        };
        let is_capture = self.is_capture(m);
        let pt = moved_piece.piece_type();
        let from_file = from.file().index();
        let from_rank = from.rank().index();
        let piece_prefix = prefix_str(pt, is_capture, from_file);
        let (by_file, by_rank) = self.san_disambiguation(m, moved_piece);
        let d1 = keep_if(by_file, file_str(from_file));
        let d2 = keep_if(by_rank, rank_str(from_rank));
        let capture_sigil = keep_if(is_capture, x_str());
        let promo_str = keep_if(m.is_promo(), promo_q_str());
        let to_file = file_str(to_sq.file().index());
        let to_rank = rank_str(to_sq.rank().index());
        let mut out = String::from_str(piece_prefix);
        out.append(d1);
        out.append(d2);
        out.append(capture_sigil);
        out.append(to_file);
        out.append(to_rank);
        out.append(promo_str);
        out.append(check_char);
        proof {
            assert(out@ == san_text(st, m, moved_piece));
        }
        Some(out)
    }
}

} // verus!
