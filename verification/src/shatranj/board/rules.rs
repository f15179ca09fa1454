//! The moves that the generators produce, held against the rules of the game.

use vstd::prelude::*;

use crate::shatranj::attacks::{
    alfil_rel, attacks_rel, between, ferz_rel, knight_rel, lemma_between_sym, lemma_pawn_attacked,
    lemma_ray_between, lemma_rook_blocked, lemma_two_beyond, pawn_rel, ray_at, ray_len, rook_rel, slide_rel,
};
use crate::shatranj::board::{
    BoardState, after_pos, attacked_by, bb, checker, ksq, layout_of, leaves_king_attacked, lemma_after_layout,
    lemma_king_squares, lemma_kings_after, occ, pseudo_legal, type_attacks,
};
use crate::shatranj::board::game::{legal, opponent_safe};
use crate::shatranj::board::movegen::{
    MoveListEntry, double_check, entry_ok, evasion_target, gen_move, has_move, king_move, lemma_st_bits, ok_from,
    pawn_move, piece_move, type_on,
};
use crate::shatranj::piece::{Colour, Piece, PieceType, piece_of};
use crate::shatranj::piecelayout::{PieceLayout, Position, lemma_wf_bits};
use crate::shatranj::shatranjmove::Move;
use crate::shatranj::squareset::{bit, lemma_lowest_bit, lemma_pop_clear_lowest, lemma_pop_zero, popcount};
use crate::shatranj::types::{file_of, rank_of};

verus! {

/// The piece `pc` on `s` attacks `x` when `occ` is occupied.
pub open spec fn piece_attacks(pc: Piece, s: int, x: int, occ: u64) -> bool {
    if pc.type_spec() == PieceType::Pawn {
        pawn_rel(pc.colour_spec(), s, x)
    } else {
        attacks_rel(pc.type_spec(), s, x, occ)
    }
}

/// A square is attacked by a side exactly when one of its pieces attacks it.
proof fn lemma_attacked_from(l: PieceLayout, p: Position, c: Colour, x: int, s: int)
    requires
        l.matches(p),
        0 <= s < 64,
        p[s] is Some,
        p[s]->0.colour_spec() == c,
        piece_attacks(p[s]->0, s, x, occ(l)),
    ensures
        attacked_by(l, c, x),
{
    l.lemma_matches_pos(p);
    lemma_wf_bits(l);
    let pc = p[s]->0;
    pc.lemma_piece_of();
    let ty = pc.type_spec();
    assert(bit(bb(l, c, ty), s));
    if ty == PieceType::Pawn {
        lemma_pawn_attacked(c, bb(l, c, PieceType::Pawn), x);
    } else {
        assert(type_attacks(l, c, ty, x));
    }
}

/// An attacked square has a piece of the attacking side that attacks it.
proof fn lemma_attacker(l: PieceLayout, p: Position, c: Colour, x: int) -> (s: int)
    requires
        l.matches(p),
        attacked_by(l, c, x),
    ensures
        0 <= s < 64,
        p[s] is Some,
        p[s]->0.colour_spec() == c,
        piece_attacks(p[s]->0, s, x, occ(l)),
{
    l.lemma_matches_pos(p);
    lemma_wf_bits(l);
    lemma_pawn_attacked(c, bb(l, c, PieceType::Pawn), x);
    let ty = if crate::shatranj::attacks::pawn_attacked(c, bb(l, c, PieceType::Pawn), x) {
        PieceType::Pawn
    } else if type_attacks(l, c, PieceType::Alfil, x) {
        PieceType::Alfil
    } else if type_attacks(l, c, PieceType::Ferz, x) {
        PieceType::Ferz
    } else if type_attacks(l, c, PieceType::Knight, x) {
        PieceType::Knight
    } else if type_attacks(l, c, PieceType::Rook, x) {
        PieceType::Rook
    } else {
        PieceType::King
    };
    let s = if ty == PieceType::Pawn {
        choose|s: int| #[trigger] bit(bb(l, c, PieceType::Pawn), s) && pawn_rel(c, s, x)
    } else {
        choose|s: int| #[trigger] bit(bb(l, c, ty), s) && attacks_rel(ty, s, x, occ(l))
    };
    assert(p[s] == Some(piece_of(c, ty)));
    Piece::lemma_of_piece(c, ty);
    s
}

/// An attack on `x` from a piece on `s` that a move neither takes nor blocks
/// goes on after the move.
proof fn lemma_attack_stays(st: BoardState, m: Move, l1: PieceLayout, s: int, x: int)
    requires
        st.wf(),
        l1.matches(after_pos(st, m)),
        0 <= m.from_idx() < 64,
        0 <= m.to_idx() < 64,
        0 <= s < 64,
        s != m.from_idx(),
        s != m.to_idx(),
        st.pos()[s] is Some,
        piece_attacks(st.pos()[s]->0, s, x, occ(st.pieces)),
        st.pos()[s]->0.type_spec() == PieceType::Rook ==> !between(s, x, m.to_idx()),
    ensures
        attacked_by(l1, st.pos()[s]->0.colour_spec(), x),
{
    let p0 = st.pos();
    let p1 = after_pos(st, m);
    let pc = p0[s]->0;
    let f = m.from_idx();
    let t = m.to_idx();
    assert(p1[s] == p0[s]);
    if pc.type_spec() == PieceType::Rook {
        let o0 = occ(st.pieces);
        let o1 = occ(l1);
        st.pieces.lemma_matches_pos(p0);
        l1.lemma_matches_pos(p1);
        lemma_wf_bits(st.pieces);
        lemma_wf_bits(l1);
        let dir = if slide_rel(s, 0, x, o0) { 0int } else if slide_rel(s, 1, x, o0) { 1int } else if slide_rel(s, 2, x, o0) { 2int } else { 3int };
        assert(slide_rel(s, dir, x, o0));
        assert forall|j: int| 1 <= j < ray_len(s, dir, x) implies !#[trigger] bit(o1, ray_at(s, dir, j)) by {
            lemma_ray_between(s, dir, x, j);
            let y = ray_at(s, dir, j);
            assert(!bit(o0, y));
            assert(y != t);
            if y != f {
                assert(p1[y] == p0[y]);
            }
        }
        assert(slide_rel(s, dir, x, o1));
        assert(rook_rel(s, x, o1));
    }
    lemma_attacked_from(l1, p1, pc.colour_spec(), x, s);
}

/// A piece that gives check attacks the king from its square.
proof fn lemma_checker_attacks(l: PieceLayout, p: Position, c: Colour, s: int)
    requires
        l.matches(p),
        checker(l, c, s),
    ensures
        0 <= s < 64,
        p[s] is Some,
        p[s]->0.colour_spec() == c,
        piece_attacks(p[s]->0, s, ksq(l, c.opp()), occ(l)),
{
    l.lemma_matches_pos(p);
    lemma_wf_bits(l);
    let ty = if bit(bb(l, c, PieceType::Pawn), s) && pawn_rel(c, s, ksq(l, c.opp())) {
        PieceType::Pawn
    } else if bit(bb(l, c, PieceType::Alfil), s) && alfil_rel(s, ksq(l, c.opp())) {
        PieceType::Alfil
    } else if bit(bb(l, c, PieceType::Ferz), s) && ferz_rel(s, ksq(l, c.opp())) {
        PieceType::Ferz
    } else if bit(bb(l, c, PieceType::Knight), s) && knight_rel(s, ksq(l, c.opp())) {
        PieceType::Knight
    } else {
        PieceType::Rook
    };
    assert(bit(bb(l, c, ty), s));
    assert(p[s] == Some(piece_of(c, ty)));
    Piece::lemma_of_piece(c, ty);
}

/// A rook attacks only along its rank and its file.
proof fn lemma_rook_line(s: int, x: int, o: u64)
    requires
        rook_rel(s, x, o),
    ensures
        rank_of(s) == rank_of(x) || file_of(s) == file_of(x),
{
}

/// Every move that the generators produce is pseudo-legal.
pub proof fn lemma_generated_pseudo_legal(st: BoardState, m: Move)
    requires
        st.wf(),
        gen_move(st, m.from_idx(), m.to_idx(), m.promo()),
    ensures
        pseudo_legal(st, m),
{
    let l = st.pieces;
    let f = m.from_idx();
    let t = m.to_idx();
    lemma_st_bits(st);
    lemma_king_squares(l, st.pos(), st.side);
    if king_move(st, f, t, m.promo()) {
        assert(st.pos()[f] == Some(piece_of(st.side, PieceType::King)));
        Piece::lemma_of_piece(st.side, PieceType::King);
    }
}

/// Every pseudo-legal move that leaves the mover's king unattacked is one that
/// the generators produce.
pub proof fn lemma_safe_pseudo_legal_generated(st: BoardState, m: Move)
    requires
        st.wf(),
        opponent_safe(st),
        pseudo_legal(st, m),
        !leaves_king_attacked(st, m),
    ensures
        gen_move(st, m.from_idx(), m.to_idx(), m.promo()),
{
    let l0 = st.pieces;
    let p0 = st.pos();
    let f = m.from_idx();
    let t = m.to_idx();
    let c = st.side;
    m.lemma_idx_bounds();
    lemma_st_bits(st);
    lemma_king_squares(l0, p0, c);
    lemma_king_squares(l0, p0, c.opp());
    l0.lemma_matches_pos(p0);
    lemma_wf_bits(l0);
    let pc = p0[f]->0;
    assert(f != t);
    // The move takes no king: the other king is not attacked.
    if p0[t] is Some && p0[t]->0.type_spec() == PieceType::King {
        assert(p0[t] == Some(piece_of(c.opp(), PieceType::King))) by {
            p0[t]->0.lemma_piece_of();
        }
        assert(piece_attacks(pc, f, t, occ(l0)));
        lemma_attacked_from(l0, p0, c, t, f);
        assert(false);
    }
    if pc.type_spec() == PieceType::King && m.promo() {
        assert(false);
    }
    lemma_after_layout(st, m);
    let l1 = layout_of(after_pos(st, m));
    lemma_kings_after(st, m, l1);
    let k = ksq(l0, c);
    if pc.type_spec() == PieceType::King {
        assert(p0[f] == Some(piece_of(c, PieceType::King))) by {
            pc.lemma_piece_of();
        }
        assert(f == k);
        assert(ksq(l1, c) == t);
        if bit(st.threats.all.inner, t) {
            let s = lemma_attacker(l0, p0, c.opp(), t);
            assert(s != t);
            assert(s != f);
            lemma_attack_stays(st, m, l1, s, t);
            assert(false);
        }
        assert(king_move(st, f, t, m.promo()));
    } else {
        assert(p0[f] != Some(piece_of(c, PieceType::King))) by {
            pc.lemma_piece_of();
            Piece::lemma_of_piece(c, PieceType::King);
        }
        assert(ksq(l1, c) == k);
        let chk = st.threats.checkers.inner;
        // Each checker is taken, or is a rook whose line the move blocks.
        assert forall|s: int| #[trigger] bit(chk, s) implies s == t || (type_on(st, s) == PieceType::Rook && between(s, k, t)) by {
            assert(c.opp().opp() == c);
            lemma_checker_attacks(l0, p0, c.opp(), s);
            if s != t && !(type_on(st, s) == PieceType::Rook && between(s, k, t)) {
                lemma_attack_stays(st, m, l1, s, k);
                assert(false);
            }
        }
        if chk != 0 {
            lemma_lowest_bit(chk);
            let c1 = chk.trailing_zeros() as int;
            assert(bit(chk, c1));
            if c1 != t {
                lemma_between_sym(c1, k, t);
            }
            assert(evasion_target(st, t));
            if popcount(chk) > 1 {
                let rest = chk & ((chk - 1u64) as u64);
                lemma_pop_clear_lowest(chk);
                lemma_pop_zero(64);
                assert(rest != 0);
                lemma_lowest_bit(rest);
                let c2 = rest.trailing_zeros() as int;
                assert(bit(rest, c2));
                assert(bit(chk, c2) && c2 != c1);
                assert(c.opp().opp() == c);
                lemma_checker_attacks(l0, p0, c.opp(), c1);
                lemma_checker_attacks(l0, p0, c.opp(), c2);
                assert(bit(occ(l0), c1) && bit(occ(l0), c2));
                if c1 == t {
                    lemma_rook_blocked(c2, k, c1, occ(l0));
                } else if c2 == t {
                    lemma_rook_blocked(c1, k, c2, occ(l0));
                } else {
                    lemma_rook_line(c1, k, occ(l0));
                    lemma_rook_line(c2, k, occ(l0));
                    lemma_two_beyond(k, c1, c2, t);
                    if between(c1, k, c2) {
                        lemma_rook_blocked(c1, k, c2, occ(l0));
                    } else {
                        lemma_rook_blocked(c2, k, c1, occ(l0));
                    }
                }
                assert(false);
            }
        } else {
            lemma_pop_zero(64);
        }
        assert(!double_check(st));
        assert(evasion_target(st, t));
        if pc.type_spec() == PieceType::Pawn {
            assert(pawn_move(st, f, t, m.promo()));
        } else {
            assert(piece_move(st, f, t, m.promo()));
        }
    }
}

/// A legal move is exactly a pseudo-legal move that leaves the mover's king
/// unattacked.
pub proof fn lemma_legal_iff_safe_pseudo_legal(st: BoardState, m: Move)
    requires
        st.wf(),
        opponent_safe(st),
    ensures
        legal(st, m) <==> (m.valid() && pseudo_legal(st, m) && !leaves_king_attacked(st, m)),
{
    if legal(st, m) {
        lemma_generated_pseudo_legal(st, m);
    }
    if m.valid() && pseudo_legal(st, m) && !leaves_king_attacked(st, m) {
        lemma_safe_pseudo_legal_generated(st, m);
    }
}

/// A move list that holds the generated moves, as `Board::generate_moves`
/// leaves it, holds only pseudo-legal moves, and every pseudo-legal move that
/// leaves the mover's king unattacked is in it.
pub proof fn lemma_generated_list_rules(st: BoardState, es: Seq<MoveListEntry>)
    requires
        st.wf(),
        opponent_safe(st),
        ok_from(st, es, 0, 0),
        forall|f: int, t: int, p: bool| gen_move(st, f, t, p) ==> #[trigger] has_move(es, f, t, p),
    ensures
        forall|k: int| 0 <= k < es.len() ==> pseudo_legal(st, #[trigger] es[k].mov),
        forall|m: Move| m.valid() && pseudo_legal(st, m) && !leaves_king_attacked(st, m)
            ==> #[trigger] has_move(es, m.from_idx(), m.to_idx(), m.promo()),
{
    assert forall|k: int| 0 <= k < es.len() implies pseudo_legal(st, #[trigger] es[k].mov) by {
        assert(entry_ok(st, es[k], 0));
        lemma_generated_pseudo_legal(st, es[k].mov);
    }
    assert forall|m: Move| m.valid() && pseudo_legal(st, m) && !leaves_king_attacked(st, m)
        implies #[trigger] has_move(es, m.from_idx(), m.to_idx(), m.promo()) by {
        lemma_safe_pseudo_legal_generated(st, m);
    }
}

} // verus!
