use vstd::prelude::*;

use crate::shatranj::board::{Board, BoardState, bb, fold_key, full_key, lemma_king_squares, one_king, ksq};
use crate::shatranj::piece::{Colour, Piece, PieceType};
use crate::shatranj::squareset::{bit, lemma_bit_ext, lemma_bit_single, lemma_pop_clear_lowest, lemma_pop_zero, popcount, popcount_upto};
use crate::shatranj::types::Square;

verus! {

/// What `check_validity` found wrong with a board.
#[derive(Debug, Clone, Copy, PartialEq, Eq, Structural)]
pub enum ValidityError {
    /// The square-sets and the piece array disagree on this square.
    Incoherent(Square),
    /// A stored key differs from the keys of the position.
    KeyCorrupt,
    /// The seventy-move counter is above 140.
    SeventyMoveCounter(u8),
    /// White does not have exactly one king; the count found.
    WhiteKingCount(u32),
    /// Black does not have exactly one king; the count found.
    BlackKingCount(u32),
    /// The white king's square does not hold the white king.
    WhiteKingSquare,
    /// The black king's square does not hold the black king.
    BlackKingSquare,
}

/// The first square, from `i` on, where the square-sets and the piece array disagree.
pub open spec fn first_incoherent(st: BoardState, i: int) -> Option<int>
    decreases 64 - i,
{
    if i >= 64 || i < 0 {
        None
    } else if st.pieces.piece_at_spec(i) != st.pos()[i] {
        Some(i)
    } else {
        first_incoherent(st, i + 1)
    }
}

/// The stored keys are the keys computed afresh from the square-sets.
pub open spec fn keys_fresh(st: BoardState) -> bool {
    let p = st.pieces.pos();
    &&& st.key == full_key(p, st.side)
    &&& st.pawn_key == fold_key(p, 1, 64)
    &&& st.non_pawn_key@[0] == fold_key(p, 2, 64)
    &&& st.non_pawn_key@[1] == fold_key(p, 3, 64)
    &&& st.minor_key == fold_key(p, 4, 64)
    &&& st.major_key == fold_key(p, 5, 64)
}

/// What is wrong with a board, checked in order: the agreement of the
/// square-sets and the piece array, the keys, the seventy-move counter, the
/// number of kings on each side, and the kings' squares.
pub open spec fn validity_error(st: BoardState) -> Option<ValidityError> {
    let wk = bb(st.pieces, Colour::White, PieceType::King);
    let bk = bb(st.pieces, Colour::Black, PieceType::King);
    match first_incoherent(st, 0) {
        Some(i) => Some(ValidityError::Incoherent(Square::from_index_spec(i))),
        None => if !keys_fresh(st) {
            Some(ValidityError::KeyCorrupt)
        } else if st.seventy_move_counter > 140 {
            Some(ValidityError::SeventyMoveCounter(st.seventy_move_counter))
        } else if popcount(wk) != 1 {
            Some(ValidityError::WhiteKingCount(popcount(wk) as u32))
        } else if popcount(bk) != 1 {
            Some(ValidityError::BlackKingCount(popcount(bk) as u32))
        } else if st.pos()[ksq(st.pieces, Colour::White)] != Some(Piece::WK) {
            Some(ValidityError::WhiteKingSquare)
        } else if st.pos()[ksq(st.pieces, Colour::Black)] != Some(Piece::BK) {
            Some(ValidityError::BlackKingSquare)
        } else {
            None
        },
    }
}

proof fn lemma_pop_zero_bits(x: u64, n: int)
    requires
        popcount_upto(x, n) == 0,
        n <= 64,
    ensures
        forall|j: int| 0 <= j < n ==> !bit(x, j),
    decreases n,
{
    if n > 0 {
        lemma_pop_zero_bits(x, n - 1);
    }
}

/// A word with exactly one set bit is a single square.
proof fn lemma_pop_one(x: u64, n: int) -> (i: int)
    requires
        popcount_upto(x, n) == 1,
        0 <= n <= 64,
    ensures
        0 <= i < n,
        forall|j: int| 0 <= j < n ==> (bit(x, j) <==> j == i),
    decreases n,
{
    if bit(x, n - 1) {
        lemma_pop_zero_bits(x, n - 1);
        n - 1
    } else {
        lemma_pop_one(x, n - 1)
    }
}

/// One set bit makes exactly one king.
proof fn lemma_one_king_count(st: BoardState, c: Colour)
    requires
        popcount(bb(st.pieces, c, PieceType::King)) == 1,
    ensures
        one_king(st.pieces, c),
{
    let k = bb(st.pieces, c, PieceType::King);
    let i = lemma_pop_one(k, 64);
    let ii = i as u64;
    assert forall|j: int| 0 <= j < 64 implies bit(k, j) == bit(1u64 << ii, j) by {
        lemma_bit_single(ii, j);
    }
    lemma_bit_ext(k, 1u64 << ii);
    assert((1u64 << ii) != 0 && (1u64 << ii) & (((1u64 << ii) - 1u64) as u64) == 0) by (bit_vector)
        requires ii < 64;
}

proof fn lemma_none_incoherent(st: BoardState, i: int)
    requires
        0 <= i <= 64,
        st.pieces.pos() == st.pos(),
    ensures
        first_incoherent(st, i) is None,
    decreases 64 - i,
{
    if i < 64 {
        assert(st.pieces.pos()[i] == st.pieces.piece_at_spec(i));
        lemma_none_incoherent(st, i + 1);
    }
}

/// One king on the board: its square-set has one square.
proof fn lemma_one_king_pop(st: BoardState, c: Colour)
    requires
        one_king(st.pieces, c),
    ensures
        popcount(bb(st.pieces, c, PieceType::King)) == 1,
{
    let k = bb(st.pieces, c, PieceType::King);
    lemma_pop_clear_lowest(k);
    lemma_pop_zero(64);
}

/// A consistent board whose seventy-move counter is at most 140 passes the
/// validity check: every board that the library's operations produce does.
pub proof fn lemma_consistent_is_valid(st: BoardState)
    requires
        st.wf(),
        st.seventy_move_counter <= 140,
    ensures
        validity_error(st) is None,
{
    st.pieces.lemma_matches_pos(st.pos());
    lemma_none_incoherent(st, 0);
    lemma_one_king_pop(st, Colour::White);
    lemma_one_king_pop(st, Colour::Black);
    lemma_king_squares(st.pieces, st.pos(), Colour::White);
    lemma_king_squares(st.pieces, st.pos(), Colour::Black);
    assert(st.pos()[ksq(st.pieces, Colour::White)] == Some(Piece::WK));
    assert(st.pos()[ksq(st.pieces, Colour::Black)] == Some(Piece::BK));
}

impl Board {
    /// Checks the board for corruption: the square-sets and the piece array
    /// agree, the keys are those of the position, the seventy-move counter is
    /// at most 140, and each side has one king, on the square it is found on.
    pub fn check_validity(&self) -> (r: Result<(), ValidityError>)
        ensures
            r == match validity_error(self@) {
                Some(e) => Err::<(), ValidityError>(e),
                None => Ok(()),
            },
    {
        let ghost st = self@;
        // the square-sets and the piece array agree
        let mut i: u8 = 0;
        while i < 64
            invariant
                i <= 64,
                st == self@,
                first_incoherent(st, 0) == first_incoherent(st, i as int),
            decreases 64 - i,
        {
            let sq = Square::from_index(i);
            let piece = self.piece_array[sq.index()];
            if self.pieces.piece_at(sq) != piece {
                return Err(ValidityError::Incoherent(sq));
            }
            i = i + 1;
        }
        let fresh = self.generate_pos_keys();
        if fresh.0 != self.key || fresh.1 != self.pawn_key || fresh.2[0] != self.non_pawn_key[0]
            || fresh.2[1] != self.non_pawn_key[1] || fresh.3 != self.minor_key || fresh.4 != self.major_key {
            return Err(ValidityError::KeyCorrupt);
        }
        // the seventy-move counter may be exactly 140, for a finished game
        if self.seventy_move_counter > 140 {
            return Err(ValidityError::SeventyMoveCounter(self.seventy_move_counter));
        }
        let white_kings = self.pieces.piece_bb(Piece::WK).count();
        if white_kings != 1 {
            return Err(ValidityError::WhiteKingCount(white_kings));
        }
        let black_kings = self.pieces.piece_bb(Piece::BK).count();
        if black_kings != 1 {
            return Err(ValidityError::BlackKingCount(black_kings));
        }
        proof {
            lemma_one_king_count(st, Colour::White);
            lemma_one_king_count(st, Colour::Black);
        }
        if self.piece_at(self.king_sq(Colour::White)) != Some(Piece::WK) {
            return Err(ValidityError::WhiteKingSquare);
        }
        if self.piece_at(self.king_sq(Colour::Black)) != Some(Piece::BK) {
            return Err(ValidityError::BlackKingSquare);
        }
        Ok(())
    }
}

} // verus!
