// Move making itself happens in the board module; these are the hashing
// helpers that it uses.

use vstd::prelude::*;

use crate::lookups::{SIDE_KEY, piece_key, piece_key_exec};
use crate::shatranj::board::lemma_xor_facts;
use crate::shatranj::piece::Piece;
use crate::shatranj::types::Square;

verus! {

/// Toggles `piece` on `sq` in the Zobrist key.
pub fn hash_piece(key: &mut u64, piece: Piece, sq: Square)
    ensures
        *final(key) == *old(key) ^ piece_key(piece, sq.idx()),
{
    let piece_key = piece_key_exec(piece, sq);
    *key ^= piece_key;
}

/// Toggles the side to move in the Zobrist key.
pub fn hash_side(key: &mut u64)
    ensures
        *final(key) == *old(key) ^ SIDE_KEY,
{
    *key ^= SIDE_KEY;
}

/// Toggling a piece twice leaves the key as it was, and toggling pieces
/// commutes.
pub proof fn lemma_hash_piece_undoes(key: u64, piece: Piece, sq: int, other: Piece, other_sq: int)
    ensures
        key ^ piece_key(piece, sq) ^ piece_key(piece, sq) == key,
        key ^ piece_key(piece, sq) ^ piece_key(other, other_sq) == key ^ piece_key(other, other_sq) ^ piece_key(piece, sq),
{
    lemma_xor_facts(key, piece_key(piece, sq), piece_key(other, other_sq), 0);
}

/// Toggling the side to move twice leaves the key as it was.
pub proof fn lemma_hash_side_undoes(key: u64)
    ensures
        key ^ SIDE_KEY ^ SIDE_KEY == key,
{
    lemma_xor_facts(key, SIDE_KEY, 0, 0);
}

} // verus!
