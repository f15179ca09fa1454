# oranjformat

Board representation, move generation and game rules for shatranj, with the
data needed by the oranjformat training-data format, verified with Verus.

## Layout

- `src/shatranj/` — squares, pieces, square-sets and the piece layout; the
  attack relations of each piece (`attacks.rs`); the board (`board/`): making
  and unmaking moves with incrementally kept Zobrist keys and threats, move
  generation (`movegen.rs`), FEN reading and writing (`fen.rs`), UCI and SAN
  notation (`notation.rs`), game outcomes (`game.rs`), the validity check
  (`validation.rs`), the generated moves held against the rules of the
  game (`rules.rs`) and counting the move sequences of a given length
  (`perft.rs`); the rook magic-number search (`magic.rs`).
- `src/lookups.rs`, `src/rng.rs`, `src/makemove.rs` — the Zobrist key tables,
  the xorshift generator they come from, and the hashing helpers.
- `src/ext.rs` — the contracts the library relies on for `arrayvec` and `rand`.
- `app/` — conversion into `bulletformat` boards, printing searched magic
  numbers, and error types with `Display`.
- `tests/` — tests on concrete positions.

Every function in `src/` carries a contract that Verus proves; the laws of the
library (making then unmaking a move restores the board, the predicted key of
a move is the key after it, the FEN text of a board reads back as that board,
staged move generation agrees with full generation, the legal moves are
exactly the pseudo-legal moves that leave the king unattacked, every sequence
of makes and unmakes keeps the keys those of the position, a consistent board
passes the validity check, and others) are stated as public proof functions.
