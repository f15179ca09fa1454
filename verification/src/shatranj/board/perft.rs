//! Counting the positions a fixed number of plies ahead.

use vstd::prelude::*;

use crate::shatranj::board::{Board, BoardState, lemma_made_unique, lemma_unmake_undoes_make, made};
use crate::shatranj::board::game::{legal, lemma_gen_makeable, playable};
use crate::shatranj::board::movegen::{MoveList, MoveListEntry, distinct_in, entry_ok, gen_move, has_move, ok_from};
use crate::shatranj::shatranjmove::Move;

verus! {

/// The board after the move `m` (there is exactly one: `lemma_made_unique`).
pub open spec fn after_move(st: BoardState, m: Move) -> BoardState {
    choose|s1: BoardState| made(st, m, s1)
}

/// The number that encodes a move by its squares and promotion flag.
pub open spec fn move_code(m: Move) -> int {
    m.from_idx() + 64 * m.to_idx() + if m.promo() { 4096int } else { 0 }
}

/// The move with the code `k`, when there is one.
pub open spec fn move_of_code(k: int) -> Move {
    choose|m: Move| m.valid() && move_code(m) == k
}

/// What the move with code `k` adds to the count `d` plies deep: the count
/// below it if it is legal, else nothing.
pub open spec fn code_count(st: BoardState, d: nat, k: int) -> nat
    decreases d, 0nat,
{
    let m = move_of_code(k);
    if d > 0 && m.valid() && move_code(m) == k && legal(st, m) {
        perft(after_move(st, m), (d - 1) as nat)
    } else {
        0
    }
}

/// The leaf positions `d` plies below `st` that are reached through the
/// legal moves with codes below `k`.
pub open spec fn perft_upto(st: BoardState, d: nat, k: nat) -> nat
    decreases d, 1nat, k,
{
    if k == 0 {
        0
    } else {
        perft_upto(st, d, (k - 1) as nat) + code_count(st, d, k - 1)
    }
}

/// The number of sequences of `d` legal moves from `st`.
pub open spec fn perft(st: BoardState, d: nat) -> nat
    decreases d, 2nat,
{
    if d == 0 {
        1
    } else {
        perft_upto(st, d, 8192)
    }
}

/// Every board reached by fewer than `d` legal moves from `st` can have its
/// moves generated and made.
pub open spec fn perft_ready(st: BoardState, d: nat) -> bool
    decreases d,
{
    d > 0 ==> {
        &&& playable(st)
        &&& forall|m: Move| legal(st, m) ==> perft_ready(#[trigger] after_move(st, m), (d - 1) as nat)
    }
}

/// What a move of a list adds to the count `d` plies deep.
pub open spec fn entry_count(st: BoardState, d: nat, m: Move) -> nat {
    if legal(st, m) {
        perft(after_move(st, m), (d - 1) as nat)
    } else {
        0
    }
}

/// The counts of the first `n` moves of a list.
pub open spec fn list_count(st: BoardState, d: nat, es: Seq<MoveListEntry>, n: int) -> nat
    decreases n,
{
    if n <= 0 {
        0
    } else {
        list_count(st, d, es, n - 1) + entry_count(st, d, es[n - 1].mov)
    }
}

/// The counts of the first `n` moves of a list whose codes are below `k`.
spec fn list_count_below(st: BoardState, d: nat, es: Seq<MoveListEntry>, n: int, k: int) -> nat
    decreases n,
{
    if n <= 0 {
        0
    } else {
        list_count_below(st, d, es, n - 1, k) + if move_code(es[n - 1].mov) < k { entry_count(st, d, es[n - 1].mov) } else { 0 }
    }
}

/// The counts of the first `n` moves of a list whose code is `k`.
spec fn list_count_at(st: BoardState, d: nat, es: Seq<MoveListEntry>, n: int, k: int) -> nat
    decreases n,
{
    if n <= 0 {
        0
    } else {
        list_count_at(st, d, es, n - 1, k) + if move_code(es[n - 1].mov) == k { entry_count(st, d, es[n - 1].mov) } else { 0 }
    }
}

/// A valid move's code lies below 8192 and gives back its squares and flag.
proof fn lemma_code_bounds(m: Move)
    requires
        m.valid(),
    ensures
        0 <= move_code(m) < 8192,
{
    m.lemma_idx_bounds();
}

/// Valid moves with the same code are the same move.
proof fn lemma_code_injective(a: Move, b: Move)
    requires
        a.valid(),
        b.valid(),
        move_code(a) == move_code(b),
    ensures
        a == b,
{
    a.lemma_idx_bounds();
    b.lemma_idx_bounds();
    let fa: int = a.from_idx();
    let ta: int = a.to_idx();
    let pa: int = if a.promo() { 1 } else { 0 };
    let fb: int = b.from_idx();
    let tb: int = b.to_idx();
    let pb: int = if b.promo() { 1 } else { 0 };
    assert(fa == fb && ta == tb && pa == pb) by (nonlinear_arith)
        requires
            0 <= fa < 64,
            0 <= ta < 64,
            0 <= pa <= 1,
            0 <= fb < 64,
            0 <= tb < 64,
            0 <= pb <= 1,
            fa + 64 * ta + 4096 * pa == fb + 64 * tb + 4096 * pb,
    ;
    Move::lemma_valid_eq(a, b);
}

proof fn lemma_list_count_mono(st: BoardState, d: nat, es: Seq<MoveListEntry>, i: int, n: int)
    requires
        0 <= i <= n,
    ensures
        list_count(st, d, es, i) <= list_count(st, d, es, n),
    decreases n - i,
{
    if i < n {
        lemma_list_count_mono(st, d, es, i, n - 1);
    }
}

proof fn lemma_below_step(st: BoardState, d: nat, es: Seq<MoveListEntry>, n: int, k: int)
    ensures
        list_count_below(st, d, es, n, k + 1) == list_count_below(st, d, es, n, k) + list_count_at(st, d, es, n, k),
    decreases n,
{
    if n > 0 {
        lemma_below_step(st, d, es, n - 1, k);
    }
}

proof fn lemma_below_all(st: BoardState, d: nat, es: Seq<MoveListEntry>, n: int)
    requires
        n <= es.len(),
        forall|j: int| 0 <= j < n ==> (#[trigger] es[j]).mov.valid(),
    ensures
        list_count_below(st, d, es, n, 8192) == list_count(st, d, es, n),
        list_count_below(st, d, es, n, 0) == 0,
    decreases n,
{
    if n > 0 {
        lemma_below_all(st, d, es, n - 1);
        lemma_code_bounds(es[n - 1].mov);
    }
}

/// The moves with code `k` in a list without repeats: none, or one.
proof fn lemma_at_code(st: BoardState, d: nat, es: Seq<MoveListEntry>, n: int, k: int)
    requires
        n <= es.len(),
        forall|j: int| 0 <= j < n ==> (#[trigger] es[j]).mov.valid(),
        distinct_in(es, 0, n),
    ensures
        (forall|j: int| 0 <= j < n ==> move_code(#[trigger] es[j].mov) != k) ==> list_count_at(st, d, es, n, k) == 0,
        forall|j: int| 0 <= j < n && move_code(#[trigger] es[j].mov) == k ==> list_count_at(st, d, es, n, k) == entry_count(st, d, es[j].mov),
    decreases n,
{
    if n > 0 {
        lemma_at_code(st, d, es, n - 1, k);
        assert forall|j: int| 0 <= j < n && move_code(#[trigger] es[j].mov) == k implies list_count_at(st, d, es, n, k) == entry_count(st, d, es[j].mov) by {
            if j < n - 1 && move_code(es[n - 1].mov) == k {
                lemma_code_injective(es[j].mov, es[n - 1].mov);
            }
            if j == n - 1 {
                assert forall|i: int| 0 <= i < n - 1 implies move_code(#[trigger] es[i].mov) != k by {
                    if move_code(es[i].mov) == k {
                        lemma_code_injective(es[i].mov, es[n - 1].mov);
                    }
                }
            }
        }
    }
}

/// A list that holds each generated move once counts, among its moves with
/// codes below `k`, what the legal moves with those codes count.
proof fn lemma_list_upto(st: BoardState, d: nat, es: Seq<MoveListEntry>, k: int)
    requires
        d > 0,
        0 <= k <= 8192,
        forall|j: int| 0 <= j < es.len() ==> (#[trigger] es[j]).mov.valid(),
        distinct_in(es, 0, es.len() as int),
        forall|f: int, t: int, p: bool| gen_move(st, f, t, p) ==> #[trigger] has_move(es, f, t, p),
    ensures
        list_count_below(st, d, es, es.len() as int, k) == perft_upto(st, d, k as nat),
    decreases k,
{
    let n: int = es.len() as int;
    if k == 0 {
        lemma_below_all(st, d, es, n);
    } else {
        let c: int = k - 1;
        lemma_list_upto(st, d, es, c);
        lemma_below_step(st, d, es, n, c);
        lemma_at_code(st, d, es, n, c);
        let m = move_of_code(c);
        if exists|j: int| 0 <= j < n && move_code(#[trigger] es[j].mov) == c {
            let j: int = choose|j: int| 0 <= j < n && move_code(#[trigger] es[j].mov) == c;
            assert(es[j].mov.valid() && move_code(es[j].mov) == c);
            lemma_code_injective(m, es[j].mov);
            assert(code_count(st, d, c) == entry_count(st, d, es[j].mov));
        } else {
            if m.valid() && move_code(m) == c && legal(st, m) {
                assert(has_move(es, m.from_idx(), m.to_idx(), m.promo()));
                let j: int = choose|j: int| 0 <= j < es.len() && #[trigger] es[j].mov.from_idx() == m.from_idx()
                    && es[j].mov.to_idx() == m.to_idx() && es[j].mov.promo() == m.promo();
                assert(move_code(es[j].mov) == c);
                assert(false);
            }
            assert(code_count(st, d, c) == 0);
        }
    }
}

/// A list that holds each generated move once counts as the moves of all codes.
proof fn lemma_list_is_perft(st: BoardState, d: nat, es: Seq<MoveListEntry>)
    requires
        d > 0,
        ok_from(st, es, 0, 0),
        forall|f: int, t: int, p: bool| gen_move(st, f, t, p) ==> #[trigger] has_move(es, f, t, p),
        distinct_in(es, 0, es.len() as int),
    ensures
        list_count(st, d, es, es.len() as int) == perft(st, d),
{
    let n: int = es.len() as int;
    assert forall|j: int| 0 <= j < n implies (#[trigger] es[j]).mov.valid() by {
        assert(entry_ok(st, es[j], 0));
    }
    lemma_below_all(st, d, es, n);
    lemma_list_upto(st, d, es, 8192);
}

/// Counts the leaf positions `depth` plies below `pos`: the sequences of
/// `depth` legal moves. The board is left as it was. The staged generators
/// give the moves of the full generation at every node (`lemma_staged_lists`),
/// so the full generation alone is run.
pub fn synced_perft(pos: &mut Board, depth: usize) -> (r: u64)
    requires
        perft_ready(old(pos)@, depth as nat),
        perft(old(pos)@, depth as nat) <= u64::MAX,
    ensures
        final(pos)@ == old(pos)@,
        r == perft(old(pos)@, depth as nat),
    decreases depth,
{
    if depth == 0 {
        return 1;
    }
    let ghost st = pos@;
    let ghost d: nat = depth as nat;
    let mut ml = MoveList::new();
    pos.generate_moves(&mut ml);
    let es = ml.as_slice();
    proof {
        lemma_list_is_perft(st, d, es@);
    }
    let mut count: u64 = 0;
    let mut i: usize = 0;
    while i < es.len()
        invariant
            pos@ == st,
            d == depth,
            depth > 0,
            0 <= i <= es@.len(),
            perft_ready(st, d),
            perft(st, d) <= u64::MAX,
            ok_from(st, es@, 0, 0),
            list_count(st, d, es@, es@.len() as int) == perft(st, d),
            count == list_count(st, d, es@, i as int),
        decreases es@.len() - i,
    {
        let m = es[i].mov;
        proof {
            assert(entry_ok(st, es@[i as int], 0));
            lemma_gen_makeable(st, m);
        }
        if pos.make_move_simple(m) {
            let ghost s1 = pos@;
            proof {
                assert(legal(st, m));
                lemma_made_unique(st, m, s1, after_move(st, m));
                lemma_list_count_mono(st, d, es@, i + 1, es@.len() as int);
            }
            let sub = synced_perft(pos, depth - 1);
            proof {
                lemma_unmake_undoes_make(st, m, s1);
            }
            pos.unmake_move_base();
            count = count + sub;
        } else {
            proof {
                assert(!legal(st, m));
            }
        }
        i = i + 1;
    }
    count
}

} // verus!
