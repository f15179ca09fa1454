use oranjformat::lookups::{PIECE_KEYS, SIDE_KEY};
use oranjformat::makemove::{hash_piece, hash_side};
use oranjformat::rng::{XORSHIFT_SEED, XorShiftState};
use oranjformat::shatranj::board::Board;
use oranjformat::shatranj::piece::{Colour, Piece, PieceType};
use oranjformat::shatranj::shatranjmove::Move;
use oranjformat::shatranj::types::Square;

#[test]
fn hashing_twice_restores_the_key() {
    let mut key = 0x1234_5678_9abc_def0u64;
    hash_piece(&mut key, Piece::BN, Square::C6);
    assert_eq!(key, 0x1234_5678_9abc_def0u64 ^ PIECE_KEYS[Piece::BN.index()][Square::C6.index()]);
    hash_piece(&mut key, Piece::WK, Square::E1);
    hash_piece(&mut key, Piece::BN, Square::C6);
    hash_piece(&mut key, Piece::WK, Square::E1);
    assert_eq!(key, 0x1234_5678_9abc_def0u64);

    let mut key = 42u64;
    hash_side(&mut key);
    assert_eq!(key, 42 ^ SIDE_KEY);
    assert_ne!(key, 42);
    hash_side(&mut key);
    assert_eq!(key, 42);
}

#[test]
fn incremental_keys_match_fresh_keys() {
    let mut board = Board::default();
    let moves = [
        Move::new(Square::G1, Square::F3),
        Move::new(Square::E7, Square::E6),
        Move::new(Square::F3, Square::E5),
        Move::new(Square::D8, Square::E7),
        Move::new(Square::E5, Square::F7),
    ];
    for m in moves {
        let predicted = board.key_after(m);
        assert!(board.make_move_simple(m));
        assert_eq!(board.zobrist_key(), predicted);
        assert_eq!(board.all_keys(), board.generate_pos_keys());
        let fresh = Board::from_fen(&board.to_string()).unwrap();
        assert_eq!(fresh.zobrist_key(), board.zobrist_key());
        assert_eq!(fresh.threats(), board.threats());
    }
    let predicted = board.key_after_null_move();
    assert_eq!(predicted, board.zobrist_key() ^ SIDE_KEY);
}

#[test]
fn moves_pack_into_sixteen_bits() {
    let m = Move::new(Square::E2, Square::E3);
    assert_eq!(m.inner(), 12 | (20 << 6));
    let p = Move::new_promo(Square::H7, Square::H8);
    assert_eq!(p.inner(), 55 | (63 << 6) | (1 << 12));
    assert_eq!(Move::from_raw(p.inner()), Some(p));
    assert_eq!(Move::from_raw(0), None);
    let junk = Move::from_raw(0x2000 | 12 | (20 << 6)).unwrap();
    assert!(!junk.is_valid());
    assert_eq!(junk.from(), Square::E2);
    assert_eq!(junk.to(), Square::E3);
}

#[test]
fn square_and_piece_numbering() {
    assert_eq!(Square::A1.index(), 0);
    assert_eq!(Square::H1.index(), 7);
    assert_eq!(Square::A8.index(), 56);
    assert_eq!(Square::H8.index(), 63);
    assert_eq!(PieceType::Pawn.index(), 0);
    assert_eq!(PieceType::Alfil.index(), 1);
    assert_eq!(PieceType::Ferz.index(), 2);
    assert_eq!(PieceType::Knight.index(), 3);
    assert_eq!(PieceType::Rook.index(), 4);
    assert_eq!(PieceType::King.index(), 5);
    assert_eq!(Piece::new(Colour::Black, PieceType::Rook), Piece::BR);
    assert_eq!(Piece::BR.colour(), Colour::Black);
    assert_eq!(Piece::BR.piece_type(), PieceType::Rook);
    assert_eq!(Colour::White.flip(), Colour::Black);
}

#[test]
fn generator_is_xorshift() {
    let mut rng = XorShiftState::new();
    assert_eq!(rng.state, XORSHIFT_SEED);
    let mut x = XORSHIFT_SEED;
    x ^= x << 13;
    x ^= x >> 7;
    x ^= x << 17;
    assert_eq!(rng.random(), x);
    let (y, next) = rng.next_self();
    let mut z = x;
    z ^= z << 13;
    z ^= z >> 7;
    z ^= z << 17;
    assert_eq!(y, z);
    assert_eq!(next.state, z);
}
