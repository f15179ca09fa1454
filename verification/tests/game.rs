use oranjformat::shatranj::board::game::{DrawType, GameOutcome, WinType};
use oranjformat::shatranj::board::movegen::{AllMoves, MoveList, MoveListEntry, SkipQuiets};
use oranjformat::shatranj::board::perft::synced_perft;
use oranjformat::shatranj::board::{Board, UpdateBuffer};
use oranjformat::shatranj::piece::{Colour, Piece};
use oranjformat::shatranj::shatranjmove::Move;
use oranjformat::shatranj::types::Square;

/// Counts the leaf positions `depth` plies below `pos`, checking at every node
/// that the staged generation gives the moves of the full generation.
fn staged_perft(pos: &mut Board, depth: usize) -> u64 {
    pos.check_validity().unwrap();
    if depth == 0 {
        return 1;
    }

    let mut ml = MoveList::new();
    pos.generate_moves(&mut ml);
    let mut ml_staged = MoveList::new();
    pos.generate_captures::<AllMoves>(&mut ml_staged);
    pos.generate_quiets(&mut ml_staged);

    let mut full: Vec<(u16, i32)> = ml.as_slice().iter().map(|e| (e.mov.inner(), e.score)).collect();
    let mut staged: Vec<(u16, i32)> = ml_staged.as_slice().iter().map(|e| (e.mov.inner(), e.score)).collect();
    full.sort_unstable();
    staged.sort_unstable();
    let mut unique = full.clone();
    unique.dedup();
    assert_eq!(unique.len(), full.len(), "a move is generated twice in {}", pos.to_string());
    assert_eq!(full, staged, "full and staged move lists differ in {}", pos.to_string());

    let mut count = 0;
    for m in ml.iter_moves() {
        if !pos.make_move_simple(m) {
            continue;
        }
        count += staged_perft(pos, depth - 1);
        pos.unmake_move_base();
    }
    count
}

#[test]
fn staged_generation_matches_full_generation() {
    let mut start = Board::default();
    assert_eq!(staged_perft(&mut start, 1), 16);
    assert_eq!(staged_perft(&mut start, 2), 256);
    assert_eq!(synced_perft(&mut start, 1), 16);
    assert_eq!(synced_perft(&mut start, 2), 256);
    assert_eq!(synced_perft(&mut start, 0), 1);
    assert_eq!(start, Board::default());

    let mut middle =
        Board::from_fen("r1bqkb1r/ppp2ppp/2n5/3np1N1/2B5/8/PPPP1PPP/RNBQK2R w - - 0 6").unwrap();
    let before = middle.clone();
    let count = staged_perft(&mut middle, 2);
    assert_eq!(middle, before);
    assert_eq!(synced_perft(&mut middle, 2), count);
    assert_eq!(middle, before);

    let mut promotions = Board::from_fen("4k3/P6p/8/8/8/8/p6P/4K3 w - - 0 1").unwrap();
    let count = staged_perft(&mut promotions, 3);
    assert_eq!(synced_perft(&mut promotions, 3), count);
}

#[test]
fn start_position_moves() {
    let board = Board::default();
    let mut ml = MoveList::new();
    board.generate_moves(&mut ml);
    assert_eq!(ml.len(), 16);
    for e in ml.as_slice() {
        assert_eq!(e.score, MoveListEntry::QUIET_SENTINEL);
    }

    let mut captures = MoveList::new();
    board.generate_captures::<SkipQuiets>(&mut captures);
    assert_eq!(captures.len(), 0);
    assert_eq!(captures.to_string(), "MoveList: (0) []");

    let mut quiets = MoveList::new();
    board.generate_quiets(&mut quiets);
    assert_eq!(quiets.len(), 16);
    assert!(quiets.iter_moves().contains(&Move::new(Square::E2, Square::E3)));
    assert!(!quiets.iter_moves().contains(&Move::new(Square::E2, Square::E4)));

    let mut staged = MoveList::new();
    board.generate_captures::<AllMoves>(&mut staged);
    board.generate_quiets(&mut staged);
    let mut full_moves: Vec<u16> = ml.iter_moves().iter().map(|m| m.inner()).collect();
    let mut staged_moves: Vec<u16> = staged.iter_moves().iter().map(|m| m.inner()).collect();
    full_moves.sort_unstable();
    staged_moves.sort_unstable();
    assert_eq!(full_moves, staged_moves);

    let mut board = board;
    let legal = board.legal_moves();
    assert_eq!(legal.len(), 16);
    for (i, a) in legal.iter().enumerate() {
        assert!(!legal[i + 1..].contains(a));
    }
    assert!(legal.contains(&Move::new(Square::G1, Square::F3)));
    assert!(legal.contains(&Move::new(Square::C1, Square::A3)));
    assert!(!legal.contains(&Move::new(Square::E2, Square::E4)));

    ml.clear();
    assert_eq!(ml.len(), 0);
}

#[test]
fn move_list_text() {
    let board = Board::from_fen("k7/8/8/8/8/8/8/7K w - - 0 1").unwrap();
    let mut ml = MoveList::new();
    board.generate_moves(&mut ml);
    assert_eq!(
        ml.to_string(),
        "MoveList: (3) [\n  h1g1 $2147483646, \n  h1g2 $2147483646, \n  h1h2 $2147483646\n]"
    );

    let capture = Board::from_fen("k7/8/8/8/8/8/6p1/7K w - - 0 1").unwrap();
    let mut ml = MoveList::new();
    capture.generate_captures::<AllMoves>(&mut ml);
    assert_eq!(ml.to_string(), "MoveList: (1) [\n  h1g2 $2147483647\n]");
}

#[test]
fn repetition_and_draws() {
    let mut board = Board::default();
    let shuffle = [
        Move::new(Square::G1, Square::F3),
        Move::new(Square::B8, Square::C6),
        Move::new(Square::F3, Square::G1),
        Move::new(Square::C6, Square::B8),
    ];
    assert!(!board.is_repetition());
    for m in shuffle {
        assert!(board.make_move_simple(m));
    }
    // one return to the start inside the search tree is a repetition
    assert!(board.is_repetition());
    assert!(board.is_draw());

    // at the root too the position has occurred before, but the root is no draw
    board.zero_height();
    assert!(board.is_repetition());
    assert!(!board.is_draw());
    for m in shuffle {
        assert!(board.make_move_simple(m));
    }
    board.zero_height();
    assert!(board.is_repetition());
    assert!(!board.is_draw());

    let mut counter = Board::from_fen("4k3/8/8/8/8/8/8/R3K3 w - - 139 80").unwrap();
    assert!(!counter.is_draw());
    assert!(counter.make_move_simple(Move::new(Square::A1, Square::A2)));
    assert_eq!(counter.seventy_move_counter(), 140);
    assert!(counter.is_draw());
    assert_eq!(counter.outcome(), GameOutcome::Draw(DrawType::SeventyMoves));
}

#[test]
fn outcomes_and_their_packing() {
    let mut mated = Board::from_fen("k7/8/1K6/8/8/8/P7/7R w - - 0 1").unwrap();
    assert_eq!(mated.outcome(), GameOutcome::Ongoing);
    assert!(mated.make_move_simple(Move::new(Square::H1, Square::H8)));
    assert!(mated.in_check());
    let before = mated.clone();
    assert_eq!(mated.outcome(), GameOutcome::WhiteWin(WinType::Mate));
    assert_eq!(mated, before);
    mated.assert_mated();
    assert_eq!(mated.legal_moves().len(), 0);

    // a side left with its king alone loses when the other side's last piece is out of
    // its king's reach, before any mate
    let mut bare = Board::from_fen("8/8/8/2kr4/8/8/8/6K1 b - - 0 1").unwrap();
    assert_eq!(bare.outcome(), GameOutcome::BlackWin(WinType::BareKing));
    let mut bare_mate = Board::from_fen("k7/8/1K6/8/8/8/8/7R w - - 0 1").unwrap();
    assert!(bare_mate.make_move_simple(Move::new(Square::H1, Square::H8)));
    assert_eq!(bare_mate.outcome(), GameOutcome::WhiteWin(WinType::BareKing));

    assert_eq!(GameOutcome::WhiteWin(WinType::Mate).as_packed_u8(), 2);
    assert_eq!(GameOutcome::WhiteWin(WinType::TB).as_packed_u8(), 2);
    assert_eq!(GameOutcome::Draw(DrawType::Adjudication).as_packed_u8(), 1);
    assert_eq!(GameOutcome::BlackWin(WinType::BareKing).as_packed_u8(), 0);
}

#[test]
fn material_and_insufficiency() {
    let board = Board::default();
    assert_eq!(board.material_count(), 64);
    assert!(!board.is_insufficient_material());
    let kings = Board::from_fen("8/8/5k2/8/8/2K5/8/8 b - - 0 1").unwrap();
    assert_eq!(kings.material_count(), 0);
    assert!(kings.is_insufficient_material());
    assert!(kings.has_insufficient_material(Colour::White));
    let knights = Board::from_fen("8/8/5k2/8/2N5/2K2N2/8/8 b - - 0 1").unwrap();
    assert_eq!(knights.material_count(), 8);
    assert!(!knights.has_insufficient_material(Colour::White));
    assert!(knights.has_insufficient_material(Colour::Black));
}

#[test]
fn make_and_unmake_restore_the_board() {
    let mut board =
        Board::from_fen("r1bqkb1r/ppp2ppp/2n5/3np1N1/2B5/8/PPPP1PPP/RNBQK2R w - - 0 6").unwrap();
    let before = board.clone();
    let m = Move::new(Square::G5, Square::F7);
    assert!(board.is_capture(m));
    assert!(board.is_tactical(m));
    assert_eq!(board.moved_piece(m), Some(Piece::WN));
    assert_eq!(board.captured_piece(m), Some(Piece::BP));
    assert!(board.make_move_simple(m));
    assert_eq!(board.seventy_move_counter(), 0);
    assert_eq!(board.turn(), Colour::Black);
    assert_eq!(board.ply(), 11);
    assert_eq!(board.piece_at(Square::F7), Some(Piece::WN));
    board.check_validity().unwrap();
    board.unmake_move_base();
    assert_eq!(board, before);

    board.make_nullmove();
    assert!(board.last_move_was_nullmove());
    assert_eq!(board.turn(), Colour::Black);
    board.unmake_nullmove();
    assert_eq!(board, before);

    // a move that leaves the king attacked is refused and changes nothing
    let mut pinned = Board::from_fen("4k3/8/8/8/4r3/8/4R3/4K3 w - - 0 1").unwrap();
    let before = pinned.clone();
    assert!(!pinned.make_move_simple(Move::new(Square::E2, Square::D2)));
    assert_eq!(pinned, before);
}

#[test]
fn update_buffer_records_the_move() {
    let mut board =
        Board::from_fen("r1bqkb1r/ppp2ppp/2n5/3np1N1/2B5/8/PPPP1PPP/RNBQK2R w - - 0 6").unwrap();
    let mut buf = UpdateBuffer::new();
    assert!(board.make_move_base(Move::new(Square::G5, Square::F7), &mut buf));
    let adds: Vec<String> = buf.adds().iter().map(|u| u.to_string()).collect();
    let subs: Vec<String> = buf.subs().iter().map(|u| u.to_string()).collect();
    assert_eq!(adds, vec!["N on f7".to_string()]);
    assert_eq!(subs, vec!["N on g5".to_string(), "p on f7".to_string()]);

    let mut promo = Board::from_fen("4k3/P7/8/8/8/8/8/4K3 w - - 0 1").unwrap();
    let mut buf = UpdateBuffer::new();
    assert!(promo.make_move_base(Move::new_promo(Square::A7, Square::A8), &mut buf));
    let adds: Vec<String> = buf.adds().iter().map(|u| u.to_string()).collect();
    let subs: Vec<String> = buf.subs().iter().map(|u| u.to_string()).collect();
    assert_eq!(adds, vec!["Q on a8".to_string()]);
    assert_eq!(subs, vec!["P on a7".to_string()]);
    assert_eq!(promo.piece_at(Square::A8), Some(Piece::WF));

    let mut manual = UpdateBuffer::new();
    manual.move_piece(Square::E2, Square::E3, Piece::WP);
    manual.clear_piece(Square::E3, Piece::BN);
    assert_eq!(manual.adds().len(), 1);
    assert_eq!(manual.subs().len(), 2);
    assert_eq!(manual.adds()[0].sq, Square::E3);
    assert_eq!(manual.subs()[1].piece, Piece::BN);
}

#[test]
fn random_moves_are_generated_moves() {
    let mut rng = rand::rng();
    let mut board = Board::default();
    for _ in 0..10 {
        let mut ml = MoveList::new();
        board.generate_moves(&mut ml);
        let before = board.clone();
        match board.make_random_move(&mut rng) {
            Some(m) => assert!(ml.iter_moves().contains(&m)),
            None => {
                assert_eq!(ml.len(), 0);
                assert_eq!(board, before);
                break;
            }
        }
    }
    let mut kings = Board::from_fen("k7/8/1K6/8/8/8/8/7R b - - 0 1").unwrap();
    assert_eq!(kings.make_random_move(&mut rng), Some(Move::new(Square::A8, Square::B8)));
    assert_eq!(kings.piece_at(Square::B8), Some(Piece::BK));
}

#[test]
fn pseudo_legality_needs_the_right_promotion_flag() {
    let board = Board::default();
    assert!(board.is_pseudo_legal(Move::new(Square::E2, Square::E3)));
    assert!(!board.is_pseudo_legal(Move::new_promo(Square::E2, Square::E3)));
    assert!(!board.is_pseudo_legal(Move::new(Square::E2, Square::E4)));
    assert!(!board.is_pseudo_legal(Move::new_promo(Square::G1, Square::F3)));
    assert!(board.is_pseudo_legal(Move::new(Square::G1, Square::F3)));
    let promo = Board::from_fen("4k3/P7/8/8/8/8/8/4K3 w - - 0 1").unwrap();
    assert!(promo.is_pseudo_legal(Move::new_promo(Square::A7, Square::A8)));
    assert!(!promo.is_pseudo_legal(Move::new(Square::A7, Square::A8)));
}

#[test]
fn legal_moves_are_the_pseudo_legal_moves_that_keep_the_king_safe() {
    let fens = [
        "r1bqkb1r/ppp2ppp/2n5/3np1N1/2B5/8/PPPP1PPP/RNBQK2R w - - 0 6",
        "4k3/P6p/8/8/8/8/p6P/4K3 w - - 0 1",
        "4k3/8/8/8/4r3/8/4R3/4K3 w - - 0 1",
        "4k3/8/8/8/8/8/3r4/R3K2r w - - 0 1",
    ];
    for fen in fens {
        let mut board = Board::from_fen(fen).unwrap();
        let mut generated: Vec<u16> = board.legal_moves().iter().map(|m| m.inner()).collect();
        let mut ml = MoveList::new();
        board.generate_moves(&mut ml);
        for m in ml.iter_moves() {
            assert!(board.is_pseudo_legal(m), "{} is generated in {}", m.to_string(), fen);
        }
        let mut safe: Vec<u16> = Vec::new();
        for from in 0..64u8 {
            for to in 0..64u8 {
                for promo in [false, true] {
                    let (f, t) = (Square::from_index(from), Square::from_index(to));
                    let m = if promo { Move::new_promo(f, t) } else { Move::new(f, t) };
                    if !board.is_pseudo_legal(m) {
                        continue;
                    }
                    let mut copy = board.clone();
                    if copy.make_move_simple(m) {
                        safe.push(m.inner());
                    }
                }
            }
        }
        generated.sort_unstable();
        safe.sort_unstable();
        assert_eq!(generated, safe, "in {}", fen);
    }
}

#[test]
fn unmaking_in_turn_gives_back_each_board() {
    let mut board = Board::default();
    let mut seen: Vec<Board> = Vec::new();
    let moves = [(Square::E2, Square::E3), (Square::B8, Square::C6), (Square::G1, Square::F3)];
    for (f, t) in moves {
        seen.push(board.clone());
        assert!(board.make_move_simple(Move::new(f, t)));
        board.check_validity().unwrap();
    }
    seen.push(board.clone());
    board.make_nullmove();
    board.check_validity().unwrap();
    seen.push(board.clone());
    assert!(board.make_move_simple(Move::new(Square::F3, Square::G5)));
    board.check_validity().unwrap();

    assert!(!board.last_move_was_nullmove());
    board.unmake_move_base();
    assert_eq!(board, seen.pop().unwrap());
    assert!(board.last_move_was_nullmove());
    board.unmake_nullmove();
    assert_eq!(board, seen.pop().unwrap());
    while let Some(earlier) = seen.pop() {
        assert!(!board.last_move_was_nullmove());
        board.unmake_move_base();
        assert_eq!(board, earlier);
        board.check_validity().unwrap();
    }
}

#[test]
fn legal_moves_keep_the_generation_order() {
    let mut board = Board::from_fen("4k3/8/8/8/4r3/8/4R3/4K3 w - - 0 1").unwrap();
    let mut ml = MoveList::new();
    board.generate_moves(&mut ml);
    let expected: Vec<Move> = ml
        .iter_moves()
        .into_iter()
        .filter(|&m| board.clone().make_move_simple(m))
        .collect();
    assert_eq!(board.legal_moves(), expected);
}
