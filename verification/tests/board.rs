use oranjformat::shatranj::board::Board;
use oranjformat::shatranj::board::game::{DrawType, GameOutcome, WinType};
use oranjformat::shatranj::shatranjmove::Move;
use oranjformat::shatranj::squareset::SquareSet;
use oranjformat::shatranj::types::Square;

#[test]
fn read_fen_validity() {
    let mut board_1 = Board::new();
    board_1
        .set_from_fen(Board::STARTING_FEN)
        .expect("setfen failed.");
    board_1.check_validity().unwrap();

    let board_2 = Board::from_fen(Board::STARTING_FEN).expect("setfen failed.");
    board_2.check_validity().unwrap();

    assert_eq!(board_1, board_2);
}

#[test]
fn game_end_states() {
    let mut seventymove_draw =
        Board::from_fen("rnbqkb1r/pppppppp/5n2/8/3N4/8/PPPPPPPP/RNBQKB1R b KQkq - 140 2").unwrap();
    assert_eq!(
        seventymove_draw.outcome(),
        GameOutcome::Draw(DrawType::SeventyMoves)
    );
    let mut draw_repetition = Board::default();
    assert_eq!(draw_repetition.outcome(), GameOutcome::Ongoing);
    draw_repetition.make_move_simple(Move::new(Square::G1, Square::F3));
    draw_repetition.make_move_simple(Move::new(Square::B8, Square::C6));
    assert_eq!(draw_repetition.outcome(), GameOutcome::Ongoing);
    draw_repetition.make_move_simple(Move::new(Square::F3, Square::G1));
    draw_repetition.make_move_simple(Move::new(Square::C6, Square::B8));
    assert_eq!(draw_repetition.outcome(), GameOutcome::Ongoing);
    draw_repetition.make_move_simple(Move::new(Square::G1, Square::F3));
    draw_repetition.make_move_simple(Move::new(Square::B8, Square::C6));
    assert_eq!(draw_repetition.outcome(), GameOutcome::Ongoing);
    draw_repetition.make_move_simple(Move::new(Square::F3, Square::G1));
    draw_repetition.make_move_simple(Move::new(Square::C6, Square::B8));
    assert_eq!(
        draw_repetition.outcome(),
        GameOutcome::Draw(DrawType::Repetition)
    );
    let mut stalemate = Board::from_fen("7k/1p1R4/1P4R1/8/8/8/8/K7 b - - 0 1").unwrap();
    assert_eq!(stalemate.outcome(), GameOutcome::WhiteWin(WinType::Mate));
    let mut insufficient_material_bare_kings =
        Board::from_fen("8/8/5k2/8/8/2K5/8/8 b - - 0 1").unwrap();
    assert_eq!(
        insufficient_material_bare_kings.outcome(),
        GameOutcome::Draw(DrawType::InsufficientMaterial)
    );
    let mut bare_king = Board::from_fen("8/8/8/2KRk3/8/8/8/8 w - - 0 1").unwrap();
    assert_eq!(
        bare_king.outcome(),
        GameOutcome::WhiteWin(WinType::BareKing)
    );
    let mut bare_king_can_recapture = Board::from_fen("8/8/8/1K1Rk3/8/8/8/8 b - - 0 1").unwrap();
    assert_eq!(bare_king_can_recapture.outcome(), GameOutcome::Ongoing);
    let mut insufficient_material_knights =
        Board::from_fen("8/8/5k2/8/2N5/2K2N2/8/8 b - - 0 1").unwrap();
    assert_eq!(
        insufficient_material_knights.outcome(),
        GameOutcome::Ongoing
    );
}

#[test]
fn threat_generation_white() {
    let board = Board::from_fen("3k4/8/8/5N2/8/1P6/8/K1Q1RB2 b - - 0 1").unwrap();
    assert_eq!(
        board.threats().all,
        SquareSet::from_inner(0x1050_9810_9dd8_1b2e)
    );
}

#[test]
fn threat_generation_black() {
    let board = Board::from_fen("2br1q1k/8/6p1/8/2n5/8/8/4K3 w - - 0 1").unwrap();
    assert_eq!(
        board.threats().all,
        SquareSet::from_inner(0x74d8_1bb9_0819_0a08)
    );
}

#[test]
fn key_after_works_for_simple_moves() {
    let mut board = Board::default();
    let mv = Move::new(Square::E2, Square::E3);
    let key = board.key_after(mv);
    board.make_move_simple(mv);
    assert_eq!(board.zobrist_key(), key);
}

#[test]
fn key_after_works_for_captures() {
    let mut board =
        Board::from_fen("r1bqkb1r/ppp2ppp/2n5/3np1N1/2B5/8/PPPP1PPP/RNBQK2R w - - 0 6").unwrap();
    // Nxf7!!
    let mv = Move::new(Square::G5, Square::F7);
    let key = board.key_after(mv);
    board.make_move_simple(mv);
    assert_eq!(board.zobrist_key(), key);
}

#[test]
fn key_after_works_for_nullmove() {
    let mut board = Board::default();
    let key = board.key_after_null_move();
    board.make_nullmove();
    assert_eq!(board.zobrist_key(), key);
}
