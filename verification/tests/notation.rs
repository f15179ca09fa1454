use oranjformat::shatranj::board::Board;
use oranjformat::shatranj::board::notation::UciError;
use oranjformat::shatranj::shatranjmove::Move;
use oranjformat::shatranj::types::{CheckState, Square};

#[test]
fn uci_moves_are_read() {
    let board = Board::default();
    assert_eq!(board.parse_uci("e2e3"), Ok(Move::new(Square::E2, Square::E3)));
    assert_eq!(board.parse_uci("g1f3"), Ok(Move::new(Square::G1, Square::F3)));
    let promo = Board::from_fen("4k3/P7/8/8/8/8/8/4K3 w - - 0 1").unwrap();
    assert_eq!(
        promo.parse_uci("a7a8q"),
        Ok(Move::new_promo(Square::A7, Square::A8))
    );
    assert_eq!(
        promo.parse_uci("a7a8"),
        Ok(Move::new_promo(Square::A7, Square::A8))
    );
}

#[test]
fn uci_errors() {
    let board = Board::default();
    assert_eq!(board.parse_uci("e2"), Err(UciError::InvalidLength(2)));
    assert_eq!(board.parse_uci("e2e3qq"), Err(UciError::InvalidLength(6)));
    assert_eq!(board.parse_uci("z2e3"), Err(UciError::InvalidFromFile(b'z')));
    assert_eq!(board.parse_uci("e9e3"), Err(UciError::InvalidFromRank(b'9')));
    assert_eq!(board.parse_uci("e2z3"), Err(UciError::InvalidToFile(b'z')));
    assert_eq!(board.parse_uci("e2e0"), Err(UciError::InvalidToRank(b'0')));
    assert_eq!(board.parse_uci("e2e3k"), Err(UciError::InvalidPromotion(b'k')));
    assert_eq!(board.parse_uci("e2e4"), Err(UciError::IllegalMove));
    assert_eq!(board.parse_uci("e2e3q"), Err(UciError::IllegalMove));
}

#[test]
fn san_of_quiet_moves_and_captures() {
    let mut board = Board::default();
    assert_eq!(
        board.san(Move::new(Square::G1, Square::F3)),
        Some("Nf3".to_string())
    );
    assert_eq!(
        board.san(Move::new(Square::E2, Square::E3)),
        Some("e3".to_string())
    );
    assert_eq!(
        board.san(Move::new(Square::C1, Square::E3)),
        Some("Be3".to_string())
    );
    assert_eq!(board.san(Move::new(Square::E4, Square::E5)), None);

    let mut capture =
        Board::from_fen("r1bqkb1r/ppp2ppp/2n5/3np1N1/2B5/8/PPPP1PPP/RNBQK2R w - - 0 6").unwrap();
    assert_eq!(
        capture.san(Move::new(Square::G5, Square::F7)),
        Some("Nxf7".to_string())
    );
    let mut pawn_capture = Board::from_fen("4k3/8/8/3p4/4P3/8/8/4K3 w - - 0 1").unwrap();
    assert_eq!(
        pawn_capture.san(Move::new(Square::E4, Square::D5)),
        Some("exd5".to_string())
    );
}

#[test]
fn san_disambiguates_and_marks_checks() {
    let mut rooks = Board::from_fen("4k3/8/8/8/8/8/4K3/R6R w - - 0 1").unwrap();
    assert_eq!(
        rooks.san(Move::new(Square::A1, Square::D1)),
        Some("Rad1".to_string())
    );
    let mut stacked = Board::from_fen("4k3/8/8/R7/8/8/4K3/R7 w - - 0 1").unwrap();
    assert_eq!(
        stacked.san(Move::new(Square::A1, Square::A3)),
        Some("R1a3".to_string())
    );

    let mut check = Board::from_fen("4k3/8/8/8/8/8/8/R3K3 w - - 0 1").unwrap();
    assert_eq!(check.gives(Move::new(Square::A1, Square::A8)), CheckState::Check);
    assert_eq!(
        check.san(Move::new(Square::A1, Square::A8)),
        Some("Ra8+".to_string())
    );
    assert_eq!(check.gives(Move::new(Square::A1, Square::A2)), CheckState::NoCheck);

    let mut mate = Board::from_fen("k7/8/1K6/8/8/8/8/7R w - - 0 1").unwrap();
    assert_eq!(
        mate.gives(Move::new(Square::H1, Square::H8)),
        CheckState::Checkmate
    );
    assert_eq!(
        mate.san(Move::new(Square::H1, Square::H8)),
        Some("Rh8#".to_string())
    );

    let mut promo = Board::from_fen("4k3/P7/8/8/8/8/8/4K3 w - - 0 1").unwrap();
    assert_eq!(
        promo.san(Move::new_promo(Square::A7, Square::A8)),
        Some("a8=Q".to_string())
    );
}

#[test]
fn move_text() {
    assert_eq!(Move::new(Square::E2, Square::E3).to_string(), "e2e3");
    assert_eq!(Move::new_promo(Square::A7, Square::A8).to_string(), "a7a8q");
    assert_eq!(Move::new(Square::H8, Square::A1).to_string(), "h8a1");
}
