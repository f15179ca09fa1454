use oranjformat::shatranj::board::Board;
use oranjformat::shatranj::board::fen::{FenError, field_at, parse_decimal};
use oranjformat::shatranj::board::validation::ValidityError;
use oranjformat::shatranj::piece::{Colour, Piece};
use oranjformat::shatranj::types::Square;

#[test]
fn start_position_prints_its_fen() {
    let board = Board::default();
    assert_eq!(board.to_string(), Board::STARTING_FEN);
    assert_eq!(
        board.to_string(),
        "rnbkqbnr/pppppppp/8/8/8/8/PPPPPPPP/RNBKQBNR w - - 0 1"
    );
}

#[test]
fn fen_text_round_trips() {
    let fens = [
        "r1bqkb1r/ppp2ppp/2n5/3np1N1/2B5/8/PPPP1PPP/RNBQK2R w - - 0 6",
        "7k/1p1R4/1P4R1/8/8/8/8/K7 b - - 0 1",
        "2br1q1k/8/6p1/8/2n5/8/8/4K3 w - - 13 40",
        "8/8/8/1K1Rk3/8/8/8/8 b - - 99 7",
    ];
    for fen in fens {
        let board = Board::from_fen(fen).unwrap();
        assert_eq!(board.to_string(), fen);
        let again = Board::from_fen(&board.to_string()).unwrap();
        assert_eq!(again, board);
    }
}

#[test]
fn fen_fields_are_read() {
    let board = Board::from_fen("2br1q1k/8/6p1/8/2n5/8/8/4K3 b - - 13 40").unwrap();
    assert_eq!(board.turn(), Colour::Black);
    assert_eq!(board.seventy_move_counter(), 13);
    assert_eq!(board.ply(), 79);
    assert_eq!(board.full_move_number(), 40);
    assert_eq!(board.piece_at(Square::H8), Some(Piece::BK));
    assert_eq!(board.piece_at(Square::E1), Some(Piece::WK));
    assert_eq!(board.piece_at(Square::C4), Some(Piece::BN));
    assert_eq!(board.piece_at(Square::A1), None);
    assert_eq!(board.n_men(), 7);
    board.check_validity().unwrap();
}

#[test]
fn fen_errors() {
    assert_eq!(
        Board::from_fen("4k3/8/8/8/8/8/8/4K3\u{e9} w - - 0 1"),
        Err(FenError::NotAscii)
    );
    assert_eq!(
        Board::from_fen("4k3/8/8/8/8/8/8/4K3"),
        Err(FenError::MissingSpace)
    );
    assert_eq!(
        Board::from_fen("4k3/8/8/8/8/8/8/4X3 w - - 0 1"),
        Err(FenError::UnexpectedChar(b'X'))
    );
    assert_eq!(
        Board::from_fen("4k3/8/8/8/8/8/8/4K3 x - - 0 1"),
        Err(FenError::InvalidSide)
    );
    assert_eq!(
        Board::from_fen("4k3/8/8/8/8/8/8/4K3 w"),
        Err(FenError::MissingHalfmove)
    );
    assert_eq!(
        Board::from_fen("4k3/8/8/8/8/8/8/4K3 w - - 256 1"),
        Err(FenError::InvalidHalfmove)
    );
    assert_eq!(
        Board::from_fen("4k3/8/8/8/8/8/8/4K3 w - - 0"),
        Err(FenError::MissingFullmove)
    );
    assert_eq!(
        Board::from_fen("4k3/8/8/8/8/8/8/4K3 w - - 0 x"),
        Err(FenError::InvalidFullmove)
    );
}

#[test]
fn overlong_ranks_are_refused_after_the_other_fields() {
    // a rank of more than eight squares puts its last pieces on the h-file
    assert_eq!(Board::from_fen("7KQ x - - 0 1"), Err(FenError::InvalidSide));
    assert_eq!(Board::from_fen("7KQ/8/8/8/8/8/8/4k3 w - - 0 x"), Err(FenError::InvalidFullmove));
    assert_eq!(Board::from_fen("7KQ/8/8/8/8/8/8/4k3 w - - 0 1"), Err(FenError::OccupiedSquare));
    assert_eq!(Board::from_fen("4k3/8/8/8/8/8/8/3K4Rp w - - 0 1"), Err(FenError::OccupiedSquare));
    // placing the same piece again on its square is no clash
    let board = Board::from_fen("4k2K/8/8/8/8/8/8/7RR w - - 0 1").unwrap();
    assert_eq!(board.piece_at(Square::H1), Some(Piece::WR));
}

#[test]
fn fen_numbers_take_a_plus_sign() {
    let board = Board::from_fen("4k3/8/8/8/8/8/8/4K3 w - - +12 +3").unwrap();
    assert_eq!(board.seventy_move_counter(), 12);
    assert_eq!(board.ply(), 4);
}

#[test]
fn fields_and_decimals() {
    let s = b"ab cd  e";
    assert_eq!(field_at(s, 0), Some(&b"ab"[..]));
    assert_eq!(field_at(s, 1), Some(&b"cd"[..]));
    assert_eq!(field_at(s, 2), Some(&b""[..]));
    assert_eq!(field_at(s, 3), Some(&b"e"[..]));
    assert_eq!(field_at(s, 4), None);
    assert_eq!(parse_decimal(b"255", 255), Some(255));
    assert_eq!(parse_decimal(b"256", 255), None);
    assert_eq!(parse_decimal(b"+7", 255), Some(7));
    assert_eq!(parse_decimal(b"+", 255), None);
    assert_eq!(parse_decimal(b"", 255), None);
    assert_eq!(parse_decimal(b"1a", 255), None);
}

#[test]
fn validity_errors() {
    // a new board's key leaves out the term of white to move
    assert_eq!(Board::new().check_validity(), Err(ValidityError::KeyCorrupt));
    let mut empty = Board::new();
    empty.regenerate_zobrist();
    assert_eq!(
        empty.check_validity(),
        Err(ValidityError::WhiteKingCount(0))
    );

    let mut keys_stale = Board::new();
    keys_stale.add_piece(Square::E1, Piece::WK);
    assert_eq!(keys_stale.check_validity(), Err(ValidityError::KeyCorrupt));

    let mut no_black_king = Board::new();
    no_black_king.add_piece(Square::E1, Piece::WK);
    no_black_king.regenerate_zobrist();
    assert_eq!(
        no_black_king.check_validity(),
        Err(ValidityError::BlackKingCount(0))
    );

    let mut incoherent = Board::default();
    *incoherent.piece_at_mut(Square::E4) = Some(Piece::WP);
    assert_eq!(
        incoherent.check_validity(),
        Err(ValidityError::Incoherent(Square::E4))
    );

    let mut counter = Board::default();
    *counter.halfmove_clock_mut() = 141;
    assert_eq!(
        counter.check_validity(),
        Err(ValidityError::SeventyMoveCounter(141))
    );

    let mut turned = Board::default();
    *turned.turn_mut() = Colour::Black;
    assert_eq!(turned.check_validity(), Err(ValidityError::KeyCorrupt));

    assert_eq!(Board::default().check_validity(), Ok(()));
}

#[test]
fn diagram_of_the_start_position() {
    let board = Board::default();
    let expected = "8 r n b k q b n r \n\
                    7 p p p p p p p p \n\
                    6 . . . . . . . . \n\
                    5 . . . . . . . . \n\
                    4 . . . . . . . . \n\
                    3 . . . . . . . . \n\
                    2 P P P P P P P P \n\
                    1 R N B K Q B N R \n  \
                    a b c d e f g h\n\
                    FEN: rnbkqbnr/pppppppp/8/8/8/8/PPPPPPPP/RNBKQBNR w - - 0 1\n";
    assert_eq!(board.diagram(), expected);
}
