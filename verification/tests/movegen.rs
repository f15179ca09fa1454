use oranjformat::shatranj::board::movegen::{in_between, king_attacks, knight_attacks};
use oranjformat::shatranj::squareset::SquareSet;
use oranjformat::shatranj::types::Square;

#[test]
fn python_chess_validation() {
    // the attack squaresets match those of the python-chess library
    assert_eq!(
        knight_attacks(Square::new(0).unwrap()),
        SquareSet::from_inner(132_096)
    );
    assert_eq!(
        knight_attacks(Square::new(63).unwrap()),
        SquareSet::from_inner(9_077_567_998_918_656)
    );

    assert_eq!(
        king_attacks(Square::new(0).unwrap()),
        SquareSet::from_inner(770)
    );
    assert_eq!(
        king_attacks(Square::new(63).unwrap()),
        SquareSet::from_inner(4_665_729_213_955_833_856)
    );
}

#[test]
fn ray_test() {
    assert_eq!(in_between(Square::A1, Square::A1), SquareSet::empty());
    assert_eq!(in_between(Square::A1, Square::B1), SquareSet::empty());
    assert_eq!(in_between(Square::A1, Square::C1), Square::B1.as_set());
    assert_eq!(
        in_between(Square::A1, Square::D1),
        Square::B1.as_set() | Square::C1.as_set()
    );
    assert_eq!(in_between(Square::B1, Square::D1), Square::C1.as_set());
    assert_eq!(in_between(Square::D1, Square::B1), Square::C1.as_set());

    for from in Square::all() {
        for to in Square::all() {
            assert_eq!(in_between(from, to), in_between(to, from));
        }
    }
}

#[test]
fn ray_diag_test() {
    let ray = in_between(Square::B5, Square::E8);
    assert_eq!(ray, Square::C6.as_set() | Square::D7.as_set());
}
