use oranjformat::shatranj::shatranjmove::Move;
use oranjformat::shatranj::types::Square;

#[test]
fn test_simple_move() {
    let m = Move::new(Square::A1, Square::B2);
    println!("{m:?}");
    println!("bitpattern: {:016b}", m.inner());
    assert_eq!(m.from(), Square::A1);
    assert_eq!(m.to(), Square::B2);
    assert!(!m.is_promo());
    assert!(m.is_valid());
}

#[test]
fn test_promotion() {
    let m = Move::new_promo(Square::A7, Square::A8);
    println!("{m:?}");
    println!("bitpattern: {:016b}", m.inner());
    assert_eq!(m.from(), Square::A7);
    assert_eq!(m.to(), Square::A8);
    assert!(m.is_promo());
    assert!(m.is_valid());
}

#[test]
fn test_all_square_combinations() {
    for from in Square::all() {
        for to in Square::all().into_iter().filter(|s| *s < from) {
            let m = Move::new(from, to);
            assert_eq!(m.from(), from);
            assert_eq!(m.to(), to);
            assert!(!m.is_promo());
            assert!(m.is_valid());
        }
    }
}
