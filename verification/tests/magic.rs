use oranjformat::shatranj::board::movegen::rook_attacks;
use oranjformat::shatranj::magic::{
    ROOK_REL_BITS, find_magic, mask_rook_attacks, rook_attacks_on_the_fly, set_occupancy,
};
use oranjformat::shatranj::squareset::SquareSet;
use oranjformat::shatranj::types::Square;

#[test]
fn rook_masks_and_attacks() {
    assert_eq!(
        mask_rook_attacks(Square::A1),
        SquareSet::from_inner(0x0001_0101_0101_017E)
    );
    assert_eq!(
        rook_attacks_on_the_fly(Square::A1, SquareSet::empty()),
        SquareSet::from_inner(0x0101_0101_0101_01FE)
    );
    let blockers = Square::D6.as_set() | Square::F4.as_set();
    assert_eq!(
        rook_attacks_on_the_fly(Square::D4, blockers),
        SquareSet::from_inner(0x0000_0808_3708_0808)
    );
    assert_eq!(rook_attacks(Square::D4, blockers), rook_attacks_on_the_fly(Square::D4, blockers));
    for sq in Square::all() {
        assert_eq!(
            mask_rook_attacks(sq).count() as i32,
            ROOK_REL_BITS[sq.index()]
        );
    }
}

#[test]
fn occupancy_variations() {
    let mask = mask_rook_attacks(Square::A1);
    assert_eq!(set_occupancy(0, 12, mask), SquareSet::empty());
    assert_eq!(set_occupancy(4095, 12, mask), mask);
    assert_eq!(set_occupancy(1, 12, mask), Square::B1.as_set());
    assert_eq!(
        set_occupancy(0b11_0000_0000, 12, mask),
        Square::A4.as_set() | Square::A5.as_set()
    );
    // only the lowest bits of the mask are used
    assert_eq!(set_occupancy(4095, 2, mask), Square::B1.as_set() | Square::C1.as_set());
}

#[test]
fn magic_search_finds_the_first_good_candidate() {
    let magic = find_magic(Square::B2, ROOK_REL_BITS[Square::B2.index()]).unwrap();
    assert_eq!(magic, 0x0001_4010_0040_2000);

    // no two occupancies with different attacks share an index
    let bits = ROOK_REL_BITS[Square::B2.index()];
    let mask = mask_rook_attacks(Square::B2);
    let mut used = vec![None; 1 << bits];
    for index in 0..(1usize << bits) {
        let occ = set_occupancy(index, bits, mask);
        let attacks = rook_attacks_on_the_fly(Square::B2, occ);
        let slot = (occ.inner().wrapping_mul(magic) >> (64 - bits)) as usize;
        match used[slot] {
            None => used[slot] = Some(attacks),
            Some(seen) => assert_eq!(seen, attacks),
        }
    }
}
