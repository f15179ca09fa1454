use oranjformat::lookups::{PIECE_KEYS, SIDE_KEY, init_hash_keys};

#[test]
fn all_piece_keys_different() {
    let mut hashkeys = PIECE_KEYS.iter().flat_map(|&k| k).collect::<Vec<u64>>();
    hashkeys.sort_unstable();
    let len_before = hashkeys.len();
    hashkeys.dedup();
    let len_after = hashkeys.len();
    assert_eq!(len_before, len_after);
}

#[test]
fn computed_keys_match_the_table() {
    let (keys, side) = init_hash_keys();
    assert_eq!(keys, PIECE_KEYS);
    assert_eq!(side, SIDE_KEY);
}
