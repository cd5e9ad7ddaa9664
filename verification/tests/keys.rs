use glyph_anchor::keys::{make_vault_key, scan_bounds};

#[test]
fn key_is_hash_and_big_endian_number() {
    let key = make_vault_key(&[7u8; 32], 0x0102030405060708);
    assert_eq!(key.len(), 40);
    assert_eq!(&key[..32], &[7u8; 32]);
    assert_eq!(&key[32..], &[1, 2, 3, 4, 5, 6, 7, 8]);
}

#[test]
fn keys_order_as_their_numbers() {
    let hash = [0x42u8; 32];
    let numbers: Vec<u64> = vec![0, 1, 255, 256, 65535, 65536, u64::MAX - 1, u64::MAX];
    for i in 0..numbers.len() - 1 {
        assert!(make_vault_key(&hash, numbers[i]) < make_vault_key(&hash, numbers[i + 1]));
    }
}

#[test]
fn scan_covers_one_recipient() {
    let hash = [0x42u8; 32];
    let (low, high) = scan_bounds(&hash);
    assert_eq!(low, make_vault_key(&hash, 0));
    assert_eq!(high, make_vault_key(&hash, u64::MAX));
    let mut next = hash;
    next[31] = 0x43;
    let mut previous = hash;
    previous[31] = 0x41;
    assert!(make_vault_key(&next, 0) > high);
    assert!(make_vault_key(&previous, u64::MAX) < low);
}
