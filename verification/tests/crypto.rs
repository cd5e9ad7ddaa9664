use glyph_anchor::crypto::{
    blind_key, decode_hex, decrypt_token, encode_base64, encode_hex, recipient_hash, xor_cipher,
};

fn secret() -> [u8; 32] {
    let mut secret = [0u8; 32];
    for i in 0..32 {
        secret[i] = i as u8;
    }
    secret
}

#[test]
fn cipher_xors_with_the_repeating_key() {
    let data = vec![0xffu8; 34];
    let out = xor_cipher(&data, &secret());
    assert_eq!(out.len(), 34);
    assert_eq!(out[0], 0xff);
    assert_eq!(out[1], 0xfe);
    assert_eq!(out[31], 0xe0);
    assert_eq!(out[32], 0xff);
    assert_eq!(out[33], 0xfe);
    assert!(xor_cipher(&[], &secret()).is_empty());
}

#[test]
fn decrypting_undoes_encrypting() {
    let raw = b"device-token-0001";
    let encrypted = xor_cipher(raw, &secret());
    assert_eq!(
        encrypted,
        vec![100, 100, 116, 106, 103, 96, 43, 115, 103, 98, 111, 101, 33, 61, 62, 63, 33]
    );
    assert_eq!(decrypt_token(&encrypted, &secret()), raw.to_vec());
}

#[test]
fn mailboxes_are_filed_under_sha256() {
    assert_eq!(
        encode_hex(&recipient_hash(b"abc")),
        "ba7816bf8f01cfea414140de5dae2223b00361a396177a9cb410ff61f20015ad"
    );
    assert_ne!(recipient_hash(b"abc"), recipient_hash(b"abd"));
}

#[test]
fn blind_key_hashes_the_raw_token_and_the_secret() {
    let encrypted = xor_cipher(b"device-token-0001", &secret());
    assert_eq!(
        encode_hex(&blind_key(&encrypted, &secret())),
        "b6fde68979f07add91c854cf86b07941a3523911833172a5fb4861dc9b5222fd"
    );
}

#[test]
fn hex_is_read_in_either_case() {
    assert_eq!(decode_hex(b"00ffAb"), Some(vec![0x00, 0xff, 0xab]));
    assert_eq!(decode_hex(b""), Some(vec![]));
    assert_eq!(decode_hex(b"abc"), None);
    assert_eq!(decode_hex(b"zz"), None);
    assert_eq!(decode_hex(b" 00"), None);
}

#[test]
fn hex_round_trip() {
    let text = encode_hex(&secret());
    assert_eq!(text, "000102030405060708090a0b0c0d0e0f101112131415161718191a1b1c1d1e1f");
    assert_eq!(decode_hex(text.as_bytes()), Some(secret().to_vec()));
}

#[test]
fn base64_pads_and_uses_the_standard_alphabet() {
    let data = [0xfb, 0xff, 0xbf, 0, 1, 2];
    assert_eq!(encode_base64(&data[..0]), "");
    assert_eq!(encode_base64(&data[..1]), "+w==");
    assert_eq!(encode_base64(&data[..2]), "+/8=");
    assert_eq!(encode_base64(&data[..3]), "+/+/");
    assert_eq!(encode_base64(&data[..4]), "+/+/AA==");
    assert_eq!(encode_base64(&data[..5]), "+/+/AAE=");
}
