//! Hashing, token encryption and text encodings.

use hmac::Mac;
use sha2::Digest;
use base64::Engine;
use vstd::prelude::*;

verus! {

// ---------------------------------------------------------------------------
// Token encryption
// ---------------------------------------------------------------------------

/// `data` with every byte xored with the byte of `key` at its position modulo 32.
pub open spec fn xored(data: Seq<u8>, key: Seq<u8>) -> Seq<u8> {
    Seq::new(data.len(), |i: int| data[i] ^ key[i % 32])
}

/// Encrypts or decrypts `data` with a repeating 32-byte key.
pub fn xor_cipher(data: &[u8], key: &[u8; 32]) -> (out: Vec<u8>)
    ensures
        out@ == xored(data@, key@),
        out@.len() == data@.len(),
        forall|i: int| 0 <= i < data@.len() ==> #[trigger] out@[i] == data@[i] ^ key@[i % 32],
{
    let mut out: Vec<u8> = Vec::new();
    let mut i: usize = 0;
    while i < data.len()
        invariant
            i <= data@.len(),
            out@ == xored(data@, key@).take(i as int),
        decreases data@.len() - i,
    {
        out.push(data[i] ^ key[i % 32]);
        i = i + 1;
        assert(out@ =~= xored(data@, key@).take(i as int));
    }
    assert(xored(data@, key@).take(i as int) =~= xored(data@, key@));
    out
}

/// Recovers a push token from its encrypted form.
pub fn decrypt_token(encrypted: &[u8], key: &[u8; 32]) -> (out: Vec<u8>)
    ensures
        out@ == xored(encrypted@, key@),
        out@.len() == encrypted@.len(),
        forall|i: int| 0 <= i < encrypted@.len() ==> #[trigger] out@[i] == encrypted@[i] ^ key@[i % 32],
{
    xor_cipher(encrypted, key)
}

/// Applying the cipher twice with one key gives the data back: the same call
/// encrypts and decrypts.
pub proof fn law_xor_cipher_is_an_involution(data: Seq<u8>, key: Seq<u8>)
    ensures
        xored(xored(data, key), key) == data,
        xored(data, key).len() == data.len(),
{
    assert forall|i: int| 0 <= i < data.len() implies xored(xored(data, key), key)[i] == data[i] by {
        let d = data[i];
        let k = key[i % 32];
        assert((d ^ k) ^ k == d) by (bit_vector);
    }
    assert(xored(xored(data, key), key) =~= data);
}

// ---------------------------------------------------------------------------
// Hashes
// ---------------------------------------------------------------------------

/// The SHA-256 digest of `data`.
pub uninterp spec fn sha256_digest(data: Seq<u8>) -> Seq<u8>;

/// Calls `sha2::Sha256::digest`. Claims only that the 32 bytes it returns are
/// a function of the input bytes, which `sha256_digest` names.
#[verifier::external_body]
fn sha256(data: &[u8]) -> (digest: [u8; 32])
    ensures
        digest@ == sha256_digest(data@),
{
    sha2::Sha256::digest(data).into()
}

/// The HMAC-SHA256 code of `message` under `key`.
pub uninterp spec fn hmac_sha256_code(key: Seq<u8>, message: Seq<u8>) -> Seq<u8>;

/// Computes an HMAC with `hmac::Hmac<sha2::Sha256>`: keyed by `new_from_slice`,
/// which takes a key of any length, fed by one `update`, closed by `finalize`.
/// Claims only that the 32 bytes are a function of key and message, which
/// `hmac_sha256_code` names.
#[verifier::external_body]
pub(crate) fn hmac_sha256(key: &[u8; 32], message: &[u8]) -> (code: [u8; 32])
    ensures
        code@ == hmac_sha256_code(key@, message@),
{
    let mut mac = <hmac::Hmac<sha2::Sha256> as hmac::Mac>::new_from_slice(key).unwrap();
    mac.update(message);
    mac.finalize().into_bytes().into()
}

/// The hash under which a public key's mailbox is filed.
pub open spec fn hash_of_pubkey(pubkey: Seq<u8>) -> Seq<u8> {
    sha256_digest(pubkey)
}

/// The hash under which the mailbox of the holder of a public key is filed.
/// `pubkey` is the key in its protobuf encoding.
pub fn recipient_hash(pubkey: &[u8]) -> (hash: [u8; 32])
    ensures
        hash@ == hash_of_pubkey(pubkey@),
        hash@ == sha256_digest(pubkey@),
{
    sha256(pubkey)
}

/// The blind key of a push token: the digest of the raw token followed by the
/// server secret.
pub open spec fn blind_key_of(raw_token: Seq<u8>, server_secret: Seq<u8>) -> Seq<u8> {
    sha256_digest(raw_token + server_secret)
}

/// Computes the blind key of a token that arrives encrypted.
pub fn blind_key(encrypted_token: &[u8], server_secret: &[u8; 32]) -> (key: [u8; 32])
    ensures
        key@ == blind_key_of(xored(encrypted_token@, server_secret@), server_secret@),
        key@ == sha256_digest(
            Seq::new(encrypted_token@.len(), |i: int| encrypted_token@[i] ^ server_secret@[i % 32])
                + server_secret@,
        ),
{
    let mut bytes = decrypt_token(encrypted_token, server_secret);
    bytes.extend_from_slice(server_secret.as_slice());
    assert(bytes@ =~= xored(encrypted_token@, server_secret@) + server_secret@);
    assert(bytes@ =~= Seq::new(encrypted_token@.len(), |i: int| encrypted_token@[i] ^ server_secret@[i % 32])
        + server_secret@);
    sha256(bytes.as_slice())
}

// ---------------------------------------------------------------------------
// Hexadecimal
// ---------------------------------------------------------------------------

/// Whether a byte is the ASCII code of a hexadecimal digit.
pub open spec fn is_hex_digit(c: u8) -> bool {
    0x30 <= c <= 0x39 || 0x41 <= c <= 0x46 || 0x61 <= c <= 0x66
}

/// The value of a hexadecimal digit.
pub open spec fn hex_digit_value(c: u8) -> int {
    if c <= 0x39 {
        c - 0x30
    } else if c <= 0x46 {
        c - 0x41 + 10
    } else {
        c - 0x61 + 10
    }
}

/// Whether `text` is a hexadecimal string: an even number of digits.
pub open spec fn is_hex(text: Seq<u8>) -> bool {
    text.len() % 2 == 0 && forall|i: int| 0 <= i < text.len() ==> is_hex_digit(#[trigger] text[i])
}

/// The bytes that a hexadecimal string stands for.
pub open spec fn hex_value(text: Seq<u8>) -> Seq<u8> {
    Seq::new(
        text.len() / 2,
        |i: int| (hex_digit_value(text[2 * i]) * 16 + hex_digit_value(text[2 * i + 1])) as u8,
    )
}

/// The lower-case digit of a value below 16.
pub open spec fn hex_digit(value: int) -> char {
    if value < 10 {
        (0x30 + value) as char
    } else {
        (0x61 + value - 10) as char
    }
}

/// The lower-case hexadecimal text of `bytes`, two digits each.
pub open spec fn hex_text(bytes: Seq<u8>) -> Seq<char> {
    Seq::new(
        2 * bytes.len(),
        |i: int|
            if i % 2 == 0 {
                hex_digit(bytes[i / 2] as int / 16)
            } else {
                hex_digit(bytes[i / 2] as int % 16)
            },
    )
}

/// The error of `hex::decode`.
#[verifier::external_type_specification]
#[verifier::external_body]
pub struct ExFromHexError(hex::FromHexError);

/// Calls `hex::decode`. Claims that it succeeds exactly on an even number of
/// hexadecimal digits, upper or lower case, and then returns one byte for each
/// pair, the first digit being the high half.
#[verifier::external_body]
fn decode_hex_text(text: &[u8]) -> (result: Result<Vec<u8>, hex::FromHexError>)
    ensures
        result is Ok <==> is_hex(text@),
        result matches Ok(bytes) ==> bytes@ == hex_value(text@),
{
    hex::decode(text)
}

/// Calls `hex::encode`. Claims that it returns two lower-case digits for each
/// byte, the high half first.
#[verifier::external_body]
fn encode_hex_text(bytes: &[u8; 32]) -> (text: String)
    ensures
        text@ == hex_text(bytes@),
{
    hex::encode(bytes)
}

/// The bytes that a hexadecimal string stands for, or `None` if it is not one.
pub fn decode_hex(text: &[u8]) -> (result: Option<Vec<u8>>)
    ensures
        result is Some <==> is_hex(text@),
        result matches Some(bytes) ==> bytes@ == hex_value(text@),
{
    match decode_hex_text(text) {
        Ok(bytes) => Some(bytes),
        Err(_) => None,
    }
}

/// The lower-case hexadecimal text of 32 bytes.
pub fn encode_hex(bytes: &[u8; 32]) -> (text: String)
    ensures
        text@ == hex_text(bytes@),
{
    encode_hex_text(bytes)
}

/// The ASCII codes of a text.
pub open spec fn ascii(text: Seq<char>) -> Seq<u8> {
    text.map_values(|c: char| c as u8)
}

/// Hexadecimal text that was written can be read back, and gives the bytes that
/// were written.
pub proof fn law_hex_round_trip(bytes: Seq<u8>)
    ensures
        is_hex(ascii(hex_text(bytes))),
        hex_value(ascii(hex_text(bytes))) == bytes,
{
    let text = ascii(hex_text(bytes));
    assert forall|i: int| 0 <= i < text.len() implies is_hex_digit(#[trigger] text[i]) by {
        let b = bytes[i / 2];
        assert(b / 16 < 16 && b % 16 < 16);
    }
    assert forall|i: int| 0 <= i < bytes.len() implies hex_value(text)[i] == bytes[i] by {
        let b = bytes[i];
        assert((2 * i) / 2 == i && (2 * i) % 2 == 0);
        assert((2 * i + 1) / 2 == i && (2 * i + 1) % 2 == 1);
        assert(text[2 * i] == hex_digit((b / 16) as int) as u8);
        assert(text[2 * i + 1] == hex_digit((b % 16) as int) as u8);
        assert(b == (b / 16) * 16 + b % 16);
    }
    assert(hex_value(text) =~= bytes);
}

// ---------------------------------------------------------------------------
// Base64
// ---------------------------------------------------------------------------

/// The digit of a six-bit value in the standard alphabet of RFC 4648.
pub open spec fn base64_digit(value: int) -> char {
    if value < 26 {
        (0x41 + value) as char
    } else if value < 52 {
        (0x61 + value - 26) as char
    } else if value < 62 {
        (0x30 + value - 52) as char
    } else if value == 62 {
        '+'
    } else {
        '/'
    }
}

/// The padded base64 text of `bytes`: four digits for every three bytes.
pub open spec fn base64_text(bytes: Seq<u8>) -> Seq<char>
    decreases bytes.len(),
{
    let a = bytes[0] as int;
    let b = bytes[1] as int;
    let c = bytes[2] as int;
    if bytes.len() == 0 {
        Seq::empty()
    } else if bytes.len() == 1 {
        seq![base64_digit(a / 4), base64_digit(a % 4 * 16), '=', '=']
    } else if bytes.len() == 2 {
        seq![base64_digit(a / 4), base64_digit(a % 4 * 16 + b / 16), base64_digit(b % 16 * 4), '=']
    } else {
        seq![
            base64_digit(a / 4),
            base64_digit(a % 4 * 16 + b / 16),
            base64_digit(b % 16 * 4 + c / 64),
            base64_digit(c % 64),
        ] + base64_text(bytes.skip(3))
    }
}

/// The length of the base64 text of `len` bytes.
pub open spec fn base64_len(len: nat) -> nat {
    (len + 2) / 3 * 4
}

/// Calls `base64::engine::general_purpose::STANDARD.encode`. Claims that it
/// returns the standard, padded text. The call reserves its output beforehand,
/// so the length of that output is bounded by the largest allocation.
#[verifier::external_body]
fn encode_base64_text(bytes: &[u8]) -> (text: String)
    requires
        base64_len(bytes@.len()) <= isize::MAX,
    ensures
        text@ == base64_text(bytes@),
{
    base64::prelude::BASE64_STANDARD.encode(bytes)
}

/// The padded base64 text of `bytes`.
pub fn encode_base64(bytes: &[u8]) -> (text: String)
    requires
        base64_len(bytes@.len()) <= isize::MAX,
    ensures
        text@ == base64_text(bytes@),
{
    encode_base64_text(bytes)
}

/// Whether a character is a base64 digit or padding.
pub open spec fn is_base64_char(c: char) -> bool {
    'A' <= c <= 'Z' || 'a' <= c <= 'z' || '0' <= c <= '9' || c == '+' || c == '/' || c == '='
}

/// Base64 text has the documented length and only base64 characters.
pub proof fn lemma_base64_text(bytes: Seq<u8>)
    ensures
        base64_text(bytes).len() == base64_len(bytes.len()),
        forall|i: int| 0 <= i < base64_text(bytes).len() ==> is_base64_char(#[trigger] base64_text(bytes)[i]),
    decreases bytes.len(),
{
    if bytes.len() >= 3 {
        let rest = bytes.skip(3);
        lemma_base64_text(rest);
        let text = base64_text(bytes);
        assert forall|i: int| 0 <= i < text.len() implies is_base64_char(#[trigger] text[i]) by {
            if i >= 4 {
                assert(text[i] == base64_text(rest)[i - 4]);
            }
        }
    }
}

// ---------------------------------------------------------------------------
// Laws
// ---------------------------------------------------------------------------

/// The cipher works byte by byte, at every position of data of any length: each
/// byte is xored with the byte of the key at its position modulo 32.
pub proof fn law_cipher_covers_every_position(data: Seq<u8>, key: Seq<u8>, i: int)
    requires
        0 <= i < data.len(),
    ensures
        xored(data, key).len() == data.len(),
        xored(data, key)[i] == data[i] ^ key[i % 32],
{
}

/// Xoring the encrypted data with the data gives the key back, over and over: no
/// position is left unencrypted.
pub proof fn law_cipher_reveals_the_repeated_key(data: Seq<u8>, key: Seq<u8>, i: int)
    requires
        0 <= i < data.len(),
    ensures
        xored(data, key)[i] ^ data[i] == key[i % 32],
{
    let d = data[i];
    let k = key[i % 32];
    assert((d ^ k) ^ d == k) by (bit_vector);
}

/// Encrypting two tokens with one key keeps what tells them apart: the encrypted
/// bytes differ, by xor, as the raw bytes do.
pub proof fn law_cipher_keeps_differences(a: Seq<u8>, b: Seq<u8>, key: Seq<u8>, i: int)
    requires
        0 <= i < a.len(),
        0 <= i < b.len(),
    ensures
        xored(a, key)[i] ^ xored(b, key)[i] == a[i] ^ b[i],
{
    let x = a[i];
    let y = b[i];
    let k = key[i % 32];
    assert((x ^ k) ^ (y ^ k) == x ^ y) by (bit_vector);
}

/// The mailbox of a public key of any length is the SHA-256 digest of all its bytes.
pub proof fn law_mailbox_is_the_digest_of_the_whole_key(pubkey: Seq<u8>)
    ensures
        hash_of_pubkey(pubkey) == sha256_digest(pubkey),
{
}

/// The blind key of a token is the SHA-256 digest of all of the raw token and then
/// all of the secret; for a token that arrives encrypted, of what it decrypts to.
pub proof fn law_blind_key_is_the_digest_of_token_and_secret(raw_token: Seq<u8>, secret: Seq<u8>)
    ensures
        blind_key_of(raw_token, secret) == sha256_digest(raw_token + secret),
        blind_key_of(xored(xored(raw_token, secret), secret), secret) == sha256_digest(raw_token + secret),
{
    law_xor_cipher_is_an_involution(raw_token, secret);
}

/// Hexadecimal text has two digits for each byte, the high half first, in lower
/// case.
pub proof fn law_hex_text_is_two_digits_a_byte(bytes: Seq<u8>, i: int)
    requires
        0 <= i < bytes.len(),
    ensures
        hex_text(bytes).len() == 2 * bytes.len(),
        hex_text(bytes)[2 * i] == "0123456789abcdef"@[(bytes[i] / 16) as int],
        hex_text(bytes)[2 * i + 1] == "0123456789abcdef"@[(bytes[i] % 16) as int],
{
    reveal_strlit("0123456789abcdef");
    assert((2 * i) / 2 == i && (2 * i) % 2 == 0);
    assert((2 * i + 1) / 2 == i && (2 * i + 1) % 2 == 1);
    lemma_hex_digit((bytes[i] / 16) as int);
    lemma_hex_digit((bytes[i] % 16) as int);
}

proof fn lemma_hex_digit(value: int)
    requires
        0 <= value < 16,
    ensures
        hex_digit(value) == "0123456789abcdef"@[value],
{
    reveal_strlit("0123456789abcdef");
}

/// Hexadecimal text is read in either case: a text whose characters are pairs of
/// digits is accepted, and each pair is a byte, the first digit its high half.
pub proof fn law_hex_is_read_in_either_case(text: Seq<u8>, bytes: Seq<u8>)
    requires
        text.len() == 2 * bytes.len(),
        forall|i: int|
            0 <= i < bytes.len() ==> spells(text[2 * i], (#[trigger] bytes[i] / 16) as int) && spells(
                text[2 * i + 1],
                (bytes[i] % 16) as int,
            ),
    ensures
        is_hex(text),
        hex_value(text) == bytes,
{
    reveal_strlit("0123456789abcdef");
    reveal_strlit("0123456789ABCDEF");
    assert forall|i: int| 0 <= i < text.len() implies is_hex_digit(#[trigger] text[i]) by {
        let b = bytes[i / 2];
        assert(b / 16 < 16 && b % 16 < 16);
        assert(i == 2 * (i / 2) || i == 2 * (i / 2) + 1);
        if i == 2 * (i / 2) {
            lemma_spells(text[i], (b / 16) as int);
        } else {
            lemma_spells(text[i], (b % 16) as int);
        }
    }
    assert forall|i: int| 0 <= i < bytes.len() implies hex_value(text)[i] == bytes[i] by {
        let b = bytes[i];
        lemma_spells(text[2 * i], (b / 16) as int);
        lemma_spells(text[2 * i + 1], (b % 16) as int);
        assert(b == (b / 16) * 16 + b % 16);
    }
    assert(hex_value(text) =~= bytes);
}

/// Whether a byte is the digit of a value below 16, in upper or lower case.
pub open spec fn spells(c: u8, value: int) -> bool {
    c == "0123456789abcdef"@[value] as u8 || c == "0123456789ABCDEF"@[value] as u8
}

proof fn lemma_spells(c: u8, value: int)
    requires
        0 <= value < 16,
        spells(c, value),
    ensures
        is_hex_digit(c),
        hex_digit_value(c) == value,
{
    reveal_strlit("0123456789abcdef");
    reveal_strlit("0123456789ABCDEF");
}

/// Text is hexadecimal only if it is made of an even number of digits: any other
/// character, or an odd one, makes it none.
pub proof fn law_hex_needs_digits(text: Seq<u8>)
    requires
        is_hex(text),
    ensures
        text.len() % 2 == 0,
        hex_value(text).len() * 2 == text.len(),
        forall|i: int| 0 <= i < text.len() ==> spells_a_value(#[trigger] text[i]),
{
    assert forall|i: int| 0 <= i < text.len() implies spells_a_value(#[trigger] text[i]) by {
        let value = hex_digit_value(text[i]);
        reveal_strlit("0123456789abcdef");
        reveal_strlit("0123456789ABCDEF");
        assert(is_hex_digit(text[i]));
        assert(spells(text[i], value));
    }
}

/// Whether a byte is a hexadecimal digit, in upper or lower case.
pub open spec fn spells_a_value(c: u8) -> bool {
    exists|value: int| 0 <= value < 16 && #[trigger] spells(c, value)
}

/// The byte at a position, or zero behind the end.
pub open spec fn byte_or_zero(bytes: Seq<u8>, i: int) -> int {
    if i < bytes.len() {
        bytes[i] as int
    } else {
        0
    }
}

/// The 24 bits of the `i`-th three bytes. Bytes behind the end count as zero.
pub open spec fn bits_of_three(bytes: Seq<u8>, i: int) -> int {
    byte_or_zero(bytes, 3 * i) * 65536 + byte_or_zero(bytes, 3 * i + 1) * 256 + byte_or_zero(bytes, 3 * i + 2)
}

/// The standard alphabet's digit of a six-bit value.
pub open spec fn in_alphabet(value: int) -> char {
    "ABCDEFGHIJKLMNOPQRSTUVWXYZabcdefghijklmnopqrstuvwxyz0123456789+/"@[value]
}

/// Base64 text is made of four digits of the standard alphabet for every three
/// bytes, the most significant bits first. Missing bytes at the end count as zero,
/// and digits without a bit of the data are padding.
pub proof fn law_base64_is_six_bits_a_digit(bytes: Seq<u8>, i: int)
    requires
        0 <= i,
        3 * i < bytes.len(),
    ensures
        base64_text(bytes).len() == (bytes.len() + 2) / 3 * 4,
        base64_text(bytes)[4 * i] == in_alphabet(bits_of_three(bytes, i) / 262144),
        base64_text(bytes)[4 * i + 1] == in_alphabet(bits_of_three(bytes, i) / 4096 % 64),
        base64_text(bytes)[4 * i + 2] == if 3 * i + 1 < bytes.len() {
            in_alphabet(bits_of_three(bytes, i) / 64 % 64)
        } else {
            '='
        },
        base64_text(bytes)[4 * i + 3] == if 3 * i + 2 < bytes.len() {
            in_alphabet(bits_of_three(bytes, i) % 64)
        } else {
            '='
        },
    decreases bytes.len(),
{
    lemma_base64_text(bytes);
    if i > 0 {
        let rest = bytes.skip(3);
        let text = base64_text(bytes);
        let text_of_rest = base64_text(rest);
        law_base64_is_six_bits_a_digit(rest, i - 1);
        assert(bits_of_three(rest, i - 1) == bits_of_three(bytes, i));
        assert forall|j: int| 4 <= j < text.len() implies text[j] == text_of_rest[j - 4] by {}
        assert(text[4 * i] == text_of_rest[4 * (i - 1)]);
        assert(text[4 * i + 1] == text_of_rest[4 * (i - 1) + 1]);
        assert(text[4 * i + 2] == text_of_rest[4 * (i - 1) + 2]);
        assert(text[4 * i + 3] == text_of_rest[4 * (i - 1) + 3]);
    } else {
        lemma_six_bits(byte_or_zero(bytes, 0), byte_or_zero(bytes, 1), byte_or_zero(bytes, 2));
        let bits = bits_of_three(bytes, 0);
        lemma_base64_digit(bits / 262144);
        lemma_base64_digit(bits / 4096 % 64);
        lemma_base64_digit(bits / 64 % 64);
        lemma_base64_digit(bits % 64);
    }
}

proof fn lemma_six_bits(a: int, b: int, c: int)
    requires
        0 <= a < 256,
        0 <= b < 256,
        0 <= c < 256,
    ensures
        ({
            let bits = a * 65536 + b * 256 + c;
            &&& bits / 262144 == a / 4
            &&& bits / 4096 % 64 == a % 4 * 16 + b / 16
            &&& bits / 64 % 64 == b % 16 * 4 + c / 64
            &&& bits % 64 == c % 64
            &&& 0 <= bits / 262144 < 64
        }),
{
    let bits = a * 65536 + b * 256 + c;
    let first = a / 4;
    let second = a % 4 * 16 + b / 16;
    let third = b % 16 * 4 + c / 64;
    let fourth = c % 64;
    assert(0 <= first < 64 && 0 <= second < 64 && 0 <= third < 64 && 0 <= fourth < 64);
    assert(bits == ((first * 64 + second) * 64 + third) * 64 + fourth);
    lemma_last_digit((first * 64 + second) * 64 + third, fourth);
    lemma_last_digit(first * 64 + second, third);
    lemma_last_digit(first, second);
    assert(bits / 64 == (first * 64 + second) * 64 + third);
    assert(bits / 4096 == bits / 64 / 64);
    assert(bits / 262144 == bits / 4096 / 64);
}

proof fn lemma_last_digit(rest: int, digit: int)
    requires
        0 <= digit < 64,
    ensures
        (rest * 64 + digit) / 64 == rest,
        (rest * 64 + digit) % 64 == digit,
{
}

proof fn lemma_base64_digit(value: int)
    requires
        0 <= value < 64,
    ensures
        base64_digit(value) == in_alphabet(value),
{
    reveal_strlit("ABCDEFGHIJKLMNOPQRSTUVWXYZabcdefghijklmnopqrstuvwxyz0123456789+/");
}

} // verus!
