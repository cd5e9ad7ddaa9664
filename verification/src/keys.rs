//! Byte order and the layout of the vault's composite keys.
//!
//! An envelope is filed under 40 bytes: the 32-byte hash of the recipient's
//! public key, then its sequence number as eight big-endian bytes. In the byte
//! order of the table all envelopes of one recipient are therefore adjacent,
//! and they stand in the order of their sequence numbers.

use vstd::prelude::*;

verus! {

/// Length of a recipient hash.
pub const HASH_LEN: usize = 32;

/// Length of a vault key.
pub const KEY_LEN: usize = 40;

// ---------------------------------------------------------------------------
// Byte order
// ---------------------------------------------------------------------------

/// `a` and `b` agree before position `i`, and at `i` either `a` has ended or it
/// holds the smaller byte.
pub open spec fn precedes_at(a: Seq<u8>, b: Seq<u8>, i: int) -> bool {
    &&& 0 <= i <= a.len()
    &&& i < b.len()
    &&& forall|j: int| 0 <= j < i ==> a[j] == b[j]
    &&& i < a.len() ==> a[i] < b[i]
}

/// Strict lexicographic order on byte strings.
pub open spec fn precedes(a: Seq<u8>, b: Seq<u8>) -> bool {
    exists|i: int| precedes_at(a, b, i)
}

/// `low <= key <= high` in byte order.
pub open spec fn within(low: Seq<u8>, key: Seq<u8>, high: Seq<u8>) -> bool {
    !precedes(key, low) && !precedes(high, key)
}

/// Byte order is irreflexive.
pub proof fn lemma_precedes_irreflexive(a: Seq<u8>)
    ensures
        !precedes(a, a),
{
}

/// Byte order is transitive.
pub proof fn lemma_precedes_transitive(a: Seq<u8>, b: Seq<u8>, c: Seq<u8>)
    requires
        precedes(a, b),
        precedes(b, c),
    ensures
        precedes(a, c),
{
    let i = choose|i: int| precedes_at(a, b, i);
    let j = choose|j: int| precedes_at(b, c, j);
    if i <= j {
        assert(precedes_at(a, c, i));
    } else {
        assert(precedes_at(a, c, j));
    }
}

/// Position of the first difference between `a` and `b`, searched from `from`.
spec fn first_difference(a: Seq<u8>, b: Seq<u8>, from: int) -> int
    decreases a.len() - from,
{
    if 0 <= from < a.len() && from < b.len() && a[from] == b[from] {
        first_difference(a, b, from + 1)
    } else {
        from
    }
}

proof fn lemma_first_difference(a: Seq<u8>, b: Seq<u8>, from: int)
    requires
        0 <= from <= a.len(),
        from <= b.len(),
        forall|j: int| 0 <= j < from ==> a[j] == b[j],
    ensures
        ({
            let d = first_difference(a, b, from);
            &&& from <= d <= a.len()
            &&& d <= b.len()
            &&& forall|j: int| 0 <= j < d ==> a[j] == b[j]
            &&& d < a.len() && d < b.len() ==> a[d] != b[d]
        }),
    decreases a.len() - from,
{
    if from < a.len() && from < b.len() && a[from] == b[from] {
        lemma_first_difference(a, b, from + 1);
    }
}

/// Two different byte strings are ordered one way or the other.
pub proof fn lemma_precedes_total(a: Seq<u8>, b: Seq<u8>)
    requires
        a != b,
    ensures
        precedes(a, b) || precedes(b, a),
{
    lemma_first_difference(a, b, 0);
    let d = first_difference(a, b, 0);
    if d == a.len() && d == b.len() {
        assert(a =~= b);
    } else if d < b.len() && (d == a.len() || a[d] < b[d]) {
        assert(precedes_at(a, b, d));
    } else {
        assert(precedes_at(b, a, d));
    }
}

/// A common prefix does not change the order.
pub proof fn lemma_precedes_common_prefix(p: Seq<u8>, a: Seq<u8>, b: Seq<u8>)
    ensures
        precedes(p + a, p + b) <==> precedes(a, b),
{
    if precedes(a, b) {
        let i = choose|i: int| precedes_at(a, b, i);
        assert(precedes_at(p + a, p + b, p.len() + i));
    }
    if precedes(p + a, p + b) {
        let i = choose|i: int| precedes_at(p + a, p + b, i);
        if i < p.len() {
            assert((p + a)[i] == p[i] && (p + b)[i] == p[i]);
        }
        assert forall|j: int| 0 <= j < i - p.len() implies a[j] == b[j] by {
            assert((p + a)[p.len() + j] == a[j]);
            assert((p + b)[p.len() + j] == b[j]);
        }
        assert(precedes_at(a, b, i - p.len()));
    }
}

/// Between byte strings of one length with different prefixes, the prefixes decide.
pub proof fn lemma_precedes_by_prefix(p: Seq<u8>, a: Seq<u8>, q: Seq<u8>, b: Seq<u8>)
    requires
        p.len() == q.len(),
        precedes(p, q),
    ensures
        precedes(p + a, q + b),
{
    let i = choose|i: int| precedes_at(p, q, i);
    assert(precedes_at(p + a, q + b, i));
}

// ---------------------------------------------------------------------------
// Listings
// ---------------------------------------------------------------------------

/// `keys` names the members of `members`, each once, in ascending byte order.
pub open spec fn lists(keys: Seq<Seq<u8>>, members: Set<Seq<u8>>) -> bool {
    &&& forall|i: int, j: int| 0 <= i < j < keys.len() ==> precedes(#[trigger] keys[i], #[trigger] keys[j])
    &&& forall|k: Seq<u8>| keys.contains(k) <==> #[trigger] members.contains(k)
}

/// A listing names no key twice and is as long as the set that it lists.
pub proof fn lemma_listing_len(keys: Seq<Seq<u8>>, members: Set<Seq<u8>>)
    requires
        lists(keys, members),
    ensures
        keys.no_duplicates(),
        members.finite(),
        members.len() == keys.len(),
        keys.to_set() == members,
{
    assert forall|i: int, j: int| 0 <= i < keys.len() && 0 <= j < keys.len() && i != j implies keys[i]
        != keys[j] by {
        lemma_precedes_irreflexive(keys[i]);
        if i < j {
            assert(precedes(keys[i], keys[j]));
        } else {
            assert(precedes(keys[j], keys[i]));
        }
    }
    assert(keys.to_set() =~= members);
    keys.unique_seq_to_set();
}

/// A set has at most one listing: what a range scan hands out, and in which
/// order, is fixed by the rows alone.
pub proof fn law_listing_is_unique(a: Seq<Seq<u8>>, b: Seq<Seq<u8>>, members: Set<Seq<u8>>)
    requires
        lists(a, members),
        lists(b, members),
    ensures
        a == b,
    decreases a.len(),
{
    lemma_listing_len(a, members);
    lemma_listing_len(b, members);
    if a.len() > 0 {
        let n = a.len() - 1;
        let last_a = a[n];
        let last_b = b[n];
        assert(a.contains(last_a));
        assert(b.contains(last_b));
        assert(members.contains(last_a) && members.contains(last_b));
        if last_a != last_b {
            let i = choose|i: int| 0 <= i < b.len() && b[i] == last_a;
            let j = choose|j: int| 0 <= j < a.len() && a[j] == last_b;
            assert(precedes(b[i], b[n]));
            assert(precedes(a[j], a[n]));
            lemma_precedes_transitive(last_a, last_b, last_a);
            lemma_precedes_irreflexive(last_a);
        }
        let rest = members.remove(last_a);
        lemma_listing_without_last(a, members);
        lemma_listing_without_last(b, members);
        law_listing_is_unique(a.drop_last(), b.drop_last(), rest);
        assert(a =~= a.drop_last().push(last_a));
        assert(b =~= b.drop_last().push(last_b));
    } else {
        assert(a =~= b);
    }
}

/// Without its last key a listing lists the set without that key.
pub proof fn lemma_listing_without_last(keys: Seq<Seq<u8>>, members: Set<Seq<u8>>)
    requires
        lists(keys, members),
        keys.len() > 0,
    ensures
        lists(keys.drop_last(), members.remove(keys.last())),
{
    lemma_listing_len(keys, members);
    let shorter = keys.drop_last();
    assert forall|k: Seq<u8>| shorter.contains(k) <==> #[trigger] members.remove(keys.last()).contains(
        k,
    ) by {
        if shorter.contains(k) {
            let i = choose|i: int| 0 <= i < shorter.len() && shorter[i] == k;
            assert(keys[i] == k);
            assert(keys.contains(k));
        }
        if members.remove(keys.last()).contains(k) {
            assert(keys.contains(k));
            let i = choose|i: int| 0 <= i < keys.len() && keys[i] == k;
            assert(shorter[i] == k);
        }
    }
}

/// A key above every listed key extends the listing at its end.
pub proof fn lemma_listing_push(keys: Seq<Seq<u8>>, members: Set<Seq<u8>>, key: Seq<u8>)
    requires
        lists(keys, members),
        forall|k: Seq<u8>| #[trigger] members.contains(k) ==> precedes(k, key),
    ensures
        lists(keys.push(key), members.insert(key)),
{
    let longer = keys.push(key);
    assert forall|i: int, j: int| 0 <= i < j < longer.len() implies precedes(
        #[trigger] longer[i],
        #[trigger] longer[j],
    ) by {
        if j == keys.len() {
            assert(keys.contains(keys[i]));
            assert(members.contains(keys[i]));
        }
    }
    assert forall|k: Seq<u8>| longer.contains(k) <==> #[trigger] members.insert(key).contains(k) by {
        if longer.contains(k) {
            let i = choose|i: int| 0 <= i < longer.len() && longer[i] == k;
            if i < keys.len() {
                assert(keys[i] == k);
                assert(keys.contains(k));
            }
        }
        if members.insert(key).contains(k) {
            if k == key {
                assert(longer[keys.len() as int] == k);
            } else {
                assert(keys.contains(k));
                let i = choose|i: int| 0 <= i < keys.len() && keys[i] == k;
                assert(longer[i] == k);
            }
        }
    }
}

// ---------------------------------------------------------------------------
// Big-endian numbers
// ---------------------------------------------------------------------------

/// The `width` low bytes of `n`, most significant first.
pub open spec fn big_endian(n: nat, width: nat) -> Seq<u8>
    decreases width,
{
    if width == 0 {
        Seq::empty()
    } else {
        big_endian(n / 256, (width - 1) as nat).push((n % 256) as u8)
    }
}

/// The number that `bytes` spells, most significant byte first.
pub open spec fn from_big_endian(bytes: Seq<u8>) -> nat
    decreases bytes.len(),
{
    if bytes.len() == 0 {
        0
    } else {
        from_big_endian(bytes.drop_last()) * 256 + bytes.last() as nat
    }
}

/// `256` to the power of `width`.
pub open spec fn radix(width: nat) -> nat
    decreases width,
{
    if width == 0 {
        1
    } else {
        256 * radix((width - 1) as nat)
    }
}

pub proof fn lemma_big_endian_len(n: nat, width: nat)
    ensures
        big_endian(n, width).len() == width,
    decreases width,
{
    if width > 0 {
        lemma_big_endian_len(n / 256, (width - 1) as nat);
    }
}

/// Reading back the big-endian bytes of a number that fits gives the number.
pub proof fn lemma_big_endian_inverse(n: nat, width: nat)
    requires
        n < radix(width),
    ensures
        from_big_endian(big_endian(n, width)) == n,
    decreases width,
{
    if width > 0 {
        lemma_big_endian_inverse(n / 256, (width - 1) as nat);
        lemma_big_endian_len(n / 256, (width - 1) as nat);
        assert(big_endian(n, width).drop_last() =~= big_endian(n / 256, (width - 1) as nat));
    }
}

/// The number that some bytes spell fits in them, and its big-endian bytes are
/// those bytes.
pub proof fn lemma_from_big_endian_inverse(bytes: Seq<u8>)
    ensures
        from_big_endian(bytes) < radix(bytes.len()),
        big_endian(from_big_endian(bytes), bytes.len()) == bytes,
    decreases bytes.len(),
{
    if bytes.len() > 0 {
        lemma_from_big_endian_inverse(bytes.drop_last());
        let high = from_big_endian(bytes.drop_last());
        let n = from_big_endian(bytes);
        assert(n / 256 == high && n % 256 == bytes.last() as nat);
        assert(bytes =~= bytes.drop_last().push(bytes.last()));
    } else {
        assert(big_endian(0, 0) =~= bytes);
    }
}

/// Byte order on big-endian bytes of one width is the order of the numbers.
pub proof fn lemma_big_endian_order(a: nat, b: nat, width: nat)
    requires
        a < b < radix(width),
    ensures
        precedes(big_endian(a, width), big_endian(b, width)),
    decreases width,
{
    if width > 0 {
        let w = (width - 1) as nat;
        lemma_big_endian_len(a / 256, w);
        lemma_big_endian_len(b / 256, w);
        let x = big_endian(a, width);
        let y = big_endian(b, width);
        if a / 256 < b / 256 {
            lemma_big_endian_order(a / 256, b / 256, w);
            let p = big_endian(a / 256, w);
            let q = big_endian(b / 256, w);
            let i = choose|i: int| precedes_at(p, q, i);
            assert(precedes_at(x, y, i));
        } else {
            assert(precedes_at(x, y, w as int));
        }
    }
}

/// Eight bytes hold exactly the values of a `u64`.
pub proof fn lemma_radix_8()
    ensures
        radix(8) == 0x1_0000_0000_0000_0000,
{
    reveal_with_fuel(radix, 9);
}

/// Nothing of eight bytes precedes eight zero bytes, and eight `0xff` bytes
/// precede nothing of eight bytes.
pub proof fn lemma_eight_byte_bounds(bytes: Seq<u8>)
    requires
        bytes.len() == 8,
    ensures
        !precedes(bytes, Seq::new(8, |i: int| 0u8)),
        !precedes(Seq::new(8, |i: int| 0xffu8), bytes),
{
    let zeros = Seq::new(8, |i: int| 0u8);
    let ones = Seq::new(8, |i: int| 0xffu8);
    assert forall|i: int| !precedes_at(bytes, zeros, i) by {
        if precedes_at(bytes, zeros, i) {
            assert(zeros[i] == 0);
        }
    }
    assert forall|i: int| !precedes_at(ones, bytes, i) by {
        if precedes_at(ones, bytes, i) {
            assert(ones[i] == 0xff);
        }
    }
}

// ---------------------------------------------------------------------------
// Vault keys
// ---------------------------------------------------------------------------

/// The key of the envelope with sequence number `seq` for `recipient`.
pub open spec fn vault_key(recipient: Seq<u8>, seq: nat) -> Seq<u8> {
    recipient + big_endian(seq, 8)
}

/// The lowest key of a recipient.
pub open spec fn first_key(recipient: Seq<u8>) -> Seq<u8> {
    recipient + Seq::new(8, |i: int| 0u8)
}

/// The highest key of a recipient.
pub open spec fn last_key(recipient: Seq<u8>) -> Seq<u8> {
    recipient + Seq::new(8, |i: int| 0xffu8)
}

/// The keys that a scan for `recipient` covers.
pub open spec fn is_key_of(recipient: Seq<u8>, key: Seq<u8>) -> bool {
    within(first_key(recipient), key, last_key(recipient))
}

/// The recipient part of a vault key.
pub open spec fn key_recipient(key: Seq<u8>) -> Seq<u8> {
    key.subrange(0, HASH_LEN as int)
}

/// The sequence number in a vault key.
pub open spec fn key_seq(key: Seq<u8>) -> nat {
    from_big_endian(key.subrange(HASH_LEN as int, KEY_LEN as int))
}

/// Every 40-byte key is the vault key of its parts, and its sequence number is
/// a `u64`.
pub proof fn lemma_key_parts(key: Seq<u8>)
    requires
        key.len() == KEY_LEN,
    ensures
        key == vault_key(key_recipient(key), key_seq(key)),
        key_recipient(key).len() == HASH_LEN,
        key_seq(key) <= u64::MAX,
{
    lemma_from_big_endian_inverse(key.subrange(HASH_LEN as int, KEY_LEN as int));
    lemma_radix_8();
    assert(key =~= vault_key(key_recipient(key), key_seq(key)));
}

/// The parts of a vault key are what it was made of.
pub proof fn lemma_vault_key(recipient: Seq<u8>, seq: nat)
    requires
        recipient.len() == HASH_LEN,
        seq <= u64::MAX,
    ensures
        vault_key(recipient, seq).len() == KEY_LEN,
        key_recipient(vault_key(recipient, seq)) == recipient,
        key_seq(vault_key(recipient, seq)) == seq,
{
    let key = vault_key(recipient, seq);
    lemma_big_endian_len(seq, 8);
    lemma_radix_8();
    lemma_big_endian_inverse(seq, 8);
    assert(key_recipient(key) =~= recipient);
    assert(key.subrange(HASH_LEN as int, KEY_LEN as int) =~= big_endian(seq, 8));
}

/// A scan for a recipient covers, of all 40-byte keys, exactly those that begin
/// with the recipient's hash.
pub proof fn law_scan_covers_one_recipient(recipient: Seq<u8>, key: Seq<u8>)
    requires
        recipient.len() == HASH_LEN,
        key.len() == KEY_LEN,
    ensures
        is_key_of(recipient, key) <==> key_recipient(key) == recipient,
{
    let zeros = Seq::new(8, |i: int| 0u8);
    let ones = Seq::new(8, |i: int| 0xffu8);
    let owner = key_recipient(key);
    let tail = key.subrange(HASH_LEN as int, KEY_LEN as int);
    assert(key =~= owner + tail);
    if owner == recipient {
        lemma_eight_byte_bounds(tail);
        lemma_precedes_common_prefix(recipient, tail, zeros);
        lemma_precedes_common_prefix(recipient, ones, tail);
    } else {
        lemma_precedes_total(owner, recipient);
        if precedes(owner, recipient) {
            lemma_precedes_by_prefix(owner, tail, recipient, zeros);
        } else {
            lemma_precedes_by_prefix(recipient, ones, owner, tail);
        }
    }
}

/// For one recipient, keys are ordered as their sequence numbers.
pub proof fn law_keys_follow_sequence_numbers(recipient: Seq<u8>, a: nat, b: nat)
    requires
        a < b <= u64::MAX,
    ensures
        precedes(vault_key(recipient, a), vault_key(recipient, b)),
{
    lemma_radix_8();
    lemma_big_endian_order(a, b, 8);
    lemma_precedes_common_prefix(recipient, big_endian(a, 8), big_endian(b, 8));
}

/// Builds the key of an envelope.
pub fn make_vault_key(recipient: &[u8; 32], seq: u64) -> (key: Vec<u8>)
    ensures
        key@ == vault_key(recipient@, seq as nat),
        key@.len() == 40,
        key@.take(32) == recipient@,
        spelled(key@.skip(32)) == seq,
{
    proof {
        law_key_layout(recipient@, seq as nat);
    }
    let mut key: Vec<u8> = vstd::slice::slice_to_vec(recipient.as_slice());
    let tail = big_endian_bytes(seq);
    key.extend_from_slice(tail.as_slice());
    assert(key@ =~= vault_key(recipient@, seq as nat));
    key
}

/// The eight big-endian bytes of a number.
fn big_endian_bytes(n: u64) -> (bytes: Vec<u8>)
    ensures
        bytes@ == big_endian(n as nat, 8),
{
    let mut bytes: Vec<u8> = Vec::new();
    push_big_endian(&mut bytes, n, 8);
    assert(bytes@ =~= big_endian(n as nat, 8));
    bytes
}

fn push_big_endian(bytes: &mut Vec<u8>, n: u64, width: u64)
    ensures
        final(bytes)@ == old(bytes)@ + big_endian(n as nat, width as nat),
    decreases width,
{
    if width > 0 {
        push_big_endian(bytes, n / 256, width - 1);
        bytes.push((n % 256) as u8);
    }
    assert(bytes@ =~= old(bytes)@ + big_endian(n as nat, width as nat));
}

/// Builds the lowest and the highest key of a recipient.
pub fn scan_bounds(recipient: &[u8; 32]) -> (bounds: (Vec<u8>, Vec<u8>))
    ensures
        bounds.0@ == first_key(recipient@),
        bounds.1@ == last_key(recipient@),
        bounds.0@.len() == 40 && bounds.1@.len() == 40,
        bounds.0@.take(32) == recipient@ && bounds.1@.take(32) == recipient@,
        spelled(bounds.0@.skip(32)) == 0,
        spelled(bounds.1@.skip(32)) == u64::MAX,
{
    proof {
        law_scan_bounds_layout(recipient@);
    }
    (padded_key(recipient, 0), padded_key(recipient, 0xff))
}

/// The recipient hash followed by eight times `pad`.
fn padded_key(recipient: &[u8; 32], pad: u8) -> (key: Vec<u8>)
    ensures
        key@ == recipient@ + Seq::new(8, |i: int| pad),
{
    let mut key: Vec<u8> = vstd::slice::slice_to_vec(recipient.as_slice());
    let mut n: usize = 0;
    while n < 8
        invariant
            n <= 8,
            key@ == recipient@ + Seq::new(n as nat, |i: int| pad),
        decreases 8 - n,
    {
        key.push(pad);
        n = n + 1;
        assert(key@ =~= recipient@ + Seq::new(n as nat, |i: int| pad));
    }
    key
}

// ---------------------------------------------------------------------------
// Laws on the layout
// ---------------------------------------------------------------------------

/// The number that eight bytes spell, the first being the most significant.
pub open spec fn spelled(bytes: Seq<u8>) -> int {
    bytes[0] * 0x1_00_0000_0000_0000 + bytes[1] * 0x1_0000_0000_0000 + bytes[2] * 0x1_00_0000_0000
        + bytes[3] * 0x1_0000_0000 + bytes[4] * 0x1_00_0000 + bytes[5] * 0x1_0000 + bytes[6] * 0x1_00
        + bytes[7]
}

proof fn lemma_spelled(bytes: Seq<u8>)
    requires
        bytes.len() == 8,
    ensures
        from_big_endian(bytes) == spelled(bytes),
{
    reveal_with_fuel(from_big_endian, 9);
    let b7 = bytes.drop_last();
    let b6 = b7.drop_last();
    let b5 = b6.drop_last();
    let b4 = b5.drop_last();
    let b3 = b4.drop_last();
    let b2 = b3.drop_last();
    let b1 = b2.drop_last();
    assert(b1.drop_last().len() == 0);
    assert(b1.last() == bytes[0] && b2.last() == bytes[1] && b3.last() == bytes[2] && b4.last() == bytes[3]);
    assert(b5.last() == bytes[4] && b6.last() == bytes[5] && b7.last() == bytes[6]);
    assert(from_big_endian(b1) == bytes[0] as nat);
    assert(from_big_endian(b2) == from_big_endian(b1) * 256 + bytes[1]);
    assert(from_big_endian(b3) == from_big_endian(b2) * 256 + bytes[2]);
    assert(from_big_endian(b4) == from_big_endian(b3) * 256 + bytes[3]);
    assert(from_big_endian(b5) == from_big_endian(b4) * 256 + bytes[4]);
    assert(from_big_endian(b6) == from_big_endian(b5) * 256 + bytes[5]);
    assert(from_big_endian(b7) == from_big_endian(b6) * 256 + bytes[6]);
}

/// A vault key is the 32 bytes of the recipient's hash and then eight bytes that
/// spell the sequence number, the most significant first.
pub proof fn law_key_layout(recipient: Seq<u8>, seq: nat)
    requires
        recipient.len() == 32,
        seq <= u64::MAX,
    ensures
        vault_key(recipient, seq).len() == 40,
        vault_key(recipient, seq).take(32) == recipient,
        spelled(vault_key(recipient, seq).skip(32)) == seq,
{
    let key = vault_key(recipient, seq);
    lemma_vault_key(recipient, seq);
    assert(key.take(32) =~= key_recipient(key));
    assert(key.skip(32) =~= key.subrange(32, 40));
    lemma_spelled(key.skip(32));
}

/// The parts of a vault key are its first 32 bytes and the number that the other
/// eight spell.
pub proof fn law_key_parts(key: Seq<u8>)
    requires
        key.len() == 40,
    ensures
        key_recipient(key) == key.take(32),
        key_seq(key) == spelled(key.skip(32)),
{
    assert(key.take(32) =~= key_recipient(key));
    assert(key.skip(32) =~= key.subrange(32, 40));
    lemma_spelled(key.skip(32));
}

/// A scan runs from the key with sequence number zero to the one with the largest.
pub proof fn law_scan_bounds_layout(recipient: Seq<u8>)
    requires
        recipient.len() == 32,
    ensures
        first_key(recipient).len() == 40,
        last_key(recipient).len() == 40,
        first_key(recipient).take(32) == recipient,
        last_key(recipient).take(32) == recipient,
        spelled(first_key(recipient).skip(32)) == 0,
        spelled(last_key(recipient).skip(32)) == u64::MAX,
{
    let low = first_key(recipient);
    let high = last_key(recipient);
    assert(low.take(32) =~= recipient);
    assert(high.take(32) =~= recipient);
    assert(low.skip(32) =~= Seq::new(8, |i: int| 0u8));
    assert(high.skip(32) =~= Seq::new(8, |i: int| 0xffu8));
}

/// A scan for a recipient covers every 40-byte key that begins with the recipient's
/// 32 bytes, and no other.
pub proof fn law_scan_covers_the_prefix(recipient: Seq<u8>, key: Seq<u8>)
    requires
        recipient.len() == 32,
        key.len() == 40,
    ensures
        is_key_of(recipient, key) <==> key.take(32) == recipient,
{
    law_scan_covers_one_recipient(recipient, key);
    assert(key.take(32) =~= key_recipient(key));
}

/// Byte order is decided by the first byte that differs; where there is none, the
/// shorter string comes first.
pub proof fn law_first_difference_decides(common: Seq<u8>, x: u8, a: Seq<u8>, y: u8, b: Seq<u8>)
    ensures
        precedes(common.push(x) + a, common.push(y) + b) || x >= y,
        precedes(common, common.push(y) + b),
        !precedes(common.push(y) + b, common),
        x < y ==> !precedes(common.push(y) + b, common.push(x) + a),
{
    let n = common.len() as int;
    let p = common.push(x) + a;
    let q = common.push(y) + b;
    if x < y {
        assert(precedes_at(p, q, n));
        if precedes(q, p) {
            lemma_precedes_transitive(p, q, p);
            lemma_precedes_irreflexive(p);
        }
    }
    assert(precedes_at(common, q, n));
    if precedes(q, common) {
        lemma_precedes_transitive(common, q, common);
        lemma_precedes_irreflexive(common);
    }
}

/// A listing holds every member once and nothing else, each before those that come
/// after it in byte order.
pub proof fn law_listing_is_ascending(keys: Seq<Seq<u8>>, members: Set<Seq<u8>>, i: int, j: int)
    requires
        lists(keys, members),
        0 <= i < j < keys.len(),
    ensures
        precedes(keys[i], keys[j]),
        keys[i] != keys[j],
        members.contains(keys[i]),
        keys.to_set() == members,
        keys.len() == members.len(),
{
    lemma_listing_len(keys, members);
    assert(keys.contains(keys[i]));
}

} // verus!
