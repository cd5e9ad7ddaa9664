//! What holds of the vault across operations.

use vstd::prelude::*;
use crate::keys::{
    key_recipient, key_seq, law_key_parts, law_keys_follow_sequence_numbers,
    law_listing_is_unique, law_scan_covers_one_recipient, law_scan_covers_the_prefix, lemma_key_parts, lemma_listing_len, lemma_listing_push,
    lemma_listing_without_last, lemma_precedes_irreflexive, lemma_precedes_transitive, lemma_vault_key, lists, precedes,
    spelled, vault_key, HASH_LEN, KEY_LEN,
};
use crate::crypto::{hash_of_pubkey, law_mailbox_is_the_digest_of_the_whole_key, sha256_digest};
use crate::network::{
    GlyphResponse, INTERNAL_ERROR, MAILBOX_FULL, MALFORMED, RATE_LIMITED, TOO_LARGE, UNAUTHENTICATED,
    VAULT_AT_CAPACITY,
};
use crate::storage::{
    answers, cutoff_at, decodes, delivers, delivery, encodes, expired_keys, fails_to_encode, judged,
    refusal, settled, stored_over_30_days_before, BlindedToken, Tables, VaultEntry, VaultError,
    MAX_ENVELOPES_PER_RECIPIENT, MAX_ENVELOPE_SIZE, MIN_PAYLOAD_SIZE, SEQNO, TOKENS, TTL_SECONDS, VAULT,
    VAULT_CAPACITY_LIMIT,
};

verus! {

/// Every envelope is filed under a 40-byte key whose sequence number is at least
/// one and at most the recipient's last sequence number.
pub open spec fn well_formed(tables: Tables) -> bool {
    forall|key: Seq<u8>| #[trigger]
        tables.vault.contains_key(key) ==> {
            &&& key.len() == KEY_LEN
            &&& 1 <= key_seq(key) <= tables.last_seq(key_recipient(key))
        }
}

/// No mailbox holds more envelopes than it may.
pub open spec fn within_capacity(tables: Tables) -> bool {
    forall|recipient: Seq<u8>|
        recipient.len() == HASH_LEN ==> (#[trigger] tables.mailbox(recipient)).finite() && tables.mailbox(
            recipient,
        ).len() <= MAX_ENVELOPES_PER_RECIPIENT
}

/// Empty tables are well formed and no mailbox in them holds anything.
pub proof fn law_empty_vault_is_well_formed(tables: Tables)
    requires
        tables.vault == Map::<Seq<u8>, Seq<u8>>::empty(),
    ensures
        well_formed(tables),
        within_capacity(tables),
{
    assert forall|recipient: Seq<u8>| recipient.len() == HASH_LEN implies (#[trigger] tables.mailbox(
        recipient,
    )).finite() && tables.mailbox(recipient).len() <= MAX_ENVELOPES_PER_RECIPIENT by {
        assert(tables.mailbox(recipient) =~= Set::<Seq<u8>>::empty());
    }
}

/// In a well-formed vault a mailbox holds exactly the envelopes whose keys begin
/// with the recipient's hash.
pub proof fn law_mailbox_is_by_hash(tables: Tables, recipient: Seq<u8>, key: Seq<u8>)
    requires
        well_formed(tables),
        recipient.len() == HASH_LEN,
    ensures
        tables.mailbox(recipient).contains(key) <==> tables.vault.contains_key(key) && key_recipient(key)
            == recipient,
{
    if tables.vault.contains_key(key) {
        law_scan_covers_one_recipient(recipient, key);
    }
}

/// The next key of a recipient comes after every key in its mailbox, so filing
/// an envelope overwrites none.
pub proof fn law_next_key_is_new(tables: Tables, recipient: Seq<u8>)
    requires
        well_formed(tables),
        recipient.len() == HASH_LEN,
        tables.last_seq(recipient) < u64::MAX,
    ensures
        !tables.vault.contains_key(tables.next_key(recipient)),
        forall|key: Seq<u8>| #[trigger]
            tables.mailbox(recipient).contains(key) ==> precedes(key, tables.next_key(recipient)),
{
    let next = (tables.last_seq(recipient) + 1) as nat;
    lemma_vault_key(recipient, next);
    assert forall|key: Seq<u8>| #[trigger] tables.mailbox(recipient).contains(key) implies precedes(
        key,
        tables.next_key(recipient),
    ) by {
        law_mailbox_is_by_hash(tables, recipient, key);
        lemma_key_parts(key);
        law_keys_follow_sequence_numbers(recipient, key_seq(key), next);
    }
}

/// Filing an envelope adds its key to the recipient's mailbox and changes no
/// other mailbox.
pub proof fn lemma_mailbox_after_store(tables: Tables, recipient: Seq<u8>, bytes: Seq<u8>, other: Seq<u8>)
    requires
        well_formed(tables),
        recipient.len() == HASH_LEN,
        other.len() == HASH_LEN,
        tables.last_seq(recipient) < u64::MAX,
    ensures
        tables.stored(recipient, bytes).mailbox(other) == if other == recipient {
            tables.mailbox(recipient).insert(tables.next_key(recipient))
        } else {
            tables.mailbox(other)
        },
{
    let key = tables.next_key(recipient);
    lemma_vault_key(recipient, (tables.last_seq(recipient) + 1) as nat);
    law_scan_covers_one_recipient(other, key);
    if other == recipient {
        assert(tables.stored(recipient, bytes).mailbox(other) =~= tables.mailbox(recipient).insert(key));
    } else {
        assert(tables.stored(recipient, bytes).mailbox(other) =~= tables.mailbox(other));
    }
}

/// Storing keeps the vault well formed.
pub proof fn law_store_keeps_well_formed(tables: Tables, recipient: Seq<u8>, bytes: Seq<u8>)
    requires
        well_formed(tables),
        recipient.len() == HASH_LEN,
        tables.last_seq(recipient) < u64::MAX,
    ensures
        well_formed(tables.stored(recipient, bytes)),
{
    let after = tables.stored(recipient, bytes);
    let next = tables.next_key(recipient);
    lemma_vault_key(recipient, (tables.last_seq(recipient) + 1) as nat);
    assert forall|key: Seq<u8>| #[trigger] after.vault.contains_key(key) implies key.len() == KEY_LEN && 1
        <= key_seq(key) <= after.last_seq(key_recipient(key)) by {
        if key != next {
            assert(tables.vault.contains_key(key));
        }
    }
}

/// Storing where the mailbox is not full keeps every mailbox within its limit.
pub proof fn law_store_keeps_capacity(tables: Tables, recipient: Seq<u8>, bytes: Seq<u8>)
    requires
        well_formed(tables),
        within_capacity(tables),
        recipient.len() == HASH_LEN,
        tables.last_seq(recipient) < u64::MAX,
        !tables.is_full(recipient),
    ensures
        within_capacity(tables.stored(recipient, bytes)),
{
    let after = tables.stored(recipient, bytes);
    assert forall|other: Seq<u8>| other.len() == HASH_LEN implies (#[trigger] after.mailbox(
        other,
    )).finite() && after.mailbox(other).len() <= MAX_ENVELOPES_PER_RECIPIENT by {
        lemma_mailbox_after_store(tables, recipient, bytes, other);
        assert(tables.mailbox(other).finite());
        assert(tables.mailbox(recipient).finite());
    }
}

/// Storing for one recipient leaves every other recipient's mailbox, and what is
/// in it, as it was.
pub proof fn law_store_leaves_others_alone(
    tables: Tables,
    recipient: Seq<u8>,
    bytes: Seq<u8>,
    other: Seq<u8>,
)
    requires
        well_formed(tables),
        recipient.len() == HASH_LEN,
        other.len() == HASH_LEN,
        other != recipient,
        tables.last_seq(recipient) < u64::MAX,
    ensures
        tables.stored(recipient, bytes).mailbox(other) == tables.mailbox(other),
        forall|key: Seq<u8>| #[trigger]
            tables.mailbox(other).contains(key) ==> tables.stored(recipient, bytes).vault[key]
                == tables.vault[key],
        tables.stored(recipient, bytes).last_seq(other) == tables.last_seq(other),
        tables.stored(recipient, bytes).tokens == tables.tokens,
{
    lemma_mailbox_after_store(tables, recipient, bytes, other);
    law_next_key_is_new(tables, recipient);
}

/// A stored envelope joins the mailbox at its end, behind all that were waiting.
pub proof fn law_store_appends(
    tables: Tables,
    recipient: Seq<u8>,
    bytes: Seq<u8>,
    keys: Seq<Seq<u8>>,
)
    requires
        well_formed(tables),
        recipient.len() == HASH_LEN,
        tables.last_seq(recipient) < u64::MAX,
        lists(keys, tables.mailbox(recipient)),
    ensures
        lists(
            keys.push(tables.next_key(recipient)),
            tables.stored(recipient, bytes).mailbox(recipient),
        ),
        tables.stored(recipient, bytes).vault[tables.next_key(recipient)] == bytes,
        forall|i: int|
            0 <= i < keys.len() ==> tables.stored(recipient, bytes).vault[#[trigger] keys[i]]
                == tables.vault[keys[i]],
{
    law_next_key_is_new(tables, recipient);
    lemma_mailbox_after_store(tables, recipient, bytes, recipient);
    lemma_listing_push(keys, tables.mailbox(recipient), tables.next_key(recipient));
    assert forall|i: int| 0 <= i < keys.len() implies tables.stored(recipient, bytes).vault[#[trigger] keys[i]]
        == tables.vault[keys[i]] by {
        assert(keys.contains(keys[i]));
        assert(tables.mailbox(recipient).contains(keys[i]));
    }
}

/// `decode` reads what `encode` wrote.
pub open spec fn codec_agrees<E: Fn(&VaultEntry) -> Option<Vec<u8>>, D: Fn(&Vec<u8>) -> Option<VaultEntry>>(
    encode: E,
    decode: D,
) -> bool {
    forall|entry: VaultEntry, bytes: Seq<u8>, read: Option<VaultEntry>| #[trigger]
        encodes(encode, entry, bytes) && #[trigger] decodes(decode, bytes, read) ==> {
            &&& read matches Some(e)
            &&& e.stored_at == entry.stored_at
            &&& e.payload@ == entry.payload@
        }
}

/// A fetch gives back what was stored: after a store, the next fetch delivers
/// the contents that were waiting before, in the same order, and then the
/// content that was stored.
pub proof fn law_fetch_returns_what_was_stored<
    E: Fn(&VaultEntry) -> Option<Vec<u8>>,
    D: Fn(&Vec<u8>) -> Option<VaultEntry>,
>(
    encode: E,
    decode: D,
    tables: Tables,
    recipient: Seq<u8>,
    entry: VaultEntry,
    bytes: Seq<u8>,
    waiting: Seq<Seq<u8>>,
    payloads: Seq<Vec<u8>>,
)
    requires
        codec_agrees(encode, decode),
        well_formed(tables),
        recipient.len() == HASH_LEN,
        tables.last_seq(recipient) < u64::MAX,
        encodes(encode, entry, bytes),
        lists(waiting, tables.mailbox(recipient)),
        delivery(decode, tables.stored(recipient, bytes), recipient, payloads),
    ensures
        payloads.len() == waiting.len() + 1,
        payloads.last()@ == entry.payload@,
        forall|i: int|
            0 <= i < waiting.len() ==> delivers(decode, tables.vault[#[trigger] waiting[i]], payloads[i]@),
{
    let after = tables.stored(recipient, bytes);
    let keys = waiting.push(tables.next_key(recipient));
    law_store_appends(tables, recipient, bytes, waiting);
    let delivered = choose|delivered: Seq<Seq<u8>>|
        {
            &&& #[trigger] lists(delivered, after.mailbox(recipient))
            &&& payloads.len() == delivered.len()
            &&& forall|i: int|
                0 <= i < delivered.len() ==> delivers(decode, after.vault[#[trigger] delivered[i]], payloads[i]@)
        };
    law_listing_is_unique(delivered, keys, after.mailbox(recipient));
    assert(delivered[waiting.len() as int] == tables.next_key(recipient));
    assert(delivers(decode, bytes, payloads.last()@));
    let read = choose|e: VaultEntry| #[trigger]
        decodes(decode, bytes, Some(e)) && e.payload@ == payloads.last()@;
    assert(encodes(encode, entry, bytes) && decodes(decode, bytes, Some(read)));
    assert forall|i: int| 0 <= i < waiting.len() implies delivers(
        decode,
        tables.vault[#[trigger] waiting[i]],
        payloads[i]@,
    ) by {
        assert(delivered[i] == waiting[i]);
    }
}

/// A fetch empties the mailbox: what was delivered is not delivered again.
pub proof fn law_fetch_empties_the_mailbox(tables: Tables, recipient: Seq<u8>)
    ensures
        tables.fetched(recipient).mailbox(recipient) == Set::<Seq<u8>>::empty(),
        tables.fetched(recipient).fetched(recipient) == tables.fetched(recipient),
{
    let after = tables.fetched(recipient);
    assert(after.mailbox(recipient) =~= Set::<Seq<u8>>::empty());
    assert(after.vault.remove_keys(after.mailbox(recipient)) =~= after.vault);
    assert(after.fetched(recipient) =~= after);
}

/// From an empty mailbox nothing is delivered, and fetching from it changes
/// nothing.
pub proof fn law_nothing_waits_nothing_is_delivered<D: Fn(&Vec<u8>) -> Option<VaultEntry>>(
    decode: D,
    tables: Tables,
    recipient: Seq<u8>,
    payloads: Seq<Vec<u8>>,
)
    requires
        tables.mailbox(recipient) == Set::<Seq<u8>>::empty(),
        delivery(decode, tables, recipient, payloads),
    ensures
        payloads.len() == 0,
        tables.fetched(recipient) == tables,
{
    let keys = choose|keys: Seq<Seq<u8>>|
        #[trigger] lists(keys, tables.mailbox(recipient)) && payloads.len() == keys.len();
    lemma_listing_len(keys, tables.mailbox(recipient));
    assert(tables.vault.remove_keys(tables.mailbox(recipient)) =~= tables.vault);
    assert(tables.fetched(recipient) =~= tables);
}

/// After a fetch that delivered something, sequence numbers start over at one.
pub proof fn law_fetch_restarts_sequence_numbers(tables: Tables, recipient: Seq<u8>)
    requires
        tables.mailbox(recipient) != Set::<Seq<u8>>::empty(),
    ensures
        tables.fetched(recipient).last_seq(recipient) == 0,
        tables.fetched(recipient).next_key(recipient) == vault_key(recipient, 1),
{
}

/// Fetching keeps the vault well formed and every mailbox within its limit.
pub proof fn law_fetch_keeps_well_formed(tables: Tables, recipient: Seq<u8>)
    requires
        well_formed(tables),
        recipient.len() == HASH_LEN,
    ensures
        well_formed(tables.fetched(recipient)),
        within_capacity(tables) ==> within_capacity(tables.fetched(recipient)),
{
    let after = tables.fetched(recipient);
    assert forall|key: Seq<u8>| #[trigger] after.vault.contains_key(key) implies key.len() == KEY_LEN && 1
        <= key_seq(key) <= after.last_seq(key_recipient(key)) by {
        assert(tables.vault.contains_key(key));
        assert(!tables.mailbox(recipient).contains(key));
        law_mailbox_is_by_hash(tables, recipient, key);
    }
    if within_capacity(tables) {
        lemma_removal_keeps_capacity(tables, after);
    }
}

/// Fetching one mailbox leaves every other, and what is in it, as it was.
pub proof fn law_fetch_leaves_others_alone(tables: Tables, recipient: Seq<u8>, other: Seq<u8>)
    requires
        well_formed(tables),
        recipient.len() == HASH_LEN,
        other.len() == HASH_LEN,
        other != recipient,
    ensures
        tables.fetched(recipient).mailbox(other) == tables.mailbox(other),
        forall|key: Seq<u8>| #[trigger]
            tables.mailbox(other).contains(key) ==> tables.fetched(recipient).vault[key]
                == tables.vault[key],
        tables.fetched(recipient).last_seq(other) == tables.last_seq(other),
        tables.fetched(recipient).tokens == tables.tokens,
{
    let after = tables.fetched(recipient);
    assert forall|key: Seq<u8>| tables.mailbox(other).contains(key) implies #[trigger] after.mailbox(
        other,
    ).contains(key) by {
        law_mailbox_is_by_hash(tables, other, key);
        law_mailbox_is_by_hash(tables, recipient, key);
    }
    assert(after.mailbox(other) =~= tables.mailbox(other));
}

/// Fewer envelopes stay within the limits.
proof fn lemma_removal_keeps_capacity(tables: Tables, after: Tables)
    requires
        within_capacity(tables),
        after.vault.dom().subset_of(tables.vault.dom()),
    ensures
        within_capacity(after),
{
    assert forall|other: Seq<u8>| other.len() == HASH_LEN implies (#[trigger] after.mailbox(
        other,
    )).finite() && after.mailbox(other).len() <= MAX_ENVELOPES_PER_RECIPIENT by {
        assert(tables.mailbox(other).finite());
        assert forall|key: Seq<u8>| after.mailbox(other).contains(key) implies tables.mailbox(
            other,
        ).contains(key) by {
            assert(after.vault.dom().contains(key));
        }
        vstd::set_lib::lemma_len_subset(after.mailbox(other), tables.mailbox(other));
    }
}

/// Pruning keeps the vault well formed and every mailbox within its limit.
pub proof fn law_prune_keeps_well_formed(tables: Tables, keys: Set<Seq<u8>>)
    requires
        well_formed(tables),
    ensures
        well_formed(tables.without(keys)),
        within_capacity(tables) ==> within_capacity(tables.without(keys)),
{
    let after = tables.without(keys);
    assert forall|key: Seq<u8>| #[trigger] after.vault.contains_key(key) implies key.len() == KEY_LEN && 1
        <= key_seq(key) <= after.last_seq(key_recipient(key)) by {
        assert(tables.vault.contains_key(key));
    }
    if within_capacity(tables) {
        lemma_removal_keeps_capacity(tables, after);
    }
}

/// Pruning takes the expired envelopes out of a mailbox and leaves the others in
/// it, unchanged; sequence numbers and tokens are not touched.
pub proof fn law_prune_keeps_the_rest(tables: Tables, keys: Set<Seq<u8>>, recipient: Seq<u8>)
    ensures
        tables.without(keys).mailbox(recipient) == tables.mailbox(recipient).difference(keys),
        forall|key: Seq<u8>| #[trigger]
            tables.without(keys).mailbox(recipient).contains(key) ==> tables.without(keys).vault[key]
                == tables.vault[key],
        tables.without(keys).seqno == tables.seqno,
        tables.without(keys).tokens == tables.tokens,
{
    assert(tables.without(keys).mailbox(recipient) =~= tables.mailbox(recipient).difference(keys));
}

/// `decode` gives one answer for the same bytes.
pub open spec fn decodes_uniquely<D: Fn(&Vec<u8>) -> Option<VaultEntry>>(decode: D) -> bool {
    forall|bytes: Seq<u8>, a: Option<VaultEntry>, b: Option<VaultEntry>| #[trigger]
        decodes(decode, bytes, a) && #[trigger] decodes(decode, bytes, b) ==> a == b
}

/// After a prune no expired envelope is left, so pruning again at the same time
/// deletes nothing.
pub proof fn law_prune_leaves_nothing_expired<D: Fn(&Vec<u8>) -> Option<VaultEntry>>(
    decode: D,
    tables: Tables,
    cutoff: u64,
    keys: Set<Seq<u8>>,
    again: Set<Seq<u8>>,
)
    requires
        decodes_uniquely(decode),
        expired_keys(decode, tables.vault, cutoff, keys),
        expired_keys(decode, tables.without(keys).vault, cutoff, again),
    ensures
        again == Set::<Seq<u8>>::empty(),
        tables.without(keys).without(again) == tables.without(keys),
{
    let after = tables.without(keys);
    assert forall|key: Seq<u8>| !again.contains(key) by {
        if again.contains(key) {
            assert(after.vault.dom().contains(key));
            assert(after.vault.contains_key(key));
            assert(tables.vault.contains_key(key));
            let bytes = tables.vault[key];
            assert(judged(decode, bytes, cutoff, true));
            assert(judged(decode, bytes, cutoff, false));
            let a = choose|entry: Option<VaultEntry>| #[trigger]
                decodes(decode, bytes, entry) && true == (entry matches Some(e) && e.stored_at < cutoff);
            let b = choose|entry: Option<VaultEntry>| #[trigger]
                decodes(decode, bytes, entry) && false == (entry matches Some(e) && e.stored_at < cutoff);
            assert(a == b);
        }
    }
    assert(again =~= Set::<Seq<u8>>::empty());
    assert(after.without(again) =~= after);
}

/// An expired envelope is never delivered after a prune: what a fetch delivers
/// then was stored at or after the cutoff.
pub proof fn law_pruned_envelopes_are_not_delivered<D: Fn(&Vec<u8>) -> Option<VaultEntry>>(
    decode: D,
    tables: Tables,
    cutoff: u64,
    keys: Set<Seq<u8>>,
    recipient: Seq<u8>,
    key: Seq<u8>,
    entry: VaultEntry,
)
    requires
        decodes_uniquely(decode),
        expired_keys(decode, tables.vault, cutoff, keys),
        tables.without(keys).mailbox(recipient).contains(key),
        decodes(decode, tables.without(keys).vault[key], Some(entry)),
    ensures
        entry.stored_at >= cutoff,
{
    law_prune_keeps_the_rest(tables, keys, recipient);
    assert(tables.vault.contains_key(key));
    let bytes = tables.vault[key];
    assert(judged(decode, bytes, cutoff, false));
    let read = choose|read: Option<VaultEntry>| #[trigger]
        decodes(decode, bytes, read) && false == (read matches Some(e) && e.stored_at < cutoff);
    assert(read == Some(entry));
}

/// In a recipient's mailbox, later keys hold envelopes that were stored later or
/// at the same time, as `time` reads it from a stored value.
pub open spec fn in_time_order(tables: Tables, recipient: Seq<u8>, time: spec_fn(Seq<u8>) -> u64) -> bool {
    forall|a: Seq<u8>, b: Seq<u8>| #[trigger]
        tables.mailbox(recipient).contains(a) && #[trigger] tables.mailbox(recipient).contains(b)
            && precedes(a, b) ==> time(tables.vault[a]) <= time(tables.vault[b])
}

/// While the clock does not run backwards, envelopes are delivered in the order
/// in which they were stored, oldest first: storing one that is not older than
/// those that wait keeps the mailbox in time order.
pub proof fn law_store_keeps_time_order(
    tables: Tables,
    recipient: Seq<u8>,
    bytes: Seq<u8>,
    time: spec_fn(Seq<u8>) -> u64,
)
    requires
        well_formed(tables),
        recipient.len() == HASH_LEN,
        tables.last_seq(recipient) < u64::MAX,
        in_time_order(tables, recipient, time),
        forall|key: Seq<u8>| #[trigger]
            tables.mailbox(recipient).contains(key) ==> time(tables.vault[key]) <= time(bytes),
    ensures
        in_time_order(tables.stored(recipient, bytes), recipient, time),
{
    let after = tables.stored(recipient, bytes);
    let next = tables.next_key(recipient);
    law_next_key_is_new(tables, recipient);
    lemma_mailbox_after_store(tables, recipient, bytes, recipient);
    assert forall|a: Seq<u8>, b: Seq<u8>| #[trigger]
        after.mailbox(recipient).contains(a) && #[trigger] after.mailbox(recipient).contains(b) && precedes(
            a,
            b,
        ) implies time(after.vault[a]) <= time(after.vault[b]) by {
        if a == next {
            lemma_precedes_irreflexive(a);
            if b != next {
                assert(tables.mailbox(recipient).contains(b));
                lemma_precedes_transitive(a, b, a);
            }
        } else {
            assert(tables.mailbox(recipient).contains(a));
            if b != next {
                assert(tables.mailbox(recipient).contains(b));
            }
        }
    }
}

/// Deleting envelopes, by a fetch or by a prune, keeps a mailbox in time order.
pub proof fn law_removal_keeps_time_order(
    tables: Tables,
    recipient: Seq<u8>,
    keys: Set<Seq<u8>>,
    fetched: Seq<u8>,
    time: spec_fn(Seq<u8>) -> u64,
)
    requires
        in_time_order(tables, recipient, time),
    ensures
        in_time_order(tables.without(keys), recipient, time),
        in_time_order(tables.fetched(fetched), recipient, time),
{
    let pruned = tables.without(keys);
    let emptied = tables.fetched(fetched);
    assert forall|a: Seq<u8>, b: Seq<u8>| #[trigger]
        pruned.mailbox(recipient).contains(a) && #[trigger] pruned.mailbox(recipient).contains(b)
            && precedes(a, b) implies time(pruned.vault[a]) <= time(pruned.vault[b]) by {
        assert(tables.mailbox(recipient).contains(a) && tables.mailbox(recipient).contains(b));
    }
    assert forall|a: Seq<u8>, b: Seq<u8>| #[trigger]
        emptied.mailbox(recipient).contains(a) && #[trigger] emptied.mailbox(recipient).contains(b)
            && precedes(a, b) implies time(emptied.vault[a]) <= time(emptied.vault[b]) by {
        assert(tables.mailbox(recipient).contains(a) && tables.mailbox(recipient).contains(b));
    }
}

/// A token that was registered is what the next take finds; taking it removes it,
/// so it serves once. No envelope is touched.
pub proof fn law_token_serves_once<
    E: Fn(&BlindedToken) -> Option<Vec<u8>>,
    D: Fn(&Vec<u8>) -> Option<BlindedToken>,
>(
    encode: E,
    decode: D,
    tables: Tables,
    recipient: Seq<u8>,
    token: BlindedToken,
    bytes: Seq<u8>,
    taken: BlindedToken,
)
    requires
        forall|value: BlindedToken, b: Seq<u8>, read: Option<BlindedToken>| #[trigger]
            encodes(encode, value, b) && #[trigger] decodes(decode, b, read) ==> {
                &&& read matches Some(t)
                &&& t.blind_key@ == value.blind_key@
                &&& t.encrypted_token@ == value.encrypted_token@
                &&& t.expiry == value.expiry
            },
        encodes(encode, token, bytes),
        decodes(decode, tables.registered(recipient, bytes).tokens[recipient], Some(taken)),
    ensures
        tables.registered(recipient, bytes).tokens.contains_key(recipient),
        taken.blind_key@ == token.blind_key@,
        taken.encrypted_token@ == token.encrypted_token@,
        taken.expiry == token.expiry,
        !tables.registered(recipient, bytes).token_taken(recipient).tokens.contains_key(recipient),
        tables.registered(recipient, bytes).token_taken(recipient).vault == tables.vault,
        tables.registered(recipient, bytes).token_taken(recipient).seqno == tables.seqno,
{
    assert(encodes(encode, token, bytes) && decodes(decode, bytes, Some(taken)));
}

/// Token operations keep the vault well formed and every mailbox within its
/// limit.
pub proof fn law_tokens_leave_the_vault_alone(tables: Tables, recipient: Seq<u8>, bytes: Seq<u8>)
    requires
        well_formed(tables),
        within_capacity(tables),
    ensures
        well_formed(tables.registered(recipient, bytes)),
        well_formed(tables.token_taken(recipient)),
        within_capacity(tables.registered(recipient, bytes)),
        within_capacity(tables.token_taken(recipient)),
{
    assert forall|key: Seq<u8>| #[trigger] tables.registered(recipient, bytes).vault.contains_key(
        key,
    ) implies tables.vault.contains_key(key) by {}
    lemma_removal_keeps_capacity(tables, tables.registered(recipient, bytes));
    lemma_removal_keeps_capacity(tables, tables.token_taken(recipient));
}

/// Token operations for one recipient leave the tokens of others as they were.
pub proof fn law_tokens_are_separate(tables: Tables, recipient: Seq<u8>, bytes: Seq<u8>, other: Seq<u8>)
    requires
        other != recipient,
    ensures
        tables.registered(recipient, bytes).tokens.contains_key(other) == tables.tokens.contains_key(other),
        tables.registered(recipient, bytes).tokens[other] == tables.tokens[other],
        tables.token_taken(recipient).tokens.contains_key(other) == tables.tokens.contains_key(other),
        tables.tokens.contains_key(other) ==> tables.token_taken(recipient).tokens[other] == tables.tokens[other],
{
}

/// An operation on the vault in a transaction of its own.
pub enum VaultCall {
    Store { recipient: Seq<u8>, bytes: Seq<u8> },
    Fetch { recipient: Seq<u8> },
    Register { recipient: Seq<u8>, bytes: Seq<u8> },
    Take { recipient: Seq<u8> },
    Prune { keys: Set<Seq<u8>> },
    /// Any operation that failed or was refused, after which its transaction left
    /// the tables as `given_up`.
    GivenUp { given_up: Tables },
}

/// Whether an operation can succeed: nothing is stored in a full mailbox, nor
/// beyond the last sequence number, and recipients are named by their hashes.
pub open spec fn can_succeed(tables: Tables, call: VaultCall) -> bool {
    match call {
        VaultCall::Store { recipient, .. } => {
            &&& recipient.len() == HASH_LEN
            &&& !tables.is_full(recipient)
            &&& tables.last_seq(recipient) < u64::MAX
        },
        VaultCall::Fetch { recipient } => recipient.len() == HASH_LEN,
        _ => true,
    }
}

/// What the database holds after an operation.
pub open spec fn after_call(tables: Tables, call: VaultCall) -> Tables {
    match call {
        VaultCall::Store { recipient, bytes } => tables.stored(recipient, bytes),
        VaultCall::Fetch { recipient } => tables.fetched(recipient),
        VaultCall::Register { recipient, bytes } => tables.registered(recipient, bytes),
        VaultCall::Take { recipient } => tables.token_taken(recipient),
        VaultCall::Prune { keys } => tables.without(keys),
        VaultCall::GivenUp { given_up } => settled(tables, given_up, false),
    }
}

/// What the database holds after a run of operations.
pub open spec fn after_calls(tables: Tables, calls: Seq<VaultCall>) -> Tables
    decreases calls.len(),
{
    if calls.len() == 0 {
        tables
    } else {
        after_call(after_calls(tables, calls.drop_last()), calls.last())
    }
}

/// Whether every operation of a run can succeed when its turn comes.
pub open spec fn all_can_succeed(tables: Tables, calls: Seq<VaultCall>) -> bool
    decreases calls.len(),
{
    calls.len() > 0 ==> {
        &&& all_can_succeed(tables, calls.drop_last())
        &&& can_succeed(after_calls(tables, calls.drop_last()), calls.last())
    }
}

/// However the vault is used, starting empty, and whatever fails in between, it
/// stays well formed and no mailbox ever holds more than 500 envelopes.
pub proof fn law_vault_stays_well_formed(tables: Tables, calls: Seq<VaultCall>)
    requires
        tables.vault == Map::<Seq<u8>, Seq<u8>>::empty(),
        all_can_succeed(tables, calls),
    ensures
        well_formed(after_calls(tables, calls)),
        within_capacity(after_calls(tables, calls)),
    decreases calls.len(),
{
    if calls.len() == 0 {
        law_empty_vault_is_well_formed(tables);
    } else {
        law_vault_stays_well_formed(tables, calls.drop_last());
        let before = after_calls(tables, calls.drop_last());
        match calls.last() {
            VaultCall::Store { recipient, bytes } => {
                law_store_keeps_well_formed(before, recipient, bytes);
                law_store_keeps_capacity(before, recipient, bytes);
            },
            VaultCall::Fetch { recipient } => law_fetch_keeps_well_formed(before, recipient),
            VaultCall::Register { recipient, bytes } => {
                law_tokens_leave_the_vault_alone(before, recipient, bytes);
            },
            VaultCall::Take { recipient } => {
                law_tokens_leave_the_vault_alone(before, recipient, Seq::empty());
            },
            VaultCall::Prune { keys } => law_prune_keeps_well_formed(before, keys),
            VaultCall::GivenUp { .. } => {},
        }
    }
}

/// An operation that fails, or a request that is refused, leaves the database as it
/// was, whatever it had changed before: what it writes is committed together or not
/// at all.
pub proof fn law_failure_changes_nothing(
    before: Tables,
    after: Tables,
    outcome: Result<GlyphResponse, VaultError>,
)
    requires
        outcome matches Ok(response) ==> response is Error,
    ensures
        settled(before, after, answers(outcome)) == before,
{
}

/// Taking a token or pruning, where it fails, leaves the database as it was.
pub proof fn law_failed_work_changes_nothing<T>(before: Tables, after: Tables, outcome: Result<T, VaultError>)
    requires
        outcome is Err,
    ensures
        settled(before, after, outcome is Ok) == before,
{
}

/// An envelope that waits: its key and its stored form.
pub struct Waiting {
    pub key: Seq<u8>,
    pub bytes: Seq<u8>,
}

/// The envelopes whose keys are not among `keys`.
pub open spec fn not_among(envelopes: Seq<Waiting>, keys: Set<Seq<u8>>) -> Seq<Waiting> {
    envelopes.filter(|w: Waiting| !keys.contains(w.key))
}

/// What a run of operations leaves waiting for a recipient, in the order of
/// storing: what was stored for it since its last fetch and was not pruned.
pub open spec fn waiting(tables: Tables, calls: Seq<VaultCall>, recipient: Seq<u8>) -> Seq<Waiting>
    decreases calls.len(),
{
    if calls.len() == 0 {
        Seq::empty()
    } else {
        let before = waiting(tables, calls.drop_last(), recipient);
        match calls.last() {
            VaultCall::Store { recipient: r, bytes } => if r == recipient {
                before.push(
                    Waiting { key: after_calls(tables, calls.drop_last()).next_key(recipient), bytes },
                )
            } else {
                before
            },
            VaultCall::Fetch { recipient: r } => if r == recipient {
                Seq::empty()
            } else {
                before
            },
            VaultCall::Prune { keys } => not_among(before, keys),
            _ => before,
        }
    }
}

/// The keys of envelopes that wait.
pub open spec fn waiting_keys(envelopes: Seq<Waiting>) -> Seq<Seq<u8>> {
    envelopes.map_values(|w: Waiting| w.key)
}

/// Leaving out some keys of a listing gives a listing of the rest.
proof fn lemma_listing_filter(envelopes: Seq<Waiting>, members: Set<Seq<u8>>, left_out: Set<Seq<u8>>)
    requires
        lists(waiting_keys(envelopes), members),
    ensures
        lists(
            waiting_keys(not_among(envelopes, left_out)),
            members.difference(left_out),
        ),
        forall|w: Waiting| #[trigger]
            not_among(envelopes, left_out).contains(w) ==> envelopes.contains(w)
                && !left_out.contains(w.key),
    decreases envelopes.len(),
{
    let keep = |w: Waiting| !left_out.contains(w.key);
    let keys = waiting_keys(envelopes);
    reveal(Seq::filter);
    if envelopes.len() == 0 {
        assert(waiting_keys(not_among(envelopes, left_out)) =~= keys);
        assert forall|k: Seq<u8>| keys.contains(k) <==> #[trigger] members.difference(left_out).contains(k) by {
            assert(keys.contains(k) <==> members.contains(k));
        }
    } else {
        let shorter = envelopes.drop_last();
        let last = envelopes.last();
        let rest = members.remove(last.key);
        assert(waiting_keys(shorter) =~= keys.drop_last());
        lemma_listing_without_last(keys, members);
        lemma_listing_len(keys, members);
        lemma_listing_filter(shorter, rest, left_out);
        assert(keys.contains(keys.last()));
        assert(members.contains(last.key));
        if keep(last) {
            assert forall|k: Seq<u8>| #[trigger] rest.difference(left_out).contains(k) implies precedes(
                k,
                last.key,
            ) by {
                assert(members.contains(k));
                let i = choose|i: int| 0 <= i < keys.len() && keys[i] == k;
                assert(precedes(keys[i], keys[keys.len() - 1]));
            }
            lemma_listing_push(
                waiting_keys(not_among(shorter, left_out)),
                rest.difference(left_out),
                last.key,
            );
            assert(not_among(envelopes, left_out) == not_among(shorter, left_out).push(last));
            assert(waiting_keys(not_among(envelopes, left_out)) =~= waiting_keys(not_among(shorter, left_out)).push(last.key));
            assert(rest.difference(left_out).insert(last.key) =~= members.difference(left_out));
        } else {
            assert(rest.difference(left_out) =~= members.difference(left_out));
        }
        assert forall|w: Waiting| #[trigger] not_among(envelopes, left_out).contains(w) implies envelopes.contains(w)
            && !left_out.contains(w.key) by {
            if not_among(shorter, left_out).contains(w) {
                let i = choose|i: int| 0 <= i < shorter.len() && shorter[i] == w;
                assert(envelopes[i] == w);
            } else {
                let i = choose|i: int| 0 <= i < not_among(envelopes, left_out).len() && not_among(envelopes, left_out)[i] == w;
                if i < not_among(shorter, left_out).len() {
                    assert(not_among(shorter, left_out)[i] == w);
                }
                assert(w == last);
                assert(envelopes[envelopes.len() - 1] == w);
            }
        }
    }
}

/// What waits for a recipient is what its mailbox holds, in the order of the keys.
proof fn lemma_waiting(tables: Tables, calls: Seq<VaultCall>, recipient: Seq<u8>)
    requires
        tables.vault == Map::<Seq<u8>, Seq<u8>>::empty(),
        all_can_succeed(tables, calls),
        recipient.len() == HASH_LEN,
    ensures
        lists(
            waiting_keys(waiting(tables, calls, recipient)),
            after_calls(tables, calls).mailbox(recipient),
        ),
        forall|i: int|
            0 <= i < waiting(tables, calls, recipient).len() ==> after_calls(tables, calls).vault[(
            #[trigger] waiting(tables, calls, recipient)[i]).key] == waiting(tables, calls, recipient)[i].bytes,
    decreases calls.len(),
{
    let now = waiting(tables, calls, recipient);
    let after = after_calls(tables, calls);
    if calls.len() == 0 {
        assert(waiting_keys(now) =~= Seq::<Seq<u8>>::empty());
    } else {
        let state = after_calls(tables, calls.drop_last());
        let before = waiting(tables, calls.drop_last(), recipient);
        lemma_waiting(tables, calls.drop_last(), recipient);
        law_vault_stays_well_formed(tables, calls.drop_last());
        lemma_members_listed(before, state.mailbox(recipient));
        match calls.last() {
            VaultCall::Store { recipient: r, bytes } => if r == recipient {
                law_store_appends(state, recipient, bytes, waiting_keys(before));
                assert(waiting_keys(now) =~= waiting_keys(before).push(state.next_key(recipient)));
                assert forall|i: int| 0 <= i < now.len() implies after.vault[(#[trigger] now[i]).key]
                    == now[i].bytes by {
                    if i < before.len() {
                        assert(now[i] == before[i]);
                        assert(waiting_keys(before)[i] == before[i].key);
                    }
                }
            } else {
                law_store_leaves_others_alone(state, r, bytes, recipient);
                assert forall|i: int| 0 <= i < now.len() implies after.vault[(#[trigger] now[i]).key]
                    == now[i].bytes by {
                    assert(state.mailbox(recipient).contains(before[i].key));
                }
            },
            VaultCall::Fetch { recipient: r } => if r == recipient {
                law_fetch_empties_the_mailbox(state, recipient);
                assert(waiting_keys(now) =~= Seq::<Seq<u8>>::empty());
            } else {
                law_fetch_leaves_others_alone(state, r, recipient);
                assert forall|i: int| 0 <= i < now.len() implies after.vault[(#[trigger] now[i]).key]
                    == now[i].bytes by {
                    assert(state.mailbox(recipient).contains(before[i].key));
                }
            },
            VaultCall::Prune { keys } => {
                law_prune_keeps_the_rest(state, keys, recipient);
                lemma_listing_filter(before, state.mailbox(recipient), keys);
                assert forall|i: int| 0 <= i < now.len() implies after.vault[(#[trigger] now[i]).key]
                    == now[i].bytes by {
                    assert(now.contains(now[i]));
                    let j = choose|j: int| 0 <= j < before.len() && before[j] == now[i];
                    assert(state.mailbox(recipient).contains(before[j].key));
                }
            },
            _ => {
                assert(after.mailbox(recipient) =~= state.mailbox(recipient));
            },
        }
    }
}

proof fn lemma_members_listed(envelopes: Seq<Waiting>, members: Set<Seq<u8>>)
    requires
        lists(waiting_keys(envelopes), members),
    ensures
        forall|i: int| 0 <= i < envelopes.len() ==> members.contains((#[trigger] envelopes[i]).key),
{
    let keys = waiting_keys(envelopes);
    assert forall|i: int| 0 <= i < envelopes.len() implies members.contains((#[trigger] envelopes[i]).key) by {
        assert(keys[i] == envelopes[i].key);
        assert(keys.contains(keys[i]));
    }
}

/// However the vault was used, starting empty, a fetch delivers exactly what was
/// stored for the recipient since its last fetch and was not pruned: each envelope
/// once, as it was, first stored first. What was done for others, what failed, and
/// what happened to tokens makes no difference.
pub proof fn law_delivery_is_in_order<
    E: Fn(&VaultEntry) -> Option<Vec<u8>>,
    D: Fn(&Vec<u8>) -> Option<VaultEntry>,
>(
    encode: E,
    decode: D,
    tables: Tables,
    calls: Seq<VaultCall>,
    recipient: Seq<u8>,
    entries: Seq<VaultEntry>,
    payloads: Seq<Vec<u8>>,
)
    requires
        codec_agrees(encode, decode),
        tables.vault == Map::<Seq<u8>, Seq<u8>>::empty(),
        all_can_succeed(tables, calls),
        recipient.len() == HASH_LEN,
        entries.len() == waiting(tables, calls, recipient).len(),
        forall|i: int|
            0 <= i < entries.len() ==> encodes(
                encode,
                #[trigger] entries[i],
                waiting(tables, calls, recipient)[i].bytes,
            ),
        delivery(decode, after_calls(tables, calls), recipient, payloads),
    ensures
        payloads.len() == entries.len(),
        forall|i: int| 0 <= i < entries.len() ==> (#[trigger] payloads[i])@ == entries[i].payload@,
{
    let after = after_calls(tables, calls);
    let envelopes = waiting(tables, calls, recipient);
    let keys = waiting_keys(envelopes);
    lemma_waiting(tables, calls, recipient);
    let delivered = choose|delivered: Seq<Seq<u8>>|
        {
            &&& #[trigger] lists(delivered, after.mailbox(recipient))
            &&& payloads.len() == delivered.len()
            &&& forall|i: int|
                0 <= i < delivered.len() ==> delivers(decode, after.vault[#[trigger] delivered[i]], payloads[i]@)
        };
    law_listing_is_unique(delivered, keys, after.mailbox(recipient));
    assert forall|i: int| 0 <= i < entries.len() implies (#[trigger] payloads[i])@ == entries[i].payload@ by {
        let bytes = envelopes[i].bytes;
        assert(delivered[i] == envelopes[i].key);
        assert(after.vault[delivered[i]] == bytes);
        assert(delivers(decode, bytes, payloads[i]@));
        let read = choose|e: VaultEntry| #[trigger]
            decodes(decode, bytes, Some(e)) && e.payload@ == payloads[i]@;
        assert(encodes(encode, entries[i], bytes) && decodes(decode, bytes, Some(read)));
    }
}

// ---------------------------------------------------------------------------
// What each operation does, by itself
// ---------------------------------------------------------------------------

/// The vault's limits, the names of its tables and the codes of its answers.
pub proof fn law_numbers()
    ensures
        MAX_ENVELOPE_SIZE == 64 * 1024,
        MIN_PAYLOAD_SIZE == 32,
        MAX_ENVELOPES_PER_RECIPIENT == 500,
        VAULT_CAPACITY_LIMIT == 50 * 1024 * 1024 * 1024,
        TTL_SECONDS == 30 * 24 * 3600,
        HASH_LEN == 32 && KEY_LEN == 40,
        VAULT@ == "vault_v1"@ && TOKENS@ == "tokens_v1"@ && SEQNO@ == "seqno_v1"@,
        MALFORMED == 400 && UNAUTHENTICATED == 403 && TOO_LARGE == 413 && RATE_LIMITED == 429,
        INTERNAL_ERROR == 500 && VAULT_AT_CAPACITY == 503 && MAILBOX_FULL == 507,
{
}

/// An envelope is refused at once exactly if it has more than 64 KB, then with 413,
/// or fewer than 32 bytes, then with 400, or if it has neither and the database has
/// 50 GB or more, then with 503. Any other is looked at.
pub proof fn law_refusals(len: nat, vault_bytes: u64)
    ensures
        len > 65536 <==> refusal(len, vault_bytes) == Some(413u16),
        len < 32 <==> refusal(len, vault_bytes) == Some(400u16),
        32 <= len <= 65536 && vault_bytes >= 53687091200 <==> refusal(len, vault_bytes) == Some(503u16),
        32 <= len <= 65536 && vault_bytes < 53687091200 <==> refusal(len, vault_bytes) is None,
{
}

/// Between the limits the length of an envelope makes no difference, and below the
/// capacity neither does the size of the database.
pub proof fn law_refusals_do_not_pick_lengths(a: nat, b: nat, x: u64, y: u64)
    requires
        32 <= a <= 65536,
        32 <= b <= 65536,
        x < 53687091200 <==> y < 53687091200,
    ensures
        refusal(a, x) == refusal(b, y),
{
}

/// At every time an envelope is expired exactly if more than 30 days have passed
/// since it was stored.
pub proof fn law_expiry_is_after_30_days(stored_at: u64, now: u64)
    ensures
        stored_at < cutoff_at(now) <==> stored_at + 30 * 86400 < now,
{
}

/// Expiry depends on the age of an envelope alone: at another time, an envelope as
/// old is judged alike.
pub proof fn law_expiry_depends_on_age_alone(stored_at: u64, now: u64, later_stored_at: u64, later: u64)
    requires
        now - stored_at == later - later_stored_at,
    ensures
        stored_at < cutoff_at(now) <==> later_stored_at < cutoff_at(later),
{
}

/// A complete prune at `now` deletes an envelope exactly if it was stored more than
/// 30 days before, and nothing that is no envelope.
pub proof fn law_prune_deletes_what_is_over_30_days_old<D: Fn(&Vec<u8>) -> Option<VaultEntry>>(
    decode: D,
    tables: Tables,
    now: u64,
    keys: Set<Seq<u8>>,
    key: Seq<u8>,
    read: Option<VaultEntry>,
)
    requires
        decodes_uniquely(decode),
        expired_keys(decode, tables.vault, cutoff_at(now), keys),
        tables.vault.contains_key(key),
        decodes(decode, tables.vault[key], read),
    ensures
        tables.without(keys).vault.contains_key(key) <==> match read {
            Some(entry) => entry.stored_at + 30 * 86400 >= now,
            None => true,
        },
        stored_over_30_days_before(decode, tables.vault[key], now as int) <==> keys.contains(key),
        forall|k: Seq<u8>| #[trigger] keys.contains(k) ==> tables.vault.contains_key(k),
{
    let bytes = tables.vault[key];
    let expired = keys.contains(key);
    assert(judged(decode, bytes, cutoff_at(now), expired));
    let judged_by = choose|entry: Option<VaultEntry>| #[trigger]
        decodes(decode, bytes, entry) && expired == (entry matches Some(e) && e.stored_at < cutoff_at(now));
    assert(judged_by == read);
    assert forall|k: Seq<u8>| #[trigger] keys.contains(k) implies tables.vault.contains_key(k) by {
        assert(tables.vault.dom().contains(k));
    }
    if stored_over_30_days_before(decode, bytes, now as int) {
        let entry = choose|entry: VaultEntry| #[trigger]
            decodes(decode, bytes, Some(entry)) && entry.stored_at + 30 * 86400 < now;
        assert(Some(entry) == read);
    }
    if expired {
        assert(decodes(decode, bytes, Some(read->0)));
    }
}

/// What a recipient's last sequence number, mailbox and limit are: the number in the
/// table, or zero; of the envelopes with a 40-byte key, those whose key begins with
/// the recipient's hash; 500.
pub proof fn law_mailbox(tables: Tables, recipient: Seq<u8>, key: Seq<u8>)
    requires
        recipient.len() == 32,
        key.len() == 40,
    ensures
        tables.mailbox(recipient).contains(key) <==> tables.vault.contains_key(key) && key.take(32) == recipient,
        tables.seqno.contains_key(recipient) ==> tables.last_seq(recipient) == tables.seqno[recipient],
        !tables.seqno.contains_key(recipient) ==> tables.last_seq(recipient) == 0,
        tables.is_full(recipient) <==> tables.mailbox(recipient).len() >= 500,
        tables.mailbox(recipient).subset_of(tables.vault.dom()),
{
    law_scan_covers_the_prefix(recipient, key);
}

/// A store adds one row, under the recipient's hash and the next sequence number,
/// with exactly the bytes given, and moves the recipient's number on by one. It
/// changes nothing else.
pub proof fn law_store_effect(tables: Tables, recipient: Seq<u8>, bytes: Seq<u8>, key: Seq<u8>)
    requires
        recipient.len() == 32,
        tables.last_seq(recipient) < u64::MAX,
        key.len() == 40,
        key.take(32) == recipient,
        spelled(key.skip(32)) == tables.last_seq(recipient) + 1,
    ensures
        tables.next_key(recipient) == key,
        tables.stored(recipient, bytes).vault == tables.vault.insert(key, bytes),
        tables.stored(recipient, bytes).seqno.contains_key(recipient),
        tables.stored(recipient, bytes).seqno[recipient] == tables.last_seq(recipient) + 1,
        tables.stored(recipient, bytes).seqno.remove(recipient) == tables.seqno.remove(recipient),
        tables.stored(recipient, bytes).tokens == tables.tokens,
{
    law_key_parts(key);
    lemma_key_parts(key);
    assert(tables.stored(recipient, bytes).seqno.remove(recipient) =~= tables.seqno.remove(recipient));
}

/// A fetch deletes, of the rows with a 40-byte key, exactly those whose key begins
/// with the recipient's hash, and keeps the others as they are. Where it deletes
/// any, the recipient's number goes to zero; it changes nothing else.
pub proof fn law_fetch_effect(tables: Tables, recipient: Seq<u8>, key: Seq<u8>, other: Seq<u8>)
    requires
        recipient.len() == 32,
        key.len() == 40,
        other != recipient,
    ensures
        tables.fetched(recipient).vault.contains_key(key) <==> tables.vault.contains_key(key) && key.take(32)
            != recipient,
        tables.fetched(recipient).vault.contains_key(key) ==> tables.fetched(recipient).vault[key]
            == tables.vault[key],
        tables.fetched(recipient).vault.dom().subset_of(tables.vault.dom()),
        tables.vault.contains_key(key) && key.take(32) == recipient ==> tables.fetched(
            recipient,
        ).seqno.contains_key(recipient) && tables.fetched(recipient).seqno[recipient] == 0,
        tables.mailbox(recipient) == Set::<Seq<u8>>::empty() ==> tables.fetched(recipient) == tables,
        tables.fetched(recipient).seqno.contains_key(other) == tables.seqno.contains_key(other),
        tables.seqno.contains_key(other) ==> tables.fetched(recipient).seqno[other] == tables.seqno[other],
        tables.fetched(recipient).tokens == tables.tokens,
{
    law_scan_covers_the_prefix(recipient, key);
    if tables.mailbox(recipient) == Set::<Seq<u8>>::empty() {
        assert(tables.vault.remove_keys(tables.mailbox(recipient)) =~= tables.vault);
    } else {
        assert(tables.fetched(recipient).seqno == tables.seqno.insert(recipient, 0));
    }
    if tables.vault.contains_key(key) && key.take(32) == recipient {
        assert(tables.mailbox(recipient).contains(key));
    }
}

/// Registering puts the token's bytes in the recipient's place, taking it out leaves
/// the place empty, and pruning takes out the rows named. None of them changes
/// anything else.
pub proof fn law_other_effects(
    tables: Tables,
    recipient: Seq<u8>,
    bytes: Seq<u8>,
    keys: Set<Seq<u8>>,
    key: Seq<u8>,
)
    ensures
        tables.registered(recipient, bytes).tokens.contains_key(recipient),
        tables.registered(recipient, bytes).tokens[recipient] == bytes,
        tables.registered(recipient, bytes).tokens.remove(recipient) == tables.tokens.remove(recipient),
        tables.registered(recipient, bytes).vault == tables.vault,
        tables.registered(recipient, bytes).seqno == tables.seqno,
        tables.token_taken(recipient).tokens == tables.tokens.remove(recipient),
        tables.token_taken(recipient).vault == tables.vault,
        tables.token_taken(recipient).seqno == tables.seqno,
        tables.without(keys).vault.contains_key(key) <==> tables.vault.contains_key(key) && !keys.contains(key),
        tables.without(keys).vault.contains_key(key) ==> tables.without(keys).vault[key] == tables.vault[key],
        tables.without(keys).tokens == tables.tokens,
        tables.without(keys).seqno == tables.seqno,
{
    assert(tables.registered(recipient, bytes).tokens.remove(recipient) =~= tables.tokens.remove(recipient));
}

/// Committing keeps what a transaction did, giving it up keeps what was. What is
/// committed is what succeeded and was not refused.
pub proof fn law_commit(before: Tables, after: Tables, response: GlyphResponse, error: VaultError)
    ensures
        settled(before, after, true) == after,
        settled(before, after, false) == before,
        answers(Ok(response)) <==> (response is StoreAck || response is FetchResult || response is RegisterTokenAck),
        !answers(Err(error)),
{
}

/// What is encoded and decoded is what the codec itself gives for the value and the
/// bytes in hand.
pub proof fn law_codec_is_asked<T, E: Fn(&T) -> Option<Vec<u8>>, D: Fn(&Vec<u8>) -> Option<T>>(
    encode: E,
    decode: D,
    value: T,
    bytes: Vec<u8>,
    read: Option<T>,
)
    ensures
        call_ensures(encode, (&value,), Some(bytes)) ==> encodes(encode, value, bytes@),
        call_ensures(decode, (&bytes,), read) ==> decodes(decode, bytes@, read),
        fails_to_encode(encode, value) <==> call_ensures(encode, (&value,), None),
        forall|written: Seq<u8>| #[trigger]
            encodes(encode, value, written) ==> exists|out: Vec<u8>|
                out@ == written && #[trigger] call_ensures(encode, (&value,), Some(out)),
        forall|stored: Seq<u8>| #[trigger]
            decodes(decode, stored, read) ==> exists|input: Vec<u8>|
                input@ == stored && #[trigger] call_ensures(decode, (&input,), read),
{
}

/// A fetch delivers one content for each envelope in the mailbox, in the order of
/// the keys, and each is the content of its envelope as the codec reads it.
pub proof fn law_delivery_is_complete<D: Fn(&Vec<u8>) -> Option<VaultEntry>>(
    decode: D,
    tables: Tables,
    recipient: Seq<u8>,
    keys: Seq<Seq<u8>>,
    payloads: Seq<Vec<u8>>,
    i: int,
)
    requires
        delivery(decode, tables, recipient, payloads),
        lists(keys, tables.mailbox(recipient)),
        0 <= i < keys.len(),
    ensures
        payloads.len() == keys.len(),
        payloads.len() == tables.mailbox(recipient).len(),
        exists|entry: VaultEntry| #[trigger]
            decodes(decode, tables.vault[keys[i]], Some(entry)) && entry.payload@ == payloads[i]@,
{
    let delivered = choose|delivered: Seq<Seq<u8>>|
        {
            &&& #[trigger] lists(delivered, tables.mailbox(recipient))
            &&& payloads.len() == delivered.len()
            &&& forall|j: int|
                0 <= j < delivered.len() ==> delivers(decode, tables.vault[#[trigger] delivered[j]], payloads[j]@)
        };
    law_listing_is_unique(delivered, keys, tables.mailbox(recipient));
    lemma_listing_len(keys, tables.mailbox(recipient));
    assert(delivers(decode, tables.vault[delivered[i]], payloads[i]@));
}

/// An envelope that is stored under the SHA-256 digest of a public key, of any
/// length, is delivered, behind those that were waiting, by the next fetch with that
/// public key, and is then gone.
pub proof fn law_fetch_finds_what_was_stored_under_the_digest<
    E: Fn(&VaultEntry) -> Option<Vec<u8>>,
    D: Fn(&Vec<u8>) -> Option<VaultEntry>,
>(
    encode: E,
    decode: D,
    tables: Tables,
    pubkey: Seq<u8>,
    entry: VaultEntry,
    bytes: Seq<u8>,
    waiting: Seq<Seq<u8>>,
    payloads: Seq<Vec<u8>>,
)
    requires
        codec_agrees(encode, decode),
        well_formed(tables),
        sha256_digest(pubkey).len() == 32,
        tables.last_seq(sha256_digest(pubkey)) < u64::MAX,
        encodes(encode, entry, bytes),
        lists(waiting, tables.mailbox(sha256_digest(pubkey))),
        delivery(decode, tables.stored(sha256_digest(pubkey), bytes), hash_of_pubkey(pubkey), payloads),
    ensures
        payloads.len() == waiting.len() + 1,
        payloads.last()@ == entry.payload@,
        tables.stored(sha256_digest(pubkey), bytes).fetched(hash_of_pubkey(pubkey)).mailbox(
            sha256_digest(pubkey),
        ) == Set::<Seq<u8>>::empty(),
{
    let recipient = sha256_digest(pubkey);
    law_mailbox_is_the_digest_of_the_whole_key(pubkey);
    law_fetch_returns_what_was_stored(encode, decode, tables, recipient, entry, bytes, waiting, payloads);
    law_fetch_empties_the_mailbox(tables.stored(recipient, bytes), recipient);
}

} // verus!
