//! The blind vault: envelopes and push tokens for peers that are offline.

use vstd::prelude::*;
use crate::crypto::{hash_of_pubkey, recipient_hash, sha256_digest};
use crate::keys::{
    is_key_of, lemma_listing_len, lemma_precedes_irreflexive, lemma_precedes_total, lists,
    make_vault_key, scan_bounds, vault_key,
};
use crate::network::{GlyphResponse, MAILBOX_FULL, MALFORMED, TOO_LARGE, VAULT_AT_CAPACITY};
use crate::tables::{
    byte_rows, byte_rows_opened, byte_table_insert, byte_table_iter, byte_table_name,
    byte_table_range, byte_table_range_keys, byte_table_remove, counter_rows, counter_rows_opened,
    counter_table_get, counter_table_insert, counter_table_name, is_beginning, keys_within,
    open_byte_table, open_counter_table, read_count, row_keys, rows_of, scanned_keys,
    scanned_row_keys, scanned_rows_of, scans, ByteTable, CounterTable, Row,
};

verus! {

/// Name of the table of envelopes.
pub const VAULT: &'static str = "vault_v1";

/// Name of the table of push tokens.
pub const TOKENS: &'static str = "tokens_v1";

/// Name of the table of sequence counters.
pub const SEQNO: &'static str = "seqno_v1";

/// Largest envelope that is accepted, in bytes.
pub const MAX_ENVELOPE_SIZE: usize = 65536;

/// Smallest envelope that is accepted, in bytes. Anything shorter is a probe.
pub const MIN_PAYLOAD_SIZE: usize = 32;

/// How many envelopes may wait for one recipient.
pub const MAX_ENVELOPES_PER_RECIPIENT: usize = 500;

/// Size of the database from which on no envelope is accepted, in bytes.
pub const VAULT_CAPACITY_LIMIT: u64 = 53687091200;

/// How long an envelope is kept, in seconds: 30 days.
pub const TTL_SECONDS: u64 = 2592000;

/// An envelope as it is stored. It says nothing of who sent it.
#[derive(Debug, Clone, PartialEq, Eq)]
pub struct VaultEntry {
    /// When it was stored, in Unix seconds.
    pub stored_at: u64,
    /// The encrypted content.
    pub payload: Vec<u8>,
}

/// A push token as it is stored.
#[derive(Debug, Clone, PartialEq, Eq)]
pub struct BlindedToken {
    /// SHA-256 of the raw token followed by the server secret.
    pub blind_key: [u8; 32],
    /// The token, encrypted with the server secret.
    pub encrypted_token: Vec<u8>,
    /// When the token expires, in Unix seconds.
    pub expiry: u64,
}

/// A recipient to be woken.
#[derive(Debug, Clone, PartialEq, Eq)]
pub struct WebhookTask {
    pub recipient_hash: [u8; 32],
}

/// What became of an envelope that was to be stored.
#[derive(Debug)]
pub struct StoreOutcome {
    /// The response, or why there is none.
    pub result: Result<GlyphResponse, VaultError>,
    /// The failures to read an envelope of the mailbox. Each was counted as an
    /// envelope.
    pub unread: Vec<redb::StorageError>,
}

/// What a prune did.
#[derive(Debug)]
pub struct Pruned {
    /// How many envelopes were deleted.
    pub count: u64,
    /// The failures to read an envelope. Each was passed over.
    pub unread: Vec<redb::StorageError>,
}

/// Why an operation on the vault failed. The transaction is then given up.
#[derive(Debug)]
pub enum VaultError {
    /// A table could not be opened.
    Table(redb::TableError),
    /// Something could not be read. An operation that reports this has changed
    /// nothing.
    Read(redb::StorageError),
    /// A change could not be made. Part of what belongs together may have been
    /// changed.
    Write(redb::StorageError),
    /// A value could not be encoded.
    Encode,
    /// A stored value could not be decoded.
    Decode,
    /// The recipient's sequence numbers are used up.
    SequenceExhausted,
}

// ---------------------------------------------------------------------------
// Model
// ---------------------------------------------------------------------------

/// The rows of the three tables.
#[verifier::ext_equal]
pub struct Tables {
    /// Envelopes, by recipient hash and sequence number.
    pub vault: Map<Seq<u8>, Seq<u8>>,
    /// Push tokens, by recipient hash.
    pub tokens: Map<Seq<u8>, Seq<u8>>,
    /// The last sequence number used, by recipient hash.
    pub seqno: Map<Seq<u8>, u64>,
}

impl Tables {
    /// The keys of the envelopes that wait for `recipient`.
    pub open spec fn mailbox(self, recipient: Seq<u8>) -> Set<Seq<u8>> {
        Set::new(|key: Seq<u8>| self.vault.contains_key(key) && is_key_of(recipient, key))
    }

    /// The last sequence number used for `recipient`.
    pub open spec fn last_seq(self, recipient: Seq<u8>) -> u64 {
        if self.seqno.contains_key(recipient) {
            self.seqno[recipient]
        } else {
            0
        }
    }

    /// The key under which the next envelope for `recipient` is filed.
    pub open spec fn next_key(self, recipient: Seq<u8>) -> Seq<u8> {
        vault_key(recipient, (self.last_seq(recipient) + 1) as nat)
    }

    /// Whether nothing more is accepted for `recipient`.
    pub open spec fn is_full(self, recipient: Seq<u8>) -> bool {
        self.mailbox(recipient).len() >= MAX_ENVELOPES_PER_RECIPIENT
    }

    /// With `bytes` filed for `recipient` under the next sequence number.
    pub open spec fn stored(self, recipient: Seq<u8>, bytes: Seq<u8>) -> Tables {
        Tables {
            vault: self.vault.insert(self.next_key(recipient), bytes),
            seqno: self.seqno.insert(recipient, (self.last_seq(recipient) + 1) as u64),
            ..self
        }
    }

    /// With the mailbox of `recipient` emptied and, if anything was in it, its
    /// sequence numbers starting over.
    pub open spec fn fetched(self, recipient: Seq<u8>) -> Tables {
        Tables {
            vault: self.vault.remove_keys(self.mailbox(recipient)),
            seqno: if self.mailbox(recipient) == Set::<Seq<u8>>::empty() {
                self.seqno
            } else {
                self.seqno.insert(recipient, 0)
            },
            ..self
        }
    }

    /// With `bytes` as the token of `recipient`.
    pub open spec fn registered(self, recipient: Seq<u8>, bytes: Seq<u8>) -> Tables {
        Tables { tokens: self.tokens.insert(recipient, bytes), ..self }
    }

    /// Without a token of `recipient`.
    pub open spec fn token_taken(self, recipient: Seq<u8>) -> Tables {
        Tables { tokens: self.tokens.remove(recipient), ..self }
    }

    /// Without the envelopes under `keys`.
    pub open spec fn without(self, keys: Set<Seq<u8>>) -> Tables {
        Tables { vault: self.vault.remove_keys(keys), ..self }
    }
}

/// What the database holds once a transaction is over in which the tables went from
/// `before` to `after`: a transaction that is not committed leaves no trace.
pub open spec fn settled(before: Tables, after: Tables, commit: bool) -> Tables {
    if commit {
        after
    } else {
        before
    }
}

/// Whether the transaction of a request is committed: if its operation succeeded
/// and did not refuse the request.
pub open spec fn answers(outcome: Result<GlyphResponse, VaultError>) -> bool {
    outcome matches Ok(response) && !(response is Error)
}

/// The response with which an envelope of `len` bytes is refused before the
/// vault is looked at, while the database holds `vault_bytes` bytes.
pub open spec fn refusal(len: nat, vault_bytes: u64) -> Option<u16> {
    if len > MAX_ENVELOPE_SIZE {
        Some(TOO_LARGE)
    } else if len < MIN_PAYLOAD_SIZE {
        Some(MALFORMED)
    } else if vault_bytes >= VAULT_CAPACITY_LIMIT {
        Some(VAULT_AT_CAPACITY)
    } else {
        None
    }
}

/// `encode` can turn `value` into `bytes`.
pub open spec fn encodes<T, E: Fn(&T) -> Option<Vec<u8>>>(encode: E, value: T, bytes: Seq<u8>) -> bool {
    exists|out: Vec<u8>| out@ == bytes && #[trigger] call_ensures(encode, (&value,), Some(out))
}

/// `encode` can fail on `value`.
pub open spec fn fails_to_encode<T, E: Fn(&T) -> Option<Vec<u8>>>(encode: E, value: T) -> bool {
    call_ensures(encode, (&value,), None)
}

/// `decode` can turn `bytes` into `value`, or fail on them where `value` is `None`.
pub open spec fn decodes<T, D: Fn(&Vec<u8>) -> Option<T>>(decode: D, bytes: Seq<u8>, value: Option<T>) -> bool {
    exists|input: Vec<u8>| input@ == bytes && #[trigger] call_ensures(decode, (&input,), value)
}

/// `bytes` is an envelope with content `payload`, as `decode` reads it.
pub open spec fn delivers<D: Fn(&Vec<u8>) -> Option<VaultEntry>>(
    decode: D,
    bytes: Seq<u8>,
    payload: Seq<u8>,
) -> bool {
    exists|entry: VaultEntry| #[trigger] decodes(decode, bytes, Some(entry)) && entry.payload@ == payload
}

/// `bytes` is an envelope, as `decode` reads it.
pub open spec fn is_envelope<D: Fn(&Vec<u8>) -> Option<VaultEntry>>(decode: D, bytes: Seq<u8>) -> bool {
    exists|payload: Seq<u8>| #[trigger] delivers(decode, bytes, payload)
}

/// `payloads` are the contents of all envelopes that wait for `recipient`, in
/// the order of their keys.
pub open spec fn delivery<D: Fn(&Vec<u8>) -> Option<VaultEntry>>(
    decode: D,
    tables: Tables,
    recipient: Seq<u8>,
    payloads: Seq<Vec<u8>>,
) -> bool {
    exists|keys: Seq<Seq<u8>>|
        {
            &&& #[trigger] lists(keys, tables.mailbox(recipient))
            &&& payloads.len() == keys.len()
            &&& forall|i: int|
                0 <= i < keys.len() ==> delivers(decode, tables.vault[#[trigger] keys[i]], payloads[i]@)
        }
}

/// `bytes` is an envelope stored before `cutoff` if `expired`, and otherwise one
/// stored later, or no envelope at all, as `decode` reads it.
pub open spec fn judged<D: Fn(&Vec<u8>) -> Option<VaultEntry>>(
    decode: D,
    bytes: Seq<u8>,
    cutoff: u64,
    expired: bool,
) -> bool {
    exists|entry: Option<VaultEntry>|
        #[trigger] decodes(decode, bytes, entry) && expired == (entry matches Some(e) && e.stored_at
            < cutoff)
}

/// `keys` are the keys of the expired envelopes.
pub open spec fn expired_keys<D: Fn(&Vec<u8>) -> Option<VaultEntry>>(
    decode: D,
    vault: Map<Seq<u8>, Seq<u8>>,
    cutoff: u64,
    keys: Set<Seq<u8>>,
) -> bool {
    &&& keys.subset_of(vault.dom())
    &&& forall|key: Seq<u8>|
        #[trigger] vault.contains_key(key) ==> judged(decode, vault[key], cutoff, keys.contains(key))
}

/// `bytes` is an envelope, as `decode` reads it, stored more than 30 days, of 86400
/// seconds each, before `now`.
pub open spec fn stored_over_30_days_before<D: Fn(&Vec<u8>) -> Option<VaultEntry>>(
    decode: D,
    bytes: Seq<u8>,
    now: int,
) -> bool {
    exists|entry: VaultEntry| #[trigger]
        decodes(decode, bytes, Some(entry)) && entry.stored_at + 30 * 86400 < now
}

/// `bytes` is no envelope, as `decode` reads it, or one stored 30 days before `now`
/// or later.
pub open spec fn not_stored_over_30_days_before<D: Fn(&Vec<u8>) -> Option<VaultEntry>>(
    decode: D,
    bytes: Seq<u8>,
    now: int,
) -> bool {
    exists|read: Option<VaultEntry>| #[trigger]
        decodes(decode, bytes, read) && (read matches Some(entry) ==> entry.stored_at + 30 * 86400 >= now)
}

/// The time before which an envelope must have been stored to be expired.
pub open spec fn cutoff_at(now: u64) -> u64 {
    if now >= TTL_SECONDS {
        (now - TTL_SECONDS) as u64
    } else {
        0
    }
}

// ---------------------------------------------------------------------------
// The vault
// ---------------------------------------------------------------------------

/// The response with which an envelope is refused before the vault is looked
/// at, if it is.
pub fn refuse_envelope(len: usize, vault_bytes: u64) -> (code: Option<u16>)
    ensures
        code == refusal(len as nat, vault_bytes),
        code == Some(413u16) <==> len > 65536,
        code == Some(400u16) <==> len < 32,
        code == Some(503u16) <==> 32 <= len <= 65536 && vault_bytes >= 53687091200,
        code is None <==> 32 <= len <= 65536 && vault_bytes < 53687091200,
{
    if len > MAX_ENVELOPE_SIZE {
        Some(TOO_LARGE)
    } else if len < MIN_PAYLOAD_SIZE {
        Some(MALFORMED)
    } else if vault_bytes >= VAULT_CAPACITY_LIMIT {
        Some(VAULT_AT_CAPACITY)
    } else {
        None
    }
}

/// Whether the transaction in which a request was carried out with this outcome is
/// to be committed. After an error or a refusal it is to be given up.
pub fn commits(outcome: &Result<GlyphResponse, VaultError>) -> (commit: bool)
    ensures
        commit == answers(*outcome),
        *outcome is Err ==> !commit,
{
    match outcome {
        Ok(GlyphResponse::Error { .. }) => false,
        Ok(_) => true,
        Err(_) => false,
    }
}

/// What a store comes to. A database in which a read has failed commits nothing
/// more: an envelope that was filed in spite of such a failure is not kept, and the
/// failure is what is reported. A mailbox that counts as full is reported as full.
pub fn conclude_store(outcome: StoreOutcome) -> (result: Result<GlyphResponse, VaultError>)
    ensures
        result == if outcome.unread@.len() > 0 && (outcome.result matches Ok(response) && response is StoreAck) {
            Err(VaultError::Read(outcome.unread@.last()))
        } else {
            outcome.result
        },
{
    let mut unread = outcome.unread;
    match (outcome.result, unread.pop()) {
        (Ok(GlyphResponse::StoreAck { .. }), Some(error)) => Err(VaultError::Read(error)),
        (result, _) => result,
    }
}

/// Whether the transaction in which a token was taken or the vault was pruned with
/// this outcome is to be committed. After an error it is to be given up.
pub fn commits_work<T>(outcome: &Result<T, VaultError>) -> (commit: bool)
    ensures
        commit == *outcome is Ok,
{
    match outcome {
        Ok(_) => true,
        Err(_) => false,
    }
}

/// Whether a mailbox in which `waiting` envelopes wait is full.
pub fn mailbox_is_full(waiting: usize) -> (full: bool)
    ensures
        full == (waiting >= 500),
        full == (waiting >= MAX_ENVELOPES_PER_RECIPIENT),
{
    waiting >= MAX_ENVELOPES_PER_RECIPIENT
}

/// The sequence number of the next envelope for a recipient whose last one is
/// `last_seq`, if there was one. There is none when they are used up.
pub fn next_sequence_number(last_seq: Option<u64>) -> (next: Option<u64>)
    ensures
        next == match last_seq {
            None => Some(1u64),
            Some(last) => if last == u64::MAX {
                None
            } else {
                Some((last + 1) as u64)
            },
        },
{
    match last_seq {
        None => Some(1),
        Some(last) => last.checked_add(1),
    }
}

/// Whether an envelope that was stored at `stored_at` is expired at `now`, both in
/// Unix seconds.
pub fn is_expired(stored_at: u64, now: u64) -> (expired: bool)
    ensures
        expired == (stored_at < cutoff_at(now)),
        expired == (stored_at + 2592000 < now),
{
    stored_at < now.saturating_sub(TTL_SECONDS)
}

/// Decodes the envelopes in `rows`, or returns the position of the first that
/// cannot be decoded.
pub fn open_envelopes<D: Fn(&Vec<u8>) -> Option<VaultEntry>>(
    rows: &Vec<Row>,
    decode: &D,
) -> (result: Result<Vec<Vec<u8>>, usize>)
    requires
        forall|bytes: &Vec<u8>| call_requires(*decode, (bytes,)),
    ensures
        match result {
            Ok(payloads) => {
                &&& payloads@.len() == rows@.len()
                &&& forall|i: int|
                    0 <= i < rows@.len() ==> delivers(*decode, (#[trigger] rows@[i]).value@, payloads@[i]@)
            },
            Err(i) => {
                &&& i < rows@.len()
                &&& decodes(*decode, rows@[i as int].value@, None)
                &&& forall|j: int| 0 <= j < i ==> is_envelope(*decode, (#[trigger] rows@[j]).value@)
            },
        },
{
    let mut payloads: Vec<Vec<u8>> = Vec::new();
    let mut i: usize = 0;
    while i < rows.len()
        invariant
            i <= rows@.len(),
            payloads@.len() == i,
            forall|bytes: &Vec<u8>| call_requires(*decode, (bytes,)),
            forall|j: int|
                0 <= j < i ==> delivers(*decode, (#[trigger] rows@[j]).value@, payloads@[j]@),
        decreases rows@.len() - i,
    {
        match decode(&rows[i].value) {
            Some(entry) => {
                assert(decodes(*decode, rows@[i as int].value@, Some(entry)));
                let payload = entry.payload;
                assert(delivers(*decode, rows@[i as int].value@, payload@));
                payloads.push(payload);
            },
            None => {
                assert(decodes(*decode, rows@[i as int].value@, None::<VaultEntry>));
                return Err(i);
            },
        }
        i = i + 1;
    }
    Ok(payloads)
}

/// The vault's tables, open in one write transaction.
pub struct RedbStorage<'txn> {
    vault: ByteTable<'txn>,
    tokens: ByteTable<'txn>,
    seqno: CounterTable<'txn>,
}

impl<'txn> View for RedbStorage<'txn> {
    type V = Tables;

    closed spec fn view(&self) -> Tables {
        Tables {
            vault: byte_rows(self.vault),
            tokens: byte_rows(self.tokens),
            seqno: counter_rows(self.seqno),
        }
    }
}

impl<'txn> RedbStorage<'txn> {
    /// The names of the tables that hold envelopes, push tokens and sequence
    /// counters.
    pub closed spec fn table_names(&self) -> (Seq<char>, Seq<char>, Seq<char>) {
        (byte_table_name(self.vault), byte_table_name(self.tokens), counter_table_name(self.seqno))
    }

    /// The rows that the tables held when they were opened.
    pub closed spec fn opened(&self) -> Tables {
        Tables {
            vault: byte_rows_opened(self.vault),
            tokens: byte_rows_opened(self.tokens),
            seqno: counter_rows_opened(self.seqno),
        }
    }

    /// Opens the three tables, creating those that do not exist. No row is changed.
    pub fn new(txn: &'txn redb::WriteTransaction) -> (result: Result<RedbStorage<'txn>, VaultError>)
        ensures
            match result {
                Ok(storage) => {
                    &&& storage.table_names() == (VAULT@, TOKENS@, SEQNO@)
                    &&& storage@ == storage.opened()
                },
                Err(error) => error is Table,
            },
    {
        proof {
            reveal_strlit("vault_v1");
            reveal_strlit("tokens_v1");
            reveal_strlit("seqno_v1");
        }
        let vault = match open_byte_table(txn, VAULT) {
            Ok(table) => table,
            Err(error) => return Err(VaultError::Table(error)),
        };
        let tokens = match open_byte_table(txn, TOKENS) {
            Ok(table) => table,
            Err(error) => return Err(VaultError::Table(error)),
        };
        let seqno = match open_counter_table(txn, SEQNO) {
            Ok(table) => table,
            Err(error) => return Err(VaultError::Table(error)),
        };
        Ok(RedbStorage { vault, tokens, seqno })
    }

    /// Files an envelope for a recipient under the next sequence number.
    ///
    /// `now` is the time in Unix seconds, `vault_bytes` the size of the database.
    /// A refused envelope changes nothing. An envelope in the mailbox that cannot be
    /// read is counted like the others, and the failure comes back with the outcome.
    pub fn vault_store<E: Fn(&VaultEntry) -> Option<Vec<u8>>>(
        &mut self,
        recipient_hash: [u8; 32],
        payload: Vec<u8>,
        now: u64,
        vault_bytes: u64,
        encode: E,
    ) -> (outcome: StoreOutcome)
        requires
            forall|entry: &VaultEntry| call_requires(encode, (entry,)),
        ensures
            final(self).table_names() == old(self).table_names(),
            final(self).opened() == old(self).opened(),
            refusal(payload@.len(), vault_bytes) matches Some(code) ==> {
                &&& outcome.result == Ok::<GlyphResponse, VaultError>(GlyphResponse::Error { code })
                &&& outcome.unread@.len() == 0
                &&& final(self)@ == old(self)@
            },
            payload@.len() > 65536 <==> outcome.result == Ok::<GlyphResponse, VaultError>(
                GlyphResponse::Error { code: 413 },
            ),
            payload@.len() < 32 <==> outcome.result == Ok::<GlyphResponse, VaultError>(
                GlyphResponse::Error { code: 400 },
            ),
            32 <= payload@.len() <= 65536 && vault_bytes >= 53687091200 <==> outcome.result == Ok::<
                GlyphResponse,
                VaultError,
            >(GlyphResponse::Error { code: 503 }),
            refusal(payload@.len(), vault_bytes) is None ==> match outcome.result {
                Ok(GlyphResponse::Error { code }) => {
                    &&& code == MAILBOX_FULL
                    &&& outcome.unread@.len() == 0 ==> old(self)@.is_full(recipient_hash@)
                    &&& outcome.unread@.len() > 0 ==> old(self)@.mailbox(recipient_hash@).len() + 1
                        >= MAX_ENVELOPES_PER_RECIPIENT
                    &&& final(self)@ == old(self)@
                },
                Ok(GlyphResponse::StoreAck { success }) => {
                    &&& success
                    &&& outcome.unread@.len() == 0 ==> !old(self)@.is_full(recipient_hash@)
                    &&& old(self)@.last_seq(recipient_hash@) < u64::MAX
                    &&& exists|bytes: Seq<u8>|
                        {
                            &&& #[trigger] encodes(encode, (VaultEntry { stored_at: now, payload }), bytes)
                            &&& final(self)@ == old(self)@.stored(recipient_hash@, bytes)
                        }
                },
                Ok(_) => false,
                Err(VaultError::SequenceExhausted) => {
                    &&& outcome.unread@.len() == 0 ==> !old(self)@.is_full(recipient_hash@)
                    &&& old(self)@.last_seq(recipient_hash@) == u64::MAX
                    &&& final(self)@ == old(self)@
                },
                Err(VaultError::Encode) => {
                    &&& outcome.unread@.len() == 0 ==> !old(self)@.is_full(recipient_hash@)
                    &&& old(self)@.last_seq(recipient_hash@) < u64::MAX
                    &&& fails_to_encode(encode, (VaultEntry { stored_at: now, payload }))
                    &&& final(self)@ == old(self)@
                },
                Err(VaultError::Read(_)) => final(self)@ == old(self)@,
                Err(error) => error is Write,
            },
    {
        if let Some(code) = refuse_envelope(payload.len(), vault_bytes) {
            return StoreOutcome { result: Ok(GlyphResponse::Error { code }), unread: Vec::new() };
        }
        let (low, high) = scan_bounds(&recipient_hash);
        let waiting = match byte_table_range_keys(&self.vault, low.as_slice(), high.as_slice()) {
            Ok(waiting) => waiting,
            Err(error) => {
                return StoreOutcome { result: Err(VaultError::Read(error)), unread: Vec::new() };
            },
        };
        proof {
            let mailbox = self@.mailbox(recipient_hash@);
            assert(keys_within(self@.vault, low@, high@) =~= mailbox);
            lemma_scan(scanned_keys(waiting@), mailbox);
            assert forall|i: int| 0 <= i < waiting@.len() implies (waiting@[i] is Ok <==> (
            #[trigger] scanned_keys(waiting@)[i]) is Some) by {}
        }
        let count: usize = waiting.len();
        let unread = failures(waiting);
        let result = self.file_envelope(recipient_hash, VaultEntry { stored_at: now, payload }, count, encode);
        StoreOutcome { result, unread }
    }

    /// Files an envelope for a recipient for whom `waiting` envelopes were counted.
    fn file_envelope<E: Fn(&VaultEntry) -> Option<Vec<u8>>>(
        &mut self,
        recipient_hash: [u8; 32],
        entry: VaultEntry,
        waiting: usize,
        encode: E,
    ) -> (result: Result<GlyphResponse, VaultError>)
        requires
            forall|entry: &VaultEntry| call_requires(encode, (entry,)),
        ensures
            final(self).table_names() == old(self).table_names(),
            final(self).opened() == old(self).opened(),
            match result {
                Ok(GlyphResponse::Error { code }) => {
                    &&& code == MAILBOX_FULL
                    &&& waiting >= MAX_ENVELOPES_PER_RECIPIENT
                    &&& final(self)@ == old(self)@
                },
                Ok(GlyphResponse::StoreAck { success }) => {
                    &&& success
                    &&& waiting < MAX_ENVELOPES_PER_RECIPIENT
                    &&& old(self)@.last_seq(recipient_hash@) < u64::MAX
                    &&& exists|bytes: Seq<u8>|
                        {
                            &&& #[trigger] encodes(encode, entry, bytes)
                            &&& final(self)@ == old(self)@.stored(recipient_hash@, bytes)
                        }
                },
                Ok(_) => false,
                Err(VaultError::SequenceExhausted) => {
                    &&& waiting < MAX_ENVELOPES_PER_RECIPIENT
                    &&& old(self)@.last_seq(recipient_hash@) == u64::MAX
                    &&& final(self)@ == old(self)@
                },
                Err(VaultError::Encode) => {
                    &&& waiting < MAX_ENVELOPES_PER_RECIPIENT
                    &&& old(self)@.last_seq(recipient_hash@) < u64::MAX
                    &&& fails_to_encode(encode, entry)
                    &&& final(self)@ == old(self)@
                },
                Err(VaultError::Read(_)) => {
                    &&& waiting < MAX_ENVELOPES_PER_RECIPIENT
                    &&& final(self)@ == old(self)@
                },
                Err(error) => error is Write && waiting < MAX_ENVELOPES_PER_RECIPIENT,
            },
    {
        if mailbox_is_full(waiting) {
            return Ok(GlyphResponse::Error { code: MAILBOX_FULL });
        }
        let last_seq = match counter_table_get(&self.seqno, recipient_hash.as_slice()) {
            Ok(last_seq) => last_seq,
            Err(error) => return Err(VaultError::Read(error)),
        };
        let seq: u64 = match next_sequence_number(last_seq) {
            Some(seq) => seq,
            None => return Err(VaultError::SequenceExhausted),
        };
        let bytes = match encode(&entry) {
            Some(bytes) => bytes,
            None => return Err(VaultError::Encode),
        };
        let key = make_vault_key(&recipient_hash, seq);
        if let Err(error) = counter_table_insert(&mut self.seqno, recipient_hash.as_slice(), seq) {
            return Err(VaultError::Write(error));
        }
        if let Err(error) = byte_table_insert(&mut self.vault, key.as_slice(), bytes.as_slice()) {
            return Err(VaultError::Write(error));
        }
        assert(encodes(encode, entry, bytes@));
        assert(self@ =~= old(self)@.stored(recipient_hash@, bytes@));
        Ok(GlyphResponse::StoreAck { success: true })
    }

    /// Hands out all envelopes that wait for the holder of a public key, oldest
    /// first, and deletes them.
    ///
    /// `recipient_pubkey` is the caller's own public key in its protobuf encoding:
    /// a caller reaches no mailbox but its own.
    pub fn vault_fetch<D: Fn(&Vec<u8>) -> Option<VaultEntry>>(
        &mut self,
        recipient_pubkey: &[u8],
        decode: D,
    ) -> (result: Result<GlyphResponse, VaultError>)
        requires
            forall|bytes: &Vec<u8>| call_requires(decode, (bytes,)),
        ensures
            final(self).table_names() == old(self).table_names(),
            final(self).opened() == old(self).opened(),
            match result {
                Ok(GlyphResponse::FetchResult { payloads }) => {
                    &&& delivery(decode, old(self)@, hash_of_pubkey(recipient_pubkey@), payloads@)
                    &&& delivery(decode, old(self)@, sha256_digest(recipient_pubkey@), payloads@)
                    &&& final(self)@ == old(self)@.fetched(hash_of_pubkey(recipient_pubkey@))
                    &&& final(self)@ == old(self)@.fetched(sha256_digest(recipient_pubkey@))
                },
                Ok(_) => false,
                Err(VaultError::Decode) => {
                    &&& exists|key: Seq<u8>| #[trigger]
                        old(self)@.mailbox(hash_of_pubkey(recipient_pubkey@)).contains(key) && decodes(
                            decode,
                            old(self)@.vault[key],
                            None,
                        )
                    &&& final(self)@ == old(self)@
                },
                Err(VaultError::Read(_)) => final(self)@ == old(self)@,
                Err(error) => error is Write,
            },
    {
        let recipient = recipient_hash(recipient_pubkey);
        let (low, high) = scan_bounds(&recipient);
        let rows = match byte_table_range(&self.vault, low.as_slice(), high.as_slice()) {
            Ok(rows) => rows,
            Err(error) => return Err(VaultError::Read(error)),
        };
        let ghost keys = row_keys(rows@);
        let ghost mailbox = self@.mailbox(recipient@);
        proof {
            assert(keys_within(self@.vault, low@, high@) =~= mailbox);
            lemma_listing_len(keys, mailbox);
            assert forall|i: int| 0 <= i < rows.len() implies mailbox.contains((#[trigger] rows[i]).key@) by {
                assert(keys[i] == rows[i].key@);
                assert(keys.contains(keys[i]));
            }
        }
        let payloads = match open_envelopes(&rows, &decode) {
            Ok(payloads) => payloads,
            Err(i) => {
                assert(mailbox.contains(rows@[i as int].key@));
                return Err(VaultError::Decode);
            },
        };
        if let Err(error) = delete_rows(&mut self.vault, &rows) {
            return Err(VaultError::Write(error));
        }
        if rows.len() > 0 {
            if let Err(error) = counter_table_insert(&mut self.seqno, recipient.as_slice(), 0) {
                return Err(VaultError::Write(error));
            }
            assert(mailbox.contains(rows@[0].key@));
        } else {
            assert(mailbox =~= Set::<Seq<u8>>::empty());
        }
        proof {
            assert(keys.to_set() == mailbox);
            assert forall|i: int| 0 <= i < keys.len() implies delivers(
                decode,
                old(self)@.vault[#[trigger] keys[i]],
                payloads@[i]@,
            ) by {
                assert(keys[i] == rows@[i].key@);
            }
            assert(lists(keys, old(self)@.mailbox(recipient@)));
            assert(self@ =~= old(self)@.fetched(recipient@));
        }
        Ok(GlyphResponse::FetchResult { payloads })
    }

    /// Keeps a push token for a recipient, in place of any earlier one.
    pub fn register_token<E: Fn(&BlindedToken) -> Option<Vec<u8>>>(
        &mut self,
        recipient_hash: [u8; 32],
        blind_key: [u8; 32],
        encrypted_token: Vec<u8>,
        expiry: u64,
        encode: E,
    ) -> (result: Result<GlyphResponse, VaultError>)
        requires
            forall|token: &BlindedToken| call_requires(encode, (token,)),
        ensures
            final(self).table_names() == old(self).table_names(),
            final(self).opened() == old(self).opened(),
            match result {
                Ok(GlyphResponse::RegisterTokenAck { success }) => {
                    &&& success
                    &&& exists|bytes: Seq<u8>|
                        {
                            &&& #[trigger] encodes(
                                encode,
                                (BlindedToken { blind_key, encrypted_token, expiry }),
                                bytes,
                            )
                            &&& final(self)@ == old(self)@.registered(recipient_hash@, bytes)
                        }
                },
                Ok(_) => false,
                Err(VaultError::Encode) => {
                    &&& fails_to_encode(encode, (BlindedToken { blind_key, encrypted_token, expiry }))
                    &&& final(self)@ == old(self)@
                },
                Err(error) => error is Write,
            },
    {
        let token = BlindedToken { blind_key, encrypted_token, expiry };
        let bytes = match encode(&token) {
            Some(bytes) => bytes,
            None => return Err(VaultError::Encode),
        };
        if let Err(error) = byte_table_insert(&mut self.tokens, recipient_hash.as_slice(), bytes.as_slice()) {
            return Err(VaultError::Write(error));
        }
        assert(encodes(encode, token, bytes@));
        assert(self@ =~= old(self)@.registered(recipient_hash@, bytes@));
        Ok(GlyphResponse::RegisterTokenAck { success: true })
    }

    /// Takes the push token of a recipient out of the vault, if there is one.
    ///
    /// A token that cannot be decoded is an error, and stays in place.
    pub fn take_blinded_token<D: Fn(&Vec<u8>) -> Option<BlindedToken>>(
        &mut self,
        recipient_hash: &[u8; 32],
        decode: D,
    ) -> (result: Result<Option<BlindedToken>, VaultError>)
        requires
            forall|bytes: &Vec<u8>| call_requires(decode, (bytes,)),
        ensures
            final(self).table_names() == old(self).table_names(),
            final(self).opened() == old(self).opened(),
            match result {
                Ok(Some(token)) => {
                    &&& old(self)@.tokens.contains_key(recipient_hash@)
                    &&& decodes(decode, old(self)@.tokens[recipient_hash@], Some(token))
                    &&& final(self)@ == old(self)@.token_taken(recipient_hash@)
                },
                Ok(None) => {
                    &&& !old(self)@.tokens.contains_key(recipient_hash@)
                    &&& final(self)@ == old(self)@
                },
                Err(VaultError::Decode) => {
                    &&& old(self)@.tokens.contains_key(recipient_hash@)
                    &&& decodes(decode, old(self)@.tokens[recipient_hash@], None)
                    &&& final(self)@ == old(self)@
                },
                Err(VaultError::Read(_)) => final(self)@ == old(self)@,
                Err(error) => error is Write,
            },
    {
        let hash = recipient_hash.as_slice();
        let rows = match byte_table_range(&self.tokens, hash, hash) {
            Ok(rows) => rows,
            Err(error) => return Err(VaultError::Read(error)),
        };
        proof {
            lemma_single_row(rows@, self@.tokens, recipient_hash@);
        }
        if rows.len() == 0 {
            return Ok(None);
        }
        let token = match decode(&rows[0].value) {
            Some(token) => token,
            None => {
                assert(decodes(decode, rows@[0].value@, None::<BlindedToken>));
                return Err(VaultError::Decode);
            },
        };
        assert(decodes(decode, rows@[0].value@, Some(token)));
        if let Err(error) = byte_table_remove(&mut self.tokens, hash) {
            return Err(VaultError::Write(error));
        }
        assert(self@ =~= old(self)@.token_taken(recipient_hash@));
        Ok(Some(token))
    }

    /// Deletes every envelope stored more than 30 days before `now` and returns
    /// how many there were. What is no envelope is left alone, and so is what cannot
    /// be read.
    pub fn prune_vault<D: Fn(&Vec<u8>) -> Option<VaultEntry>>(
        &mut self,
        now: u64,
        decode: D,
    ) -> (result: Result<Pruned, VaultError>)
        requires
            forall|bytes: &Vec<u8>| call_requires(decode, (bytes,)),
        ensures
            final(self).table_names() == old(self).table_names(),
            final(self).opened() == old(self).opened(),
            match result {
                Ok(pruned) => exists|readable: Set<Seq<u8>>, keys: Set<Seq<u8>>|
                    {
                        &&& #[trigger] expired_keys(
                            decode,
                            old(self)@.vault.restrict(readable),
                            cutoff_at(now),
                            keys,
                        )
                        &&& pruned.unread@.len() == 0 ==> old(self)@.vault.restrict(readable) == old(
                            self,
                        )@.vault
                        &&& keys.finite() && pruned.count == keys.len()
                        &&& final(self)@ == old(self)@.without(keys)
                    },
                Err(VaultError::Read(_)) => final(self)@ == old(self)@,
                Err(error) => error is Write,
            },
            result is Ok ==> forall|key: Seq<u8>| #[trigger]
                old(self)@.vault.contains_key(key) && !final(self)@.vault.contains_key(key)
                    ==> stored_over_30_days_before(decode, old(self)@.vault[key], now as int),
            result matches Ok(pruned) && pruned.unread@.len() == 0 ==> forall|key: Seq<u8>| #[trigger]
                old(self)@.vault.contains_key(key) && final(self)@.vault.contains_key(key)
                    ==> not_stored_over_30_days_before(decode, old(self)@.vault[key], now as int),
            result is Ok ==> final(self)@.tokens == old(self)@.tokens && final(self)@.seqno == old(
                self,
            )@.seqno,
    {
        let ghost cutoff = cutoff_at(now);
        let ghost vault = self@.vault;
        let items = match byte_table_iter(&self.vault) {
            Ok(items) => items,
            Err(error) => return Err(VaultError::Read(error)),
        };
        let ghost scanned = scanned_row_keys(items@);
        let ghost all = lemma_scan(scanned, vault.dom());
        let ghost read = read_count(scanned);
        let mut count: u64 = 0;
        let mut i: usize = 0;
        let ghost mut keys = Set::<Seq<u8>>::empty();
        while i < items.len()
            invariant
                i <= items@.len(),
                cutoff == cutoff_at(now),
                vault == old(self)@.vault,
                scanned == scanned_row_keys(items@),
                scanned_rows_of(items@, vault),
                read == read_count(scanned),
                is_beginning(scanned, all),
                lists(all, vault.dom()),
                all.no_duplicates(),
                forall|bytes: &Vec<u8>| call_requires(decode, (bytes,)),
                keys.finite(),
                count == keys.len(),
                count <= i,
                forall|key: Seq<u8>| #[trigger]
                    keys.contains(key) ==> exists|j: int| 0 <= j < i && j < read && #[trigger] all[j] == key,
                forall|j: int|
                    0 <= j < i && j < read ==> judged(
                        decode,
                        vault[#[trigger] all[j]],
                        cutoff,
                        keys.contains(all[j]),
                    ),
                self@ == old(self)@.without(keys),
                self.table_names() == old(self).table_names(),
                self.opened() == old(self).opened(),
            decreases items@.len() - i,
        {
            let ghost before = keys;
            assert(scanned[i as int] is Some <==> items@[i as int] is Ok);
            if let Ok(row) = &items[i] {
                assert(scanned[i as int] == Some(row.key@));
                assert(i < read);
                assert(all[i as int] == row.key@);
                let entry = decode(&row.value);
                assert(decodes(decode, row.value@, entry));
                let expired = match &entry {
                    Some(entry) => is_expired(entry.stored_at, now),
                    None => false,
                };
                assert(judged(decode, row.value@, cutoff, expired));
                assert(!before.contains(all[i as int])) by {
                    if before.contains(all[i as int]) {
                        let j = choose|j: int| 0 <= j < i && j < read && #[trigger] all[j] == all[i as int];
                        assert(all[j] == all[i as int]);
                    }
                }
                if expired {
                    if let Err(error) = byte_table_remove(&mut self.vault, row.key.as_slice()) {
                        return Err(VaultError::Write(error));
                    }
                    proof {
                        keys = keys.insert(row.key@);
                        assert(self@ =~= old(self)@.without(keys));
                    }
                    count = count + 1;
                }
                proof {
                    assert forall|j: int| 0 <= j < i implies keys.contains(#[trigger] all[j])
                        == before.contains(all[j]) by {
                        assert(all[j] != all[i as int]);
                    }
                }
            } else {
                assert(i >= read);
            }
            i = i + 1;
        }
        let unread = failures(items);
        proof {
            let readable = all.take(read).to_set();
            let seen = vault.restrict(readable);
            assert forall|key: Seq<u8>| #[trigger] seen.contains_key(key) implies judged(
                decode,
                seen[key],
                cutoff,
                keys.contains(key),
            ) by {
                let j = choose|j: int| 0 <= j < read && all.take(read)[j] == key;
                assert(all[j] == key);
            }
            assert forall|key: Seq<u8>| #[trigger] keys.contains(key) implies seen.dom().contains(key) by {
                let j = choose|j: int| 0 <= j < i && j < read && #[trigger] all[j] == key;
                assert(all.take(read)[j] == key);
                assert(all.contains(key));
                assert(vault.dom().contains(key));
            }
            assert(expired_keys(decode, old(self)@.vault.restrict(readable), cutoff_at(now), keys));
            assert forall|key: Seq<u8>| #[trigger] vault.contains_key(key) && !self@.vault.contains_key(
                key,
            ) implies stored_over_30_days_before(decode, vault[key], now as int) by {
                assert(keys.contains(key));
                assert(seen.contains_key(key));
                assert(judged(decode, seen[key], cutoff, true));
                let read = choose|read: Option<VaultEntry>| #[trigger]
                    decodes(decode, seen[key], read) && true == (read matches Some(e) && e.stored_at
                        < cutoff);
                assert(decodes(decode, vault[key], Some(read->0)));
            }
            if unread@.len() == 0 {
                assert(scanned.len() > 0 && scanned.last() is None ==> items@[items@.len() - 1] is Ok);
                assert forall|key: Seq<u8>| #[trigger] vault.contains_key(key) && self@.vault.contains_key(
                    key,
                ) implies not_stored_over_30_days_before(decode, vault[key], now as int) by {
                    assert(!keys.contains(key));
                    assert(vault.dom().contains(key));
                    assert(all.contains(key));
                    let j = choose|j: int| 0 <= j < all.len() && all[j] == key;
                    assert(judged(decode, vault[all[j]], cutoff, keys.contains(all[j])));
                }
            }
            if unread@.len() == 0 {
                assert(read == scanned.len()) by {
                    if scanned.len() > 0 && scanned.last() is None {
                        assert(items@[items@.len() - 1] is Ok);
                    }
                }
                assert(all.take(read) =~= all);
                assert forall|key: Seq<u8>| #[trigger] vault.contains_key(key) implies readable.contains(key) by {
                    assert(vault.dom().contains(key));
                    assert(all.contains(key));
                }
                assert(seen =~= vault);
            }
        }
        Ok(Pruned { count, unread })
    }
}

/// The listing of which a scan handed out a beginning: it has no key twice, and
/// what was handed out is as long as it, or at most one longer where a failure cut
/// it off.
proof fn lemma_scan(items: Seq<Option<Seq<u8>>>, members: Set<Seq<u8>>) -> (keys: Seq<Seq<u8>>)
    requires
        scans(items, members),
    ensures
        lists(keys, members),
        is_beginning(items, keys),
        keys.no_duplicates(),
        members.finite(),
        members.len() == keys.len(),
        items.len() <= members.len() + 1,
        (forall|i: int| 0 <= i < items.len() ==> #[trigger] items[i] is Some) ==> items.len() == members.len(),
{
    let keys = choose|keys: Seq<Seq<u8>>| #[trigger] lists(keys, members) && is_beginning(items, keys);
    lemma_listing_len(keys, members);
    keys
}

/// The failures among what a scan handed out.
fn failures<T>(items: Vec<Result<T, redb::StorageError>>) -> (errors: Vec<redb::StorageError>)
    ensures
        errors@.len() == 0 <==> forall|i: int| 0 <= i < items@.len() ==> #[trigger] items@[i] is Ok,
        forall|i: int|
            0 <= i < items@.len() && #[trigger] items@[i] is Err ==> errors@.contains(items@[i]->Err_0),
        forall|e: redb::StorageError| #[trigger]
            errors@.contains(e) ==> items@.contains(Err::<T, redb::StorageError>(e)),
{
    let mut rest = items;
    let mut errors: Vec<redb::StorageError> = Vec::new();
    while rest.len() > 0
        invariant
            rest@.len() <= items@.len(),
            rest@ == items@.take(rest@.len() as int),
            errors@.len() == 0 <==> forall|i: int|
                rest@.len() <= i < items@.len() ==> #[trigger] items@[i] is Ok,
            forall|i: int|
                rest@.len() <= i < items@.len() && #[trigger] items@[i] is Err ==> errors@.contains(
                    items@[i]->Err_0,
                ),
            forall|e: redb::StorageError| #[trigger]
                errors@.contains(e) ==> items@.contains(Err::<T, redb::StorageError>(e)),
        decreases rest@.len(),
    {
        let ghost n = rest@.len() - 1;
        let ghost earlier = errors@;
        match rest.pop() {
            Some(Err(error)) => {
                assert(items@[n] == Err::<T, redb::StorageError>(error));
                errors.push(error);
                proof {
                    assert(errors@[earlier.len() as int] == error);
                    assert forall|e: redb::StorageError| #[trigger] errors@.contains(e) implies items@.contains(
                        Err::<T, redb::StorageError>(e),
                    ) by {
                        let j = choose|j: int| 0 <= j < errors@.len() && errors@[j] == e;
                        if j < earlier.len() {
                            assert(earlier[j] == e);
                            assert(earlier.contains(e));
                        } else {
                            assert(items@[n] == Err::<T, redb::StorageError>(e));
                        }
                    }
                    assert forall|i: int| n <= i < items@.len() && #[trigger] items@[i] is Err implies errors@.contains(
                        items@[i]->Err_0,
                    ) by {
                        if i > n {
                            let j = choose|j: int| 0 <= j < earlier.len() && earlier[j] == items@[i]->Err_0;
                            assert(errors@[j] == items@[i]->Err_0);
                        }
                    }
                }
            },
            _ => {
                assert(items@[n] is Ok);
            },
        }
        assert(rest@ =~= items@.take(rest@.len() as int));
    }
    errors
}

/// Deletes the keys of `rows` from a table. Where there are none the table is not
/// touched, so nothing can fail.
fn delete_rows(table: &mut ByteTable<'_>, rows: &Vec<Row>) -> (result: Result<(), redb::StorageError>)
    ensures
        byte_table_name(*final(table)) == byte_table_name(*old(table)),
        byte_rows_opened(*final(table)) == byte_rows_opened(*old(table)),
        result is Ok ==> byte_rows(*final(table)) == byte_rows(*old(table)).remove_keys(
            row_keys(rows@).to_set(),
        ),
        rows@.len() == 0 ==> result is Ok,
{
    let ghost keys = row_keys(rows@);
    let mut i: usize = 0;
    assert(byte_rows(*table) =~= byte_rows(*old(table)).remove_keys(keys.take(0).to_set()));
    while i < rows.len()
        invariant
            i <= rows@.len(),
            keys == row_keys(rows@),
            byte_rows(*table) == byte_rows(*old(table)).remove_keys(keys.take(i as int).to_set()),
            byte_table_name(*table) == byte_table_name(*old(table)),
            byte_rows_opened(*table) == byte_rows_opened(*old(table)),
        decreases rows@.len() - i,
    {
        if let Err(error) = byte_table_remove(table, rows[i].key.as_slice()) {
            return Err(error);
        }
        proof {
            assert(keys.take(i + 1) =~= keys.take(i as int).push(keys[i as int]));
            lemma_push_to_set(keys.take(i as int), keys[i as int]);
            assert(byte_rows(*table) =~= byte_rows(*old(table)).remove_keys(keys.take(i + 1).to_set()));
        }
        i = i + 1;
    }
    assert(keys.take(i as int) =~= keys);
    Ok(())
}

/// A range from a key to itself holds the row of that key, if there is one.
proof fn lemma_single_row(rows: Seq<Row>, table: Map<Seq<u8>, Seq<u8>>, key: Seq<u8>)
    requires
        rows_of(rows, table),
        lists(row_keys(rows), keys_within(table, key, key)),
    ensures
        rows.len() == 0 <==> !table.contains_key(key),
        rows.len() > 0 ==> rows[0].key@ == key && rows[0].value@ == table[key],
{
    let keys = row_keys(rows);
    let found = keys_within(table, key, key);
    lemma_precedes_irreflexive(key);
    if table.contains_key(key) {
        assert(found.contains(key));
        assert(keys.contains(key));
    }
    if rows.len() > 0 {
        assert(keys[0] == rows[0].key@);
        assert(keys.contains(keys[0]));
        assert(found.contains(keys[0]));
        if keys[0] != key {
            lemma_precedes_total(keys[0], key);
        }
    }
}

proof fn lemma_push_to_set(keys: Seq<Seq<u8>>, key: Seq<u8>)
    ensures
        keys.push(key).to_set() == keys.to_set().insert(key),
{
    let longer = keys.push(key);
    assert forall|k: Seq<u8>| longer.to_set().contains(k) <==> #[trigger] keys.to_set().insert(key).contains(k) by {
        if keys.contains(k) {
            let i = choose|i: int| 0 <= i < keys.len() && keys[i] == k;
            assert(longer[i] == k);
        }
        if k == key {
            assert(longer[keys.len() as int] == k);
        }
        if longer.contains(k) {
            let i = choose|i: int| 0 <= i < longer.len() && longer[i] == k;
            if i < keys.len() {
                assert(keys[i] == k);
            }
        }
    }
    assert(longer.to_set() =~= keys.to_set().insert(key));
}

} // verus!
