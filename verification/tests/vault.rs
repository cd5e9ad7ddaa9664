use glyph_anchor::crypto::recipient_hash;
use glyph_anchor::network::GlyphResponse;
use glyph_anchor::storage::{
    commits, commits_work, conclude_store, is_expired, mailbox_is_full, next_sequence_number, open_envelopes, refuse_envelope, BlindedToken,
    RedbStorage, StoreOutcome, VaultEntry, VaultError, MAX_ENVELOPES_PER_RECIPIENT, MAX_ENVELOPE_SIZE, SEQNO,
    TTL_SECONDS, VAULT, VAULT_CAPACITY_LIMIT,
};
use glyph_anchor::tables::Row;
use redb::StorageBackend;
use std::sync::atomic::{AtomicBool, AtomicUsize, Ordering};
use std::sync::Arc;

/// Memory that fails to be read once told so.
#[derive(Debug)]
struct Faulty {
    memory: redb::backends::InMemoryBackend,
    broken: Arc<AtomicBool>,
    /// How many reads still succeed while it is broken.
    left: Arc<AtomicUsize>,
}

impl redb::StorageBackend for Faulty {
    fn len(&self) -> Result<u64, std::io::Error> {
        self.memory.len()
    }

    fn read(&self, offset: u64, len: usize) -> Result<Vec<u8>, std::io::Error> {
        if self.broken.load(Ordering::SeqCst) {
            let left = self.left.load(Ordering::SeqCst);
            if left == 0 {
                return Err(std::io::Error::from(std::io::ErrorKind::Other));
            }
            self.left.store(left - 1, Ordering::SeqCst);
        }
        self.memory.read(offset, len)
    }

    fn set_len(&self, len: u64) -> Result<(), std::io::Error> {
        self.memory.set_len(len)
    }

    fn sync_data(&self, eventual: bool) -> Result<(), std::io::Error> {
        self.memory.sync_data(eventual)
    }

    fn write(&self, offset: u64, data: &[u8]) -> Result<(), std::io::Error> {
        self.memory.write(offset, data)
    }
}

fn database() -> redb::Database {
    redb::Database::builder().create_with_backend(redb::backends::InMemoryBackend::new()).unwrap()
}

fn encode_entry(entry: &VaultEntry) -> Option<Vec<u8>> {
    let mut out = Vec::new();
    ciborium::into_writer(&(entry.stored_at, &entry.payload), &mut out).ok()?;
    Some(out)
}

fn decode_entry(bytes: &Vec<u8>) -> Option<VaultEntry> {
    let (stored_at, payload): (u64, Vec<u8>) = ciborium::from_reader(bytes.as_slice()).ok()?;
    Some(VaultEntry { stored_at, payload })
}

fn encode_token(token: &BlindedToken) -> Option<Vec<u8>> {
    let mut out = Vec::new();
    ciborium::into_writer(&(token.blind_key, &token.encrypted_token, token.expiry), &mut out).ok()?;
    Some(out)
}

fn decode_token(bytes: &Vec<u8>) -> Option<BlindedToken> {
    let (blind_key, encrypted_token, expiry): ([u8; 32], Vec<u8>, u64) =
        ciborium::from_reader(bytes.as_slice()).ok()?;
    Some(BlindedToken { blind_key, encrypted_token, expiry })
}

fn payload(tag: u8) -> Vec<u8> {
    vec![tag; 40]
}

fn store(db: &redb::Database, hash: [u8; 32], content: Vec<u8>, now: u64) -> GlyphResponse {
    let txn = db.begin_write().unwrap();
    let response = {
        let mut storage = RedbStorage::new(&txn).unwrap();
        conclude_store(storage.vault_store(hash, content, now, 0, encode_entry)).unwrap()
    };
    txn.commit().unwrap();
    response
}

fn fetch(db: &redb::Database, pubkey: &[u8]) -> Vec<Vec<u8>> {
    let txn = db.begin_write().unwrap();
    let response = {
        let mut storage = RedbStorage::new(&txn).unwrap();
        storage.vault_fetch(pubkey, decode_entry).unwrap()
    };
    txn.commit().unwrap();
    match response {
        GlyphResponse::FetchResult { payloads } => payloads,
        other => panic!("{:?}", other),
    }
}

fn prune(db: &redb::Database, now: u64) -> u64 {
    let txn = db.begin_write().unwrap();
    let pruned = {
        let mut storage = RedbStorage::new(&txn).unwrap();
        storage.prune_vault(now, decode_entry).unwrap().count
    };
    txn.commit().unwrap();
    pruned
}

#[test]
fn limits_are_the_documented_ones() {
    assert_eq!(MAX_ENVELOPE_SIZE, 64 * 1024);
    assert_eq!(MAX_ENVELOPES_PER_RECIPIENT, 500);
    assert_eq!(VAULT_CAPACITY_LIMIT, 50 * 1024 * 1024 * 1024);
    assert_eq!(TTL_SECONDS, 30 * 24 * 3600);
}

#[test]
fn refusals() {
    assert_eq!(refuse_envelope(65536, 0), None);
    assert_eq!(refuse_envelope(65537, 0), Some(413));
    assert_eq!(refuse_envelope(32, 0), None);
    assert_eq!(refuse_envelope(31, 0), Some(400));
    assert_eq!(refuse_envelope(32, VAULT_CAPACITY_LIMIT - 1), None);
    assert_eq!(refuse_envelope(32, VAULT_CAPACITY_LIMIT), Some(503));
    assert_eq!(refuse_envelope(65537, VAULT_CAPACITY_LIMIT), Some(413));
    assert_eq!(refuse_envelope(0, VAULT_CAPACITY_LIMIT), Some(400));
}

#[test]
fn refused_envelope_changes_nothing() {
    let db = database();
    let hash = recipient_hash(b"alice");
    assert_eq!(store(&db, hash, vec![1; 31], 10), GlyphResponse::Error { code: 400 });
    assert_eq!(store(&db, hash, vec![1; 65537], 10), GlyphResponse::Error { code: 413 });
    assert!(fetch(&db, b"alice").is_empty());
}

#[test]
fn fetch_returns_what_was_stored_in_order() {
    let db = database();
    let alice = recipient_hash(b"alice");
    for tag in 1..=5u8 {
        assert_eq!(store(&db, alice, payload(tag), 100 + tag as u64), GlyphResponse::StoreAck { success: true });
    }
    assert_eq!(fetch(&db, b"alice"), vec![payload(1), payload(2), payload(3), payload(4), payload(5)]);
}

#[test]
fn fetch_empties_the_mailbox_and_restarts_numbers() {
    let db = database();
    let alice = recipient_hash(b"alice");
    store(&db, alice, payload(1), 100);
    store(&db, alice, payload(2), 100);
    assert_eq!(fetch(&db, b"alice").len(), 2);
    assert!(fetch(&db, b"alice").is_empty());
    store(&db, alice, payload(3), 100);
    {
        let txn = db.begin_read().unwrap();
        let seqno = txn.open_table(redb::TableDefinition::<&[u8], u64>::new(SEQNO)).unwrap();
        assert_eq!(seqno.get(alice.as_slice()).unwrap().unwrap().value(), 1);
        let vault = txn.open_table(redb::TableDefinition::<&[u8], &[u8]>::new(VAULT)).unwrap();
        let mut key = alice.to_vec();
        key.extend_from_slice(&1u64.to_be_bytes());
        assert!(vault.get(key.as_slice()).unwrap().is_some());
    }
    assert_eq!(fetch(&db, b"alice"), vec![payload(3)]);
}

#[test]
fn order_is_kept_among_stores_for_others() {
    let db = database();
    let alice = recipient_hash(b"alice");
    let bob = recipient_hash(b"bob");
    store(&db, alice, payload(1), TTL_SECONDS);
    store(&db, bob, payload(11), TTL_SECONDS);
    store(&db, alice, payload(2), 0);
    assert_eq!(store(&db, alice, vec![0; 3], 0), GlyphResponse::Error { code: 400 });
    store(&db, bob, payload(12), TTL_SECONDS);
    assert_eq!(fetch(&db, b"bob"), vec![payload(11), payload(12)]);
    store(&db, alice, payload(3), TTL_SECONDS);
    assert_eq!(prune(&db, TTL_SECONDS + 1), 1);
    store(&db, bob, payload(13), TTL_SECONDS);
    store(&db, alice, payload(4), TTL_SECONDS);
    assert_eq!(fetch(&db, b"alice"), vec![payload(1), payload(3), payload(4)]);
    assert_eq!(fetch(&db, b"bob"), vec![payload(13)]);
}

#[test]
fn mailboxes_are_separate() {
    let db = database();
    store(&db, recipient_hash(b"alice"), payload(1), 100);
    store(&db, recipient_hash(b"bob"), payload(2), 100);
    assert_eq!(fetch(&db, b"alice"), vec![payload(1)]);
    assert_eq!(fetch(&db, b"bob"), vec![payload(2)]);
    assert!(fetch(&db, b"carol").is_empty());
}

#[test]
fn full_mailbox_refuses() {
    let db = database();
    let alice = recipient_hash(b"alice");
    let txn = db.begin_write().unwrap();
    {
        let mut storage = RedbStorage::new(&txn).unwrap();
        for _ in 0..500 {
            assert_eq!(
                storage.vault_store(alice, payload(9), 7, 0, encode_entry).result.unwrap(),
                GlyphResponse::StoreAck { success: true }
            );
        }
        assert_eq!(
            storage.vault_store(alice, payload(9), 7, 0, encode_entry).result.unwrap(),
            GlyphResponse::Error { code: 507 }
        );
        assert_eq!(
            storage.vault_store(recipient_hash(b"bob"), payload(9), 7, 0, encode_entry).result.unwrap(),
            GlyphResponse::StoreAck { success: true }
        );
    }
    txn.commit().unwrap();
    assert_eq!(fetch(&db, b"alice").len(), 500);
    assert_eq!(store(&db, alice, payload(1), 8), GlyphResponse::StoreAck { success: true });
}

#[test]
fn aborted_fetch_delivers_again() {
    let db = database();
    store(&db, recipient_hash(b"alice"), payload(1), 100);
    let txn = db.begin_write().unwrap();
    {
        let mut storage = RedbStorage::new(&txn).unwrap();
        storage.vault_fetch(b"alice", decode_entry).unwrap();
    }
    txn.abort().unwrap();
    assert_eq!(fetch(&db, b"alice"), vec![payload(1)]);
}

#[test]
fn codec_failures_are_errors() {
    let db = database();
    let alice = recipient_hash(b"alice");
    store(&db, alice, payload(1), 100);
    let txn = db.begin_write().unwrap();
    let mut storage = RedbStorage::new(&txn).unwrap();
    assert!(matches!(
        storage.vault_store(alice, payload(2), 100, 0, |_: &VaultEntry| None).result,
        Err(VaultError::Encode)
    ));
    assert!(matches!(
        storage.vault_fetch(b"alice", |_: &Vec<u8>| None),
        Err(VaultError::Decode)
    ));
    assert!(matches!(
        storage.register_token(alice, [0; 32], vec![], 0, |_: &BlindedToken| None),
        Err(VaultError::Encode)
    ));
    assert!(matches!(
        storage.register_token(alice, [0; 32], vec![], 0, encode_token),
        Ok(GlyphResponse::RegisterTokenAck { success: true })
    ));
    assert!(matches!(
        storage.take_blinded_token(&alice, |_: &Vec<u8>| None),
        Err(VaultError::Decode)
    ));
    assert!(storage.take_blinded_token(&alice, decode_token).unwrap().is_some());
}

#[test]
fn failed_and_refused_operations_are_not_committed() {
    assert!(commits(&Ok(GlyphResponse::StoreAck { success: true })));
    assert!(commits(&Ok(GlyphResponse::FetchResult { payloads: vec![] })));
    assert!(commits(&Ok(GlyphResponse::RegisterTokenAck { success: true })));
    assert!(!commits(&Ok(GlyphResponse::Error { code: 507 })));
    assert!(!commits(&Err(VaultError::Encode)));
    assert!(!commits(&Err(VaultError::SequenceExhausted)));
    assert!(commits_work(&Ok(0u64)));
    assert!(commits_work::<Option<BlindedToken>>(&Ok(None)));
    assert!(!commits_work::<u64>(&Err(VaultError::Decode)));
}

#[test]
fn exhausted_sequence_numbers_are_an_error() {
    let db = database();
    let alice = recipient_hash(b"alice");
    let txn = db.begin_write().unwrap();
    {
        let mut seqno = txn.open_table(redb::TableDefinition::<&[u8], u64>::new(SEQNO)).unwrap();
        seqno.insert(alice.as_slice(), u64::MAX).unwrap();
    }
    let mut storage = RedbStorage::new(&txn).unwrap();
    assert!(matches!(
        storage.vault_store(alice, payload(1), 100, 0, encode_entry).result,
        Err(VaultError::SequenceExhausted)
    ));
}

#[test]
fn table_of_another_type_is_an_error() {
    let db = database();
    let txn = db.begin_write().unwrap();
    {
        txn.open_table(redb::TableDefinition::<u64, u64>::new(VAULT)).unwrap();
    }
    assert!(matches!(RedbStorage::new(&txn), Err(VaultError::Table(_))));
}

#[test]
fn failing_storage_is_an_error() {
    let broken = Arc::new(AtomicBool::new(false));
    let db = faulty_database(&broken, &Arc::new(AtomicUsize::new(0)));
    let alice = recipient_hash(b"alice");
    store(&db, alice, payload(1), 100);
    let txn = db.begin_write().unwrap();
    {
        let mut storage = RedbStorage::new(&txn).unwrap();
        broken.store(true, Ordering::SeqCst);
        assert!(matches!(storage.vault_fetch(b"alice", decode_entry), Err(VaultError::Read(_))));
        assert!(matches!(
            storage.vault_store(alice, payload(2), 100, 0, encode_entry).result,
            Err(VaultError::Read(_))
        ));
        assert!(matches!(storage.prune_vault(u64::MAX, decode_entry), Err(VaultError::Read(_))));
    }
    drop(txn);
    broken.store(false, Ordering::SeqCst);
}

/// A database whose reads fail once `broken` is set and `left` of them succeeded.
fn faulty_database(broken: &Arc<AtomicBool>, left: &Arc<AtomicUsize>) -> redb::Database {
    let memory = redb::backends::InMemoryBackend::new();
    let backend = Faulty { memory, broken: broken.clone(), left: left.clone() };
    redb::Database::builder().set_cache_size(0).create_with_backend(backend).unwrap()
}

#[test]
fn unreadable_envelopes_are_passed_over() {
    // Large envelopes take a page each, so that a scan reads many times.
    let mut passed_over = 0;
    for allowed in 0..12 {
        let broken = Arc::new(AtomicBool::new(false));
        let left = Arc::new(AtomicUsize::new(0));
        let db = faulty_database(&broken, &left);
        let alice = recipient_hash(b"alice");
        for tag in 0..8u8 {
            store(&db, alice, vec![tag; 5000], 100);
        }
        let txn = db.begin_write().unwrap();
        {
            let mut storage = RedbStorage::new(&txn).unwrap();
            left.store(allowed, Ordering::SeqCst);
            broken.store(true, Ordering::SeqCst);
            if let Ok(pruned) = storage.prune_vault(200, decode_entry) {
                assert_eq!(pruned.count, 0);
                if pruned.unread.len() == 1 {
                    passed_over += 1;
                }
            }
        }
        // Once a read has failed, the database commits nothing.
        if left.load(Ordering::SeqCst) == 0 {
            assert!(txn.commit().is_err());
        }
        broken.store(false, Ordering::SeqCst);
    }
    assert!(passed_over > 0);
}

#[test]
fn unreadable_envelopes_are_counted() {
    let mut counted = 0;
    for allowed in 0..12 {
        let broken = Arc::new(AtomicBool::new(false));
        let left = Arc::new(AtomicUsize::new(0));
        let db = faulty_database(&broken, &left);
        let alice = recipient_hash(b"alice");
        for tag in 0..8u8 {
            store(&db, alice, vec![tag; 5000], 100);
        }
        let txn = db.begin_write().unwrap();
        {
            let mut storage = RedbStorage::new(&txn).unwrap();
            left.store(allowed, Ordering::SeqCst);
            broken.store(true, Ordering::SeqCst);
            let outcome = storage.vault_store(alice, payload(1), 100, 0, encode_entry);
            if outcome.unread.len() == 1 {
                counted += 1;
                assert!(conclude_store(outcome).is_err());
            }
        }
        drop(txn);
        broken.store(false, Ordering::SeqCst);
    }
    assert!(counted > 0);
}

#[test]
fn store_after_a_failed_read_is_not_kept() {
    let ack = || Ok(GlyphResponse::StoreAck { success: true });
    let full = || Ok(GlyphResponse::Error { code: 507 });
    let fault = || vec![redb::StorageError::PreviousIo];
    assert!(conclude_store(StoreOutcome { result: ack(), unread: vec![] }).is_ok());
    assert!(matches!(
        conclude_store(StoreOutcome { result: ack(), unread: fault() }),
        Err(VaultError::Read(redb::StorageError::PreviousIo))
    ));
    assert!(matches!(
        conclude_store(StoreOutcome { result: full(), unread: fault() }),
        Ok(GlyphResponse::Error { code: 507 })
    ));
    assert!(matches!(
        conclude_store(StoreOutcome { result: Err(VaultError::Encode), unread: fault() }),
        Err(VaultError::Encode)
    ));
}

#[test]
fn failing_write_is_an_error() {
    let broken = Arc::new(AtomicBool::new(false));
    let db = faulty_database(&broken, &Arc::new(AtomicUsize::new(0)));
    let alice = recipient_hash(b"alice");
    let txn = db.begin_write().unwrap();
    {
        let mut storage = RedbStorage::new(&txn).unwrap();
        storage.register_token(alice, [1; 32], vec![1], 1, encode_token).unwrap();
    }
    txn.commit().unwrap();
    let txn = db.begin_write().unwrap();
    {
        let mut storage = RedbStorage::new(&txn).unwrap();
        broken.store(true, Ordering::SeqCst);
        assert!(matches!(
            storage.register_token(alice, [2; 32], vec![2], 2, encode_token),
            Err(VaultError::Write(_))
        ));
    }
    drop(txn);
    broken.store(false, Ordering::SeqCst);
}

#[test]
fn decisions() {
    assert!(!mailbox_is_full(499));
    assert!(mailbox_is_full(500));
    assert!(mailbox_is_full(501));
    assert_eq!(next_sequence_number(None), Some(1));
    assert_eq!(next_sequence_number(Some(0)), Some(1));
    assert_eq!(next_sequence_number(Some(41)), Some(42));
    assert_eq!(next_sequence_number(Some(u64::MAX)), None);
    assert!(is_expired(999, TTL_SECONDS + 1000));
    assert!(!is_expired(1000, TTL_SECONDS + 1000));
    assert!(!is_expired(0, 5));
}

#[test]
fn envelopes_are_opened_until_one_is_damaged() {
    let row = |tag: u8| Row {
        key: vec![tag],
        value: encode_entry(&VaultEntry { stored_at: 5, payload: payload(tag) }).unwrap(),
    };
    let damaged = Row { key: vec![9], value: vec![0xff] };
    assert_eq!(open_envelopes(&vec![], &decode_entry), Ok(vec![]));
    assert_eq!(open_envelopes(&vec![row(1), row(2)], &decode_entry), Ok(vec![payload(1), payload(2)]));
    assert_eq!(
        open_envelopes(&vec![row(1), damaged.clone(), damaged], &decode_entry),
        Err(1)
    );
}

#[test]
fn token_serves_once() {
    let db = database();
    let alice = recipient_hash(b"alice");
    let txn = db.begin_write().unwrap();
    let mut storage = RedbStorage::new(&txn).unwrap();
    assert!(matches!(storage.take_blinded_token(&alice, decode_token), Ok(None)));
    storage.register_token(alice, [1; 32], vec![1, 2, 3], 99, encode_token).unwrap();
    storage.register_token(alice, [2; 32], vec![4, 5, 6], 100, encode_token).unwrap();
    assert_eq!(
        storage.take_blinded_token(&alice, decode_token).unwrap(),
        Some(BlindedToken { blind_key: [2; 32], encrypted_token: vec![4, 5, 6], expiry: 100 })
    );
    assert!(matches!(storage.take_blinded_token(&alice, decode_token), Ok(None)));
}

#[test]
fn tokens_of_others_stay() {
    let db = database();
    let alice = recipient_hash(b"alice");
    let bob = recipient_hash(b"bob");
    let txn = db.begin_write().unwrap();
    let mut storage = RedbStorage::new(&txn).unwrap();
    storage.vault_store(alice, payload(1), 5, 0, encode_entry).result.unwrap();
    storage.register_token(alice, [1; 32], vec![1], 1, encode_token).unwrap();
    storage.register_token(bob, [2; 32], vec![2], 2, encode_token).unwrap();
    assert!(storage.take_blinded_token(&alice, decode_token).unwrap().is_some());
    assert_eq!(storage.take_blinded_token(&bob, decode_token).unwrap().unwrap().expiry, 2);
    assert_eq!(
        storage.vault_fetch(b"alice", decode_entry).unwrap(),
        GlyphResponse::FetchResult { payloads: vec![payload(1)] }
    );
}

#[test]
fn prune_deletes_what_is_older_than_thirty_days() {
    let db = database();
    let alice = recipient_hash(b"alice");
    let now = TTL_SECONDS + 1000;
    store(&db, alice, payload(1), 999);
    store(&db, alice, payload(2), 1000);
    store(&db, recipient_hash(b"bob"), payload(3), 0);
    store(&db, alice, payload(4), 1001);
    assert_eq!(prune(&db, now), 2);
    assert_eq!(prune(&db, now), 0);
    assert_eq!(fetch(&db, b"alice"), vec![payload(2), payload(4)]);
    assert!(fetch(&db, b"bob").is_empty());
}

#[test]
fn prune_before_the_first_thirty_days_deletes_nothing() {
    let db = database();
    store(&db, recipient_hash(b"alice"), payload(1), 0);
    assert_eq!(prune(&db, TTL_SECONDS - 1), 0);
    assert_eq!(prune(&db, TTL_SECONDS), 0);
    assert_eq!(prune(&db, TTL_SECONDS + 1), 1);
}

#[test]
fn prune_leaves_what_it_cannot_read() {
    let db = database();
    let alice = recipient_hash(b"alice");
    store(&db, alice, payload(1), 0);
    let txn = db.begin_write().unwrap();
    {
        let mut storage = RedbStorage::new(&txn).unwrap();
        assert_eq!(storage.prune_vault(u64::MAX, |_: &Vec<u8>| None).unwrap().count, 0);
    }
    txn.commit().unwrap();
    assert_eq!(fetch(&db, b"alice"), vec![payload(1)]);
}

#[test]
fn order_survives_a_prune() {
    let db = database();
    let alice = recipient_hash(b"alice");
    for tag in 1..=4u8 {
        store(&db, alice, payload(tag), tag as u64);
    }
    assert_eq!(prune(&db, TTL_SECONDS + 3), 2);
    store(&db, alice, payload(5), 10);
    assert_eq!(fetch(&db, b"alice"), vec![payload(3), payload(4), payload(5)]);
}
