use glyph_anchor::startup::{
    backup_path, check_identity_file, generate_identity, jitter_from, load_keypair, startup_jitter, IdentityError,
    IDENTITY_LEN, IDENTITY_MODE, MAX_JITTER, PRUNE_INTERVAL,
};

#[test]
fn identity_file_must_be_private() {
    assert_eq!(check_identity_file(0o600, 64), Ok(()));
    assert_eq!(check_identity_file(0o100600, 64), Ok(()));
    assert_eq!(check_identity_file(0o400, 64), Ok(()));
    assert_eq!(check_identity_file(0o644, 64), Err(IdentityError::PermissionsTooOpen));
    assert_eq!(check_identity_file(0o620, 64), Err(IdentityError::PermissionsTooOpen));
    assert_eq!(check_identity_file(0o700, 64), Err(IdentityError::PermissionsTooOpen));
    assert_eq!(check_identity_file(0o644, 1), Err(IdentityError::PermissionsTooOpen));
}

#[test]
fn identity_file_must_have_64_bytes() {
    assert_eq!(check_identity_file(0o600, 63), Err(IdentityError::Corrupt));
    assert_eq!(check_identity_file(0o600, 65), Err(IdentityError::Corrupt));
    assert_eq!(check_identity_file(0o600, 0), Err(IdentityError::Corrupt));
}

#[test]
fn written_identity_is_trusted() {
    assert_eq!(check_identity_file(IDENTITY_MODE, IDENTITY_LEN), Ok(()));
}

#[test]
fn written_identity_is_read_back() {
    let keypair = libp2p::identity::ed25519::Keypair::generate();
    let loaded = load_keypair(IDENTITY_MODE, keypair.to_bytes().to_vec()).unwrap();
    assert_eq!(loaded.public(), libp2p::identity::PublicKey::from(keypair.public()));
}

#[test]
fn generated_identity_is_read_back() {
    let (keypair, bytes) = generate_identity();
    assert_eq!(bytes.len(), IDENTITY_LEN);
    let loaded = load_keypair(IDENTITY_MODE, bytes.clone()).unwrap();
    assert_eq!(loaded.public(), keypair.public());
    assert_eq!(loaded.public().to_peer_id(), keypair.public().to_peer_id());
    assert_ne!(generate_identity().1, bytes);
}

#[test]
fn identity_faults() {
    let bytes = libp2p::identity::ed25519::Keypair::generate().to_bytes().to_vec();
    assert_eq!(load_keypair(0o644, bytes.clone()).err(), Some(IdentityError::PermissionsTooOpen));
    assert_eq!(load_keypair(0o600, bytes[..63].to_vec()).err(), Some(IdentityError::Corrupt));
    assert_eq!(load_keypair(0o600, vec![0; 64]).err(), Some(IdentityError::NotAKeypair));
}

#[test]
fn backup_is_named_by_time() {
    assert_eq!(backup_path("vault.redb", 0), "vault.redb_corrupted_0");
    assert_eq!(backup_path("vault.redb", 1234567890), "vault.redb_corrupted_1234567890");
    assert_eq!(backup_path("", u64::MAX), "_corrupted_18446744073709551615");
}

#[test]
fn backups_do_not_collide() {
    assert_ne!(backup_path("v", 10), backup_path("v", 1));
    assert_ne!(backup_path("v", 10), backup_path("v", 11));
}

#[test]
fn schedule_is_the_documented_one() {
    assert_eq!(MAX_JITTER, 600);
    assert_eq!(PRUNE_INTERVAL, 60 * 60);
}

#[test]
fn jitter_is_under_ten_minutes() {
    assert_eq!(jitter_from(0), 0);
    assert_eq!(jitter_from(599), 599);
    assert_eq!(jitter_from(600), 0);
    assert_eq!(jitter_from(u64::MAX), 15);
    for _ in 0..100 {
        assert!(startup_jitter() < 600);
    }
}
