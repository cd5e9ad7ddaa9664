use glyph_anchor::records::{time_since, IpRecord, VaultRateRecord, STALE_AFTER};
use glyph_anchor::shield::{normalize_ip, IpAddr, SybilShield, RATE_WINDOW};

const SECOND: u64 = 1_000_000_000;

fn v4(last: u8) -> IpAddr {
    IpAddr::V4([10, 0, 0, last])
}

fn v6(prefix: u8, host: u8) -> IpAddr {
    let mut octets = [0u8; 16];
    octets[0] = 0x20;
    octets[7] = prefix;
    octets[8] = host;
    octets[15] = host;
    IpAddr::V6(octets)
}

#[test]
fn windows_are_the_documented_ones() {
    assert_eq!(RATE_WINDOW, 60 * SECOND);
    assert_eq!(STALE_AFTER, 300 * SECOND);
}

#[test]
fn normalizing_clears_the_host_part() {
    assert_eq!(normalize_ip(v4(7)), v4(7));
    assert_eq!(normalize_ip(v6(1, 9)), v6(1, 0));
    assert_eq!(normalize_ip(normalize_ip(v6(1, 9))), v6(1, 0));
    assert_eq!(normalize_ip(v6(1, 9)), normalize_ip(v6(1, 200)));
    assert_ne!(normalize_ip(v6(1, 9)), normalize_ip(v6(2, 9)));
}

#[test]
fn time_does_not_run_backwards() {
    assert_eq!(time_since(5, 9), 4);
    assert_eq!(time_since(9, 5), 0);
}

#[test]
fn twenty_connections_may_be_open() {
    let mut shield = SybilShield::new();
    for _ in 0..20 {
        assert!(shield.check_and_register_connection(v4(1), 0));
    }
    assert!(!shield.check_and_register_connection(v4(1), 0));
    assert!(shield.check_and_register_connection(v4(2), 0));
    shield.deregister_connection(v4(1));
    assert!(shield.check_and_register_connection(v4(1), 0));
    assert!(!shield.check_and_register_connection(v4(1), 1000 * SECOND));
}

#[test]
fn thirty_connections_may_be_attempted_in_a_minute() {
    let mut shield = SybilShield::new();
    for _ in 0..30 {
        assert!(shield.check_and_register_connection(v4(1), 5));
        shield.deregister_connection(v4(1));
    }
    assert!(!shield.check_and_register_connection(v4(1), 5));
    assert!(!shield.check_and_register_connection(v4(1), 4 + 60 * SECOND));
    assert!(shield.check_and_register_connection(v4(1), 5 + 60 * SECOND));
}

#[test]
fn attempts_at_a_full_address_do_not_count() {
    let mut shield = SybilShield::new();
    for _ in 0..20 {
        assert!(shield.check_and_register_connection(v4(1), 0));
    }
    for _ in 0..100 {
        assert!(!shield.check_and_register_connection(v4(1), 0));
    }
    for _ in 0..10 {
        shield.deregister_connection(v4(1));
    }
    for _ in 0..10 {
        assert!(shield.check_and_register_connection(v4(1), 0));
    }
}

#[test]
fn addresses_of_a_prefix_share_a_record() {
    let mut shield = SybilShield::new();
    for host in 0..20 {
        assert!(shield.check_and_register_connection(v6(1, host), 0));
    }
    assert!(!shield.check_and_register_connection(v6(1, 99), 0));
    assert!(shield.check_and_register_connection(v6(2, 99), 0));
}

#[test]
fn closing_an_uncounted_connection_counts_nothing() {
    let mut shield = SybilShield::new();
    shield.deregister_connection(v4(1));
    assert!(shield.check_and_register_connection(v4(1), 0));
    shield.deregister_connection(v4(1));
    shield.deregister_connection(v4(1));
    for _ in 0..20 {
        assert!(shield.check_and_register_connection(v4(1), 0));
    }
    assert!(!shield.check_and_register_connection(v4(1), 0));
}

#[test]
fn a_refused_address_is_not_locked_out() {
    let mut shield = SybilShield::new();
    for _ in 0..30 {
        assert!(shield.check_and_register_connection(v4(1), 0));
        shield.deregister_connection(v4(1));
    }
    assert!(!shield.check_and_register_connection(v4(1), 0));
    shield.deregister_connection(v4(1));
    assert!(shield.check_and_register_connection(v4(1), 60 * SECOND));
}

#[test]
fn fifteen_vault_requests_may_be_made_in_a_minute() {
    let mut shield = SybilShield::new();
    let peer = vec![1, 2, 3];
    let other = vec![1, 2, 4];
    for _ in 0..15 {
        assert!(shield.check_vault_ratelimit(&peer, 7));
    }
    assert!(!shield.check_vault_ratelimit(&peer, 7));
    assert!(!shield.check_vault_ratelimit(&peer, 6 + 60 * SECOND));
    assert_eq!(shield.vault_rejects(), 2);
    assert!(shield.check_vault_ratelimit(&other, 7));
    assert!(shield.check_vault_ratelimit(&peer, 7 + 60 * SECOND));
    assert_eq!(shield.vault_rejects(), 2);
}

#[test]
fn cleanup_changes_no_verdict() {
    let mut shield = SybilShield::new();
    let peer = vec![9];
    for _ in 0..30 {
        shield.check_and_register_connection(v4(1), 0);
        shield.deregister_connection(v4(1));
    }
    for _ in 0..20 {
        shield.check_and_register_connection(v4(2), 0);
    }
    for _ in 0..15 {
        shield.check_vault_ratelimit(&peer, 0);
    }
    shield.cleanup_stale_records(59 * SECOND);
    assert!(!shield.check_and_register_connection(v4(1), 59 * SECOND));
    assert!(!shield.check_vault_ratelimit(&peer, 59 * SECOND));
    shield.cleanup_stale_records(400 * SECOND);
    assert!(shield.check_and_register_connection(v4(1), 400 * SECOND));
    assert!(!shield.check_and_register_connection(v4(2), 400 * SECOND));
    assert!(shield.check_vault_ratelimit(&peer, 400 * SECOND));
}

#[test]
fn cleanup_forgets_idle_addresses() {
    let mut shield = SybilShield::new();
    shield.check_and_register_connection(v4(1), 0);
    shield.deregister_connection(v4(1));
    shield.cleanup_stale_records(300 * SECOND);
    shield.deregister_connection(v4(1));
    assert!(shield.check_and_register_connection(v4(1), 300 * SECOND));
}

#[test]
fn records_in_use() {
    let open = IpRecord { active: 1, rate_count: 0, window: 0 };
    let idle = IpRecord { active: 0, rate_count: 9, window: 0 };
    let asked = VaultRateRecord { ops: 3, window: 0 };
    assert!(open.is_in_use(1000 * SECOND));
    assert!(idle.is_in_use(300 * SECOND - 1));
    assert!(!idle.is_in_use(300 * SECOND));
    assert!(asked.is_in_use(300 * SECOND - 1));
    assert!(!asked.is_in_use(300 * SECOND));
}

#[test]
fn denials_are_counted() {
    let mut shield = SybilShield::new();
    shield.increment_relay_denial();
    shield.increment_circuit_denial();
    shield.increment_circuit_denial();
    assert_eq!(shield.relay_denials(), 1);
    assert_eq!(shield.circuit_denials(), 2);
    assert_eq!(shield.vault_rejects(), 0);
}
