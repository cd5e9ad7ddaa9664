use glyph_anchor::anchor::{extract_ip, respond, Action, AddressPart, Anchor, Endpoint, Event};
use glyph_anchor::crypto::{encode_hex, xor_cipher};
use glyph_anchor::network::{GlyphRequest, GlyphResponse};
use glyph_anchor::shield::IpAddr;

const SECOND: u64 = 1_000_000_000;

fn secret() -> [u8; 32] {
    let mut secret = [0u8; 32];
    for i in 0..32 {
        secret[i] = i as u8;
    }
    secret
}

fn from(last: u8) -> Endpoint {
    Endpoint::Listener { send_back_addr: vec![AddressPart::Ip4([10, 0, 0, last]), AddressPart::Other] }
}

fn established(peer: u8, last: u8) -> Event {
    Event::ConnectionEstablished { connection: peer as u64, peer: vec![peer], endpoint: from(last) }
}

fn closed(peer: u8) -> Event {
    Event::ConnectionClosed { connection: peer as u64, peer: vec![peer] }
}

fn fetch(peer: u8) -> Event {
    Event::Request { peer: vec![peer], request: GlyphRequest::Fetch }
}

fn identified(peer: u8, key: u8) -> Event {
    Event::Identified { peer: vec![peer], public_key: vec![key; 36] }
}

fn error(code: u16) -> Action {
    Action::Respond { response: GlyphResponse::Error { code } }
}

#[test]
fn ip_is_the_first_in_the_address() {
    assert_eq!(extract_ip(&from(7)), Some(IpAddr::V4([10, 0, 0, 7])));
    let dialed = Endpoint::Dialer {
        address: vec![AddressPart::Other, AddressPart::Ip6([3; 16]), AddressPart::Ip4([1; 4])],
    };
    assert_eq!(extract_ip(&dialed), Some(IpAddr::V6([3; 16])));
    assert_eq!(extract_ip(&Endpoint::Dialer { address: vec![AddressPart::Other] }), None);
    assert_eq!(extract_ip(&Endpoint::Listener { send_back_addr: vec![] }), None);
}

#[test]
fn connections_over_the_limit_are_closed() {
    let mut anchor = Anchor::new(secret());
    for peer in 0..20 {
        assert_eq!(anchor.handle(established(peer, 1), 0), Action::Nothing);
    }
    assert_eq!(anchor.handle(established(20, 1), 0), Action::Disconnect { peer: vec![20] });
    assert_eq!(anchor.handle(established(22, 2), 0), Action::Nothing);
    assert_eq!(anchor.handle(closed(3), 0), Action::Nothing);
    assert_eq!(anchor.handle(established(21, 1), 0), Action::Nothing);
}

#[test]
fn closing_a_refused_connection_makes_no_room() {
    let mut anchor = Anchor::new(secret());
    for peer in 0..20 {
        assert_eq!(anchor.handle(established(peer, 1), 0), Action::Nothing);
    }
    for peer in 20..25 {
        assert_eq!(anchor.handle(established(peer, 1), 0), Action::Disconnect { peer: vec![peer] });
        assert_eq!(anchor.handle(closed(peer), 0), Action::Nothing);
    }
    assert_eq!(anchor.handle(established(25, 1), 0), Action::Disconnect { peer: vec![25] });
    assert_eq!(anchor.handle(closed(0), 0), Action::Nothing);
    assert_eq!(anchor.handle(closed(0), 0), Action::Nothing);
    assert_eq!(anchor.handle(established(26, 1), 0), Action::Nothing);
    assert_eq!(anchor.handle(established(27, 1), 0), Action::Disconnect { peer: vec![27] });
}

#[test]
fn an_address_refused_for_its_rate_is_not_locked_out() {
    let mut anchor = Anchor::new(secret());
    for peer in 0..30 {
        assert_eq!(anchor.handle(established(peer, 1), 0), Action::Nothing);
        anchor.handle(closed(peer), 0);
    }
    assert_eq!(anchor.handle(established(30, 1), 0), Action::Disconnect { peer: vec![30] });
    anchor.handle(closed(30), 0);
    assert_eq!(anchor.handle(established(31, 1), 60 * SECOND), Action::Nothing);
}

#[test]
fn connections_without_an_ip_are_not_limited() {
    let mut anchor = Anchor::new(secret());
    for peer in 0..100 {
        let event = Event::ConnectionEstablished {
            connection: peer as u64,
            peer: vec![peer],
            endpoint: Endpoint::Listener { send_back_addr: vec![AddressPart::Other] },
        };
        assert_eq!(anchor.handle(event, 0), Action::Nothing);
    }
}

#[test]
fn fetch_needs_identification() {
    let mut anchor = Anchor::new(secret());
    assert_eq!(anchor.handle(fetch(1), 0), error(403));
    assert_eq!(anchor.handle(identified(2, 8), 0), Action::Nothing);
    assert_eq!(anchor.handle(fetch(1), 0), error(403));
    assert_eq!(anchor.handle(identified(1, 9), 0), Action::Nothing);
    assert_eq!(anchor.handle(fetch(1), 0), Action::Fetch { public_key: vec![9; 36] });
    assert_eq!(anchor.handle(identified(1, 10), 0), Action::Nothing);
    assert_eq!(anchor.handle(fetch(1), 0), Action::Fetch { public_key: vec![10; 36] });
    assert_eq!(anchor.handle(closed(1), 0), Action::Nothing);
    assert_eq!(anchor.handle(fetch(1), 0), error(403));
    assert_eq!(anchor.handle(fetch(2), 0), Action::Fetch { public_key: vec![8; 36] });
}

#[test]
fn requests_over_the_limit_do_nothing() {
    let mut anchor = Anchor::new(secret());
    let store = GlyphRequest::Store { recipient_hash: [4; 32], payload: vec![7; 40] };
    for _ in 0..15 {
        assert_eq!(
            anchor.handle(Event::Request { peer: vec![1], request: store.clone() }, 0),
            Action::Store { recipient_hash: [4; 32], payload: vec![7; 40] }
        );
    }
    assert_eq!(anchor.handle(Event::Request { peer: vec![1], request: store.clone() }, 0), error(429));
    assert_eq!(anchor.handle(fetch(1), 0), error(429));
    assert_eq!(anchor.shield().vault_rejects(), 2);
    assert_eq!(anchor.handle(fetch(1), 60 * SECOND), error(403));
    assert_eq!(anchor.shield().vault_rejects(), 2);
}

#[test]
fn store_does_not_depend_on_the_sender() {
    let mut anchor = Anchor::new(secret());
    let store = GlyphRequest::Store { recipient_hash: [4; 32], payload: vec![7; 40] };
    let one = anchor.handle(Event::Request { peer: vec![1], request: store.clone() }, 0);
    let other = anchor.handle(Event::Request { peer: vec![2], request: store }, 0);
    assert_eq!(one, other);
}

#[test]
fn tokens_are_blinded() {
    let mut anchor = Anchor::new(secret());
    let encrypted = xor_cipher(b"device-token-0001", &secret());
    let request = GlyphRequest::RegisterToken {
        recipient_hash: [4; 32],
        encrypted_token: encrypted.clone(),
        expiry: 77,
    };
    match anchor.handle(Event::Request { peer: vec![1], request }, 0) {
        Action::RegisterToken { recipient_hash, blind_key, encrypted_token, expiry } => {
            assert_eq!(recipient_hash, [4; 32]);
            assert_eq!(
                encode_hex(&blind_key),
                "b6fde68979f07add91c854cf86b07941a3523911833172a5fb4861dc9b5222fd"
            );
            assert_eq!(encrypted_token, encrypted);
            assert_eq!(expiry, 77);
        }
        other => panic!("{:?}", other),
    }
}

#[test]
fn denials_and_cleanup() {
    let mut anchor = Anchor::new(secret());
    assert_eq!(anchor.handle(Event::ReservationDenied, 0), Action::Nothing);
    assert_eq!(anchor.handle(Event::CircuitDenied, 0), Action::Nothing);
    assert_eq!(anchor.shield().relay_denials(), 1);
    assert_eq!(anchor.shield().circuit_denials(), 1);
    for peer in 0..20 {
        anchor.handle(established(peer, 1), 0);
    }
    assert_eq!(anchor.handle(Event::CleanupDue, 1000 * SECOND), Action::Nothing);
    assert_eq!(anchor.handle(established(99, 1), 1000 * SECOND), Action::Disconnect { peer: vec![99] });
}

#[test]
fn failures_are_answered_with_500() {
    assert_eq!(respond(None), GlyphResponse::Error { code: 500 });
    assert_eq!(
        respond(Some(GlyphResponse::StoreAck { success: true })),
        GlyphResponse::StoreAck { success: true }
    );
}
