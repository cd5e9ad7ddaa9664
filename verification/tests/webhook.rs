use glyph_anchor::crypto::xor_cipher;
use glyph_anchor::network::GlyphResponse;
use glyph_anchor::storage::BlindedToken;
use glyph_anchor::webhook::{
    begin_delivery, continue_delivery, token_to_send, wake_task, webhook_request, DeliveryStep,
};

fn secret() -> [u8; 32] {
    let mut secret = [0u8; 32];
    for i in 0..32 {
        secret[i] = i as u8;
    }
    secret
}

fn token() -> Option<BlindedToken> {
    Some(BlindedToken {
        blind_key: [0; 32],
        encrypted_token: xor_cipher(b"device-token-0001", &secret()),
        expiry: 0,
    })
}

#[test]
fn a_stored_envelope_wakes_its_recipient() {
    let ack = GlyphResponse::StoreAck { success: true };
    assert_eq!(wake_task([5; 32], &ack).unwrap().recipient_hash, [5; 32]);
    assert_eq!(wake_task([6; 32], &GlyphResponse::Error { code: 507 }).unwrap().recipient_hash, [6; 32]);
    for code in [400, 413, 500, 503] {
        assert!(wake_task([5; 32], &GlyphResponse::Error { code }).is_none());
    }
    assert!(wake_task([5; 32], &GlyphResponse::FetchResult { payloads: vec![] }).is_none());
    assert!(wake_task([5; 32], &GlyphResponse::RegisterTokenAck { success: true }).is_none());
}

#[test]
fn a_token_is_sent_decrypted_if_there_is_a_gateway() {
    let url = Some("https://push".to_string());
    assert_eq!(token_to_send(&token(), &url, &secret()), Some(b"device-token-0001".to_vec()));
    assert_eq!(token_to_send(&token(), &None, &secret()), None);
    assert_eq!(token_to_send(&None, &url, &secret()), None);
}

#[test]
fn request_is_the_signed_body() {
    let request = webhook_request(b"device-token-0001", &secret());
    assert_eq!(request.body, br#"{"notification":{},"token":"ZGV2aWNlLXRva2VuLTAwMDE="}"#.to_vec());
    assert_eq!(request.signature, "4565dd4a1b28031737388ef34c345d00b003b8bf8e6ac33513f679ccdf9427d8");
}

#[test]
fn request_for_an_empty_token() {
    let request = webhook_request(b"", &secret());
    assert_eq!(request.body, br#"{"notification":{},"token":""}"#.to_vec());
    assert_eq!(request.signature, "fc74d5562cb95276aea1fa2d893808db810872605c508517b9369e364e3fd0b0");
}

#[test]
fn delivery_is_tried_three_times() {
    assert_eq!(begin_delivery(), DeliveryStep::Send { attempt: 0, delay: 0 });
    assert_eq!(continue_delivery(0, false), DeliveryStep::Send { attempt: 1, delay: 5 });
    assert_eq!(continue_delivery(1, false), DeliveryStep::Send { attempt: 2, delay: 25 });
    assert_eq!(continue_delivery(2, false), DeliveryStep::GiveUp);
    assert_eq!(continue_delivery(u32::MAX, false), DeliveryStep::GiveUp);
}

#[test]
fn delivery_stops_at_the_first_success() {
    for attempt in 0..3 {
        assert_eq!(continue_delivery(attempt, true), DeliveryStep::Delivered);
    }
}
