//! Wake-up notifications: what is sent to the push gateway, and when.

use vstd::arithmetic::power::pow;
use vstd::prelude::*;
use crate::crypto::{
    ascii, base64_len, base64_text, decrypt_token, encode_base64, encode_hex, hex_text, hmac_sha256,
    hmac_sha256_code, is_base64_char, lemma_base64_text, xored,
};
use crate::network::{GlyphResponse, MAILBOX_FULL};
use crate::storage::{BlindedToken, WebhookTask};

verus! {

/// How often a notification is sent at most.
pub const MAX_ATTEMPTS: u32 = 3;

/// The name of the field that holds the push token.
pub const TOKEN_FIELD: &'static str = "token";

/// The name of the field that holds the notification, which is empty.
pub const NOTIFICATION_FIELD: &'static str = "notification";

/// How many bytes of a body are not the token.
pub const BODY_OVERHEAD: usize = 30;

// ---------------------------------------------------------------------------
// Whom to wake
// ---------------------------------------------------------------------------

/// The recipient to be woken after a store was carried out with this response:
/// the one it was for, if the envelope was stored, and also if the mailbox was
/// found full. An envelope that was refused before that wakes nobody.
pub fn wake_task(recipient_hash: [u8; 32], response: &GlyphResponse) -> (task: Option<WebhookTask>)
    ensures
        task is Some <==> (*response is StoreAck || *response == (GlyphResponse::Error { code: MAILBOX_FULL })),
        task matches Some(t) ==> t.recipient_hash@ == recipient_hash@,
        *response matches GlyphResponse::Error { code } ==> (task is Some <==> code == 507),
{
    match response {
        GlyphResponse::StoreAck { .. } => Some(WebhookTask { recipient_hash }),
        GlyphResponse::Error { code } => if *code == MAILBOX_FULL {
            Some(WebhookTask { recipient_hash })
        } else {
            None
        },
        _ => None,
    }
}

/// The raw push token to send for a recipient whose token was taken out of the
/// vault: there is one if a token was found and a gateway is configured.
pub fn token_to_send(
    token: &Option<BlindedToken>,
    webhook_url: &Option<String>,
    server_secret: &[u8; 32],
) -> (raw_token: Option<Vec<u8>>)
    ensures
        raw_token is Some <==> *token is Some && *webhook_url is Some,
        raw_token matches Some(raw) ==> raw@ == xored(token->0.encrypted_token@, server_secret@),
        raw_token matches Some(raw) ==> raw@.len() == token->0.encrypted_token@.len(),
        raw_token matches Some(raw) ==> forall|i: int|
            0 <= i < raw@.len() ==> #[trigger] raw@[i] == token->0.encrypted_token@[i] ^ server_secret@[i % 32],
{
    match (token, webhook_url) {
        (Some(token), Some(_)) => Some(decrypt_token(token.encrypted_token.as_slice(), server_secret)),
        _ => None,
    }
}

// ---------------------------------------------------------------------------
// What is sent
// ---------------------------------------------------------------------------

/// Whether JSON writes a character as it is: printable ASCII, other than a
/// quotation mark or a backslash.
pub open spec fn is_plain(c: char) -> bool {
    ' ' <= c <= '~' && c != '"' && c != '\\'
}

/// Whether JSON writes all of a text as it is.
pub open spec fn is_plain_text(text: Seq<char>) -> bool {
    forall|i: int| 0 <= i < text.len() ==> is_plain(#[trigger] text[i])
}

/// The JSON object with an empty object under one name and a text under another.
pub open spec fn json_object(empty_name: Seq<char>, text_name: Seq<char>, text: Seq<char>) -> Seq<char> {
    seq!['{', '"'] + empty_name + seq!['"', ':', '{', '}', ',', '"'] + text_name + seq!['"', ':', '"']
        + text + seq!['"', '}']
}

/// Serializes, with `serde_json::to_vec`, an object with an empty object under
/// one name and a text under another. Claims that the result is the compact
/// text, with the fields in the order of their names, which for these two
/// arguments is decided by the first characters. The characters are such that
/// none of them is escaped.
#[verifier::external_body]
fn object_bytes(empty_name: &str, text_name: &str, text: &str) -> (bytes: Vec<u8>)
    requires
        is_plain_text(empty_name@),
        is_plain_text(text_name@),
        is_plain_text(text@),
        empty_name@.len() > 0 && text_name@.len() > 0 && empty_name@[0] < text_name@[0],
        empty_name@.len() + text_name@.len() + text@.len() + 13 <= isize::MAX,
    ensures
        bytes@ == ascii(json_object(empty_name@, text_name@, text@)),
{
    let mut fields = serde_json::Map::new();
    fields.insert(text_name.to_string(), serde_json::Value::from(text));
    fields.insert(empty_name.to_string(), serde_json::Value::Object(serde_json::Map::new()));
    serde_json::to_vec(&serde_json::Value::Object(fields)).unwrap()
}

/// The body of a notification for a push token: the token in base64 and an empty
/// notification, nothing else.
pub open spec fn body_of(raw_token: Seq<u8>) -> Seq<u8> {
    ascii(json_object(NOTIFICATION_FIELD@, TOKEN_FIELD@, base64_text(raw_token)))
}

/// The signature of a body under the server secret, as text.
pub open spec fn signature_of(body: Seq<u8>, server_secret: Seq<u8>) -> Seq<char> {
    hex_text(hmac_sha256_code(server_secret, body))
}

/// A request to the push gateway.
#[derive(Debug, Clone, PartialEq, Eq)]
pub struct WebhookRequest {
    /// The JSON body.
    pub body: Vec<u8>,
    /// The hexadecimal HMAC-SHA256 of the body under the server secret.
    pub signature: String,
}

/// Makes the request that wakes the holder of a push token.
pub fn webhook_request(raw_token: &[u8], server_secret: &[u8; 32]) -> (request: WebhookRequest)
    requires
        base64_len(raw_token@.len()) + BODY_OVERHEAD <= isize::MAX,
    ensures
        request.body@ == body_of(raw_token@),
        request.signature@ == signature_of(body_of(raw_token@), server_secret@),
{
    let token = encode_base64(raw_token);
    proof {
        reveal_strlit("token");
        reveal_strlit("notification");
        lemma_base64_text(raw_token@);
        assert forall|i: int| 0 <= i < token@.len() implies is_plain(#[trigger] token@[i]) by {
            assert(is_base64_char(base64_text(raw_token@)[i]));
        }
    }
    let body = object_bytes(NOTIFICATION_FIELD, TOKEN_FIELD, token.as_str());
    let signature = encode_hex(&hmac_sha256(server_secret, body.as_slice()));
    WebhookRequest { body, signature }
}

// ---------------------------------------------------------------------------
// When it is sent
// ---------------------------------------------------------------------------

/// What to do next about a notification.
#[derive(Debug, Clone, Copy, PartialEq, Eq, Structural)]
pub enum DeliveryStep {
    /// Wait for `delay` seconds, then send it for the `attempt`-th time, counted
    /// from zero.
    Send { attempt: u32, delay: u64 },
    /// It was delivered.
    Delivered,
    /// It is given up.
    GiveUp,
}

/// The delay before an attempt, in seconds: none before the first, and a power
/// of five before each other.
pub open spec fn delay_before(attempt: u32) -> int {
    if attempt == 0 {
        0
    } else {
        pow(5, attempt as nat)
    }
}

/// What to do at first.
pub open spec fn first_step() -> DeliveryStep {
    DeliveryStep::Send { attempt: 0, delay: 0 }
}

/// What to do after an attempt.
pub open spec fn step_after(attempt: u32, success: bool) -> DeliveryStep {
    if success {
        DeliveryStep::Delivered
    } else if attempt + 1 < MAX_ATTEMPTS {
        DeliveryStep::Send { attempt: (attempt + 1) as u32, delay: delay_before((attempt + 1) as u32) as u64 }
    } else {
        DeliveryStep::GiveUp
    }
}

/// Begins to deliver a notification.
pub fn begin_delivery() -> (step: DeliveryStep)
    ensures
        step == first_step(),
        step == (DeliveryStep::Send { attempt: 0, delay: 0 }),
{
    DeliveryStep::Send { attempt: 0, delay: 0 }
}

/// Goes on after an attempt that was or was not successful.
pub fn continue_delivery(attempt: u32, success: bool) -> (step: DeliveryStep)
    ensures
        step == step_after(attempt, success),
{
    if success {
        return DeliveryStep::Delivered;
    }
    if attempt >= MAX_ATTEMPTS - 1 {
        return DeliveryStep::GiveUp;
    }
    let next: u32 = attempt + 1;
    let mut delay: u64 = 1;
    let mut i: u32 = 0;
    proof {
        reveal_with_fuel(pow, 2);
    }
    while i < next
        invariant
            i <= next < MAX_ATTEMPTS,
            delay == pow(5, i as nat),
            delay <= 25,
            i == 0 ==> delay == 1,
            i == 1 ==> delay == 5,
        decreases next - i,
    {
        proof {
            reveal_with_fuel(pow, 2);
        }
        delay = delay * 5;
        i = i + 1;
    }
    DeliveryStep::Send { attempt: next, delay }
}

/// How many times a notification is sent, from a step on, when the attempts turn
/// out as `outcomes`.
pub open spec fn times_sent(step: DeliveryStep, outcomes: Seq<bool>) -> nat
    decreases outcomes.len(),
{
    match step {
        DeliveryStep::Send { attempt, .. } => if outcomes.len() == 0 {
            0
        } else {
            1 + times_sent(step_after(attempt, outcomes[0]), outcomes.skip(1))
        },
        _ => 0,
    }
}

/// A notification is sent until an attempt succeeds, and at most three times.
pub proof fn law_delivery_stops(outcomes: Seq<bool>)
    requires
        outcomes.len() >= MAX_ATTEMPTS,
    ensures
        times_sent(first_step(), outcomes) == if outcomes[0] {
            1nat
        } else if outcomes[1] {
            2nat
        } else {
            3nat
        },
{
    reveal_with_fuel(times_sent, 4);
    let rest = outcomes.skip(1);
    assert(rest[0] == outcomes[1]);
    assert(rest.skip(1)[0] == outcomes[2]);
}

/// The delays before the second and the third attempt are 5 and 25 seconds.
pub proof fn law_delays()
    ensures
        step_after(0, false) == (DeliveryStep::Send { attempt: 1, delay: 5 }),
        step_after(1, false) == (DeliveryStep::Send { attempt: 2, delay: 25 }),
        forall|attempt: u32| attempt >= 2 ==> #[trigger] step_after(attempt, false) == DeliveryStep::GiveUp,
        forall|attempt: u32| #[trigger] step_after(attempt, true) == DeliveryStep::Delivered,
{
    reveal_with_fuel(pow, 3);
}

/// The body is one line of JSON with an empty notification and the token in base64,
/// and each of its characters is one byte. The signature is the hexadecimal
/// HMAC-SHA256 of all of the body, under the server secret.
pub proof fn law_what_is_sent(raw_token: Seq<u8>, server_secret: Seq<u8>, body: Seq<u8>, i: int)
    ensures
        ({
            let text = "{\"notification\":{},\"token\":\""@ + base64_text(raw_token) + "\"}"@;
            &&& body_of(raw_token).len() == text.len()
            &&& 0 <= i < text.len() ==> body_of(raw_token)[i] as int == text[i] as int
            &&& text.len() == base64_text(raw_token).len() + 30
        }),
        signature_of(body, server_secret) == hex_text(hmac_sha256_code(server_secret, body)),
{
    reveal_strlit("{\"notification\":{},\"token\":\"");
    reveal_strlit("\"}");
    reveal_strlit("token");
    reveal_strlit("notification");
    lemma_base64_text(raw_token);
    let text = "{\"notification\":{},\"token\":\""@ + base64_text(raw_token) + "\"}"@;
    assert(json_object(NOTIFICATION_FIELD@, TOKEN_FIELD@, base64_text(raw_token)) =~= text);
    assert forall|j: int| 0 <= j < text.len() implies (#[trigger] text[j] as int) < 128 by {
        if 28 <= j < 28 + base64_text(raw_token).len() {
            assert(is_base64_char(base64_text(raw_token)[j - 28]));
        }
    }
}

/// A notification is first sent at once, and three times at most.
pub proof fn law_numbers()
    ensures
        first_step() == (DeliveryStep::Send { attempt: 0, delay: 0 }),
        MAX_ATTEMPTS == 3,
        BODY_OVERHEAD == 30,
        MAILBOX_FULL == 507,
{
}

} // verus!
