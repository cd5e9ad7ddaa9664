//! The vault protocol's messages.

use vstd::prelude::*;

verus! {

/// What a peer asks of the vault. No request names its sender.
#[derive(Debug, Clone, PartialEq, Eq)]
pub enum GlyphRequest {
    /// Deposit an envelope for the holder of the key with this hash.
    Store { recipient_hash: [u8; 32], payload: Vec<u8> },
    /// Hand out all envelopes that wait for the caller.
    Fetch,
    /// Keep a push token with which to wake the holder of the key with this hash.
    RegisterToken { recipient_hash: [u8; 32], encrypted_token: Vec<u8>, expiry: u64 },
}

/// What the vault answers.
#[derive(Debug, Clone, PartialEq, Eq)]
pub enum GlyphResponse {
    StoreAck { success: bool },
    FetchResult { payloads: Vec<Vec<u8>> },
    RegisterTokenAck { success: bool },
    Error { code: u16 },
}

/// The envelope is too small to be one.
pub const MALFORMED: u16 = 400;

/// The caller's public key is not known.
pub const UNAUTHENTICATED: u16 = 403;

/// The envelope exceeds the size limit.
pub const TOO_LARGE: u16 = 413;

/// The caller has used up its requests for this window.
pub const RATE_LIMITED: u16 = 429;

/// Storage failed.
pub const INTERNAL_ERROR: u16 = 500;

/// The vault as a whole is at capacity.
pub const VAULT_AT_CAPACITY: u16 = 503;

/// The recipient's mailbox is full.
pub const MAILBOX_FULL: u16 = 507;

} // verus!
