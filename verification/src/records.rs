//! What the anchor remembers of addresses and peers, in concurrent hash maps.
//!
//! The maps are `dashmap::DashMap`s keyed by byte strings: the octets of an
//! address, or the bytes of a peer id. What a map holds is named by
//! [`ip_records`], [`vault_records`] and [`known_keys`]; the functions of this
//! module state what each map operation does to those contents. Operations that
//! change a map take it by unique reference, so that no guard into the map can
//! be held meanwhile and no call can block.

use dashmap::DashMap;
use vstd::prelude::*;

verus! {

/// The connections of one address.
#[derive(Debug, Clone, Copy, PartialEq, Eq, Structural)]
pub struct IpRecord {
    /// How many connections are open.
    pub active: u32,
    /// How many connections were attempted in the current window.
    pub rate_count: u32,
    /// When the current window began, in nanoseconds.
    pub window: u64,
}

/// The vault requests of one peer.
#[derive(Debug, Clone, Copy, PartialEq, Eq, Structural)]
pub struct VaultRateRecord {
    /// How many requests were made in the current window.
    pub ops: u32,
    /// When the current window began, in nanoseconds.
    pub window: u64,
}

/// How long a record without use is kept, in nanoseconds: five minutes.
pub const STALE_AFTER: u64 = 300000000000;

/// The time from `since` to `now`, or zero if the clock ran backwards.
pub open spec fn elapsed(since: u64, now: u64) -> int {
    if now >= since {
        now - since
    } else {
        0
    }
}

/// The time from `since` to `now`, or zero if the clock ran backwards.
pub fn time_since(since: u64, now: u64) -> (span: u64)
    ensures
        span == elapsed(since, now),
        now >= since ==> span == now - since,
        now < since ==> span == 0,
{
    now.saturating_sub(since)
}

impl IpRecord {
    /// Whether the record is still of use: connections are open, or it is recent.
    pub open spec fn in_use(self, now: u64) -> bool {
        self.active > 0 || elapsed(self.window, now) < STALE_AFTER
    }

    /// Whether the record is still of use: connections are open, or it is recent.
    pub fn is_in_use(&self, now: u64) -> (kept: bool)
        ensures
            kept == self.in_use(now),
            kept <==> self.active > 0 || now - self.window < 300_000_000_000,
    {
        self.active > 0 || time_since(self.window, now) < STALE_AFTER
    }
}

impl VaultRateRecord {
    /// Whether the record is still of use: it is recent.
    pub open spec fn in_use(self, now: u64) -> bool {
        elapsed(self.window, now) < STALE_AFTER
    }

    /// Whether the record is still of use: it is recent.
    pub fn is_in_use(&self, now: u64) -> (kept: bool)
        ensures
            kept == self.in_use(now),
            kept <==> now - self.window < 300_000_000_000,
    {
        time_since(self.window, now) < STALE_AFTER
    }
}

// ---------------------------------------------------------------------------
// The maps
// ---------------------------------------------------------------------------

/// A concurrent hash map.
#[verifier::external_type_specification]
#[verifier::external_body]
#[verifier::reject_recursive_types(K)]
#[verifier::reject_recursive_types(V)]
#[verifier::reject_recursive_types(S)]
pub struct ExDashMap<K, V, S>(dashmap::DashMap<K, V, S>);

/// The contents of a map of address records.
pub uninterp spec fn ip_records(map: DashMap<Vec<u8>, IpRecord>) -> Map<Seq<u8>, IpRecord>;

/// The contents of a map of peer records.
pub uninterp spec fn vault_records(map: DashMap<Vec<u8>, VaultRateRecord>) -> Map<Seq<u8>, VaultRateRecord>;

/// The contents of a map of public keys.
pub uninterp spec fn known_keys(map: DashMap<Vec<u8>, Vec<u8>>) -> Map<Seq<u8>, Seq<u8>>;

/// Calls `dashmap::DashMap::new`. Claims that the map is empty.
#[verifier::external_body]
pub(crate) fn new_ip_map() -> (created: DashMap<Vec<u8>, IpRecord>)
    ensures
        (ip_records(created) == Map::<Seq<u8>, IpRecord>::empty()),
{
    DashMap::new()
}

/// Calls `dashmap::DashMap::get` and copies what is found. Claims that it returns
/// the record of the key, or `None` where the key does not occur.
#[verifier::external_body]
pub(crate) fn ip_map_get(map: &DashMap<Vec<u8>, IpRecord>, key: &Vec<u8>) -> (found: Option<IpRecord>)
    ensures
        found is Some <==> ip_records(*map).contains_key(key@),
        found matches Some(record) ==> record == ip_records(*map)[key@],
{
    map.get(key).map(|record| *record)
}

/// Calls `dashmap::DashMap::insert`. Claims that the key is mapped to the record,
/// in place of an earlier one if there was one, and that nothing else changes.
#[verifier::external_body]
pub(crate) fn ip_map_insert(map: &mut DashMap<Vec<u8>, IpRecord>, key: Vec<u8>, record: IpRecord)
    ensures
        ip_records(*final(map)) == ip_records(*old(map)).insert(key@, record),
{
    map.insert(key, record);
}

/// Calls `dashmap::DashMap::retain` with `IpRecord::is_in_use`. Claims that the
/// records of which that holds stay as they are and that the others go.
#[verifier::external_body]
pub(crate) fn ip_map_retain(map: &mut DashMap<Vec<u8>, IpRecord>, now: u64)
    ensures
        ip_records(*final(map)) == ip_records(*old(map)).restrict(
            Set::new(|key: Seq<u8>| ip_records(*old(map))[key].in_use(now)),
        ),
{
    map.retain(|_, record| record.is_in_use(now));
}

/// Calls `dashmap::DashMap::new`. Claims that the map is empty.
#[verifier::external_body]
pub(crate) fn new_vault_map() -> (created: DashMap<Vec<u8>, VaultRateRecord>)
    ensures
        (vault_records(created) == Map::<Seq<u8>, VaultRateRecord>::empty()),
{
    DashMap::new()
}

/// Calls `dashmap::DashMap::get` and copies what is found. Claims that it returns
/// the record of the key, or `None` where the key does not occur.
#[verifier::external_body]
pub(crate) fn vault_map_get(
    map: &DashMap<Vec<u8>, VaultRateRecord>,
    key: &Vec<u8>,
) -> (found: Option<VaultRateRecord>)
    ensures
        found is Some <==> vault_records(*map).contains_key(key@),
        found matches Some(record) ==> record == vault_records(*map)[key@],
{
    map.get(key).map(|record| *record)
}

/// Calls `dashmap::DashMap::insert`. Claims that the key is mapped to the record,
/// in place of an earlier one if there was one, and that nothing else changes.
#[verifier::external_body]
pub(crate) fn vault_map_insert(
    map: &mut DashMap<Vec<u8>, VaultRateRecord>,
    key: Vec<u8>,
    record: VaultRateRecord,
)
    ensures
        vault_records(*final(map)) == vault_records(*old(map)).insert(key@, record),
{
    map.insert(key, record);
}

/// Calls `dashmap::DashMap::retain` with `VaultRateRecord::is_in_use`. Claims that
/// the records of which that holds stay as they are and that the others go.
#[verifier::external_body]
pub(crate) fn vault_map_retain(map: &mut DashMap<Vec<u8>, VaultRateRecord>, now: u64)
    ensures
        vault_records(*final(map)) == vault_records(*old(map)).restrict(
            Set::new(|key: Seq<u8>| vault_records(*old(map))[key].in_use(now)),
        ),
{
    map.retain(|_, record| record.is_in_use(now));
}

/// Calls `dashmap::DashMap::new`. Claims that the map is empty.
#[verifier::external_body]
pub(crate) fn new_key_map() -> (created: DashMap<Vec<u8>, Vec<u8>>)
    ensures
        (known_keys(created) == Map::<Seq<u8>, Seq<u8>>::empty()),
{
    DashMap::new()
}

/// Calls `dashmap::DashMap::get` and copies what is found. Claims that it returns
/// the public key of the peer, or `None` where the peer does not occur.
#[verifier::external_body]
pub(crate) fn key_map_get(map: &DashMap<Vec<u8>, Vec<u8>>, peer: &Vec<u8>) -> (found: Option<Vec<u8>>)
    ensures
        found is Some <==> known_keys(*map).contains_key(peer@),
        found matches Some(public_key) ==> public_key@ == known_keys(*map)[peer@],
{
    map.get(peer).map(|public_key| public_key.clone())
}

/// Calls `dashmap::DashMap::insert`. Claims that the peer is mapped to the public
/// key, in place of an earlier one if there was one, and that nothing else
/// changes.
#[verifier::external_body]
pub(crate) fn key_map_insert(map: &mut DashMap<Vec<u8>, Vec<u8>>, peer: Vec<u8>, public_key: Vec<u8>)
    ensures
        known_keys(*final(map)) == known_keys(*old(map)).insert(peer@, public_key@),
{
    map.insert(peer, public_key);
}

/// Calls `dashmap::DashMap::remove`. Claims that the peer is gone and that
/// nothing else changes.
#[verifier::external_body]
pub(crate) fn key_map_remove(map: &mut DashMap<Vec<u8>, Vec<u8>>, peer: &Vec<u8>)
    ensures
        known_keys(*final(map)) == known_keys(*old(map)).remove(peer@),
{
    map.remove(peer);
}

} // verus!
