//! The Sybil shield: limits on connections per address and on vault requests per
//! peer.

use dashmap::DashMap;
use vstd::prelude::*;
use crate::records::{
    elapsed, ip_map_get, ip_map_insert, ip_map_retain, ip_records, new_ip_map, new_vault_map,
    time_since, vault_map_get, vault_map_insert, vault_map_retain, vault_records, IpRecord,
    VaultRateRecord, STALE_AFTER,
};

verus! {

/// How many connections one address may have open.
pub const MAX_CONNECTIONS_PER_IP: u32 = 20;

/// How many connections one address may attempt in a window.
pub const MAX_NEW_CONNECTIONS_PER_MIN: u32 = 30;

/// How many vault requests one peer may make in a window.
pub const MAX_VAULT_OPS_PER_PEER_PER_MIN: u32 = 15;

/// The length of a window, in nanoseconds: one minute.
pub const RATE_WINDOW: u64 = 60000000000;

/// An IP address, by its octets.
#[derive(Debug, Clone, Copy, PartialEq, Eq)]
pub enum IpAddr {
    V4([u8; 4]),
    V6([u8; 16]),
}

// ---------------------------------------------------------------------------
// Addresses
// ---------------------------------------------------------------------------

/// The octets of an address.
pub open spec fn octets_of(ip: IpAddr) -> Seq<u8> {
    match ip {
        IpAddr::V4(octets) => octets@,
        IpAddr::V6(octets) => octets@,
    }
}

/// The octets by which an address is grouped with others: all of an IPv4
/// address, the first eight of an IPv6 address followed by zeros.
pub open spec fn group_of(ip: IpAddr) -> Seq<u8> {
    match ip {
        IpAddr::V4(octets) => octets@,
        IpAddr::V6(octets) => Seq::new(
            16,
            |i: int|
                if i < 8 {
                    octets@[i]
                } else {
                    0
                },
        ),
    }
}

/// The address that stands for all of its group: an IPv4 address for itself, an
/// IPv6 address for its /64 prefix, with the host part zero.
pub fn normalize_ip(ip: IpAddr) -> (normal: IpAddr)
    ensures
        normal is V4 <==> ip is V4,
        octets_of(normal) == group_of(ip),
        ip matches IpAddr::V4(octets) ==> normal == ip,
        ip matches IpAddr::V6(octets) ==> {
            &&& normal matches IpAddr::V6(zeroed)
            &&& zeroed@.len() == 16
            &&& forall|i: int| 0 <= i < 8 ==> #[trigger] zeroed@[i] == octets@[i]
            &&& forall|i: int| 8 <= i < 16 ==> #[trigger] zeroed@[i] == 0
        },
{
    match ip {
        IpAddr::V4(octets) => IpAddr::V4(octets),
        IpAddr::V6(octets) => {
            let mut normal = octets;
            let mut i: usize = 8;
            while i < 16
                invariant
                    8 <= i <= 16,
                    normal@.len() == 16,
                    forall|j: int| 0 <= j < 8 ==> normal@[j] == octets@[j],
                    forall|j: int| 8 <= j < i ==> normal@[j] == 0,
                decreases 16 - i,
            {
                normal[i] = 0;
                i = i + 1;
            }
            assert(normal@ =~= group_of(ip));
            IpAddr::V6(normal)
        },
    }
}

/// The key under which the record of an address's group is kept.
fn group_key(ip: IpAddr) -> (key: Vec<u8>)
    ensures
        key@ == group_of(ip),
{
    let mut key: Vec<u8> = Vec::new();
    match normalize_ip(ip) {
        IpAddr::V4(octets) => key.extend_from_slice(octets.as_slice()),
        IpAddr::V6(octets) => key.extend_from_slice(octets.as_slice()),
    }
    assert(key@ =~= group_of(ip));
    key
}

// ---------------------------------------------------------------------------
// Records
// ---------------------------------------------------------------------------

/// `count` and one more, staying at the end of the range.
pub open spec fn one_more(count: u32) -> u32 {
    if count == u32::MAX {
        u32::MAX
    } else {
        (count + 1) as u32
    }
}

/// `count` and one less, staying at zero.
pub open spec fn one_less(count: u32) -> u32 {
    if count == 0 {
        0
    } else {
        (count - 1) as u32
    }
}

impl IpRecord {
    /// The record of an address that is first seen now.
    pub open spec fn fresh(now: u64) -> IpRecord {
        IpRecord { active: 0, rate_count: 0, window: now }
    }

    /// The record with a new window begun, if the current one is over.
    pub open spec fn in_window(self, now: u64) -> IpRecord {
        if elapsed(self.window, now) >= RATE_WINDOW {
            IpRecord { rate_count: 0, window: now, ..self }
        } else {
            self
        }
    }

    /// Whether a connection is let in.
    pub open spec fn admits(self, now: u64) -> bool {
        self.active < MAX_CONNECTIONS_PER_IP && self.in_window(now).rate_count
            < MAX_NEW_CONNECTIONS_PER_MIN
    }

    /// The record after a connection was attempted. An attempt counts unless it
    /// fails for the number of open connections.
    pub open spec fn attempted(self, now: u64) -> IpRecord {
        if self.active >= MAX_CONNECTIONS_PER_IP {
            self
        } else {
            IpRecord {
                active: if self.admits(now) {
                    one_more(self.active)
                } else {
                    self.active
                },
                rate_count: one_more(self.in_window(now).rate_count),
                window: self.in_window(now).window,
            }
        }
    }

    /// The record after a connection was closed.
    pub open spec fn closed_one(self) -> IpRecord {
        IpRecord { active: one_less(self.active), ..self }
    }

    /// Counts an attempt at a connection and says whether it is let in.
    fn attempt(self, now: u64) -> (result: (IpRecord, bool))
        ensures
            result.0 == self.attempted(now),
            result.1 == self.admits(now),
            result.1 <==> self.active < 20 && (self.rate_count < 30 || now - self.window >= 60_000_000_000),
    {
        if self.active >= MAX_CONNECTIONS_PER_IP {
            return (self, false);
        }
        let mut record = self;
        if time_since(record.window, now) >= RATE_WINDOW {
            record.rate_count = 0;
            record.window = now;
        }
        let rate: u32 = record.rate_count;
        record.rate_count = rate.saturating_add(1);
        if rate >= MAX_NEW_CONNECTIONS_PER_MIN {
            return (record, false);
        }
        record.active = record.active.saturating_add(1);
        (record, true)
    }
}

impl VaultRateRecord {
    /// The record of a peer that is first seen now.
    pub open spec fn fresh(now: u64) -> VaultRateRecord {
        VaultRateRecord { ops: 0, window: now }
    }

    /// The record with a new window begun, if the current one is over.
    pub open spec fn in_window(self, now: u64) -> VaultRateRecord {
        if elapsed(self.window, now) >= RATE_WINDOW {
            VaultRateRecord { ops: 0, window: now }
        } else {
            self
        }
    }

    /// Whether a request is let in.
    pub open spec fn admits(self, now: u64) -> bool {
        self.in_window(now).ops < MAX_VAULT_OPS_PER_PEER_PER_MIN
    }

    /// The record after a request was made.
    pub open spec fn attempted(self, now: u64) -> VaultRateRecord {
        VaultRateRecord { ops: one_more(self.in_window(now).ops), window: self.in_window(now).window }
    }

    /// Counts a request and says whether it is let in.
    fn attempt(self, now: u64) -> (result: (VaultRateRecord, bool))
        ensures
            result.0 == self.attempted(now),
            result.1 == self.admits(now),
            result.1 <==> self.ops < 15 || now - self.window >= 60_000_000_000,
    {
        let mut record = self;
        if time_since(record.window, now) >= RATE_WINDOW {
            record.ops = 0;
            record.window = now;
        }
        let total: u32 = record.ops;
        record.ops = total.saturating_add(1);
        (record, total < MAX_VAULT_OPS_PER_PEER_PER_MIN)
    }
}

// ---------------------------------------------------------------------------
// Model
// ---------------------------------------------------------------------------

/// What the shield remembers.
#[verifier::ext_equal]
pub struct ShieldState {
    /// The records of address groups, by their octets.
    pub ips: Map<Seq<u8>, IpRecord>,
    /// The records of peers, by the bytes of their ids.
    pub peers: Map<Seq<u8>, VaultRateRecord>,
    /// How many relay reservations were denied.
    pub relay_denials: u64,
    /// How many relay circuits were denied.
    pub circuit_denials: u64,
    /// How many vault requests were refused for their rate.
    pub vault_rejects: u64,
}

/// A counter and one more, staying at the end of the range.
pub open spec fn counted(count: u64) -> u64 {
    if count == u64::MAX {
        u64::MAX
    } else {
        (count + 1) as u64
    }
}

impl ShieldState {
    /// A shield that has seen nothing.
    pub open spec fn empty() -> ShieldState {
        ShieldState {
            ips: Map::empty(),
            peers: Map::empty(),
            relay_denials: 0,
            circuit_denials: 0,
            vault_rejects: 0,
        }
    }

    /// The record of an address group, new if there is none.
    pub open spec fn ip_record(self, group: Seq<u8>, now: u64) -> IpRecord {
        if self.ips.contains_key(group) {
            self.ips[group]
        } else {
            IpRecord::fresh(now)
        }
    }

    /// The record of a peer, new if there is none.
    pub open spec fn peer_record(self, peer: Seq<u8>, now: u64) -> VaultRateRecord {
        if self.peers.contains_key(peer) {
            self.peers[peer]
        } else {
            VaultRateRecord::fresh(now)
        }
    }

    /// Whether a connection from an address of this group is let in.
    pub open spec fn admits(self, group: Seq<u8>, now: u64) -> bool {
        self.ip_record(group, now).admits(now)
    }

    /// After an attempt at a connection from an address of this group.
    pub open spec fn connected(self, group: Seq<u8>, now: u64) -> ShieldState {
        ShieldState { ips: self.ips.insert(group, self.ip_record(group, now).attempted(now)), ..self }
    }

    /// After a connection from an address of this group was closed.
    pub open spec fn disconnected(self, group: Seq<u8>) -> ShieldState {
        if self.ips.contains_key(group) {
            ShieldState { ips: self.ips.insert(group, self.ips[group].closed_one()), ..self }
        } else {
            self
        }
    }

    /// Whether a vault request of this peer is let in.
    pub open spec fn serves(self, peer: Seq<u8>, now: u64) -> bool {
        self.peer_record(peer, now).admits(now)
    }

    /// After a vault request of this peer.
    pub open spec fn asked(self, peer: Seq<u8>, now: u64) -> ShieldState {
        ShieldState {
            peers: self.peers.insert(peer, self.peer_record(peer, now).attempted(now)),
            vault_rejects: if self.serves(peer, now) {
                self.vault_rejects
            } else {
                counted(self.vault_rejects)
            },
            ..self
        }
    }

    /// Without the records that are no longer of use.
    pub open spec fn cleaned(self, now: u64) -> ShieldState {
        ShieldState {
            ips: self.ips.restrict(Set::new(|group: Seq<u8>| self.ips[group].in_use(now))),
            peers: self.peers.restrict(Set::new(|peer: Seq<u8>| self.peers[peer].in_use(now))),
            ..self
        }
    }
}

// ---------------------------------------------------------------------------
// The shield
// ---------------------------------------------------------------------------

/// Limits on connections per address and on vault requests per peer.
pub struct SybilShield {
    ip_connections: DashMap<Vec<u8>, IpRecord>,
    peer_vault_ops: DashMap<Vec<u8>, VaultRateRecord>,
    relay_denials: u64,
    circuit_denials: u64,
    vault_rejects: u64,
}

impl View for SybilShield {
    type V = ShieldState;

    closed spec fn view(&self) -> ShieldState {
        ShieldState {
            ips: ip_records(self.ip_connections),
            peers: vault_records(self.peer_vault_ops),
            relay_denials: self.relay_denials,
            circuit_denials: self.circuit_denials,
            vault_rejects: self.vault_rejects,
        }
    }
}

impl SybilShield {
    /// A shield that has seen nothing.
    pub fn new() -> (shield: SybilShield)
        ensures
            shield@ == ShieldState::empty(),
    {
        SybilShield {
            ip_connections: new_ip_map(),
            peer_vault_ops: new_vault_map(),
            relay_denials: 0,
            circuit_denials: 0,
            vault_rejects: 0,
        }
    }

    /// Counts an attempt at a connection and says whether it is let in.
    ///
    /// `now` is the time on a steady clock, in nanoseconds.
    pub fn check_and_register_connection(&mut self, raw_ip: IpAddr, now: u64) -> (allowed: bool)
        ensures
            allowed == old(self)@.admits(group_of(raw_ip), now),
            final(self)@ == old(self)@.connected(group_of(raw_ip), now),
            old(self)@.ips.contains_key(group_of(raw_ip)) ==> {
                let record = old(self)@.ips[group_of(raw_ip)];
                allowed <==> record.active < 20 && (record.rate_count < 30 || now - record.window
                    >= 60_000_000_000)
            },
            !old(self)@.ips.contains_key(group_of(raw_ip)) ==> allowed,
    {
        let key = group_key(raw_ip);
        let record = match ip_map_get(&self.ip_connections, &key) {
            Some(record) => record,
            None => IpRecord { active: 0, rate_count: 0, window: now },
        };
        let (record, allowed) = record.attempt(now);
        ip_map_insert(&mut self.ip_connections, key, record);
        assert(self@ =~= old(self)@.connected(group_of(raw_ip), now));
        allowed
    }

    /// Counts the end of a connection that had been let in.
    ///
    /// The count of open connections never rises, and stays at zero where nothing
    /// is counted.
    pub fn deregister_connection(&mut self, raw_ip: IpAddr)
        ensures
            final(self)@ == old(self)@.disconnected(group_of(raw_ip)),
            forall|group: Seq<u8>| #[trigger]
                old(self)@.ips.contains_key(group) ==> final(self)@.ips[group].active
                    <= old(self)@.ips[group].active,
            old(self)@.ips[group_of(raw_ip)].active == 0 ==> final(self)@.ips[group_of(raw_ip)].active == 0,
    {
        let key = group_key(raw_ip);
        if let Some(record) = ip_map_get(&self.ip_connections, &key) {
            let active: u32 = record.active.saturating_sub(1);
            ip_map_insert(&mut self.ip_connections, key, IpRecord { active, ..record });
        }
        assert(self@ =~= old(self)@.disconnected(group_of(raw_ip)));
    }

    /// Counts a vault request and says whether it is let in.
    ///
    /// `peer` is the peer's id in bytes, `now` the time on a steady clock, in
    /// nanoseconds.
    pub fn check_vault_ratelimit(&mut self, peer: &Vec<u8>, now: u64) -> (allowed: bool)
        ensures
            allowed == old(self)@.serves(peer@, now),
            final(self)@ == old(self)@.asked(peer@, now),
            old(self)@.peers.contains_key(peer@) ==> {
                let record = old(self)@.peers[peer@];
                allowed <==> record.ops < 15 || now - record.window >= 60_000_000_000
            },
            !old(self)@.peers.contains_key(peer@) ==> allowed,
    {
        let record = match vault_map_get(&self.peer_vault_ops, peer) {
            Some(record) => record,
            None => VaultRateRecord { ops: 0, window: now },
        };
        let (record, allowed) = record.attempt(now);
        vault_map_insert(&mut self.peer_vault_ops, peer.clone(), record);
        if !allowed {
            self.vault_rejects = self.vault_rejects.saturating_add(1);
        }
        assert(self@ =~= old(self)@.asked(peer@, now));
        allowed
    }

    /// Forgets the records that are no longer of use.
    pub fn cleanup_stale_records(&mut self, now: u64)
        ensures
            final(self)@ == old(self)@.cleaned(now),
    {
        ip_map_retain(&mut self.ip_connections, now);
        vault_map_retain(&mut self.peer_vault_ops, now);
        assert(self@ =~= old(self)@.cleaned(now));
    }

    /// Counts a denied relay reservation.
    pub fn increment_relay_denial(&mut self)
        ensures
            final(self)@ == (ShieldState { relay_denials: counted(old(self)@.relay_denials), ..old(self)@ }),
    {
        self.relay_denials = self.relay_denials.saturating_add(1);
    }

    /// Counts a denied relay circuit.
    pub fn increment_circuit_denial(&mut self)
        ensures
            final(self)@ == (ShieldState { circuit_denials: counted(old(self)@.circuit_denials), ..old(self)@ }),
    {
        self.circuit_denials = self.circuit_denials.saturating_add(1);
    }

    /// How many relay reservations were denied.
    pub fn relay_denials(&self) -> (count: u64)
        ensures
            count == self@.relay_denials,
    {
        self.relay_denials
    }

    /// How many relay circuits were denied.
    pub fn circuit_denials(&self) -> (count: u64)
        ensures
            count == self@.circuit_denials,
    {
        self.circuit_denials
    }

    /// How many vault requests were refused for their rate.
    pub fn vault_rejects(&self) -> (count: u64)
        ensures
            count == self@.vault_rejects,
    {
        self.vault_rejects
    }
}

} // verus!
