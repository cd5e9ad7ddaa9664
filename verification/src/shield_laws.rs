//! What holds of the shield across calls.

use vstd::prelude::*;
use crate::records::{elapsed, IpRecord, VaultRateRecord, STALE_AFTER};
use crate::shield::{
    counted, group_of, octets_of, IpAddr, ShieldState, MAX_CONNECTIONS_PER_IP, MAX_NEW_CONNECTIONS_PER_MIN,
    MAX_VAULT_OPS_PER_PEER_PER_MIN, RATE_WINDOW,
};

verus! {

// ---------------------------------------------------------------------------
// Addresses
// ---------------------------------------------------------------------------

/// Addresses share a record exactly if they are the same IPv4 address, or IPv6
/// addresses with the same first eight octets.
pub proof fn law_groups_are_addresses_or_prefixes(a: IpAddr, b: IpAddr)
    ensures
        group_of(a) == group_of(b) <==> match (a, b) {
            (IpAddr::V4(x), IpAddr::V4(y)) => x@ == y@,
            (IpAddr::V6(x), IpAddr::V6(y)) => x@.take(8) == y@.take(8),
            _ => false,
        },
{
    match (a, b) {
        (IpAddr::V4(x), IpAddr::V6(y)) => {
            assert(x@.len() == 4 && group_of(b).len() == 16);
        },
        (IpAddr::V6(x), IpAddr::V4(y)) => {
            assert(y@.len() == 4 && group_of(a).len() == 16);
        },
        (IpAddr::V6(x), IpAddr::V6(y)) => {
            if x@.take(8) == y@.take(8) {
                assert forall|i: int| 0 <= i < 16 implies group_of(a)[i] == group_of(b)[i] by {
                    if i < 8 {
                        assert(x@.take(8)[i] == y@.take(8)[i]);
                    }
                }
                assert(group_of(a) =~= group_of(b));
            }
            if group_of(a) == group_of(b) {
                assert forall|i: int| 0 <= i < 8 implies x@[i] == y@[i] by {
                    assert(group_of(a)[i] == group_of(b)[i]);
                }
                assert(x@.take(8) =~= y@.take(8));
            }
        },
        _ => {},
    }
}

/// Normalizing an address that was normalized changes nothing: whatever stands
/// for a group is in it, and stands for itself.
pub proof fn law_normalizing_is_idempotent(ip: IpAddr, normal: IpAddr)
    requires
        normal is V4 <==> ip is V4,
        octets_of(normal) == group_of(ip),
    ensures
        group_of(normal) == group_of(ip),
{
    if let IpAddr::V6(octets) = normal {
        assert forall|i: int| 0 <= i < 16 implies group_of(normal)[i] == group_of(ip)[i] by {
            assert(octets@[i] == group_of(ip)[i]);
        }
        assert(group_of(normal) =~= group_of(ip));
    }
}

// ---------------------------------------------------------------------------
// Single calls
// ---------------------------------------------------------------------------

/// A connection that was let in and then closed leaves the number of open
/// connections as it was.
pub proof fn law_open_and_close_cancel(shield: ShieldState, group: Seq<u8>, now: u64)
    requires
        shield.admits(group, now),
    ensures
        shield.connected(group, now).disconnected(group).ips[group].active == shield.ip_record(group, now).active,
{
}

/// No attempt brings the number of open connections above the limit.
pub proof fn law_connections_stay_within_limit(shield: ShieldState, group: Seq<u8>, now: u64)
    requires
        shield.ip_record(group, now).active <= MAX_CONNECTIONS_PER_IP,
    ensures
        shield.connected(group, now).ips[group].active <= MAX_CONNECTIONS_PER_IP,
        shield.ip_record(group, now).active == MAX_CONNECTIONS_PER_IP ==> !shield.admits(group, now)
            && shield.connected(group, now).ips[group] == shield.ip_record(group, now),
{
}

/// What one address does changes no verdict on another, nor on any peer's vault
/// requests; and what a peer asks changes no verdict on another peer, nor on any
/// address.
pub proof fn law_verdicts_are_independent(
    shield: ShieldState,
    group: Seq<u8>,
    other_group: Seq<u8>,
    peer: Seq<u8>,
    other_peer: Seq<u8>,
    now: u64,
    later: u64,
)
    requires
        group != other_group,
        peer != other_peer,
    ensures
        shield.connected(group, now).admits(other_group, later) == shield.admits(other_group, later),
        shield.connected(group, now).serves(peer, later) == shield.serves(peer, later),
        shield.disconnected(group).admits(other_group, later) == shield.admits(other_group, later),
        shield.disconnected(group).serves(peer, later) == shield.serves(peer, later),
        shield.asked(peer, now).serves(other_peer, later) == shield.serves(other_peer, later),
        shield.asked(peer, now).admits(group, later) == shield.admits(group, later),
{
}

/// Cleaning up changes no later verdict on a connection or a vault request, nor
/// what is remembered after it, and it keeps every record with an open
/// connection.
pub proof fn law_cleanup_changes_no_verdict(
    shield: ShieldState,
    group: Seq<u8>,
    peer: Seq<u8>,
    now: u64,
    later: u64,
)
    requires
        now <= later,
    ensures
        shield.cleaned(now).admits(group, later) == shield.admits(group, later),
        shield.cleaned(now).connected(group, later).ips[group] == shield.connected(group, later).ips[group],
        shield.cleaned(now).serves(peer, later) == shield.serves(peer, later),
        shield.cleaned(now).asked(peer, later).peers[peer] == shield.asked(peer, later).peers[peer],
        shield.ips.contains_key(group) && shield.ips[group].active > 0 ==> shield.cleaned(
            now,
        ).ips.contains_key(group) && shield.cleaned(now).ips[group] == shield.ips[group],
{
}

// ---------------------------------------------------------------------------
// Runs of calls
// ---------------------------------------------------------------------------

/// A call of the shield.
pub enum ShieldCall {
    Connect { group: Seq<u8>, now: u64 },
    Disconnect { group: Seq<u8> },
    Ask { peer: Seq<u8>, now: u64 },
    Clean { now: u64 },
}

/// The shield after a call.
pub open spec fn after(shield: ShieldState, call: ShieldCall) -> ShieldState {
    match call {
        ShieldCall::Connect { group, now } => shield.connected(group, now),
        ShieldCall::Disconnect { group } => shield.disconnected(group),
        ShieldCall::Ask { peer, now } => shield.asked(peer, now),
        ShieldCall::Clean { now } => shield.cleaned(now),
    }
}

/// Whether a call is made in the window that began at `start`.
pub open spec fn made_in_window(call: ShieldCall, start: u64) -> bool {
    match call {
        ShieldCall::Connect { now, .. } => elapsed(start, now) < RATE_WINDOW,
        ShieldCall::Ask { now, .. } => elapsed(start, now) < RATE_WINDOW,
        ShieldCall::Clean { now } => elapsed(start, now) < RATE_WINDOW,
        ShieldCall::Disconnect { .. } => true,
    }
}

/// How many connections from `group` a run of calls lets in.
pub open spec fn connections_let_in(shield: ShieldState, calls: Seq<ShieldCall>, group: Seq<u8>) -> nat
    decreases calls.len(),
{
    if calls.len() == 0 {
        0
    } else {
        let rest = connections_let_in(after(shield, calls[0]), calls.skip(1), group);
        match calls[0] {
            ShieldCall::Connect { group: g, now } => if g == group && shield.admits(group, now) {
                rest + 1
            } else {
                rest
            },
            _ => rest,
        }
    }
}

/// How many vault requests of `peer` a run of calls lets in.
pub open spec fn requests_let_in(shield: ShieldState, calls: Seq<ShieldCall>, peer: Seq<u8>) -> nat
    decreases calls.len(),
{
    if calls.len() == 0 {
        0
    } else {
        let rest = requests_let_in(after(shield, calls[0]), calls.skip(1), peer);
        match calls[0] {
            ShieldCall::Ask { peer: p, now } => if p == peer && shield.serves(peer, now) {
                rest + 1
            } else {
                rest
            },
            _ => rest,
        }
    }
}

/// Within one window an address group gets at most 30 connections, those already
/// counted in the window included, whatever else is called in between.
pub proof fn law_connection_rate(shield: ShieldState, calls: Seq<ShieldCall>, group: Seq<u8>)
    requires
        shield.ips.contains_key(group),
        forall|i: int| 0 <= i < calls.len() ==> made_in_window(#[trigger] calls[i], shield.ips[group].window),
    ensures
        connections_let_in(shield, calls, group) <= MAX_NEW_CONNECTIONS_PER_MIN,
        shield.ips[group].rate_count <= MAX_NEW_CONNECTIONS_PER_MIN ==> connections_let_in(shield, calls, group)
            + shield.ips[group].rate_count <= MAX_NEW_CONNECTIONS_PER_MIN,
        shield.ips[group].rate_count > MAX_NEW_CONNECTIONS_PER_MIN ==> connections_let_in(shield, calls, group)
            == 0,
    decreases calls.len(),
{
    if calls.len() > 0 {
        let next = after(shield, calls[0]);
        let rest = calls.skip(1);
        assert(made_in_window(calls[0], shield.ips[group].window));
        assert forall|i: int| 0 <= i < rest.len() implies made_in_window(
            #[trigger] rest[i],
            shield.ips[group].window,
        ) by {
            assert(rest[i] == calls[i + 1]);
        }
        law_connection_rate(next, rest, group);
    }
}

/// Within one window a peer gets at most 15 vault requests, those already counted
/// in the window included, whatever else is called in between.
pub proof fn law_vault_rate(shield: ShieldState, calls: Seq<ShieldCall>, peer: Seq<u8>)
    requires
        shield.peers.contains_key(peer),
        forall|i: int| 0 <= i < calls.len() ==> made_in_window(#[trigger] calls[i], shield.peers[peer].window),
    ensures
        requests_let_in(shield, calls, peer) <= MAX_VAULT_OPS_PER_PEER_PER_MIN,
        shield.peers[peer].ops <= MAX_VAULT_OPS_PER_PEER_PER_MIN ==> requests_let_in(shield, calls, peer)
            + shield.peers[peer].ops <= MAX_VAULT_OPS_PER_PEER_PER_MIN,
        shield.peers[peer].ops > MAX_VAULT_OPS_PER_PEER_PER_MIN ==> requests_let_in(shield, calls, peer) == 0,
    decreases calls.len(),
{
    if calls.len() > 0 {
        let next = after(shield, calls[0]);
        let rest = calls.skip(1);
        assert(made_in_window(calls[0], shield.peers[peer].window));
        assert forall|i: int| 0 <= i < rest.len() implies made_in_window(
            #[trigger] rest[i],
            shield.peers[peer].window,
        ) by {
            assert(rest[i] == calls[i + 1]);
        }
        law_vault_rate(next, rest, peer);
    }
}

/// The shield after a run of calls.
pub open spec fn after_all(shield: ShieldState, calls: Seq<ShieldCall>) -> ShieldState
    decreases calls.len(),
{
    if calls.len() == 0 {
        shield
    } else {
        after_all(after(shield, calls[0]), calls.skip(1))
    }
}

/// How many open connections the shield counts for a group.
pub open spec fn counted_open(shield: ShieldState, group: Seq<u8>) -> int {
    if shield.ips.contains_key(group) {
        shield.ips[group].active as int
    } else {
        0
    }
}

/// How many connections from `group` a run of calls closes.
pub open spec fn connections_closed(calls: Seq<ShieldCall>, group: Seq<u8>) -> nat
    decreases calls.len(),
{
    if calls.len() == 0 {
        0
    } else {
        let rest = connections_closed(calls.skip(1), group);
        if calls[0] == (ShieldCall::Disconnect { group }) {
            rest + 1
        } else {
            rest
        }
    }
}

/// Whether each close of a connection from `group` in a run of calls ends one that
/// was let in, where `open` of them are open at first: none is closed twice, and
/// none that was refused.
pub open spec fn closes_what_was_let_in(
    shield: ShieldState,
    calls: Seq<ShieldCall>,
    group: Seq<u8>,
    open: nat,
) -> bool
    decreases calls.len(),
{
    calls.len() > 0 ==> match calls[0] {
        ShieldCall::Connect { group: g, now } => closes_what_was_let_in(
            after(shield, calls[0]),
            calls.skip(1),
            group,
            if g == group && shield.admits(group, now) {
                open + 1
            } else {
                open
            },
        ),
        ShieldCall::Disconnect { group: g } => {
            &&& g == group ==> open > 0
            &&& closes_what_was_let_in(
                after(shield, calls[0]),
                calls.skip(1),
                group,
                if g == group {
                    (open - 1) as nat
                } else {
                    open
                },
            )
        },
        _ => closes_what_was_let_in(after(shield, calls[0]), calls.skip(1), group, open),
    }
}

proof fn lemma_open_connections_are_counted(
    shield: ShieldState,
    calls: Seq<ShieldCall>,
    group: Seq<u8>,
    open: nat,
)
    requires
        counted_open(shield, group) == open,
        open <= MAX_CONNECTIONS_PER_IP,
        closes_what_was_let_in(shield, calls, group, open),
    ensures
        counted_open(after_all(shield, calls), group) == open + connections_let_in(shield, calls, group)
            - connections_closed(calls, group),
        counted_open(after_all(shield, calls), group) <= MAX_CONNECTIONS_PER_IP,
    decreases calls.len(),
{
    if calls.len() > 0 {
        let next = after(shield, calls[0]);
        let rest = calls.skip(1);
        match calls[0] {
            ShieldCall::Connect { group: g, now } => if g == group && shield.admits(group, now) {
                lemma_open_connections_are_counted(next, rest, group, open + 1);
            } else {
                lemma_open_connections_are_counted(next, rest, group, open);
            },
            ShieldCall::Disconnect { group: g } => if g == group {
                lemma_open_connections_are_counted(next, rest, group, (open - 1) as nat);
            } else {
                lemma_open_connections_are_counted(next, rest, group, open);
            },
            _ => lemma_open_connections_are_counted(next, rest, group, open),
        }
    }
}

/// From a new shield on, as long as only connections that were let in are closed,
/// and each once, the count of a group is exact, the connections let in less those
/// closed, and never above the limit.
pub proof fn law_open_connections_are_counted(calls: Seq<ShieldCall>, group: Seq<u8>)
    requires
        closes_what_was_let_in(ShieldState::empty(), calls, group, 0),
    ensures
        counted_open(after_all(ShieldState::empty(), calls), group) == connections_let_in(
            ShieldState::empty(),
            calls,
            group,
        ) - connections_closed(calls, group),
        0 <= counted_open(after_all(ShieldState::empty(), calls), group) <= MAX_CONNECTIONS_PER_IP,
{
    lemma_open_connections_are_counted(ShieldState::empty(), calls, group, 0);
}

/// Closing connections never raises a count, and leaves one of zero at zero: it
/// never turns a later connection away.
pub proof fn law_closing_never_locks_out(shield: ShieldState, group: Seq<u8>, other: Seq<u8>, now: u64)
    requires
        shield.admits(other, now),
    ensures
        shield.disconnected(group).admits(other, now),
        counted_open(shield.disconnected(group), other) <= counted_open(shield, other),
{
}

// ---------------------------------------------------------------------------
// What each call does, by itself
// ---------------------------------------------------------------------------

/// The shield's limits: 20 connections, 30 attempts and 15 requests in a window of a
/// minute, and records kept for five minutes, in nanoseconds.
pub proof fn law_numbers()
    ensures
        MAX_CONNECTIONS_PER_IP == 20,
        MAX_NEW_CONNECTIONS_PER_MIN == 30,
        MAX_VAULT_OPS_PER_PEER_PER_MIN == 15,
        RATE_WINDOW == 60 * 1_000_000_000,
        STALE_AFTER == 5 * 60 * 1_000_000_000,
{
}

/// The group of an IPv4 address is its four octets, that of an IPv6 address its
/// first eight octets and eight zeros.
pub proof fn law_group_octets(v4: [u8; 4], v6: [u8; 16], i: int)
    requires
        0 <= i < 16,
    ensures
        group_of(IpAddr::V4(v4)) == v4@,
        group_of(IpAddr::V6(v6)).len() == 16,
        i < 8 ==> group_of(IpAddr::V6(v6))[i] == v6@[i],
        i >= 8 ==> group_of(IpAddr::V6(v6))[i] == 0,
        octets_of(IpAddr::V4(v4)) == v4@,
        octets_of(IpAddr::V6(v6)) == v6@,
{
}

/// A connection is let in exactly if fewer than 20 of its group are open and fewer
/// than 30 were attempted in the running minute, or a minute has passed since it
/// began. An address that was not seen before is let in. So it is at every time.
pub proof fn law_connection_is_let_in(shield: ShieldState, group: Seq<u8>, now: u64)
    ensures
        shield.ips.contains_key(group) ==> {
            let record = shield.ips[group];
            shield.admits(group, now) <==> record.active < 20 && (record.rate_count < 30 || now - record.window
                >= 60_000_000_000)
        },
        !shield.ips.contains_key(group) ==> shield.admits(group, now),
{
}

/// A vault request is let in exactly if the peer made fewer than 15 in the running
/// minute, or a minute has passed since it began. A peer that was not seen before is
/// let in. So it is at every time.
pub proof fn law_request_is_let_in(shield: ShieldState, peer: Seq<u8>, now: u64)
    ensures
        shield.peers.contains_key(peer) ==> {
            let record = shield.peers[peer];
            shield.serves(peer, now) <==> record.ops < 15 || now - record.window >= 60_000_000_000
        },
        !shield.peers.contains_key(peer) ==> shield.serves(peer, now),
{
}

/// Verdicts, and what is counted, depend on how long ago a window began and not on
/// how long the server has been up: with clock and windows moved alike, they are the
/// same.
pub proof fn law_uptime_makes_no_difference(
    ip: IpRecord,
    moved_ip: IpRecord,
    peer: VaultRateRecord,
    moved_peer: VaultRateRecord,
    now: u64,
    moved_now: u64,
)
    requires
        moved_now - now == moved_ip.window - ip.window,
        moved_now - now == moved_peer.window - peer.window,
        moved_ip.active == ip.active && moved_ip.rate_count == ip.rate_count,
        moved_peer.ops == peer.ops,
    ensures
        ip.admits(now) == moved_ip.admits(moved_now),
        ip.attempted(now).active == moved_ip.attempted(moved_now).active,
        ip.attempted(now).rate_count == moved_ip.attempted(moved_now).rate_count,
        moved_ip.attempted(moved_now).window - ip.attempted(now).window == moved_now - now,
        ip.in_use(now) == moved_ip.in_use(moved_now),
        peer.admits(now) == moved_peer.admits(moved_now),
        peer.attempted(now).ops == moved_peer.attempted(moved_now).ops,
        moved_peer.attempted(moved_now).window - peer.attempted(now).window == moved_now - now,
        peer.in_use(now) == moved_peer.in_use(moved_now),
{
}

/// Whoever is let in would also be let in with fewer connections open, with fewer
/// attempts counted, and later.
pub proof fn law_less_use_is_never_refused_sooner(
    busy: IpRecord,
    idle: IpRecord,
    asked: VaultRateRecord,
    quiet: VaultRateRecord,
    now: u64,
    later: u64,
)
    requires
        idle.active <= busy.active && idle.rate_count <= busy.rate_count && idle.window == busy.window,
        quiet.ops <= asked.ops && quiet.window == asked.window,
        now <= later,
    ensures
        busy.admits(now) ==> idle.admits(later),
        asked.admits(now) ==> quiet.admits(later),
{
}

/// After an attempt a group's record says what happened: at 20 open connections
/// nothing is noted; else the attempt is counted, in the running window or, where a
/// minute has passed, as the first of a new one that begins now; and a connection
/// that is let in is counted as open. No other record changes.
pub proof fn law_attempt_is_counted(shield: ShieldState, group: Seq<u8>, other: Seq<u8>, now: u64)
    requires
        shield.ips.contains_key(group),
        other != group,
    ensures
        ({
            let before = shield.ips[group];
            let after = shield.connected(group, now).ips[group];
            let over = now - before.window >= 60_000_000_000;
            let counted = if over {
                0
            } else {
                before.rate_count as int
            };
            &&& before.active >= 20 ==> after == before
            &&& before.active < 20 ==> {
                &&& after.window == if over {
                    now
                } else {
                    before.window
                }
                &&& counted < u32::MAX ==> after.rate_count == counted + 1
                &&& counted == u32::MAX ==> after.rate_count == u32::MAX
                &&& after.active == if counted < 30 {
                    before.active + 1
                } else {
                    before.active as int
                }
            }
        }),
        shield.connected(group, now).ips.contains_key(group),
        shield.connected(group, now).ips.contains_key(other) == shield.ips.contains_key(other),
        shield.connected(group, now).ips[other] == shield.ips[other],
        shield.connected(group, now).peers == shield.peers,
        shield.connected(group, now).vault_rejects == shield.vault_rejects,
        shield.connected(group, now).relay_denials == shield.relay_denials,
        shield.connected(group, now).circuit_denials == shield.circuit_denials,
{
}

/// The first attempt from a group opens its window now, with one attempt counted and
/// one connection open.
pub proof fn law_first_attempt(shield: ShieldState, group: Seq<u8>, other: Seq<u8>, now: u64)
    requires
        !shield.ips.contains_key(group),
        other != group,
    ensures
        shield.connected(group, now).ips.contains_key(group),
        shield.connected(group, now).ips[group].active == 1,
        shield.connected(group, now).ips[group].rate_count == 1,
        shield.connected(group, now).ips[group].window == now,
        shield.connected(group, now).ips.contains_key(other) == shield.ips.contains_key(other),
        shield.connected(group, now).ips[other] == shield.ips[other],
        shield.connected(group, now).peers == shield.peers,
        shield.connected(group, now).vault_rejects == shield.vault_rejects,
        shield.connected(group, now).relay_denials == shield.relay_denials,
        shield.connected(group, now).circuit_denials == shield.circuit_denials,
{
}

/// A close takes one connection off its group's count, if there is one on it, and
/// changes nothing else.
pub proof fn law_close_is_counted(shield: ShieldState, group: Seq<u8>, other: Seq<u8>)
    requires
        other != group,
    ensures
        shield.ips.contains_key(group) ==> {
            let before = shield.ips[group];
            let after = shield.disconnected(group).ips[group];
            &&& before.active > 0 ==> after.active == before.active - 1
            &&& before.active == 0 ==> after.active == 0
            &&& after.rate_count == before.rate_count
            &&& after.window == before.window
        },
        shield.disconnected(group).ips.dom() == shield.ips.dom(),
        shield.disconnected(group).ips[other] == shield.ips[other],
        shield.disconnected(group).peers == shield.peers,
        shield.disconnected(group).vault_rejects == shield.vault_rejects,
        shield.disconnected(group).relay_denials == shield.relay_denials,
        shield.disconnected(group).circuit_denials == shield.circuit_denials,
        !shield.ips.contains_key(group) ==> shield.disconnected(group) == shield,
{
    assert(shield.disconnected(group).ips.dom() =~= shield.ips.dom());
}

/// After a vault request the peer's record counts it, in the running window or,
/// where a minute has passed or the peer is new, as the first of one that begins now;
/// a refused one is also counted as rejected. No other record changes.
pub proof fn law_request_is_counted(shield: ShieldState, peer: Seq<u8>, other: Seq<u8>, now: u64)
    requires
        other != peer,
    ensures
        ({
            let known = shield.peers.contains_key(peer);
            let over = !known || now - shield.peers[peer].window >= 60_000_000_000;
            let counted = if over {
                0
            } else {
                shield.peers[peer].ops as int
            };
            let after = shield.asked(peer, now).peers[peer];
            &&& after.window == if over {
                now
            } else {
                shield.peers[peer].window
            }
            &&& counted < u32::MAX ==> after.ops == counted + 1
            &&& counted == u32::MAX ==> after.ops == u32::MAX
            &&& counted < 15 ==> shield.asked(peer, now).vault_rejects == shield.vault_rejects
            &&& counted >= 15 && shield.vault_rejects < u64::MAX ==> shield.asked(peer, now).vault_rejects
                == shield.vault_rejects + 1
            &&& counted >= 15 && shield.vault_rejects == u64::MAX ==> shield.asked(peer, now).vault_rejects
                == u64::MAX
        }),
        shield.asked(peer, now).peers.contains_key(peer),
        shield.asked(peer, now).peers.contains_key(other) == shield.peers.contains_key(other),
        shield.asked(peer, now).peers[other] == shield.peers[other],
        shield.asked(peer, now).ips == shield.ips,
        shield.asked(peer, now).relay_denials == shield.relay_denials,
        shield.asked(peer, now).circuit_denials == shield.circuit_denials,
{
}

/// A cleanup keeps a group's record exactly if a connection is open or its window
/// began less than five minutes ago, and a peer's record exactly if its window did.
/// What it keeps it does not change.
pub proof fn law_cleanup_keeps_what_is_in_use(shield: ShieldState, group: Seq<u8>, peer: Seq<u8>, now: u64)
    ensures
        shield.cleaned(now).ips.contains_key(group) <==> shield.ips.contains_key(group) && (
        shield.ips[group].active > 0 || now - shield.ips[group].window < 300_000_000_000),
        shield.cleaned(now).ips.contains_key(group) ==> shield.cleaned(now).ips[group] == shield.ips[group],
        shield.cleaned(now).peers.contains_key(peer) <==> shield.peers.contains_key(peer) && now
            - shield.peers[peer].window < 300_000_000_000,
        shield.cleaned(now).peers.contains_key(peer) ==> shield.cleaned(now).peers[peer] == shield.peers[peer],
        shield.cleaned(now).vault_rejects == shield.vault_rejects,
        shield.cleaned(now).relay_denials == shield.relay_denials,
        shield.cleaned(now).circuit_denials == shield.circuit_denials,
{
}

/// A new shield has no record and has counted nothing; counters go up by one.
pub proof fn law_new_shield_has_seen_nothing(count: u64)
    ensures
        ShieldState::empty().ips == Map::<Seq<u8>, IpRecord>::empty(),
        ShieldState::empty().peers == Map::<Seq<u8>, VaultRateRecord>::empty(),
        ShieldState::empty().vault_rejects == 0,
        ShieldState::empty().relay_denials == 0,
        ShieldState::empty().circuit_denials == 0,
        count < u64::MAX ==> counted(count) == count + 1,
        counted(u64::MAX) == u64::MAX,
{
}

/// Attempts of one group, one after the other, at these times.
pub open spec fn attempts(group: Seq<u8>, times: Seq<u64>) -> Seq<ShieldCall> {
    times.map_values(|now: u64| ShieldCall::Connect { group, now })
}

/// Up to 20 connections of a group that nothing is known of are all let in, whenever
/// they come.
pub proof fn law_first_twenty_connections_are_let_in(shield: ShieldState, group: Seq<u8>, times: Seq<u64>)
    requires
        !shield.ips.contains_key(group),
        times.len() <= 20,
    ensures
        connections_let_in(shield, attempts(group, times), group) == times.len(),
{
    if times.len() > 0 {
        let calls = attempts(group, times);
        assert(calls[0] == (ShieldCall::Connect { group, now: times[0] }));
        assert(calls.skip(1) =~= attempts(group, times.skip(1)));
        lemma_room_is_used(after(shield, calls[0]), group, times.skip(1));
    }
}

/// While fewer connections are open and attempts counted than the limits allow, the
/// next ones are let in.
proof fn lemma_room_is_used(shield: ShieldState, group: Seq<u8>, times: Seq<u64>)
    requires
        shield.ips.contains_key(group),
        shield.ips[group].active + times.len() <= 20,
        shield.ips[group].rate_count + times.len() <= 30,
    ensures
        connections_let_in(shield, attempts(group, times), group) == times.len(),
    decreases times.len(),
{
    if times.len() > 0 {
        let calls = attempts(group, times);
        assert(calls[0] == (ShieldCall::Connect { group, now: times[0] }));
        assert(calls.skip(1) =~= attempts(group, times.skip(1)));
        lemma_room_is_used(after(shield, calls[0]), group, times.skip(1));
    }
}

/// Requests of one peer, one after the other, at these times.
pub open spec fn requests(peer: Seq<u8>, times: Seq<u64>) -> Seq<ShieldCall> {
    times.map_values(|now: u64| ShieldCall::Ask { peer, now })
}

/// Up to 15 requests of a peer that nothing is known of are all let in, whenever they
/// come.
pub proof fn law_first_fifteen_requests_are_let_in(shield: ShieldState, peer: Seq<u8>, times: Seq<u64>)
    requires
        !shield.peers.contains_key(peer),
        times.len() <= 15,
    ensures
        requests_let_in(shield, requests(peer, times), peer) == times.len(),
{
    if times.len() > 0 {
        let calls = requests(peer, times);
        assert(calls[0] == (ShieldCall::Ask { peer, now: times[0] }));
        assert(calls.skip(1) =~= requests(peer, times.skip(1)));
        lemma_requests_are_served(after(shield, calls[0]), peer, times.skip(1));
    }
}

proof fn lemma_requests_are_served(shield: ShieldState, peer: Seq<u8>, times: Seq<u64>)
    requires
        shield.peers.contains_key(peer),
        shield.peers[peer].ops + times.len() <= 15,
    ensures
        requests_let_in(shield, requests(peer, times), peer) == times.len(),
    decreases times.len(),
{
    if times.len() > 0 {
        let calls = requests(peer, times);
        assert(calls[0] == (ShieldCall::Ask { peer, now: times[0] }));
        assert(calls.skip(1) =~= requests(peer, times.skip(1)));
        lemma_requests_are_served(after(shield, calls[0]), peer, times.skip(1));
    }
}

} // verus!
