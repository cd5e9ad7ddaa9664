//! The anchor's decisions: what each network event leads to.
//!
//! The network and the database are driven from outside. They hand the anchor an
//! [`Event`], carry out the [`Action`] it decides on, and, where the action was a
//! storage operation, turn its outcome into the response with [`respond`].

use dashmap::DashMap;
use std::collections::HashMap;
use vstd::prelude::*;
use crate::crypto::{blind_key, blind_key_of, sha256_digest, xored};
use crate::network::{GlyphRequest, GlyphResponse, INTERNAL_ERROR, RATE_LIMITED, UNAUTHENTICATED};
use crate::records::{key_map_get, key_map_insert, key_map_remove, known_keys, new_key_map};
use crate::shield::{
    counted, group_of, IpAddr, ShieldState, SybilShield, MAX_CONNECTIONS_PER_IP,
};
use crate::shield_laws::{counted_open, law_connection_is_let_in, law_request_is_let_in};

verus! {

// ---------------------------------------------------------------------------
// Endpoints
// ---------------------------------------------------------------------------

/// A component of a multiaddress.
#[derive(Debug, Clone, Copy, PartialEq, Eq)]
pub enum AddressPart {
    Ip4([u8; 4]),
    Ip6([u8; 16]),
    /// Any other protocol.
    Other,
}

/// The two ways in which a connection comes about, with the remote address.
#[derive(Debug, Clone, PartialEq, Eq)]
pub enum Endpoint {
    /// The remote side was dialed.
    Dialer { address: Vec<AddressPart> },
    /// The remote side dialed.
    Listener { send_back_addr: Vec<AddressPart> },
}

/// The remote address of an endpoint.
pub open spec fn remote_address(endpoint: Endpoint) -> Seq<AddressPart> {
    match endpoint {
        Endpoint::Dialer { address } => address@,
        Endpoint::Listener { send_back_addr } => send_back_addr@,
    }
}

/// The IP address that a component holds, if it holds one.
pub open spec fn ip_of_part(part: AddressPart) -> Option<IpAddr> {
    match part {
        AddressPart::Ip4(octets) => Some(IpAddr::V4(octets)),
        AddressPart::Ip6(octets) => Some(IpAddr::V6(octets)),
        AddressPart::Other => None,
    }
}

/// The first IP address in a multiaddress, if there is one.
pub open spec fn first_ip(parts: Seq<AddressPart>) -> Option<IpAddr>
    decreases parts.len(),
{
    if parts.len() == 0 {
        None
    } else {
        match ip_of_part(parts[0]) {
            Some(ip) => Some(ip),
            None => first_ip(parts.skip(1)),
        }
    }
}

/// The IP address of the remote side of a connection, if its address holds one.
pub fn extract_ip(endpoint: &Endpoint) -> (ip: Option<IpAddr>)
    ensures
        ip == first_ip(remote_address(*endpoint)),
{
    let parts = match endpoint {
        Endpoint::Dialer { address } => address,
        Endpoint::Listener { send_back_addr } => send_back_addr,
    };
    let mut i: usize = 0;
    assert(parts@.skip(0) =~= parts@);
    while i < parts.len()
        invariant
            i <= parts@.len(),
            parts@ == remote_address(*endpoint),
            first_ip(parts@) == first_ip(parts@.skip(i as int)),
        decreases parts@.len() - i,
    {
        assert(parts@.skip(i as int).skip(1) =~= parts@.skip(i + 1));
        match parts[i] {
            AddressPart::Ip4(octets) => return Some(IpAddr::V4(octets)),
            AddressPart::Ip6(octets) => return Some(IpAddr::V6(octets)),
            AddressPart::Other => {},
        }
        i = i + 1;
    }
    None
}

// ---------------------------------------------------------------------------
// Events and actions
// ---------------------------------------------------------------------------

/// Something that happened. Peers are named by the bytes of their ids, connections
/// by numbers of which none is given twice.
#[derive(Debug, Clone, PartialEq, Eq)]
pub enum Event {
    /// A connection was established.
    ConnectionEstablished { connection: u64, peer: Vec<u8>, endpoint: Endpoint },
    /// A connection was closed. Where it came from is known from when it was
    /// established: the address of a connection may change while it is open.
    ConnectionClosed { connection: u64, peer: Vec<u8> },
    /// A peer made a vault request.
    Request { peer: Vec<u8>, request: GlyphRequest },
    /// A peer's public key became known, in its protobuf encoding.
    Identified { peer: Vec<u8>, public_key: Vec<u8> },
    /// A relay reservation was denied.
    ReservationDenied,
    /// A relay circuit was denied.
    CircuitDenied,
    /// It is time to forget stale records.
    CleanupDue,
}

/// What is to be done.
#[derive(Debug, Clone, PartialEq, Eq)]
pub enum Action {
    Nothing,
    /// Close all connections to a peer.
    Disconnect { peer: Vec<u8> },
    /// Answer the request at once.
    Respond { response: GlyphResponse },
    /// Store an envelope, then answer.
    Store { recipient_hash: [u8; 32], payload: Vec<u8> },
    /// Fetch the mailbox of the holder of a public key, then answer.
    Fetch { public_key: Vec<u8> },
    /// Keep a push token, then answer.
    RegisterToken { recipient_hash: [u8; 32], blind_key: [u8; 32], encrypted_token: Vec<u8>, expiry: u64 },
}

// ---------------------------------------------------------------------------
// Model
// ---------------------------------------------------------------------------

/// What the anchor remembers.
#[verifier::ext_equal]
pub struct AnchorState {
    /// The Sybil shield.
    pub shield: ShieldState,
    /// The addresses of the connections that were let in and are open, by the
    /// numbers of the connections.
    pub admitted: Map<u64, IpAddr>,
    /// The public keys of the peers that have identified themselves.
    pub keys: Map<Seq<u8>, Seq<u8>>,
    /// The server secret.
    pub secret: Seq<u8>,
}

impl AnchorState {
    /// What an anchor remembers that has seen nothing.
    pub open spec fn new(secret: Seq<u8>) -> AnchorState {
        AnchorState {
            shield: ShieldState::empty(),
            admitted: Map::empty(),
            keys: Map::empty(),
            secret,
        }
    }

    /// What the anchor remembers after an event at the time `now`.
    pub open spec fn after(self, event: Event, now: u64) -> AnchorState {
        match event {
            Event::ConnectionEstablished { connection, endpoint, .. } => match first_ip(
                remote_address(endpoint),
            ) {
                Some(ip) => AnchorState {
                    shield: self.shield.connected(group_of(ip), now),
                    admitted: if self.shield.admits(group_of(ip), now) {
                        self.admitted.insert(connection, ip)
                    } else {
                        self.admitted
                    },
                    ..self
                },
                None => self,
            },
            Event::ConnectionClosed { connection, peer } => AnchorState {
                shield: if self.admitted.contains_key(connection) {
                    self.shield.disconnected(group_of(self.admitted[connection]))
                } else {
                    self.shield
                },
                admitted: self.admitted.remove(connection),
                keys: self.keys.remove(peer@),
                ..self
            },
            Event::Request { peer, .. } => AnchorState { shield: self.shield.asked(peer@, now), ..self },
            Event::Identified { peer, public_key } => AnchorState {
                keys: self.keys.insert(peer@, public_key@),
                ..self
            },
            Event::ReservationDenied => AnchorState {
                shield: ShieldState { relay_denials: counted(self.shield.relay_denials), ..self.shield },
                ..self
            },
            Event::CircuitDenied => AnchorState {
                shield: ShieldState { circuit_denials: counted(self.shield.circuit_denials), ..self.shield },
                ..self
            },
            Event::CleanupDue => AnchorState { shield: self.shield.cleaned(now), ..self },
        }
    }

    /// Whether `action` is what an event at the time `now` leads to.
    pub open spec fn leads_to(self, event: Event, now: u64, action: Action) -> bool {
        match event {
            Event::ConnectionEstablished { peer, endpoint, .. } => match first_ip(remote_address(endpoint)) {
                Some(ip) => if self.shield.admits(group_of(ip), now) {
                    action is Nothing
                } else {
                    action == (Action::Disconnect { peer })
                },
                None => action is Nothing,
            },
            Event::Request { peer, request } => if self.shield.serves(peer@, now) {
                self.serves_with(peer@, request, action)
            } else {
                action == (Action::Respond { response: GlyphResponse::Error { code: RATE_LIMITED } })
            },
            _ => action is Nothing,
        }
    }

    /// Whether `action` is what a request within the rate limit leads to. A fetch
    /// goes to the mailbox of the caller's own public key, and without one it is
    /// refused.
    pub open spec fn serves_with(self, peer: Seq<u8>, request: GlyphRequest, action: Action) -> bool {
        match request {
            GlyphRequest::Store { recipient_hash, payload } => action == (Action::Store {
                recipient_hash,
                payload,
            }),
            GlyphRequest::Fetch => if self.keys.contains_key(peer) {
                action matches Action::Fetch { public_key } && public_key@ == self.keys[peer]
            } else {
                action == (Action::Respond { response: GlyphResponse::Error { code: UNAUTHENTICATED } })
            },
            GlyphRequest::RegisterToken { recipient_hash, encrypted_token, expiry } => {
                &&& action is RegisterToken
                &&& action->RegisterToken_recipient_hash == recipient_hash
                &&& action->RegisterToken_encrypted_token == encrypted_token
                &&& action->RegisterToken_expiry == expiry
                &&& action->RegisterToken_blind_key@ == blind_key_of(
                    xored(encrypted_token@, self.secret),
                    self.secret,
                )
            },
        }
    }
}

// ---------------------------------------------------------------------------
// The anchor
// ---------------------------------------------------------------------------

/// What the anchor remembers of its peers, and what it decides by.
pub struct Anchor {
    shield: SybilShield,
    admitted: HashMap<u64, IpAddr>,
    peer_pubkeys: DashMap<Vec<u8>, Vec<u8>>,
    server_secret: [u8; 32],
}

impl View for Anchor {
    type V = AnchorState;

    closed spec fn view(&self) -> AnchorState {
        AnchorState {
            shield: self.shield@,
            admitted: self.admitted@,
            keys: known_keys(self.peer_pubkeys),
            secret: self.server_secret@,
        }
    }
}

impl Anchor {
    /// An anchor that has seen nothing.
    pub fn new(server_secret: [u8; 32]) -> (anchor: Anchor)
        ensures
            anchor@ == AnchorState::new(server_secret@),
    {
        Anchor {
            shield: SybilShield::new(),
            admitted: HashMap::new(),
            peer_pubkeys: new_key_map(),
            server_secret,
        }
    }

    /// The Sybil shield, for its counters.
    pub fn shield(&self) -> (shield: &SybilShield)
        ensures
            shield@ == self@.shield,
    {
        &self.shield
    }

    /// Takes note of an event and decides what is to be done.
    ///
    /// `now` is the time on a steady clock, in nanoseconds.
    pub fn handle(&mut self, event: Event, now: u64) -> (action: Action)
        ensures
            final(self)@ == old(self)@.after(event, now),
            old(self)@.leads_to(event, now, action),
    {
        broadcast use vstd::std_specs::hash::group_hash_axioms;

        match event {
            Event::ConnectionEstablished { connection, peer, endpoint } => {
                if let Some(ip) = extract_ip(&endpoint) {
                    if !self.shield.check_and_register_connection(ip, now) {
                        return Action::Disconnect { peer };
                    }
                    self.admitted.insert(connection, ip);
                }
                Action::Nothing
            },
            Event::ConnectionClosed { connection, peer } => {
                if let Some(ip) = self.admitted.remove(&connection) {
                    self.shield.deregister_connection(ip);
                }
                key_map_remove(&mut self.peer_pubkeys, &peer);
                Action::Nothing
            },
            Event::Request { peer, request } => {
                if !self.shield.check_vault_ratelimit(&peer, now) {
                    return Action::Respond { response: GlyphResponse::Error { code: RATE_LIMITED } };
                }
                self.serve(&peer, request)
            },
            Event::Identified { peer, public_key } => {
                key_map_insert(&mut self.peer_pubkeys, peer, public_key);
                Action::Nothing
            },
            Event::ReservationDenied => {
                self.shield.increment_relay_denial();
                Action::Nothing
            },
            Event::CircuitDenied => {
                self.shield.increment_circuit_denial();
                Action::Nothing
            },
            Event::CleanupDue => {
                self.shield.cleanup_stale_records(now);
                Action::Nothing
            },
        }
    }

    /// What a request within the rate limit leads to.
    fn serve(&self, peer: &Vec<u8>, request: GlyphRequest) -> (action: Action)
        ensures
            self@.serves_with(peer@, request, action),
    {
        match request {
            GlyphRequest::Store { recipient_hash, payload } => Action::Store { recipient_hash, payload },
            GlyphRequest::Fetch => match key_map_get(&self.peer_pubkeys, peer) {
                Some(public_key) => Action::Fetch { public_key },
                None => Action::Respond { response: GlyphResponse::Error { code: UNAUTHENTICATED } },
            },
            GlyphRequest::RegisterToken { recipient_hash, encrypted_token, expiry } => {
                let blind_key = blind_key(encrypted_token.as_slice(), &self.server_secret);
                Action::RegisterToken { recipient_hash, blind_key, encrypted_token, expiry }
            },
        }
    }
}

/// The response to a request whose storage operation has this outcome, `None`
/// standing for a failure.
pub fn respond(outcome: Option<GlyphResponse>) -> (response: GlyphResponse)
    ensures
        response == match outcome {
            Some(r) => r,
            None => GlyphResponse::Error { code: INTERNAL_ERROR },
        },
        outcome matches Some(r) ==> response == r,
        outcome is None ==> response == (GlyphResponse::Error { code: 500 }),
{
    match outcome {
        Some(response) => response,
        None => GlyphResponse::Error { code: INTERNAL_ERROR },
    }
}

// ---------------------------------------------------------------------------
// Laws
// ---------------------------------------------------------------------------

/// An event and when it happened.
pub struct Occurrence {
    pub event: Event,
    pub now: u64,
}

/// What the anchor remembers after a run of events.
pub open spec fn after_all(state: AnchorState, run: Seq<Occurrence>) -> AnchorState
    decreases run.len(),
{
    if run.len() == 0 {
        state
    } else {
        after_all(state, run.drop_last()).after(run.last().event, run.last().now)
    }
}

/// The public key that a peer last identified itself with in a run of events,
/// with no connection to it closed since.
pub open spec fn last_identified(run: Seq<Occurrence>, peer: Seq<u8>) -> Option<Seq<u8>>
    decreases run.len(),
{
    if run.len() == 0 {
        None
    } else {
        match run.last().event {
            Event::Identified { peer: p, public_key } => if p@ == peer {
                Some(public_key@)
            } else {
                last_identified(run.drop_last(), peer)
            },
            Event::ConnectionClosed { peer: p, .. } => if p@ == peer {
                None
            } else {
                last_identified(run.drop_last(), peer)
            },
            _ => last_identified(run.drop_last(), peer),
        }
    }
}

/// The anchor knows of a peer exactly the public key that it last identified
/// itself with, and forgets it when a connection to it is closed.
pub proof fn law_known_keys(state: AnchorState, run: Seq<Occurrence>, peer: Seq<u8>)
    requires
        state.keys == Map::<Seq<u8>, Seq<u8>>::empty(),
    ensures
        after_all(state, run).keys.contains_key(peer) <==> last_identified(run, peer) is Some,
        last_identified(run, peer) matches Some(public_key) ==> after_all(state, run).keys[peer] == public_key,
        after_all(state, run).secret == state.secret,
    decreases run.len(),
{
    if run.len() > 0 {
        law_known_keys(state, run.drop_last(), peer);
    }
}

/// After any run of events, a peer that fetches reaches the mailbox of the public
/// key that it last identified itself with, or none: without such a key, or over
/// the rate limit, the vault is not looked at and the fetch is refused.
pub proof fn law_fetch_reaches_only_the_own_mailbox(
    state: AnchorState,
    run: Seq<Occurrence>,
    peer: Vec<u8>,
    now: u64,
    action: Action,
)
    requires
        state.keys == Map::<Seq<u8>, Seq<u8>>::empty(),
        after_all(state, run).leads_to((Event::Request { peer, request: GlyphRequest::Fetch }), now, action),
    ensures
        match action {
            Action::Fetch { public_key } => last_identified(run, peer@) == Some(public_key@),
            Action::Respond { response: GlyphResponse::Error { code } } => {
                ||| code == RATE_LIMITED && !after_all(state, run).shield.serves(peer@, now)
                ||| code == UNAUTHENTICATED && last_identified(run, peer@) is None
            },
            _ => false,
        },
{
    law_known_keys(state, run, peer@);
}

/// A request over the rate limit is answered so, whatever it asks, and leads to
/// nothing else; and it is the only request that counts as rejected.
pub proof fn law_refused_request_does_nothing(
    state: AnchorState,
    peer: Vec<u8>,
    request: GlyphRequest,
    now: u64,
    action: Action,
)
    requires
        state.leads_to((Event::Request { peer, request }), now, action),
    ensures
        !state.shield.serves(peer@, now) <==> action == (Action::Respond {
            response: GlyphResponse::Error { code: RATE_LIMITED },
        }),
        state.after((Event::Request { peer, request }), now).keys == state.keys,
        state.after((Event::Request { peer, request }), now).shield.vault_rejects == if state.shield.serves(
            peer@,
            now,
        ) {
            state.shield.vault_rejects
        } else {
            counted(state.shield.vault_rejects)
        },
{
}

/// The address groups of the connections that a run of events let in and did not
/// close, by the numbers of the connections.
pub open spec fn let_in_and_open(state: AnchorState, run: Seq<Occurrence>) -> Map<u64, Seq<u8>>
    decreases run.len(),
{
    if run.len() == 0 {
        Map::empty()
    } else {
        let open = let_in_and_open(state, run.drop_last());
        let shield = after_all(state, run.drop_last()).shield;
        match run.last().event {
            Event::ConnectionEstablished { connection, endpoint, .. } => match first_ip(
                remote_address(endpoint),
            ) {
                Some(ip) => if shield.admits(group_of(ip), run.last().now) {
                    open.insert(connection, group_of(ip))
                } else {
                    open
                },
                None => open,
            },
            Event::ConnectionClosed { connection, .. } => open.remove(connection),
            _ => open,
        }
    }
}

/// The connections of one group.
pub open spec fn of_group(connections: Map<u64, Seq<u8>>, group: Seq<u8>) -> Set<u64> {
    Set::new(|connection: u64| connections.contains_key(connection) && connections[connection] == group)
}

/// Whether every connection of a run has a number that no open connection has.
pub open spec fn numbers_are_new(state: AnchorState, run: Seq<Occurrence>) -> bool
    decreases run.len(),
{
    run.len() > 0 ==> {
        &&& numbers_are_new(state, run.drop_last())
        &&& run.last().event matches Event::ConnectionEstablished { connection, .. } ==> !let_in_and_open(
            state,
            run.drop_last(),
        ).contains_key(connection)
    }
}

/// Adding or removing a connection changes only its own group, by at most one.
proof fn lemma_of_group(connections: Map<u64, Seq<u8>>, connection: u64, added: Seq<u8>, group: Seq<u8>)
    requires
        of_group(connections, group).finite(),
    ensures
        of_group(connections.insert(connection, added), group) == if added == group {
            of_group(connections, group).insert(connection)
        } else {
            of_group(connections, group).remove(connection)
        },
        of_group(connections.remove(connection), group) == of_group(connections, group).remove(connection),
        of_group(connections, group).contains(connection) <==> connections.contains_key(connection)
            && connections[connection] == group,
{
    let before = of_group(connections, group);
    let inserted = of_group(connections.insert(connection, added), group);
    if added == group {
        assert(inserted =~= before.insert(connection));
    } else {
        assert(inserted =~= before.remove(connection));
    }
    assert(of_group(connections.remove(connection), group) =~= before.remove(connection));
}

/// At most 20 connections that were let in from one address, or one IPv6 /64
/// prefix, are open at any moment, whatever was refused and closed in between. The
/// shield counts no fewer of them, and exactly so many while no open connection's
/// number is given again.
pub proof fn law_open_connections_are_limited(secret: Seq<u8>, run: Seq<Occurrence>, group: Seq<u8>)
    ensures
        of_group(let_in_and_open(AnchorState::new(secret), run), group).finite(),
        of_group(let_in_and_open(AnchorState::new(secret), run), group).len() <= MAX_CONNECTIONS_PER_IP,
        of_group(let_in_and_open(AnchorState::new(secret), run), group).len() <= counted_open(
            after_all(AnchorState::new(secret), run).shield,
            group,
        ) <= MAX_CONNECTIONS_PER_IP,
        numbers_are_new(AnchorState::new(secret), run) ==> of_group(
            let_in_and_open(AnchorState::new(secret), run),
            group,
        ).len() == counted_open(after_all(AnchorState::new(secret), run).shield, group),
    decreases run.len(),
{
    let start = AnchorState::new(secret);
    if run.len() == 0 {
        assert(of_group(let_in_and_open(start, run), group) =~= Set::<u64>::empty());
    } else {
        law_open_connections_are_limited(secret, run.drop_last(), group);
        lemma_admitted_is_let_in(secret, run.drop_last());
        let before = after_all(start, run.drop_last());
        let open = let_in_and_open(start, run.drop_last());
        match run.last().event {
            Event::ConnectionEstablished { connection, endpoint, .. } => {
                if let Some(ip) = first_ip(remote_address(endpoint)) {
                    lemma_of_group(open, connection, group_of(ip), group);
                }
            },
            Event::ConnectionClosed { connection, .. } => {
                lemma_of_group(open, connection, Seq::empty(), group);
                if open.contains_key(connection) {
                    assert(before.admitted.contains_key(connection));
                    assert(open[connection] == group_of(before.admitted[connection]));
                } else {
                    assert(of_group(open, group).remove(connection) =~= of_group(open, group));
                }
                if open.contains_key(connection) && open[connection] != group {
                    assert(of_group(open, group).remove(connection) =~= of_group(open, group));
                }
            },
            _ => {},
        }
    }
}

/// What the anchor remembers of open connections is what the run let in and did
/// not close.
proof fn lemma_admitted_is_let_in(secret: Seq<u8>, run: Seq<Occurrence>)
    ensures
        ({
            let admitted = after_all(AnchorState::new(secret), run).admitted;
            let open = let_in_and_open(AnchorState::new(secret), run);
            &&& admitted.dom() == open.dom()
            &&& forall|connection: u64| #[trigger]
                open.contains_key(connection) ==> open[connection] == group_of(admitted[connection])
        }),
    decreases run.len(),
{
    let start = AnchorState::new(secret);
    if run.len() > 0 {
        lemma_admitted_is_let_in(secret, run.drop_last());
        let before = after_all(start, run.drop_last()).admitted;
        let open = let_in_and_open(start, run.drop_last());
        let admitted_after = after_all(start, run).admitted;
        let open_after = let_in_and_open(start, run);
        assert(admitted_after.dom() =~= open_after.dom());
        assert forall|connection: u64| #[trigger] open_after.contains_key(
            connection,
        ) implies open_after[connection] == group_of(admitted_after[connection]) by {
            if open.contains_key(connection) {
                assert(open[connection] == group_of(before[connection]));
            }
        }
    } else {
        assert(after_all(start, run).admitted.dom() =~= let_in_and_open(start, run).dom());
    }
}

/// A connection that is refused is answered by disconnecting, and its close changes
/// nothing that the shield remembers.
pub proof fn law_refused_connection_leaves_no_trace(
    secret: Seq<u8>,
    run: Seq<Occurrence>,
    connection: u64,
    peer: Vec<u8>,
    endpoint: Endpoint,
    now: u64,
    later: u64,
)
    requires
        first_ip(remote_address(endpoint)) is Some,
        !let_in_and_open(AnchorState::new(secret), run).contains_key(connection),
        !after_all(AnchorState::new(secret), run).shield.admits(
            group_of(first_ip(remote_address(endpoint))->0),
            now,
        ),
    ensures
        ({
            let before = after_all(AnchorState::new(secret), run);
            let refused = before.after((Event::ConnectionEstablished { connection, peer, endpoint }), now);
            let closed = refused.after((Event::ConnectionClosed { connection, peer }), later);
            &&& before.leads_to(
                (Event::ConnectionEstablished { connection, peer, endpoint }),
                now,
                (Action::Disconnect { peer }),
            )
            &&& closed.shield == refused.shield
            &&& closed.admitted == before.admitted
        }),
{
    lemma_admitted_is_let_in(secret, run);
    let before = after_all(AnchorState::new(secret), run);
    assert(!before.admitted.contains_key(connection)) by {
        assert(!let_in_and_open(AnchorState::new(secret), run).dom().contains(connection));
    }
    assert(before.admitted.remove(connection) =~= before.admitted);
}

/// What is done about an envelope does not depend on who sent it.
pub proof fn law_store_does_not_depend_on_the_sender(
    state: AnchorState,
    one: Vec<u8>,
    other: Vec<u8>,
    recipient_hash: [u8; 32],
    payload: Vec<u8>,
    now: u64,
    action: Action,
    other_action: Action,
)
    requires
        state.shield.serves(one@, now),
        state.shield.serves(other@, now),
        state.leads_to(
            (Event::Request { peer: one, request: GlyphRequest::Store { recipient_hash, payload } }),
            now,
            action,
        ),
        state.leads_to(
            (Event::Request { peer: other, request: GlyphRequest::Store { recipient_hash, payload } }),
            now,
            other_action,
        ),
    ensures
        action == other_action,
{
}

/// Only a request touches the vault, and only a new connection disconnects a
/// peer.
pub proof fn law_only_requests_touch_the_vault(state: AnchorState, event: Event, now: u64, action: Action)
    requires
        state.leads_to(event, now, action),
    ensures
        action is Store || action is Fetch || action is RegisterToken || action is Respond ==> event is Request,
        action is Disconnect ==> event is ConnectionEstablished,
{
}

// ---------------------------------------------------------------------------
// What each event leads to, by itself
// ---------------------------------------------------------------------------

/// The remote address is the one that was dialed, or the one that dialed.
pub proof fn law_remote_address(address: Vec<AddressPart>)
    ensures
        remote_address((Endpoint::Dialer { address })) == address@,
        remote_address((Endpoint::Listener { send_back_addr: address })) == address@,
{
}

/// Of a multiaddress the first component counts that holds an IP address, and an
/// address without one gives none.
pub proof fn law_first_ip(parts: Seq<AddressPart>, i: int)
    requires
        0 <= i <= parts.len(),
        forall|j: int| 0 <= j < i ==> #[trigger] parts[j] is Other,
    ensures
        i == parts.len() ==> first_ip(parts) is None,
        i < parts.len() ==> {
            &&& parts[i] matches AddressPart::Ip4(octets) ==> first_ip(parts) == Some(IpAddr::V4(octets))
            &&& parts[i] matches AddressPart::Ip6(octets) ==> first_ip(parts) == Some(IpAddr::V6(octets))
        },
    decreases i,
{
    if i > 0 {
        let rest = parts.skip(1);
        assert(parts[0] is Other);
        assert forall|j: int| 0 <= j < i - 1 implies #[trigger] rest[j] is Other by {
            assert(rest[j] == parts[j + 1]);
        }
        law_first_ip(rest, i - 1);
        if i < parts.len() {
            assert(rest[i - 1] == parts[i]);
        }
    }
}

/// A peer is disconnected exactly if its connection is one too many: 20 are open
/// from its group, or 30 were attempted within the running minute. Else nothing is
/// to be done, and so it is where the address is not an IP address.
pub proof fn law_new_connection(
    state: AnchorState,
    connection: u64,
    peer: Vec<u8>,
    endpoint: Endpoint,
    now: u64,
    action: Action,
)
    requires
        state.leads_to((Event::ConnectionEstablished { connection, peer, endpoint }), now, action),
    ensures
        ({
            let ip = first_ip(remote_address(endpoint));
            let group = group_of(ip->0);
            let record = state.shield.ips[group];
            let too_many = ip is Some && state.shield.ips.contains_key(group) && (record.active >= 20 || (
            record.rate_count >= 30 && now - record.window < 60_000_000_000));
            let after = state.after((Event::ConnectionEstablished { connection, peer, endpoint }), now);
            &&& too_many ==> action == (Action::Disconnect { peer }) && after.admitted == state.admitted
            &&& !too_many ==> action == Action::Nothing
            &&& !too_many && ip is Some ==> after.admitted == state.admitted.insert(connection, ip->0)
            &&& ip is None ==> after == state
            &&& ip is Some ==> after.shield == state.shield.connected(group, now)
            &&& after.keys == state.keys
            &&& after.secret == state.secret
        }),
{
    if let Some(ip) = first_ip(remote_address(endpoint)) {
        law_connection_is_let_in(state.shield, group_of(ip), now);
    }
}

/// A close counts down the group of the address that the connection came from, if
/// it was let in, and takes the peer's public key out of memory.
pub proof fn law_closed_connection(state: AnchorState, connection: u64, peer: Vec<u8>, now: u64, action: Action)
    requires
        state.leads_to((Event::ConnectionClosed { connection, peer }), now, action),
    ensures
        ({
            let after = state.after((Event::ConnectionClosed { connection, peer }), now);
            &&& action == Action::Nothing
            &&& state.admitted.contains_key(connection) ==> after.shield == state.shield.disconnected(
                group_of(state.admitted[connection]),
            )
            &&& !state.admitted.contains_key(connection) ==> after.shield == state.shield
            &&& after.admitted == state.admitted.remove(connection)
            &&& after.keys == state.keys.remove(peer@)
            &&& after.secret == state.secret
        }),
{
}

/// A request over 15 within a minute is answered 429. Else an envelope is stored as
/// it came, a fetch goes to the mailbox of the caller's own public key, or is
/// answered 403 where that is not known, and a token is kept as it came, under the
/// digest of the token, deciphered, and the secret.
pub proof fn law_request(state: AnchorState, peer: Vec<u8>, request: GlyphRequest, now: u64, action: Action)
    requires
        state.leads_to((Event::Request { peer, request }), now, action),
    ensures
        ({
            let record = state.shield.peers[peer@];
            let over = state.shield.peers.contains_key(peer@) && record.ops >= 15 && now - record.window
                < 60_000_000_000;
            if over {
                action == (Action::Respond { response: GlyphResponse::Error { code: 429 } })
            } else {
                match request {
                    GlyphRequest::Store { recipient_hash, payload } => action == (Action::Store {
                        recipient_hash,
                        payload,
                    }),
                    GlyphRequest::Fetch => if state.keys.contains_key(peer@) {
                        action is Fetch && action->Fetch_public_key@ == state.keys[peer@]
                    } else {
                        action == (Action::Respond { response: GlyphResponse::Error { code: 403 } })
                    },
                    GlyphRequest::RegisterToken { recipient_hash, encrypted_token, expiry } => {
                        &&& action is RegisterToken
                        &&& action->RegisterToken_recipient_hash == recipient_hash
                        &&& action->RegisterToken_encrypted_token == encrypted_token
                        &&& action->RegisterToken_expiry == expiry
                        &&& action->RegisterToken_blind_key@ == sha256_digest(
                            Seq::new(
                                encrypted_token@.len(),
                                |i: int| encrypted_token@[i] ^ state.secret[i % 32],
                            ) + state.secret,
                        )
                    },
                }
            }
        }),
        state.after((Event::Request { peer, request }), now) == (AnchorState {
            shield: state.shield.asked(peer@, now),
            ..state
        }),
{
    law_request_is_let_in(state.shield, peer@, now);
    if let GlyphRequest::RegisterToken { encrypted_token, .. } = request {
        let raw = Seq::new(encrypted_token@.len(), |i: int| encrypted_token@[i] ^ state.secret[i % 32]);
        assert(xored(encrypted_token@, state.secret) =~= raw);
    }
}

/// What the other events change: an identified peer's public key is known, denials
/// are counted, and stale records are forgotten. None of them leads to anything.
pub proof fn law_other_events(state: AnchorState, peer: Vec<u8>, public_key: Vec<u8>, now: u64, action: Action)
    ensures
        state.leads_to((Event::Identified { peer, public_key }), now, action) <==> action == Action::Nothing,
        state.leads_to(Event::ReservationDenied, now, action) <==> action == Action::Nothing,
        state.leads_to(Event::CircuitDenied, now, action) <==> action == Action::Nothing,
        state.leads_to(Event::CleanupDue, now, action) <==> action == Action::Nothing,
        state.after((Event::Identified { peer, public_key }), now) == (AnchorState {
            keys: state.keys.insert(peer@, public_key@),
            ..state
        }),
        state.shield.relay_denials < u64::MAX ==> state.after(Event::ReservationDenied, now) == (AnchorState {
            shield: ShieldState { relay_denials: (state.shield.relay_denials + 1) as u64, ..state.shield },
            ..state
        }),
        state.shield.relay_denials == u64::MAX ==> state.after(Event::ReservationDenied, now) == state,
        state.shield.circuit_denials < u64::MAX ==> state.after(Event::CircuitDenied, now) == (AnchorState {
            shield: ShieldState { circuit_denials: (state.shield.circuit_denials + 1) as u64, ..state.shield },
            ..state
        }),
        state.shield.circuit_denials == u64::MAX ==> state.after(Event::CircuitDenied, now) == state,
        state.after(Event::CleanupDue, now) == (AnchorState { shield: state.shield.cleaned(now), ..state }),
{
}

/// An anchor that has seen nothing has no record, no open connection and no public
/// key.
pub proof fn law_new_anchor(secret: Seq<u8>)
    ensures
        AnchorState::new(secret).shield == ShieldState::empty(),
        AnchorState::new(secret).admitted == Map::<u64, IpAddr>::empty(),
        AnchorState::new(secret).keys == Map::<Seq<u8>, Seq<u8>>::empty(),
        AnchorState::new(secret).secret == secret,
{
}

} // verus!
