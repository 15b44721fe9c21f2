//! One symmetric node: who is let in, what incoming frames mean, and what is
//! sent to whom.
//!
//! The node holds no sockets. Each connection has a number, given by whoever
//! opened it, and everything the node wants done is handed back as a list of
//! effects: something to show, a frame to send down a connection, a connection
//! to close, a peer to dial.

use crate::bytes;
use crate::crypto;
use crate::crypto::Keypair;
use crate::handshake;
use crate::messages;
use crate::messages::{Message, MessageView};
use crate::peers;
use crate::peers::{
    Admission, AdmissionView, NameClash, NameClashView, Peer, PeerRegistry, PeerView, Rejection,
    RegistryView,
};
use crate::protocol;
use crate::protocol::{
    Frame, FrameView, PeerInfo, PeerInfoView, ProtocolError, Ticket, TicketView,
};
use crate::room;
use crate::room::RoomCode;
use crate::text;
use vstd::prelude::*;
use vstd::string::*;
use vstd::utf8::*;

pub mod connection;

verus! {

/// How long a peer has to complete the handshake, in seconds. Without a limit, a
/// connection that opens and then says nothing would be kept forever.
pub const HANDSHAKE_TIMEOUT_SECONDS: u64 = 10;

/// How many frames may queue for one peer. A peer that stops reading must slow
/// us down rather than grow our memory without limit.
pub const SEND_QUEUE_DEPTH: usize = 64;

/// How many entries of one peer list are considered.
pub const MAX_GOSSIP: usize = 64;

/// Something worth telling the user about.
#[derive(Debug, PartialEq, Eq)]
pub enum Event {
    Listening(String),
    PeerJoined { name: String, fingerprint: String },
    PeerLeft { name: String, fingerprint: String },
    /// Two different keys present names that read the same. One of them may be
    /// our own.
    NameConflict { name: String, existing: String, incoming: String, impersonating_you: bool },
    Message { from: String, fingerprint: String, content: String },
    Notice(String),
    Warning(String),
}

/// What an `Event` says.
pub enum EventView {
    Listening(Seq<char>),
    PeerJoined { name: Seq<char>, fingerprint: Seq<char> },
    PeerLeft { name: Seq<char>, fingerprint: Seq<char> },
    NameConflict {
        name: Seq<char>,
        existing: Seq<char>,
        incoming: Seq<char>,
        impersonating_you: bool,
    },
    Message { from: Seq<char>, fingerprint: Seq<char>, content: Seq<char> },
    Notice(Seq<char>),
    Warning(Seq<char>),
}

impl View for Event {
    type V = EventView;

    open spec fn view(&self) -> EventView {
        match self {
            Event::Listening(addr) => EventView::Listening(addr@),
            Event::PeerJoined { name, fingerprint } => EventView::PeerJoined {
                name: name@,
                fingerprint: fingerprint@,
            },
            Event::PeerLeft { name, fingerprint } => EventView::PeerLeft {
                name: name@,
                fingerprint: fingerprint@,
            },
            Event::NameConflict { name, existing, incoming, impersonating_you } =>
                EventView::NameConflict {
                name: name@,
                existing: existing@,
                incoming: incoming@,
                impersonating_you: *impersonating_you,
            },
            Event::Message { from, fingerprint, content } => EventView::Message {
                from: from@,
                fingerprint: fingerprint@,
                content: content@,
            },
            Event::Notice(words) => EventView::Notice(words@),
            Event::Warning(words) => EventView::Warning(words@),
        }
    }
}

/// Why a connection ended.
#[derive(Debug, PartialEq, Eq)]
pub enum ConnError {
    Io(String),
    Protocol(ProtocolError),
    /// A line exceeded the limit.
    Oversized,
    HandshakeTimeout,
    ClosedDuringHandshake,
    ExpectedHello,
    InvalidIdentity(&'static str),
    /// The peer did not show that it holds the room's code.
    NotInvited,
    Rejected(Rejection),
}

impl ConnError {
    /// What the error says.
    pub open spec fn text(&self) -> Seq<char> {
        match self {
            ConnError::Io(why) => "io error: "@ + why@,
            ConnError::Protocol(e) => e.text(),
            ConnError::Oversized => "peer sent an oversized line"@,
            ConnError::HandshakeTimeout => "peer did not complete the handshake in time"@,
            ConnError::ClosedDuringHandshake => "peer closed during the handshake"@,
            ConnError::ExpectedHello => "peer's first frame was not a Hello"@,
            ConnError::InvalidIdentity(why) => "peer presented an invalid identity: "@ + why@,
            ConnError::NotInvited => "peer could not prove that it holds the room code"@,
            ConnError::Rejected(Rejection::SelfConnection) => "connected to ourselves"@,
            ConnError::Rejected(Rejection::DuplicateConnection) =>
                "already connected to this peer"@,
        }
    }

    /// The error in words.
    pub fn message(&self) -> (words: String)
        ensures
            words@ == self.text(),
    {
        match self {
            ConnError::Io(why) => {
                let mut words = "io error: ".to_owned();
                words.append(why.as_str());
                words
            },
            ConnError::Protocol(e) => e.message(),
            ConnError::Oversized => "peer sent an oversized line".to_owned(),
            ConnError::HandshakeTimeout => {
                "peer did not complete the handshake in time".to_owned()
            },
            ConnError::ClosedDuringHandshake => "peer closed during the handshake".to_owned(),
            ConnError::ExpectedHello => "peer's first frame was not a Hello".to_owned(),
            ConnError::InvalidIdentity(why) => {
                let mut words = "peer presented an invalid identity: ".to_owned();
                words.append(why);
                words
            },
            ConnError::NotInvited => "peer could not prove that it holds the room code".to_owned(),
            ConnError::Rejected(Rejection::SelfConnection) => "connected to ourselves".to_owned(),
            ConnError::Rejected(Rejection::DuplicateConnection) => {
                "already connected to this peer".to_owned()
            },
        }
    }
}

/// The words for a connection that ended for a reason.
pub open spec fn ended_words(peer_ip: Seq<char>, inbound: bool, reason: Seq<char>) -> Seq<char> {
    "connection "@ + (if inbound {
        "from "@
    } else {
        "to "@
    }) + peer_ip + " ended: "@ + reason
}

/// What is said about a connection that ended, if anything is. Losing a tiebreak
/// is the system working, not a fault.
pub open spec fn obituary(peer_ip: Seq<char>, inbound: bool, e: ConnError) -> Option<EventView> {
    if e == ConnError::Rejected(Rejection::DuplicateConnection) {
        None
    } else {
        Some(EventView::Warning(ended_words(peer_ip, inbound, e.text())))
    }
}

/// What is said about a connection that ended.
pub fn serve_ended(peer_ip: &str, inbound: bool, e: &ConnError) -> (said: Option<Event>)
    ensures
        match said {
            Some(event) => obituary(peer_ip@, inbound, *e) == Some(event@),
            None => obituary(peer_ip@, inbound, *e) is None,
        },
{
    match e {
        ConnError::Rejected(Rejection::DuplicateConnection) => None,
        _ => {
            let mut words = "connection ".to_owned();
            if inbound {
                words.append("from ");
            } else {
                words.append("to ");
            }
            words.append(peer_ip);
            words.append(" ended: ");
            words.append(e.message().as_str());
            Some(Event::Warning(words))
        },
    }
}

// ---------------------------------------------------------------------------
// The node
// ---------------------------------------------------------------------------
/// Something that the node wants done.
#[derive(Debug, PartialEq, Eq)]
pub enum Effect {
    /// Tell the user.
    Emit(Event),
    /// Send a frame down a connection.
    Send { connection: u64, frame: Frame },
    /// Send a ticket down a connection.
    Present { connection: u64, ticket: Ticket },
    /// Close a connection.
    Close(u64),
    /// Dial a peer.
    Dial(PeerInfo),
}

/// What an `Effect` is.
pub enum EffectView {
    Emit(EventView),
    Send { connection: u64, frame: FrameView },
    Present { connection: u64, ticket: TicketView },
    Close(u64),
    Dial(PeerInfoView),
}

impl View for Effect {
    type V = EffectView;

    open spec fn view(&self) -> EffectView {
        match self {
            Effect::Emit(event) => EffectView::Emit(event@),
            Effect::Send { connection, frame } => EffectView::Send {
                connection: *connection,
                frame: frame@,
            },
            Effect::Present { connection, ticket } => EffectView::Present {
                connection: *connection,
                ticket: ticket@,
            },
            Effect::Close(connection) => EffectView::Close(*connection),
            Effect::Dial(info) => EffectView::Dial(info@),
        }
    }
}

/// What several effects are.
pub open spec fn effect_views(effects: Seq<Effect>) -> Seq<EffectView> {
    effects.map_values(|e: Effect| e@)
}

/// A node: an identity, the peers it is connected to, and those it is dialling.
pub struct Node {
    identity: Keypair,
    listen_addr: String,
    /// The code of the room that the node is in, if it is in one.
    room: Option<RoomCode>,
    registry: PeerRegistry,
    /// The connection to each peer, in the registry's order.
    connections: Vec<u64>,
    /// The keys of the peers that are being dialled because of gossip.
    dialing: Vec<Vec<u8>>,
}

/// What a `Node` holds.
#[verifier::ext_equal]
pub struct NodeView {
    pub public_key: Seq<u8>,
    pub secret_key: Seq<u8>,
    pub listen_addr: Seq<char>,
    pub room: Option<Seq<u8>>,
    pub registry: RegistryView,
    pub connections: Seq<u64>,
    pub dialing: Seq<Seq<u8>>,
}

/// The views of several keys.
pub open spec fn key_views(keys: Seq<Vec<u8>>) -> Seq<Seq<u8>> {
    keys.map_values(|key: Vec<u8>| key@)
}

/// The view of a room code that there may be.
pub open spec fn room_view(room: Option<RoomCode>) -> Option<Seq<u8>> {
    match room {
        Some(code) => Some(code@),
        None => None,
    }
}

impl View for Node {
    type V = NodeView;

    closed spec fn view(&self) -> NodeView {
        NodeView {
            public_key: self.identity.public_key@,
            secret_key: self.identity.secret_key@,
            listen_addr: self.listen_addr@,
            room: room_view(self.room),
            registry: self.registry@,
            connections: self.connections@,
            dialing: key_views(self.dialing@),
        }
    }
}

impl NodeView {
    /// The node is the one that its registry speaks for, it has one connection
    /// for each peer, and every key has the right length.
    pub open spec fn valid(self) -> bool {
        &&& self.secret_key.len() == crypto::KEY_LEN
        &&& self.public_key.len() == crypto::KEY_LEN
        &&& self.registry.me == self.public_key
        &&& self.registry.valid()
        &&& self.connections.len() == self.registry.peers.len()
        &&& forall|i: int|
            0 <= i < self.registry.peers.len() ==> (#[trigger] self.registry.peers[i]).public_key.len()
                == crypto::KEY_LEN
    }

    /// Whether the public key is the one that belongs to the secret key.
    pub open spec fn keys_match(self) -> bool {
        self.public_key == crypto::x25519_public(self.secret_key)
    }

    /// Our own name.
    pub open spec fn name(self) -> Seq<char> {
        self.registry.my_name
    }

    /// Whether this very connection is the one that is held to the peer with
    /// that key.
    pub open spec fn is_current(self, key: Seq<u8>, connection: u64) -> bool {
        exists|i: int|
            0 <= i < self.registry.peers.len() && (#[trigger] self.registry.peers[i]).public_key
                == key && self.connections[i] == connection
    }
}

/// Where the peer with that key is in the list.
pub open spec fn slot(peers: Seq<PeerView>, key: Seq<u8>) -> int {
    choose|i: int| 0 <= i < peers.len() && (#[trigger] peers[i]).public_key == key
}

/// The keys other than that one.
pub open spec fn without_key(keys: Seq<Seq<u8>>, key: Seq<u8>) -> Seq<Seq<u8>> {
    keys.filter(|k: Seq<u8>| k != key)
}

/// How we introduce ourselves.
pub open spec fn hello(node: NodeView) -> FrameView {
    FrameView::Hello {
        name: node.name(),
        public_key: node.public_key,
        listen_addr: node.listen_addr,
    }
}

/// The list of our peers, for gossip.
pub open spec fn roster(registry: RegistryView) -> FrameView {
    FrameView::Peers { peers: registry.peers.map_values(|p: PeerView| peers::info_of(p)) }
}

/// The same frame down several connections.
pub open spec fn broadcast_to(connections: Seq<u64>, frame: FrameView) -> Seq<EffectView> {
    connections.map_values(|c: u64| EffectView::Send { connection: c, frame })
}

// ---------------------------------------------------------------------------
// Joining and leaving
// ---------------------------------------------------------------------------
/// The node after a connection whose handshake completed. Whatever becomes of
/// it, the peer is no longer being dialled.
pub open spec fn joined_node(
    node: NodeView,
    peer: PeerView,
    inbound: bool,
    connection: u64,
) -> NodeView {
    NodeView {
        registry: peers::admitted(node.registry, peer, inbound),
        connections: match peers::admission(node.registry, peer, inbound) {
            AdmissionView::Rejected(_) => node.connections,
            AdmissionView::Superseded => node.connections.update(
                slot(node.registry.peers, peer.public_key),
                connection,
            ),
            AdmissionView::Admitted { .. } => node.connections.push(connection),
        },
        dialing: without_key(node.dialing, peer.public_key),
        ..node
    }
}

/// The warning about a newcomer's name, where one is due.
pub open spec fn conflict_effects(
    node: NodeView,
    peer: PeerView,
    name_conflict: Option<NameClashView>,
) -> Seq<EffectView> {
    match name_conflict {
        None => Seq::empty(),
        Some(NameClashView::WithYou) => seq![
            EffectView::Emit(
                EventView::NameConflict {
                    name: peer.name,
                    existing: crypto::fingerprint_text(node.public_key),
                    incoming: peer.fingerprint,
                    impersonating_you: true,
                },
            ),
        ],
        Some(NameClashView::WithPeer { fingerprint }) => seq![
            EffectView::Emit(
                EventView::NameConflict {
                    name: peer.name,
                    existing: fingerprint,
                    incoming: peer.fingerprint,
                    impersonating_you: false,
                },
            ),
        ],
    }
}

/// What a connection whose handshake completed brings about. A newcomer is
/// announced, and everyone is told who is here now. A connection that supersedes
/// another closes it and stays quiet, and its peer is told who is here.
pub open spec fn join_effects(
    node: NodeView,
    peer: PeerView,
    inbound: bool,
    connection: u64,
) -> Seq<EffectView> {
    let after = joined_node(node, peer, inbound, connection);
    match peers::admission(node.registry, peer, inbound) {
        AdmissionView::Rejected(_) => Seq::empty(),
        AdmissionView::Superseded => seq![
            EffectView::Close(node.connections[slot(node.registry.peers, peer.public_key)]),
            EffectView::Send { connection, frame: roster(after.registry) },
        ],
        AdmissionView::Admitted { name_conflict } => conflict_effects(node, peer, name_conflict)
            + seq![
            EffectView::Emit(
                EventView::PeerJoined { name: peer.name, fingerprint: peer.fingerprint },
            ),
        ] + broadcast_to(after.connections, roster(after.registry)),
    }
}

/// The node after a connection closed. A connection that was superseded must not
/// take its successor with it.
pub open spec fn left_node(node: NodeView, key: Seq<u8>, connection: u64) -> NodeView {
    if node.is_current(key, connection) {
        NodeView {
            registry: peers::removed(node.registry, key),
            connections: node.connections.remove(slot(node.registry.peers, key)),
            ..node
        }
    } else {
        node
    }
}

/// What a connection that closed brings about.
pub open spec fn leave_effects(node: NodeView, key: Seq<u8>, connection: u64) -> Seq<EffectView> {
    if node.is_current(key, connection) {
        let peer = node.registry.peers[slot(node.registry.peers, key)];
        let after = left_node(node, key, connection);
        seq![
            EffectView::Emit(
                EventView::PeerLeft { name: peer.name, fingerprint: peer.fingerprint },
            ),
        ] + broadcast_to(after.connections, roster(after.registry))
    } else {
        Seq::empty()
    }
}

proof fn lemma_slot(registry: RegistryView, i: int)
    requires
        registry.valid(),
        0 <= i < registry.peers.len(),
    ensures
        slot(registry.peers, registry.peers[i].public_key) == i,
{
    let key = registry.peers[i].public_key;
    let j = slot(registry.peers, key);
    assert(0 <= j < registry.peers.len() && registry.peers[j].public_key == key);
    if i < j {
        assert(registry.peers[i].public_key != registry.peers[j].public_key);
    } else if j < i {
        assert(registry.peers[j].public_key != registry.peers[i].public_key);
    }
}

impl Node {
    /// A node that nobody is connected to yet.
    pub fn new(
        name: String,
        identity: Keypair,
        listen_addr: String,
        room: Option<RoomCode>,
    ) -> (node: Self)
        requires
            identity.public_key@.len() == crypto::KEY_LEN,
            identity.secret_key@.len() == crypto::KEY_LEN,
        ensures
            node@ == (NodeView {
                public_key: identity.public_key@,
                secret_key: identity.secret_key@,
                listen_addr: listen_addr@,
                room: room_view(room),
                registry: RegistryView {
                    me: identity.public_key@,
                    my_name: name@,
                    peers: Seq::empty(),
                },
                connections: Seq::empty(),
                dialing: Seq::empty(),
            }),
            node@.valid(),
    {
        let registry = PeerRegistry::new(identity.public_key.clone(), name);
        let node = Node {
            identity,
            listen_addr,
            room,
            registry,
            connections: Vec::new(),
            dialing: Vec::new(),
        };
        assert(node@.connections =~= Seq::<u64>::empty());
        assert(node@.dialing =~= Seq::<Seq<u8>>::empty());
        node
    }

    pub fn name(&self) -> (name: &str)
        ensures
            name@ == self@.name(),
    {
        self.registry.my_name()
    }

    pub fn public_key(&self) -> (key: &[u8])
        ensures
            key@ == self@.public_key,
    {
        self.identity.public_key.as_slice()
    }

    pub fn fingerprint(&self) -> (text: String)
        ensures
            text@ == crypto::fingerprint_text(self@.public_key),
    {
        crypto::fingerprint(self.identity.public_key.as_slice())
    }

    /// The port that we accept connections on.
    pub fn listen_port(&self) -> (port: Option<u16>)
        ensures
            match port {
                Some(p) => handshake::port_in(self@.listen_addr) == Some(p as nat),
                None => handshake::port_in(self@.listen_addr) is None,
            },
    {
        handshake::port_of(self.listen_addr.as_str())
    }

    /// Everyone we are connected to.
    pub fn peers(&self) -> (all: &[Peer])
        ensures
            peers::peer_views(all@) == self@.registry.peers,
    {
        self.registry.all()
    }

    /// How we introduce ourselves, on every connection.
    pub fn hello(&self) -> (frame: Frame)
        ensures
            frame@ == hello(self@),
    {
        Frame::Hello {
            name: self.registry.my_name().to_owned(),
            public_key: self.identity.public_key.clone(),
            listen_addr: self.listen_addr.clone(),
        }
    }

    /// The list of our peers, for gossip.
    fn roster(&self) -> (frame: Frame)
        ensures
            frame@ == roster(self@.registry),
    {
        let all = self.registry.all();
        let ghost views = self@.registry.peers;
        let mut infos: Vec<PeerInfo> = Vec::new();
        for i in 0..all.len()
            invariant
                views == peers::peer_views(all@),
                infos@.len() == i,
                forall|j: int| 0 <= j < i ==> (#[trigger] infos@[j])@ == peers::info_of(views[j]),
        {
            assert(views[i as int] == all@[i as int]@);
            infos.push(all[i].to_info());
        }
        assert(protocol::info_views(infos@) =~= views.map_values(|p: PeerView| peers::info_of(p)));
        Frame::Peers { peers: infos }
    }

    /// Adds the list of our peers for everyone to the effects.
    fn broadcast_roster(&self, effects: &mut Vec<Effect>)
        ensures
            effect_views(final(effects)@) == effect_views(old(effects)@) + broadcast_to(
                self@.connections,
                roster(self@.registry),
            ),
    {
        let ghost before = effects@;
        let ghost frame = roster(self@.registry);
        for i in 0..self.connections.len()
            invariant
                frame == roster(self@.registry),
                effects@.len() == before.len() + i,
                forall|j: int| 0 <= j < before.len() ==> #[trigger] effects@[j] == before[j],
                forall|j: int|
                    before.len() <= j < before.len() + i ==> (#[trigger] effects@[j])@ == (
                    EffectView::Send { connection: self@.connections[j - before.len()], frame }),
        {
            effects.push(Effect::Send { connection: self.connections[i], frame: self.roster() });
        }
        assert(effect_views(effects@) =~= effect_views(before) + broadcast_to(
            self@.connections,
            frame,
        ));
    }

    /// The peer with that key is no longer being dialled.
    fn stop_dialing(&mut self, key: &[u8])
        ensures
            final(self)@ == (NodeView {
                dialing: without_key(old(self)@.dialing, key@),
                ..old(self)@
            }),
    {
        let mut kept: Vec<Vec<u8>> = Vec::new();
        let ghost all = self@.dialing;
        proof {
            reveal(Seq::filter);
            assert(all.take(0) =~= Seq::<Seq<u8>>::empty());
            assert(key_views(kept@) =~= Seq::<Seq<u8>>::empty());
        }
        for i in 0..self.dialing.len()
            invariant
                all == key_views(self.dialing@),
                key_views(kept@) == without_key(all.take(i as int), key@),
        {
            proof {
                reveal(Seq::filter);
                assert(all.take(i + 1).drop_last() =~= all.take(i as int));
            }
            let ghost before = kept@;
            if !bytes::same_bytes(self.dialing[i].as_slice(), key) {
                kept.push(self.dialing[i].clone());
                assert(key_views(kept@) =~= key_views(before).push(all[i as int]));
            }
        }
        assert(all.take(all.len() as int) =~= all);
        self.dialing = kept;
    }


    /// A connection whose handshake completed joins, or is turned away.
    pub fn join(&mut self, peer: Peer, inbound: bool, connection: u64) -> (outcome: Result<
        Vec<Effect>,
        ConnError,
    >)
        requires
            old(self)@.valid(),
            peer@.public_key.len() == crypto::KEY_LEN,
        ensures
            final(self)@ == joined_node(old(self)@, peer@, inbound, connection),
            final(self)@.valid(),
            match outcome {
                Ok(effects) => {
                    &&& !(peers::admission(old(self)@.registry, peer@, inbound) is Rejected)
                    &&& effect_views(effects@) == join_effects(
                        old(self)@,
                        peer@,
                        inbound,
                        connection,
                    )
                },
                Err(e) => {
                    &&& e matches ConnError::Rejected(reason)
                    &&& peers::admission(old(self)@.registry, peer@, inbound)
                        == AdmissionView::Rejected(reason)
                },
            },
    {
        let ghost before = self@;
        let ghost newcomer = peer@;
        let ghost after = joined_node(before, newcomer, inbound, connection);
        self.stop_dialing(peer.public_key.as_slice());
        let name = peer.name.clone();
        let fingerprint = peer.fingerprint.clone();
        let at = self.registry.position(peer.public_key.as_slice());
        let admission = self.registry.accept(peer, inbound);
        let mut effects: Vec<Effect> = Vec::new();
        assert(effect_views(effects@) =~= Seq::<EffectView>::empty());
        match admission {
            Admission::Rejected(reason) => {
                assert(self@ =~= after);
                Err(ConnError::Rejected(reason))
            },
            Admission::Superseded => {
                match at {
                    Some(at) => {
                        proof {
                            lemma_slot(before.registry, at as int);
                        }
                        effects.push(Effect::Close(self.connections[at]));
                        self.connections.set(at, connection);
                    },
                    None => {},
                }
                effects.push(Effect::Send { connection, frame: self.roster() });
                assert(effect_views(effects@) =~= join_effects(
                    before,
                    newcomer,
                    inbound,
                    connection,
                ));
                assert forall|i: int| 0 <= i < after.registry.peers.len() implies (
                #[trigger] after.registry.peers[i]).public_key.len() == crypto::KEY_LEN by {
                    assert(before.registry.peers[i].public_key.len() == crypto::KEY_LEN);
                }
                Ok(effects)
            },
            Admission::Admitted { name_conflict } => {
                self.connections.push(connection);
                let ghost clash = peers::clash(before.registry, newcomer.name);
                match name_conflict {
                    None => {},
                    Some(NameClash::WithYou) => {
                        effects.push(
                            Effect::Emit(
                                Event::NameConflict {
                                    name: name.clone(),
                                    existing: self.fingerprint(),
                                    incoming: fingerprint.clone(),
                                    impersonating_you: true,
                                },
                            ),
                        );
                    },
                    Some(NameClash::WithPeer { fingerprint: existing }) => {
                        effects.push(
                            Effect::Emit(
                                Event::NameConflict {
                                    name: name.clone(),
                                    existing,
                                    incoming: fingerprint.clone(),
                                    impersonating_you: false,
                                },
                            ),
                        );
                    },
                }
                assert(effect_views(effects@) =~= conflict_effects(before, newcomer, clash));
                let ghost warned = effects@;
                effects.push(Effect::Emit(Event::PeerJoined { name, fingerprint }));
                assert(effect_views(effects@) =~= effect_views(warned) + seq![
                    EffectView::Emit(
                        EventView::PeerJoined {
                            name: newcomer.name,
                            fingerprint: newcomer.fingerprint,
                        },
                    ),
                ]);
                self.broadcast_roster(&mut effects);
                Ok(effects)
            },
        }
    }

    /// A connection to the peer with that key closed.
    ///
    /// A superseded connection ends here too, and must not evict the one that
    /// replaced it.
    pub fn disconnect(&mut self, key: &[u8], connection: u64) -> (effects: Vec<Effect>)
        requires
            old(self)@.valid(),
        ensures
            final(self)@ == left_node(old(self)@, key@, connection),
            final(self)@.valid(),
            effect_views(effects@) == leave_effects(old(self)@, key@, connection),
    {
        let ghost before = self@;
        let mut effects: Vec<Effect> = Vec::new();
        match self.registry.position(key) {
            Some(at) => {
                proof {
                    lemma_slot(before.registry, at as int);
                }
                if self.connections[at] != connection {
                    proof {
                        if before.is_current(key@, connection) {
                            let i = choose|i: int|
                                0 <= i < before.registry.peers.len() && (
                                #[trigger] before.registry.peers[i]).public_key == key@
                                    && before.connections[i] == connection;
                            lemma_slot(before.registry, i);
                        }
                        assert(effect_views(effects@) =~= Seq::<EffectView>::empty());
                    }
                    return effects;
                }
                assert(before.registry.peers[at as int].public_key == key@);
                assert(before.is_current(key@, connection));
                let all = self.registry.all();
                assert(all@[at as int]@ == before.registry.peers[at as int]);
                let name = all[at].name.clone();
                let fingerprint = all[at].fingerprint.clone();
                self.registry.remove(key);
                self.connections.remove(at);
                proof {
                    lemma_removed_at(before.registry, at as int);
                    let after = left_node(before, key@, connection);
                    assert forall|i: int| 0 <= i < after.registry.peers.len() implies (
                    #[trigger] after.registry.peers[i]).public_key.len() == crypto::KEY_LEN by {
                        let j = if i < at {
                            i
                        } else {
                            i + 1
                        };
                        assert(before.registry.peers[j].public_key.len() == crypto::KEY_LEN);
                    }
                }
                effects.push(Effect::Emit(Event::PeerLeft { name, fingerprint }));
                assert(effect_views(effects@) =~= seq![
                    EffectView::Emit(
                        EventView::PeerLeft {
                            name: before.registry.peers[at as int].name,
                            fingerprint: before.registry.peers[at as int].fingerprint,
                        },
                    ),
                ]);
                self.broadcast_roster(&mut effects);
            },
            None => {
                assert(!before.is_current(key@, connection));
                assert(effect_views(effects@) =~= Seq::<EffectView>::empty());
            },
        }
        effects
    }
}

proof fn lemma_removed_at(registry: RegistryView, at: int)
    requires
        registry.valid(),
        0 <= at < registry.peers.len(),
    ensures
        peers::removed(registry, registry.peers[at].public_key).peers == registry.peers.remove(at),
{
    let all = registry.peers;
    assert forall|i: int| 0 <= i < all.len() && i != at implies (#[trigger] all[i]).public_key
        != all[at].public_key by {
        if i < at {
            assert(all[i].public_key != all[at].public_key);
        } else {
            assert(all[at].public_key != all[i].public_key);
        }
    }
    peers::lemma_filter_one(all, at);
}

// ---------------------------------------------------------------------------
// Incoming frames
// ---------------------------------------------------------------------------
/// What a sealed message from a peer comes to: the message, if it opens, can be
/// read, and is signed with the name that the peer's handshake established.
pub open spec fn chat_event(
    node: NodeView,
    peer: PeerView,
    ciphertext: Seq<u8>,
    nonce: Seq<u8>,
) -> EventView {
    match crypto::opened(ciphertext, nonce, node.secret_key, peer.public_key) {
        Err(_) => EventView::Warning("could not decrypt a message from "@ + peer.name),
        Ok(plaintext) => match plain_message(plaintext) {
            None => EventView::Warning("could not understand a message from "@ + peer.name),
            Some(message) => if message.from != peer.name {
                EventView::Warning(
                    peer.name + " sent a message signed "@ + message.from + "; discarded"@,
                )
            } else {
                EventView::Message {
                    from: message.from,
                    fingerprint: peer.fingerprint,
                    content: message.content,
                }
            },
        },
    }
}

/// The message that a plaintext says, if it is text and says one.
pub open spec fn plain_message(plaintext: Seq<u8>) -> Option<MessageView> {
    if valid_utf8(plaintext) {
        messages::message_said(decode_utf8(plaintext))
    } else {
        None
    }
}

/// The entries of a peer list that are considered: the first of them, up to a
/// limit, without those that no handshake could have produced.
pub open spec fn credible(gossiped: Seq<PeerInfoView>) -> Seq<PeerInfoView> {
    let considered = if gossiped.len() > MAX_GOSSIP {
        gossiped.take(MAX_GOSSIP as int)
    } else {
        gossiped
    };
    considered.filter(|info: PeerInfoView| handshake::identity_flaw(info) is None)
}

/// Whom to dial because of a peer list: the credible entries that we are neither
/// connected to nor dialling already.
pub open spec fn to_dial(node: NodeView, gossiped: Seq<PeerInfoView>) -> Seq<PeerInfoView> {
    peers::undialed(node.registry, credible(gossiped)).filter(
        |info: PeerInfoView| !node.dialing.contains(info.public_key),
    )
}

/// The warning about a peer list that is too long.
pub open spec fn gossip_warning(peer: PeerView, count: nat) -> Seq<EffectView> {
    if count > MAX_GOSSIP {
        seq![
            EffectView::Emit(
                EventView::Warning(
                    peer.name + " gossiped "@ + text::decimal(count)
                        + " peers; only the first 64 are considered"@,
                ),
            ),
        ]
    } else {
        Seq::empty()
    }
}

/// What a peer list brings about.
pub open spec fn gossip_effects(
    node: NodeView,
    peer: PeerView,
    gossiped: Seq<PeerInfoView>,
) -> Seq<EffectView> {
    gossip_warning(peer, gossiped.len()) + to_dial(node, gossiped).map_values(
        |info: PeerInfoView| EffectView::Dial(info),
    )
}

/// The node after a peer list: what it dials, it remembers.
pub open spec fn gossiped_node(node: NodeView, gossiped: Seq<PeerInfoView>) -> NodeView {
    NodeView {
        dialing: node.dialing + to_dial(node, gossiped).map_values(
            |info: PeerInfoView| info.public_key,
        ),
        ..node
    }
}

/// The node after a line from a peer.
pub open spec fn heard_node(node: NodeView, line: Seq<char>) -> NodeView {
    match protocol::decoding(line) {
        Some(FrameView::Peers { peers }) => gossiped_node(node, peers),
        _ => node,
    }
}

/// What a line from a peer brings about.
pub open spec fn heard_effects(node: NodeView, peer: PeerView, line: Seq<char>) -> Seq<EffectView> {
    match protocol::decoding(line) {
        Some(FrameView::Peers { peers }) => gossip_effects(node, peer, peers),
        Some(FrameView::Chat { ciphertext, nonce }) => seq![
            EffectView::Emit(chat_event(node, peer, ciphertext, nonce)),
        ],
        _ => Seq::empty(),
    }
}

/// The credible entries of a peer list.
fn credible_in(gossiped: &[PeerInfo]) -> (kept: Vec<PeerInfo>)
    ensures
        protocol::info_views(kept@) == credible(protocol::info_views(gossiped@)),
{
    let ghost all = protocol::info_views(gossiped@);
    let limit: usize = if gossiped.len() > MAX_GOSSIP {
        MAX_GOSSIP
    } else {
        gossiped.len()
    };
    let ghost considered = all.take(limit as int);
    let ghost sound = |info: PeerInfoView| handshake::identity_flaw(info) is None;
    let mut kept: Vec<PeerInfo> = Vec::new();
    proof {
        reveal(Seq::filter);
        assert(considered.take(0) =~= Seq::<PeerInfoView>::empty());
        assert(protocol::info_views(kept@) =~= Seq::<PeerInfoView>::empty());
        if gossiped@.len() <= MAX_GOSSIP {
            assert(considered =~= all);
        }
    }
    for i in 0..limit
        invariant
            all == protocol::info_views(gossiped@),
            limit <= gossiped@.len(),
            considered == all.take(limit as int),
            sound == (|info: PeerInfoView| handshake::identity_flaw(info) is None),
            protocol::info_views(kept@) == considered.take(i as int).filter(sound),
    {
        let info = &gossiped[i];
        let ghost before = kept@;
        proof {
            reveal(Seq::filter);
            assert(considered.take(i + 1).drop_last() =~= considered.take(i as int));
            assert(considered[i as int] == info@);
        }
        if handshake::flaw_in(
            info.name.as_str(),
            info.public_key.as_slice(),
            info.listen_addr.as_str(),
        ).is_none() {
            kept.push(info.clone());
            assert(protocol::info_views(kept@) =~= protocol::info_views(before).push(info@));
        }
    }
    assert(considered.take(limit as int) =~= considered);
    kept
}

/// Whether one of the keys is that one.
fn holds_key(keys: &Vec<Vec<u8>>, key: &[u8]) -> (found: bool)
    ensures
        found == key_views(keys@).contains(key@),
{
    let ghost all = key_views(keys@);
    for i in 0..keys.len()
        invariant
            all == key_views(keys@),
            forall|j: int| 0 <= j < i ==> #[trigger] all[j] != key@,
    {
        assert(all[i as int] == keys@[i as int]@);
        if bytes::same_bytes(keys[i].as_slice(), key) {
            return true;
        }
    }
    false
}

impl Node {
    /// What a sealed message from a peer comes to.
    fn hear_chat(&self, peer: &Peer, ciphertext: &[u8], nonce: &[u8; 24]) -> (event: Event)
        ensures
            event@ == chat_event(self@, peer@, ciphertext@, nonce@),
    {
        let secret = self.identity.secret_key.as_slice();
        let plaintext: Vec<u8> = match crypto::open(
            ciphertext,
            nonce,
            secret,
            peer.public_key.as_slice(),
        ) {
            Ok(plaintext) => plaintext,
            Err(_) => {
                let mut words = "could not decrypt a message from ".to_owned();
                words.append(peer.name.as_str());
                return Event::Warning(words);
            },
        };
        let mut found: Option<Message> = None;
        if let Some(said) = text::decoded(plaintext.as_slice()) {
            if let Ok(message) = Message::from_json(said.as_str()) {
                found = Some(message);
            }
        }
        match found {
            Some(message) => {
                if !text::same_text(message.from.as_str(), peer.name.as_str()) {
                    let mut words = peer.name.clone();
                    words.append(" sent a message signed ");
                    words.append(message.from.as_str());
                    words.append("; discarded");
                    return Event::Warning(words);
                }
                Event::Message {
                    from: message.from,
                    fingerprint: peer.fingerprint.clone(),
                    content: message.content,
                }
            },
            None => {
                let mut words = "could not understand a message from ".to_owned();
                words.append(peer.name.as_str());
                Event::Warning(words)
            },
        }
    }

    /// A peer list from a peer. This is the one place where a peer can influence
    /// where we open connections.
    fn hear_gossip(&mut self, peer: &Peer, gossiped: &[PeerInfo]) -> (effects: Vec<Effect>)
        ensures
            final(self)@ == gossiped_node(old(self)@, protocol::info_views(gossiped@)),
            effect_views(effects@) == gossip_effects(
                old(self)@,
                peer@,
                protocol::info_views(gossiped@),
            ),
    {
        let ghost before = self@;
        let ghost listed = protocol::info_views(gossiped@);
        let mut effects: Vec<Effect> = Vec::new();
        if gossiped.len() > MAX_GOSSIP {
            let mut words = peer.name.clone();
            words.append(" gossiped ");
            words.append(text::in_decimal(gossiped.len() as u64).as_str());
            words.append(" peers; only the first 64 are considered");
            effects.push(Effect::Emit(Event::Warning(words)));
        }
        let ghost warned = effect_views(effects@);
        assert(warned =~= gossip_warning(peer@, gossiped@.len()));
        let kept = credible_in(gossiped);
        let missing = self.registry.undialed(kept.as_slice());
        let ghost candidates = protocol::info_views(missing@);
        let ghost fresh = |info: PeerInfoView| !before.dialing.contains(info.public_key);
        let mut started: Vec<Vec<u8>> = Vec::new();
        proof {
            reveal(Seq::filter);
            assert(candidates.take(0) =~= Seq::<PeerInfoView>::empty());
            let none = candidates.take(0).filter(fresh);
            assert(key_views(started@) =~= none.map_values(|info: PeerInfoView| info.public_key));
            assert(effect_views(effects@) =~= warned + none.map_values(
                |info: PeerInfoView| EffectView::Dial(info),
            ));
        }
        for i in 0..missing.len()
            invariant
                self@ == before,
                candidates == protocol::info_views(missing@),
                fresh == (|info: PeerInfoView| !before.dialing.contains(info.public_key)),
                key_views(started@) == candidates.take(i as int).filter(fresh).map_values(
                    |info: PeerInfoView| info.public_key,
                ),
                effect_views(effects@) == warned + candidates.take(i as int).filter(
                    fresh,
                ).map_values(|info: PeerInfoView| EffectView::Dial(info)),
        {
            let info = &missing[i];
            let ghost earlier = candidates.take(i as int).filter(fresh);
            let ghost (effects_before, started_before) = (effects@, started@);
            proof {
                reveal(Seq::filter);
                assert(candidates.take(i + 1).drop_last() =~= candidates.take(i as int));
                assert(candidates[i as int] == info@);
            }
            if !holds_key(&self.dialing, info.public_key.as_slice()) {
                let key: Vec<u8> = info.public_key.clone();
                assert(key@ =~= info@.public_key);
                started.push(key);
                effects.push(Effect::Dial(info.clone()));
                proof {
                    let next = earlier.push(info@);
                    assert(key_views(started@) =~= key_views(started_before).push(
                        info@.public_key,
                    ));
                    assert(key_views(started@) =~= next.map_values(
                        |info: PeerInfoView| info.public_key,
                    ));
                    assert(effect_views(effects@) =~= effect_views(effects_before).push(
                        EffectView::Dial(info@),
                    ));
                    assert(effect_views(effects@) =~= warned + next.map_values(
                        |info: PeerInfoView| EffectView::Dial(info),
                    ));
                }
            }
        }
        assert(candidates.take(candidates.len() as int) =~= candidates);
        self.remember_dialing(started);
        effects
    }

    /// Remembers keys as being dialled.
    fn remember_dialing(&mut self, keys: Vec<Vec<u8>>)
        ensures
            final(self)@ == (NodeView {
                dialing: old(self)@.dialing + key_views(keys@),
                ..old(self)@
            }),
    {
        let ghost before = self@;
        for i in 0..keys.len()
            invariant
                self@ == (NodeView {
                    dialing: before.dialing + key_views(keys@).take(i as int),
                    ..before
                }),
        {
            let ghost so_far = self.dialing@;
            let key: Vec<u8> = keys[i].clone();
            assert(key@ =~= keys@[i as int]@);
            self.dialing.push(key);
            assert(key_views(self.dialing@) =~= key_views(so_far).push(keys@[i as int]@));
            assert(key_views(keys@).take(i + 1) =~= key_views(keys@).take(i as int).push(
                keys@[i as int]@,
            ));
            assert(self@.dialing =~= before.dialing + key_views(keys@).take(i + 1));
        }
        assert(key_views(keys@).take(keys@.len() as int) =~= key_views(keys@));
    }

    /// Read a line from a peer whose handshake is done.
    ///
    /// Identity is settled once, so a second introduction ends the connection, as
    /// does a line that is no frame.
    pub fn handle_frame(&mut self, peer: &Peer, line: &str) -> (outcome: Result<
        Vec<Effect>,
        ConnError,
    >)
        requires
            old(self)@.valid(),
        ensures
            final(self)@ == heard_node(old(self)@, line@),
            final(self)@.valid(),
            match outcome {
                Ok(effects) => {
                    &&& protocol::decoding(line@) is Some
                    &&& !(protocol::decoding(line@)->0 is Hello)
                    &&& effect_views(effects@) == heard_effects(old(self)@, peer@, line@)
                },
                Err(ConnError::ExpectedHello) => protocol::decoding(line@) is Some
                    && protocol::decoding(line@)->0 is Hello,
                Err(ConnError::Protocol(e)) => handshake::unreadable(line@, e),
                Err(_) => false,
            },
    {
        match Frame::decode(line) {
            Err(e) => Err(ConnError::Protocol(e)),
            Ok(Frame::Hello { .. }) => Err(ConnError::ExpectedHello),
            Ok(Frame::Peers { peers }) => Ok(self.hear_gossip(peer, peers.as_slice())),
            Ok(Frame::Chat { ciphertext, nonce }) => {
                let event = self.hear_chat(peer, ciphertext.as_slice(), &nonce);
                let mut effects: Vec<Effect> = Vec::new();
                effects.push(Effect::Emit(event));
                assert(effect_views(effects@) =~= heard_effects(self@, peer@, line@));
                Ok(effects)
            },
        }
    }

    /// Dialling the peer with that key came to nothing. It may be dialled again
    /// when it is gossiped again.
    pub fn dial_failed(&mut self, key: &[u8])
        requires
            old(self)@.valid(),
        ensures
            final(self)@ == (NodeView {
                dialing: without_key(old(self)@.dialing, key@),
                ..old(self)@
            }),
            final(self)@.valid(),
    {
        self.stop_dialing(key);
    }
}

// ---------------------------------------------------------------------------
// Speaking
// ---------------------------------------------------------------------------
/// The bytes that are sealed for a message.
pub open spec fn plaintext_of(message: MessageView) -> Seq<u8> {
    encode_utf8(crate::json::compact(messages::message_tree(message)))
}

/// Whether an effect sends the message, sealed by us for the `i`th peer, down
/// that peer's connection, and the peer can read it.
pub open spec fn carries(node: NodeView, message: MessageView, i: int, effect: EffectView) -> bool {
    let key = node.registry.peers[i].public_key;
    &&& effect matches EffectView::Send {
        connection,
        frame: FrameView::Chat { ciphertext, nonce },
    }
    &&& connection == node.connections[i]
    &&& nonce.len() == crypto::NONCE_LEN
    &&& ciphertext == crypto::sealed(plaintext_of(message), nonce, key, node.secret_key)
    &&& crypto::readable_by_recipient(
        ciphertext,
        nonce,
        plaintext_of(message),
        key,
        node.secret_key,
    )
}

/// What saying a message brings about: we see it ourselves, and each peer gets
/// it sealed for its own key. With nobody here to read it, or where it is too
/// long to seal, there is a warning instead.
pub open spec fn spoken(node: NodeView, message: MessageView, effects: Seq<EffectView>) -> bool {
    if node.registry.peers.len() == 0 {
        effects == seq![
            EffectView::Emit(EventView::Warning("nobody is here to read that"@)),
        ]
    } else if plaintext_of(message).len() > crypto::MAX_PLAINTEXT {
        effects == seq![
            EffectView::Emit(EventView::Warning("that message is too long to send"@)),
        ]
    } else {
        &&& effects.len() == 1 + node.registry.peers.len()
        &&& effects[0] == EffectView::Emit(
            EventView::Message {
                from: message.from,
                fingerprint: crypto::fingerprint_text(node.public_key),
                content: message.content,
            },
        )
        &&& forall|i: int|
            0 <= i < node.registry.peers.len() ==> #[trigger] carries(
                node,
                message,
                i,
                effects[i + 1],
            )
        &&& plain_message(plaintext_of(message)) == Some(message)
    }
}

fn warn(words: &str) -> (effects: Vec<Effect>)
    ensures
        effect_views(effects@) == seq![EffectView::Emit(EventView::Warning(words@))],
{
    let mut effects: Vec<Effect> = Vec::new();
    effects.push(Effect::Emit(Event::Warning(words.to_owned())));
    assert(effect_views(effects@) =~= seq![EffectView::Emit(EventView::Warning(words@))]);
    effects
}

impl Node {
    /// Say a message to everyone here.
    pub fn say_message(&self, message: &Message) -> (effects: Vec<Effect>)
        requires
            self@.valid(),
        ensures
            spoken(self@, message@, effect_views(effects@)),
    {
        if self.registry.is_empty() {
            return warn("nobody is here to read that");
        }
        let json: String = match message.to_json() {
            Ok(json) => json,
            Err(_) => String::new(),
        };
        let plaintext = json.as_str().as_bytes();
        if plaintext.len() as u64 > crypto::MAX_PLAINTEXT {
            return warn("that message is too long to send");
        }
        proof {
            encode_utf8_valid_utf8(json@);
            encode_utf8_decode_utf8(json@);
        }
        let mut effects: Vec<Effect> = Vec::new();
        effects.push(
            Effect::Emit(
                Event::Message {
                    from: message.from.clone(),
                    fingerprint: self.fingerprint(),
                    content: message.content.clone(),
                },
            ),
        );
        let all = self.registry.all();
        let ghost echo = effects@[0]@;
        for i in 0..all.len()
            invariant
                self@.valid(),
                peers::peer_views(all@) == self@.registry.peers,
                plaintext@ == plaintext_of(message@),
                plaintext@.len() <= crypto::MAX_PLAINTEXT,
                effects@.len() == 1 + i,
                effects@[0]@ == echo,
                forall|j: int|
                    0 <= j < i ==> carries(self@, message@, j, (#[trigger] effects@[j + 1])@),
        {
            assert(self@.registry.peers[i as int] == all@[i as int]@);
            let outcome = crypto::seal(
                plaintext,
                all[i].public_key.as_slice(),
                self.identity.secret_key.as_slice(),
            );
            match outcome {
                Ok((ciphertext, nonce)) => {
                    let ghost so_far = effects@;
                    effects.push(
                        Effect::Send {
                            connection: self.connections[i],
                            frame: Frame::Chat { ciphertext, nonce },
                        },
                    );
                    assert(carries(self@, message@, i as int, effects@[i + 1]@));
                    assert forall|j: int| 0 <= j < i + 1 implies carries(
                        self@,
                        message@,
                        j,
                        (#[trigger] effects@[j + 1])@,
                    ) by {
                        if j < i {
                            assert(so_far[j + 1] == effects@[j + 1]);
                        }
                    }
                },
                Err(_) => {
                    assert(false);
                },
            }
        }
        proof {
            let views = effect_views(effects@);
            assert forall|i: int| 0 <= i < self@.registry.peers.len() implies #[trigger] carries(
                self@,
                message@,
                i,
                views[i + 1],
            ) by {
                assert(views[i + 1] == effects@[i + 1]@);
            }
        }
        effects
    }

    /// Say something to everyone here. Blank input is ignored.
    pub fn say(&self, words: &str) -> (effects: Vec<Effect>)
        requires
            self@.valid(),
        ensures
            text::blank(words@) ==> effects@.len() == 0,
            !text::blank(words@) ==> exists|message: MessageView|
                message.from == self@.name() && message.content == words@ && #[trigger] spoken(
                    self@,
                    message,
                    effect_views(effects@),
                ),
    {
        if text::is_blank(words) {
            return Vec::new();
        }
        let message = Message::new(self.registry.my_name().to_owned(), words.to_owned());
        self.say_message(&message)
    }
}

// ---------------------------------------------------------------------------
// What holds of all of it
// ---------------------------------------------------------------------------
/// What one node says is what another reads: when the speaker's frame reaches
/// the peer that it was sealed for, and that peer knows the speaker by the key
/// and the name that the speaker has, the peer is shown the message.
pub proof fn law_what_is_said_is_what_is_read(
    speaker: NodeView,
    message: MessageView,
    effects: Seq<EffectView>,
    i: int,
    listener: NodeView,
    speaker_as_seen: PeerView,
)
    requires
        speaker.valid(),
        speaker.keys_match(),
        listener.valid(),
        listener.keys_match(),
        spoken(speaker, message, effects),
        plaintext_of(message).len() <= crypto::MAX_PLAINTEXT,
        0 <= i < speaker.registry.peers.len(),
        speaker.registry.peers[i].public_key == listener.public_key,
        speaker_as_seen.public_key == speaker.public_key,
        speaker_as_seen.name == message.from,
    ensures
        effects[i + 1] matches EffectView::Send {
            connection,
            frame: FrameView::Chat { ciphertext, nonce },
        } && connection == speaker.connections[i] && chat_event(
            listener,
            speaker_as_seen,
            ciphertext,
            nonce,
        ) == (EventView::Message {
            from: message.from,
            fingerprint: speaker_as_seen.fingerprint,
            content: message.content,
        }),
{
    assert(carries(speaker, message, i, effects[i + 1]));
    assert(crypto::x25519_public(listener.secret_key) == listener.public_key);
}

/// A message signed with a name other than the one that its peer introduced
/// itself with is never shown as a message.
pub proof fn law_a_message_signed_with_another_name_is_discarded(
    node: NodeView,
    peer: PeerView,
    ciphertext: Seq<u8>,
    nonce: Seq<u8>,
)
    ensures
        chat_event(node, peer, ciphertext, nonce) matches EventView::Message {
            from,
            fingerprint,
            ..
        } ==> from == peer.name && fingerprint == peer.fingerprint,
{
}

/// A connection that was superseded does not take its successor with it when it
/// closes.
pub proof fn law_a_superseded_connection_leaves_quietly(
    node: NodeView,
    peer: PeerView,
    inbound: bool,
    earlier: u64,
    later: u64,
)
    requires
        node.valid(),
        node.is_current(peer.public_key, earlier),
        peers::admission(node.registry, peer, inbound) is Superseded,
        earlier != later,
    ensures
        ({
            let after = joined_node(node, peer, inbound, later);
            &&& join_effects(node, peer, inbound, later)[0] == EffectView::Close(earlier)
            &&& after.is_current(peer.public_key, later)
            &&& left_node(after, peer.public_key, earlier) == after
            &&& leave_effects(after, peer.public_key, earlier).len() == 0
        }),
{
    let key = peer.public_key;
    let after = joined_node(node, peer, inbound, later);
    let at = choose|i: int|
        0 <= i < node.registry.peers.len() && (#[trigger] node.registry.peers[i]).public_key == key
            && node.connections[i] == earlier;
    lemma_slot(node.registry, at);
    assert(after.registry.peers[at].public_key == key);
    assert(after.connections[at] == later);
    if after.is_current(key, earlier) {
        let i = choose|i: int|
            0 <= i < after.registry.peers.len() && (#[trigger] after.registry.peers[i]).public_key
                == key && after.connections[i] == earlier;
        assert(node.registry.peers[i].public_key == key);
        lemma_slot(node.registry, i);
    }
}

/// Everyone who is connected, the newcomer among them, is told who is here when
/// somebody joins.
pub proof fn law_a_join_is_gossiped_to_everyone(
    node: NodeView,
    peer: PeerView,
    inbound: bool,
    connection: u64,
    i: int,
)
    requires
        node.valid(),
        peers::admission(node.registry, peer, inbound) is Admitted,
        0 <= i <= node.connections.len(),
    ensures
        ({
            let after = joined_node(node, peer, inbound, connection);
            &&& after.registry.peers == node.registry.peers.push(peer)
            &&& join_effects(node, peer, inbound, connection).contains(
                EffectView::Send {
                    connection: after.connections[i],
                    frame: roster(after.registry),
                },
            )
        }),
{
    let after = joined_node(node, peer, inbound, connection);
    let told = broadcast_to(after.connections, roster(after.registry));
    let effects = join_effects(node, peer, inbound, connection);
    let before = effects.len() - told.len();
    assert(effects[before + i] == told[i]);
}

/// Gossip makes us dial only people whom no handshake would turn away for what
/// they are, whom we are neither connected to nor dialling, and who are not us;
/// and no more of them than the limit.
pub proof fn law_gossip_dials_only_the_missing(node: NodeView, gossiped: Seq<PeerInfoView>, i: int)
    requires
        0 <= i < to_dial(node, gossiped).len(),
    ensures
        ({
            let info = to_dial(node, gossiped)[i];
            &&& handshake::identity_flaw(info) is None
            &&& info.public_key != node.registry.me
            &&& !node.registry.holds(info.public_key)
            &&& !node.dialing.contains(info.public_key)
            &&& gossiped.contains(info)
        }),
        to_dial(node, gossiped).len() <= MAX_GOSSIP,
{
    broadcast use vstd::seq_lib::group_filter_ensures;

    let fresh = |info: PeerInfoView| !node.dialing.contains(info.public_key);
    let sound = |info: PeerInfoView| handshake::identity_flaw(info) is None;
    let considered = if gossiped.len() > MAX_GOSSIP {
        gossiped.take(MAX_GOSSIP as int)
    } else {
        gossiped
    };
    let kept = credible(gossiped);
    let missing = peers::undialed(node.registry, kept);
    let info = to_dial(node, gossiped)[i];
    assert(fresh(info));
    lemma_filtered_from(missing, fresh, i);
    let j = choose|j: int| 0 <= j < missing.len() && missing[j] == info;
    peers::law_dialing_covers_exactly_the_missing(node.registry, kept);
    assert(kept.contains(missing[j]));
    let k = choose|k: int| 0 <= k < kept.len() && kept[k] == info;
    assert(sound(kept[k]));
    lemma_filtered_from(considered, sound, k);
    let m = choose|m: int| 0 <= m < considered.len() && considered[m] == info;
    assert(gossiped[m] == info);
    lemma_undialed_is_no_longer(node.registry, kept);
}

proof fn lemma_filtered_from(
    infos: Seq<PeerInfoView>,
    keep: spec_fn(PeerInfoView) -> bool,
    i: int,
)
    requires
        0 <= i < infos.filter(keep).len(),
    ensures
        infos.contains(infos.filter(keep)[i]),
    decreases infos.len(),
{
    reveal(Seq::filter);
    if infos.len() > 0 {
        let front = infos.drop_last();
        if i < front.filter(keep).len() {
            assert(infos.filter(keep)[i] == front.filter(keep)[i]);
            lemma_filtered_from(front, keep, i);
            let j = choose|j: int| 0 <= j < front.len() && front[j] == front.filter(keep)[i];
            assert(infos[j] == infos.filter(keep)[i]);
        } else {
            assert(infos[infos.len() - 1] == infos.filter(keep)[i]);
        }
    }
}

proof fn lemma_undialed_is_no_longer(registry: RegistryView, gossiped: Seq<PeerInfoView>)
    ensures
        peers::undialed(registry, gossiped).len() <= gossiped.len(),
    decreases gossiped.len(),
{
    if gossiped.len() > 0 {
        lemma_undialed_is_no_longer(registry, gossiped.drop_last());
    }
}

/// Once dialling a peer has come to nothing, or its handshake is over, it is no
/// longer being dialled, so it can be dialled again.
pub proof fn law_a_failed_dial_blocks_nothing(keys: Seq<Seq<u8>>, key: Seq<u8>)
    ensures
        !without_key(keys, key).contains(key),
{
    broadcast use vstd::seq_lib::group_filter_ensures;

    let other = |k: Seq<u8>| k != key;
    let left = without_key(keys, key);
    if left.contains(key) {
        let i = choose|i: int| 0 <= i < left.len() && left[i] == key;
        assert(other(left[i]));
    }
}

/// The list of our peers names every one of them, and nobody else, with their name,
/// their key and the address where they can be reached.
pub proof fn law_the_list_names_everyone(registry: RegistryView)
    ensures
        roster(registry) is Peers,
        roster(registry)->peers.len() == registry.peers.len(),
        forall|i: int|
            0 <= i < registry.peers.len() ==> {
                &&& (#[trigger] roster(registry)->peers[i]).name == registry.peers[i].name
                &&& roster(registry)->peers[i].public_key == registry.peers[i].public_key
                &&& roster(registry)->peers[i].listen_addr == registry.peers[i].listen_addr
            },
{
}

/// We introduce ourselves with our own name, key and address.
pub proof fn law_we_introduce_ourselves(node: NodeView)
    ensures
        hello(node) == (FrameView::Hello {
            name: node.registry.my_name,
            public_key: node.public_key,
            listen_addr: node.listen_addr,
        }),
{
}

/// A newcomer is put behind everyone else with its connection, and is announced once
/// by its name and fingerprint, after at most one warning about its name; then
/// everyone, the newcomer last, gets the list of who is here now, and nothing else
/// happens.
pub proof fn law_a_newcomer_is_announced(
    node: NodeView,
    peer: PeerView,
    inbound: bool,
    connection: u64,
    i: int,
)
    requires
        node.valid(),
        peer.public_key != node.registry.me,
        forall|k: int|
            0 <= k < node.registry.peers.len() ==> (#[trigger] node.registry.peers[k]).public_key
                != peer.public_key,
        0 <= i <= node.connections.len(),
    ensures
        ({
            let after = joined_node(node, peer, inbound, connection);
            let effects = join_effects(node, peer, inbound, connection);
            let warned: int = if peers::clash(node.registry, peer.name) is Some {
                1
            } else {
                0
            };
            &&& after.registry.peers == node.registry.peers.push(peer)
            &&& after.connections == node.connections.push(connection)
            &&& effects.len() == warned + 1 + after.connections.len()
            &&& warned == 1 ==> effects[0] is Emit && effects[0]->Emit_0 is NameConflict
            &&& effects[warned] == EffectView::Emit(
                EventView::PeerJoined { name: peer.name, fingerprint: peer.fingerprint },
            )
            &&& effects[warned + 1 + i] == (EffectView::Send {
                connection: after.connections[i],
                frame: roster(after.registry),
            })
        }),
{
    let after = joined_node(node, peer, inbound, connection);
    let effects = join_effects(node, peer, inbound, connection);
    let clash = peers::clash(node.registry, peer.name);
    assert(!node.registry.holds(peer.public_key));
    let told = broadcast_to(after.connections, roster(after.registry));
    let before = effects.len() - told.len();
    assert(effects[before + i] == told[i]);
}

/// The warning about a newcomer's name says the newcomer's name and fingerprint and,
/// beside them, our own fingerprint where the name reads like ours, and else that of
/// the first peer here whose name does.
pub proof fn law_what_the_warning_about_a_name_says(
    node: NodeView,
    peer: PeerView,
    inbound: bool,
    connection: u64,
)
    requires
        node.valid(),
        peer.public_key != node.registry.me,
        !node.registry.holds(peer.public_key),
    ensures
        peers::same_name(node.registry.my_name, peer.name) ==> join_effects(
            node,
            peer,
            inbound,
            connection,
        )[0] == EffectView::Emit(
            EventView::NameConflict {
                name: peer.name,
                existing: crypto::fingerprint_text(node.public_key),
                incoming: peer.fingerprint,
                impersonating_you: true,
            },
        ),
        forall|k: int|
            0 <= k < node.registry.peers.len() && !peers::same_name(
                node.registry.my_name,
                peer.name,
            ) && peers::same_name((#[trigger] node.registry.peers[k]).name, peer.name) && (forall|
                j: int,
            |
                0 <= j < k ==> !peers::same_name(
                    (#[trigger] node.registry.peers[j]).name,
                    peer.name,
                )) ==> join_effects(node, peer, inbound, connection)[0] == EffectView::Emit(
                EventView::NameConflict {
                    name: peer.name,
                    existing: node.registry.peers[k].fingerprint,
                    incoming: peer.fingerprint,
                    impersonating_you: false,
                },
            ),
{
    assert forall|k: int|
        0 <= k < node.registry.peers.len() && !peers::same_name(node.registry.my_name, peer.name)
            && peers::same_name((#[trigger] node.registry.peers[k]).name, peer.name) && (forall|
            j: int,
        |
            0 <= j < k ==> !peers::same_name(
                (#[trigger] node.registry.peers[j]).name,
                peer.name,
            )) implies join_effects(node, peer, inbound, connection)[0] == EffectView::Emit(
        EventView::NameConflict {
            name: peer.name,
            existing: node.registry.peers[k].fingerprint,
            incoming: peer.fingerprint,
            impersonating_you: false,
        },
    ) by {
        peers::law_the_first_namesake_is_found(node.registry.peers, peer.name, k);
    }
}

/// A connection that takes the place of an earlier one closes that one, sends its
/// peer the list of who is here, and is announced to nobody; every other connection
/// stays what it was.
pub proof fn law_a_takeover_is_quiet(
    node: NodeView,
    peer: PeerView,
    inbound: bool,
    connection: u64,
    at: int,
    other: int,
)
    requires
        node.valid(),
        0 <= at < node.registry.peers.len(),
        node.registry.peers[at].public_key == peer.public_key,
        peers::wins(node.registry.me, peer.public_key, inbound),
        0 <= other < node.registry.peers.len(),
        other != at,
    ensures
        ({
            let after = joined_node(node, peer, inbound, connection);
            &&& join_effects(node, peer, inbound, connection) == seq![
                EffectView::Close(node.connections[at]),
                EffectView::Send { connection, frame: roster(after.registry) },
            ]
            &&& after.connections.len() == node.connections.len()
            &&& after.connections[at] == connection
            &&& after.connections[other] == node.connections[other]
            &&& after.registry.peers[at] == peer
            &&& after.registry.peers[other] == node.registry.peers[other]
        }),
{
    lemma_slot(node.registry, at);
    assert(node.registry.peers[at].public_key != node.registry.me);
    assert(node.registry.holds(peer.public_key));
    if other < at {
        assert(node.registry.peers[other].public_key != node.registry.peers[at].public_key);
    } else {
        assert(node.registry.peers[at].public_key != node.registry.peers[other].public_key);
    }
}

/// A connection that is turned away brings nothing about and changes neither who is
/// here nor how they are connected.
pub proof fn law_who_is_turned_away_changes_nothing(
    node: NodeView,
    peer: PeerView,
    inbound: bool,
    connection: u64,
)
    requires
        peers::admission(node.registry, peer, inbound) is Rejected,
    ensures
        join_effects(node, peer, inbound, connection).len() == 0,
        joined_node(node, peer, inbound, connection).registry == node.registry,
        joined_node(node, peer, inbound, connection).connections == node.connections,
{
}

/// Whatever becomes of a connection, we stay who we are, and the peer, but nobody
/// else, is no longer being dialled.
pub proof fn law_joining_leaves_us_who_we_are(
    node: NodeView,
    peer: PeerView,
    inbound: bool,
    connection: u64,
    key: Seq<u8>,
)
    ensures
        ({
            let after = joined_node(node, peer, inbound, connection);
            &&& after.public_key == node.public_key
            &&& after.secret_key == node.secret_key
            &&& after.listen_addr == node.listen_addr
            &&& after.room == node.room
            &&& after.registry.me == node.registry.me
            &&& after.registry.my_name == node.registry.my_name
            &&& after.dialing.contains(key) <==> node.dialing.contains(key) && key
                != peer.public_key
        }),
{
    law_only_that_key_is_forgotten(node.dialing, peer.public_key, key);
}

/// Leaving a key out of a list leaves out that key and no other.
pub proof fn law_only_that_key_is_forgotten(keys: Seq<Seq<u8>>, key: Seq<u8>, other: Seq<u8>)
    ensures
        without_key(keys, key).contains(other) <==> keys.contains(other) && other != key,
    decreases keys.len(),
{
    reveal(Seq::filter);
    let keep = |k: Seq<u8>| k != key;
    if keys.len() > 0 {
        let front = keys.drop_last();
        law_only_that_key_is_forgotten(front, key, other);
        let kept = without_key(front, key);
        if keys.contains(other) {
            let i = choose|i: int| 0 <= i < keys.len() && keys[i] == other;
            if i < front.len() {
                assert(front[i] == other);
                assert(front.contains(other));
            }
        }
        if front.contains(other) {
            let i = choose|i: int| 0 <= i < front.len() && front[i] == other;
            assert(keys[i] == other);
        }
        if keep(keys.last()) {
            let whole = kept.push(keys.last());
            assert(without_key(keys, key) == whole);
            if kept.contains(other) {
                let i = choose|i: int| 0 <= i < kept.len() && kept[i] == other;
                assert(whole[i] == other);
            }
            if keys.last() == other {
                assert(whole[kept.len() as int] == other);
            }
            if whole.contains(other) {
                let i = choose|i: int| 0 <= i < whole.len() && whole[i] == other;
                if i < kept.len() {
                    assert(kept[i] == other);
                } else {
                    assert(keys[keys.len() - 1] == other);
                }
            }
        } else {
            assert(without_key(keys, key) == kept);
        }
    }
}

/// When the connection that is held to a peer closes, that peer, and nobody else, is
/// gone with its connection; its departure is announced once, by the name and the
/// fingerprint of the entry that is gone; then everyone who is left gets the list of
/// who is here now, and nothing else happens.
pub proof fn law_a_departure_is_announced(
    node: NodeView,
    key: Seq<u8>,
    connection: u64,
    at: int,
    i: int,
)
    requires
        node.valid(),
        0 <= at < node.registry.peers.len(),
        node.registry.peers[at].public_key == key,
        node.connections[at] == connection,
    ensures
        ({
            let after = left_node(node, key, connection);
            let effects = leave_effects(node, key, connection);
            &&& after.registry.peers == node.registry.peers.remove(at)
            &&& after.connections == node.connections.remove(at)
            &&& after.registry.me == node.registry.me
            &&& after.registry.my_name == node.registry.my_name
            &&& after.public_key == node.public_key
            &&& after.secret_key == node.secret_key
            &&& after.listen_addr == node.listen_addr
            &&& after.room == node.room
            &&& after.dialing == node.dialing
            &&& effects.len() == node.registry.peers.len()
            &&& effects[0] == EffectView::Emit(
                EventView::PeerLeft {
                    name: node.registry.peers[at].name,
                    fingerprint: node.registry.peers[at].fingerprint,
                },
            )
            &&& 0 <= i < after.connections.len() ==> effects[1 + i] == (EffectView::Send {
                connection: after.connections[i],
                frame: roster(after.registry),
            })
        }),
{
    lemma_slot(node.registry, at);
    lemma_removed_at(node.registry, at);
    assert(node.is_current(key, connection));
    let after = left_node(node, key, connection);
    let told = broadcast_to(after.connections, roster(after.registry));
    if 0 <= i < after.connections.len() {
        assert(leave_effects(node, key, connection)[1 + i] == told[i]);
    }
}

/// When a connection closes that is not the one held to a peer, nothing changes and
/// nothing is said.
pub proof fn law_other_connections_close_quietly(node: NodeView, key: Seq<u8>, connection: u64)
    requires
        forall|i: int|
            0 <= i < node.registry.peers.len() && (#[trigger] node.registry.peers[i]).public_key
                == key ==> node.connections[i] != connection,
    ensures
        left_node(node, key, connection) == node,
        leave_effects(node, key, connection).len() == 0,
{
}

/// What a sealed message from a peer comes to, case by case: it is shown exactly when
/// it opens with our key and the peer's, is text that says a message, and that
/// message is signed with the peer's name; then its very content is shown, under the
/// peer's name and fingerprint.
pub proof fn law_what_a_sealed_message_comes_to(
    node: NodeView,
    peer: PeerView,
    ciphertext: Seq<u8>,
    nonce: Seq<u8>,
)
    ensures
        match crypto::opened(ciphertext, nonce, node.secret_key, peer.public_key) {
            Err(_) => chat_event(node, peer, ciphertext, nonce) == EventView::Warning(
                "could not decrypt a message from "@ + peer.name,
            ),
            Ok(plaintext) => if !valid_utf8(plaintext) || messages::message_said(
                decode_utf8(plaintext),
            ) is None {
                chat_event(node, peer, ciphertext, nonce) == EventView::Warning(
                    "could not understand a message from "@ + peer.name,
                )
            } else {
                let message = messages::message_said(decode_utf8(plaintext))->0;
                if message.from == peer.name {
                    chat_event(node, peer, ciphertext, nonce) == (EventView::Message {
                        from: peer.name,
                        fingerprint: peer.fingerprint,
                        content: message.content,
                    })
                } else {
                    chat_event(node, peer, ciphertext, nonce) == EventView::Warning(
                        peer.name + " sent a message signed "@ + message.from + "; discarded"@,
                    )
                }
            },
        },
{
}

/// Everyone on a gossiped list, among its first 64 entries, whom a handshake would
/// not turn away for what they are, whom we are neither connected to nor dialling,
/// and who is not us, is dialled; each only once.
pub proof fn law_gossip_dials_all_the_missing(node: NodeView, gossiped: Seq<PeerInfoView>, k: int)
    requires
        0 <= k < gossiped.len(),
        k < 64,
        handshake::identity_flaw(gossiped[k]) is None,
        gossiped[k].public_key != node.registry.me,
        forall|i: int|
            0 <= i < node.registry.peers.len() ==> (#[trigger] node.registry.peers[i]).public_key
                != gossiped[k].public_key,
        !node.dialing.contains(gossiped[k].public_key),
    ensures
        exists|i: int|
            0 <= i < to_dial(node, gossiped).len() && (#[trigger] to_dial(node, gossiped)[i]).public_key
                == gossiped[k].public_key,
        forall|i: int, j: int|
            0 <= i < j < to_dial(node, gossiped).len() ==> (#[trigger] to_dial(
                node,
                gossiped,
            )[i]).public_key != (#[trigger] to_dial(node, gossiped)[j]).public_key,
{
    let key = gossiped[k].public_key;
    let fresh = |info: PeerInfoView| !node.dialing.contains(info.public_key);
    let sound = |info: PeerInfoView| handshake::identity_flaw(info) is None;
    let considered = if gossiped.len() > MAX_GOSSIP {
        gossiped.take(MAX_GOSSIP as int)
    } else {
        gossiped
    };
    let kept = credible(gossiped);
    let missing = peers::undialed(node.registry, kept);
    let chosen = to_dial(node, gossiped);
    assert(considered[k] == gossiped[k]);
    lemma_filter_keeps(considered, sound, k);
    let a = choose|a: int| 0 <= a < kept.len() && kept[a] == gossiped[k];
    peers::law_dialing_covers_exactly_the_missing(node.registry, kept);
    assert(peers::wanted(node.registry, kept[a].public_key));
    assert(peers::lists_key(missing, key));
    let b = choose|b: int| 0 <= b < missing.len() && (#[trigger] missing[b]).public_key == key;
    lemma_filter_keeps(missing, fresh, b);
    let c = choose|c: int| 0 <= c < chosen.len() && chosen[c] == missing[b];
    assert(chosen[c].public_key == key);
    lemma_filter_keeps_apart(missing, fresh);
}

proof fn lemma_filter_keeps(
    infos: Seq<PeerInfoView>,
    keep: spec_fn(PeerInfoView) -> bool,
    i: int,
)
    requires
        0 <= i < infos.len(),
        keep(infos[i]),
    ensures
        exists|j: int| 0 <= j < infos.filter(keep).len() && infos.filter(keep)[j] == infos[i],
    decreases infos.len(),
{
    reveal(Seq::filter);
    let front = infos.drop_last();
    if i == infos.len() - 1 {
        assert(infos.filter(keep)[front.filter(keep).len() as int] == infos[i]);
    } else {
        lemma_filter_keeps(front, keep, i);
        let j = choose|j: int| 0 <= j < front.filter(keep).len() && front.filter(keep)[j] == front[i];
        assert(infos.filter(keep)[j] == infos[i]);
    }
}

proof fn lemma_filter_keeps_apart(
    infos: Seq<PeerInfoView>,
    keep: spec_fn(PeerInfoView) -> bool,
)
    requires
        forall|i: int, j: int|
            0 <= i < j < infos.len() ==> (#[trigger] infos[i]).public_key != (
            #[trigger] infos[j]).public_key,
    ensures
        forall|i: int, j: int|
            0 <= i < j < infos.filter(keep).len() ==> (#[trigger] infos.filter(keep)[i]).public_key
                != (#[trigger] infos.filter(keep)[j]).public_key,
    decreases infos.len(),
{
    reveal(Seq::filter);
    if infos.len() > 0 {
        let front = infos.drop_last();
        assert forall|i: int, j: int| 0 <= i < j < front.len() implies (
        #[trigger] front[i]).public_key != (#[trigger] front[j]).public_key by {
            assert(infos[i].public_key != infos[j].public_key);
        }
        lemma_filter_keeps_apart(front, keep);
        let before = front.filter(keep);
        let whole = infos.filter(keep);
        assert forall|i: int, j: int| 0 <= i < j < whole.len() implies (
        #[trigger] whole[i]).public_key != (#[trigger] whole[j]).public_key by {
            assert(whole[i] == before[i]);
            if j < before.len() {
                assert(whole[j] == before[j]);
            } else {
                lemma_filtered_from(front, keep, i);
                let k = choose|k: int| 0 <= k < front.len() && front[k] == before[i];
                assert(infos[k].public_key != infos[infos.len() - 1].public_key);
            }
        }
    }
}

/// What a gossiped list brings about: a warning where it has more than 64 entries,
/// which says who sent it and how many there are, and a dial for each whom we are to
/// dial, as the entry says; from then on we remember that we are dialling them, and
/// nothing else about us changes.
pub proof fn law_what_a_gossiped_list_brings_about(
    node: NodeView,
    peer: PeerView,
    gossiped: Seq<PeerInfoView>,
    i: int,
)
    ensures
        ({
            let effects = gossip_effects(node, peer, gossiped);
            let chosen = to_dial(node, gossiped);
            let warned: int = if gossiped.len() > 64 {
                1
            } else {
                0
            };
            let after = gossiped_node(node, gossiped);
            &&& effects.len() == warned + chosen.len()
            &&& warned == 1 ==> effects[0] == EffectView::Emit(
                EventView::Warning(
                    peer.name + " gossiped "@ + text::decimal(gossiped.len())
                        + " peers; only the first 64 are considered"@,
                ),
            )
            &&& 0 <= i < chosen.len() ==> effects[warned + i] == EffectView::Dial(chosen[i])
            &&& after.dialing.len() == node.dialing.len() + chosen.len()
            &&& 0 <= i < node.dialing.len() ==> after.dialing[i] == node.dialing[i]
            &&& 0 <= i < chosen.len() ==> after.dialing[node.dialing.len() + i]
                == chosen[i].public_key
            &&& after.registry == node.registry
            &&& after.connections == node.connections
            &&& after.public_key == node.public_key
            &&& after.secret_key == node.secret_key
            &&& after.listen_addr == node.listen_addr
            &&& after.room == node.room
        }),
{
}

/// What a line from a peer is taken for: a peer list is gossip, a sealed message is
/// dealt with as one and changes nothing, and nothing else brings anything about.
pub proof fn law_what_a_line_is_taken_for(node: NodeView, peer: PeerView, line: Seq<char>)
    ensures
        match protocol::decoding(line) {
            Some(FrameView::Peers { peers }) => heard_effects(node, peer, line) == gossip_effects(
                node,
                peer,
                peers,
            ) && heard_node(node, line) == gossiped_node(node, peers),
            Some(FrameView::Chat { ciphertext, nonce }) => heard_effects(node, peer, line) == seq![
                EffectView::Emit(chat_event(node, peer, ciphertext, nonce)),
            ] && heard_node(node, line) == node,
            _ => heard_effects(node, peer, line).len() == 0 && heard_node(node, line) == node,
        },
{
}

/// What saying a message brings about: with nobody here, or too much to say, a
/// warning and nothing else; and else we see it ourselves, under our own fingerprint,
/// and exactly one frame goes down the connection to each peer, which that peer's
/// secret key opens as a text that says the very message.
pub proof fn law_everyone_here_is_told(
    node: NodeView,
    message: MessageView,
    effects: Seq<EffectView>,
    i: int,
    secret: Seq<u8>,
)
    requires
        spoken(node, message, effects),
    ensures
        node.registry.peers.len() == 0 ==> effects == seq![
            EffectView::Emit(EventView::Warning("nobody is here to read that"@)),
        ],
        node.registry.peers.len() > 0 && plaintext_of(message).len() > crypto::MAX_PLAINTEXT
            ==> effects == seq![
            EffectView::Emit(EventView::Warning("that message is too long to send"@)),
        ],
        node.registry.peers.len() > 0 && plaintext_of(message).len() <= crypto::MAX_PLAINTEXT ==> {
            &&& effects.len() == 1 + node.registry.peers.len()
            &&& effects[0] == EffectView::Emit(
                EventView::Message {
                    from: message.from,
                    fingerprint: crypto::fingerprint_text(node.public_key),
                    content: message.content,
                },
            )
        },
        0 <= i < node.registry.peers.len() && plaintext_of(message).len() <= crypto::MAX_PLAINTEXT
            && secret.len() == crypto::KEY_LEN && crypto::x25519_public(secret)
            == node.registry.peers[i].public_key ==> {
            &&& effects[i + 1] matches EffectView::Send {
                connection,
                frame: FrameView::Chat { ciphertext, nonce },
            }
            &&& connection == node.connections[i]
            &&& crypto::opened(
                ciphertext,
                nonce,
                secret,
                crypto::x25519_public(node.secret_key),
            ) matches Ok(plaintext)
            &&& valid_utf8(plaintext)
            &&& messages::message_said(decode_utf8(plaintext)) == Some(message)
        },
{
    if 0 <= i < node.registry.peers.len() && plaintext_of(message).len() <= crypto::MAX_PLAINTEXT {
        assert(carries(node, message, i, effects[i + 1]));
    }
}

/// Nothing is said about a connection that lost a tiebreak; about every other that
/// ended it is said which way it was made, where to, and for what reason.
pub proof fn law_what_is_said_about_an_ending(peer_ip: Seq<char>, inbound: bool, e: ConnError)
    ensures
        obituary(peer_ip, inbound, e) is None <==> e == ConnError::Rejected(
            Rejection::DuplicateConnection,
        ),
        obituary(peer_ip, true, e) is Some ==> obituary(peer_ip, true, e) == Some(
            EventView::Warning("connection "@ + "from "@ + peer_ip + " ended: "@ + e.text()),
        ),
        obituary(peer_ip, false, e) is Some ==> obituary(peer_ip, false, e) == Some(
            EventView::Warning("connection "@ + "to "@ + peer_ip + " ended: "@ + e.text()),
        ),
{
}

/// What each reason says.
pub proof fn law_what_each_reason_says(why: String, flaw: &'static str, e: ProtocolError)
    ensures
        ConnError::Io(why).text() == "io error: "@ + why@,
        ConnError::Protocol(e).text() == e.text(),
        ConnError::Oversized.text() == "peer sent an oversized line"@,
        ConnError::HandshakeTimeout.text() == "peer did not complete the handshake in time"@,
        ConnError::ClosedDuringHandshake.text() == "peer closed during the handshake"@,
        ConnError::ExpectedHello.text() == "peer's first frame was not a Hello"@,
        ConnError::InvalidIdentity(flaw).text() == "peer presented an invalid identity: "@ + flaw@,
        ConnError::NotInvited.text() == "peer could not prove that it holds the room code"@,
        ConnError::Rejected(Rejection::SelfConnection).text() == "connected to ourselves"@,
        ConnError::Rejected(Rejection::DuplicateConnection).text()
            == "already connected to this peer"@,
{
}

/// Leaving a key out of a list leaves the others in their order.
pub proof fn law_the_other_keys_stay_in_order(keys: Seq<Seq<u8>>, key: Seq<u8>, last: Seq<u8>)
    ensures
        without_key(Seq::empty(), key) == Seq::<Seq<u8>>::empty(),
        without_key(keys.push(last), key) == if last == key {
            without_key(keys, key)
        } else {
            without_key(keys, key).push(last)
        },
{
    reveal(Seq::filter);
    assert(keys.push(last).drop_last() =~= keys);
}

/// One more entry of a peer list is considered where it is among the first 64 and there
/// is nothing wrong with it, behind those before it, and is else passed over.
pub proof fn law_one_more_entry_is_considered(gossiped: Seq<PeerInfoView>, info: PeerInfoView)
    ensures
        credible(Seq::empty()) == Seq::<PeerInfoView>::empty(),
        credible(gossiped.push(info)) == if gossiped.len() < 64 && handshake::identity_flaw(
            info,
        ) is None {
            credible(gossiped).push(info)
        } else {
            credible(gossiped)
        },
{
    reveal(Seq::filter);
    let longer = gossiped.push(info);
    if gossiped.len() < 64 {
        assert(longer.drop_last() =~= gossiped);
    } else {
        assert(longer.take(64) =~= gossiped.take(64));
        if gossiped.len() == 64 {
            assert(gossiped.take(64) =~= gossiped);
        }
    }
}

/// While nobody is being dialled, everyone credible whom we are not connected to is to
/// be dialled, and each key that is being dialled takes just its own entry away.
pub proof fn law_being_dialled_takes_one_entry_away(
    node: NodeView,
    gossiped: Seq<PeerInfoView>,
    key: Seq<u8>,
)
    ensures
        node.dialing.len() == 0 ==> to_dial(node, gossiped) == peers::undialed(
            node.registry,
            credible(gossiped),
        ),
        to_dial(NodeView { dialing: node.dialing.push(key), ..node }, gossiped) == to_dial(
            node,
            gossiped,
        ).filter(|info: PeerInfoView| info.public_key != key),
{
    let missing = peers::undialed(node.registry, credible(gossiped));
    if node.dialing.len() == 0 {
        lemma_all_are_fresh(missing, node.dialing);
    }
    lemma_one_more_dialled(missing, node.dialing, key);
}

proof fn lemma_all_are_fresh(missing: Seq<PeerInfoView>, dialing: Seq<Seq<u8>>)
    requires
        dialing.len() == 0,
    ensures
        missing.filter(|info: PeerInfoView| !dialing.contains(info.public_key)) == missing,
    decreases missing.len(),
{
    reveal(Seq::filter);
    if missing.len() > 0 {
        lemma_all_are_fresh(missing.drop_last(), dialing);
        assert(missing.drop_last().push(missing.last()) =~= missing);
    } else {
        assert(missing =~= Seq::<PeerInfoView>::empty());
    }
}

proof fn lemma_one_more_dialled(
    missing: Seq<PeerInfoView>,
    dialing: Seq<Seq<u8>>,
    key: Seq<u8>,
)
    ensures
        missing.filter(|info: PeerInfoView| !dialing.push(key).contains(info.public_key))
            == missing.filter(|info: PeerInfoView| !dialing.contains(info.public_key)).filter(
            |info: PeerInfoView| info.public_key != key,
        ),
    decreases missing.len(),
{
    reveal(Seq::filter);
    if missing.len() > 0 {
        let front = missing.drop_last();
        let last = missing.last().public_key;
        lemma_one_more_dialled(front, dialing, key);
        let longer = dialing.push(key);
        assert(longer.contains(last) <==> dialing.contains(last) || last == key) by {
            if dialing.contains(last) {
                let i = choose|i: int| 0 <= i < dialing.len() && dialing[i] == last;
                assert(longer[i] == last);
            }
            assert(longer[dialing.len() as int] == key);
        }
        let fresh = |info: PeerInfoView| !dialing.contains(info.public_key);
        let kept = front.filter(fresh);
        if fresh(missing.last()) {
            assert(kept.push(missing.last()).drop_last() =~= kept);
        }
    }
}

/// What is sealed for a message is its record in compact JSON, in UTF-8.
pub proof fn law_what_is_sealed_for_a_message(message: MessageView)
    ensures
        plaintext_of(message) == encode_utf8(
            crate::json::compact(
                crate::json::Json::Record(
                    seq![
                        ("from"@, crate::json::Json::Text(message.from)),
                        ("content"@, crate::json::Json::Text(message.content)),
                        ("timestamp"@, crate::json::Json::Number(message.timestamp)),
                    ],
                ),
            ),
        ),
{
}

/// Several effects, or keys, are seen one for one and in their order.
pub proof fn law_effects_are_seen_one_for_one(effects: Seq<Effect>, keys: Seq<Vec<u8>>, i: int)
    ensures
        effect_views(effects).len() == effects.len(),
        0 <= i < effects.len() ==> effect_views(effects)[i] == effects[i]@,
        key_views(keys).len() == keys.len(),
        0 <= i < keys.len() ==> key_views(keys)[i] == keys[i]@,
{
}

} // verus!
