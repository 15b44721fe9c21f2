//! One connection, from handshake to close.
//!
//! Whoever owns the socket reports what happens on it, and is told what to do
//! and whether the connection stays open.

use crate::crypto;
use crate::handshake;
use crate::node;
use crate::node::{
    serve_ended, ConnError, Effect, EffectView, EventView, Node, NodeView,
};
use crate::peers;
use crate::peers::{AdmissionView, Peer, PeerView, Rejection};
use crate::protocol;
use crate::protocol::{
    FrameView, PeerInfoView, ProtocolError, ProtocolErrorView, Ticket, TicketView,
};
use crate::room;
use crate::text;
use vstd::prelude::*;
use vstd::string::*;

verus! {

/// How far a connection has come.
pub enum Stage {
    /// The other end has not introduced itself.
    Greeting,
    /// It has introduced itself, and its challenge is awaited.
    Challenging(Peer),
    /// It has sent a challenge, and its proof is awaited.
    Proving { peer: Peer, their_nonce: [u8; 32] },
    /// It has joined.
    Joined(Peer),
    /// It has ended.
    Ended,
}

/// What a `Stage` says.
pub enum StageView {
    Greeting,
    Challenging(PeerView),
    Proving { peer: PeerView, their_nonce: Seq<u8> },
    Joined(PeerView),
    Ended,
}

impl View for Stage {
    type V = StageView;

    open spec fn view(&self) -> StageView {
        match self {
            Stage::Greeting => StageView::Greeting,
            Stage::Challenging(peer) => StageView::Challenging(peer@),
            Stage::Proving { peer, their_nonce } => StageView::Proving {
                peer: peer@,
                their_nonce: their_nonce@,
            },
            Stage::Joined(peer) => StageView::Joined(peer@),
            Stage::Ended => StageView::Ended,
        }
    }
}

/// A connection: its number, where its other end is, who dialled, our nonce for
/// it, and how far it has come.
pub struct Connection {
    id: u64,
    peer_ip: String,
    inbound: bool,
    nonce: [u8; 32],
    stage: Stage,
}

/// What a `Connection` holds.
#[verifier::ext_equal]
pub struct ConnectionView {
    pub id: u64,
    pub peer_ip: Seq<char>,
    pub inbound: bool,
    pub nonce: Seq<u8>,
    pub stage: StageView,
}

impl ConnectionView {
    /// Whether a peer that was introduced has a key of the right length, as
    /// every good introduction has.
    pub open spec fn valid(self) -> bool {
        match self.stage {
            StageView::Challenging(peer) => peer.public_key.len() == crypto::KEY_LEN,
            StageView::Proving { peer, .. } => peer.public_key.len() == crypto::KEY_LEN,
            _ => true,
        }
    }
}

impl View for Connection {
    type V = ConnectionView;

    closed spec fn view(&self) -> ConnectionView {
        ConnectionView {
            id: self.id,
            peer_ip: self.peer_ip@,
            inbound: self.inbound,
            nonce: self.nonce@,
            stage: self.stage@,
        }
    }
}

/// Something that happens on a connection.
#[derive(Debug, PartialEq, Eq)]
pub enum Input {
    /// A line arrived.
    Line(String),
    /// A line arrived that is longer than permitted.
    TooLong,
    /// Reading or writing failed.
    Failed(String),
    /// A frame of ours cannot be written.
    Unwritable(ProtocolError),
    /// The other end closed it.
    Closed,
    /// The time for the handshake is up.
    TimedOut,
    /// We closed it ourselves, for another connection or to shut down.
    Retired,
}

/// What an `Input` says.
pub enum InputView {
    Line(Seq<char>),
    TooLong,
    Failed(Seq<char>),
    Unwritable(ProtocolErrorView),
    Closed,
    TimedOut,
    Retired,
}

impl View for Input {
    type V = InputView;

    open spec fn view(&self) -> InputView {
        match self {
            Input::Line(line) => InputView::Line(line@),
            Input::TooLong => InputView::TooLong,
            Input::Failed(why) => InputView::Failed(why@),
            Input::Unwritable(e) => InputView::Unwritable(e@),
            Input::Closed => InputView::Closed,
            Input::TimedOut => InputView::TimedOut,
            Input::Retired => InputView::Retired,
        }
    }
}

/// What comes of an input: the node and the connection after it, what is to be
/// done, and whether the connection stays open.
#[verifier::ext_equal]
pub struct Driven {
    pub node: NodeView,
    pub connection: ConnectionView,
    pub effects: Seq<EffectView>,
    pub open: bool,
}

/// The words for a line that is no frame.
pub open spec fn unreadable_text(line: Seq<char>) -> Seq<char> {
    if protocol::byte_size(line) > protocol::MAX_FRAME_BYTES {
        "frame of "@ + text::decimal(protocol::byte_size(line)) + " bytes exceeds the "@
            + text::decimal(protocol::MAX_FRAME_BYTES as nat) + " byte limit"@
    } else {
        "malformed frame: "@ + protocol::complaint(line)
    }
}

/// The words for a first line that is no good introduction.
pub open spec fn greeting_flaw(line: Seq<char>) -> Seq<char> {
    match protocol::decoding(line) {
        None => unreadable_text(line),
        Some(FrameView::Hello { name, public_key, listen_addr }) =>
            "peer presented an invalid identity: "@ + handshake::identity_flaw(
            PeerInfoView { name, public_key, listen_addr },
        )->0,
        Some(_) => "peer's first frame was not a Hello"@,
    }
}

/// The warning about a connection that ended, where it ended for a reason.
pub open spec fn ending(connection: ConnectionView, reason: Option<Seq<char>>) -> Seq<EffectView> {
    match reason {
        Some(words) => seq![
            EffectView::Emit(
                EventView::Warning(
                    node::ended_words(connection.peer_ip, connection.inbound, words),
                ),
            ),
        ],
        None => Seq::empty(),
    }
}

/// A connection ends: its peer leaves, if it had joined, and the reason is
/// given, if there is one.
pub open spec fn cut_off(
    node: NodeView,
    connection: ConnectionView,
    reason: Option<Seq<char>>,
) -> Driven {
    let gone = ConnectionView { stage: StageView::Ended, ..connection };
    match connection.stage {
        StageView::Joined(peer) => Driven {
            node: node::left_node(node, peer.public_key, connection.id),
            connection: gone,
            effects: node::leave_effects(node, peer.public_key, connection.id) + ending(
                connection,
                reason,
            ),
            open: false,
        },
        _ => Driven {
            node,
            connection: gone,
            effects: ending(connection, reason),
            open: false,
        },
    }
}

/// The reason that is given for turning a connection away, if any is. Losing a
/// tiebreak is the system working.
pub open spec fn rejection_reason(reason: Rejection) -> Option<Seq<char>> {
    match reason {
        Rejection::SelfConnection => Some("connected to ourselves"@),
        Rejection::DuplicateConnection => None,
    }
}

/// A peer that has done all that was asked of it joins, unless the node turns it
/// away.
pub open spec fn let_in(node: NodeView, connection: ConnectionView, peer: PeerView) -> Driven {
    let after = node::joined_node(node, peer, connection.inbound, connection.id);
    match peers::admission(node.registry, peer, connection.inbound) {
        AdmissionView::Rejected(reason) => cut_off(after, connection, rejection_reason(reason)),
        _ => Driven {
            node: after,
            connection: ConnectionView { stage: StageView::Joined(peer), ..connection },
            effects: node::join_effects(node, peer, connection.inbound, connection.id),
            open: true,
        },
    }
}

/// The words for a peer that does not hold the room's code.
pub open spec fn not_invited() -> Seq<char> {
    "peer could not prove that it holds the room code"@
}

/// A first line arrives. A good introduction is enough where there is no room,
/// and where there is one, the room's code is to be proved next.
pub open spec fn introduced_by(
    node: NodeView,
    connection: ConnectionView,
    line: Seq<char>,
) -> Driven {
    match handshake::greeting(line, connection.peer_ip) {
        None => cut_off(node, connection, Some(greeting_flaw(line))),
        Some(peer) => match node.room {
            None => let_in(node, connection, peer),
            Some(_) => Driven {
                node,
                connection: ConnectionView { stage: StageView::Challenging(peer), ..connection },
                effects: Seq::empty(),
                open: true,
            },
        },
    }
}

/// Our proof, for a connection on which the other end sent its nonce.
pub open spec fn our_proof(
    node: NodeView,
    connection: ConnectionView,
    peer: PeerView,
    their_nonce: Seq<u8>,
) -> Seq<u8> {
    room::admission_proof(
        node.room->0,
        node.public_key,
        connection.nonce,
        peer.public_key,
        their_nonce,
    )
}

/// A challenge is due, and is answered with our proof.
pub open spec fn challenged_by(
    node: NodeView,
    connection: ConnectionView,
    peer: PeerView,
    line: Seq<char>,
) -> Driven {
    match (node.room, protocol::ticket_said(line)) {
        (Some(_), Some(TicketView::Challenge { nonce })) => Driven {
            node,
            connection: ConnectionView {
                stage: StageView::Proving { peer, their_nonce: nonce },
                ..connection
            },
            effects: seq![
                EffectView::Present {
                    connection: connection.id,
                    ticket: TicketView::Proof { shown: our_proof(node, connection, peer, nonce) },
                },
            ],
            open: true,
        },
        _ => cut_off(node, connection, Some(not_invited())),
    }
}

/// Whether a line is the proof that only a holder of the room's code can have
/// made for this connection.
pub open spec fn proves(
    node: NodeView,
    connection: ConnectionView,
    peer: PeerView,
    their_nonce: Seq<u8>,
    line: Seq<char>,
) -> bool {
    match (node.room, protocol::ticket_said(line)) {
        (Some(code), Some(TicketView::Proof { shown })) => room::accepts(
            code,
            shown,
            peer.public_key,
            their_nonce,
            node.public_key,
            connection.nonce,
        ),
        _ => false,
    }
}

/// A proof is due, and lets its peer in if it is right.
pub open spec fn proved_by(
    node: NodeView,
    connection: ConnectionView,
    peer: PeerView,
    their_nonce: Seq<u8>,
    line: Seq<char>,
) -> Driven {
    if proves(node, connection, peer, their_nonce, line) {
        let_in(node, connection, peer)
    } else {
        cut_off(node, connection, Some(not_invited()))
    }
}

/// A later line arrives: gossip and messages are dealt with, and anything else
/// ends the connection.
pub open spec fn spoken_to(
    node: NodeView,
    connection: ConnectionView,
    peer: PeerView,
    line: Seq<char>,
) -> Driven {
    match protocol::decoding(line) {
        None => cut_off(node, connection, Some(unreadable_text(line))),
        Some(FrameView::Hello { .. }) => cut_off(
            node,
            connection,
            Some("peer's first frame was not a Hello"@),
        ),
        Some(_) => Driven {
            node: node::heard_node(node, line),
            connection,
            effects: node::heard_effects(node, peer, line),
            open: true,
        },
    }
}

/// What comes of a line, by how far the connection has come.
pub open spec fn driven_by_line(
    node: NodeView,
    connection: ConnectionView,
    line: Seq<char>,
) -> Driven {
    match connection.stage {
        StageView::Greeting => introduced_by(node, connection, line),
        StageView::Challenging(peer) => challenged_by(node, connection, peer, line),
        StageView::Proving { peer, their_nonce } => proved_by(
            node,
            connection,
            peer,
            their_nonce,
            line,
        ),
        StageView::Joined(peer) => spoken_to(node, connection, peer, line),
        StageView::Ended => cut_off(node, connection, None),
    }
}

/// Whether the handshake is still going on.
pub open spec fn shaking_hands(stage: StageView) -> bool {
    stage is Greeting || stage is Challenging || stage is Proving
}

/// What comes of an input. Only a handshake can run out of time, and a peer that
/// closes its end after the handshake is no fault.
pub open spec fn driven(node: NodeView, connection: ConnectionView, input: InputView) -> Driven {
    match input {
        InputView::Line(line) => driven_by_line(node, connection, line),
        InputView::TooLong => cut_off(node, connection, Some("peer sent an oversized line"@)),
        InputView::Failed(why) => cut_off(node, connection, Some("io error: "@ + why)),
        InputView::Unwritable(e) => cut_off(
            node,
            connection,
            Some(protocol::error_text(e)),
        ),
        InputView::Closed => if shaking_hands(connection.stage) {
            cut_off(node, connection, Some("peer closed during the handshake"@))
        } else {
            cut_off(node, connection, None)
        },
        InputView::TimedOut => if shaking_hands(connection.stage) {
            cut_off(node, connection, Some("peer did not complete the handshake in time"@))
        } else {
            Driven {
                node,
                connection,
                effects: Seq::empty(),
                open: !(connection.stage is Ended),
            }
        },
        InputView::Retired => cut_off(node, connection, None),
    }
}

/// What is sent as soon as a connection opens: our introduction and, where there
/// is a room, our challenge.
pub open spec fn first_words(node: NodeView, connection: ConnectionView) -> Seq<EffectView> {
    let introduction = EffectView::Send { connection: connection.id, frame: node::hello(node) };
    match node.room {
        None => seq![introduction],
        Some(_) => seq![
            introduction,
            EffectView::Present {
                connection: connection.id,
                ticket: TicketView::Challenge { nonce: connection.nonce },
            },
        ],
    }
}

impl Connection {
    /// A connection whose handshake is yet to come, with a fresh nonce of ours.
    pub fn new(id: u64, peer_ip: String, inbound: bool, nonce: [u8; 32]) -> (connection: Self)
        ensures
            connection@ == (ConnectionView {
                id,
                peer_ip: peer_ip@,
                inbound,
                nonce: nonce@,
                stage: StageView::Greeting,
            }),
            connection@.valid(),
    {
        Connection { id, peer_ip, inbound, nonce, stage: Stage::Greeting }
    }

    /// Who is at the other end, once they have joined.
    pub fn peer(&self) -> (peer: Option<&Peer>)
        ensures
            match peer {
                Some(p) => self@.stage == StageView::Joined(p@),
                None => !(self@.stage is Joined),
            },
    {
        match &self.stage {
            Stage::Joined(peer) => Some(peer),
            _ => None,
        }
    }

    /// Whether the handshake is still going on.
    fn is_shaking_hands(&self) -> (still: bool)
        ensures
            still == shaking_hands(self@.stage),
    {
        match &self.stage {
            Stage::Greeting => true,
            Stage::Challenging(_) => true,
            Stage::Proving { .. } => true,
            _ => false,
        }
    }
}

/// Adds the effects of one list to another.
fn add_all(effects: &mut Vec<Effect>, more: Vec<Effect>)
    ensures
        node::effect_views(final(effects)@) == node::effect_views(old(effects)@)
            + node::effect_views(more@),
{
    let ghost before = effects@;
    let ghost added = more@;
    let mut more = more;
    effects.append(&mut more);
    assert(node::effect_views(effects@) =~= node::effect_views(before) + node::effect_views(added));
}

/// The words that an error gives as the reason for an ending, if it gives any.
pub open spec fn reason_given(e: ConnError) -> Option<Seq<char>> {
    if e == ConnError::Rejected(Rejection::DuplicateConnection) {
        None
    } else {
        Some(e.text())
    }
}

impl Node {
    /// What is sent as soon as a connection opens.
    pub fn greet(&self, connection: &Connection) -> (effects: Vec<Effect>)
        ensures
            node::effect_views(effects@) == first_words(self@, connection@),
    {
        let mut effects: Vec<Effect> = Vec::new();
        effects.push(Effect::Send { connection: connection.id, frame: self.hello() });
        if self.room.is_some() {
            effects.push(
                Effect::Present {
                    connection: connection.id,
                    ticket: Ticket::Challenge { nonce: connection.nonce },
                },
            );
        }
        assert(node::effect_views(effects@) =~= first_words(self@, connection@));
        effects
    }

    /// A connection ends, for the reason given if there is one.
    fn end(&mut self, connection: &mut Connection, reason: Option<ConnError>) -> (effects: Vec<
        Effect,
    >)
        requires
            old(self)@.valid(),
        ensures
            ({
                let words = match reason {
                    Some(e) => reason_given(e),
                    None => None,
                };
                let done = cut_off(old(self)@, old(connection)@, words);
                &&& final(self)@ == done.node
                &&& final(connection)@ == done.connection
                &&& node::effect_views(effects@) == done.effects
            }),
            final(self)@.valid(),
            final(connection)@.valid(),
    {
        let mut effects: Vec<Effect> = Vec::new();
        assert(node::effect_views(effects@) =~= Seq::<EffectView>::empty());
        let ghost before = self@;
        let ghost was = connection@;
        if let Stage::Joined(peer) = &connection.stage {
            let left = self.disconnect(peer.public_key.as_slice(), connection.id);
            add_all(&mut effects, left);
        }
        let ghost left = node::effect_views(effects@);
        if let Some(e) = &reason {
            if let Some(event) = serve_ended(connection.peer_ip.as_str(), connection.inbound, e) {
                effects.push(Effect::Emit(event));
                assert(node::effect_views(effects@) =~= left + ending(was, Some(e.text())));
            }
        }
        connection.stage = Stage::Ended;
        proof {
            match was.stage {
                StageView::Joined(peer) => {
                    assert(left =~= node::leave_effects(before, peer.public_key, was.id));
                },
                _ => {
                    assert(left =~= Seq::<EffectView>::empty());
                },
            }
            assert(left + Seq::<EffectView>::empty() =~= left);
            assert(Seq::<EffectView>::empty() + ending(was, None) =~= Seq::<EffectView>::empty());
            if let Some(e) = reason {
                assert(Seq::<EffectView>::empty() + ending(was, Some(e.text())) =~= ending(
                    was,
                    Some(e.text()),
                ));
            }
        }
        effects
    }

    /// Something happens on a connection. Says what is to be done, and whether
    /// the connection stays open.
    pub fn run_connection(&mut self, connection: &mut Connection, input: Input) -> (outcome: (
        Vec<Effect>,
        bool,
    ))
        requires
            old(self)@.valid(),
            old(connection)@.valid(),
        ensures
            ({
                let done = driven(old(self)@, old(connection)@, input@);
                &&& final(self)@ == done.node
                &&& final(connection)@ == done.connection
                &&& node::effect_views(outcome.0@) == done.effects
                &&& outcome.1 == done.open
            }),
            final(self)@.valid(),
            final(connection)@.valid(),
    {
        let reason: Option<ConnError> = match input {
            Input::Line(line) => match self.hear(connection, line.as_str()) {
                Ok(effects) => return (effects, true),
                Err(e) => e,
            },
            Input::TooLong => Some(ConnError::Oversized),
            Input::Failed(why) => Some(ConnError::Io(why)),
            Input::Unwritable(e) => Some(ConnError::Protocol(e)),
            Input::Closed => {
                if connection.is_shaking_hands() {
                    Some(ConnError::ClosedDuringHandshake)
                } else {
                    None
                }
            },
            Input::TimedOut => {
                if connection.is_shaking_hands() {
                    Some(ConnError::HandshakeTimeout)
                } else {
                    let effects: Vec<Effect> = Vec::new();
                    assert(node::effect_views(effects@) =~= Seq::<EffectView>::empty());
                    return (effects, connection.peer().is_some());
                }
            },
            Input::Retired => None,
        };
        let effects = self.end(connection, reason);
        (effects, false)
    }

    /// A line arrives on a connection. An error is the reason to end it, if there
    /// is one.
    fn hear(&mut self, connection: &mut Connection, line: &str) -> (outcome: Result<
        Vec<Effect>,
        Option<ConnError>,
    >)
        requires
            old(self)@.valid(),
            old(connection)@.valid(),
        ensures
            final(self)@.valid(),
            final(connection)@.valid(),
            heard_as(
                driven_by_line(old(self)@, old(connection)@, line@),
                final(self)@,
                final(connection)@,
                outcome,
                old(connection)@,
            ),
    {
        match &connection.stage {
            Stage::Greeting => match handshake::handshake(line, connection.peer_ip.as_str()) {
                Ok(peer) => {
                    if self.room.is_some() {
                        connection.stage = Stage::Challenging(peer);
                        let effects: Vec<Effect> = Vec::new();
                        assert(node::effect_views(effects@) =~= Seq::<EffectView>::empty());
                        Ok(effects)
                    } else {
                        self.welcome(connection, peer)
                    }
                },
                Err(e) => Err(Some(e)),
            },
            Stage::Challenging(peer) => match (&self.room, Ticket::decode(line)) {
                (Some(code), Some(Ticket::Challenge { nonce })) => {
                    let shown = code.make_proof(
                        self.identity.public_key.as_slice(),
                        &connection.nonce,
                        peer.public_key.as_slice(),
                        &nonce,
                    );
                    let mut effects: Vec<Effect> = Vec::new();
                    effects.push(
                        Effect::Present {
                            connection: connection.id,
                            ticket: Ticket::Proof { shown },
                        },
                    );
                    let ghost was = connection@;
                    let ghost introduced_peer = peer@;
                    connection.stage = Stage::Proving { peer: peer.clone(), their_nonce: nonce };
                    assert(node::effect_views(effects@) =~= challenged_by(
                        self@,
                        was,
                        introduced_peer,
                        line@,
                    ).effects);
                    Ok(effects)
                },
                _ => Err(Some(ConnError::NotInvited)),
            },
            Stage::Proving { peer, their_nonce } => {
                let mut invited = false;
                if let (Some(code), Some(Ticket::Proof { shown })) = (
                    &self.room,
                    Ticket::decode(line),
                ) {
                    invited = code.verify(
                        &shown,
                        peer.public_key.as_slice(),
                        their_nonce,
                        self.identity.public_key.as_slice(),
                        &connection.nonce,
                    );
                }
                if invited {
                    let peer = peer.clone();
                    self.welcome(connection, peer)
                } else {
                    Err(Some(ConnError::NotInvited))
                }
            },
            Stage::Joined(peer) => {
                let peer = peer.clone();
                match self.handle_frame(&peer, line) {
                    Ok(effects) => Ok(effects),
                    Err(e) => Err(Some(e)),
                }
            },
            Stage::Ended => Err(None),
        }
    }

    /// A peer that has done all that was asked of it joins, unless it is turned
    /// away.
    fn welcome(&mut self, connection: &mut Connection, peer: Peer) -> (outcome: Result<
        Vec<Effect>,
        Option<ConnError>,
    >)
        requires
            old(self)@.valid(),
            !(old(connection)@.stage is Joined),
            old(connection)@.valid(),
            peer@.public_key.len() == crypto::KEY_LEN,
        ensures
            final(self)@.valid(),
            final(connection)@.valid(),
            heard_as(
                let_in(old(self)@, old(connection)@, peer@),
                final(self)@,
                final(connection)@,
                outcome,
                old(connection)@,
            ),
    {
        let known = peer.clone();
        match self.join(peer, connection.inbound, connection.id) {
            Ok(effects) => {
                connection.stage = Stage::Joined(known);
                Ok(effects)
            },
            Err(e) => Err(Some(e)),
        }
    }
}

/// Whether an outcome is the expected one: either it is done, or what is left to
/// do is to end the connection, for the reason given.
spec fn heard_as(
    done: Driven,
    node: NodeView,
    connection: ConnectionView,
    outcome: Result<Vec<Effect>, Option<ConnError>>,
    before: ConnectionView,
) -> bool {
    match outcome {
        Ok(effects) => {
            &&& done.open
            &&& node == done.node
            &&& connection == done.connection
            &&& node::effect_views(effects@) == done.effects
        },
        Err(reason) => {
            &&& connection == before
            &&& done == cut_off(
                node,
                before,
                match reason {
                    Some(e) => reason_given(e),
                    None => None,
                },
            )
        },
    }
}

// ---------------------------------------------------------------------------
// What holds of all of it
// ---------------------------------------------------------------------------
/// Nobody joins a node that is in a room except by the proof that a holder of
/// the room's code makes for the connection at hand.
pub proof fn law_nobody_joins_a_room_without_its_code(
    node: NodeView,
    connection: ConnectionView,
    input: InputView,
)
    requires
        node.room is Some,
        !(connection.stage is Joined),
        driven(node, connection, input).connection.stage is Joined,
    ensures
        connection.stage matches StageView::Proving { peer, their_nonce } && input matches
            InputView::Line(line) && proves(node, connection, peer, their_nonce, line),
{
}

/// Where there is no room, a good introduction is all that it takes.
pub proof fn law_an_open_node_asks_for_an_introduction_only(
    node: NodeView,
    connection: ConnectionView,
    line: Seq<char>,
)
    requires
        node.room is None,
        connection.stage is Greeting,
        handshake::greeting(line, connection.peer_ip) is Some,
        !(peers::admission(
            node.registry,
            handshake::greeting(line, connection.peer_ip)->0,
            connection.inbound,
        ) is Rejected),
    ensures
        driven(node, connection, InputView::Line(line)).open,
        driven(node, connection, InputView::Line(line)).connection.stage == StageView::Joined(
            handshake::greeting(line, connection.peer_ip)->0,
        ),
{
}

/// Two nodes in one room convince each other: the proof that one makes once it
/// has the other's nonce is the proof that the other is waiting for.
pub proof fn law_two_holders_convince_each_other(
    a: NodeView,
    on_a: ConnectionView,
    b_as_seen: PeerView,
    b: NodeView,
    on_b: ConnectionView,
    a_as_seen: PeerView,
    line: Seq<char>,
)
    requires
        a.room is Some,
        a.room == b.room,
        b_as_seen.public_key == b.public_key,
        a_as_seen.public_key == a.public_key,
        protocol::ticket_said(line) == Some(
            TicketView::Proof { shown: our_proof(a, on_a, b_as_seen, on_b.nonce) },
        ),
    ensures
        proves(b, on_b, a_as_seen, on_a.nonce, line),
{
}

/// A connection that has ended is no longer the one that is held to its peer.
pub proof fn law_an_ended_connection_is_gone(
    node: NodeView,
    connection: ConnectionView,
    input: InputView,
    peer: PeerView,
)
    requires
        node.valid(),
        connection.stage == StageView::Joined(peer),
        !driven(node, connection, input).open,
    ensures
        !driven(node, connection, input).node.is_current(peer.public_key, connection.id),
        driven(node, connection, input).connection.stage is Ended,
{
    let key = peer.public_key;
    let after = node::left_node(node, key, connection.id);
    assert(driven(node, connection, input).node == after);
    if after.is_current(key, connection.id) {
        let i = choose|i: int|
            0 <= i < after.registry.peers.len() && (#[trigger] after.registry.peers[i]).public_key
                == key && after.connections[i] == connection.id;
        if node.is_current(key, connection.id) {
            assert(after.registry.holds(key));
            peers::law_removal_removes(node.registry, key);
        }
    }
}

/// Whether a connection has ended for the reason given, if one is: its peer, if it
/// had joined, has left, and the reason is told with where the connection was to.
pub open spec fn ends_for(
    done: Driven,
    node: NodeView,
    connection: ConnectionView,
    reason: Option<Seq<char>>,
) -> bool {
    let left = match connection.stage {
        StageView::Joined(peer) => node::leave_effects(node, peer.public_key, connection.id),
        _ => Seq::empty(),
    };
    &&& !done.open
    &&& done.connection.stage is Ended
    &&& done.connection.id == connection.id
    &&& done.node == match connection.stage {
        StageView::Joined(peer) => node::left_node(node, peer.public_key, connection.id),
        _ => node,
    }
    &&& reason is None ==> done.effects == left
    &&& reason matches Some(words) ==> done.effects == left.push(
        EffectView::Emit(
            EventView::Warning(
                "connection "@ + (if connection.inbound {
                    "from "@
                } else {
                    "to "@
                }) + connection.peer_ip + " ended: "@ + words,
            ),
        ),
    )
}

proof fn lemma_cut_off(node: NodeView, connection: ConnectionView, reason: Option<Seq<char>>)
    ensures
        ends_for(cut_off(node, connection, reason), node, connection, reason),
{
    let none = Seq::<EffectView>::empty();
    let left = match connection.stage {
        StageView::Joined(peer) => node::leave_effects(node, peer.public_key, connection.id),
        _ => none,
    };
    let done = cut_off(node, connection, reason);
    match reason {
        None => {
            assert(done.effects =~= left);
        },
        Some(words) => {
            assert(done.effects =~= left.push(ending(connection, reason)[0]));
        },
    }
}

/// What ends a connection whatever has been said on it, and for which reason. After
/// the handshake, closing it is no fault, and time does not run out.
pub proof fn law_what_ends_a_connection(
    node: NodeView,
    connection: ConnectionView,
    why: Seq<char>,
    e: ProtocolErrorView,
)
    ensures
        ends_for(
            driven(node, connection, InputView::TooLong),
            node,
            connection,
            Some("peer sent an oversized line"@),
        ),
        ends_for(
            driven(node, connection, InputView::Failed(why)),
            node,
            connection,
            Some("io error: "@ + why),
        ),
        ends_for(
            driven(node, connection, InputView::Unwritable(e)),
            node,
            connection,
            Some(protocol::error_text(e)),
        ),
        ends_for(driven(node, connection, InputView::Retired), node, connection, None),
        connection.stage is Joined || connection.stage is Ended ==> {
            &&& ends_for(driven(node, connection, InputView::Closed), node, connection, None)
            &&& driven(node, connection, InputView::TimedOut) == (Driven {
                node,
                connection,
                effects: Seq::empty(),
                open: connection.stage is Joined,
            })
        },
        !(connection.stage is Joined || connection.stage is Ended) ==> {
            &&& ends_for(
                driven(node, connection, InputView::Closed),
                node,
                connection,
                Some("peer closed during the handshake"@),
            )
            &&& ends_for(
                driven(node, connection, InputView::TimedOut),
                node,
                connection,
                Some("peer did not complete the handshake in time"@),
            )
        },
{
    lemma_cut_off(node, connection, None);
    lemma_cut_off(node, connection, Some("peer sent an oversized line"@));
    lemma_cut_off(node, connection, Some("io error: "@ + why));
    lemma_cut_off(node, connection, Some(protocol::error_text(e)));
    lemma_cut_off(node, connection, Some("peer closed during the handshake"@));
    lemma_cut_off(node, connection, Some("peer did not complete the handshake in time"@));
}

/// A line that cannot be read ends a connection on which a frame is due, and the
/// reason says whether it is too long or what the parser has against it.
pub proof fn law_an_unreadable_line_ends_a_connection(
    node: NodeView,
    connection: ConnectionView,
    line: Seq<char>,
)
    requires
        connection.stage is Greeting || connection.stage is Joined,
        protocol::decoding(line) is None,
    ensures
        protocol::byte_size(line) > 65536 ==> ends_for(
            driven(node, connection, InputView::Line(line)),
            node,
            connection,
            Some(
                "frame of "@ + text::decimal(protocol::byte_size(line)) + " bytes exceeds the "@
                    + text::decimal(65536) + " byte limit"@,
            ),
        ),
        protocol::byte_size(line) <= 65536 ==> ends_for(
            driven(node, connection, InputView::Line(line)),
            node,
            connection,
            Some("malformed frame: "@ + protocol::complaint(line)),
        ),
{
    lemma_cut_off(node, connection, Some(unreadable_text(line)));
}

/// What comes of a first frame: one that is no introduction, or no good one, ends the
/// connection, and says so; a good one is enough where there is no room, and where
/// there is one, nothing more happens until the room's code is proved.
pub proof fn law_what_comes_of_a_first_frame(
    node: NodeView,
    connection: ConnectionView,
    line: Seq<char>,
)
    requires
        connection.stage is Greeting,
    ensures
        ({
            let done = driven(node, connection, InputView::Line(line));
            match protocol::decoding(line) {
                None => !done.open,
                Some(FrameView::Hello { name, public_key, listen_addr }) =>
                    match handshake::identity_flaw(
                    PeerInfoView { name, public_key, listen_addr },
                ) {
                    Some(flaw) => ends_for(
                        done,
                        node,
                        connection,
                        Some("peer presented an invalid identity: "@ + flaw),
                    ),
                    None => {
                        let peer = handshake::greeting(line, connection.peer_ip)->0;
                        if node.room is Some {
                            &&& done.open
                            &&& done.node == node
                            &&& done.effects.len() == 0
                            &&& done.connection == (ConnectionView {
                                stage: StageView::Challenging(peer),
                                ..connection
                            })
                        } else {
                            lets_in(done, node, connection, peer)
                        }
                    },
                },
                Some(_) => ends_for(
                    done,
                    node,
                    connection,
                    Some("peer's first frame was not a Hello"@),
                ),
            }
        }),
{
    match handshake::greeting(line, connection.peer_ip) {
        None => {
            lemma_cut_off(node, connection, Some(greeting_flaw(line)));
        },
        Some(peer) => {
            lemma_let_in(node, connection, peer);
        },
    }
}

/// Whether a peer has been let in over a connection, or has been turned away by the
/// node, in which case the reason is told unless the connection lost a tiebreak.
pub open spec fn lets_in(
    done: Driven,
    node: NodeView,
    connection: ConnectionView,
    peer: PeerView,
) -> bool {
    let after = node::joined_node(node, peer, connection.inbound, connection.id);
    match peers::admission(node.registry, peer, connection.inbound) {
        AdmissionView::Rejected(Rejection::SelfConnection) => ends_for(
            done,
            after,
            connection,
            Some("connected to ourselves"@),
        ),
        AdmissionView::Rejected(Rejection::DuplicateConnection) => ends_for(
            done,
            after,
            connection,
            None,
        ),
        _ => {
            &&& done.open
            &&& done.node == after
            &&& done.connection == (ConnectionView { stage: StageView::Joined(peer), ..connection })
            &&& done.effects == node::join_effects(node, peer, connection.inbound, connection.id)
        },
    }
}

proof fn lemma_let_in(node: NodeView, connection: ConnectionView, peer: PeerView)
    ensures
        lets_in(let_in(node, connection, peer), node, connection, peer),
{
    let after = node::joined_node(node, peer, connection.inbound, connection.id);
    lemma_cut_off(after, connection, Some("connected to ourselves"@));
    lemma_cut_off(after, connection, None);
}

/// A challenge, when one is due, is answered with the proof that covers our key and
/// nonce, then the peer's key and the nonce of the challenge, under the room's code;
/// any other line ends the connection.
pub proof fn law_what_comes_of_a_challenge(
    node: NodeView,
    connection: ConnectionView,
    peer: PeerView,
    line: Seq<char>,
    code: Seq<u8>,
)
    requires
        connection.stage == StageView::Challenging(peer),
        node.room == Some(code),
    ensures
        ({
            let done = driven(node, connection, InputView::Line(line));
            match protocol::ticket_said(line) {
                Some(TicketView::Challenge { nonce }) => {
                    &&& done.open
                    &&& done.node == node
                    &&& done.connection == (ConnectionView {
                        stage: StageView::Proving { peer, their_nonce: nonce },
                        ..connection
                    })
                    &&& done.effects == seq![
                        EffectView::Present {
                            connection: connection.id,
                            ticket: TicketView::Proof {
                                shown: room::admission_proof(
                                    code,
                                    node.public_key,
                                    connection.nonce,
                                    peer.public_key,
                                    nonce,
                                ),
                            },
                        },
                    ]
                },
                _ => ends_for(
                    done,
                    node,
                    connection,
                    Some("peer could not prove that it holds the room code"@),
                ),
            }
        }),
{
    lemma_cut_off(node, connection, Some(not_invited()));
}

/// A proof, when one is due, lets its peer in exactly when it is the one that covers
/// the peer's key and nonce, then ours, under the room's code; any other line ends the
/// connection.
pub proof fn law_what_comes_of_a_proof(
    node: NodeView,
    connection: ConnectionView,
    peer: PeerView,
    their_nonce: Seq<u8>,
    line: Seq<char>,
    code: Seq<u8>,
)
    requires
        connection.stage == (StageView::Proving { peer, their_nonce }),
        node.room == Some(code),
    ensures
        ({
            let done = driven(node, connection, InputView::Line(line));
            if protocol::ticket_said(line) == Some(
                TicketView::Proof {
                    shown: room::admission_proof(
                        code,
                        peer.public_key,
                        their_nonce,
                        node.public_key,
                        connection.nonce,
                    ),
                },
            ) {
                lets_in(done, node, connection, peer)
            } else {
                ends_for(
                    done,
                    node,
                    connection,
                    Some("peer could not prove that it holds the room code"@),
                )
            }
        }),
{
    lemma_cut_off(node, connection, Some(not_invited()));
    lemma_let_in(node, connection, peer);
}

/// What comes of a frame from a peer that has joined: another introduction ends the
/// connection, and everything else is heard by the node and leaves the connection as
/// it is.
pub proof fn law_what_comes_of_a_later_frame(
    node: NodeView,
    connection: ConnectionView,
    peer: PeerView,
    line: Seq<char>,
)
    requires
        connection.stage == StageView::Joined(peer),
        protocol::decoding(line) is Some,
    ensures
        ({
            let done = driven(node, connection, InputView::Line(line));
            if protocol::decoding(line)->0 is Hello {
                ends_for(done, node, connection, Some("peer's first frame was not a Hello"@))
            } else {
                &&& done.open
                &&& done.connection == connection
                &&& done.node == node::heard_node(node, line)
                &&& done.effects == node::heard_effects(node, peer, line)
            }
        }),
{
    lemma_cut_off(node, connection, Some("peer's first frame was not a Hello"@));
}

/// On a connection that has ended a line comes to nothing.
pub proof fn law_nothing_comes_of_a_line_after_the_end(
    node: NodeView,
    connection: ConnectionView,
    line: Seq<char>,
)
    requires
        connection.stage is Ended,
    ensures
        driven(node, connection, InputView::Line(line)) == (Driven {
            node,
            connection,
            effects: Seq::empty(),
            open: false,
        }),
{
}

/// A connection opens with our introduction and, where there is a room, our nonce for
/// it; both go down that connection.
pub proof fn law_what_a_connection_opens_with(node: NodeView, connection: ConnectionView)
    ensures
        first_words(node, connection).len() == if node.room is Some {
            2int
        } else {
            1int
        },
        first_words(node, connection)[0] == (EffectView::Send {
            connection: connection.id,
            frame: FrameView::Hello {
                name: node.registry.my_name,
                public_key: node.public_key,
                listen_addr: node.listen_addr,
            },
        }),
        node.room is Some ==> first_words(node, connection)[1] == (EffectView::Present {
            connection: connection.id,
            ticket: TicketView::Challenge { nonce: connection.nonce },
        }),
{
}

} // verus!
