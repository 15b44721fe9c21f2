//! Whole networks, without the sockets: nodes joined by links that hand each
//! line straight to the other end.

use ee2e_chat::crypto::{self, Keypair};
use ee2e_chat::messages::Message;
use ee2e_chat::handshake;
use ee2e_chat::node::connection::{Connection, Input};
use ee2e_chat::node::{self, ConnError, Effect, Event, Node};
use ee2e_chat::peers::{Peer, Rejection};
use ee2e_chat::protocol::{Frame, PeerInfo, ProtocolError, Ticket, MAX_FRAME_BYTES};
use ee2e_chat::room::{self, RoomCode};
use std::collections::VecDeque;

const HOME: &str = "127.0.0.1";

struct End {
    node: usize,
    id: u64,
    connection: Connection,
}

struct Link {
    ends: [End; 2],
    open: bool,
}

/// What is on its way to one end of a link.
enum Task {
    On(usize, usize, Input),
}

struct Net {
    nodes: Vec<Node>,
    events: Vec<Vec<Event>>,
    links: Vec<Link>,
    queue: VecDeque<Task>,
    wire: Vec<String>,
    next: u64,
}

impl Net {
    fn new(names: &[&str]) -> Self {
        let rooms: Vec<_> = names.iter().map(|name| (*name, None)).collect();
        Net::with_rooms(&rooms)
    }

    /// Nodes that are each in the room given, if any.
    fn with_rooms(names: &[(&str, Option<&str>)]) -> Self {
        let mut net = Net {
            nodes: Vec::new(),
            events: Vec::new(),
            links: Vec::new(),
            queue: VecDeque::new(),
            wire: Vec::new(),
            next: 0,
        };
        for (i, (name, room)) in names.iter().enumerate() {
            net.nodes.push(Node::new(
                name.to_string(),
                crypto::generate_keypair(),
                format!("0.0.0.0:{}", 9000 + i),
                room.map(|code| RoomCode::parse(code).unwrap()),
            ));
            net.events.push(Vec::new());
        }
        net
    }

    fn connection(&mut self) -> u64 {
        self.next += 1;
        self.next
    }

    /// One node dials another. Both ends exchange introductions at once.
    fn open(&mut self, from: usize, to: usize) -> usize {
        let (a, b) = (self.connection(), self.connection());
        let link = self.links.len();
        let end = |node, id, inbound| End {
            node,
            id,
            connection: Connection::new(id, HOME.to_string(), inbound, room::new_nonce()),
        };
        self.links.push(Link {
            ends: [end(from, a, false), end(to, b, true)],
            open: true,
        });
        for (side, node) in [(0, from), (1, to)] {
            let effects = self.nodes[node].greet(&self.links[link].ends[side].connection);
            self.perform(node, effects);
        }
        link
    }

    fn connect(&mut self, from: usize, to: usize) {
        self.open(from, to);
        self.settle();
    }

    fn send(&mut self, connection: u64, line: String) {
        self.wire.push(line.clone());
        for link in 0..self.links.len() {
            for side in 0..2 {
                if self.links[link].ends[side].id == connection {
                    let input = Input::Line(line.clone());
                    self.queue.push_back(Task::On(link, 1 - side, input));
                }
            }
        }
    }

    fn perform(&mut self, node: usize, effects: Vec<Effect>) {
        for effect in effects {
            match effect {
                Effect::Emit(event) => self.events[node].push(event),
                Effect::Send { connection, frame } => {
                    self.send(connection, frame.encode().unwrap())
                }
                Effect::Present { connection, ticket } => self.send(connection, ticket.encode()),
                Effect::Close(connection) => {
                    for link in 0..self.links.len() {
                        for side in 0..2 {
                            if self.links[link].ends[side].id == connection {
                                self.links[link].open = false;
                                self.queue.push_back(Task::On(link, side, Input::Retired));
                                self.queue.push_back(Task::On(link, 1 - side, Input::Closed));
                            }
                        }
                    }
                }
                Effect::Dial(info) => {
                    let to = (0..self.nodes.len())
                        .find(|i| info.listen_addr == format!("{HOME}:{}", 9000 + i));
                    match to {
                        Some(to) => {
                            self.open(node, to);
                        }
                        None => self.nodes[node].dial_failed(&info.public_key),
                    }
                }
            }
        }
    }

    fn deliver(&mut self, link: usize, side: usize, input: Input) {
        if !self.links[link].open && matches!(input, Input::Line(_)) {
            return;
        }
        let end = &mut self.links[link].ends[side];
        let node = end.node;
        let (effects, open) = self.nodes[node].run_connection(&mut end.connection, input);
        self.perform(node, effects);
        if !open && self.links[link].open {
            self.links[link].open = false;
            self.queue.push_back(Task::On(link, 1 - side, Input::Closed));
        }
    }

    fn settle(&mut self) {
        let mut steps = 0;
        while let Some(Task::On(link, side, input)) = self.queue.pop_front() {
            steps += 1;
            assert!(steps < 10_000, "the network should settle");
            self.deliver(link, side, input);
        }
    }

    fn say(&mut self, node: usize, words: &str) {
        let effects = self.nodes[node].say(words);
        self.perform(node, effects);
        self.settle();
    }

    fn counts(&self) -> Vec<usize> {
        self.nodes.iter().map(|n| n.peers().len()).collect()
    }

    fn messages(&self, node: usize) -> Vec<(String, String)> {
        self.events[node]
            .iter()
            .filter_map(|event| match event {
                Event::Message { from, content, .. } => Some((from.clone(), content.clone())),
                _ => None,
            })
            .collect()
    }

    fn warnings(&self, node: usize) -> Vec<String> {
        self.events[node]
            .iter()
            .filter_map(|event| match event {
                Event::Warning(words) => Some(words.clone()),
                _ => None,
            })
            .collect()
    }
}

fn said(from: &str, content: &str) -> (String, String) {
    (from.to_string(), content.to_string())
}

/// A hand-driven client, for behaviour a well-behaved node would never produce.
struct Raw {
    identity: Keypair,
    peer: Peer,
}

/// Complete a handshake by hand as connection 77.
fn handshake_as(name: &str, alice: &mut Node) -> (Raw, Vec<Effect>) {
    let identity = crypto::generate_keypair();
    let hello = Frame::Hello {
        name: name.to_string(),
        public_key: identity.public_key.clone(),
        listen_addr: "0.0.0.0:4242".to_string(),
    };
    let peer = handshake::handshake(&hello.encode().unwrap(), HOME).expect("a good introduction");
    let effects = alice.join(peer.clone(), true, 77).expect("welcome");
    (Raw { identity, peer }, effects)
}

fn alone(name: &str) -> Node {
    Node::new(name.to_string(), crypto::generate_keypair(), "0.0.0.0:9000".to_string(), None)
}

fn hear(alice: &mut Node, raw: &Raw, frame: &Frame) -> Vec<Effect> {
    alice.handle_frame(&raw.peer, &frame.encode().unwrap()).expect("still connected")
}

// ---------------------------------------------------------------------------
// Chat
// ---------------------------------------------------------------------------

#[test]
fn test_two_nodes_exchange_a_message() {
    let mut net = Net::new(&["alice", "bob"]);
    net.connect(1, 0);
    assert_eq!(net.counts(), vec![1, 1]);

    net.say(1, "hello alice");
    assert_eq!(net.messages(1), vec![said("bob", "hello alice")]);
    assert_eq!(net.messages(0), vec![said("bob", "hello alice")]);
}

#[test]
fn test_messages_flow_in_both_directions() {
    let mut net = Net::new(&["alice", "bob"]);
    net.connect(1, 0);

    net.say(1, "ping");
    net.say(0, "pong");
    assert_eq!(net.messages(0), vec![said("bob", "ping"), said("alice", "pong")]);
    assert_eq!(net.messages(1), vec![said("bob", "ping"), said("alice", "pong")]);
}

/// Everyone in the room receives it, each under their own key.
#[test]
fn test_a_message_reaches_every_peer() {
    let mut net = Net::new(&["hub", "a", "b"]);
    net.connect(1, 0);
    net.connect(2, 0);

    net.say(0, "to everyone");
    for node in 0..3 {
        assert_eq!(net.messages(node), vec![said("hub", "to everyone")]);
    }
}

#[test]
fn test_sender_sees_its_own_message() {
    let mut net = Net::new(&["alice", "bob"]);
    net.connect(1, 0);
    net.say(1, "did this send?");
    assert_eq!(net.messages(1), vec![said("bob", "did this send?")]);
}

#[test]
fn test_speaking_to_an_empty_room_warns() {
    let mut net = Net::new(&["alice"]);
    net.say(0, "anyone there?");
    let warning = net.warnings(0).pop().expect("a warning");
    assert!(warning.contains("nobody"), "got: {warning}");
}

#[test]
fn test_blank_input_is_ignored() {
    let mut net = Net::new(&["alice", "bob"]);
    net.connect(1, 0);

    net.say(1, "   ");
    net.say(1, "");
    net.say(1, "real message");

    // The first message to arrive must be the only non-blank one.
    assert_eq!(net.messages(1), vec![said("bob", "real message")]);
}

/// The claim the whole project rests on: what crosses the wire is unreadable.
#[test]
fn test_plaintext_never_appears_on_the_wire() {
    let mut alice = alone("alice");
    let (_raw, _) = handshake_as("observer", &mut alice);

    let secret = "the treasure is buried under the oak";
    let effects = alice.say(secret);
    let Some(Effect::Send { connection: 77, frame }) = effects.get(1) else {
        panic!("expected a frame");
    };
    let line = frame.encode().unwrap();

    assert!(!line.contains(secret), "plaintext appeared on the wire: {line}");
    assert!(!line.contains("alice"), "the sender's name leaked in plaintext: {line}");

    // And the bytes themselves, not just the JSON text.
    let Frame::Chat { ciphertext, .. } = Frame::decode(&line).unwrap() else {
        panic!("expected a Chat frame");
    };
    assert!(
        !ciphertext.windows(secret.len()).any(|w| w == secret.as_bytes()),
        "plaintext found in the ciphertext bytes"
    );
}

fn captured(alice: &Node, words: &str) -> (Vec<u8>, [u8; 24]) {
    match alice.say(words).pop() {
        Some(Effect::Send { frame: Frame::Chat { ciphertext, nonce }, .. }) => (ciphertext, nonce),
        other => panic!("expected a Chat frame, got {other:?}"),
    }
}

/// An observer holding the wrong key cannot read what it captured, even with
/// the full frame in hand.
#[test]
fn test_an_eavesdropper_cannot_decrypt_what_it_captures() {
    let mut alice = alone("alice");
    handshake_as("observer", &mut alice);
    let (ciphertext, nonce) = captured(&alice, "for the observer only");

    // An unrelated party with their own keypair gets nowhere.
    let mallory = crypto::generate_keypair();
    assert!(
        crypto::open(&ciphertext, &nonce, &mallory.secret_key, alice.public_key()).is_err(),
        "a third party must not be able to decrypt"
    );
}

/// The intended recipient *can* read it -- otherwise the test above would pass
/// on a message that is simply broken.
#[test]
fn test_the_intended_recipient_can_decrypt() {
    let mut alice = alone("alice");
    let (observer, _) = handshake_as("observer", &mut alice);
    let (ciphertext, nonce) = captured(&alice, "readable by the recipient");

    let plaintext =
        crypto::open(&ciphertext, &nonce, &observer.identity.secret_key, alice.public_key())
            .expect("the recipient should be able to decrypt");
    let message = Message::from_json(std::str::from_utf8(&plaintext).unwrap()).unwrap();

    assert_eq!(message.from, "alice");
    assert_eq!(message.content, "readable by the recipient");
}

fn chat_from(raw: &Raw, alice: &Node, plaintext: &[u8]) -> Frame {
    let (ciphertext, nonce) =
        crypto::seal(plaintext, alice.public_key(), &raw.identity.secret_key).unwrap();
    Frame::Chat { ciphertext, nonce }
}

/// Impersonation at the display layer. The crypto is entirely valid -- Mallory
/// really did seal this with her own key -- but the name inside disagrees with
/// the identity her handshake established, so it must not be shown as Bob's.
#[test]
fn test_rejects_a_message_signed_with_another_name() {
    let mut alice = alone("alice");
    let (mallory, _) = handshake_as("mallory", &mut alice);

    let forged = Message::new("bob".to_string(), "send me your password".to_string());
    let frame = chat_from(&mallory, &alice, forged.to_json().unwrap().as_bytes());
    match hear(&mut alice, &mallory, &frame).as_slice() {
        [Effect::Emit(Event::Warning(warning))] => {
            assert!(
                warning.contains("mallory") && warning.contains("bob"),
                "the warning should name both identities, got: {warning}"
            );
            assert!(warning.contains("discarded"), "got: {warning}");
        }
        other => panic!("expected a warning, got {other:?}"),
    }
}

/// Undecryptable input must not be able to knock us off the network.
#[test]
fn test_garbage_ciphertext_does_not_drop_the_connection() {
    let mut alice = alone("alice");
    let (noisy, _) = handshake_as("noisy", &mut alice);

    for _ in 0..5 {
        let junk = Frame::Chat {
            ciphertext: vec![0xAB; 64],
            nonce: [0u8; 24],
        };
        match hear(&mut alice, &noisy, &junk).as_slice() {
            [Effect::Emit(Event::Warning(warning))] => {
                assert!(warning.contains("decrypt"), "got: {warning}")
            }
            other => panic!("expected a warning, got {other:?}"),
        }
    }

    // Still connected, and still able to receive a real message.
    assert_eq!(alice.peers().len(), 1);
    let real = Message::new("noisy".to_string(), "hello".to_string());
    let frame = chat_from(&noisy, &alice, real.to_json().unwrap().as_bytes());
    assert_eq!(
        hear(&mut alice, &noisy, &frame),
        vec![Effect::Emit(Event::Message {
            from: "noisy".to_string(),
            fingerprint: crypto::fingerprint(&noisy.identity.public_key),
            content: "hello".to_string(),
        })]
    );
}

#[test]
fn sealed_nonsense_is_reported_as_such() {
    let mut alice = alone("alice");
    let (odd, _) = handshake_as("odd", &mut alice);
    for plaintext in [b"not json".as_slice(), b"{}", b"\xff\xfe"] {
        let frame = chat_from(&odd, &alice, plaintext);
        assert_eq!(
            hear(&mut alice, &odd, &frame),
            vec![Effect::Emit(Event::Warning(
                "could not understand a message from odd".to_string()
            ))]
        );
    }
}

// ---------------------------------------------------------------------------
// Gossip
// ---------------------------------------------------------------------------

/// Everyone dials one node; gossip must introduce the others to each other.
#[test]
fn test_a_star_bootstrap_becomes_a_full_mesh() {
    let mut net = Net::new(&["hub", "a", "b"]);
    net.connect(1, 0);
    net.connect(2, 0);
    assert_eq!(net.counts(), vec![2, 2, 2]);

    // a and b never dialled each other directly.
    assert!(net.nodes[1].peers().iter().any(|p| p.name == "b"));
    assert!(net.nodes[2].peers().iter().any(|p| p.name == "a"));
}

/// The harder shape: c only ever hears about a through b.
#[test]
fn test_a_chain_bootstrap_becomes_a_full_mesh() {
    let mut net = Net::new(&["a", "b", "c"]);
    net.connect(1, 0);
    assert_eq!(net.counts()[..2], [1, 1]);
    net.connect(2, 1);
    assert_eq!(net.counts(), vec![2, 2, 2]);
    assert!(net.nodes[2].peers().iter().any(|p| p.name == "a"));
}

#[test]
fn test_four_nodes_converge() {
    let mut net = Net::new(&["hub", "a", "b", "c"]);
    for node in [1, 2, 3] {
        net.open(node, 0);
    }
    net.settle();
    assert_eq!(net.counts(), vec![3, 3, 3, 3]);
}

/// Convergence must settle rather than oscillate. Every pair dialling both ways
/// would otherwise keep replacing live connections.
#[test]
fn test_the_mesh_stays_settled() {
    let mut net = Net::new(&["hub", "a", "b"]);
    net.connect(1, 0);
    net.connect(2, 0);
    assert_eq!(net.counts(), vec![2, 2, 2]);

    let links = net.links.len();
    net.say(0, "anything");
    net.settle();
    assert_eq!(net.counts(), vec![2, 2, 2], "the mesh should not churn once converged");
    assert_eq!(net.links.len(), links, "nobody should dial again");
}

/// The payoff: a message reaches peers the sender never dialled.
#[test]
fn test_a_message_reaches_a_peer_discovered_by_gossip() {
    let mut net = Net::new(&["hub", "a", "b"]);
    net.connect(1, 0);
    net.connect(2, 0);
    net.say(1, "hello from a");
    assert_eq!(net.messages(2), vec![said("a", "hello from a")]);
}

fn fake_peer(seed: u8, addr: &str) -> PeerInfo {
    PeerInfo {
        name: format!("ghost{seed}"),
        public_key: vec![seed; 32],
        listen_addr: addr.to_string(),
    }
}

#[test]
fn test_an_oversized_peer_list_is_capped() {
    let mut alice = alone("alice");
    let (mallory, _) = handshake_as("mallory", &mut alice);

    let peers: Vec<PeerInfo> = (1..=200).map(|n| fake_peer(n as u8, "127.0.0.1:1")).collect();
    let effects = hear(&mut alice, &mallory, &Frame::Peers { peers: peers.clone() });

    match &effects[0] {
        Effect::Emit(Event::Warning(text)) => {
            assert!(text.contains("gossiped"), "got: {text}");
            assert_eq!(text, "mallory gossiped 200 peers; only the first 64 are considered");
        }
        other => panic!("an oversized peer list should be reported, got {other:?}"),
    }
    assert_eq!(effects.len(), 1 + node::MAX_GOSSIP);
    assert_eq!(effects[1], Effect::Dial(peers[0].clone()));
    assert_eq!(alice.peers().len(), 1, "only mallory should be connected");
}

#[test]
fn test_malformed_gossip_entries_are_ignored() {
    let mut alice = alone("alice");
    let (mallory, _) = handshake_as("mallory", &mut alice);

    let peers = vec![
        PeerInfo {
            name: "short key".to_string(),
            public_key: vec![1u8; 8],
            listen_addr: "127.0.0.1:1".to_string(),
        },
        PeerInfo {
            name: "  ".to_string(),
            public_key: vec![2u8; 32],
            listen_addr: "127.0.0.1:1".to_string(),
        },
        PeerInfo {
            name: "bad address".to_string(),
            public_key: vec![3u8; 32],
            listen_addr: "not an address".to_string(),
        },
    ];
    assert_eq!(hear(&mut alice, &mallory, &Frame::Peers { peers }), vec![]);
    assert_eq!(alice.peers().len(), 1, "only mallory should be connected");
}

/// Gossip that names us must not make us dial ourselves.
#[test]
fn test_gossip_containing_our_own_entry_is_ignored() {
    let mut alice = alone("alice");
    let (mallory, _) = handshake_as("mallory", &mut alice);

    let peers = vec![PeerInfo {
        name: "alice".to_string(),
        public_key: alice.public_key().to_vec(),
        listen_addr: "127.0.0.1:9000".to_string(),
    }];
    assert_eq!(hear(&mut alice, &mallory, &Frame::Peers { peers }), vec![]);
}

/// An unreachable address must not wedge future attempts. If the in-flight
/// marker were left behind, that peer could never be dialled again.
#[test]
fn test_a_failed_dial_does_not_block_a_later_one() {
    let mut alice = alone("alice");
    let (mallory, _) = handshake_as("mallory", &mut alice);

    let ghost = fake_peer(9, "127.0.0.1:1");
    let gossip = Frame::Peers { peers: vec![ghost.clone()] };
    assert_eq!(hear(&mut alice, &mallory, &gossip), vec![Effect::Dial(ghost.clone())]);

    // While the first attempt is under way there is no second one.
    assert_eq!(hear(&mut alice, &mallory, &gossip), vec![]);

    alice.dial_failed(&ghost.public_key);
    assert_eq!(hear(&mut alice, &mallory, &gossip), vec![Effect::Dial(ghost)]);
}

// ---------------------------------------------------------------------------
// Connections
// ---------------------------------------------------------------------------

#[test]
fn test_two_nodes_complete_the_handshake() {
    let mut net = Net::new(&["alice", "bob"]);
    net.connect(1, 0);
    assert_eq!(net.nodes[0].peers()[0].name, "bob");
    assert_eq!(net.nodes[1].peers()[0].name, "alice");
}

/// Each side must record the other's real fingerprint, since that is what the
/// user will compare out of band.
#[test]
fn test_each_side_records_the_others_fingerprint() {
    let mut net = Net::new(&["alice", "bob"]);
    net.connect(1, 0);
    let (alice, bob) = (&net.nodes[0], &net.nodes[1]);
    assert_eq!(alice.peers()[0].fingerprint, bob.fingerprint());
    assert_eq!(bob.peers()[0].fingerprint, alice.fingerprint());
    assert_ne!(alice.fingerprint(), bob.fingerprint());
}

/// Alice must record Bob's *listening* port, not the ephemeral source port his
/// dial came from -- gossiping the latter would send everyone to a closed door.
#[test]
fn test_recorded_address_uses_the_listening_port_not_the_source_port() {
    let mut net = Net::new(&["alice", "bob"]);
    net.connect(1, 0);
    assert_eq!(net.nodes[0].peers()[0].listen_addr, "127.0.0.1:9001");
    assert_eq!(net.nodes[1].listen_port(), Some(9001));
}

/// Pointing --connect at yourself must not produce a phantom peer. The same
/// path catches gossip echoing our own entry back to us.
#[test]
fn test_node_refuses_to_connect_to_itself() {
    let mut net = Net::new(&["alice"]);
    net.connect(0, 0);
    assert!(net.nodes[0].peers().is_empty(), "a node must not admit itself");
    assert!(net.warnings(0)[0].ends_with("ended: connected to ourselves"));
}

#[test]
fn test_raw_client_disconnecting_removes_the_peer() {
    let mut alice = alone("alice");
    let (mallory, _) = handshake_as("mallory", &mut alice);
    assert_eq!(alice.peers().len(), 1, "should admit");

    let effects = alice.disconnect(&mallory.peer.public_key, 77);
    assert_eq!(
        effects,
        vec![Effect::Emit(Event::PeerLeft {
            name: "mallory".to_string(),
            fingerprint: mallory.peer.fingerprint.clone(),
        })]
    );
    assert!(alice.peers().is_empty(), "closing the socket should remove the peer");
}

fn hello(name: &str, key: usize, addr: &str) -> String {
    let hello = Frame::Hello {
        name: name.to_string(),
        public_key: vec![1u8; key],
        listen_addr: addr.to_string(),
    };
    hello.encode().unwrap()
}

fn introduction(name: &str, key: usize, addr: &str) -> Result<Peer, ConnError> {
    handshake::handshake(&hello(name, key, addr), HOME)
}

/// Whoever opens with that line is turned away with that warning, and the node
/// carries on: nobody is admitted, and a good peer can still join.
fn assert_handshake_rejected(line: &str, why: &str) {
    let mut net = Net::new(&["alice", "bob"]);
    let id = net.connection();
    let mut connection = Connection::new(id, HOME.to_string(), true, room::new_nonce());
    let (effects, open) =
        net.nodes[0].run_connection(&mut connection, Input::Line(line.to_string()));
    assert!(!open, "{why}");
    assert!(connection.peer().is_none(), "{why}");
    assert!(net.nodes[0].peers().is_empty(), "{why}: should not have been admitted");
    net.perform(0, effects);
    let warnings = net.warnings(0);
    assert_eq!(warnings.len(), 1, "{warnings:?}");
    assert!(warnings[0].ends_with(why), "{warnings:?}");

    net.connect(1, 0);
    assert_eq!(net.counts(), vec![1, 1], "{why}: node should still accept good peers");
}

#[test]
fn test_first_frame_must_be_a_hello() {
    let chat = Frame::Chat {
        ciphertext: vec![1, 2, 3],
        nonce: [0u8; 24],
    };
    assert_eq!(
        handshake::handshake(&chat.encode().unwrap(), HOME),
        Err(ConnError::ExpectedHello)
    );
    assert_handshake_rejected(&chat.encode().unwrap(), "peer's first frame was not a Hello");
}

#[test]
fn test_rejects_a_public_key_of_the_wrong_length() {
    assert_eq!(
        introduction("mallory", 31, "0.0.0.0:4242"),
        Err(ConnError::InvalidIdentity("public key is not 32 bytes"))
    );
    assert_handshake_rejected(
        &hello("mallory", 31, "0.0.0.0:4242"),
        "peer presented an invalid identity: public key is not 32 bytes",
    );
}

#[test]
fn test_rejects_an_empty_name() {
    assert_eq!(
        introduction("   ", 32, "0.0.0.0:4242"),
        Err(ConnError::InvalidIdentity("name is empty"))
    );
    assert_handshake_rejected(
        &hello("   ", 32, "0.0.0.0:4242"),
        "peer presented an invalid identity: name is empty",
    );
}

#[test]
fn test_rejects_an_absurdly_long_name() {
    assert_eq!(
        introduction(&"n".repeat(500), 32, "0.0.0.0:4242"),
        Err(ConnError::InvalidIdentity("name is too long"))
    );
    assert_handshake_rejected(
        &hello(&"n".repeat(500), 32, "0.0.0.0:4242"),
        "peer presented an invalid identity: name is too long",
    );
    // Characters are counted, not bytes.
    assert!(introduction(&"é".repeat(32), 32, "0.0.0.0:4242").is_ok());
    assert!(introduction(&"é".repeat(33), 32, "0.0.0.0:4242").is_err());
}

#[test]
fn test_rejects_a_zero_listen_port() {
    assert_eq!(
        introduction("mallory", 32, "0.0.0.0:0"),
        Err(ConnError::InvalidIdentity("listen port is zero"))
    );
    assert_handshake_rejected(
        &hello("mallory", 32, "0.0.0.0:0"),
        "peer presented an invalid identity: listen port is zero",
    );
}

#[test]
fn test_rejects_garbage() {
    assert!(matches!(
        handshake::handshake("}{ this is not json", HOME),
        Err(ConnError::Protocol(_))
    ));
    assert_handshake_rejected(
        "}{ this is not json",
        "malformed frame: expected value at line 1 column 1",
    );
}

#[test]
fn an_address_without_a_port_is_turned_away() {
    assert_eq!(
        introduction("mallory", 32, "nowhere"),
        Err(ConnError::InvalidIdentity("listen address has no port"))
    );
    assert_handshake_rejected(
        &hello("mallory", 32, "nowhere"),
        "peer presented an invalid identity: listen address has no port",
    );
}

#[test]
fn test_survives_an_oversized_line() {
    let e = handshake::handshake(&"x".repeat(MAX_FRAME_BYTES * 2), HOME).unwrap_err();
    assert_eq!(e.message(), "frame of 131072 bytes exceeds the 65536 byte limit");
    assert_handshake_rejected(
        &"x".repeat(MAX_FRAME_BYTES * 2),
        "frame of 131072 bytes exceeds the 65536 byte limit",
    );

    let mut net = Net::new(&["alice", "bob"]);
    let link = net.open(1, 0);
    net.queue.clear();
    net.queue.push_back(Task::On(link, 1, Input::Line("x".repeat(MAX_FRAME_BYTES * 2))));
    net.settle();
    assert_eq!(net.counts(), vec![0, 0]);
    net.connect(1, 0);
    assert_eq!(net.counts(), vec![1, 1], "node should still work after an oversized line");
}

/// Two nodes dialling each other at once must settle on exactly one connection.
#[test]
fn test_simultaneous_dial_settles_on_one_connection() {
    for _ in 0..8 {
        let mut net = Net::new(&["alice", "bob"]);
        net.open(0, 1);
        net.open(1, 0);
        net.settle();

        assert_eq!(net.counts(), vec![1, 1]);
        assert_eq!(net.links.iter().filter(|link| link.open).count(), 1);
        assert_eq!(net.nodes[0].peers()[0].name, "bob");
        assert_eq!(net.nodes[1].peers()[0].name, "alice");
        let survivor = net.links.iter().find(|link| link.open).unwrap();
        let (from, to) = (survivor.ends[0].node, survivor.ends[1].node);
        assert!(
            net.nodes[from].public_key() < net.nodes[to].public_key(),
            "the smaller key's connection should survive"
        );
        // A connection that loses its tiebreak is not worth a warning.
        for node in 0..2 {
            let warnings = net.warnings(node);
            assert!(!warnings.iter().any(|w| w.contains("already connected")), "{warnings:?}");
        }
        let joins = net.events[0].iter().filter(|e| matches!(e, Event::PeerJoined { .. })).count();
        assert_eq!(joins, 1);
    }
}

/// One node must handle several inbound connections arriving at once.
#[test]
fn test_one_node_accepts_several_simultaneous_connections() {
    let mut net = Net::new(&["hub", "a", "b", "c"]);
    for node in [1, 2, 3] {
        net.open(node, 0);
    }
    net.settle();
    let names: Vec<String> = net.nodes[0].peers().iter().map(|p| p.name.clone()).collect();
    for expected in ["a", "b", "c"] {
        assert!(names.contains(&expected.to_string()), "missing {expected} in {names:?}");
    }
}

#[test]
fn test_reports_a_join_event() {
    let mut net = Net::new(&["alice", "bob"]);
    net.connect(1, 0);
    assert!(net.events[0].contains(&Event::PeerJoined {
        name: "bob".to_string(),
        fingerprint: net.nodes[1].fingerprint(),
    }));
}

#[test]
fn a_name_like_ours_or_anothers_is_announced_as_a_conflict() {
    let mut alice = alone("alice");
    let (bob, effects) = handshake_as("bob", &mut alice);
    assert_eq!(
        effects[0],
        Effect::Emit(Event::PeerJoined {
            name: "bob".to_string(),
            fingerprint: bob.peer.fingerprint.clone(),
        })
    );

    let (_, effects) = handshake_as(" BOB", &mut alice);
    match &effects[0] {
        Effect::Emit(Event::NameConflict { existing, impersonating_you, .. }) => {
            assert_eq!(existing, &bob.peer.fingerprint);
            assert!(!impersonating_you);
        }
        other => panic!("expected a conflict, got {other:?}"),
    }

    let (imposter, effects) = handshake_as("Alice", &mut alice);
    assert_eq!(
        effects[0],
        Effect::Emit(Event::NameConflict {
            name: "Alice".to_string(),
            existing: alice.fingerprint(),
            incoming: imposter.peer.fingerprint.clone(),
            impersonating_you: true,
        })
    );
    // After the announcement everyone is told who is here.
    assert_eq!(effects.len(), 2 + 3);
    let infos = alice.peers().iter().map(|p| p.to_info()).collect();
    assert_eq!(
        effects[4],
        Effect::Send { connection: 77, frame: Frame::Peers { peers: infos } }
    );
}

#[test]
fn a_superseded_connection_does_not_evict_its_successor() {
    let mut alice = Node::new(
        "alice".to_string(),
        crypto::keypair_of(&[5; 32]),
        "0.0.0.0:9000".to_string(),
        None,
    );
    let smaller = Peer::new("bob".to_string(), vec![0; 32], "127.0.0.1:1".to_string());
    alice.join(smaller.clone(), false, 1).unwrap();
    let effects = alice.join(smaller.clone(), true, 2).unwrap();
    assert_eq!(effects[0], Effect::Close(1));
    assert_eq!(effects.len(), 2);
    assert_eq!(alice.disconnect(&smaller.public_key, 1), vec![]);
    assert_eq!(alice.peers().len(), 1);

    assert_eq!(
        alice.join(smaller.clone(), false, 3),
        Err(ConnError::Rejected(Rejection::DuplicateConnection))
    );
    assert_eq!(alice.disconnect(&smaller.public_key, 2).len(), 1);
    assert!(alice.peers().is_empty());
}

#[test]
fn a_second_introduction_ends_the_connection() {
    let mut alice = alone("alice");
    let (bob, _) = handshake_as("bob", &mut alice);
    let again = alice.hello().encode().unwrap();
    assert_eq!(alice.handle_frame(&bob.peer, &again), Err(ConnError::ExpectedHello));
    assert!(matches!(
        alice.handle_frame(&bob.peer, "nonsense"),
        Err(ConnError::Protocol(_))
    ));
}

#[test]
fn ports_are_read_off_the_end_of_an_address() {
    assert_eq!(handshake::port_of("0.0.0.0:9999"), Some(9999));
    assert_eq!(handshake::port_of("[::1]:00080"), Some(80));
    assert_eq!(handshake::port_of("a:b:65535"), Some(65535));
    for bad in ["", "9999", "host:", "host:65536", "host:+1", "host: 1", "host:99999999999999"] {
        assert_eq!(handshake::port_of(bad), None, "{bad}");
    }
    assert_eq!(
        introduction("mallory", 32, "nowhere"),
        Err(ConnError::InvalidIdentity("listen address has no port"))
    );
    let far = Frame::Hello {
        name: "v6".to_string(),
        public_key: vec![1; 32],
        listen_addr: "[::]:7".to_string(),
    };
    let peer = handshake::handshake(&far.encode().unwrap(), "fe80::1").unwrap();
    assert_eq!(peer.listen_addr, "[fe80::1]:7");
}

#[test]
fn every_ending_is_explained() {
    let cases = [
        (ConnError::Io("reset".to_string()), "io error: reset"),
        (ConnError::Oversized, "peer sent an oversized line"),
        (ConnError::HandshakeTimeout, "peer did not complete the handshake in time"),
        (ConnError::ClosedDuringHandshake, "peer closed during the handshake"),
        (ConnError::ExpectedHello, "peer's first frame was not a Hello"),
        (
            ConnError::InvalidIdentity("name is empty"),
            "peer presented an invalid identity: name is empty",
        ),
        (ConnError::NotInvited, "peer could not prove that it holds the room code"),
        (ConnError::Rejected(Rejection::SelfConnection), "connected to ourselves"),
        (
            ConnError::Rejected(Rejection::DuplicateConnection),
            "already connected to this peer",
        ),
    ];
    for (e, words) in cases {
        assert_eq!(e.message(), words);
    }
    assert_eq!(
        node::serve_ended("10.0.0.1", false, &ConnError::Oversized),
        Some(Event::Warning(
            "connection to 10.0.0.1 ended: peer sent an oversized line".to_string()
        ))
    );
    assert_eq!(
        node::serve_ended("10.0.0.1", true, &ConnError::ExpectedHello),
        Some(Event::Warning(
            "connection from 10.0.0.1 ended: peer's first frame was not a Hello".to_string()
        ))
    );
    assert_eq!(
        node::serve_ended(
            "10.0.0.1",
            true,
            &ConnError::Rejected(Rejection::DuplicateConnection)
        ),
        None
    );
}

#[test]
fn a_connection_ends_with_or_without_a_word() {
    let ending = |input: Input| {
        let mut alice = alone("alice");
        let mut connection = Connection::new(7, "10.0.0.9".to_string(), false, [0; 32]);
        alice.run_connection(&mut connection, input)
    };
    let warned = |words: &str| {
        (
            vec![Effect::Emit(Event::Warning(format!(
                "connection to 10.0.0.9 ended: {words}"
            )))],
            false,
        )
    };
    assert_eq!(ending(Input::TooLong), warned("peer sent an oversized line"));
    assert_eq!(ending(Input::Failed("x".to_string())), warned("io error: x"));
    assert_eq!(ending(Input::Closed), warned("peer closed during the handshake"));
    assert_eq!(
        ending(Input::TimedOut),
        warned("peer did not complete the handshake in time")
    );
    assert_eq!(ending(Input::Retired), (vec![], false));
    assert_eq!(
        ending(Input::Unwritable(ProtocolError::TooLarge { size: 70000, max: 65536 })),
        warned("frame of 70000 bytes exceeds the 65536 byte limit")
    );
}

#[test]
fn only_a_handshake_runs_out_of_time() {
    let mut net = Net::new(&["alice", "bob"]);
    net.connect(1, 0);
    let end = &mut net.links[0].ends[1];
    assert_eq!(
        net.nodes[0].run_connection(&mut end.connection, Input::TimedOut),
        (vec![], true)
    );
    assert_eq!(end.connection.peer().map(|p| p.name.as_str()), Some("bob"));
    let (effects, open) = net.nodes[0].run_connection(&mut end.connection, Input::Closed);
    assert!(!open);
    assert_eq!(effects.len(), 1, "a peer that leaves in good order is no fault: {effects:?}");
    assert!(matches!(&effects[0], Effect::Emit(Event::PeerLeft { name, .. }) if name == "bob"));
    assert!(end.connection.peer().is_none());
}

// ---------------------------------------------------------------------------
// Rooms
// ---------------------------------------------------------------------------

const ONES: &str = "TIO-1111-1111-1111-1111";
const TWOS: &str = "TIO-2222-2222-2222-2222";

#[test]
fn holders_of_one_code_form_a_mesh() {
    let mut net = Net::with_rooms(&[("hub", Some(ONES)), ("a", Some(ONES)), ("b", Some(ONES))]);
    net.connect(1, 0);
    net.connect(2, 0);
    assert_eq!(net.counts(), vec![2, 2, 2]);
    net.say(0, "only for us");
    assert_eq!(net.messages(2), vec![said("hub", "only for us")]);
    // The code itself never crosses the wire.
    assert!(!net.wire.iter().any(|line| line.contains("1111")));
}

#[test]
fn a_different_code_is_turned_away() {
    let mut net = Net::with_rooms(&[("alice", Some(ONES)), ("mallory", Some(TWOS))]);
    net.connect(1, 0);
    assert_eq!(net.counts(), vec![0, 0]);
    // Whoever checks first says so, and hangs up on the other.
    let warnings = [net.warnings(0), net.warnings(1)].concat();
    assert!(
        warnings
            .iter()
            .any(|w| w.ends_with("peer could not prove that it holds the room code")),
        "got: {warnings:?}"
    );
}

#[test]
fn no_code_is_turned_away() {
    let mut net = Net::with_rooms(&[("alice", Some(ONES)), ("mallory", None)]);
    net.connect(1, 0);
    assert_eq!(net.counts(), vec![0, 0]);
}

#[test]
fn a_node_in_a_room_does_not_join_itself() {
    let mut net = Net::with_rooms(&[("alice", Some(ONES))]);
    net.connect(0, 0);
    assert_eq!(net.counts(), vec![0]);
}

/// A proof that was recorded is worth nothing on another connection.
#[test]
fn a_recorded_proof_does_not_open_another_connection() {
    let code = RoomCode::parse(ONES).unwrap();
    let mut alice = Node::new(
        "alice".to_string(),
        crypto::generate_keypair(),
        "0.0.0.0:9000".to_string(),
        Some(code.clone()),
    );
    let bob = crypto::generate_keypair();
    let hello = Frame::Hello {
        name: "bob".to_string(),
        public_key: bob.public_key.clone(),
        listen_addr: "0.0.0.0:1".to_string(),
    };
    let (first, second, bobs) = ([1u8; 32], [2u8; 32], [3u8; 32]);
    let recorded = Ticket::Proof {
        shown: code.make_proof(&bob.public_key, &bobs, alice.public_key(), &first),
    };
    for (nonce, welcome) in [(first, true), (second, false)] {
        let mut connection = Connection::new(nonce[0] as u64, HOME.to_string(), true, nonce);
        assert_eq!(alice.greet(&connection).len(), 2);
        let mut open = true;
        for line in [
            hello.encode().unwrap(),
            Ticket::Challenge { nonce: bobs }.encode(),
            recorded.encode(),
        ] {
            assert!(open);
            open = alice.run_connection(&mut connection, Input::Line(line)).1;
        }
        assert_eq!(open, welcome);
        assert_eq!(alice.peers().len(), welcome as usize);
        alice.disconnect(&bob.public_key, nonce[0] as u64);
    }
}

#[test]
fn tickets_read_back_and_nothing_else_is_one() {
    let challenge = Ticket::Challenge { nonce: [9; 32] };
    let shown = Ticket::Proof { shown: [7; 32] };
    assert_eq!(Ticket::decode(&challenge.encode()), Some(challenge));
    assert_eq!(Ticket::decode(&shown.encode()), Some(shown));
    assert!(shown.encode().starts_with("{\"type\":\"Proof\",\"proof\":[7,7,"));
    for bad in ["", "{}", "{\"type\":\"Challenge\"}", "{\"type\":\"Challenge\",\"nonce\":[1]}"] {
        assert_eq!(Ticket::decode(bad), None, "{bad}");
    }
    // Tickets are no frames.
    assert!(Frame::decode(&challenge.encode()).is_err());
}
