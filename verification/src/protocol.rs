//! The wire format: what one node says to another.
//!
//! Frames are newline-delimited JSON. A bare newline is safe as the delimiter
//! because every newline inside a text is escaped, so a peer cannot smuggle a
//! frame break through a field that it controls, such as its name.

use crate::bytes;
use crate::json;
use crate::json::Json;
use crate::text;
use serde_json::Value;
use vstd::prelude::*;
use vstd::string::*;
use vstd::utf8::*;

verus! {

/// The longest permitted frame in bytes, not counting the newline. Generous
/// enough for a peer list of a few hundred, small enough that a hostile peer
/// cannot exhaust memory.
pub const MAX_FRAME_BYTES: usize = 65536;

/// Why a frame cannot be written or read.
#[derive(Debug, PartialEq, Eq)]
pub enum ProtocolError {
    TooLarge { size: usize, max: usize },
    Malformed(String),
}

/// What one node tells another about a third.
#[derive(Debug, PartialEq, Eq)]
pub struct PeerInfo {
    pub name: String,
    pub public_key: Vec<u8>,
    pub listen_addr: String,
}

/// One thing that a node says to another.
#[derive(Debug, PartialEq, Eq)]
pub enum Frame {
    /// The first frame in both directions on every connection.
    ///
    /// `listen_addr` is where this node accepts connections, which is not the
    /// address that a peer sees us dial from.
    Hello { name: String, public_key: Vec<u8>, listen_addr: String },
    /// Gossip. The recipient dials anyone here that it is not connected to.
    Peers { peers: Vec<PeerInfo> },
    /// One message, already sealed for the peer at the other end. There is no
    /// sender: the handshake settled that, and a claim here could be forged.
    Chat { ciphertext: Vec<u8>, nonce: [u8; 24] },
}

/// What a `PeerInfo` says.
pub struct PeerInfoView {
    pub name: Seq<char>,
    pub public_key: Seq<u8>,
    pub listen_addr: Seq<char>,
}

/// What a `Frame` says.
pub enum FrameView {
    Hello { name: Seq<char>, public_key: Seq<u8>, listen_addr: Seq<char> },
    Peers { peers: Seq<PeerInfoView> },
    Chat { ciphertext: Seq<u8>, nonce: Seq<u8> },
}

impl View for PeerInfo {
    type V = PeerInfoView;

    open spec fn view(&self) -> PeerInfoView {
        PeerInfoView {
            name: self.name@,
            public_key: self.public_key@,
            listen_addr: self.listen_addr@,
        }
    }
}

/// What several `PeerInfo`s say.
pub open spec fn info_views(infos: Seq<PeerInfo>) -> Seq<PeerInfoView> {
    infos.map_values(|info: PeerInfo| info@)
}

impl View for Frame {
    type V = FrameView;

    open spec fn view(&self) -> FrameView {
        match self {
            Frame::Hello { name, public_key, listen_addr } => FrameView::Hello {
                name: name@,
                public_key: public_key@,
                listen_addr: listen_addr@,
            },
            Frame::Peers { peers } => FrameView::Peers { peers: info_views(peers@) },
            Frame::Chat { ciphertext, nonce } => FrameView::Chat {
                ciphertext: ciphertext@,
                nonce: nonce@,
            },
        }
    }
}

impl Clone for PeerInfo {
    fn clone(&self) -> (copy: Self)
        ensures
            copy@ == self@,
    {
        PeerInfo {
            name: self.name.clone(),
            public_key: self.public_key.clone(),
            listen_addr: self.listen_addr.clone(),
        }
    }
}

/// Copies of several `PeerInfo`s.
pub fn cloned_infos(infos: &[PeerInfo]) -> (copies: Vec<PeerInfo>)
    ensures
        info_views(copies@) == info_views(infos@),
{
    let mut copies: Vec<PeerInfo> = Vec::new();
    for i in 0..infos.len()
        invariant
            copies@.len() == i,
            forall|j: int| 0 <= j < i ==> (#[trigger] copies@[j])@ == infos@[j]@,
    {
        copies.push(infos[i].clone());
    }
    assert(info_views(copies@) =~= info_views(infos@));
    copies
}

impl Clone for Frame {
    fn clone(&self) -> (copy: Self)
        ensures
            copy@ == self@,
    {
        match self {
            Frame::Hello { name, public_key, listen_addr } => Frame::Hello {
                name: name.clone(),
                public_key: public_key.clone(),
                listen_addr: listen_addr.clone(),
            },
            Frame::Peers { peers } => Frame::Peers { peers: cloned_infos(peers.as_slice()) },
            Frame::Chat { ciphertext, nonce } => Frame::Chat {
                ciphertext: ciphertext.clone(),
                nonce: *nonce,
            },
        }
    }
}

// ---------------------------------------------------------------------------
// Frames as JSON trees
// ---------------------------------------------------------------------------
/// The names of the members of an identity, in order.
pub open spec fn identity_names() -> Seq<Seq<char>> {
    seq!["name"@, "public_key"@, "listen_addr"@]
}

/// The names of the members of a chat frame besides its type, in order.
pub open spec fn chat_names() -> Seq<Seq<char>> {
    seq!["ciphertext"@, "nonce"@]
}

/// A `PeerInfo` as a tree.
pub open spec fn info_tree(info: PeerInfoView) -> Json {
    Json::Record(
        seq![
            ("name"@, Json::Text(info.name)),
            ("public_key"@, json::bytes_tree(info.public_key)),
            ("listen_addr"@, Json::Text(info.listen_addr)),
        ],
    )
}

/// A frame as a tree: a record that says its type first.
pub open spec fn frame_tree(frame: FrameView) -> Json {
    match frame {
        FrameView::Hello { name, public_key, listen_addr } => Json::Record(
            seq![
                ("type"@, Json::Text("Hello"@)),
                ("name"@, Json::Text(name)),
                ("public_key"@, json::bytes_tree(public_key)),
                ("listen_addr"@, Json::Text(listen_addr)),
            ],
        ),
        FrameView::Peers { peers } => Json::Record(
            seq![
                ("type"@, Json::Text("Peers"@)),
                ("peers"@, Json::List(peers.map_values(|info: PeerInfoView| info_tree(info)))),
            ],
        ),
        FrameView::Chat { ciphertext, nonce } => Json::Record(
            seq![
                ("type"@, Json::Text("Chat"@)),
                ("ciphertext"@, json::bytes_tree(ciphertext)),
                ("nonce"@, json::bytes_tree(nonce)),
            ],
        ),
    }
}

/// The identity in the values of a name, a key and an address.
pub open spec fn identity_in(values: Seq<Seq<u8>>) -> Option<PeerInfoView> {
    match (json::text_at(values[0]), json::bytes_at(values[1]), json::text_at(values[2])) {
        (Some(name), Some(public_key), Some(listen_addr)) => Some(
            PeerInfoView { name, public_key, listen_addr },
        ),
        _ => None,
    }
}

/// The `PeerInfo` that bytes say: a record with its members, each given once, or a
/// list of their values.
pub open spec fn info_in(bytes: Seq<u8>) -> Option<PeerInfoView> {
    match json::fields(bytes, 0, identity_names()) {
        Some(values) => identity_in(values),
        None => None,
    }
}

/// The `PeerInfo`s that bytes say, which are a list of nothing else.
pub open spec fn infos_in(bytes: Seq<u8>) -> Option<Seq<PeerInfoView>> {
    match json::list_in(bytes) {
        Some(items) => if forall|i: int|
            0 <= i < items.len() ==> info_in(#[trigger] items[i]) is Some {
            Some(items.map_values(|item: Seq<u8>| info_in(item)->0))
        } else {
            None
        },
        None => None,
    }
}

/// What bytes say their type is: a record in the member `type`, given once, a list
/// in its first item.
pub open spec fn tag_in(bytes: Seq<u8>) -> Option<Seq<char>> {
    match json::first_field(bytes, "type"@) {
        Some(value) => json::text_at(value),
        None => None,
    }
}

/// The frame that the bytes of a line say. All of the line is JSON that can be
/// parsed, also what no frame asks for.
pub open spec fn frame_in(bytes: Seq<u8>) -> Option<FrameView> {
    let tag = tag_in(bytes);
    if json::parsed(bytes) is Err {
        None
    } else if tag == Some("Hello"@) {
        match json::fields(bytes, 1, identity_names()) {
            Some(values) => match identity_in(values) {
                Some(info) => Some(
                    FrameView::Hello {
                        name: info.name,
                        public_key: info.public_key,
                        listen_addr: info.listen_addr,
                    },
                ),
                None => None,
            },
            None => None,
        }
    } else if tag == Some("Peers"@) {
        match json::fields(bytes, 1, seq!["peers"@]) {
            Some(values) => match infos_in(values[0]) {
                Some(peers) => Some(FrameView::Peers { peers }),
                None => None,
            },
            None => None,
        }
    } else if tag == Some("Chat"@) {
        match json::fields(bytes, 1, chat_names()) {
            Some(values) => match (json::bytes_at(values[0]), json::bytes_at(values[1])) {
                (Some(ciphertext), Some(nonce)) => if nonce.len() == 24 {
                    Some(FrameView::Chat { ciphertext, nonce })
                } else {
                    None
                },
                _ => None,
            },
            None => None,
        }
    } else {
        None
    }
}

/// Whether a frame's nonce has the length that its type gives it.
pub open spec fn well_sized(frame: FrameView) -> bool {
    frame matches FrameView::Chat { nonce, .. } ==> nonce.len() == 24
}

proof fn lemma_names()
    ensures
        json::distinct(seq!["type"@, "name"@, "public_key"@, "listen_addr"@]),
        json::distinct(seq!["type"@, "peers"@]),
        json::distinct(seq!["type"@, "ciphertext"@, "nonce"@]),
        "Hello"@ != "Peers"@,
        "Hello"@ != "Chat"@,
        "Peers"@ != "Chat"@,
{
    reveal_strlit("type");
    reveal_strlit("name");
    reveal_strlit("public_key");
    reveal_strlit("listen_addr");
    reveal_strlit("peers");
    reveal_strlit("ciphertext");
    reveal_strlit("nonce");
    reveal_strlit("Hello");
    reveal_strlit("Peers");
    reveal_strlit("Chat");
    assert("type"@[0] != "name"@[0]);
    assert("Hello"@[0] != "Peers"@[0]);
    assert("type"@.len() == 4 && "public_key"@.len() == 10 && "listen_addr"@.len() == 11);
    assert("peers"@.len() == 5 && "nonce"@.len() == 5 && "ciphertext"@.len() == 10);
}

proof fn lemma_info_is_plain(info: PeerInfoView, depth: nat)
    requires
        2 <= depth,
    ensures
        json::plain(info_tree(info), depth),
{
    reveal_with_fuel(json::plain, 2);
    json::lemma_bytes_read_back(info.public_key, (depth - 1) as nat);
}

proof fn lemma_identity_reads_back(
    bytes: Seq<u8>,
    members: Seq<(Seq<char>, Json)>,
    depth: nat,
    skip: nat,
    info: PeerInfoView,
)
    requires
        2 <= depth,
        json::reads_as(bytes, Json::Record(members), depth),
        json::distinct(json::member_names(members)),
        members.len() == skip + 3,
        json::member_names(members).skip(skip as int) == identity_names(),
        members[skip as int].1 == Json::Text(info.name),
        members[skip as int + 1].1 == json::bytes_tree(info.public_key),
        members[skip as int + 2].1 == Json::Text(info.listen_addr),
    ensures
        json::fields(bytes, skip, identity_names()) is Some,
        identity_in(json::fields(bytes, skip, identity_names())->0) == Some(info),
{
    json::lemma_fields_read_back(bytes, members, depth, skip);
    json::lemma_bytes_read_back(info.public_key, 126);
    let values = json::fields(bytes, skip, identity_names())->0;
    assert(json::reads_as(values[0], members[skip as int].1, (depth - 1) as nat));
    assert(json::reads_as(values[1], members[skip as int + 1].1, (depth - 1) as nat));
    assert(json::reads_as(values[2], members[skip as int + 2].1, (depth - 1) as nat));
}

proof fn lemma_info_reads_back(info: PeerInfoView, bytes: Seq<u8>, depth: nat)
    requires
        2 <= depth,
        json::reads_as(bytes, info_tree(info), depth),
    ensures
        info_in(bytes) == Some(info),
{
    lemma_names();
    let names = seq!["type"@, "name"@, "public_key"@, "listen_addr"@];
    assert(names[1] != names[2] && names[1] != names[3] && names[2] != names[3]);
    let members = info_tree(info)->Record_0;
    assert(json::member_names(members) =~= identity_names());
    assert(identity_names().skip(0) =~= identity_names());
    lemma_identity_reads_back(bytes, members, depth, 0, info);
}

/// A frame's tree can be written and read: it has whole numbers only and is not
/// nested too deep.
pub proof fn law_a_frame_is_plain(frame: FrameView)
    ensures
        json::plain(frame_tree(frame), json::MAX_DEPTH as nat),
{
    reveal_with_fuel(json::plain, 2);
    match frame {
        FrameView::Hello { name, public_key, listen_addr } => {
            json::lemma_bytes_read_back(public_key, 126);
        },
        FrameView::Peers { peers } => {
            let items = peers.map_values(|info: PeerInfoView| info_tree(info));
            assert forall|i: int| 0 <= i < items.len() implies json::plain(
                #[trigger] items[i],
                125,
            ) by {
                lemma_info_is_plain(peers[i], 125);
            }
            assert(json::plain(Json::List(items), 126));
        },
        FrameView::Chat { ciphertext, nonce } => {
            json::lemma_bytes_read_back(ciphertext, 126);
            json::lemma_bytes_read_back(nonce, 126);
        },
    }
}

/// A frame read out of bytes that read as its tree is the same frame.
pub proof fn law_a_frame_reads_back_from_its_tree(frame: FrameView, bytes: Seq<u8>)
    requires
        well_sized(frame),
        json::reads_as(bytes, frame_tree(frame), json::MAX_DEPTH as nat),
    ensures
        frame_in(bytes) == Some(frame),
{
    lemma_names();
    let members = frame_tree(frame)->Record_0;
    let depth = json::MAX_DEPTH as nat;
    match frame {
        FrameView::Hello { name, public_key, listen_addr } => {
            assert(json::member_names(members) =~= seq![
                "type"@,
                "name"@,
                "public_key"@,
                "listen_addr"@,
            ]);
            assert(json::member_names(members).skip(1) =~= identity_names());
            json::lemma_fields_read_back(bytes, members, depth, 1);
            lemma_identity_reads_back(
                bytes,
                members,
                depth,
                1,
                PeerInfoView { name, public_key, listen_addr },
            );
        },
        FrameView::Peers { peers } => {
            assert(json::member_names(members) =~= seq!["type"@, "peers"@]);
            assert(json::member_names(members).skip(1) =~= seq!["peers"@]);
            json::lemma_fields_read_back(bytes, members, depth, 1);
            let value = json::fields(bytes, 1, seq!["peers"@])->0[0];
            let trees = peers.map_values(|info: PeerInfoView| info_tree(info));
            assert(json::reads_as(value, Json::List(trees), 126));
            let items = json::list_in(value)->0;
            assert forall|i: int| 0 <= i < items.len() implies info_in(#[trigger] items[i])
                == Some(peers[i]) by {
                assert(json::reads_as(items[i], trees[i], 125));
                lemma_info_reads_back(peers[i], items[i], 125);
            }
            assert(items.map_values(|item: Seq<u8>| info_in(item)->0) =~= peers);
        },
        FrameView::Chat { ciphertext, nonce } => {
            assert(json::member_names(members) =~= seq!["type"@, "ciphertext"@, "nonce"@]);
            assert(json::member_names(members).skip(1) =~= chat_names());
            json::lemma_fields_read_back(bytes, members, depth, 1);
            json::lemma_bytes_read_back(ciphertext, 126);
            json::lemma_bytes_read_back(nonce, 126);
            let values = json::fields(bytes, 1, chat_names())->0;
            assert(json::reads_as(values[0], members[1].1, 126));
            assert(json::reads_as(values[1], members[2].1, 126));
        },
    }
}

// ---------------------------------------------------------------------------
// Writing and reading
// ---------------------------------------------------------------------------
/// A frame's bytes on the wire, without the newline.
pub open spec fn encoding(frame: FrameView) -> Seq<char> {
    json::compact(frame_tree(frame))
}

/// How many bytes a text takes.
pub open spec fn byte_size(text: Seq<char>) -> nat {
    encode_utf8(text).len()
}

/// The frame that a line without its newline says, if it is not too long and
/// says one.
pub open spec fn decoding(line: Seq<char>) -> Option<FrameView> {
    if byte_size(line) > MAX_FRAME_BYTES {
        None
    } else {
        frame_in(encode_utf8(line))
    }
}

/// The frame that a line says, with its newline or without, if it is not too long
/// and says one. The newline does not count.
pub open spec fn line_decoding(line: Seq<char>) -> Option<FrameView> {
    if byte_size(text::unterminated(line)) > MAX_FRAME_BYTES {
        None
    } else {
        frame_in(encode_utf8(line))
    }
}

/// What is wrong with a line that is no frame.
pub open spec fn complaint(line: Seq<char>) -> Seq<char> {
    match json::parsed(encode_utf8(line)) {
        Ok(_) => "not a frame that this version understands"@,
        Err(why) => why,
    }
}

fn text_member(name: &str, value: &str) -> (member: (String, Value))
    ensures
        member.0@ == name@,
        json::tree(member.1) == Json::Text(value@),
{
    (name.to_owned(), json::from_text(value.to_owned()))
}

fn bytes_member(name: &str, value: &[u8]) -> (member: (String, Value))
    ensures
        member.0@ == name@,
        json::tree(member.1) == json::bytes_tree(value@),
{
    (name.to_owned(), json::from_bytes(value))
}

impl PeerInfo {
    fn to_document(&self) -> (document: Value)
        ensures
            json::tree(document) == info_tree(self@),
    {
        let mut members: Vec<(String, Value)> = Vec::new();
        members.push(text_member("name", self.name.as_str()));
        members.push(bytes_member("public_key", self.public_key.as_slice()));
        members.push(text_member("listen_addr", self.listen_addr.as_str()));
        proof {
            lemma_names();
            let names = seq!["type"@, "name"@, "public_key"@, "listen_addr"@];
            assert(names[1] != names[2] && names[1] != names[3] && names[2] != names[3]);
            assert(json::member_trees(members@) =~= info_tree(self@)->Record_0);
        }
        json::from_members(members)
    }

    fn read(bytes: &[u8]) -> (info: Option<PeerInfo>)
        ensures
            match info {
                Some(i) => info_in(bytes@) == Some(i@),
                None => info_in(bytes@) is None,
            },
    {
        identity_from(bytes, 0)
    }
}

/// A name, a key and an address out of bytes.
fn identity_from(bytes: &[u8], skip: usize) -> (info: Option<PeerInfo>)
    requires
        skip <= 1,
    ensures
        match json::fields(bytes@, skip as nat, identity_names()) {
            Some(values) => match info {
                Some(i) => identity_in(values) == Some(i@),
                None => identity_in(values) is None,
            },
            None => info is None,
        },
{
    let names: [&str; 3] = ["name", "public_key", "listen_addr"];
    assert(json::views(names@) =~= identity_names());
    let values: Vec<&[u8]> = match json::get_fields(bytes, skip, names.as_slice()) {
        Some(values) => values,
        None => return None,
    };
    match (json::read_text(values[0]), json::read_bytes(values[1]), json::read_text(values[2])) {
        (Some(name), Some(public_key), Some(listen_addr)) => Some(
            PeerInfo { name, public_key, listen_addr },
        ),
        _ => None,
    }
}

/// A list of identities out of bytes.
fn infos_from(bytes: &[u8]) -> (infos: Option<Vec<PeerInfo>>)
    ensures
        match infos {
            Some(i) => infos_in(bytes@) == Some(info_views(i@)),
            None => infos_in(bytes@) is None,
        },
{
    let items: Vec<&[u8]> = match json::list_of(bytes) {
        Some(items) => items,
        None => return None,
    };
    let ghost all = json::byte_views(items@);
    let mut infos: Vec<PeerInfo> = Vec::new();
    for i in 0..items.len()
        invariant
            all == json::byte_views(items@),
            json::list_in(bytes@) == Some(all),
            infos@.len() == i,
            forall|j: int| 0 <= j < i ==> info_in(#[trigger] all[j]) == Some(infos@[j]@),
    {
        assert(all[i as int] == items@[i as int]@);
        match PeerInfo::read(items[i]) {
            Some(info) => {
                infos.push(info);
            },
            None => return None,
        }
    }
    assert(all.map_values(|item: Seq<u8>| info_in(item)->0) =~= info_views(infos@));
    Some(infos)
}

impl Frame {
    fn to_document(&self) -> (document: Value)
        ensures
            json::tree(document) == frame_tree(self@),
    {
        let mut members: Vec<(String, Value)> = Vec::new();
        proof {
            lemma_names();
        }
        match self {
            Frame::Hello { name, public_key, listen_addr } => {
                members.push(text_member("type", "Hello"));
                members.push(text_member("name", name.as_str()));
                members.push(bytes_member("public_key", public_key.as_slice()));
                members.push(text_member("listen_addr", listen_addr.as_str()));
                assert(members@.map_values(|m: (String, serde_json::Value)| m.0@) =~= seq![
                    "type"@,
                    "name"@,
                    "public_key"@,
                    "listen_addr"@,
                ]);
            },
            Frame::Peers { peers } => {
                members.push(text_member("type", "Peers"));
                let mut items: Vec<Value> = Vec::new();
                for i in 0..peers.len()
                    invariant
                        items@.len() == i,
                        forall|j: int|
                            0 <= j < i ==> json::tree(#[trigger] items@[j]) == info_tree(
                                peers@[j]@,
                            ),
                {
                    items.push(peers[i].to_document());
                }
                assert(json::trees(items@) =~= info_views(peers@).map_values(
                    |info: PeerInfoView| info_tree(info),
                ));
                members.push(("peers".to_owned(), json::from_list(items)));
                assert(members@.map_values(|m: (String, serde_json::Value)| m.0@) =~= seq![
                    "type"@,
                    "peers"@,
                ]);
            },
            Frame::Chat { ciphertext, nonce } => {
                members.push(text_member("type", "Chat"));
                members.push(bytes_member("ciphertext", ciphertext.as_slice()));
                members.push(bytes_member("nonce", nonce.as_slice()));
                assert(members@.map_values(|m: (String, serde_json::Value)| m.0@) =~= seq![
                    "type"@,
                    "ciphertext"@,
                    "nonce"@,
                ]);
            },
        }
        assert(json::member_trees(members@) =~= frame_tree(self@)->Record_0);
        json::from_members(members)
    }

    /// The frame that the bytes of a line say.
    fn read(bytes: &[u8]) -> (frame: Option<Frame>)
        ensures
            match frame {
                Some(f) => frame_in(bytes@) == Some(f@),
                None => frame_in(bytes@) is None,
            },
    {
        proof {
            lemma_names();
        }
        if json::parse(bytes).is_err() {
            return None;
        }
        let tag: String = match tag_from(bytes) {
            Some(tag) => tag,
            None => return None,
        };
        if text::same_text(tag.as_str(), "Hello") {
            match identity_from(bytes, 1) {
                Some(info) => Some(
                    Frame::Hello {
                        name: info.name,
                        public_key: info.public_key,
                        listen_addr: info.listen_addr,
                    },
                ),
                None => None,
            }
        } else if text::same_text(tag.as_str(), "Peers") {
            let names: [&str; 1] = ["peers"];
            assert(json::views(names@) =~= seq!["peers"@]);
            let values: Vec<&[u8]> = match json::get_fields(bytes, 1, names.as_slice()) {
                Some(values) => values,
                None => return None,
            };
            match infos_from(values[0]) {
                Some(peers) => Some(Frame::Peers { peers }),
                None => None,
            }
        } else if text::same_text(tag.as_str(), "Chat") {
            let names: [&str; 2] = ["ciphertext", "nonce"];
            assert(json::views(names@) =~= chat_names());
            let values: Vec<&[u8]> = match json::get_fields(bytes, 1, names.as_slice()) {
                Some(values) => values,
                None => return None,
            };
            match (json::read_bytes(values[0]), json::read_bytes(values[1])) {
                (Some(ciphertext), Some(nonce)) => match bytes::to_array::<24>(nonce.as_slice()) {
                    Some(nonce) => Some(Frame::Chat { ciphertext, nonce }),
                    None => None,
                },
                _ => None,
            }
        } else {
            None
        }
    }

    /// The frame that a line says, or what is wrong with it.
    fn understand(line: &str) -> (frame: Result<Frame, ProtocolError>)
        ensures
            match frame {
                Ok(frame) => frame_in(encode_utf8(line@)) == Some(frame@),
                Err(ProtocolError::TooLarge { .. }) => false,
                Err(ProtocolError::Malformed(why)) => {
                    &&& frame_in(encode_utf8(line@)) is None
                    &&& why@ == complaint(line@)
                },
            },
    {
        if let Some(frame) = Frame::read(line.as_bytes()) {
            return Ok(frame);
        }
        match json::parse(line.as_bytes()) {
            Ok(_) => Err(
                ProtocolError::Malformed("not a frame that this version understands".to_owned()),
            ),
            Err(why) => Err(ProtocolError::Malformed(why)),
        }
    }

    /// Encode as a single line, without its newline.
    pub fn encode(&self) -> (line: Result<String, ProtocolError>)
        ensures
            match line {
                Ok(line) => {
                    &&& line@ == encoding(self@)
                    &&& byte_size(line@) <= MAX_FRAME_BYTES
                    &&& decoding(line@) == Some(self@)
                    &&& frame_in(encode_utf8(line@.push('\n'))) == Some(self@)
                    &&& forall|i: int| 0 <= i < line@.len() ==> #[trigger] line@[i] >= ' '
                },
                Err(ProtocolError::TooLarge { size, max }) => {
                    &&& size == byte_size(encoding(self@))
                    &&& size > MAX_FRAME_BYTES
                    &&& max == MAX_FRAME_BYTES
                },
                Err(ProtocolError::Malformed(_)) => false,
            },
    {
        let document = self.to_document();
        let line = json::to_compact(&document);
        proof {
            law_a_frame_is_plain(self@);
            law_a_frame_reads_back_from_its_tree(self@, encode_utf8(line@));
            law_a_frame_reads_back_from_its_tree(self@, encode_utf8(line@.push('\n')));
        }
        let size: usize = line.as_str().as_bytes().len();
        if size > MAX_FRAME_BYTES {
            return Err(ProtocolError::TooLarge { size, max: MAX_FRAME_BYTES });
        }
        Ok(line)
    }

    /// Decode one line that has no newline.
    ///
    /// Every input here came from the network, so this reports errors and never
    /// panics.
    pub fn decode(line: &str) -> (frame: Result<Frame, ProtocolError>)
        ensures
            match frame {
                Ok(frame) => decoding(line@) == Some(frame@),
                Err(ProtocolError::TooLarge { size, max }) => {
                    &&& size == byte_size(line@)
                    &&& size > MAX_FRAME_BYTES
                    &&& max == MAX_FRAME_BYTES
                },
                Err(ProtocolError::Malformed(why)) => {
                    &&& byte_size(line@) <= MAX_FRAME_BYTES
                    &&& decoding(line@) is None
                    &&& why@ == complaint(line@)
                },
            },
    {
        // Rejected before parsing, so that an oversized line is never parsed
        // only to be thrown away.
        let size: usize = line.as_bytes().len();
        if size > MAX_FRAME_BYTES {
            return Err(ProtocolError::TooLarge { size, max: MAX_FRAME_BYTES });
        }
        Frame::understand(line)
    }

    /// Encode as a single newline-terminated line, ready to write.
    ///
    /// The one newline is at the very end, and reading the line gives the frame
    /// back.
    pub fn to_line(&self) -> (line: Result<String, ProtocolError>)
        ensures
            match line {
                Ok(line) => {
                    &&& line@ == encoding(self@).push('\n')
                    &&& byte_size(encoding(self@)) <= MAX_FRAME_BYTES
                    &&& line_decoding(line@) == Some(self@)
                    &&& forall|i: int|
                        0 <= i < line@.len() ==> (#[trigger] line@[i] == '\n' <==> i == line@.len()
                            - 1)
                },
                Err(ProtocolError::TooLarge { size, max }) => {
                    &&& size == byte_size(encoding(self@))
                    &&& size > MAX_FRAME_BYTES
                    &&& max == MAX_FRAME_BYTES
                },
                Err(ProtocolError::Malformed(_)) => false,
            },
    {
        match self.encode() {
            Ok(encoded) => {
                let mut line = encoded;
                line.push('\n');
                assert(text::unterminated(line@) =~= encoding(self@));
                Ok(line)
            },
            Err(e) => Err(e),
        }
    }

    /// Decode one line, with or without its trailing newline, which does not count
    /// against the limit.
    pub fn from_line(line: &str) -> (frame: Result<Frame, ProtocolError>)
        ensures
            match frame {
                Ok(frame) => line_decoding(line@) == Some(frame@),
                Err(ProtocolError::TooLarge { size, max }) => {
                    &&& size == byte_size(text::unterminated(line@))
                    &&& size > MAX_FRAME_BYTES
                    &&& max == MAX_FRAME_BYTES
                },
                Err(ProtocolError::Malformed(why)) => {
                    &&& byte_size(text::unterminated(line@)) <= MAX_FRAME_BYTES
                    &&& line_decoding(line@) is None
                    &&& why@ == complaint(line@)
                },
            },
    {
        let size: usize = text::without_line_end(line).as_bytes().len();
        if size > MAX_FRAME_BYTES {
            return Err(ProtocolError::TooLarge { size, max: MAX_FRAME_BYTES });
        }
        Frame::understand(line)
    }
}

/// What bytes say their type is.
fn tag_from(bytes: &[u8]) -> (tag: Option<String>)
    ensures
        match tag {
            Some(t) => tag_in(bytes@) == Some(t@),
            None => tag_in(bytes@) is None,
        },
{
    match json::get_first(bytes, "type") {
        Some(value) => json::read_text(value),
        None => None,
    }
}

// ---------------------------------------------------------------------------
// Tickets
// ---------------------------------------------------------------------------
/// What the two ends of a connection show each other before either lets the
/// other into its room.
#[derive(Debug, Clone, Copy, PartialEq, Eq)]
pub enum Ticket {
    /// The sender's nonce for this connection.
    Challenge { nonce: [u8; 32] },
    /// That the sender holds the room's code, for this connection.
    Proof { shown: [u8; 32] },
}

/// What a `Ticket` says.
pub enum TicketView {
    Challenge { nonce: Seq<u8> },
    Proof { shown: Seq<u8> },
}

impl View for Ticket {
    type V = TicketView;

    open spec fn view(&self) -> TicketView {
        match self {
            Ticket::Challenge { nonce } => TicketView::Challenge { nonce: nonce@ },
            Ticket::Proof { shown } => TicketView::Proof { shown: shown@ },
        }
    }
}

/// A ticket as a tree: a record that says its type first.
pub open spec fn ticket_tree(ticket: TicketView) -> Json {
    match ticket {
        TicketView::Challenge { nonce } => Json::Record(
            seq![("type"@, Json::Text("Challenge"@)), ("nonce"@, json::bytes_tree(nonce))],
        ),
        TicketView::Proof { shown } => Json::Record(
            seq![("type"@, Json::Text("Proof"@)), ("proof"@, json::bytes_tree(shown))],
        ),
    }
}

/// The thirty-two bytes in the one member of a record besides its type.
pub open spec fn token_in(bytes: Seq<u8>, name: Seq<char>) -> Option<Seq<u8>> {
    match json::fields(bytes, 1, seq![name]) {
        Some(values) => match json::bytes_at(values[0]) {
            Some(token) => if token.len() == 32 {
                Some(token)
            } else {
                None
            },
            None => None,
        },
        None => None,
    }
}

/// The ticket that the bytes of a line say.
pub open spec fn ticket_in(bytes: Seq<u8>) -> Option<TicketView> {
    let tag = tag_in(bytes);
    if tag == Some("Challenge"@) {
        match token_in(bytes, "nonce"@) {
            Some(nonce) => Some(TicketView::Challenge { nonce }),
            None => None,
        }
    } else if tag == Some("Proof"@) {
        match token_in(bytes, "proof"@) {
            Some(shown) => Some(TicketView::Proof { shown }),
            None => None,
        }
    } else {
        None
    }
}

/// The ticket that a line without its newline says, if it says one.
pub open spec fn ticket_said(line: Seq<char>) -> Option<TicketView> {
    ticket_in(encode_utf8(line))
}

proof fn lemma_ticket_names()
    ensures
        "type"@ != "nonce"@,
        "type"@ != "proof"@,
        "Challenge"@ != "Proof"@,
{
    reveal_strlit("type");
    reveal_strlit("nonce");
    reveal_strlit("proof");
    reveal_strlit("Challenge");
    reveal_strlit("Proof");
    assert("type"@.len() == 4 && "nonce"@.len() == 5 && "proof"@.len() == 5);
    assert("Challenge"@.len() == 9 && "Proof"@.len() == 5);
}

/// A ticket read out of bytes that read as its tree is the same ticket.
pub proof fn law_a_ticket_reads_back_from_its_tree(ticket: TicketView, bytes: Seq<u8>)
    requires
        ticket matches TicketView::Challenge { nonce } ==> nonce.len() == 32,
        ticket matches TicketView::Proof { shown } ==> shown.len() == 32,
    ensures
        json::plain(ticket_tree(ticket), json::MAX_DEPTH as nat),
        json::reads_as(bytes, ticket_tree(ticket), json::MAX_DEPTH as nat) ==> ticket_in(bytes)
            == Some(ticket),
{
    lemma_ticket_names();
    reveal_with_fuel(json::plain, 2);
    let members = ticket_tree(ticket)->Record_0;
    let (name, token) = match ticket {
        TicketView::Challenge { nonce } => ("nonce"@, nonce),
        TicketView::Proof { shown } => ("proof"@, shown),
    };
    json::lemma_bytes_read_back(token, 126);
    assert(json::member_names(members) =~= seq!["type"@, name]);
    assert(json::member_names(members).skip(1) =~= seq![name]);
    if json::reads_as(bytes, ticket_tree(ticket), json::MAX_DEPTH as nat) {
        json::lemma_fields_read_back(bytes, members, json::MAX_DEPTH as nat, 1);
        let values = json::fields(bytes, 1, seq![name])->0;
        assert(json::reads_as(values[0], members[1].1, 126));
    }
}

/// The thirty-two bytes in the one member of a record besides its type.
fn token_from(bytes: &[u8], name: &'static str) -> (token: Option<[u8; 32]>)
    ensures
        match token {
            Some(t) => token_in(bytes@, name@) == Some(t@),
            None => token_in(bytes@, name@) is None,
        },
{
    let names: [&str; 1] = [name];
    assert(json::views(names@) =~= seq![name@]);
    let values: Vec<&[u8]> = match json::get_fields(bytes, 1, names.as_slice()) {
        Some(values) => values,
        None => return None,
    };
    match json::read_bytes(values[0]) {
        Some(token) => bytes::to_array::<32>(token.as_slice()),
        None => None,
    }
}

impl Ticket {
    /// Encode as a single line, without its newline. It reads back as the same
    /// ticket.
    pub fn encode(&self) -> (line: String)
        ensures
            line@ == json::compact(ticket_tree(self@)),
            ticket_said(line@) == Some(self@),
            forall|i: int| 0 <= i < line@.len() ==> #[trigger] line@[i] >= ' ',
    {
        let mut members: Vec<(String, Value)> = Vec::new();
        match self {
            Ticket::Challenge { nonce } => {
                members.push(text_member("type", "Challenge"));
                members.push(bytes_member("nonce", nonce.as_slice()));
            },
            Ticket::Proof { shown } => {
                members.push(text_member("type", "Proof"));
                members.push(bytes_member("proof", shown.as_slice()));
            },
        }
        proof {
            lemma_ticket_names();
            let line = json::compact(ticket_tree(self@));
            law_a_ticket_reads_back_from_its_tree(self@, encode_utf8(line));
            assert(json::member_trees(members@) =~= ticket_tree(self@)->Record_0);
        }
        let document = json::from_members(members);
        json::to_compact(&document)
    }

    /// The ticket that a line without its newline says. How long a line may be
    /// is settled where lines are read.
    pub fn decode(line: &str) -> (ticket: Option<Ticket>)
        ensures
            match ticket {
                Some(t) => ticket_said(line@) == Some(t@),
                None => ticket_said(line@) is None,
            },
    {
        proof {
            lemma_ticket_names();
        }
        let bytes = line.as_bytes();
        let tag: String = match tag_from(bytes) {
            Some(tag) => tag,
            None => return None,
        };
        if text::same_text(tag.as_str(), "Challenge") {
            match token_from(bytes, "nonce") {
                Some(nonce) => Some(Ticket::Challenge { nonce }),
                None => None,
            }
        } else if text::same_text(tag.as_str(), "Proof") {
            match token_from(bytes, "proof") {
                Some(shown) => Some(Ticket::Proof { shown }),
                None => None,
            }
        } else {
            None
        }
    }
}

/// What a `ProtocolError` is.
pub enum ProtocolErrorView {
    TooLarge { size: usize, max: usize },
    Malformed(Seq<char>),
}

impl View for ProtocolError {
    type V = ProtocolErrorView;

    open spec fn view(&self) -> ProtocolErrorView {
        match self {
            ProtocolError::TooLarge { size, max } => ProtocolErrorView::TooLarge {
                size: *size,
                max: *max,
            },
            ProtocolError::Malformed(why) => ProtocolErrorView::Malformed(why@),
        }
    }
}

/// What an error says.
pub open spec fn error_text(error: ProtocolErrorView) -> Seq<char> {
    match error {
        ProtocolErrorView::TooLarge { size, max } => "frame of "@ + text::decimal(size as nat)
            + " bytes exceeds the "@ + text::decimal(max as nat) + " byte limit"@,
        ProtocolErrorView::Malformed(why) => "malformed frame: "@ + why,
    }
}

impl ProtocolError {
    /// What the error says.
    pub open spec fn text(&self) -> Seq<char> {
        error_text(self@)
    }

    /// The error in words.
    pub fn message(&self) -> (words: String)
        ensures
            words@ == self.text(),
    {
        match self {
            ProtocolError::TooLarge { size, max } => {
                let mut words = String::from_str("frame of ");
                words.append(text::in_decimal(*size as u64).as_str());
                words.append(" bytes exceeds the ");
                words.append(text::in_decimal(*max as u64).as_str());
                words.append(" byte limit");
                words
            },
            ProtocolError::Malformed(why) => {
                let mut words = String::from_str("malformed frame: ");
                words.append(why.as_str());
                words
            },
        }
    }
}

/// What a frame is written as: a record that says its type first, and then the rest
/// under the names that belong to it.
pub proof fn law_how_a_frame_is_written(
    name: Seq<char>,
    public_key: Seq<u8>,
    listen_addr: Seq<char>,
    peers: Seq<PeerInfoView>,
    ciphertext: Seq<u8>,
    nonce: Seq<u8>,
    i: int,
)
    ensures
        encoding(FrameView::Hello { name, public_key, listen_addr }) == json::compact(
            Json::Record(
                seq![
                    ("type"@, Json::Text("Hello"@)),
                    ("name"@, Json::Text(name)),
                    ("public_key"@, json::bytes_tree(public_key)),
                    ("listen_addr"@, Json::Text(listen_addr)),
                ],
            ),
        ),
        encoding(FrameView::Chat { ciphertext, nonce }) == json::compact(
            Json::Record(
                seq![
                    ("type"@, Json::Text("Chat"@)),
                    ("ciphertext"@, json::bytes_tree(ciphertext)),
                    ("nonce"@, json::bytes_tree(nonce)),
                ],
            ),
        ),
        encoding(FrameView::Peers { peers }) == json::compact(frame_tree(FrameView::Peers { peers })),
        frame_tree(FrameView::Peers { peers }) matches Json::Record(members) && members.len() == 2
            && members[0] == ("type"@, Json::Text("Peers"@)) && members[1].0 == "peers"@ && (
        members[1].1 matches Json::List(items) && items.len() == peers.len() && (0 <= i
            < peers.len() ==> items[i] == Json::Record(
            seq![
                ("name"@, Json::Text(peers[i].name)),
                ("public_key"@, json::bytes_tree(peers[i].public_key)),
                ("listen_addr"@, Json::Text(peers[i].listen_addr)),
            ],
        ))),
{
}

/// What an introduction is read from: a document whose type says so, with a name, a key
/// and an address, in a line that is not too long, and from nothing else.
pub proof fn law_what_an_introduction_is_read_from(
    line: Seq<char>,
    name: Seq<char>,
    public_key: Seq<u8>,
    listen_addr: Seq<char>,
)
    ensures
        decoding(line) == Some(FrameView::Hello { name, public_key, listen_addr }) <==> {
            &&& encode_utf8(line).len() <= 65536
            &&& json::parsed(encode_utf8(line)) is Ok
            &&& json::first_field(encode_utf8(line), "type"@) matches Some(tag)
            &&& json::text_at(tag) == Some("Hello"@)
            &&& json::fields(
                encode_utf8(line),
                1,
                seq!["name"@, "public_key"@, "listen_addr"@],
            ) matches Some(values)
            &&& json::text_at(values[0]) == Some(name)
            &&& json::bytes_at(values[1]) == Some(public_key)
            &&& json::text_at(values[2]) == Some(listen_addr)
        },
{
    lemma_names();
}

/// What a sealed message is read from: a document whose type says so, with a ciphertext
/// and a nonce of twenty-four bytes, in a line that is not too long, and from nothing
/// else.
pub proof fn law_what_a_sealed_message_is_read_from(
    line: Seq<char>,
    ciphertext: Seq<u8>,
    nonce: Seq<u8>,
)
    ensures
        decoding(line) == Some(FrameView::Chat { ciphertext, nonce }) <==> {
            &&& encode_utf8(line).len() <= 65536
            &&& json::parsed(encode_utf8(line)) is Ok
            &&& json::first_field(encode_utf8(line), "type"@) matches Some(tag)
            &&& json::text_at(tag) == Some("Chat"@)
            &&& json::fields(encode_utf8(line), 1, seq!["ciphertext"@, "nonce"@]) matches Some(
                values,
            )
            &&& json::bytes_at(values[0]) == Some(ciphertext)
            &&& json::bytes_at(values[1]) == Some(nonce)
            &&& nonce.len() == 24
        },
{
    lemma_names();
}

/// What a list of peers is read from: a document whose type says so, with a list of
/// which every item gives a name, a key and an address, in a line that is not too long,
/// and from nothing else. All of the items are read, in their order.
pub proof fn law_what_a_peer_list_is_read_from(line: Seq<char>, peers: Seq<PeerInfoView>)
    ensures
        decoding(line) == Some(FrameView::Peers { peers }) <==> {
            &&& encode_utf8(line).len() <= 65536
            &&& json::parsed(encode_utf8(line)) is Ok
            &&& json::first_field(encode_utf8(line), "type"@) matches Some(tag)
            &&& json::text_at(tag) == Some("Peers"@)
            &&& json::fields(encode_utf8(line), 1, seq!["peers"@]) matches Some(values)
            &&& json::list_in(values[0]) matches Some(items)
            &&& items.len() == peers.len()
            &&& forall|i: int| 0 <= i < items.len() ==> says_peer(#[trigger] items[i], peers[i])
        },
{
    lemma_names();
    if let Some(values) = json::fields(encode_utf8(line), 1, seq!["peers"@]) {
        if let Some(items) = json::list_in(values[0]) {
            if infos_in(values[0]) == Some(peers) {
                assert forall|i: int| 0 <= i < items.len() implies says_peer(
                    #[trigger] items[i],
                    peers[i],
                ) by {
                    assert(info_in(items[i]) is Some);
                    assert(peers[i] == info_in(items[i])->0);
                }
            }
            if items.len() == peers.len() && (forall|i: int|
                0 <= i < items.len() ==> says_peer(#[trigger] items[i], peers[i])) {
                assert forall|i: int| 0 <= i < items.len() implies info_in(#[trigger] items[i])
                    == Some(peers[i]) by {
                    assert(says_peer(items[i], peers[i]));
                }
                assert(items.map_values(|item: Seq<u8>| info_in(item)->0) =~= peers);
            }
        }
    }
}

/// Whether bytes give that peer's name, key and address.
pub open spec fn says_peer(bytes: Seq<u8>, peer: PeerInfoView) -> bool {
    &&& json::fields(bytes, 0, seq!["name"@, "public_key"@, "listen_addr"@]) matches Some(values)
    &&& json::text_at(values[0]) == Some(peer.name)
    &&& json::bytes_at(values[1]) == Some(peer.public_key)
    &&& json::text_at(values[2]) == Some(peer.listen_addr)
}

/// A line is read alike with its line end and without, as far as its length goes: it is
/// not counted.
pub proof fn law_a_line_end_is_not_counted(line: Seq<char>)
    ensures
        line_decoding(line.push('\n')) is Some ==> encode_utf8(line).len() <= 65536,
        encode_utf8(line).len() <= 65536 ==> line_decoding(line.push('\n')) == frame_in(
            encode_utf8(line.push('\n')),
        ),
        line.len() == 0 || line[line.len() - 1] != '\n' ==> line_decoding(line) == decoding(line),
{
    text::law_a_line_end_comes_off_once(line);
}

/// What is said of a line that is no frame: the parser's words where it cannot be
/// parsed.
pub proof fn law_what_is_said_of_no_frame(line: Seq<char>)
    ensures
        match json::parsed(encode_utf8(line)) {
            Err(why) => complaint(line) == why,
            Ok(_) => complaint(line) == "not a frame that this version understands"@,
        },
{
}

/// What a ticket is written as: a record that says its type first, and then the nonce
/// or the proof.
pub proof fn law_how_a_ticket_is_written(token: Seq<u8>)
    ensures
        ticket_tree(TicketView::Challenge { nonce: token }) == Json::Record(
            seq![("type"@, Json::Text("Challenge"@)), ("nonce"@, json::bytes_tree(token))],
        ),
        ticket_tree(TicketView::Proof { shown: token }) == Json::Record(
            seq![("type"@, Json::Text("Proof"@)), ("proof"@, json::bytes_tree(token))],
        ),
{
}

/// What a ticket is read from: a document whose type says which it is, with thirty-two
/// bytes under the name that belongs to it, and from nothing else.
pub proof fn law_what_a_ticket_is_read_from(line: Seq<char>, token: Seq<u8>)
    ensures
        ticket_said(line) == Some(TicketView::Challenge { nonce: token }) <==> {
            &&& json::first_field(encode_utf8(line), "type"@) matches Some(tag)
            &&& json::text_at(tag) == Some("Challenge"@)
            &&& json::fields(encode_utf8(line), 1, seq!["nonce"@]) matches Some(values)
            &&& json::bytes_at(values[0]) == Some(token)
            &&& token.len() == 32
        },
        ticket_said(line) == Some(TicketView::Proof { shown: token }) <==> {
            &&& json::first_field(encode_utf8(line), "type"@) matches Some(tag)
            &&& json::text_at(tag) == Some("Proof"@)
            &&& json::fields(encode_utf8(line), 1, seq!["proof"@]) matches Some(values)
            &&& json::bytes_at(values[0]) == Some(token)
            &&& token.len() == 32
        },
{
    lemma_ticket_names();
}

/// What each error says, with the sizes in decimal.
pub proof fn law_what_each_error_says(size: usize, max: usize, why: Seq<char>)
    ensures
        error_text(ProtocolErrorView::TooLarge { size, max }) == "frame of "@ + text::decimal(
            size as nat,
        ) + " bytes exceeds the "@ + text::decimal(max as nat) + " byte limit"@,
        error_text(ProtocolErrorView::Malformed(why)) == "malformed frame: "@ + why,
{
}

/// Several entries of a peer list are seen one for one and in their order.
pub proof fn law_entries_are_seen_one_for_one(infos: Seq<PeerInfo>, i: int)
    ensures
        info_views(infos).len() == infos.len(),
        0 <= i < infos.len() ==> info_views(infos)[i].name == infos[i].name@,
        0 <= i < infos.len() ==> info_views(infos)[i].public_key == infos[i].public_key@,
        0 <= i < infos.len() ==> info_views(infos)[i].listen_addr == infos[i].listen_addr@,
{
}

} // verus!
