//! Messages: what a person typed, and the sealed form of it that an open relay
//! would carry.

use crate::bytes;
use crate::json;
use crate::json::Json;
use serde_json::Value;
use std::time::{Duration, SystemTime, UNIX_EPOCH};
use vstd::prelude::*;
use vstd::string::*;
use vstd::utf8::*;

verus! {

/// A message as its author typed it. This form never touches the network: it is
/// sealed first.
#[derive(Debug, PartialEq, Eq)]
pub struct Message {
    pub from: String,
    pub content: String,
    /// Seconds since 1970.
    pub timestamp: u64,
}

/// A sealed message with the name of its author in the open.
///
/// `from` is an untrusted routing hint: the recipient looks up that name's key
/// and lets decryption prove the claim.
#[derive(Debug, PartialEq, Eq)]
pub struct NetworkMessage {
    pub from: String,
    pub ciphertext: Vec<u8>,
    pub nonce: [u8; 12],
}

/// What a `Message` says.
pub struct MessageView {
    pub from: Seq<char>,
    pub content: Seq<char>,
    pub timestamp: u64,
}

/// What a `NetworkMessage` says.
pub struct NetworkMessageView {
    pub from: Seq<char>,
    pub ciphertext: Seq<u8>,
    pub nonce: Seq<u8>,
}

impl View for Message {
    type V = MessageView;

    open spec fn view(&self) -> MessageView {
        MessageView { from: self.from@, content: self.content@, timestamp: self.timestamp }
    }
}

impl View for NetworkMessage {
    type V = NetworkMessageView;

    open spec fn view(&self) -> NetworkMessageView {
        NetworkMessageView {
            from: self.from@,
            ciphertext: self.ciphertext@,
            nonce: self.nonce@,
        }
    }
}

impl Clone for Message {
    fn clone(&self) -> (copy: Self)
        ensures
            copy@ == self@,
    {
        Message {
            from: self.from.clone(),
            content: self.content.clone(),
            timestamp: self.timestamp,
        }
    }
}

impl Clone for NetworkMessage {
    fn clone(&self) -> (copy: Self)
        ensures
            copy@ == self@,
    {
        NetworkMessage {
            from: self.from.clone(),
            ciphertext: self.ciphertext.clone(),
            nonce: self.nonce,
        }
    }
}

// ---------------------------------------------------------------------------
// The clock
// ---------------------------------------------------------------------------
/// std's clock reading.
#[verifier::external_type_specification]
#[verifier::external_body]
pub struct ExSystemTime(std::time::SystemTime);

/// `SystemTime::now`. Nothing is claimed of what the clock says.
#[verifier::external_body]
fn clock_reading() -> (now: SystemTime) {
    SystemTime::now()
}

/// `SystemTime::duration_since`, against the start of 1970. Nothing is claimed
/// of the span; there is none when the clock stands before that.
#[verifier::external_body]
fn since_epoch(now: &SystemTime) -> (span: Option<Duration>) {
    now.duration_since(UNIX_EPOCH).ok()
}

/// `Duration::as_secs`. Nothing is claimed of the seconds, which are the
/// clock's.
#[verifier::external_body]
fn seconds_in(span: &Duration) -> (seconds: u64) {
    span.as_secs()
}

impl Message {
    /// A message from a clock reading, in seconds since 1970. A clock that
    /// stands before that reads as none and stamps the message with zero.
    pub fn stamped(from: String, content: String, clock: Option<u64>) -> (message: Self)
        ensures
            message@ == (MessageView {
                from: from@,
                content: content@,
                timestamp: match clock {
                    Some(seconds) => seconds,
                    None => 0,
                },
            }),
    {
        let timestamp: u64 = match clock {
            Some(seconds) => seconds,
            None => 0,
        };
        Message { from, content, timestamp }
    }

    /// A message from now. Nothing is stated of the timestamp, which is the
    /// clock's.
    pub fn new(from: String, content: String) -> (message: Self)
        ensures
            message.from@ == from@,
            message.content@ == content@,
    {
        let now = clock_reading();
        let clock: Option<u64> = match since_epoch(&now) {
            Some(span) => Some(seconds_in(&span)),
            None => None,
        };
        Message::stamped(from, content, clock)
    }
}

impl NetworkMessage {
    pub fn new(from: String, ciphertext: Vec<u8>, nonce: [u8; 12]) -> (message: Self)
        ensures
            message@ == (NetworkMessageView {
                from: from@,
                ciphertext: ciphertext@,
                nonce: nonce@,
            }),
    {
        NetworkMessage { from, ciphertext, nonce }
    }
}

// ---------------------------------------------------------------------------
// Messages as JSON
// ---------------------------------------------------------------------------
/// The names of the members of a message, in order.
pub open spec fn message_names() -> Seq<Seq<char>> {
    seq!["from"@, "content"@, "timestamp"@]
}

/// The names of the members of a network message, in order.
pub open spec fn network_names() -> Seq<Seq<char>> {
    seq!["from"@, "ciphertext"@, "nonce"@]
}

/// A message as a tree.
pub open spec fn message_tree(message: MessageView) -> Json {
    Json::Record(
        seq![
            ("from"@, Json::Text(message.from)),
            ("content"@, Json::Text(message.content)),
            ("timestamp"@, Json::Number(message.timestamp)),
        ],
    )
}

/// A network message as a tree.
pub open spec fn network_tree(message: NetworkMessageView) -> Json {
    Json::Record(
        seq![
            ("from"@, Json::Text(message.from)),
            ("ciphertext"@, json::bytes_tree(message.ciphertext)),
            ("nonce"@, json::bytes_tree(message.nonce)),
        ],
    )
}

/// The message that the bytes of a text say: a record with its members, each given
/// once, or a list of their values.
pub open spec fn message_in(bytes: Seq<u8>) -> Option<MessageView> {
    match json::fields(bytes, 0, message_names()) {
        Some(values) => match (
            json::text_at(values[0]),
            json::text_at(values[1]),
            json::number_at(values[2]),
        ) {
            (Some(from), Some(content), Some(timestamp)) => Some(
                MessageView { from, content, timestamp },
            ),
            _ => None,
        },
        None => None,
    }
}

/// The network message that the bytes of a text say: a record with its members,
/// each given once, or a list of their values.
pub open spec fn network_in(bytes: Seq<u8>) -> Option<NetworkMessageView> {
    match json::fields(bytes, 0, network_names()) {
        Some(values) => match (
            json::text_at(values[0]),
            json::bytes_at(values[1]),
            json::bytes_at(values[2]),
        ) {
            (Some(from), Some(ciphertext), Some(nonce)) => if nonce.len() == 12 {
                Some(NetworkMessageView { from, ciphertext, nonce })
            } else {
                None
            },
            _ => None,
        },
        None => None,
    }
}

/// The message that a text says.
pub open spec fn message_said(text: Seq<char>) -> Option<MessageView> {
    message_in(encode_utf8(text))
}

/// The network message that a text says.
pub open spec fn network_said(text: Seq<char>) -> Option<NetworkMessageView> {
    network_in(encode_utf8(text))
}

/// What is wrong with a text that says no message.
pub open spec fn complaint(text: Seq<char>) -> Seq<char> {
    match json::parsed(encode_utf8(text)) {
        Ok(_) => "not a message"@,
        Err(why) => why,
    }
}

proof fn lemma_names()
    ensures
        json::distinct(message_names()),
        json::distinct(network_names()),
{
    reveal_strlit("from");
    reveal_strlit("content");
    reveal_strlit("timestamp");
    reveal_strlit("ciphertext");
    reveal_strlit("nonce");
    assert("from"@.len() == 4 && "content"@.len() == 7 && "timestamp"@.len() == 9);
    assert("ciphertext"@.len() == 10 && "nonce"@.len() == 5);
}

/// A message read out of bytes that read as its tree is the same message.
pub proof fn law_a_message_reads_back_from_its_tree(message: MessageView, bytes: Seq<u8>)
    ensures
        json::plain(message_tree(message), json::MAX_DEPTH as nat),
        json::reads_as(bytes, message_tree(message), json::MAX_DEPTH as nat) ==> message_in(bytes)
            == Some(message),
{
    lemma_names();
    reveal_with_fuel(json::plain, 2);
    let members = message_tree(message)->Record_0;
    assert(json::member_names(members) =~= message_names());
    assert(message_names().skip(0) =~= message_names());
    if json::reads_as(bytes, message_tree(message), json::MAX_DEPTH as nat) {
        json::lemma_fields_read_back(bytes, members, json::MAX_DEPTH as nat, 0);
        let values = json::fields(bytes, 0, message_names())->0;
        assert(json::reads_as(values[0], members[0].1, 126));
        assert(json::reads_as(values[1], members[1].1, 126));
        assert(json::reads_as(values[2], members[2].1, 126));
    }
}

/// A network message read out of bytes that read as its tree is the same network
/// message.
pub proof fn law_a_network_message_reads_back_from_its_tree(
    message: NetworkMessageView,
    bytes: Seq<u8>,
)
    requires
        message.nonce.len() == 12,
    ensures
        json::plain(network_tree(message), json::MAX_DEPTH as nat),
        json::reads_as(bytes, network_tree(message), json::MAX_DEPTH as nat) ==> network_in(bytes)
            == Some(message),
{
    lemma_names();
    reveal_with_fuel(json::plain, 2);
    json::lemma_bytes_read_back(message.ciphertext, 126);
    json::lemma_bytes_read_back(message.nonce, 126);
    let members = network_tree(message)->Record_0;
    assert(json::member_names(members) =~= network_names());
    assert(network_names().skip(0) =~= network_names());
    if json::reads_as(bytes, network_tree(message), json::MAX_DEPTH as nat) {
        json::lemma_fields_read_back(bytes, members, json::MAX_DEPTH as nat, 0);
        let values = json::fields(bytes, 0, network_names())->0;
        assert(json::reads_as(values[0], members[0].1, 126));
        assert(json::reads_as(values[1], members[1].1, 126));
        assert(json::reads_as(values[2], members[2].1, 126));
    }
}

/// What is wrong with a text that says no message.
fn objection(text: &str) -> (why: String)
    ensures
        why@ == complaint(text@),
{
    match json::parse(text.as_bytes()) {
        Ok(_) => "not a message".to_owned(),
        Err(why) => why,
    }
}

impl Message {
    /// The message as JSON, which reads back as the same message.
    pub fn to_json(&self) -> (text: Result<String, String>)
        ensures
            text matches Ok(t) && t@ == json::compact(message_tree(self@)) && message_said(t@)
                == Some(self@),
    {
        let mut members: Vec<(String, Value)> = Vec::new();
        members.push(("from".to_owned(), json::from_text(self.from.clone())));
        members.push(("content".to_owned(), json::from_text(self.content.clone())));
        members.push(("timestamp".to_owned(), json::from_number(self.timestamp)));
        proof {
            lemma_names();
            let text = json::compact(message_tree(self@));
            law_a_message_reads_back_from_its_tree(self@, encode_utf8(text));
            assert(members@.map_values(|m: (String, serde_json::Value)| m.0@) =~= message_names());
            assert(json::member_trees(members@) =~= message_tree(self@)->Record_0);
        }
        let document = json::from_members(members);
        Ok(json::to_compact(&document))
    }

    /// The message that a JSON text says. Members that a message does not have are
    /// passed over, and those that it has are given once.
    pub fn from_json(text: &str) -> (message: Result<Self, String>)
        ensures
            match message {
                Ok(m) => message_said(text@) == Some(m@),
                Err(why) => message_said(text@) is None && why@ == complaint(text@),
            },
    {
        let names: [&str; 3] = ["from", "content", "timestamp"];
        assert(json::views(names@) =~= message_names());
        if let Some(values) = json::get_fields(text.as_bytes(), 0, names.as_slice()) {
            match (
                json::read_text(values[0]),
                json::read_text(values[1]),
                json::read_number(values[2]),
            ) {
                (Some(from), Some(content), Some(timestamp)) => {
                    return Ok(Message { from, content, timestamp });
                },
                _ => {},
            }
        }
        Err(objection(text))
    }
}

impl NetworkMessage {
    /// The network message as JSON, which reads back as the same one.
    pub fn to_json(&self) -> (text: Result<String, String>)
        ensures
            text matches Ok(t) && t@ == json::compact(network_tree(self@)) && network_said(t@)
                == Some(self@),
    {
        let mut members: Vec<(String, Value)> = Vec::new();
        members.push(("from".to_owned(), json::from_text(self.from.clone())));
        members.push(("ciphertext".to_owned(), json::from_bytes(self.ciphertext.as_slice())));
        members.push(("nonce".to_owned(), json::from_bytes(self.nonce.as_slice())));
        proof {
            lemma_names();
            let text = json::compact(network_tree(self@));
            law_a_network_message_reads_back_from_its_tree(self@, encode_utf8(text));
            assert(members@.map_values(|m: (String, serde_json::Value)| m.0@) =~= network_names());
            assert(json::member_trees(members@) =~= network_tree(self@)->Record_0);
        }
        let document = json::from_members(members);
        Ok(json::to_compact(&document))
    }

    /// The network message that a JSON text says. Members that it does not have
    /// are passed over, and those that it has are given once.
    pub fn from_json(text: &str) -> (message: Result<Self, String>)
        ensures
            match message {
                Ok(m) => network_said(text@) == Some(m@),
                Err(why) => network_said(text@) is None && why@ == complaint(text@),
            },
    {
        let names: [&str; 3] = ["from", "ciphertext", "nonce"];
        assert(json::views(names@) =~= network_names());
        if let Some(values) = json::get_fields(text.as_bytes(), 0, names.as_slice()) {
            match (
                json::read_text(values[0]),
                json::read_bytes(values[1]),
                json::read_bytes(values[2]),
            ) {
                (Some(from), Some(ciphertext), Some(nonce)) => {
                    if let Some(nonce) = bytes::to_array::<12>(nonce.as_slice()) {
                        return Ok(NetworkMessage { from, ciphertext, nonce });
                    }
                },
                _ => {},
            }
        }
        Err(objection(text))
    }
}

/// A message is written as a record of its author, its words and its time, under those
/// names and in that order.
pub proof fn law_how_a_message_is_written(message: MessageView)
    ensures
        message_tree(message) == Json::Record(
            seq![
                ("from"@, Json::Text(message.from)),
                ("content"@, Json::Text(message.content)),
                ("timestamp"@, Json::Number(message.timestamp)),
            ],
        ),
{
}

/// A network message is written as a record of its author's name, its ciphertext and
/// its nonce, under those names and in that order.
pub proof fn law_how_a_network_message_is_written(message: NetworkMessageView)
    ensures
        network_tree(message) == Json::Record(
            seq![
                ("from"@, Json::Text(message.from)),
                ("ciphertext"@, json::bytes_tree(message.ciphertext)),
                ("nonce"@, json::bytes_tree(message.nonce)),
            ],
        ),
{
}

/// What a message is read from: its author, its words and its time, where a text and a
/// text and a number are given for them, and nothing where they are not.
pub proof fn law_what_a_message_is_read_from(
    text: Seq<char>,
    from: Seq<char>,
    content: Seq<char>,
    timestamp: u64,
)
    ensures
        message_said(text) == Some(MessageView { from, content, timestamp }) <==> (json::fields(
            encode_utf8(text),
            0,
            seq!["from"@, "content"@, "timestamp"@],
        ) matches Some(values) && json::text_at(values[0]) == Some(from) && json::text_at(values[1])
            == Some(content) && json::number_at(values[2]) == Some(timestamp)),
{
}

/// What a network message is read from: its author's name, its ciphertext and a nonce
/// of twelve bytes, and nothing where they are not given.
pub proof fn law_what_a_network_message_is_read_from(
    text: Seq<char>,
    from: Seq<char>,
    ciphertext: Seq<u8>,
    nonce: Seq<u8>,
)
    ensures
        network_said(text) == Some(NetworkMessageView { from, ciphertext, nonce }) <==> (
        json::fields(
            encode_utf8(text),
            0,
            seq!["from"@, "ciphertext"@, "nonce"@],
        ) matches Some(values) && json::text_at(values[0]) == Some(from) && json::bytes_at(values[1])
            == Some(ciphertext) && json::bytes_at(values[2]) == Some(nonce) && nonce.len() == 12),
{
}

/// A text that says no message is refused in the parser's words where it cannot be
/// parsed.
pub proof fn law_what_is_said_of_no_message(text: Seq<char>)
    ensures
        match json::parsed(encode_utf8(text)) {
            Err(why) => complaint(text) == why,
            Ok(_) => complaint(text) == "not a message"@,
        },
{
}

} // verus!
