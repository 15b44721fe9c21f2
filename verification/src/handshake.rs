//! What a peer says first: who it is, and where it can be reached.

use crate::crypto;
use crate::digits;
use crate::node::ConnError;
use crate::peers;
use crate::peers::{Peer, PeerView};
use crate::protocol;
use crate::protocol::{Frame, FrameView, PeerInfoView, ProtocolError};
use crate::text;
use vstd::prelude::*;
use vstd::string::*;
use vstd::utf8::*;

verus! {

/// The longest name that a peer may have, in characters.
pub const MAX_NAME_LEN: usize = 32;

/// The number that decimal digits stand for, if there are any, they are nothing
/// else, and the number is a port.
pub open spec fn port_number(digits: Seq<char>) -> Option<nat>
    decreases digits.len(),
{
    if digits.len() == 0 {
        None
    } else {
        let last = digits.last();
        let before = if digits.len() == 1 {
            Some(0nat)
        } else {
            port_number(digits.drop_last())
        };
        match before {
            Some(n) if '0' <= last && last <= '9' && 10 * n + (last as nat - 48) <= 65535 => Some(
                (10 * n + (last as nat - 48)) as nat,
            ),
            _ => None,
        }
    }
}

/// What follows the last colon of an address, if it has one.
pub open spec fn after_colon(addr: Seq<char>) -> Option<Seq<char>>
    decreases addr.len(),
{
    if addr.len() == 0 {
        None
    } else if addr.last() == ':' {
        Some(Seq::empty())
    } else {
        match after_colon(addr.drop_last()) {
            Some(rest) => Some(rest.push(addr.last())),
            None => None,
        }
    }
}

/// The port that an address names.
pub open spec fn port_in(addr: Seq<char>) -> Option<nat> {
    match after_colon(addr) {
        Some(digits) => port_number(digits),
        None => None,
    }
}

/// An address with a port. An address that holds colons is put in brackets.
pub open spec fn socket_address(ip: Seq<char>, port: nat) -> Seq<char> {
    if ip.contains(':') {
        seq!['['] + ip + seq![']', ':'] + text::decimal(port)
    } else {
        ip + seq![':'] + text::decimal(port)
    }
}

/// What is wrong with an identity that a peer presents, if anything is.
pub open spec fn identity_flaw(info: PeerInfoView) -> Option<Seq<char>> {
    if info.public_key.len() != crypto::KEY_LEN {
        Some("public key is not 32 bytes"@)
    } else if text::blank(info.name) {
        Some("name is empty"@)
    } else if info.name.len() > MAX_NAME_LEN {
        Some("name is too long"@)
    } else {
        match port_in(info.listen_addr) {
            None => Some("listen address has no port"@),
            Some(port) => if port == 0 {
                Some("listen port is zero"@)
            } else {
                None
            },
        }
    }
}

/// The peer that an identity describes. Its own view of its address is
/// unreliable behind a router, so the address recorded is the one that the
/// connection demonstrably came from, with the port that it advertises.
pub open spec fn introduced(info: PeerInfoView, peer_ip: Seq<char>) -> PeerView {
    peers::peer_of(
        PeerInfoView {
            listen_addr: socket_address(peer_ip, port_in(info.listen_addr)->0),
            ..info
        },
    )
}

/// The port that an address names.
pub fn port_of(addr: &str) -> (port: Option<u16>)
    ensures
        match port {
            Some(p) => port_in(addr@) == Some(p as nat),
            None => port_in(addr@) is None,
        },
{
    let chars = text::characters(addr);
    let mut at: usize = chars.len();
    assert(addr@.take(at as int) =~= addr@);
    assert(addr@.subrange(at as int, addr@.len() as int) =~= Seq::<char>::empty());
    while at > 0 && chars[at - 1] != ':'
        invariant
            chars@ == addr@,
            at <= chars@.len(),
            after_colon(addr@) == (match after_colon(addr@.take(at as int)) {
                Some(rest) => Some(rest + addr@.subrange(at as int, addr@.len() as int)),
                None => None,
            }),
        decreases at,
    {
        proof {
            let front = addr@.take(at as int);
            assert(front.drop_last() =~= addr@.take(at - 1));
            assert(front.last() == addr@[at - 1]);
            let rest = addr@.subrange(at as int, addr@.len() as int);
            let longer = addr@.subrange(at - 1, addr@.len() as int);
            assert(longer =~= seq![addr@[at - 1]] + rest);
            match after_colon(addr@.take(at - 1)) {
                Some(tail) => {
                    assert(tail.push(addr@[at - 1]) + rest =~= tail + longer);
                },
                None => {},
            }
        }
        at = at - 1;
    }
    if at == 0 {
        assert(addr@.take(0) =~= Seq::<char>::empty());
        return None;
    }
    let ghost digits = addr@.subrange(at as int, addr@.len() as int);
    assert(addr@.take(at as int).last() == ':');
    assert(after_colon(addr@) == Some(digits)) by {
        assert(Seq::<char>::empty() + digits =~= digits);
    }
    if at == chars.len() {
        return None;
    }
    let mut port: u32 = 0;
    for i in at..chars.len()
        invariant
            chars@ == addr@,
            at < chars@.len(),
            at <= i,
            digits == addr@.subrange(at as int, addr@.len() as int),
            port_in(addr@) == port_number(digits),
            port <= 65535,
            i > at ==> port_number(digits.take(i - at)) == Some(port as nat),
            i == at ==> port == 0,
    {
        let c: char = chars[i];
        proof {
            let next = digits.take(i + 1 - at);
            assert(next.last() == c);
            assert(next.drop_last() =~= digits.take(i - at));
        }
        if c < '0' || c > '9' {
            proof {
                lemma_port_prefix(digits, i + 1 - at);
            }
            return None;
        }
        let larger: u32 = 10 * port + (c as u32 - 48);
        if larger > 65535 {
            proof {
                lemma_port_prefix(digits, i + 1 - at);
            }
            return None;
        }
        port = larger;
    }
    assert(digits.take(digits.len() as int) =~= digits);
    Some(port as u16)
}

proof fn lemma_port_prefix(digits: Seq<char>, i: int)
    requires
        0 < i <= digits.len(),
        port_number(digits.take(i)) is None,
    ensures
        port_number(digits) is None,
    decreases digits.len(),
{
    if i == digits.len() {
        assert(digits.take(i) =~= digits);
    } else {
        assert(digits.drop_last().take(i) =~= digits.take(i));
        lemma_port_prefix(digits.drop_last(), i);
    }
}

/// An address with a port.
fn with_port(ip: &str, port: u16) -> (addr: String)
    ensures
        addr@ == socket_address(ip@, port as nat),
{
    let chars = text::characters(ip);
    let mut bracketed = false;
    for i in 0..chars.len()
        invariant
            chars@ == ip@,
            bracketed == exists|j: int| 0 <= j < i && #[trigger] ip@[j] == ':',
    {
        if chars[i] == ':' {
            bracketed = true;
        }
    }
    let mut addr = String::new();
    if bracketed {
        addr.push('[');
        addr.append(ip);
        addr.append("]:");
        proof {
            reveal_strlit("]:");
        }
    } else {
        addr.append(ip);
        addr.push(':');
    }
    addr.append(text::in_decimal(port as u64).as_str());
    assert(addr@ =~= socket_address(ip@, port as nat));
    addr
}

/// What is wrong with an identity that a peer presents, if anything is.
pub(crate) fn flaw_in(name: &str, public_key: &[u8], listen_addr: &str) -> (flaw: Option<
    &'static str,
>)
    ensures
        ({
            let info = PeerInfoView {
                name: name@,
                public_key: public_key@,
                listen_addr: listen_addr@,
            };
            match flaw {
                Some(why) => identity_flaw(info) == Some(why@),
                None => identity_flaw(info) is None,
            }
        }),
{
    if public_key.len() != crypto::KEY_LEN {
        return Some("public key is not 32 bytes");
    }
    if text::is_blank(name) {
        return Some("name is empty");
    }
    if name.unicode_len() > MAX_NAME_LEN {
        return Some("name is too long");
    }
    match port_of(listen_addr) {
        None => Some("listen address has no port"),
        Some(port) => if port == 0 {
            Some("listen port is zero")
        } else {
            None
        },
    }
}

/// What the first line from a peer comes to: who the peer is, or why the
/// connection ends.
pub open spec fn greeting(line: Seq<char>, peer_ip: Seq<char>) -> Option<PeerView> {
    match protocol::decoding(line) {
        Some(FrameView::Hello { name, public_key, listen_addr }) => {
            let info = PeerInfoView { name, public_key, listen_addr };
            if identity_flaw(info) is None {
                Some(introduced(info, peer_ip))
            } else {
                None
            }
        },
        _ => None,
    }
}

/// Whether a line cannot be read as a frame, and this is the complaint.
pub open spec fn unreadable(line: Seq<char>, e: ProtocolError) -> bool {
    match e {
        ProtocolError::TooLarge { size, max } => {
            &&& size == protocol::byte_size(line)
            &&& size > protocol::MAX_FRAME_BYTES
            &&& max == protocol::MAX_FRAME_BYTES
        },
        ProtocolError::Malformed(why) => {
            &&& protocol::byte_size(line) <= protocol::MAX_FRAME_BYTES
            &&& protocol::decoding(line) is None
            &&& why@ == protocol::complaint(line)
        },
    }
}

/// Read a peer's first line. It has to be a well-formed introduction, so that
/// malformed identities reach neither the cryptography nor the registry.
pub fn handshake(line: &str, peer_ip: &str) -> (outcome: Result<Peer, ConnError>)
    ensures
        match outcome {
            Ok(peer) => greeting(line@, peer_ip@) == Some(peer@),
            Err(ConnError::Protocol(e)) => unreadable(line@, e),
            Err(ConnError::ExpectedHello) => protocol::decoding(line@) is Some && !(
            protocol::decoding(line@)->0 is Hello),
            Err(ConnError::InvalidIdentity(why)) => protocol::decoding(line@) matches Some(
                FrameView::Hello { name, public_key, listen_addr },
            ) && identity_flaw((PeerInfoView { name, public_key, listen_addr })) == Some(why@),
            Err(_) => false,
        },
{
    match Frame::decode(line) {
        Err(e) => Err(ConnError::Protocol(e)),
        Ok(Frame::Hello { name, public_key, listen_addr }) => {
            if let Some(why) = flaw_in(
                name.as_str(),
                public_key.as_slice(),
                listen_addr.as_str(),
            ) {
                return Err(ConnError::InvalidIdentity(why));
            }
            match port_of(listen_addr.as_str()) {
                Some(port) => Ok(Peer::new(name, public_key, with_port(peer_ip, port))),
                None => Err(ConnError::InvalidIdentity("listen address has no port")),
            }
        },
        Ok(_) => Err(ConnError::ExpectedHello),
    }
}

// ---------------------------------------------------------------------------
// What holds of all of it
// ---------------------------------------------------------------------------
proof fn lemma_after_last_colon(front: Seq<char>, digits: Seq<char>)
    requires
        !digits.contains(':'),
    ensures
        after_colon(front.push(':') + digits) == Some(digits),
    decreases digits.len(),
{
    let addr = front.push(':') + digits;
    if digits.len() == 0 {
        assert(addr.last() == ':');
        assert(digits =~= Seq::<char>::empty());
    } else {
        let shorter = digits.drop_last();
        assert(!shorter.contains(':')) by {
            if shorter.contains(':') {
                let i = choose|i: int| 0 <= i < shorter.len() && shorter[i] == ':';
                assert(digits[i] == ':');
            }
        }
        assert(digits[digits.len() - 1] != ':');
        assert(addr.last() == digits.last());
        assert(addr.drop_last() =~= front.push(':') + shorter);
        lemma_after_last_colon(front, shorter);
        assert(shorter.push(digits.last()) =~= digits);
    }
}

proof fn lemma_decimal_is_a_port(n: nat)
    requires
        n <= 65535,
    ensures
        port_number(text::decimal(n)) == Some(n),
        !text::decimal(n).contains(':'),
        text::decimal(n).len() > 0,
    decreases n,
{
    let digits = text::decimal(n);
    if n < 10 {
        assert(digits =~= seq![text::digit_char(n)]);
    } else {
        lemma_decimal_is_a_port(n / 10);
        let front = text::decimal(n / 10);
        let last = text::digit_char(n % 10);
        assert(digits == front.push(last));
        assert(digits.drop_last() =~= front);
        assert forall|i: int| 0 <= i < digits.len() implies digits[i] != ':' by {
            if i < front.len() {
                assert(front[i] == digits[i]);
                assert(front.contains(front[i]));
            }
        }
    }
}

/// The address that is recorded for a peer has the port that the peer advertises
/// for listening, whatever port the connection came from.
pub proof fn law_the_recorded_port_is_the_advertised_one(
    info: PeerInfoView,
    peer_ip: Seq<char>,
)
    requires
        port_in(info.listen_addr) is Some,
    ensures
        port_in(introduced(info, peer_ip).listen_addr) == port_in(info.listen_addr),
{
    let port = port_in(info.listen_addr)->0;
    let digits = text::decimal(port);
    lemma_decimal_is_a_port(port);
    if peer_ip.contains(':') {
        let front = seq!['['] + peer_ip + seq![']'];
        assert(socket_address(peer_ip, port) =~= front.push(':') + digits);
        lemma_after_last_colon(front, digits);
    } else {
        assert(socket_address(peer_ip, port) =~= peer_ip.push(':') + digits);
        lemma_after_last_colon(peer_ip, digits);
    }
}

/// A line that introduces somebody without a flaw is taken for what it says: the
/// peer is recorded under the key and the name it gives, with that key's
/// fingerprint.
pub proof fn law_a_good_introduction_is_believed(
    line: Seq<char>,
    peer_ip: Seq<char>,
    info: PeerInfoView,
)
    requires
        protocol::decoding(line) == Some(
            FrameView::Hello {
                name: info.name,
                public_key: info.public_key,
                listen_addr: info.listen_addr,
            },
        ),
        identity_flaw(info) is None,
    ensures
        greeting(line, peer_ip) matches Some(peer) && peer.public_key == info.public_key
            && peer.name == info.name && peer.fingerprint == crypto::fingerprint_text(
            info.public_key,
        ),
{
    assert((PeerInfoView {
        name: info.name,
        public_key: info.public_key,
        listen_addr: info.listen_addr,
    }) == info);
}

proof fn lemma_port_of_digits(chars: Seq<char>, figures: Seq<u8>)
    requires
        chars.len() == figures.len(),
        0 < figures.len(),
        forall|i: int|
            0 <= i < figures.len() ==> (#[trigger] figures[i]) < 10 && chars[i] as int == 48
                + figures[i],
    ensures
        port_number(chars) == (if digits::value(figures, 10) <= 65535 {
            Some(digits::value(figures, 10))
        } else {
            None
        }),
    decreases figures.len(),
{
    let front = figures.drop_last();
    let last = figures[figures.len() - 1];
    assert(last < 10);
    assert(chars[figures.len() - 1] as int == 48 + last);
    assert(chars.last() as nat - 48 == last);
    assert(digits::value(figures, 10) == digits::value(front, 10) * 10 + last);
    if figures.len() == 1 {
        assert(digits::value(front, 10) == 0);
    } else {
        assert forall|i: int| 0 <= i < front.len() implies (#[trigger] front[i]) < 10
            && chars.drop_last()[i] as int == 48 + front[i] by {
            assert(front[i] == figures[i]);
        }
        lemma_port_of_digits(chars.drop_last(), front);
    }
}

proof fn lemma_no_port_of_other_characters(chars: Seq<char>, at: int)
    requires
        0 <= at < chars.len(),
        !('0' <= chars[at] && chars[at] <= '9'),
    ensures
        port_number(chars) is None,
    decreases chars.len(),
{
    if at < chars.len() - 1 {
        lemma_no_port_of_other_characters(chars.drop_last(), at);
    }
}

proof fn lemma_no_colon(addr: Seq<char>)
    requires
        forall|i: int| 0 <= i < addr.len() ==> #[trigger] addr[i] != ':',
    ensures
        after_colon(addr) is None,
    decreases addr.len(),
{
    if addr.len() > 0 {
        assert(addr[addr.len() - 1] != ':');
        assert forall|i: int| 0 <= i < addr.drop_last().len() implies #[trigger] addr.drop_last()[i]
            != ':' by {
            assert(addr.drop_last()[i] == addr[i]);
        }
        lemma_no_colon(addr.drop_last());
    }
}

/// The port of an address is the number that the decimal digits behind its last
/// colon stand for, and every number from 0 to 65535 is a port.
pub proof fn law_the_port_is_behind_the_last_colon(
    front: Seq<char>,
    chars: Seq<char>,
    figures: Seq<u8>,
)
    requires
        chars.len() == figures.len(),
        0 < figures.len(),
        forall|i: int|
            0 <= i < figures.len() ==> (#[trigger] figures[i]) < 10 && chars[i] as int == 48
                + figures[i],
    ensures
        digits::value(figures, 10) <= 65535 ==> port_in(front.push(':') + chars) == Some(
            digits::value(figures, 10),
        ),
        digits::value(figures, 10) > 65535 ==> port_in(front.push(':') + chars) is None,
{
    assert(!chars.contains(':')) by {
        if chars.contains(':') {
            let i = choose|i: int| 0 <= i < chars.len() && chars[i] == ':';
            assert(figures[i] < 10);
        }
    }
    lemma_after_last_colon(front, chars);
    lemma_port_of_digits(chars, figures);
}

/// An address without a colon, or with anything but digits behind its last one, or
/// with nothing there, names no port.
pub proof fn law_other_addresses_name_no_port(front: Seq<char>, rest: Seq<char>)
    requires
        !rest.contains(':'),
        rest.len() == 0 || exists|i: int|
            0 <= i < rest.len() && !('0' <= #[trigger] rest[i] && rest[i] <= '9'),
    ensures
        port_in(rest) is None,
        port_in(front.push(':') + rest) is None,
{
    assert forall|i: int| 0 <= i < rest.len() implies #[trigger] rest[i] != ':' by {
        assert(rest.contains(rest[i]));
    }
    lemma_no_colon(rest);
    lemma_after_last_colon(front, rest);
    if rest.len() > 0 {
        let i = choose|i: int|
            0 <= i < rest.len() && !('0' <= #[trigger] rest[i] && rest[i] <= '9');
        lemma_no_port_of_other_characters(rest, i);
    }
}

/// The port of an address that was put together is the one that it was put together
/// with, for every port.
pub proof fn law_every_port_can_be_named(ip: Seq<char>, port: nat)
    requires
        port <= 65535,
    ensures
        port_in(socket_address(ip, port)) == Some(port),
        port_in(ip.push(':') + text::decimal(port)) == Some(port),
{
    let figures = text::decimal(port);
    lemma_decimal_is_a_port(port);
    lemma_after_last_colon(ip, figures);
    if ip.contains(':') {
        let front = seq!['['] + ip + seq![']'];
        assert(socket_address(ip, port) =~= front.push(':') + figures);
        lemma_after_last_colon(front, figures);
    } else {
        assert(socket_address(ip, port) =~= ip.push(':') + figures);
    }
}

/// An identity is without a flaw exactly when its key has 32 bytes, its name has
/// something to read in it and no more than 32 characters, and its address names a
/// port other than zero.
pub proof fn law_what_makes_an_identity_good(info: PeerInfoView)
    ensures
        identity_flaw(info) is None <==> {
            &&& info.public_key.len() == 32
            &&& exists|i: int| 0 <= i < info.name.len() && !text::white_space(#[trigger] info.name[i])
            &&& info.name.len() <= 32
            &&& port_in(info.listen_addr) matches Some(port)
            &&& 1 <= port
        },
{
}

/// Whoever has a key of 32 bytes and a name of at most 32 characters with something
/// to read in it, and listens on any port from 1 to 65535, can introduce themselves.
pub proof fn law_every_port_from_one_up_is_accepted(
    info: PeerInfoView,
    ip: Seq<char>,
    port: nat,
    at: int,
)
    requires
        info.public_key.len() == 32,
        info.name.len() <= 32,
        0 <= at < info.name.len(),
        !text::white_space(info.name[at]),
        1 <= port <= 65535,
        info.listen_addr == socket_address(ip, port) || info.listen_addr == ip.push(':')
            + text::decimal(port),
    ensures
        identity_flaw(info) is None,
{
    law_every_port_can_be_named(ip, port);
}

/// Which flaw is named: the key's length first, then the name, then the port.
pub proof fn law_which_flaw_is_named(info: PeerInfoView)
    ensures
        info.public_key.len() != 32 ==> identity_flaw(info) == Some("public key is not 32 bytes"@),
        info.public_key.len() == 32 && (forall|i: int|
            0 <= i < info.name.len() ==> text::white_space(#[trigger] info.name[i]))
            ==> identity_flaw(info) == Some("name is empty"@),
        info.public_key.len() == 32 && info.name.len() > 32 && !text::blank(info.name)
            ==> identity_flaw(info) == Some("name is too long"@),
        info.public_key.len() == 32 && info.name.len() <= 32 && !text::blank(info.name)
            && port_in(info.listen_addr) is None ==> identity_flaw(info) == Some(
            "listen address has no port"@,
        ),
        info.public_key.len() == 32 && info.name.len() <= 32 && !text::blank(info.name)
            && port_in(info.listen_addr) == Some(0nat) ==> identity_flaw(info) == Some(
            "listen port is zero"@,
        ),
{
}

/// The peer that a good introduction makes has the name and the key that it gives,
/// the fingerprint of that key, and as its address the one that the connection came
/// from with the port that the introduction advertises, in brackets where the
/// address holds colons.
pub proof fn law_where_an_introduced_peer_is_reached(
    line: Seq<char>,
    peer_ip: Seq<char>,
    info: PeerInfoView,
    port: nat,
)
    requires
        protocol::decoding(line) == Some(
            FrameView::Hello {
                name: info.name,
                public_key: info.public_key,
                listen_addr: info.listen_addr,
            },
        ),
        identity_flaw(info) is None,
        port_in(info.listen_addr) == Some(port),
    ensures
        greeting(line, peer_ip) is Some,
        greeting(line, peer_ip)->0.name == info.name,
        greeting(line, peer_ip)->0.public_key == info.public_key,
        greeting(line, peer_ip)->0.fingerprint == crypto::fingerprint_text(info.public_key),
        !peer_ip.contains(':') ==> greeting(line, peer_ip)->0.listen_addr == peer_ip + seq![':']
            + text::decimal(port),
        peer_ip.contains(':') ==> greeting(line, peer_ip)->0.listen_addr == seq!['['] + peer_ip
            + seq![']', ':'] + text::decimal(port),
{
    assert((PeerInfoView {
        name: info.name,
        public_key: info.public_key,
        listen_addr: info.listen_addr,
    }) == info);
}

/// A line that is no frame, a frame that is no introduction, and an introduction with
/// a flaw introduce nobody.
pub proof fn law_nobody_else_is_introduced(line: Seq<char>, peer_ip: Seq<char>)
    ensures
        greeting(line, peer_ip) is Some <==> {
            &&& protocol::decoding(line) matches Some(
                FrameView::Hello { name, public_key, listen_addr },
            )
            &&& identity_flaw((PeerInfoView { name, public_key, listen_addr })) is None
        },
{
}

/// A line is refused as too large exactly when it has more than 65536 bytes, with its
/// size and that limit, and as malformed exactly when it has no more and says no frame,
/// with what is wrong with it.
pub proof fn law_why_a_line_cannot_be_read(line: Seq<char>, size: usize, max: usize, why: String)
    ensures
        unreadable(line, ProtocolError::TooLarge { size, max }) <==> {
            &&& encode_utf8(line).len() > 65536
            &&& size == encode_utf8(line).len()
            &&& max == 65536
        },
        unreadable(line, ProtocolError::Malformed(why)) <==> {
            &&& encode_utf8(line).len() <= 65536
            &&& protocol::decoding(line) is None
            &&& why@ == protocol::complaint(line)
        },
{
}

} // verus!
