//! Who we are connected to.
//!
//! Peers are keyed by public key, never by name. A name is whatever its owner
//! typed at startup and carries no authority: two peers may choose the same
//! one, and a peer may choose ours. Only the key identifies anybody, so only
//! the key is allowed to index them.

use crate::bytes;
use crate::crypto;
use crate::protocol;
use crate::protocol::{PeerInfo, PeerInfoView};
use crate::text;
use vstd::prelude::*;
use vstd::string::*;
use vstd::utf8::*;

verus! {

/// A peer, as the handshake or gossip introduced it.
#[derive(Debug, PartialEq, Eq)]
pub struct Peer {
    pub name: String,
    pub public_key: Vec<u8>,
    /// Where this peer accepts connections, so that we can pass it on.
    pub listen_addr: String,
    pub fingerprint: String,
}

/// What a `Peer` says.
pub struct PeerView {
    pub name: Seq<char>,
    pub public_key: Seq<u8>,
    pub listen_addr: Seq<char>,
    pub fingerprint: Seq<char>,
}

impl View for Peer {
    type V = PeerView;

    open spec fn view(&self) -> PeerView {
        PeerView {
            name: self.name@,
            public_key: self.public_key@,
            listen_addr: self.listen_addr@,
            fingerprint: self.fingerprint@,
        }
    }
}

/// The peer with a name, a key and an address: the fingerprint is the key's.
pub open spec fn peer_of(info: PeerInfoView) -> PeerView {
    PeerView {
        name: info.name,
        public_key: info.public_key,
        listen_addr: info.listen_addr,
        fingerprint: crypto::fingerprint_text(info.public_key),
    }
}

/// What we tell others about a peer.
pub open spec fn info_of(peer: PeerView) -> PeerInfoView {
    PeerInfoView {
        name: peer.name,
        public_key: peer.public_key,
        listen_addr: peer.listen_addr,
    }
}

/// What we tell others about a peer is all there is to know about it.
pub proof fn law_info_describes_the_peer(info: PeerInfoView)
    ensures
        info_of(peer_of(info)) == info,
        peer_of(info_of(peer_of(info))) == peer_of(info),
{
}

impl Peer {
    pub fn new(name: String, public_key: Vec<u8>, listen_addr: String) -> (peer: Self)
        ensures
            peer@ == peer_of(
                (PeerInfoView {
                    name: name@,
                    public_key: public_key@,
                    listen_addr: listen_addr@,
                }),
            ),
    {
        let fingerprint = crypto::fingerprint(public_key.as_slice());
        Peer { name, public_key, listen_addr, fingerprint }
    }

    pub fn from_info(info: PeerInfo) -> (peer: Self)
        ensures
            peer@ == peer_of(info@),
    {
        Peer::new(info.name, info.public_key, info.listen_addr)
    }

    pub fn to_info(&self) -> (info: PeerInfo)
        ensures
            info@ == info_of(self@),
    {
        PeerInfo {
            name: self.name.clone(),
            public_key: self.public_key.clone(),
            listen_addr: self.listen_addr.clone(),
        }
    }
}

impl Clone for Peer {
    fn clone(&self) -> (copy: Self)
        ensures
            copy@ == self@,
    {
        Peer {
            name: self.name.clone(),
            public_key: self.public_key.clone(),
            listen_addr: self.listen_addr.clone(),
            fingerprint: self.fingerprint.clone(),
        }
    }
}

/// Whose name a newcomer's name reads like.
#[derive(Debug, PartialEq, Eq)]
pub enum NameClash {
    /// Our own, which is the clash most worth reporting.
    WithYou,
    /// That of a peer who is here already.
    WithPeer { fingerprint: String },
}

/// What becomes of a connection whose handshake just completed.
#[derive(Debug, PartialEq, Eq)]
pub enum Admission {
    /// Accepted, and to be announced, with a warning where the name reads like
    /// somebody else's.
    Admitted { name_conflict: Option<NameClash> },
    /// Accepted in place of an earlier connection to the same peer, who is in
    /// the room already and is not announced again.
    Superseded,
    /// Not accepted.
    Rejected(Rejection),
}

/// Why a connection is not accepted.
#[derive(Debug, Clone, Copy, PartialEq, Eq, Structural)]
pub enum Rejection {
    /// It is to ourselves. Gossip echoes our own entry back to us as a matter
    /// of course.
    SelfConnection,
    /// It is a second one to a peer, and lost the tiebreak.
    DuplicateConnection,
}

/// What a `NameClash` says.
pub enum NameClashView {
    WithYou,
    WithPeer { fingerprint: Seq<char> },
}

/// What an `Admission` says.
pub enum AdmissionView {
    Admitted { name_conflict: Option<NameClashView> },
    Superseded,
    Rejected(Rejection),
}

impl View for NameClash {
    type V = NameClashView;

    open spec fn view(&self) -> NameClashView {
        match self {
            NameClash::WithYou => NameClashView::WithYou,
            NameClash::WithPeer { fingerprint } => NameClashView::WithPeer {
                fingerprint: fingerprint@,
            },
        }
    }
}

impl View for Admission {
    type V = AdmissionView;

    open spec fn view(&self) -> AdmissionView {
        match self {
            Admission::Admitted { name_conflict } => AdmissionView::Admitted {
                name_conflict: match name_conflict {
                    Some(clash) => Some(clash@),
                    None => None,
                },
            },
            Admission::Superseded => AdmissionView::Superseded,
            Admission::Rejected(reason) => AdmissionView::Rejected(*reason),
        }
    }
}

// ---------------------------------------------------------------------------
// Names
// ---------------------------------------------------------------------------
/// A name as a person reads it: without padding and without regard to case.
pub open spec fn folded_name(name: Seq<char>) -> Seq<char> {
    text::lowercase(text::trim(name))
}

/// Whether two names read as the same name to a person, which is all that a
/// name is for.
pub open spec fn same_name(a: Seq<char>, b: Seq<char>) -> bool {
    folded_name(a) == folded_name(b)
}

/// Padding makes no difference to a name.
pub proof fn law_padding_does_not_matter(before: Seq<char>, name: Seq<char>, after: Seq<char>)
    requires
        text::blank(before),
        text::blank(after),
    ensures
        same_name(before + name + after, name),
{
    text::law_trim_ignores_padding(before, name, after);
}

/// The case of ASCII letters makes no difference to a name.
pub proof fn law_case_does_not_matter(a: Seq<char>, b: Seq<char>)
    requires
        is_ascii_chars(a),
        is_ascii_chars(b),
        a.map_values(|c: char| text::ascii_lower(c)) == b.map_values(
            |c: char| text::ascii_lower(c),
        ),
    ensures
        same_name(a, b),
{
    lemma_trim_keeps_case(a);
    lemma_trim_keeps_case(b);
}

proof fn lemma_trim_keeps_case(s: Seq<char>)
    requires
        is_ascii_chars(s),
    ensures
        is_ascii_chars(text::trim(s)),
        text::trim(s).map_values(|c: char| text::ascii_lower(c)) == text::trim(
            s.map_values(|c: char| text::ascii_lower(c)),
        ),
{
    lemma_trim_front_keeps_case(s);
    lemma_trim_back_keeps_case(text::trim_front(s));
}

proof fn lemma_trim_front_keeps_case(s: Seq<char>)
    requires
        is_ascii_chars(s),
    ensures
        is_ascii_chars(text::trim_front(s)),
        text::trim_front(s).map_values(|c: char| text::ascii_lower(c)) == text::trim_front(
            s.map_values(|c: char| text::ascii_lower(c)),
        ),
    decreases s.len(),
{
    let low = |c: char| text::ascii_lower(c);
    if s.len() > 0 {
        assert(s.map_values(low)[0] == text::ascii_lower(s[0]));
        assert(is_ascii_chars(s.drop_first())) by {
            let rest = s.drop_first();
            assert forall|i: int| 0 <= i < rest.len() implies '\0' <= #[trigger] rest[i]
                <= '\u{7f}' by {
                assert(rest[i] == s[i + 1]);
            }
        }
        assert(s.map_values(low).drop_first() =~= s.drop_first().map_values(low));
        if text::white_space(s[0]) {
            lemma_trim_front_keeps_case(s.drop_first());
        }
    }
}

proof fn lemma_trim_back_keeps_case(s: Seq<char>)
    requires
        is_ascii_chars(s),
    ensures
        is_ascii_chars(text::trim_back(s)),
        text::trim_back(s).map_values(|c: char| text::ascii_lower(c)) == text::trim_back(
            s.map_values(|c: char| text::ascii_lower(c)),
        ),
    decreases s.len(),
{
    let low = |c: char| text::ascii_lower(c);
    if s.len() > 0 {
        assert(s.map_values(low).last() == text::ascii_lower(s.last()));
        assert(is_ascii_chars(s.drop_last())) by {
            let rest = s.drop_last();
            assert forall|i: int| 0 <= i < rest.len() implies '\0' <= #[trigger] rest[i]
                <= '\u{7f}' by {
                assert(rest[i] == s[i]);
            }
        }
        assert(s.map_values(low).drop_last() =~= s.drop_last().map_values(low));
        if text::white_space(s.last()) {
            lemma_trim_back_keeps_case(s.drop_last());
        }
    }
}

/// Whether two names read as the same name.
pub fn names_match(a: &str, b: &str) -> (same: bool)
    ensures
        same == same_name(a@, b@),
{
    let x = text::trimmed(a).as_str().to_lowercase();
    let y = text::trimmed(b).as_str().to_lowercase();
    x == y
}

// ---------------------------------------------------------------------------
// The registry
// ---------------------------------------------------------------------------
/// The peers that we hold a connection to.
pub struct PeerRegistry {
    me: Vec<u8>,
    my_name: String,
    peers: Vec<Peer>,
}

/// What a `PeerRegistry` holds.
#[verifier::ext_equal]
pub struct RegistryView {
    /// Our own public key.
    pub me: Seq<u8>,
    /// Our own name.
    pub my_name: Seq<char>,
    /// The peers, in the order in which they joined.
    pub peers: Seq<PeerView>,
}

/// What several peers say.
pub open spec fn peer_views(peers: Seq<Peer>) -> Seq<PeerView> {
    peers.map_values(|peer: Peer| peer@)
}

impl View for PeerRegistry {
    type V = RegistryView;

    closed spec fn view(&self) -> RegistryView {
        RegistryView { me: self.me@, my_name: self.my_name@, peers: peer_views(self.peers@) }
    }
}

/// Whether one of the peers has that key.
pub open spec fn has_key(peers: Seq<PeerView>, key: Seq<u8>) -> bool {
    exists|i: int| 0 <= i < peers.len() && (#[trigger] peers[i]).public_key == key
}

impl RegistryView {
    /// No two peers have one key, and none has ours.
    pub open spec fn valid(self) -> bool {
        &&& forall|i: int, j: int|
            0 <= i < j < self.peers.len() ==> (#[trigger] self.peers[i]).public_key != (
            #[trigger] self.peers[j]).public_key
        &&& forall|i: int|
            0 <= i < self.peers.len() ==> (#[trigger] self.peers[i]).public_key != self.me
    }

    /// Whether a peer with that key is here.
    pub open spec fn holds(self, key: Seq<u8>) -> bool {
        has_key(self.peers, key)
    }
}

/// Which of two connections to one peer survives: the one dialled by the peer
/// with the smaller public key. Both nodes know both keys once the handshake is
/// done, so each reaches this answer alone.
pub open spec fn wins(me: Seq<u8>, them: Seq<u8>, inbound: bool) -> bool {
    if inbound {
        bytes::lex_less(them, me)
    } else {
        bytes::lex_less(me, them)
    }
}

/// The first peer whose name reads like this one, if any does.
pub open spec fn namesake(peers: Seq<PeerView>, name: Seq<char>) -> Option<PeerView>
    decreases peers.len(),
{
    if peers.len() == 0 {
        None
    } else if same_name(peers[0].name, name) {
        Some(peers[0])
    } else {
        namesake(peers.drop_first(), name)
    }
}

/// Whose name a newcomer's name reads like.
pub open spec fn clash(registry: RegistryView, name: Seq<char>) -> Option<NameClashView> {
    if same_name(registry.my_name, name) {
        Some(NameClashView::WithYou)
    } else {
        match namesake(registry.peers, name) {
            Some(peer) => Some(NameClashView::WithPeer { fingerprint: peer.fingerprint }),
            None => None,
        }
    }
}

/// What becomes of a connection.
pub open spec fn admission(registry: RegistryView, peer: PeerView, inbound: bool) -> AdmissionView {
    if peer.public_key == registry.me {
        AdmissionView::Rejected(Rejection::SelfConnection)
    } else if registry.holds(peer.public_key) {
        if wins(registry.me, peer.public_key, inbound) {
            AdmissionView::Superseded
        } else {
            AdmissionView::Rejected(Rejection::DuplicateConnection)
        }
    } else {
        AdmissionView::Admitted { name_conflict: clash(registry, peer.name) }
    }
}

/// The registry after a connection: a newcomer comes last, one who supersedes
/// takes the place of its predecessor, and one who is rejected changes nothing.
pub open spec fn admitted(registry: RegistryView, peer: PeerView, inbound: bool) -> RegistryView {
    match admission(registry, peer, inbound) {
        AdmissionView::Rejected(_) => registry,
        AdmissionView::Superseded => RegistryView {
            peers: registry.peers.map_values(
                |p: PeerView|
                    if p.public_key == peer.public_key {
                        peer
                    } else {
                        p
                    },
            ),
            ..registry
        },
        AdmissionView::Admitted { .. } => RegistryView {
            peers: registry.peers.push(peer),
            ..registry
        },
    }
}

/// The registry without the peer that has that key.
pub open spec fn removed(registry: RegistryView, key: Seq<u8>) -> RegistryView {
    RegistryView {
        peers: registry.peers.filter(|p: PeerView| p.public_key != key),
        ..registry
    }
}

/// The entries to dial: everyone whom we hold no connection to, except
/// ourselves, in the order given and once each.
pub open spec fn undialed(registry: RegistryView, gossiped: Seq<PeerInfoView>) -> Seq<PeerInfoView>
    decreases gossiped.len(),
{
    if gossiped.len() == 0 {
        Seq::empty()
    } else {
        let earlier = undialed(registry, gossiped.drop_last());
        let info = gossiped.last();
        if wanted(registry, info.public_key) && !lists_key(earlier, info.public_key) {
            earlier.push(info)
        } else {
            earlier
        }
    }
}

/// Whether the key is one that we are not connected to and is not our own.
pub open spec fn wanted(registry: RegistryView, key: Seq<u8>) -> bool {
    key != registry.me && !registry.holds(key)
}

/// Whether one of the entries has that key.
pub open spec fn lists_key(infos: Seq<PeerInfoView>, key: Seq<u8>) -> bool {
    exists|i: int| 0 <= i < infos.len() && (#[trigger] infos[i]).public_key == key
}

/// Leaving out the key of one peer, which no other peer has, leaves out that
/// peer.
pub proof fn lemma_filter_one(peers: Seq<PeerView>, at: int)
    requires
        0 <= at < peers.len(),
        forall|i: int|
            0 <= i < peers.len() && i != at ==> (#[trigger] peers[i]).public_key
                != peers[at].public_key,
    ensures
        peers.filter(|p: PeerView| p.public_key != peers[at].public_key) == peers.remove(at),
{
    let key = peers[at].public_key;
    let keep = |p: PeerView| p.public_key != key;
    let (before, one, after) = (peers.take(at), seq![peers[at]], peers.skip(at + 1));
    assert(peers =~= before + one + after);
    Seq::filter_distributes_over_add(before + one, after, keep);
    Seq::filter_distributes_over_add(before, one, keep);
    lemma_filter_none(before, key);
    lemma_filter_none(after, key);
    reveal_with_fuel(Seq::filter, 2);
    assert(one.drop_last() =~= Seq::<PeerView>::empty());
    assert(one.filter(keep) =~= Seq::<PeerView>::empty());
    assert(before + Seq::<PeerView>::empty() + after =~= peers.remove(at));
}

proof fn lemma_filter_none(peers: Seq<PeerView>, key: Seq<u8>)
    requires
        !has_key(peers, key),
    ensures
        peers.filter(|p: PeerView| p.public_key != key) == peers,
    decreases peers.len(),
{
    reveal(Seq::filter);
    if peers.len() > 0 {
        let front = peers.drop_last();
        assert(!has_key(front, key)) by {
            if has_key(front, key) {
                let i = choose|i: int|
                    0 <= i < front.len() && (#[trigger] front[i]).public_key == key;
                assert(peers[i].public_key == key);
            }
        }
        lemma_filter_none(front, key);
        assert(peers[peers.len() - 1].public_key != key);
        assert(front.push(peers.last()) =~= peers);
    } else {
        assert(peers =~= Seq::<PeerView>::empty());
    }
}

impl PeerRegistry {
    pub fn new(my_public_key: Vec<u8>, my_name: String) -> (registry: Self)
        ensures
            registry@ == (RegistryView {
                me: my_public_key@,
                my_name: my_name@,
                peers: Seq::empty(),
            }),
            registry@.valid(),
    {
        let registry = PeerRegistry { me: my_public_key, my_name, peers: Vec::new() };
        assert(registry@.peers =~= Seq::<PeerView>::empty());
        registry
    }

    /// Where the peer with that key is, if it is here.
    pub(crate) fn position(&self, key: &[u8]) -> (at: Option<usize>)
        ensures
            match at {
                Some(i) => i < self@.peers.len() && self@.peers[i as int].public_key == key@,
                None => !self@.holds(key@),
            },
    {
        for i in 0..self.peers.len()
            invariant
                forall|j: int| 0 <= j < i ==> (#[trigger] self@.peers[j]).public_key != key@,
        {
            assert(self@.peers[i as int] == self.peers@[i as int]@);
            if bytes::same_bytes(self.peers[i].public_key.as_slice(), key) {
                return Some(i);
            }
        }
        None
    }

    /// Whose name a newcomer's name reads like.
    fn name_clash(&self, name: &str) -> (found: Option<NameClash>)
        ensures
            match found {
                Some(c) => clash(self@, name@) == Some(c@),
                None => clash(self@, name@) is None,
            },
    {
        if names_match(self.my_name.as_str(), name) {
            return Some(NameClash::WithYou);
        }
        assert(self@.peers.skip(0) =~= self@.peers);
        for i in 0..self.peers.len()
            invariant
                !same_name(self@.my_name, name@),
                namesake(self@.peers, name@) == namesake(self@.peers.skip(i as int), name@),
        {
            assert(self@.peers.skip(i as int)[0] == self.peers@[i as int]@);
            assert(self@.peers.skip(i as int).drop_first() =~= self@.peers.skip(i + 1));
            if names_match(self.peers[i].name.as_str(), name) {
                return Some(
                    NameClash::WithPeer { fingerprint: self.peers[i].fingerprint.clone() },
                );
            }
        }
        None
    }

    /// Decide what to do with a connection whose handshake just completed.
    ///
    /// `inbound` says whether the peer dialled us. It only matters when there
    /// are two connections to one peer.
    pub fn accept(&mut self, peer: Peer, inbound: bool) -> (outcome: Admission)
        requires
            old(self)@.valid(),
        ensures
            outcome@ == admission(old(self)@, peer@, inbound),
            final(self)@ == admitted(old(self)@, peer@, inbound),
            final(self)@.valid(),
    {
        if bytes::same_bytes(peer.public_key.as_slice(), self.me.as_slice()) {
            return Admission::Rejected(Rejection::SelfConnection);
        }
        let ghost before = self@;
        let ghost newcomer = peer@;
        match self.position(peer.public_key.as_slice()) {
            Some(at) => {
                let won = if inbound {
                    bytes::comes_before(peer.public_key.as_slice(), self.me.as_slice())
                } else {
                    bytes::comes_before(self.me.as_slice(), peer.public_key.as_slice())
                };
                if won {
                    self.peers.set(at, peer);
                    proof {
                        let after = admitted(before, newcomer, inbound).peers;
                        assert(before.peers[at as int].public_key == newcomer.public_key);
                        assert(self@.peers =~= after) by {
                            assert forall|i: int| 0 <= i < after.len() implies #[trigger] after[i]
                                == self@.peers[i] by {
                                if i != at {
                                    assert(before.peers[i].public_key
                                        != before.peers[at as int].public_key);
                                }
                            }
                        }
                        assert forall|i: int| 0 <= i < self@.peers.len() implies (
                        #[trigger] self@.peers[i]).public_key == before.peers[i].public_key by {}
                    }
                    Admission::Superseded
                } else {
                    Admission::Rejected(Rejection::DuplicateConnection)
                }
            },
            None => {
                let name_conflict = self.name_clash(peer.name.as_str());
                self.peers.push(peer);
                proof {
                    assert(self@.peers =~= before.peers.push(newcomer));
                    assert forall|i: int| 0 <= i < before.peers.len() implies (
                    #[trigger] self@.peers[i]).public_key != newcomer.public_key by {
                        assert(before.peers[i].public_key != newcomer.public_key);
                    }
                }
                Admission::Admitted { name_conflict }
            },
        }
    }

    /// Forget the peer with that key.
    pub fn remove(&mut self, public_key: &[u8])
        requires
            old(self)@.valid(),
        ensures
            final(self)@ == removed(old(self)@, public_key@),
            final(self)@.valid(),
            !final(self)@.holds(public_key@),
    {
        let ghost before = self@;
        match self.position(public_key) {
            Some(at) => {
                proof {
                    assert forall|i: int| 0 <= i < before.peers.len() && i != at implies (
                    #[trigger] before.peers[i]).public_key != before.peers[at as int].public_key by {
                        if i < at {
                            assert(before.peers[i].public_key
                                != before.peers[at as int].public_key);
                        } else {
                            assert(before.peers[at as int].public_key
                                != before.peers[i].public_key);
                        }
                    }
                    lemma_filter_one(before.peers, at as int);
                }
                self.peers.remove(at);
                proof {
                    assert(self@.peers =~= before.peers.remove(at as int));
                    assert forall|i: int| 0 <= i < self@.peers.len() implies (
                    #[trigger] self@.peers[i]) == before.peers[if i < at {
                        i
                    } else {
                        i + 1
                    }] by {}
                }
            },
            None => {
                proof {
                    lemma_filter_none(before.peers, public_key@);
                }
            },
        }
    }

    /// The peer with that key.
    pub fn get(&self, public_key: &[u8]) -> (found: Option<&Peer>)
        ensures
            match found {
                Some(peer) => self@.peers.contains(peer@) && peer@.public_key == public_key@,
                None => !self@.holds(public_key@),
            },
    {
        match self.position(public_key) {
            Some(at) => {
                assert(self@.peers[at as int] == self.peers@[at as int]@);
                Some(&self.peers[at])
            },
            None => None,
        }
    }

    /// Everyone here, in the order in which they joined.
    pub fn all(&self) -> (peers: &[Peer])
        ensures
            peer_views(peers@) == self@.peers,
    {
        self.peers.as_slice()
    }

    pub fn len(&self) -> (count: usize)
        ensures
            count == self@.peers.len(),
    {
        self.peers.len()
    }

    pub fn is_empty(&self) -> (empty: bool)
        ensures
            empty == (self@.peers.len() == 0),
    {
        self.peers.len() == 0
    }

    /// Our own public key.
    pub fn me(&self) -> (key: &[u8])
        ensures
            key@ == self@.me,
    {
        self.me.as_slice()
    }

    /// Our own name.
    pub fn my_name(&self) -> (name: &str)
        ensures
            name@ == self@.my_name,
    {
        self.my_name.as_str()
    }

    /// Everyone in `gossiped` whom we hold no connection to and should dial.
    ///
    /// Each only once, because nothing stops a peer from listing an entry twice.
    pub fn undialed(&self, gossiped: &[PeerInfo]) -> (to_dial: Vec<PeerInfo>)
        ensures
            protocol::info_views(to_dial@) == undialed(self@, protocol::info_views(gossiped@)),
    {
        let ghost all = protocol::info_views(gossiped@);
        let mut to_dial: Vec<PeerInfo> = Vec::new();
        assert(protocol::info_views(to_dial@) =~= undialed(self@, all.take(0)));
        for i in 0..gossiped.len()
            invariant
                all == protocol::info_views(gossiped@),
                protocol::info_views(to_dial@) == undialed(self@, all.take(i as int)),
        {
            let ghost earlier = protocol::info_views(to_dial@);
            let info = &gossiped[i];
            assert(all.take(i + 1).drop_last() =~= all.take(i as int));
            assert(all.take(i + 1).last() == info@);
            let ours = bytes::same_bytes(info.public_key.as_slice(), self.me.as_slice());
            if !ours && self.position(info.public_key.as_slice()).is_none() && !listed(
                to_dial.as_slice(),
                info.public_key.as_slice(),
            ) {
                to_dial.push(info.clone());
                assert(protocol::info_views(to_dial@) =~= earlier.push(info@));
            }
        }
        assert(all.take(all.len() as int) =~= all);
        to_dial
    }
}

/// Whether one of the entries has that key.
fn listed(infos: &[PeerInfo], key: &[u8]) -> (found: bool)
    ensures
        found == lists_key(protocol::info_views(infos@), key@),
{
    let ghost all = protocol::info_views(infos@);
    for i in 0..infos.len()
        invariant
            all == protocol::info_views(infos@),
            forall|j: int| 0 <= j < i ==> (#[trigger] all[j]).public_key != key@,
    {
        assert(all[i as int] == infos@[i as int]@);
        if bytes::same_bytes(infos[i].public_key.as_slice(), key) {
            return true;
        }
    }
    false
}

// ---------------------------------------------------------------------------
// What holds of all of it
// ---------------------------------------------------------------------------
/// Both ends of a pair judge a connection alike, and of two connections, one
/// dialled by each end, exactly one wins.
pub proof fn law_both_ends_judge_alike(a: Seq<u8>, b: Seq<u8>)
    requires
        a != b,
    ensures
        wins(a, b, false) == wins(b, a, true),
        wins(a, b, true) == wins(b, a, false),
        wins(a, b, false) != wins(a, b, true),
{
    bytes::law_lex_order_is_total(a, b);
}

/// A first connection to a peer is always accepted, whichever key is smaller.
pub proof fn law_a_lone_connection_is_accepted(
    registry: RegistryView,
    peer: PeerView,
    inbound: bool,
)
    requires
        peer.public_key != registry.me,
        !registry.holds(peer.public_key),
    ensures
        admission(registry, peer, inbound) is Admitted,
        admitted(registry, peer, inbound).holds(peer.public_key),
        admitted(registry, peer, inbound).peers.len() == registry.peers.len() + 1,
{
    let after = admitted(registry, peer, inbound).peers;
    assert(after[after.len() - 1].public_key == peer.public_key);
}

/// A connection to ourselves is never accepted and changes nothing.
pub proof fn law_we_are_never_our_own_peer(registry: RegistryView, peer: PeerView, inbound: bool)
    requires
        peer.public_key == registry.me,
    ensures
        admission(registry, peer, inbound) == AdmissionView::Rejected(Rejection::SelfConnection),
        admitted(registry, peer, inbound) == registry,
{
}

/// Whatever becomes of a second connection, it leaves one entry for the peer.
pub proof fn law_a_collision_leaves_one_entry(
    registry: RegistryView,
    peer: PeerView,
    inbound: bool,
)
    requires
        registry.valid(),
        registry.holds(peer.public_key),
    ensures
        admitted(registry, peer, inbound).peers.len() == registry.peers.len(),
        admitted(registry, peer, inbound).holds(peer.public_key),
        admitted(registry, peer, inbound).valid(),
{
    let after = admitted(registry, peer, inbound).peers;
    let at = choose|i: int|
        0 <= i < registry.peers.len() && (#[trigger] registry.peers[i]).public_key
            == peer.public_key;
    assert forall|i: int| 0 <= i < after.len() implies (#[trigger] after[i]).public_key
        == registry.peers[i].public_key by {}
    assert(after[at].public_key == peer.public_key);
}

/// Replays a collision on one node: two connections to one peer, one dialled by
/// each end, the first in the given direction. Says whether the one that is left
/// is the one that the peer dialled.
pub open spec fn survivor_is_inbound(
    registry: RegistryView,
    peer: PeerView,
    first_inbound: bool,
) -> bool {
    let second = admission(admitted(registry, peer, first_inbound), peer, !first_inbound);
    if second is Superseded {
        !first_inbound
    } else {
        first_inbound
    }
}

/// Which connection survives does not depend on which arrived first: it is the
/// one that the smaller key dialled.
pub proof fn law_arrival_order_does_not_matter(
    registry: RegistryView,
    peer: PeerView,
    first_inbound: bool,
)
    requires
        peer.public_key != registry.me,
        !registry.holds(peer.public_key),
    ensures
        survivor_is_inbound(registry, peer, first_inbound) == bytes::lex_less(
            peer.public_key,
            registry.me,
        ),
{
    law_a_lone_connection_is_accepted(registry, peer, first_inbound);
    law_both_ends_judge_alike(registry.me, peer.public_key);
}

/// Two nodes that dial each other at the same moment keep the same one of the
/// two connections, however their arrivals interleave on either node.
pub proof fn law_both_nodes_keep_the_same_connection(
    on_a: RegistryView,
    on_b: RegistryView,
    a: PeerView,
    b: PeerView,
    a_first_inbound: bool,
    b_first_inbound: bool,
)
    requires
        on_a.me == a.public_key,
        on_b.me == b.public_key,
        a.public_key != b.public_key,
        !on_a.holds(b.public_key),
        !on_b.holds(a.public_key),
    ensures
        survivor_is_inbound(on_a, b, a_first_inbound) != survivor_is_inbound(
            on_b,
            a,
            b_first_inbound,
        ),
{
    law_arrival_order_does_not_matter(on_a, b, a_first_inbound);
    law_arrival_order_does_not_matter(on_b, a, b_first_inbound);
    bytes::law_lex_order_is_total(a.public_key, b.public_key);
}

/// A newcomer whose name reads like ours is reported as such, and is here all
/// the same.
pub proof fn law_taking_our_name_is_reported(
    registry: RegistryView,
    peer: PeerView,
    inbound: bool,
)
    requires
        peer.public_key != registry.me,
        !registry.holds(peer.public_key),
        same_name(registry.my_name, peer.name),
    ensures
        admission(registry, peer, inbound) == (AdmissionView::Admitted {
            name_conflict: Some(NameClashView::WithYou),
        }),
        admitted(registry, peer, inbound).peers == registry.peers.push(peer),
{
}

/// A newcomer is reported as a namesake exactly where somebody here has a name
/// that reads like theirs, and the fingerprint reported is that somebody's.
pub proof fn law_namesakes_are_reported(peers: Seq<PeerView>, name: Seq<char>)
    ensures
        match namesake(peers, name) {
            Some(peer) => peers.contains(peer) && same_name(peer.name, name),
            None => forall|i: int|
                0 <= i < peers.len() ==> !same_name((#[trigger] peers[i]).name, name),
        },
    decreases peers.len(),
{
    if peers.len() > 0 && !same_name(peers[0].name, name) {
        let rest = peers.drop_first();
        law_namesakes_are_reported(rest, name);
        match namesake(rest, name) {
            Some(peer) => {
                let i = choose|i: int| 0 <= i < rest.len() && rest[i] == peer;
                assert(peers[i + 1] == peer);
            },
            None => {
                assert forall|i: int| 0 <= i < peers.len() implies !same_name(
                    (#[trigger] peers[i]).name,
                    name,
                ) by {
                    if i > 0 {
                        assert(rest[i - 1] == peers[i]);
                    }
                }
            },
        }
    }
}

/// A peer that is forgotten is not here.
pub proof fn law_removal_removes(registry: RegistryView, key: Seq<u8>)
    ensures
        !removed(registry, key).holds(key),
{
    broadcast use vstd::seq_lib::group_filter_ensures;

    let keep = |p: PeerView| p.public_key != key;
    let after = registry.peers.filter(keep);
    if removed(registry, key).holds(key) {
        let j = choose|j: int| 0 <= j < after.len() && (#[trigger] after[j]).public_key == key;
        assert(keep(after[j]));
    }
}

/// Forgetting a peer forgets nobody else.
pub proof fn law_removal_spares_the_others(registry: RegistryView, key: Seq<u8>, other: Seq<u8>)
    requires
        other != key,
    ensures
        removed(registry, key).holds(other) == registry.holds(other),
{
    let keep = |p: PeerView| p.public_key != key;
    let before = registry.peers;
    let after = before.filter(keep);
    broadcast use vstd::seq_lib::group_filter_ensures;

    if registry.holds(other) {
        let i = choose|i: int| 0 <= i < before.len() && (#[trigger] before[i]).public_key == other;
        assert(keep(before[i]));
        assert(after.contains(before[i]));
        let j = choose|j: int| 0 <= j < after.len() && after[j] == before[i];
        assert(after[j].public_key == other);
    }
    if removed(registry, key).holds(other) {
        let j = choose|j: int| 0 <= j < after.len() && (#[trigger] after[j]).public_key == other;
        lemma_filter_comes_from(before, key, j);
    }
}

proof fn lemma_filter_comes_from(peers: Seq<PeerView>, key: Seq<u8>, j: int)
    requires
        0 <= j < peers.filter(|p: PeerView| p.public_key != key).len(),
    ensures
        has_key(peers, peers.filter(|p: PeerView| p.public_key != key)[j].public_key),
    decreases peers.len(),
{
    reveal(Seq::filter);
    let keep = |p: PeerView| p.public_key != key;
    if peers.len() > 0 {
        let front = peers.drop_last();
        let found = peers.filter(keep)[j];
        if j < front.filter(keep).len() {
            assert(front.filter(keep)[j] == found);
            lemma_filter_comes_from(front, key, j);
            let i = choose|i: int|
                0 <= i < front.len() && (#[trigger] front[i]).public_key == found.public_key;
            assert(peers[i].public_key == found.public_key);
        } else {
            assert(peers[peers.len() - 1].public_key == found.public_key);
        }
    }
}

/// Whom to dial out of a gossiped list: only people whom we are not connected to
/// and who are not us, each of them out of the list and only once, and all of
/// them.
pub proof fn law_dialing_covers_exactly_the_missing(
    registry: RegistryView,
    gossiped: Seq<PeerInfoView>,
)
    ensures
        forall|i: int|
            0 <= i < undialed(registry, gossiped).len() ==> wanted(
                registry,
                (#[trigger] undialed(registry, gossiped)[i]).public_key,
            ) && gossiped.contains(undialed(registry, gossiped)[i]),
        forall|i: int, j: int|
            0 <= i < j < undialed(registry, gossiped).len() ==> (#[trigger] undialed(
                registry,
                gossiped,
            )[i]).public_key != (#[trigger] undialed(registry, gossiped)[j]).public_key,
        forall|i: int|
            0 <= i < gossiped.len() && wanted(registry, (#[trigger] gossiped[i]).public_key)
                ==> lists_key(undialed(registry, gossiped), gossiped[i].public_key),
    decreases gossiped.len(),
{
    if gossiped.len() > 0 {
        let front = gossiped.drop_last();
        let earlier = undialed(registry, front);
        let all = undialed(registry, gossiped);
        let info = gossiped.last();
        law_dialing_covers_exactly_the_missing(registry, front);
        assert forall|i: int| 0 <= i < all.len() implies wanted(
            registry,
            (#[trigger] all[i]).public_key,
        ) && gossiped.contains(all[i]) by {
            if i < earlier.len() {
                assert(all[i] == earlier[i]);
                let k = choose|k: int| 0 <= k < front.len() && front[k] == earlier[i];
                assert(gossiped[k] == all[i]);
            } else {
                assert(gossiped[gossiped.len() - 1] == all[i]);
            }
        }
        assert forall|i: int, j: int| 0 <= i < j < all.len() implies (#[trigger] all[i]).public_key
            != (#[trigger] all[j]).public_key by {
            assert(all[i] == earlier[i]);
            if j < earlier.len() {
                assert(all[j] == earlier[j]);
            }
        }
        assert forall|i: int|
            0 <= i < gossiped.len() && wanted(
                registry,
                (#[trigger] gossiped[i]).public_key,
            ) implies lists_key(all, gossiped[i].public_key) by {
            let key = gossiped[i].public_key;
            if i < front.len() {
                assert(front[i] == gossiped[i]);
                assert(lists_key(earlier, key));
            }
            if lists_key(earlier, key) {
                let k = choose|k: int|
                    0 <= k < earlier.len() && (#[trigger] earlier[k]).public_key == key;
                assert(all[k].public_key == key);
            } else {
                assert(all[all.len() - 1].public_key == key);
            }
        }
    }
}

/// Once we hold a connection to everyone whom we were told to dial, and still to
/// everyone whom we held one to, nobody on the list is left to dial.
pub proof fn law_nobody_is_left_to_dial(
    before: RegistryView,
    after: RegistryView,
    gossiped: Seq<PeerInfoView>,
)
    requires
        after.me == before.me,
        forall|key: Seq<u8>| #[trigger] before.holds(key) ==> after.holds(key),
        forall|i: int|
            0 <= i < undialed(before, gossiped).len() ==> after.holds(
                (#[trigger] undialed(before, gossiped)[i]).public_key,
            ),
    ensures
        undialed(after, gossiped) == Seq::<PeerInfoView>::empty(),
{
    let left = undialed(after, gossiped);
    law_dialing_covers_exactly_the_missing(before, gossiped);
    law_dialing_covers_exactly_the_missing(after, gossiped);
    if left.len() > 0 {
        let info = left[0];
        let key = info.public_key;
        assert(wanted(after, key));
        assert(gossiped.contains(info));
        let i = choose|i: int| 0 <= i < gossiped.len() && gossiped[i] == info;
        assert(!before.holds(key));
        assert(wanted(before, gossiped[i].public_key));
        let listed = undialed(before, gossiped);
        assert(lists_key(listed, key));
        let j = choose|j: int| 0 <= j < listed.len() && (#[trigger] listed[j]).public_key == key;
        assert(after.holds(listed[j].public_key));
    }
    assert(left =~= Seq::<PeerInfoView>::empty());
}

/// The registry once a connection to each on a list was accepted, one after the
/// other; the flags say which of them dialled us.
pub open spec fn admitted_all(
    registry: RegistryView,
    infos: Seq<PeerInfoView>,
    inbound: Seq<bool>,
) -> RegistryView
    decreases infos.len(),
{
    if infos.len() == 0 {
        registry
    } else {
        admitted(
            admitted_all(registry, infos.drop_last(), inbound),
            peer_of(infos.last()),
            inbound[infos.len() - 1],
        )
    }
}

/// Everyone whom we were told to dial is a newcomer when their turn comes,
/// whichever end dials, and once they all are here nobody on the list is left to
/// dial.
pub proof fn law_dialing_everyone_finishes_the_list(
    registry: RegistryView,
    gossiped: Seq<PeerInfoView>,
    inbound: Seq<bool>,
)
    ensures
        forall|i: int|
            0 <= i < undialed(registry, gossiped).len() ==> #[trigger] admission(
                admitted_all(registry, undialed(registry, gossiped).take(i), inbound),
                peer_of(undialed(registry, gossiped)[i]),
                inbound[i],
            ) is Admitted,
        undialed(
            admitted_all(registry, undialed(registry, gossiped), inbound),
            gossiped,
        ) == Seq::<PeerInfoView>::empty(),
{
    let infos = undialed(registry, gossiped);
    let after = admitted_all(registry, infos, inbound);
    law_dialing_covers_exactly_the_missing(registry, gossiped);
    assert forall|i: int| 0 <= i < infos.len() implies #[trigger] admission(
        admitted_all(registry, infos.take(i), inbound),
        peer_of(infos[i]),
        inbound[i],
    ) is Admitted by {
        lemma_newcomers_all_join(registry, infos, inbound, i);
    }
    lemma_newcomers_all_join(registry, infos, inbound, infos.len() as int);
    assert(infos.take(infos.len() as int) =~= infos);
    assert forall|key: Seq<u8>| #[trigger] registry.holds(key) implies after.holds(key) by {
        let i = choose|i: int|
            0 <= i < registry.peers.len() && (#[trigger] registry.peers[i]).public_key == key;
        assert(after.peers[i].public_key == key);
    }
    assert forall|i: int| 0 <= i < infos.len() implies after.holds(
        (#[trigger] infos[i]).public_key,
    ) by {
        assert(after.peers[registry.peers.len() + i].public_key == infos[i].public_key);
    }
    law_nobody_is_left_to_dial(registry, after, gossiped);
}

/// The first of several newcomers with different keys all join, in their order,
/// and the next one is still a newcomer.
proof fn lemma_newcomers_all_join(
    registry: RegistryView,
    infos: Seq<PeerInfoView>,
    inbound: Seq<bool>,
    count: int,
)
    requires
        0 <= count <= infos.len(),
        forall|i: int|
            0 <= i < infos.len() ==> wanted(registry, (#[trigger] infos[i]).public_key),
        forall|i: int, j: int|
            0 <= i < j < infos.len() ==> (#[trigger] infos[i]).public_key != (
            #[trigger] infos[j]).public_key,
    ensures
        admitted_all(registry, infos.take(count), inbound) == (RegistryView {
            peers: registry.peers + infos.take(count).map_values(
                |info: PeerInfoView| peer_of(info),
            ),
            ..registry
        }),
        count < infos.len() ==> admission(
            admitted_all(registry, infos.take(count), inbound),
            peer_of(infos[count]),
            inbound[count],
        ) is Admitted,
    decreases count,
{
    let first = infos.take(count);
    let whole = admitted_all(registry, first, inbound);
    let joined = registry.peers + first.map_values(|info: PeerInfoView| peer_of(info));
    if count == 0 {
        assert(joined =~= registry.peers);
    } else {
        lemma_newcomers_all_join(registry, infos, inbound, count - 1);
        assert(first.drop_last() =~= infos.take(count - 1));
        assert((registry.peers + infos.take(count - 1).map_values(
            |info: PeerInfoView| peer_of(info),
        )).push(peer_of(infos[count - 1])) =~= joined);
    }
    if count < infos.len() {
        let key = infos[count].public_key;
        assert(wanted(registry, key));
        if whole.holds(key) {
            let i = choose|i: int|
                0 <= i < joined.len() && (#[trigger] joined[i]).public_key == key;
            if i < registry.peers.len() {
                assert(registry.peers[i].public_key == key);
            } else {
                assert(first[i - registry.peers.len()] == infos[i - registry.peers.len()]);
                assert(infos[i - registry.peers.len()].public_key != infos[count].public_key);
            }
        }
    }
}

/// Whether two characters are the same but for the case of an ASCII letter.
pub open spec fn same_but_for_case(a: char, b: char) -> bool {
    ||| a == b
    ||| 'A' <= a && a <= 'Z' && b as int == a as int + 32
    ||| 'A' <= b && b <= 'Z' && a as int == b as int + 32
}

/// Two ASCII names are one name exactly when, white space around them aside, they
/// are equally long and agree in every character but for its case.
pub proof fn law_different_names_are_told_apart(
    a_before: Seq<char>,
    a: Seq<char>,
    a_after: Seq<char>,
    b_before: Seq<char>,
    b: Seq<char>,
    b_after: Seq<char>,
)
    requires
        text::blank(a_before),
        text::blank(a_after),
        text::blank(b_before),
        text::blank(b_after),
        a.len() > 0 ==> !text::white_space(a[0]) && !text::white_space(a[a.len() - 1]),
        b.len() > 0 ==> !text::white_space(b[0]) && !text::white_space(b[b.len() - 1]),
        is_ascii_chars(a),
        is_ascii_chars(b),
    ensures
        same_name(a_before + a + a_after, b_before + b + b_after) <==> {
            &&& a.len() == b.len()
            &&& forall|i: int|
                0 <= i < a.len() ==> {
                    ||| #[trigger] a[i] == b[i]
                    ||| 'A' <= a[i] && a[i] <= 'Z' && b[i] as int == a[i] as int + 32
                    ||| 'A' <= b[i] && b[i] <= 'Z' && a[i] as int == b[i] as int + 32
                }
        },
{
    text::law_trimming_leaves_what_is_between(a_before, a, a_after);
    text::law_trimming_leaves_what_is_between(b_before, b, b_after);
    let low = |c: char| text::ascii_lower(c);
    let (x, y) = (a.map_values(low), b.map_values(low));
    if x == y {
        assert(x.len() == y.len());
        assert forall|i: int| 0 <= i < a.len() implies same_but_for_case(#[trigger] a[i], b[i]) by {
            assert(x[i] == y[i]);
        }
    }
    if a.len() == b.len() && forall|i: int|
        0 <= i < a.len() ==> same_but_for_case(#[trigger] a[i], b[i]) {
        assert forall|i: int| 0 <= i < x.len() implies x[i] == y[i] by {
            assert(same_but_for_case(a[i], b[i]));
        }
        assert(x =~= y);
    }
}

/// Any two names are one name exactly when what is left of them without the white
/// space around them is the same in lower case.
pub proof fn law_names_are_compared_in_lower_case(
    a_before: Seq<char>,
    a: Seq<char>,
    a_after: Seq<char>,
    b_before: Seq<char>,
    b: Seq<char>,
    b_after: Seq<char>,
)
    requires
        text::blank(a_before),
        text::blank(a_after),
        text::blank(b_before),
        text::blank(b_after),
        a.len() > 0 ==> !text::white_space(a[0]) && !text::white_space(a[a.len() - 1]),
        b.len() > 0 ==> !text::white_space(b[0]) && !text::white_space(b[b.len() - 1]),
    ensures
        same_name(a_before + a + a_after, b_before + b + b_after) <==> text::lowercase(a)
            == text::lowercase(b),
{
    text::law_trimming_leaves_what_is_between(a_before, a, a_after);
    text::law_trimming_leaves_what_is_between(b_before, b, b_after);
}

/// A peer and what we tell others about it have one name, one key and one address,
/// and the fingerprint is the key's.
pub proof fn law_a_peer_is_what_its_info_says(info: PeerInfoView, peer: PeerView)
    ensures
        peer_of(info).name == info.name,
        peer_of(info).public_key == info.public_key,
        peer_of(info).listen_addr == info.listen_addr,
        peer_of(info).fingerprint == crypto::fingerprint_text(info.public_key),
        info_of(peer).name == peer.name,
        info_of(peer).public_key == peer.public_key,
        info_of(peer).listen_addr == peer.listen_addr,
{
}

/// Of two connections to one peer the one that the owner of the smaller key dialled
/// wins, byte by byte from the front.
pub proof fn law_the_smaller_key_wins(me: Seq<u8>, them: Seq<u8>, i: int)
    requires
        0 <= i < me.len(),
        i < them.len(),
        me.take(i) == them.take(i),
        me[i] != them[i],
    ensures
        wins(me, them, false) <==> me[i] < them[i],
        wins(me, them, true) <==> them[i] < me[i],
{
    bytes::law_the_first_difference_decides(me, them, i);
    bytes::law_the_first_difference_decides(them, me, i);
}

/// A namesake is the first peer whose name reads like the one given.
pub proof fn law_the_first_namesake_is_found(peers: Seq<PeerView>, name: Seq<char>, at: int)
    requires
        0 <= at < peers.len(),
        same_name(peers[at].name, name),
        forall|i: int| 0 <= i < at ==> !same_name((#[trigger] peers[i]).name, name),
    ensures
        namesake(peers, name) == Some(peers[at]),
    decreases at,
{
    if at > 0 {
        let rest = peers.drop_first();
        assert(!same_name(peers[0].name, name));
        assert forall|i: int| 0 <= i < at - 1 implies !same_name((#[trigger] rest[i]).name, name) by {
            assert(rest[i] == peers[i + 1]);
        }
        law_the_first_namesake_is_found(rest, name, at - 1);
    }
}

/// What is reported of a newcomer's name: nothing where no name here reads like it,
/// the clash with us where ours does, and else the fingerprint of the first peer
/// whose name does.
pub proof fn law_which_clash_is_reported(registry: RegistryView, name: Seq<char>)
    ensures
        clash(registry, name) is None <==> !same_name(registry.my_name, name) && forall|i: int|
            0 <= i < registry.peers.len() ==> !same_name((#[trigger] registry.peers[i]).name, name),
        clash(registry, name) == Some(NameClashView::WithYou) <==> same_name(
            registry.my_name,
            name,
        ),
        clash(registry, name) matches Some(NameClashView::WithPeer { fingerprint }) ==> exists|
            i: int,
        |
            0 <= i < registry.peers.len() && same_name((#[trigger] registry.peers[i]).name, name)
                && registry.peers[i].fingerprint == fingerprint && forall|j: int|
                0 <= j < i ==> !same_name((#[trigger] registry.peers[j]).name, name),
{
    let all = registry.peers;
    law_namesakes_are_reported(all, name);
    if namesake(all, name) is Some {
        let peer = namesake(all, name)->0;
        let k = choose|k: int| 0 <= k < all.len() && all[k] == peer;
        assert(same_name(all[k].name, name));
        let at = lemma_first_match(all, name, k);
        law_the_first_namesake_is_found(all, name, at);
    }
}

proof fn lemma_first_match(peers: Seq<PeerView>, name: Seq<char>, k: int) -> (at: int)
    requires
        0 <= k < peers.len(),
        same_name(peers[k].name, name),
    ensures
        0 <= at <= k,
        same_name(peers[at].name, name),
        forall|j: int| 0 <= j < at ==> !same_name((#[trigger] peers[j]).name, name),
    decreases k,
{
    if exists|j: int| 0 <= j < k && same_name((#[trigger] peers[j]).name, name) {
        let j = choose|j: int| 0 <= j < k && same_name((#[trigger] peers[j]).name, name);
        lemma_first_match(peers, name, j)
    } else {
        k
    }
}

/// A connection is turned away as our own exactly when the peer has our key, taken
/// for a newcomer exactly when nobody here has the peer's key, and else it takes the
/// place of the earlier one or is turned away as a duplicate, by the tiebreak.
pub proof fn law_what_becomes_of_a_connection(registry: RegistryView, peer: PeerView, inbound: bool)
    ensures
        admission(registry, peer, inbound) == AdmissionView::Rejected(Rejection::SelfConnection)
            <==> peer.public_key == registry.me,
        admission(registry, peer, inbound) is Admitted <==> peer.public_key != registry.me && forall|
            i: int,
        |
            0 <= i < registry.peers.len() ==> (#[trigger] registry.peers[i]).public_key
                != peer.public_key,
        admission(registry, peer, inbound) matches AdmissionView::Admitted { name_conflict }
            ==> name_conflict == clash(registry, peer.name),
        admission(registry, peer, inbound) is Superseded ==> wins(
            registry.me,
            peer.public_key,
            inbound,
        ),
        admission(registry, peer, inbound) == AdmissionView::Rejected(
            Rejection::DuplicateConnection,
        ) ==> !wins(registry.me, peer.public_key, inbound),
{
    if registry.holds(peer.public_key) {
        let i = choose|i: int|
            0 <= i < registry.peers.len() && (#[trigger] registry.peers[i]).public_key
                == peer.public_key;
        assert(registry.peers[i].public_key == peer.public_key);
    }
}

/// What a connection changes: a newcomer is put behind everyone else, one who takes
/// the place of an earlier connection is put where that was, one who is turned away
/// changes nothing, and who we are never changes.
pub proof fn law_what_a_connection_changes(
    registry: RegistryView,
    peer: PeerView,
    inbound: bool,
    i: int,
)
    ensures
        admitted(registry, peer, inbound).me == registry.me,
        admitted(registry, peer, inbound).my_name == registry.my_name,
        admission(registry, peer, inbound) is Rejected ==> admitted(registry, peer, inbound).peers
            == registry.peers,
        admission(registry, peer, inbound) is Admitted ==> admitted(registry, peer, inbound).peers
            == registry.peers.push(peer),
        admission(registry, peer, inbound) is Superseded ==> admitted(
            registry,
            peer,
            inbound,
        ).peers.len() == registry.peers.len(),
        admission(registry, peer, inbound) is Superseded && 0 <= i < registry.peers.len()
            && registry.peers[i].public_key == peer.public_key ==> admitted(
            registry,
            peer,
            inbound,
        ).peers[i] == peer,
        admission(registry, peer, inbound) is Superseded && 0 <= i < registry.peers.len()
            && registry.peers[i].public_key != peer.public_key ==> admitted(
            registry,
            peer,
            inbound,
        ).peers[i] == registry.peers[i],
{
}

/// Forgetting the peer with a key takes that one entry out and leaves every other
/// where it was; forgetting one who is not here changes nothing.
pub proof fn law_what_forgetting_changes(registry: RegistryView, key: Seq<u8>, at: int)
    requires
        registry.valid(),
    ensures
        removed(registry, key).me == registry.me,
        removed(registry, key).my_name == registry.my_name,
        0 <= at < registry.peers.len() && registry.peers[at].public_key == key ==> removed(
            registry,
            key,
        ).peers == registry.peers.remove(at),
        (forall|i: int|
            0 <= i < registry.peers.len() ==> (#[trigger] registry.peers[i]).public_key != key)
            ==> removed(registry, key).peers == registry.peers,
{
    let all = registry.peers;
    if 0 <= at < all.len() && all[at].public_key == key {
        assert forall|i: int| 0 <= i < all.len() && i != at implies (#[trigger] all[i]).public_key
            != all[at].public_key by {
            if i < at {
                assert(all[i].public_key != all[at].public_key);
            } else {
                assert(all[at].public_key != all[i].public_key);
            }
        }
        lemma_filter_one(all, at);
    }
    if forall|i: int| 0 <= i < all.len() ==> (#[trigger] all[i]).public_key != key {
        lemma_filter_none(all, key);
    }
}

/// One more entry on a gossiped list is one more to dial, put behind the others,
/// exactly when its key is neither ours, nor that of anyone here, nor that of an
/// earlier entry; of an empty list nobody is dialled.
pub proof fn law_one_more_entry(
    registry: RegistryView,
    gossiped: Seq<PeerInfoView>,
    info: PeerInfoView,
)
    ensures
        undialed(registry, Seq::<PeerInfoView>::empty()) == Seq::<PeerInfoView>::empty(),
        undialed(registry, gossiped.push(info)) == (if info.public_key != registry.me && (forall|
            i: int,
        |
            0 <= i < registry.peers.len() ==> (#[trigger] registry.peers[i]).public_key
                != info.public_key) && (forall|i: int|
            0 <= i < gossiped.len() ==> (#[trigger] gossiped[i]).public_key != info.public_key) {
            undialed(registry, gossiped).push(info)
        } else {
            undialed(registry, gossiped)
        }),
{
    let earlier = undialed(registry, gossiped);
    let key = info.public_key;
    assert(gossiped.push(info).drop_last() =~= gossiped);
    law_dialing_covers_exactly_the_missing(registry, gossiped);
    if wanted(registry, key) {
        if lists_key(earlier, key) {
            let i = choose|i: int| 0 <= i < earlier.len() && (#[trigger] earlier[i]).public_key == key;
            assert(gossiped.contains(earlier[i]));
            let k = choose|k: int| 0 <= k < gossiped.len() && gossiped[k] == earlier[i];
            assert(gossiped[k].public_key == key);
        } else {
            assert forall|i: int| 0 <= i < gossiped.len() implies (#[trigger] gossiped[i]).public_key
                != key by {
                if gossiped[i].public_key == key {
                    assert(lists_key(earlier, gossiped[i].public_key));
                }
            }
            assert forall|i: int| 0 <= i < registry.peers.len() implies (
            #[trigger] registry.peers[i]).public_key != key by {}
        }
    } else if key != registry.me {
        let i = choose|i: int|
            0 <= i < registry.peers.len() && (#[trigger] registry.peers[i]).public_key == key;
        assert(registry.peers[i].public_key == key);
    }
}

/// Several peers are seen one for one and in their order.
pub proof fn law_peers_are_seen_one_for_one(peers: Seq<Peer>, i: int)
    ensures
        peer_views(peers).len() == peers.len(),
        0 <= i < peers.len() ==> peer_views(peers)[i].name == peers[i].name@,
        0 <= i < peers.len() ==> peer_views(peers)[i].public_key == peers[i].public_key@,
        0 <= i < peers.len() ==> peer_views(peers)[i].listen_addr == peers[i].listen_addr@,
        0 <= i < peers.len() ==> peer_views(peers)[i].fingerprint == peers[i].fingerprint@,
{
}

} // verus!
