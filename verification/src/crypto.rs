//! Keys, sealed messages and fingerprints.
//!
//! A message is sealed with a key that both ends of a pair derive: X25519
//! between the sender's long-term secret and the recipient's public key, hashed
//! with SHA-256, keys XChaCha20-Poly1305. The sender's public key is
//! authenticated alongside, so a message cannot be reflected at its author.
//!
//! Messages from nobody in particular can be sealed too, with a throwaway key
//! pair whose public half travels in front of the ciphertext.

use crate::bytes;
use crate::hex;
use chacha20poly1305::aead::{Aead, Payload};
use chacha20poly1305::{ChaCha20Poly1305, Key, KeyInit, Nonce, XChaCha20Poly1305, XNonce};
use rand::rngs::OsRng;
use rand::RngCore;
use sha2::{Digest, Sha256};
use vstd::prelude::*;
use vstd::slice::*;
use vstd::string::*;
use vstd::utf8::*;
use x25519_dalek::{PublicKey, StaticSecret};

verus! {

/// The length of every key, public or secret.
pub const KEY_LEN: usize = 32;

/// The length of the nonce of a sealed message. The key of a pair never
/// changes, so random nonces have to be wide enough not to collide.
pub const NONCE_LEN: usize = 24;

/// The length of the nonce of an anonymous message.
pub const ANONYMOUS_NONCE_LEN: usize = 12;

/// The length of the authentication tag that ends every ciphertext.
pub const TAG_LEN: usize = 16;

/// The longest plaintext that can be sealed: what the stream cipher's 32-bit
/// block counter can cover.
pub const MAX_PLAINTEXT: u64 = 274877906816;

/// A long-lived X25519 key pair. The public key is for everyone; the secret key
/// never leaves this process.
pub struct Keypair {
    pub public_key: Vec<u8>,
    pub secret_key: Vec<u8>,
}

/// What goes wrong when sealing and opening.
#[derive(Debug, Clone, Copy, PartialEq, Eq, Structural)]
pub enum CryptoError {
    /// A public key is not 32 bytes long.
    InvalidPublicKey,
    /// A secret key is not 32 bytes long.
    InvalidSecretKey,
    /// The plaintext is longer than the cipher can take.
    TooLong,
    /// The ciphertext is too short to hold what it should.
    TooShort,
    /// The ciphertext was not made with this key, or was tampered with.
    Undecryptable,
}

// ---------------------------------------------------------------------------
// What the outside crates compute
// ---------------------------------------------------------------------------
/// The X25519 public key of a secret key.
pub uninterp spec fn x25519_public(secret: Seq<u8>) -> Seq<u8>;

/// The X25519 shared secret of one's secret key and another's public key.
pub uninterp spec fn x25519_shared(secret: Seq<u8>, public: Seq<u8>) -> Seq<u8>;

/// The SHA-256 digest.
pub uninterp spec fn sha256(data: Seq<u8>) -> Seq<u8>;

/// The XChaCha20-Poly1305 ciphertext, with its tag, of a message.
pub uninterp spec fn xchacha_sealed(
    key: Seq<u8>,
    nonce: Seq<u8>,
    associated: Seq<u8>,
    message: Seq<u8>,
) -> Seq<u8>;

/// The ChaCha20-Poly1305 ciphertext, with its tag, of a message.
pub uninterp spec fn chacha_sealed(key: Seq<u8>, nonce: Seq<u8>, message: Seq<u8>) -> Seq<u8>;

/// `rand`'s `OsRng::fill_bytes`: bytes from the operating system's generator.
/// Nothing is claimed of them. The call panics when the operating system has no
/// randomness to give.
#[verifier::external_body]
pub(crate) fn random_bytes<const N: usize>() -> (random: [u8; N]) {
    let mut random = [0u8; N];
    OsRng.fill_bytes(&mut random);
    random
}

/// `x25519_dalek`'s `StaticSecret::random_from_rng`, on the operating system's
/// generator. Nothing is claimed of the secret. The call panics when the operating
/// system has no randomness to give.
#[verifier::external_body]
fn random_secret() -> (secret: [u8; 32]) {
    StaticSecret::random_from_rng(OsRng).to_bytes()
}

/// `x25519_dalek`'s `PublicKey::from(&StaticSecret)`. Claimed: the public key is
/// a function of the secret key.
#[verifier::external_body]
fn public_of(secret: &[u8; 32]) -> (public: [u8; 32])
    ensures
        public@ == x25519_public(secret@),
{
    PublicKey::from(&StaticSecret::from(*secret)).to_bytes()
}

/// `x25519_dalek`'s `StaticSecret::diffie_hellman`. Claimed: the shared secret is
/// a function of the two keys, and the owner of the other key arrives at the
/// same one from the other side.
#[verifier::external_body]
fn shared_of(secret: &[u8; 32], public: &[u8; 32]) -> (shared: [u8; 32])
    ensures
        shared@ == x25519_shared(secret@, public@),
        forall|other: Seq<u8>|
            other.len() == KEY_LEN && #[trigger] x25519_public(other) == public@ ==> shared@
                == x25519_shared(other, x25519_public(secret@)),
{
    StaticSecret::from(*secret).diffie_hellman(&PublicKey::from(*public)).to_bytes()
}

/// `sha2`'s `Sha256`, fed with `update` and read with `finalize`. Claimed: the
/// digest is a function of the data.
#[verifier::external_body]
pub(crate) fn digest_of(data: &[u8]) -> (digest: [u8; 32])
    ensures
        digest@ == sha256(data@),
{
    let mut hasher = Sha256::new();
    hasher.update(data);
    hasher.finalize().into()
}

/// `chacha20poly1305`'s `XChaCha20Poly1305::encrypt`. Claimed: the ciphertext is
/// a function of key, nonce, associated data and message, it is the tag longer
/// than the message, and no other message gives it. The length limit is the one
/// beyond which the cipher refuses or runs out of keystream.
#[verifier::external_body]
fn xchacha_seal(
    key: &[u8; 32],
    nonce: &[u8; 24],
    associated: &[u8],
    message: &[u8],
) -> (ciphertext: Vec<u8>)
    requires
        message@.len() <= MAX_PLAINTEXT,
    ensures
        ciphertext@ == xchacha_sealed(key@, nonce@, associated@, message@),
        ciphertext@.len() == message@.len() + TAG_LEN,
        forall|other: Seq<u8>|
            other.len() <= MAX_PLAINTEXT && #[trigger] xchacha_sealed(
                key@,
                nonce@,
                associated@,
                other,
            ) == ciphertext@ ==> other == message@,
{
    let payload = Payload { msg: message, aad: associated };
    XChaCha20Poly1305::new(Key::from_slice(key))
        .encrypt(XNonce::from_slice(nonce), payload)
        .expect("the message is within the cipher's limit")
}

/// `chacha20poly1305`'s `XChaCha20Poly1305::decrypt`. Claimed: what comes out is
/// the one message whose encryption under the same key, nonce and associated data
/// is exactly this ciphertext, and nothing comes out where there is no such
/// message.
#[verifier::external_body]
fn xchacha_open(
    key: &[u8; 32],
    nonce: &[u8; 24],
    associated: &[u8],
    ciphertext: &[u8],
) -> (message: Option<Vec<u8>>)
    requires
        ciphertext@.len() <= MAX_PLAINTEXT + TAG_LEN,
    ensures
        match message {
            Some(m) => {
                &&& ciphertext@ == xchacha_sealed(key@, nonce@, associated@, m@)
                &&& ciphertext@.len() == m@.len() + TAG_LEN
                &&& forall|other: Seq<u8>|
                    other.len() <= MAX_PLAINTEXT && #[trigger] xchacha_sealed(
                        key@,
                        nonce@,
                        associated@,
                        other,
                    ) == ciphertext@ ==> other == m@
            },
            None => forall|other: Seq<u8>|
                other.len() <= MAX_PLAINTEXT ==> #[trigger] xchacha_sealed(
                    key@,
                    nonce@,
                    associated@,
                    other,
                ) != ciphertext@,
        },
{
    let payload = Payload { msg: ciphertext, aad: associated };
    XChaCha20Poly1305::new(Key::from_slice(key))
        .decrypt(XNonce::from_slice(nonce), payload)
        .ok()
}

/// `chacha20poly1305`'s `ChaCha20Poly1305::encrypt`, without associated data.
/// Claimed: what is claimed of its sibling with the wide nonce.
#[verifier::external_body]
fn chacha_seal(key: &[u8; 32], nonce: &[u8; 12], message: &[u8]) -> (ciphertext: Vec<u8>)
    requires
        message@.len() <= MAX_PLAINTEXT,
    ensures
        ciphertext@ == chacha_sealed(key@, nonce@, message@),
        ciphertext@.len() == message@.len() + TAG_LEN,
        forall|other: Seq<u8>|
            other.len() <= MAX_PLAINTEXT && #[trigger] chacha_sealed(key@, nonce@, other)
                == ciphertext@ ==> other == message@,
{
    ChaCha20Poly1305::new(Key::from_slice(key))
        .encrypt(Nonce::from_slice(nonce), message)
        .expect("the message is within the cipher's limit")
}

/// `chacha20poly1305`'s `ChaCha20Poly1305::decrypt`, without associated data.
/// Claimed: what is claimed of its sibling with the wide nonce.
#[verifier::external_body]
fn chacha_open(key: &[u8; 32], nonce: &[u8; 12], ciphertext: &[u8]) -> (message: Option<Vec<u8>>)
    requires
        ciphertext@.len() <= MAX_PLAINTEXT + TAG_LEN,
    ensures
        match message {
            Some(m) => {
                &&& ciphertext@ == chacha_sealed(key@, nonce@, m@)
                &&& ciphertext@.len() == m@.len() + TAG_LEN
                &&& forall|other: Seq<u8>|
                    other.len() <= MAX_PLAINTEXT && #[trigger] chacha_sealed(key@, nonce@, other)
                        == ciphertext@ ==> other == m@
            },
            None => forall|other: Seq<u8>|
                other.len() <= MAX_PLAINTEXT ==> #[trigger] chacha_sealed(key@, nonce@, other)
                    != ciphertext@,
        },
{
    ChaCha20Poly1305::new(Key::from_slice(key)).decrypt(Nonce::from_slice(nonce), ciphertext).ok()
}

// ---------------------------------------------------------------------------
// Key pairs
// ---------------------------------------------------------------------------
impl Keypair {
    /// Whether both keys have the right length and the public one belongs to
    /// the secret one.
    pub open spec fn valid(&self) -> bool {
        &&& self.secret_key@.len() == KEY_LEN
        &&& self.public_key@.len() == KEY_LEN
        &&& self.public_key@ == x25519_public(self.secret_key@)
    }

    /// A rendering for logs, which leaves the secret key out.
    pub fn debug_text(&self) -> (text: String)
        ensures
            text@ == "Keypair { public_key: "@ + fingerprint_text(self.public_key@)
                + ", secret_key: <redacted> }"@,
    {
        let mut text = String::from_str("Keypair { public_key: ");
        text.append(fingerprint(self.public_key.as_slice()).as_str());
        text.append(", secret_key: <redacted> }");
        text
    }
}

impl Clone for Keypair {
    fn clone(&self) -> (copy: Self)
        ensures
            copy.public_key@ == self.public_key@,
            copy.secret_key@ == self.secret_key@,
    {
        Keypair { public_key: self.public_key.clone(), secret_key: self.secret_key.clone() }
    }
}

/// The key pair of a secret key.
pub fn keypair_of(secret: &[u8; 32]) -> (pair: Keypair)
    ensures
        pair.valid(),
        pair.secret_key@ == secret@,
{
    let public = public_of(secret);
    Keypair {
        public_key: slice_to_vec(public.as_slice()),
        secret_key: slice_to_vec(secret.as_slice()),
    }
}

/// A fresh key pair.
pub fn generate_keypair() -> (pair: Keypair)
    ensures
        pair.valid(),
{
    let secret = random_secret();
    keypair_of(&secret)
}

/// The public key that belongs to a secret key.
pub fn public_key_for(secret_key: &[u8]) -> (public: Result<Vec<u8>, CryptoError>)
    ensures
        match public {
            Ok(key) => secret_key@.len() == KEY_LEN && key@.len() == KEY_LEN && key@
                == x25519_public(secret_key@),
            Err(e) => secret_key@.len() != KEY_LEN && e == CryptoError::InvalidSecretKey,
        },
{
    match bytes::to_array::<32>(secret_key) {
        Some(secret) => Ok(keypair_of(&secret).public_key),
        None => Err(CryptoError::InvalidSecretKey),
    }
}

// ---------------------------------------------------------------------------
// Sealed messages
// ---------------------------------------------------------------------------
/// The key of a pair of peers, from one's secret key and the other's public key.
pub open spec fn message_key(secret: Seq<u8>, public: Seq<u8>) -> Seq<u8> {
    sha256(x25519_shared(secret, public))
}

/// Why a message cannot be sealed, where it cannot.
pub open spec fn seal_refusal(
    plaintext: Seq<u8>,
    recipient_public_key: Seq<u8>,
    sender_secret_key: Seq<u8>,
) -> Option<CryptoError> {
    if recipient_public_key.len() != KEY_LEN {
        Some(CryptoError::InvalidPublicKey)
    } else if sender_secret_key.len() != KEY_LEN {
        Some(CryptoError::InvalidSecretKey)
    } else if plaintext.len() > MAX_PLAINTEXT {
        Some(CryptoError::TooLong)
    } else {
        None
    }
}

/// The ciphertext of a message: the pair's key, and the sender's public key
/// authenticated with it.
pub open spec fn sealed(
    plaintext: Seq<u8>,
    nonce: Seq<u8>,
    recipient_public_key: Seq<u8>,
    sender_secret_key: Seq<u8>,
) -> Seq<u8> {
    xchacha_sealed(
        message_key(sender_secret_key, recipient_public_key),
        nonce,
        x25519_public(sender_secret_key),
        plaintext,
    )
}

/// Whether a ciphertext is the sealing of that plaintext, for the owner of the
/// secret key and by the owner of the public key.
pub open spec fn seals(
    ciphertext: Seq<u8>,
    nonce: Seq<u8>,
    my_secret_key: Seq<u8>,
    sender_public_key: Seq<u8>,
    plaintext: Seq<u8>,
) -> bool {
    &&& plaintext.len() <= MAX_PLAINTEXT
    &&& ciphertext == xchacha_sealed(
        message_key(my_secret_key, sender_public_key),
        nonce,
        sender_public_key,
        plaintext,
    )
}

/// What opening a ciphertext gives: the plaintext that it is the sealing of.
pub open spec fn opened(
    ciphertext: Seq<u8>,
    nonce: Seq<u8>,
    my_secret_key: Seq<u8>,
    sender_public_key: Seq<u8>,
) -> Result<Seq<u8>, CryptoError> {
    if my_secret_key.len() != KEY_LEN {
        Err(CryptoError::InvalidSecretKey)
    } else if sender_public_key.len() != KEY_LEN {
        Err(CryptoError::InvalidPublicKey)
    } else if ciphertext.len() <= MAX_PLAINTEXT + TAG_LEN && exists|plaintext: Seq<u8>|
        #[trigger] seals(ciphertext, nonce, my_secret_key, sender_public_key, plaintext) {
        Ok(
            choose|plaintext: Seq<u8>| #[trigger]
                seals(ciphertext, nonce, my_secret_key, sender_public_key, plaintext),
        )
    } else {
        Err(CryptoError::Undecryptable)
    }
}

/// Whether everyone who holds the recipient's secret key reads the plaintext
/// out of the ciphertext.
pub open spec fn readable_by_recipient(
    ciphertext: Seq<u8>,
    nonce: Seq<u8>,
    plaintext: Seq<u8>,
    recipient_public_key: Seq<u8>,
    sender_secret_key: Seq<u8>,
) -> bool {
    forall|secret: Seq<u8>|
        secret.len() == KEY_LEN && #[trigger] x25519_public(secret) == recipient_public_key
            ==> opened(ciphertext, nonce, secret, x25519_public(sender_secret_key)) == Ok::<
            Seq<u8>,
            CryptoError,
        >(plaintext)
}

/// Seal a message under a given nonce, for one recipient and from one sender.
///
/// The recipient's secret key and the sender's public key open it again.
pub fn seal_with_nonce(
    plaintext: &[u8],
    nonce: &[u8; 24],
    recipient_public_key: &[u8],
    sender_secret_key: &[u8],
) -> (outcome: Result<Vec<u8>, CryptoError>)
    ensures
        match outcome {
            Ok(ciphertext) => {
                &&& seal_refusal(plaintext@, recipient_public_key@, sender_secret_key@) is None
                &&& ciphertext@ == sealed(
                    plaintext@,
                    nonce@,
                    recipient_public_key@,
                    sender_secret_key@,
                )
                &&& ciphertext@.len() == plaintext@.len() + TAG_LEN
                &&& readable_by_recipient(
                    ciphertext@,
                    nonce@,
                    plaintext@,
                    recipient_public_key@,
                    sender_secret_key@,
                )
            },
            Err(e) => seal_refusal(plaintext@, recipient_public_key@, sender_secret_key@) == Some(
                e,
            ),
        },
{
    let public: [u8; 32] = match bytes::to_array::<32>(recipient_public_key) {
        Some(key) => key,
        None => return Err(CryptoError::InvalidPublicKey),
    };
    let secret: [u8; 32] = match bytes::to_array::<32>(sender_secret_key) {
        Some(key) => key,
        None => return Err(CryptoError::InvalidSecretKey),
    };
    if plaintext.len() as u64 > MAX_PLAINTEXT {
        return Err(CryptoError::TooLong);
    }
    let shared = shared_of(&secret, &public);
    let key = digest_of(shared.as_slice());
    let sender = public_of(&secret);
    let ciphertext = xchacha_seal(&key, nonce, sender.as_slice(), plaintext);
    proof {
        assert forall|other: Seq<u8>|
            other.len() == KEY_LEN && #[trigger] x25519_public(other) == recipient_public_key@
            implies opened(ciphertext@, nonce@, other, x25519_public(sender_secret_key@)) == Ok::<
            Seq<u8>,
            CryptoError,
        >(plaintext@) by {
            assert(x25519_shared(other, x25519_public(secret@)) == shared@);
            assert(sender@.len() == KEY_LEN);
            assert(seals(ciphertext@, nonce@, other, sender@, plaintext@));
            assert forall|p: Seq<u8>|
                #[trigger] seals(ciphertext@, nonce@, other, sender@, p) implies p
                == plaintext@ by {
                assert(xchacha_sealed(key@, nonce@, sender@, p) == ciphertext@);
            }
        }
    }
    Ok(ciphertext)
}

/// Seal a message for one recipient, from one sender, under a fresh nonce.
///
/// Returns the ciphertext and the nonce, both of which opening needs.
pub fn seal(
    plaintext: &[u8],
    recipient_public_key: &[u8],
    sender_secret_key: &[u8],
) -> (outcome: Result<(Vec<u8>, [u8; 24]), CryptoError>)
    ensures
        match outcome {
            Ok((ciphertext, nonce)) => {
                &&& seal_refusal(plaintext@, recipient_public_key@, sender_secret_key@) is None
                &&& ciphertext@ == sealed(
                    plaintext@,
                    nonce@,
                    recipient_public_key@,
                    sender_secret_key@,
                )
                &&& ciphertext@.len() == plaintext@.len() + TAG_LEN
                &&& readable_by_recipient(
                    ciphertext@,
                    nonce@,
                    plaintext@,
                    recipient_public_key@,
                    sender_secret_key@,
                )
            },
            Err(e) => seal_refusal(plaintext@, recipient_public_key@, sender_secret_key@) == Some(
                e,
            ),
        },
{
    let nonce: [u8; 24] = random_bytes::<24>();
    match seal_with_nonce(plaintext, &nonce, recipient_public_key, sender_secret_key) {
        Ok(ciphertext) => Ok((ciphertext, nonce)),
        Err(e) => Err(e),
    }
}

/// Open a message with one's own secret key and its sender's public key.
///
/// What opens is exactly what is a sealing under the pair's key, with this very
/// nonce and the sender's public key authenticated, and the plaintext that it is
/// the sealing of comes out. That a ciphertext which was changed, or one for
/// another key, is no such sealing is left unsaid: the cipher makes it
/// overwhelmingly likely, and nothing makes it certain.
pub fn open(
    ciphertext: &[u8],
    nonce: &[u8; 24],
    my_secret_key: &[u8],
    sender_public_key: &[u8],
) -> (outcome: Result<Vec<u8>, CryptoError>)
    ensures
        match outcome {
            Ok(plaintext) => {
                &&& opened(ciphertext@, nonce@, my_secret_key@, sender_public_key@) == Ok::<
                    Seq<u8>,
                    CryptoError,
                >(plaintext@)
                &&& seals(
                    ciphertext@,
                    nonce@,
                    my_secret_key@,
                    sender_public_key@,
                    plaintext@,
                )
            },
            Err(e) => opened(ciphertext@, nonce@, my_secret_key@, sender_public_key@) == Err::<
                Seq<u8>,
                CryptoError,
            >(e),
        },
{
    let secret: [u8; 32] = match bytes::to_array::<32>(my_secret_key) {
        Some(key) => key,
        None => return Err(CryptoError::InvalidSecretKey),
    };
    let public: [u8; 32] = match bytes::to_array::<32>(sender_public_key) {
        Some(key) => key,
        None => return Err(CryptoError::InvalidPublicKey),
    };
    if ciphertext.len() as u64 > MAX_PLAINTEXT + TAG_LEN as u64 {
        return Err(CryptoError::Undecryptable);
    }
    let shared = shared_of(&secret, &public);
    let key = digest_of(shared.as_slice());
    let outcome = xchacha_open(&key, nonce, public.as_slice(), ciphertext);
    proof {
        if outcome is Some {
            assert(seals(
                ciphertext@,
                nonce@,
                my_secret_key@,
                sender_public_key@,
                outcome->0@,
            ));
        }
        assert forall|p: Seq<u8>|
            #[trigger] seals(ciphertext@, nonce@, my_secret_key@, sender_public_key@, p) implies (
        outcome matches Some(m) && m@ == p) by {
            assert(xchacha_sealed(key@, nonce@, public@, p) == ciphertext@);
        }
    }
    match outcome {
        Some(plaintext) => Ok(plaintext),
        None => Err(CryptoError::Undecryptable),
    }
}

/// A ciphertext that is no sealing under a pair's key, with that nonce and for
/// that sender, opens for nobody who derives that key: neither one sealed for
/// somebody else nor one that was changed on the way.
pub proof fn law_what_is_no_sealing_does_not_open(
    ciphertext: Seq<u8>,
    nonce: Seq<u8>,
    my_secret_key: Seq<u8>,
    sender_public_key: Seq<u8>,
)
    requires
        my_secret_key.len() == KEY_LEN,
        sender_public_key.len() == KEY_LEN,
        forall|plaintext: Seq<u8>|
            !#[trigger] seals(ciphertext, nonce, my_secret_key, sender_public_key, plaintext),
    ensures
        opened(ciphertext, nonce, my_secret_key, sender_public_key) == Err::<Seq<u8>, CryptoError>(
            CryptoError::Undecryptable,
        ),
{
}

/// A ciphertext that was changed never opens as the message that was sealed.
pub proof fn law_a_changed_ciphertext_is_not_that_message(
    ciphertext: Seq<u8>,
    changed: Seq<u8>,
    nonce: Seq<u8>,
    my_secret_key: Seq<u8>,
    sender_public_key: Seq<u8>,
    plaintext: Seq<u8>,
)
    requires
        seals(ciphertext, nonce, my_secret_key, sender_public_key, plaintext),
        changed != ciphertext,
    ensures
        opened(changed, nonce, my_secret_key, sender_public_key) != Ok::<Seq<u8>, CryptoError>(
            plaintext,
        ),
{
}

// ---------------------------------------------------------------------------
// Messages from nobody in particular
// ---------------------------------------------------------------------------
/// The ciphertext of an anonymous message: the throwaway public key, then the
/// message under the secret shared with the recipient.
pub open spec fn sealed_anonymously(
    plaintext: Seq<u8>,
    throwaway: Seq<u8>,
    nonce: Seq<u8>,
    recipient_public_key: Seq<u8>,
) -> Seq<u8> {
    x25519_public(throwaway) + chacha_sealed(
        x25519_shared(throwaway, recipient_public_key),
        nonce,
        plaintext,
    )
}

/// Whether an anonymous message is the sealing of that plaintext, for the owner of
/// the secret key: the throwaway key in front, then the plaintext under the secret
/// shared with it.
pub open spec fn seals_anonymously(
    ciphertext: Seq<u8>,
    nonce: Seq<u8>,
    my_secret_key: Seq<u8>,
    plaintext: Seq<u8>,
) -> bool {
    &&& plaintext.len() <= MAX_PLAINTEXT
    &&& ciphertext == ciphertext.take(KEY_LEN as int) + chacha_sealed(
        x25519_shared(my_secret_key, ciphertext.take(KEY_LEN as int)),
        nonce,
        plaintext,
    )
}

/// What opening an anonymous message gives: the plaintext that it is the sealing
/// of.
pub open spec fn opened_anonymously(
    ciphertext: Seq<u8>,
    nonce: Seq<u8>,
    my_secret_key: Seq<u8>,
) -> Result<Seq<u8>, CryptoError> {
    if ciphertext.len() < KEY_LEN {
        Err(CryptoError::TooShort)
    } else if my_secret_key.len() != KEY_LEN {
        Err(CryptoError::InvalidSecretKey)
    } else if ciphertext.len() - KEY_LEN <= MAX_PLAINTEXT + TAG_LEN && exists|plaintext: Seq<u8>|
        #[trigger] seals_anonymously(ciphertext, nonce, my_secret_key, plaintext) {
        Ok(
            choose|plaintext: Seq<u8>| #[trigger]
                seals_anonymously(ciphertext, nonce, my_secret_key, plaintext),
        )
    } else {
        Err(CryptoError::Undecryptable)
    }
}

/// Whether everyone who holds the recipient's secret key reads the plaintext
/// out of an anonymous message.
pub open spec fn readable_anonymously(
    ciphertext: Seq<u8>,
    nonce: Seq<u8>,
    plaintext: Seq<u8>,
    recipient_public_key: Seq<u8>,
) -> bool {
    forall|secret: Seq<u8>|
        secret.len() == KEY_LEN && #[trigger] x25519_public(secret) == recipient_public_key
            ==> opened_anonymously(ciphertext, nonce, secret) == Ok::<Seq<u8>, CryptoError>(
            plaintext,
        )
}

proof fn lemma_same_end(front: Seq<u8>, a: Seq<u8>, b: Seq<u8>)
    requires
        front + a == front + b,
    ensures
        a == b,
{
    assert(a =~= (front + a).skip(front.len() as int));
    assert(b =~= (front + b).skip(front.len() as int));
}

/// Seal a message for one recipient with a given throwaway secret and nonce.
pub fn seal_anonymous_with(
    plaintext: &[u8],
    throwaway: &[u8; 32],
    nonce: &[u8; 12],
    recipient_public_key: &[u8],
) -> (ciphertext: Vec<u8>)
    requires
        recipient_public_key@.len() == KEY_LEN,
        plaintext@.len() <= MAX_PLAINTEXT,
    ensures
        ciphertext@ == sealed_anonymously(
            plaintext@,
            throwaway@,
            nonce@,
            recipient_public_key@,
        ),
        readable_anonymously(ciphertext@, nonce@, plaintext@, recipient_public_key@),
{
    let mut public: [u8; 32] = [0u8; 32];
    if let Some(key) = bytes::to_array::<32>(recipient_public_key) {
        public = key;
    }
    let shared = shared_of(throwaway, &public);
    let front = public_of(throwaway);
    let encrypted = chacha_seal(&shared, nonce, plaintext);
    let ciphertext = bytes::joined(front.as_slice(), encrypted.as_slice());
    proof {
        assert(ciphertext@.take(KEY_LEN as int) =~= front@);
        assert(ciphertext@.skip(KEY_LEN as int) =~= encrypted@);
        assert forall|secret: Seq<u8>|
            secret.len() == KEY_LEN && #[trigger] x25519_public(secret) == recipient_public_key@
            implies opened_anonymously(ciphertext@, nonce@, secret) == Ok::<Seq<u8>, CryptoError>(
            plaintext@,
        ) by {
            assert(x25519_shared(secret, front@) == shared@);
            assert(seals_anonymously(ciphertext@, nonce@, secret, plaintext@));
            assert forall|p: Seq<u8>|
                #[trigger] seals_anonymously(ciphertext@, nonce@, secret, p) implies p
                == plaintext@ by {
                lemma_same_end(front@, encrypted@, chacha_sealed(shared@, nonce@, p));
            }
        }
    }
    ciphertext
}

/// Seal a message so that only the holder of the public key's secret can read
/// it, with a fresh throwaway key pair, so that each message has a shared
/// secret of its own.
pub fn seal_anonymous(plaintext: &[u8], recipient_public_key: &[u8]) -> (outcome: (
    Vec<u8>,
    [u8; 12],
))
    requires
        recipient_public_key@.len() == KEY_LEN,
        plaintext@.len() <= MAX_PLAINTEXT,
    ensures
        exists|throwaway: Seq<u8>|
            throwaway.len() == KEY_LEN && outcome.0@ == #[trigger] sealed_anonymously(
                plaintext@,
                throwaway,
                outcome.1@,
                recipient_public_key@,
            ),
        readable_anonymously(outcome.0@, outcome.1@, plaintext@, recipient_public_key@),
{
    let throwaway = random_secret();
    let nonce: [u8; 12] = random_bytes::<12>();
    let ciphertext = seal_anonymous_with(plaintext, &throwaway, &nonce, recipient_public_key);
    let outcome = (ciphertext, nonce);
    proof {
        let drawn = throwaway@;
        assert(drawn.len() == KEY_LEN && outcome.0@ == sealed_anonymously(
            plaintext@,
            drawn,
            outcome.1@,
            recipient_public_key@,
        ));
    }
    outcome
}

/// Open an anonymous message with one's own secret key.
///
/// What opens is exactly what is a sealing under the secret shared with the
/// throwaway key in front, and the plaintext that it is the sealing of comes out.
/// That a ciphertext which was changed, or one for another key, is no such sealing
/// is left unsaid, as it is for `open`.
pub fn open_anonymous(ciphertext: &[u8], nonce: &[u8; 12], my_secret_key: &[u8]) -> (outcome:
    Result<Vec<u8>, CryptoError>)
    ensures
        match outcome {
            Ok(plaintext) => {
                &&& opened_anonymously(ciphertext@, nonce@, my_secret_key@) == Ok::<
                    Seq<u8>,
                    CryptoError,
                >(plaintext@)
                &&& seals_anonymously(ciphertext@, nonce@, my_secret_key@, plaintext@)
            },
            Err(e) => opened_anonymously(ciphertext@, nonce@, my_secret_key@) == Err::<
                Seq<u8>,
                CryptoError,
            >(e),
        },
{
    if ciphertext.len() < KEY_LEN {
        return Err(CryptoError::TooShort);
    }
    let front = slice_subrange(ciphertext, 0, KEY_LEN);
    let encrypted = slice_subrange(ciphertext, KEY_LEN, ciphertext.len());
    assert(front@ =~= ciphertext@.take(KEY_LEN as int));
    assert(encrypted@ =~= ciphertext@.skip(KEY_LEN as int));
    let throwaway: [u8; 32] = match bytes::to_array::<32>(front) {
        Some(key) => key,
        None => return Err(CryptoError::TooShort),
    };
    let secret: [u8; 32] = match bytes::to_array::<32>(my_secret_key) {
        Some(key) => key,
        None => return Err(CryptoError::InvalidSecretKey),
    };
    if encrypted.len() as u64 > MAX_PLAINTEXT + TAG_LEN as u64 {
        return Err(CryptoError::Undecryptable);
    }
    let shared = shared_of(&secret, &throwaway);
    assert(ciphertext@ =~= front@ + encrypted@);
    let outcome = chacha_open(&shared, nonce, encrypted);
    proof {
        if outcome is Some {
            assert(seals_anonymously(ciphertext@, nonce@, my_secret_key@, outcome->0@));
        }
        assert forall|p: Seq<u8>|
            #[trigger] seals_anonymously(ciphertext@, nonce@, my_secret_key@, p) implies (
        outcome matches Some(m) && m@ == p) by {
            lemma_same_end(front@, encrypted@, chacha_sealed(shared@, nonce@, p));
        }
    }
    match outcome {
        Some(plaintext) => Ok(plaintext),
        None => Err(CryptoError::Undecryptable),
    }
}

/// An anonymous message that is no sealing for a secret key does not open with
/// it: neither one sealed for somebody else nor one that was changed on the way.
pub proof fn law_what_is_no_anonymous_sealing_does_not_open(
    ciphertext: Seq<u8>,
    nonce: Seq<u8>,
    my_secret_key: Seq<u8>,
)
    requires
        ciphertext.len() >= KEY_LEN,
        my_secret_key.len() == KEY_LEN,
        forall|plaintext: Seq<u8>|
            !#[trigger] seals_anonymously(ciphertext, nonce, my_secret_key, plaintext),
    ensures
        opened_anonymously(ciphertext, nonce, my_secret_key) == Err::<Seq<u8>, CryptoError>(
            CryptoError::Undecryptable,
        ),
{
}

/// An anonymous message that was changed behind its throwaway key never opens as
/// the message that was sealed.
pub proof fn law_a_changed_anonymous_message_is_not_that_message(
    ciphertext: Seq<u8>,
    changed: Seq<u8>,
    nonce: Seq<u8>,
    my_secret_key: Seq<u8>,
    plaintext: Seq<u8>,
)
    requires
        seals_anonymously(ciphertext, nonce, my_secret_key, plaintext),
        changed.take(KEY_LEN as int) == ciphertext.take(KEY_LEN as int),
        changed != ciphertext,
    ensures
        opened_anonymously(changed, nonce, my_secret_key) != Ok::<Seq<u8>, CryptoError>(plaintext),
{
}

// ---------------------------------------------------------------------------
// Fingerprints
// ---------------------------------------------------------------------------
/// The digest that a fingerprint is cut from.
pub open spec fn fingerprint_digest(public_key: Seq<u8>) -> Seq<u8> {
    sha256(encode_utf8("ee2e-chat v1 fingerprint"@) + public_key)
}

/// The first eight bytes of the digest in upper case hexadecimal, in four
/// groups of four with dashes between them.
pub open spec fn fingerprint_text(public_key: Seq<u8>) -> Seq<char> {
    Seq::new(
        19,
        |i: int|
            if i % 5 == 4 {
                '-'
            } else {
                hex::upper_digit(hex::nibble(fingerprint_digest(public_key), 4 * (i / 5) + i % 5))
            },
    )
}

/// A short rendering of a public key, for people to compare out of band.
pub fn fingerprint(public_key: &[u8]) -> (text: String)
    ensures
        text@ == fingerprint_text(public_key@),
{
    let data = bytes::joined("ee2e-chat v1 fingerprint".as_bytes(), public_key);
    let digest = digest_of(data.as_slice());
    let mut text = String::new();
    for i in 0..19usize
        invariant
            digest@ == fingerprint_digest(public_key@),
            text@ == fingerprint_text(public_key@).take(i as int),
    {
        if i % 5 == 4 {
            text.push('-');
        } else {
            let k: usize = 4 * (i / 5) + i % 5;
            text.push(hex::upper_digit_char(hex::nibble_at(digest.as_slice(), k)));
        }
        assert(text@ =~= fingerprint_text(public_key@).take(i + 1));
    }
    assert(fingerprint_text(public_key@).take(19) =~= fingerprint_text(public_key@));
    text
}

impl CryptoError {
    /// What the error says.
    pub open spec fn text(&self) -> Seq<char> {
        match self {
            CryptoError::InvalidPublicKey => "Invalid public key length"@,
            CryptoError::InvalidSecretKey => "Invalid secret key length"@,
            CryptoError::TooLong => "Encryption failed"@,
            CryptoError::TooShort => "Ciphertext too short"@,
            CryptoError::Undecryptable => "Decryption failed: Error"@,
        }
    }

    /// The error in words.
    pub fn message(&self) -> (text: String)
        ensures
            text@ == self.text(),
    {
        match self {
            CryptoError::InvalidPublicKey => "Invalid public key length".to_owned(),
            CryptoError::InvalidSecretKey => "Invalid secret key length".to_owned(),
            CryptoError::TooLong => "Encryption failed".to_owned(),
            CryptoError::TooShort => "Ciphertext too short".to_owned(),
            CryptoError::Undecryptable => "Decryption failed: Error".to_owned(),
        }
    }
}

/// A message is sealed by the cipher under the digest of the secret that the sender's
/// secret key and the recipient's public key share, with the sender's public key
/// authenticated beside it.
pub proof fn law_how_a_message_is_sealed(
    plaintext: Seq<u8>,
    nonce: Seq<u8>,
    recipient: Seq<u8>,
    secret: Seq<u8>,
)
    ensures
        sealed(plaintext, nonce, recipient, secret) == xchacha_sealed(
            sha256(x25519_shared(secret, recipient)),
            nonce,
            x25519_public(secret),
            plaintext,
        ),
{
}

/// A message is sealed whenever both keys are thirty-two bytes long and the cipher can
/// take it, and else the first thing that is wrong is named.
pub proof fn law_when_a_message_is_sealed(plaintext: Seq<u8>, recipient: Seq<u8>, secret: Seq<u8>)
    ensures
        recipient.len() != 32 ==> seal_refusal(plaintext, recipient, secret) == Some(
            CryptoError::InvalidPublicKey,
        ),
        recipient.len() == 32 && secret.len() != 32 ==> seal_refusal(plaintext, recipient, secret)
            == Some(CryptoError::InvalidSecretKey),
        recipient.len() == 32 && secret.len() == 32 && plaintext.len() > 274877906816
            ==> seal_refusal(plaintext, recipient, secret) == Some(CryptoError::TooLong),
        recipient.len() == 32 && secret.len() == 32 && plaintext.len() <= 274877906816
            ==> seal_refusal(plaintext, recipient, secret) is None,
{
}

/// What opening gives: a wrong key is named; where the ciphertext is what the cipher
/// makes of a plaintext under the pair's key, with that nonce and the sender's key
/// beside it, such a plaintext comes out; and where it is of none, it is refused.
pub proof fn law_what_opens(
    ciphertext: Seq<u8>,
    nonce: Seq<u8>,
    secret: Seq<u8>,
    sender: Seq<u8>,
    plaintext: Seq<u8>,
)
    ensures
        ({
            let outcome = opened(ciphertext, nonce, secret, sender);
            let key = sha256(x25519_shared(secret, sender));
            &&& secret.len() != 32 ==> outcome == Err::<Seq<u8>, CryptoError>(
                CryptoError::InvalidSecretKey,
            )
            &&& secret.len() == 32 && sender.len() != 32 ==> outcome == Err::<
                Seq<u8>,
                CryptoError,
            >(CryptoError::InvalidPublicKey)
            &&& outcome == Ok::<Seq<u8>, CryptoError>(plaintext) ==> ciphertext == xchacha_sealed(
                key,
                nonce,
                sender,
                plaintext,
            )
            &&& secret.len() == 32 && sender.len() == 32 && plaintext.len() <= 274877906816
                && ciphertext.len() <= 274877906816 + 16 && ciphertext == xchacha_sealed(
                key,
                nonce,
                sender,
                plaintext,
            ) ==> outcome is Ok
            &&& secret.len() == 32 && sender.len() == 32 && outcome is Err ==> outcome == Err::<
                Seq<u8>,
                CryptoError,
            >(CryptoError::Undecryptable)
        }),
{
    if plaintext.len() <= 274877906816 && ciphertext == xchacha_sealed(
        sha256(x25519_shared(secret, sender)),
        nonce,
        sender,
        plaintext,
    ) {
        assert(seals(ciphertext, nonce, secret, sender, plaintext));
    }
    if opened(ciphertext, nonce, secret, sender) is Ok {
        let p = choose|p: Seq<u8>| #[trigger] seals(ciphertext, nonce, secret, sender, p);
        assert(seals(ciphertext, nonce, secret, sender, p));
    }
}

/// An anonymous message is the throwaway public key and behind it what the cipher makes
/// of the plaintext under the secret that the throwaway key and the recipient's share.
pub proof fn law_how_an_anonymous_message_is_sealed(
    plaintext: Seq<u8>,
    throwaway: Seq<u8>,
    nonce: Seq<u8>,
    recipient: Seq<u8>,
)
    ensures
        sealed_anonymously(plaintext, throwaway, nonce, recipient) == x25519_public(throwaway)
            + chacha_sealed(x25519_shared(throwaway, recipient), nonce, plaintext),
{
}

/// What opening an anonymous message gives: one too short for the throwaway key, or a
/// wrong key of ours, is named; where what stands behind the throwaway key is what the
/// cipher makes of a plaintext under the shared secret, such a plaintext comes out; and
/// where it is of none, it is refused.
pub proof fn law_what_opens_anonymously(
    throwaway: Seq<u8>,
    behind: Seq<u8>,
    nonce: Seq<u8>,
    secret: Seq<u8>,
    plaintext: Seq<u8>,
)
    requires
        throwaway.len() == 32,
    ensures
        ({
            let outcome = opened_anonymously(throwaway + behind, nonce, secret);
            let key = x25519_shared(secret, throwaway);
            &&& secret.len() != 32 ==> outcome == Err::<Seq<u8>, CryptoError>(
                CryptoError::InvalidSecretKey,
            )
            &&& outcome == Ok::<Seq<u8>, CryptoError>(plaintext) ==> behind == chacha_sealed(
                key,
                nonce,
                plaintext,
            )
            &&& secret.len() == 32 && plaintext.len() <= 274877906816 && behind.len()
                <= 274877906816 + 16 && behind == chacha_sealed(key, nonce, plaintext)
                ==> outcome is Ok
            &&& secret.len() == 32 && outcome is Err ==> outcome == Err::<Seq<u8>, CryptoError>(
                CryptoError::Undecryptable,
            )
        }),
{
    let ciphertext = throwaway + behind;
    let key = x25519_shared(secret, throwaway);
    assert(ciphertext.take(KEY_LEN as int) =~= throwaway);
    if plaintext.len() <= 274877906816 && behind == chacha_sealed(key, nonce, plaintext) {
        assert(seals_anonymously(ciphertext, nonce, secret, plaintext));
    }
    if opened_anonymously(ciphertext, nonce, secret) is Ok {
        let p = choose|p: Seq<u8>| #[trigger] seals_anonymously(ciphertext, nonce, secret, p);
        assert(seals_anonymously(ciphertext, nonce, secret, p));
        lemma_same_end(throwaway, behind, chacha_sealed(key, nonce, p));
    }
}

/// What is shorter than a key is too short for an anonymous message.
pub proof fn law_what_is_too_short_to_open(
    ciphertext: Seq<u8>,
    nonce: Seq<u8>,
    secret: Seq<u8>,
)
    ensures
        opened_anonymously(ciphertext, nonce, secret) == Err::<Seq<u8>, CryptoError>(
            CryptoError::TooShort,
        ) <==> ciphertext.len() < 32,
{
}

/// A fingerprint is nineteen characters: four groups of four digits in upper case
/// hexadecimal, with dashes between them, that spell out the first eight bytes of the
/// digest of a label and the key, high half first.
pub proof fn law_what_a_fingerprint_says(public_key: Seq<u8>, k: int)
    requires
        0 <= k < 8,
    ensures
        fingerprint_text(public_key).len() == 19,
        fingerprint_text(public_key)[4] == '-',
        fingerprint_text(public_key)[9] == '-',
        fingerprint_text(public_key)[14] == '-',
        ({
            let b = sha256(encode_utf8("ee2e-chat v1 fingerprint"@) + public_key)[k] as int;
            &&& fingerprint_text(public_key)[2 * k + k / 2] == "0123456789ABCDEF"@[b / 16]
            &&& fingerprint_text(public_key)[2 * k + k / 2 + 1] == "0123456789ABCDEF"@[b % 16]
        }),
{
    let digest = fingerprint_digest(public_key);
    let b = digest[k];
    let i = 2 * k + k / 2;
    reveal_strlit("0123456789ABCDEF");
    assert(i % 5 != 4 && (i + 1) % 5 != 4);
    assert(4 * (i / 5) + i % 5 == 2 * k);
    assert(4 * ((i + 1) / 5) + (i + 1) % 5 == 2 * k + 1);
}

/// What each error says.
pub proof fn law_what_each_error_says()
    ensures
        CryptoError::InvalidPublicKey.text() == "Invalid public key length"@,
        CryptoError::InvalidSecretKey.text() == "Invalid secret key length"@,
        CryptoError::TooLong.text() == "Encryption failed"@,
        CryptoError::TooShort.text() == "Ciphertext too short"@,
        CryptoError::Undecryptable.text() == "Decryption failed: Error"@,
{
}

} // verus!
