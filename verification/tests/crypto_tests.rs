use chacha20poly1305::aead::{Aead, Payload};
use chacha20poly1305::{ChaCha20Poly1305, Key, KeyInit, Nonce, XChaCha20Poly1305, XNonce};
use ee2e_chat::crypto::{self, CryptoError};
use sha2::{Digest, Sha256};
use x25519_dalek::{PublicKey, StaticSecret};

#[test]
fn the_recipient_reads_what_the_sender_sealed() {
    let (alice, bob) = (crypto::generate_keypair(), crypto::generate_keypair());
    let (ciphertext, nonce) =
        crypto::seal(b"hello", &bob.public_key, &alice.secret_key).unwrap();
    assert_eq!(ciphertext.len(), 5 + crypto::TAG_LEN);
    assert_eq!(
        crypto::open(&ciphertext, &nonce, &bob.secret_key, &alice.public_key),
        Ok(b"hello".to_vec())
    );
}

/// Both directions of a pair share a key, so only the sender's public key in the
/// associated data keeps a message from being reflected at its author.
#[test]
fn a_message_cannot_be_reflected() {
    let (alice, bob) = (crypto::generate_keypair(), crypto::generate_keypair());
    let (ciphertext, nonce) =
        crypto::seal(b"hello", &bob.public_key, &alice.secret_key).unwrap();
    assert_eq!(
        crypto::open(&ciphertext, &nonce, &alice.secret_key, &bob.public_key),
        Err(CryptoError::Undecryptable)
    );
}

#[test]
fn nobody_else_opens_it_and_nothing_may_change() {
    let (alice, bob, mallory) = (
        crypto::generate_keypair(),
        crypto::generate_keypair(),
        crypto::generate_keypair(),
    );
    let (ciphertext, nonce) =
        crypto::seal(b"hello", &bob.public_key, &alice.secret_key).unwrap();
    assert!(crypto::open(&ciphertext, &nonce, &mallory.secret_key, &alice.public_key).is_err());
    assert!(crypto::open(&ciphertext, &nonce, &bob.secret_key, &mallory.public_key).is_err());
    for index in 0..ciphertext.len() {
        let mut tampered = ciphertext.clone();
        tampered[index] ^= 1;
        assert!(crypto::open(&tampered, &nonce, &bob.secret_key, &alice.public_key).is_err());
    }
    let mut other = nonce;
    other[0] ^= 1;
    assert!(crypto::open(&ciphertext, &other, &bob.secret_key, &alice.public_key).is_err());
}

#[test]
fn sealing_is_the_cipher_under_the_hashed_shared_secret() {
    let alice = crypto::keypair_of(&[1; 32]);
    let bob = crypto::keypair_of(&[2; 32]);
    let nonce = [3u8; 24];
    let sealed =
        crypto::seal_with_nonce(b"exact", &nonce, &bob.public_key, &alice.secret_key).unwrap();

    let bobs = PublicKey::from(&StaticSecret::from([2; 32]));
    let shared = StaticSecret::from([1; 32]).diffie_hellman(&bobs);
    let key = Sha256::digest(shared.as_bytes());
    let expected = XChaCha20Poly1305::new(Key::from_slice(&key))
        .encrypt(
            XNonce::from_slice(&nonce),
            Payload {
                msg: b"exact",
                aad: &alice.public_key,
            },
        )
        .unwrap();
    assert_eq!(sealed, expected);
}

#[test]
fn an_anonymous_message_starts_with_the_throwaway_key() {
    let bob = crypto::keypair_of(&[2; 32]);
    let sealed = crypto::seal_anonymous_with(b"exact", &[1; 32], &[3; 12], &bob.public_key);
    let throwaway = StaticSecret::from([1; 32]);
    assert_eq!(&sealed[..32], PublicKey::from(&throwaway).as_bytes());

    let shared = throwaway.diffie_hellman(&PublicKey::from(&StaticSecret::from([2; 32])));
    let expected = ChaCha20Poly1305::new(Key::from_slice(shared.as_bytes()))
        .encrypt(Nonce::from_slice(&[3; 12]), b"exact".as_slice())
        .unwrap();
    assert_eq!(&sealed[32..], expected.as_slice());
    assert_eq!(
        crypto::open_anonymous(&sealed, &[3; 12], &bob.secret_key),
        Ok(b"exact".to_vec())
    );
}

#[test]
fn each_error_has_its_cause() {
    let pair = crypto::keypair_of(&[1; 32]);
    assert_eq!(
        crypto::seal(b"", &[0; 31], &pair.secret_key),
        Err(CryptoError::InvalidPublicKey)
    );
    assert_eq!(
        crypto::seal(b"", &pair.public_key, &[0; 33]),
        Err(CryptoError::InvalidSecretKey)
    );
    assert_eq!(
        crypto::open(&[0; 64], &[0; 24], &[], &pair.public_key),
        Err(CryptoError::InvalidSecretKey)
    );
    assert_eq!(
        crypto::open(&[0; 64], &[0; 24], &pair.secret_key, &[]),
        Err(CryptoError::InvalidPublicKey)
    );
    assert_eq!(
        crypto::open(&[], &[0; 24], &pair.secret_key, &pair.public_key),
        Err(CryptoError::Undecryptable)
    );
    assert_eq!(
        crypto::open_anonymous(&[0; 31], &[0; 12], &pair.secret_key),
        Err(CryptoError::TooShort)
    );
    assert_eq!(
        crypto::open_anonymous(&[0; 32], &[0; 12], &[1]),
        Err(CryptoError::InvalidSecretKey)
    );
    assert_eq!(
        crypto::open_anonymous(&[9; 64], &[0; 12], &pair.secret_key),
        Err(CryptoError::Undecryptable)
    );
    assert_eq!(crypto::public_key_for(&[0; 5]), Err(CryptoError::InvalidSecretKey));

    assert_eq!(CryptoError::TooShort.message(), "Ciphertext too short");
    assert_eq!(CryptoError::InvalidSecretKey.message(), "Invalid secret key length");
    assert_eq!(CryptoError::InvalidPublicKey.message(), "Invalid public key length");
    assert_eq!(CryptoError::Undecryptable.message(), "Decryption failed: Error");
    assert_eq!(CryptoError::TooLong.message(), "Encryption failed");
}

#[test]
fn fingerprints_are_stable_and_tell_keys_apart() {
    let shown = crypto::fingerprint(&[7; 32]);
    assert_eq!(shown, crypto::fingerprint(&[7; 32]));
    assert_ne!(shown, crypto::fingerprint(&[8; 32]));

    let mut data = b"ee2e-chat v1 fingerprint".to_vec();
    data.extend_from_slice(&[7; 32]);
    let d = Sha256::digest(&data);
    assert_eq!(
        shown,
        format!(
            "{:02X}{:02X}-{:02X}{:02X}-{:02X}{:02X}-{:02X}{:02X}",
            d[0], d[1], d[2], d[3], d[4], d[5], d[6], d[7]
        )
    );
}

#[test]
fn a_key_pair_belongs_together() {
    let pair = crypto::generate_keypair();
    assert_eq!(crypto::public_key_for(&pair.secret_key), Ok(pair.public_key.clone()));
    let copy = pair.clone();
    assert_eq!(copy.secret_key, pair.secret_key);
    assert_eq!(copy.public_key, pair.public_key);
    assert_ne!(crypto::generate_keypair().secret_key, pair.secret_key);
}
