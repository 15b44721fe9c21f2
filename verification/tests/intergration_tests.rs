#[test]
fn test_message_serialization() {
    let msg = ee2e_chat::messages::Message {
        from: "alice".to_string(),
        content: "hello".to_string(),
        timestamp: 1234567890,
    };
    let json = msg.to_json().unwrap();
    let parsed = ee2e_chat::messages::Message::from_json(&json).unwrap();
    assert_eq!(parsed.from, "alice");
    assert_eq!(parsed.content, "hello");
}
#[test]
fn test_network_message_serialization() {
    let net_msg = ee2e_chat::messages::NetworkMessage {
        from: "alice".to_string(),
        ciphertext: vec![1, 2, 3],
        nonce: [0u8; 12],
    };
    let json = net_msg.to_json().unwrap();
    let parsed = ee2e_chat::messages::NetworkMessage::from_json(&json).unwrap();
    assert_eq!(parsed.from, "alice");
}

#[test]
fn test_keypair_generation() {
    let kp = ee2e_chat::crypto::generate_keypair();
    assert_eq!(kp.public_key.len(), 32);
    assert_eq!(kp.secret_key.len(), 32);
}

#[test]
fn test_encrypt_decrypt_roundtrip() {
    let kp = ee2e_chat::crypto::generate_keypair();
    let plaintext = b"hello world";
    let (ciphertext, nonce) = ee2e_chat::crypto::seal_anonymous(plaintext, &kp.public_key);
    assert!(!ciphertext.is_empty());
    let decrypted = ee2e_chat::crypto::open_anonymous(&ciphertext, &nonce, &kp.secret_key).unwrap();
    assert_eq!(decrypted, plaintext);
}

// The security property that actually matters: a message sealed to Alice must
// not be readable by Bob. A roundtrip test alone would still pass if `seal`
// ignored the recipient key entirely, so this is the test that catches that.
#[test]
fn test_wrong_key_cannot_decrypt() {
    let alice = ee2e_chat::crypto::generate_keypair();
    let bob = ee2e_chat::crypto::generate_keypair();

    let (ciphertext, nonce) = ee2e_chat::crypto::seal_anonymous(b"secret for alice", &alice.public_key);

    assert!(
        ee2e_chat::crypto::open_anonymous(&ciphertext, &nonce, &bob.secret_key).is_err(),
        "Bob must not be able to decrypt a message sealed to Alice"
    );
}

// Poly1305 is an authenticator, not just a checksum: flipping any byte of the
// ciphertext must be detected rather than silently yielding garbage plaintext.
#[test]
fn test_tampered_ciphertext_is_rejected() {
    let kp = ee2e_chat::crypto::generate_keypair();
    let (mut ciphertext, nonce) = ee2e_chat::crypto::seal_anonymous(b"hello world", &kp.public_key);

    let last = ciphertext.len() - 1;
    ciphertext[last] ^= 0x01;

    assert!(
        ee2e_chat::crypto::open_anonymous(&ciphertext, &nonce, &kp.secret_key).is_err(),
        "Tampered ciphertext must fail authentication"
    );
}

#[test]
fn messages_are_written_with_their_members_in_order() {
    let msg = ee2e_chat::messages::Message {
        from: "alice".to_string(),
        content: "he\nllo".to_string(),
        timestamp: 1234567890,
    };
    assert_eq!(
        msg.to_json().unwrap(),
        r#"{"from":"alice","content":"he\nllo","timestamp":1234567890}"#
    );
    assert_eq!(ee2e_chat::messages::Message::from_json(&msg.to_json().unwrap()), Ok(msg.clone()));

    let net = ee2e_chat::messages::NetworkMessage::new("bob".to_string(), vec![7], [1u8; 12]);
    assert_eq!(
        net.to_json().unwrap(),
        r#"{"from":"bob","ciphertext":[7],"nonce":[1,1,1,1,1,1,1,1,1,1,1,1]}"#
    );
    assert_eq!(
        ee2e_chat::messages::NetworkMessage::from_json(&net.to_json().unwrap()),
        Ok(net.clone())
    );
}

#[test]
fn texts_that_say_no_message_are_refused() {
    for bad in [
        r#"{"from":"a","content":"b"}"#,
        r#"{"from":"a","content":"b","timestamp":-1}"#,
        r#"{"from":"a","content":5,"timestamp":1}"#,
        r#"["a","b"]"#,
    ] {
        assert_eq!(
            ee2e_chat::messages::Message::from_json(bad),
            Err("not a message".to_string())
        );
    }
    assert!(ee2e_chat::messages::Message::from_json("{").is_err());
    assert_eq!(
        ee2e_chat::messages::NetworkMessage::from_json(
            r#"{"from":"a","ciphertext":[],"nonce":[1,2,3]}"#
        ),
        Err("not a message".to_string())
    );
}

#[test]
fn a_clock_before_its_epoch_stamps_zero() {
    let unset = ee2e_chat::messages::Message::stamped("a".to_string(), "b".to_string(), None);
    assert_eq!(unset.timestamp, 0);
    let set = ee2e_chat::messages::Message::stamped("a".to_string(), "b".to_string(), Some(17));
    assert_eq!(set.timestamp, 17);
    let now = ee2e_chat::messages::Message::new("a".to_string(), "b".to_string());
    assert_eq!((now.from.as_str(), now.content.as_str()), ("a", "b"));
    assert!(now.timestamp > 1_600_000_000, "the clock should have been read");
}

/// Strangers among the members are stepped over, and the members themselves are
/// given once.
#[test]
fn members_are_given_once_and_strangers_do_not_matter() {
    let read = |more: &str| {
        let text = format!("{{\"from\":\"a\",{more}\"content\":\"b\",\"timestamp\":3}}");
        ee2e_chat::messages::Message::from_json(&text)
    };
    let deep = format!("\"x\":{}{},", "[".repeat(500), "]".repeat(500));
    for more in ["", "\"x\":1e999,", "\"x\":1,\"x\":2,", "\"x\":\"\\udc00\",", &deep] {
        let message = read(more).unwrap_or_else(|why| panic!("{why}"));
        assert_eq!((message.content.as_str(), message.timestamp), ("b", 3));
    }
    for more in ["\"from\":\"a\",", "\"timestamp\":3,", "\"content\":1,"] {
        assert_eq!(read(more), Err("not a message".to_string()));
    }
    // A name has to be text that can be read, also a stranger's.
    assert!(read("\"\\ud800\":1,").is_err());

    let network = "{\"nonce\":[1,2,3,4,5,6,7,8,9,10,11,12],\"ciphertext\":[],\"from\":\"a\"";
    let whole = format!("{network},\"x\":1e999}}");
    assert!(ee2e_chat::messages::NetworkMessage::from_json(&whole).is_ok());
    let twice = format!("{network},\"ciphertext\":[]}}");
    assert!(ee2e_chat::messages::NetworkMessage::from_json(&twice).is_err());
}
