use ee2e_chat::identity::IdentityError;
use ee2e_chat::room::{self, RoomCode, RoomError};
use ee2e_chat::secretfile::{self, FoundFile};
use hmac::{Hmac, Mac};
use sha2::{Digest, Sha256};

fn pk(byte: u8) -> Vec<u8> {
    vec![byte; 32]
}

#[test]
fn test_a_code_survives_being_written_down_and_typed_back() {
    let code = RoomCode::generate();
    let shown = code.display();

    assert!(RoomCode::parse(&shown).unwrap() == code);
}

#[test]
fn test_codes_are_not_repeated() {
    let mut seen = std::collections::HashSet::new();
    for _ in 0..200 {
        assert!(
            seen.insert(RoomCode::generate().display()),
            "generated the same code twice"
        );
    }
}

/// Read off a phone call or pasted from a chat message, so it has to survive
/// the mangling that implies.
#[test]
fn test_parsing_forgives_how_people_actually_type_it() {
    let code = RoomCode::generate();
    let shown = code.display();
    let bare = shown.trim_start_matches("TIO-").replace('-', "");

    let variants = [
        shown.clone(),
        shown.to_lowercase(),
        shown.replace('-', ""),
        shown.replace('-', " "),
        format!("  {shown}  "),
        bare.clone(),
        bare.to_lowercase(),
    ];

    for variant in variants {
        assert!(
            RoomCode::parse(&variant).unwrap() == code,
            "should have parsed {variant:?}"
        );
    }
}

/// Crockford leaves these out of the alphabet precisely so they can be folded
/// onto the digits they resemble.
#[test]
fn test_lookalike_characters_are_folded() {
    let code = RoomCode::parse("TIO-1111-1111-1111-1111").unwrap();
    assert!(RoomCode::parse("TIO-IIII-LLLL-1111-1111").unwrap() == code);

    let zeros = RoomCode::parse("TIO-0000-0000-0000-0000").unwrap();
    assert!(RoomCode::parse("TIO-OOOO-0000-0000-0000").unwrap() == zeros);
}

#[test]
fn test_rubbish_is_rejected() {
    for bad in ["", "TIO-", "hello", "TIO-1111", "TIO-1111-1111-1111-11111", "!!!!-!!!!-!!!!-!!!!"] {
        assert!(
            matches!(RoomCode::parse(bad), Err(RoomError::Malformed(_))),
            "should have rejected {bad:?}"
        );
    }
}

/// A code in a log or a screenshot is a room anyone can join.
#[test]
fn test_debug_does_not_print_the_code() {
    let code = RoomCode::generate();
    let rendered = code.debug_text();

    assert!(!rendered.contains(&code.display()), "got: {rendered}");
    assert!(rendered.contains("redacted"), "got: {rendered}");
}

// ---------------------------------------------------------------------------
// Admission proofs
// ---------------------------------------------------------------------------

#[test]
fn test_two_holders_of_the_same_code_accept_each_other() {
    let code = RoomCode::generate();
    let (a_nonce, b_nonce) = (room::new_nonce(), room::new_nonce());

    let a_proof = code.make_proof(&pk(1), &a_nonce, &pk(2), &b_nonce);
    let b_proof = code.make_proof(&pk(2), &b_nonce, &pk(1), &a_nonce);

    // Each checks the other's from the other's point of view.
    assert!(code.verify(&b_proof, &pk(2), &b_nonce, &pk(1), &a_nonce));
    assert!(code.verify(&a_proof, &pk(1), &a_nonce, &pk(2), &b_nonce));
}

/// The point of the whole exercise.
#[test]
fn test_a_different_code_is_refused() {
    let theirs = RoomCode::generate();
    let ours = RoomCode::generate();
    let (a_nonce, b_nonce) = (room::new_nonce(), room::new_nonce());

    let outsider = theirs.make_proof(&pk(1), &a_nonce, &pk(2), &b_nonce);

    assert!(
        !ours.verify(&outsider, &pk(1), &a_nonce, &pk(2), &b_nonce),
        "someone without the code must not get in"
    );
}

/// Echoing a proof straight back at its sender must not work, which is why the
/// two sides order the inputs differently.
#[test]
fn test_a_proof_cannot_be_reflected_at_its_sender() {
    let code = RoomCode::generate();
    let (a_nonce, b_nonce) = (room::new_nonce(), room::new_nonce());

    let a_proof = code.make_proof(&pk(1), &a_nonce, &pk(2), &b_nonce);

    // Alice receives her own proof back, presented as Bob's.
    assert!(
        !code.verify(&a_proof, &pk(2), &b_nonce, &pk(1), &a_nonce),
        "a reflected proof must be refused"
    );
}

/// A proof recorded from one connection must be useless in the next, which is
/// what the per-connection nonces are for.
#[test]
fn test_a_proof_cannot_be_replayed_into_another_connection() {
    let code = RoomCode::generate();
    let (a_nonce, b_nonce) = (room::new_nonce(), room::new_nonce());
    let captured = code.make_proof(&pk(1), &a_nonce, &pk(2), &b_nonce);

    // Same parties, new connection, so new nonces.
    let fresh_b_nonce = room::new_nonce();
    assert!(
        !code.verify(&captured, &pk(1), &a_nonce, &pk(2), &fresh_b_nonce),
        "a captured proof must not open a later connection"
    );
}

/// Bound to the keys as well as the nonces, so it cannot be carried across to a
/// different pair of peers.
#[test]
fn test_a_proof_is_tied_to_the_keys_it_was_made_for() {
    let code = RoomCode::generate();
    let (a_nonce, b_nonce) = (room::new_nonce(), room::new_nonce());
    let proof = code.make_proof(&pk(1), &a_nonce, &pk(2), &b_nonce);

    assert!(!code.verify(&proof, &pk(9), &a_nonce, &pk(2), &b_nonce));
    assert!(!code.verify(&proof, &pk(1), &a_nonce, &pk(9), &b_nonce));
}

#[test]
fn test_flipping_any_bit_of_a_proof_breaks_it() {
    let code = RoomCode::generate();
    let (a_nonce, b_nonce) = (room::new_nonce(), room::new_nonce());
    let proof = code.make_proof(&pk(1), &a_nonce, &pk(2), &b_nonce);

    for index in [0, proof.len() / 2, proof.len() - 1] {
        let mut tampered = proof;
        tampered[index] ^= 0x01;
        assert!(!code.verify(&tampered, &pk(1), &a_nonce, &pk(2), &b_nonce));
    }
}

#[test]
fn test_nonces_are_not_repeated() {
    let mut seen = std::collections::HashSet::new();
    for _ in 0..200 {
        assert!(seen.insert(room::new_nonce()), "nonce repeated");
    }
}

// ---------------------------------------------------------------------------
// Exact values
// ---------------------------------------------------------------------------

#[test]
fn a_code_is_shown_in_five_bit_groups() {
    let zeros = RoomCode::parse("0000000000000000").unwrap();
    assert_eq!(zeros.display(), "TIO-0000-0000-0000-0000");

    let counting = RoomCode::parse("0123-4567-89AB-CDEF").unwrap();
    assert_eq!(counting.display(), "TIO-0123-4567-89AB-CDEF");

    let top = RoomCode::parse("zzzz zzzz zzzz zzzz").unwrap();
    assert_eq!(top.display(), "TIO-ZZZZ-ZZZZ-ZZZZ-ZZZZ");
}

#[test]
fn a_code_is_made_of_its_bytes() {
    let mut bytes = [0u8; 10];
    bytes[9] = 1;
    assert_eq!(RoomCode::of_bytes(bytes).display(), "TIO-0000-0000-0000-0001");
    bytes[0] = 0b0000_1000;
    assert_eq!(RoomCode::of_bytes(bytes).display(), "TIO-1000-0000-0000-0001");
    assert_eq!(RoomCode::of_bytes([255; 10]).display(), "TIO-ZZZZ-ZZZZ-ZZZZ-ZZZZ");
}

#[test]
fn each_refusal_says_why() {
    match RoomCode::parse("TIO-1111") {
        Err(RoomError::Malformed(why)) => assert_eq!(why, "wrong length"),
        Ok(_) => panic!("too short"),
    }
    match RoomCode::parse("TIO-UUUU-1111-1111-1111") {
        Err(e) => {
            assert_eq!(e, RoomError::Malformed("contains a character it should not"));
            assert_eq!(
                e.message(),
                "that is not a room code: contains a character it should not"
            );
        }
        Ok(_) => panic!("U is not in the alphabet"),
    }
    // Sixteen bytes, but not sixteen characters of the alphabet.
    assert!(RoomCode::parse("éééééééé").is_err());
}

#[test]
fn a_prefix_in_mixed_case_is_not_a_prefix() {
    assert!(matches!(
        RoomCode::parse("Tio-1111-1111-1111-1111"),
        Err(RoomError::Malformed("wrong length"))
    ));
}

#[test]
fn separators_may_stand_anywhere() {
    let code = RoomCode::parse("TIO-1234-5678-9ABC-DEFG").unwrap();
    assert!(RoomCode::parse("T I_O\t1-2-3-4-5-6-7-8\n9ABCDEFG\r").unwrap() == code);
}

#[test]
fn a_proof_is_a_mac_over_both_keys_and_nonces() {
    let code = RoomCode::parse("0000-0000-0000-0000").unwrap();
    let (mine, theirs) = ([1u8; 32], [2u8; 32]);
    let made = code.make_proof(&pk(1), &mine, &pk(2), &theirs);

    let mut keyed = b"tio-chat v1 room key".to_vec();
    keyed.extend_from_slice(&[0u8; 10]);
    let key = Sha256::digest(&keyed);
    let mut mac = Hmac::<Sha256>::new_from_slice(&key).unwrap();
    mac.update(b"tio-chat v1 admission");
    mac.update(&pk(1));
    mac.update(&mine);
    mac.update(&pk(2));
    mac.update(&theirs);
    let expected: [u8; 32] = mac.finalize().into_bytes().into();
    assert_eq!(made, expected);
}

#[test]
fn a_copied_code_is_the_same_code() {
    let code = RoomCode::generate();
    assert!(code.clone() == code);
}

// ---------------------------------------------------------------------------
// Storage
// ---------------------------------------------------------------------------

#[test]
fn a_room_is_created_when_there_is_none_and_comes_back() {
    let created = room::load_or_create("/rooms/room", None).unwrap_or_else(|_| panic!("no room"));
    assert!(created.created);
    assert!(created.notes.is_empty());

    let found = FoundFile {
        mode: Some(0o100600),
        text: secretfile::file_text(&created.code.display()),
    };
    let loaded =
        room::load_or_create("/rooms/room", Some(&found)).unwrap_or_else(|_| panic!("no room"));
    assert!(!loaded.created);
    assert!(loaded.code == created.code);
    assert!(loaded.notes.is_empty());
}

#[test]
fn an_exposed_room_file_is_remarked_on() {
    let found = FoundFile {
        mode: Some(0o100644),
        text: "TIO-1111-1111-1111-1111\n".to_string(),
    };
    let loaded =
        room::load_or_create("/rooms/room", Some(&found)).unwrap_or_else(|_| panic!("no room"));
    assert_eq!(
        loaded.notes,
        vec!["/rooms/room was readable by others (mode 644); tightened to 600".to_string()]
    );
}

#[test]
fn a_damaged_room_file_is_an_error() {
    let found = FoundFile {
        mode: None,
        text: "not a code at all".to_string(),
    };
    assert!(matches!(
        room::load_or_create("/rooms/room", Some(&found)),
        Err(RoomError::Malformed(_))
    ));
}

#[test]
fn the_room_lives_beside_the_identity() {
    assert_eq!(
        room::default_path(None, Some(b"/home/sue")),
        Ok(b"/home/sue/.config/ee2e-chat/room".to_vec())
    );
    assert_eq!(
        room::default_path(Some(b"/etc/xdg/"), Some(b"/home/sue")),
        Ok(b"/etc/xdg/ee2e-chat/room".to_vec())
    );
    assert_eq!(room::default_path(Some(b"relative"), None), Err(IdentityError::NoConfigDir));
    assert_eq!(
        room::windows_default_path(Some(br"C:\a")),
        Ok(br"C:\a\ee2e-chat\room".to_vec())
    );
    assert_eq!(room::windows_default_path(None), Err(IdentityError::NoConfigDir));
}
