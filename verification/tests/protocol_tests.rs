use ee2e_chat::protocol::{Frame, PeerInfo, ProtocolError, MAX_FRAME_BYTES};

fn hello() -> Frame {
    Frame::Hello {
        name: "alice".to_string(),
        public_key: vec![7u8; 32],
        listen_addr: "192.168.1.42:9999".to_string(),
    }
}

fn peers() -> Frame {
    Frame::Peers {
        peers: vec![
            PeerInfo {
                name: "bob".to_string(),
                public_key: vec![1u8; 32],
                listen_addr: "192.168.1.43:9999".to_string(),
            },
            PeerInfo {
                name: "carol".to_string(),
                public_key: vec![2u8; 32],
                listen_addr: "192.168.1.44:9999".to_string(),
            },
        ],
    }
}

fn chat() -> Frame {
    Frame::Chat {
        ciphertext: vec![9, 8, 7, 6, 5],
        nonce: [3u8; 24],
    }
}

#[test]
fn test_every_variant_round_trips() {
    for frame in [hello(), peers(), chat()] {
        let line = frame.to_line().unwrap();
        let decoded = Frame::from_line(&line).unwrap();
        assert_eq!(decoded, frame);
    }
}

#[test]
fn test_empty_peers_list_round_trips() {
    let frame = Frame::Peers { peers: vec![] };
    let line = frame.to_line().unwrap();
    assert_eq!(Frame::from_line(&line).unwrap(), frame);
}

// Framing correctness: a frame must occupy exactly one line, so the encoded
// form has to end with a newline and contain no others.
#[test]
fn test_encoded_frame_ends_with_exactly_one_newline() {
    for frame in [hello(), peers(), chat()] {
        let line = frame.to_line().unwrap();
        assert!(line.ends_with('\n'), "frame must be newline-terminated");
        assert_eq!(
            line.matches('\n').count(),
            1,
            "frame must contain no interior newlines"
        );
    }
}

// The attack this defends against: a peer picks a name containing a newline,
// hoping to split one frame into two and inject a forged second frame.
// serde_json escapes the newline as the two characters \ and n, so it never
// reaches the wire raw.
#[test]
fn test_newline_in_a_field_cannot_split_the_frame() {
    let frame = Frame::Hello {
        name: "alice\n{\"type\":\"Chat\"}".to_string(),
        public_key: vec![7u8; 32],
        listen_addr: "127.0.0.1:9999".to_string(),
    };

    let line = frame.to_line().unwrap();
    assert_eq!(
        line.matches('\n').count(),
        1,
        "an embedded newline must not create a second line"
    );
    assert_eq!(Frame::from_line(&line).unwrap(), frame);
}

#[test]
fn test_from_line_accepts_input_with_or_without_the_terminator() {
    let frame = hello();
    let with_newline = frame.to_line().unwrap();
    let without = with_newline.trim_end_matches('\n');

    assert_eq!(Frame::from_line(&with_newline).unwrap(), frame);
    assert_eq!(Frame::from_line(without).unwrap(), frame);
}

// Everything below is input an attacker controls, so it must produce errors
// rather than panics.

#[test]
fn test_malformed_input_errors_without_panicking() {
    let bad_inputs = [
        "",
        "\n",
        "not json at all",
        "{",
        "{}",
        "[1,2,3]",
        "null",
        r#"{"type":"Hello"}"#,                       // missing fields
        r#"{"type":"Nonexistent","x":1}"#,           // unknown variant
        r#"{"type":"Chat","ciphertext":[1],"nonce":[1,2,3]}"#, // nonce wrong length
        r#"{"type":"Hello","name":5,"public_key":[],"listen_addr":""}"#, // wrong type
    ];

    for input in bad_inputs {
        assert!(
            Frame::from_line(input).is_err(),
            "expected an error for input: {input:?}"
        );
    }
}

#[test]
fn test_oversized_line_is_rejected() {
    let oversized = "x".repeat(MAX_FRAME_BYTES + 1);

    match Frame::from_line(&oversized) {
        Err(ProtocolError::TooLarge { size, .. }) => {
            assert_eq!(size, MAX_FRAME_BYTES + 1)
        }
        other => panic!("expected TooLarge, got {other:?}"),
    }
}

// The size guard must trip before the JSON parser runs, otherwise a huge
// payload is fully parsed before being rejected.
#[test]
fn test_oversized_valid_json_is_still_rejected() {
    let huge = Frame::Hello {
        name: "a".repeat(MAX_FRAME_BYTES),
        public_key: vec![0u8; 32],
        listen_addr: "127.0.0.1:1".to_string(),
    };

    assert!(matches!(
        huge.to_line(),
        Err(ProtocolError::TooLarge { .. })
    ));
}

#[test]
fn test_frame_type_is_visible_in_the_encoding() {
    // A self-describing tag keeps the wire format readable while debugging.
    assert!(hello().to_line().unwrap().contains(r#""type":"Hello""#));
    assert!(chat().to_line().unwrap().contains(r#""type":"Chat""#));
}

// ---------------------------------------------------------------------------
// Exact values
// ---------------------------------------------------------------------------

#[test]
fn frames_are_written_with_their_type_first() {
    assert_eq!(
        chat().encode().unwrap(),
        "{\"type\":\"Chat\",\"ciphertext\":[9,8,7,6,5],\"nonce\":\
         [3,3,3,3,3,3,3,3,3,3,3,3,3,3,3,3,3,3,3,3,3,3,3,3]}"
    );
    let one = Frame::Peers {
        peers: vec![PeerInfo {
            name: "b\"o".to_string(),
            public_key: vec![255, 0],
            listen_addr: "é:1".to_string(),
        }],
    };
    assert_eq!(
        one.to_line().unwrap(),
        "{\"type\":\"Peers\",\"peers\":[{\"name\":\"b\\\"o\",\
         \"public_key\":[255,0],\"listen_addr\":\"é:1\"}]}\n"
    );
}

#[test]
fn members_may_come_in_any_order_and_with_strangers_among_them() {
    let line = r#"{"listen_addr":"1:2","extra":[{}],"type":"Hello","public_key":[1],"name":"n"}"#;
    assert_eq!(
        Frame::from_line(line).unwrap(),
        Frame::Hello {
            name: "n".to_string(),
            public_key: vec![1],
            listen_addr: "1:2".to_string(),
        }
    );
}

#[test]
fn a_list_of_values_is_as_good_as_a_record() {
    assert_eq!(
        Frame::from_line(r#"["Hello","n",[1],"1:2"]"#).unwrap(),
        Frame::Hello {
            name: "n".to_string(),
            public_key: vec![1],
            listen_addr: "1:2".to_string(),
        }
    );
    assert_eq!(
        Frame::from_line(r#"{"type":"Peers","peers":[["n",[2],"a"]]}"#).unwrap(),
        Frame::Peers {
            peers: vec![PeerInfo {
                name: "n".to_string(),
                public_key: vec![2],
                listen_addr: "a".to_string(),
            }],
        }
    );
    assert!(Frame::from_line(r#"["Hello","n",[1]]"#).is_err());
    assert!(Frame::from_line(r#"["Hello","n",[1],"1:2",null]"#).is_err());
}

#[test]
fn numbers_that_are_no_bytes_are_refused() {
    for bad in ["256", "-1", "1.0", "1e1", "true", "null", "\"1\""] {
        let line = format!(
            "{{\"type\":\"Hello\",\"name\":\"n\",\"public_key\":[{bad}],\"listen_addr\":\"\"}}"
        );
        assert!(Frame::from_line(&line).is_err(), "{bad}");
    }
}

#[test]
fn the_limit_does_not_count_the_newline() {
    let empty = Frame::Hello {
        name: String::new(),
        public_key: vec![],
        listen_addr: String::new(),
    };
    let room = MAX_FRAME_BYTES - empty.encode().unwrap().len();
    let full = Frame::Hello {
        name: "a".repeat(room),
        public_key: vec![],
        listen_addr: String::new(),
    };
    let line = full.to_line().unwrap();
    assert_eq!(line.len(), MAX_FRAME_BYTES + 1);
    assert_eq!(Frame::from_line(&line).unwrap(), full);

    let over = Frame::Hello {
        name: "a".repeat(room + 1),
        public_key: vec![],
        listen_addr: String::new(),
    };
    match over.to_line() {
        Err(e) => {
            assert_eq!(
                e,
                ProtocolError::TooLarge {
                    size: MAX_FRAME_BYTES + 1,
                    max: MAX_FRAME_BYTES,
                }
            );
            assert_eq!(e.message(), "frame of 65537 bytes exceeds the 65536 byte limit");
        }
        Ok(_) => panic!("one byte over the limit"),
    }
}

#[test]
fn a_malformed_frame_says_so() {
    match Frame::decode("{\"type\":\"Nonsense\"}") {
        Err(e) => assert_eq!(
            e.message(),
            "malformed frame: not a frame that this version understands"
        ),
        Ok(_) => panic!("no such frame"),
    }
    match Frame::decode("{") {
        Err(ProtocolError::Malformed(why)) => assert!(why.contains("EOF"), "got: {why}"),
        other => panic!("expected a complaint, got {other:?}"),
    }
}

#[test]
fn copies_of_frames_are_equal() {
    for frame in [hello(), peers(), chat()] {
        assert_eq!(frame.clone(), frame);
    }
}

fn understood(line: &str) -> bool {
    Frame::decode(line).is_ok()
}

/// A member that is given twice leaves open which of the two is meant. Strangers
/// may come as often as they like.
#[test]
fn a_member_given_twice_is_refused() {
    let key = "\"public_key\":[1,2]";
    let addr = "\"listen_addr\":\"a:1\"";
    let bob = format!("{{\"name\":\"bob\",{key},{addr}}}");
    let twice = format!("{{\"name\":\"bob\",{key},\"name\":\"bob\",{addr}}}");

    let whole = format!("{{\"type\":\"Hello\",\"name\":\"bob\",{key},{addr}}}");
    assert!(understood(&whole));
    for line in [
        format!("{{\"type\":\"Hello\",\"type\":\"Hello\",\"name\":\"bob\",{key},{addr}}}"),
        format!("{{\"type\":\"Hello\",\"name\":\"bob\",{key},{addr},\"name\":\"eve\"}}"),
        format!("{{\"type\":\"Peers\",\"peers\":[],\"peers\":[]}}"),
        format!("{{\"type\":\"Peers\",\"peers\":[{bob},{twice}]}}"),
        format!("[\"Peers\",[{twice}]]"),
    ] {
        assert!(!understood(&line), "{line}");
    }
    assert!(understood(&format!("{{\"type\":\"Peers\",\"x\":1,\"peers\":[{bob}],\"x\":2}}")));
    assert!(understood(&format!("[\"Peers\",[{bob},[\"eve\",[],\"b:2\"]]]")));
}

/// All of a line is parsed, also what no frame asks for.
#[test]
fn strangers_have_to_be_parsable_too() {
    let with = |more: &str| format!("{{\"type\":\"Peers\",\"peers\":[],\"more\":{more}}}");
    assert!(understood(&with("[{\"a\":[null,true,-1.5e3]}]")));
    for more in ["1e999", "\"\\ud800\"", "01", "[1,]", "nul"] {
        assert!(!understood(&with(more)), "{more}");
    }
    assert!(understood(&with(&format!("{}{}", "[".repeat(126), "]".repeat(126)))));
    assert!(!understood(&with(&format!("{}{}", "[".repeat(127), "]".repeat(127)))));
}

#[test]
fn white_space_between_the_parts_does_not_matter() {
    let line = " \t{ \"type\" :\r\"Peers\" , \"peers\" : [ ] } ";
    assert_eq!(Frame::decode(line).unwrap(), Frame::Peers { peers: vec![] });
    for bad in ["{\"type\":\"Peers\",\"peers\":[],}", "{\"type\":\"Peers\" \"peers\":[]}", "{}x", "[]"] {
        assert!(!understood(bad), "{bad}");
    }
}

#[test]
fn complaints_say_where_in_the_line() {
    let said = |line: &str| match Frame::from_line(line) {
        Err(e) => e.message(),
        Ok(_) => panic!("that is no frame"),
    };
    assert_eq!(said("{\n"), "malformed frame: EOF while parsing an object at line 2 column 0");
    assert_eq!(said("{"), "malformed frame: EOF while parsing an object at line 1 column 1");
}
