use ee2e_chat::crypto;
use ee2e_chat::node::{Event, Node};
use ee2e_chat::setup::{self, Startup};

fn startup(name: &str, listen: &str, connect: Option<&str>) -> Startup {
    Startup {
        name: name.to_string(),
        listen: listen.to_string(),
        connect: connect.map(str::to_string),
    }
}

#[test]
fn test_starts_a_node_from_valid_input() {
    let plan = setup::check(&startup("alice", "127.0.0.1:0", None), true).expect("should start");
    let node = Node::new(plan.name, crypto::generate_keypair(), plan.listen, None);

    assert_eq!(node.name(), "alice");
    assert!(!node.fingerprint().is_empty());
}

#[test]
fn test_a_blank_name_is_refused() {
    for blank in ["", "   ", "\t"] {
        let err = setup::check(&startup(blank, "127.0.0.1:0", None), true)
            .expect_err("a blank name should be refused");
        assert!(err.contains("name"), "got: {err}");
    }
}

#[test]
fn test_the_name_is_trimmed() {
    let plan =
        setup::check(&startup("  alice  ", "127.0.0.1:0", None), true).expect("should start");
    assert_eq!(plan.name, "alice");
}

/// The error has to say what a valid address looks like, since this is the
/// field a first-time user is most likely to get wrong.
#[test]
fn test_a_bad_listen_address_is_refused_with_an_example() {
    let err = setup::check(&startup("alice", "not an address", None), false)
        .expect_err("should be refused");

    assert!(err.contains("0.0.0.0:9999"), "got: {err}");
    assert_eq!(
        err,
        "'not an address' is not an address to listen on; try 0.0.0.0:9999"
    );
}

#[test]
fn test_a_port_already_in_use_is_reported() {
    let err = setup::could_not_listen("127.0.0.1:9999", "address already in use");
    assert!(err.contains("could not listen"), "got: {err}");
    assert_eq!(err, "could not listen on 127.0.0.1:9999: address already in use");
}

/// An unreachable bootstrap peer must not stop us starting: others can still
/// connect to us, and the room may simply not be up yet.
#[test]
fn test_an_unreachable_peer_does_not_prevent_starting() {
    let plan = setup::check(&startup("alice", "127.0.0.1:0", Some("127.0.0.1:1")), true)
        .expect("should still start");
    assert_eq!(plan.name, "alice");
    assert_eq!(plan.connect, Some("127.0.0.1:1".to_string()));

    let event = setup::could_not_reach("127.0.0.1:1", "connection refused");
    assert!(
        matches!(&event, Event::Warning(text) if text.contains("could not reach")),
        "the failure should still be reported"
    );
}

#[test]
fn test_a_blank_connect_field_is_treated_as_none() {
    let plan = setup::check(&startup("alice", "127.0.0.1:0", Some("   ")), true)
        .expect("should start");
    assert_eq!(plan.connect, None, "a blank field should not be dialled");

    let padded = setup::check(&startup("alice", " 127.0.0.1:0 ", Some(" b:1 ")), true)
        .expect("should start");
    assert_eq!(padded.connect, Some("b:1".to_string()));
    assert_eq!(padded.listen, "127.0.0.1:0");
}
