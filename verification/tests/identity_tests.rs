//! Reading and writing the file is not this library's business, so these keep it
//! in memory: what was written, and the permissions it has.

use ee2e_chat::crypto;
use ee2e_chat::identity::{self, IdentityError, Loaded};
use ee2e_chat::secretfile::{self, FoundFile};

const PATH: &str = "/nested/identity";

/// A disk with room for one file.
struct Disk {
    file: Option<FoundFile>,
}

impl Disk {
    fn empty() -> Self {
        Disk { file: None }
    }

    fn holding(contents: &str) -> Self {
        Disk {
            file: Some(FoundFile {
                mode: Some(0o100600),
                text: contents.to_string(),
            }),
        }
    }

    /// What a run of the program does: tighten, read, and write what is new.
    fn run(&mut self) -> Result<Loaded, IdentityError> {
        let loaded = identity::load_or_create(PATH, self.file.as_ref())?;
        if let Some(file) = &mut self.file {
            if secretfile::tighten_if_needed(PATH, file.mode).is_some() {
                file.mode = Some(secretfile::FILE_MODE);
            }
        }
        if loaded.created {
            self.file = Some(FoundFile {
                mode: Some(0o100000 | secretfile::FILE_MODE),
                text: secretfile::file_text(&identity::stored_text(&loaded.keypair)),
            });
        }
        Ok(loaded)
    }

    fn mode(&self) -> u32 {
        self.file.as_ref().and_then(|f| f.mode).expect("a file") & 0o777
    }
}

fn run(disk: &mut Disk) -> Loaded {
    match disk.run() {
        Ok(loaded) => loaded,
        Err(e) => panic!("{}", e.message()),
    }
}

fn reason(contents: &str) -> String {
    match Disk::holding(contents).run() {
        Err(IdentityError::Malformed { path, reason }) => {
            assert_eq!(path, PATH);
            reason
        }
        _ => panic!("expected a malformed file"),
    }
}

/// The whole point of persisting: the same key comes back next run, so the
/// fingerprint somebody verified yesterday still matches today.
#[test]
fn test_the_same_identity_comes_back_on_the_next_run() {
    let mut disk = Disk::empty();

    let first = run(&mut disk);
    assert!(first.created);

    let second = run(&mut disk);
    assert!(!second.created, "the second run must not create a new one");

    assert_eq!(first.keypair.secret_key, second.keypair.secret_key);
    assert_eq!(first.keypair.public_key, second.keypair.public_key);
    assert_eq!(
        crypto::fingerprint(&first.keypair.public_key),
        crypto::fingerprint(&second.keypair.public_key),
        "the fingerprint must survive a restart"
    );
}

#[test]
fn test_two_identities_are_different() {
    let a = run(&mut Disk::empty());
    let b = run(&mut Disk::empty());

    assert_ne!(a.keypair.secret_key, b.keypair.secret_key);
}

/// A private key readable by anyone else on the machine is not private.
#[test]
fn test_the_key_file_is_created_private() {
    let mut disk = Disk::empty();
    run(&mut disk);

    assert_eq!(
        disk.mode(),
        0o600,
        "the identity file must be readable only by its owner"
    );
}

#[test]
fn test_the_directory_is_created_private() {
    assert_eq!(secretfile::DIR_MODE, 0o700);
}

/// An exposed key is corrected and reported rather than used quietly.
#[test]
fn test_an_over_permissive_file_is_tightened_and_reported() {
    let mut disk = Disk::empty();
    run(&mut disk);
    disk.file.as_mut().unwrap().mode = Some(0o644);

    let loaded = run(&mut disk);

    assert_eq!(disk.mode(), 0o600, "permissions should have been fixed");
    assert!(
        loaded.notes.iter().any(|note| note.contains("readable by others")),
        "the user should be told, got {:?}",
        loaded.notes
    );
    assert_eq!(
        loaded.notes,
        vec!["/nested/identity was readable by others (mode 644); tightened to 600".to_string()]
    );
}

#[test]
fn test_a_correctly_permissioned_file_is_not_remarked_on() {
    let mut disk = Disk::empty();
    run(&mut disk);

    let loaded = run(&mut disk);
    assert!(loaded.notes.is_empty(), "got {:?}", loaded.notes);
}

#[test]
fn test_a_corrupt_file_is_an_error() {
    assert!(matches!(
        Disk::holding("this is not json").run(),
        Err(IdentityError::Malformed { .. })
    ));
}

#[test]
fn test_a_future_version_is_an_error() {
    let reason = reason(r#"{"version":99,"secret_key":"00"}"#);
    assert!(reason.contains("version"), "got: {reason}");
    assert_eq!(reason, "it is version 99, and this build understands version 1");
}

#[test]
fn test_a_key_of_the_wrong_length_is_an_error() {
    let reason = reason(r#"{"version":1,"secret_key":"aabbcc"}"#);
    assert!(reason.contains("bytes"), "got: {reason}");
    assert_eq!(reason, "the secret key is 3 bytes, expected 32");
}

#[test]
fn test_a_key_that_is_not_hex_is_an_error() {
    let reason = reason(r#"{"version":1,"secret_key":"zzzz"}"#);
    assert!(reason.contains("hex"), "got: {reason}");
}

/// The stored file carries only the secret key, and the public key is derived
/// from it, so the two can never disagree.
#[test]
fn test_the_public_key_is_derived_not_trusted() {
    let mut disk = Disk::empty();
    let created = run(&mut disk);

    let text = disk.file.as_ref().unwrap().text.clone();
    assert!(
        !text.contains("public"),
        "the public key should not be stored: {text}"
    );

    let loaded = run(&mut disk);
    assert_eq!(
        loaded.keypair.public_key,
        crypto::public_key_for(&created.keypair.secret_key).unwrap()
    );
}

/// The stored key has to actually work for messages, not merely round-trip.
#[test]
fn test_a_reloaded_identity_can_still_decrypt() {
    let mut disk = Disk::empty();
    let alice = run(&mut disk).keypair;
    let bob = crypto::generate_keypair();

    let (ciphertext, nonce) =
        crypto::seal(b"still works", &alice.public_key, &bob.secret_key).unwrap();

    // Reload from disk, as a fresh run would.
    let reloaded = run(&mut disk).keypair;
    let plaintext =
        crypto::open(&ciphertext, &nonce, &reloaded.secret_key, &bob.public_key).unwrap();

    assert_eq!(plaintext, b"still works");
}

#[test]
fn test_default_path_is_under_the_config_directory() {
    let path = identity::default_path(None, Some(b"/home/sue")).expect("a path");
    assert!(path.ends_with(b"/ee2e-chat/identity"));
    assert_eq!(path[0], b'/');
    assert_eq!(path, b"/home/sue/.config/ee2e-chat/identity");
}

/// `Loaded` wraps a private key, so a stray rendering in an error path must not
/// put it on screen.
#[test]
fn test_debug_output_does_not_leak_the_secret_key() {
    let loaded = run(&mut Disk::empty());

    let secret_hex: String = loaded
        .keypair
        .secret_key
        .iter()
        .map(|b| format!("{b:02x}"))
        .collect();

    assert!(
        !loaded.debug_text().contains(&secret_hex),
        "the secret key must not appear in the output"
    );
    assert!(!loaded.keypair.debug_text().contains(&secret_hex));
    assert!(loaded.debug_text().contains(&crypto::fingerprint(&loaded.keypair.public_key)));
}

// ---------------------------------------------------------------------------
// Exact values and corners
// ---------------------------------------------------------------------------

#[test]
fn the_file_is_indented_json() {
    let keypair = crypto::keypair_of(&[0xab; 32]);
    assert_eq!(
        identity::stored_text(&keypair),
        format!("{{\n  \"version\": 1,\n  \"secret_key\": \"{}\"\n}}", "ab".repeat(32))
    );
}

#[test]
fn a_file_without_a_line_end_is_as_good() {
    let keypair = crypto::keypair_of(&[7; 32]);
    let parsed = identity::parse_stored(&identity::stored_text(&keypair))
        .unwrap_or_else(|why| panic!("{why}"));
    assert_eq!(parsed.secret_key, keypair.secret_key);
    assert_eq!(parsed.public_key, keypair.public_key);
}

#[test]
fn files_that_hold_something_else_are_errors() {
    for contents in [
        "{}",
        "[]",
        "null",
        r#"{"version":1}"#,
        r#"{"version":"1","secret_key":"00"}"#,
        r#"{"version":256,"secret_key":"00"}"#,
    ] {
        assert_eq!(reason(contents), "it does not hold an identity");
    }
    assert_eq!(
        reason(r#"{"version":1,"secret_key":"\u00e9"}"#),
        "the secret key is not valid hex"
    );
    assert_eq!(
        reason(r#"{"version":1,"secret_key":"abc"}"#),
        "the secret key is not valid hex"
    );
}

#[test]
fn the_key_may_be_padded_and_in_upper_case() {
    let contents = format!("{{\"version\":1,\"secret_key\":\" {} \"}}", "AB".repeat(32));
    let parsed = identity::parse_stored(&contents).unwrap_or_else(|why| panic!("{why}"));
    assert_eq!(parsed.secret_key, vec![0xab; 32]);
}

#[test]
fn errors_say_where_and_why() {
    assert_eq!(
        IdentityError::NoConfigDir.message(),
        "could not work out where to store the identity: neither $XDG_CONFIG_HOME nor $HOME is set"
    );
    assert_eq!(
        IdentityError::Io {
            path: "/a".to_string(),
            reason: "denied".to_string()
        }
        .message(),
        "/a: denied"
    );
    assert_eq!(
        IdentityError::Malformed {
            path: "/a".to_string(),
            reason: "odd".to_string()
        }
        .message(),
        "/a is not a usable identity file: odd"
    );
}

#[test]
fn the_config_directory_follows_the_environment() {
    assert_eq!(
        identity::default_path(Some(b"/xdg"), Some(b"/home/sue")),
        Ok(b"/xdg/ee2e-chat/identity".to_vec())
    );
    assert_eq!(
        identity::default_path(Some(b"not/absolute"), Some(b"/")),
        Ok(b"/.config/ee2e-chat/identity".to_vec())
    );
    assert_eq!(
        identity::config_dir(Some(b""), Some(b"")),
        Ok(b".config/ee2e-chat".to_vec())
    );
    assert_eq!(identity::default_path(None, None), Err(IdentityError::NoConfigDir));
}

#[test]
fn on_windows_it_is_under_appdata() {
    let roaming: &[u8] = br"C:\Users\sue\AppData\Roaming";
    assert_eq!(
        identity::windows_default_path(Some(roaming)),
        Ok(br"C:\Users\sue\AppData\Roaming\ee2e-chat\identity".to_vec())
    );
    assert_eq!(
        identity::windows_config_dir(Some(br"D:\")),
        Ok(br"D:\ee2e-chat".to_vec())
    );
    assert_eq!(
        identity::windows_config_dir(Some(b"D:/a/")),
        Ok(b"D:/a/ee2e-chat".to_vec())
    );
    assert_eq!(identity::windows_default_path(None), Err(IdentityError::NoConfigDir));
}

/// Notes are shown as they would be read in a list of strings.
#[test]
fn the_rendering_shows_the_notes() {
    let keypair = crypto::keypair_of(&[7; 32]);
    let start = format!(
        "Loaded {{ keypair: Keypair {{ public_key: {}, secret_key: <redacted> }}, created: ",
        crypto::fingerprint(&keypair.public_key)
    );
    let mut loaded = Loaded {
        keypair,
        created: false,
        notes: vec!["a \"b\"".to_string(), "c\n".to_string(), "é".to_string()],
    };
    assert_eq!(
        loaded.debug_text(),
        format!("{start}false, notes: [\"a \\\"b\\\"\", \"c\\n\", \"é\"] }}")
    );
    assert_eq!(loaded.debug_text(), format!("{start}false, notes: {:?} }}", loaded.notes));
    loaded.notes.clear();
    loaded.created = true;
    assert_eq!(loaded.debug_text(), format!("{start}true, notes: [] }}"));
}

/// A sign is no digit, however much the text looks like numbers.
#[test]
fn a_key_with_signs_in_it_is_an_error() {
    let contents = format!("{{\"version\":1,\"secret_key\":\"{}\"}}", "+f".repeat(32));
    assert_eq!(reason(&contents), "the secret key is not valid hex");
}

#[test]
fn only_other_peoples_bits_matter() {
    assert_eq!(secretfile::tighten_if_needed("p", Some(0o100700)), None);
    assert_eq!(secretfile::tighten_if_needed("p", None), None);
    for mode in [0o601, 0o610, 0o604, 0o666, 0o177777] {
        let told = secretfile::tighten_if_needed("p", Some(mode)).expect("exposed");
        assert_eq!(
            told,
            format!("p was readable by others (mode {:o}); tightened to 600", mode & 0o777)
        );
    }
}

/// A member that is given twice leaves open which of the two is meant.
#[test]
fn a_member_given_twice_is_an_error() {
    let key = "ab".repeat(32);
    for contents in [
        format!("{{\"version\":1,\"version\":1,\"secret_key\":\"{key}\"}}"),
        format!("{{\"secret_key\":\"{key}\",\"version\":1,\"secret_key\":\"{key}\"}}"),
        format!("{{\"version\":1,\"\\u0076ersion\":1,\"secret_key\":\"{key}\"}}"),
    ] {
        assert_eq!(reason(&contents), "it does not hold an identity");
    }
}

/// What nobody asks for is stepped over, whatever it is.
#[test]
fn members_that_nobody_asks_for_do_not_matter() {
    let key = "ab".repeat(32);
    let deep = format!("{}{}", "[".repeat(500), "]".repeat(500));
    for more in ["1e999", "\"\\ud800\"", &deep, "{\"version\":7}", "null,\"more\":2"] {
        let contents =
            format!("{{ \"more\" : {more} , \"version\":1, \"secret_key\":\"{key}\" }}\n");
        let parsed = identity::parse_stored(&contents).unwrap_or_else(|why| panic!("{why}"));
        assert_eq!(parsed.secret_key, vec![0xab; 32]);
    }
    let listed = format!(" [ 1 , \"{key}\" ] ");
    assert!(identity::parse_stored(&listed).is_ok());
    assert!(identity::parse_stored(&format!("[1,\"{key}\",0]")).is_err());
}

#[test]
fn complaints_say_where_in_the_file() {
    assert_eq!(reason("{\n"), "EOF while parsing an object at line 2 column 0");
    assert_eq!(reason("{"), "EOF while parsing an object at line 1 column 1");
    assert_eq!(reason("nonsense\n"), "expected ident at line 1 column 2");
}
