//! Storing the long-term key pair between runs.
//!
//! Without this a fresh key pair is generated at every start, and a fingerprint
//! says nothing about whether this is the same person as yesterday. A damaged
//! file is an error: quietly generating a replacement would change the
//! fingerprint, and a disk problem must never be able to imitate an attack.

use crate::crypto;
use crate::crypto::Keypair;
use crate::hex;
use crate::json;
use crate::json::Json;
use crate::secretfile;
use crate::secretfile::FoundFile;
use crate::text;
use serde_json::Value;
use vstd::prelude::*;
use vstd::string::*;
use vstd::utf8::*;

verus! {

/// The version of the file format, so that it can change later without an old
/// file being misread as a new one.
pub const VERSION: u8 = 1;

/// Why there is no identity.
#[derive(Debug, PartialEq, Eq)]
pub enum IdentityError {
    NoConfigDir,
    Io { path: String, reason: String },
    Malformed { path: String, reason: String },
}

/// An identity, and how it came about.
pub struct Loaded {
    pub keypair: Keypair,
    /// No identity existed and this one is to be written.
    pub created: bool,
    /// Things that the user should be told.
    pub notes: Vec<String>,
}

// ---------------------------------------------------------------------------
// Where it lives
// ---------------------------------------------------------------------------
/// A name below a directory: a slash goes between them unless the directory
/// ends in one already or is empty.
pub open spec fn below(directory: Seq<u8>, name: Seq<u8>) -> Seq<u8> {
    if directory.len() == 0 || directory.last() == 47 {
        directory + name
    } else {
        directory.push(47) + name
    }
}

fn join(directory: &[u8], name: &str) -> (path: Vec<u8>)
    ensures
        path@ == below(directory@, encode_utf8(name@)),
{
    let mut path: Vec<u8> = Vec::new();
    path.extend_from_slice(directory);
    if directory.len() > 0 && directory[directory.len() - 1] != 47 {
        path.push(47);
    }
    path.extend_from_slice(name.as_bytes());
    assert(path@ =~= below(directory@, encode_utf8(name@)));
    path
}

/// Where configuration lives: `$XDG_CONFIG_HOME` where that is an absolute path,
/// else `.config` in `$HOME`.
pub open spec fn config_base(
    xdg_config_home: Option<Seq<u8>>,
    home: Option<Seq<u8>>,
) -> Option<Seq<u8>> {
    match xdg_config_home {
        Some(xdg) if xdg.len() > 0 && xdg[0] == 47 => Some(xdg),
        _ => match home {
            Some(home) => Some(below(home, encode_utf8(".config"@))),
            None => None,
        },
    }
}

/// The view of the value of an environment variable.
pub open spec fn value_view(value: Option<&[u8]>) -> Option<Seq<u8>> {
    match value {
        Some(bytes) => Some(bytes@),
        None => None,
    }
}

/// The directory that holds this program's files, given the two environment
/// variables.
pub fn config_dir(xdg_config_home: Option<&[u8]>, home: Option<&[u8]>) -> (directory: Result<
    Vec<u8>,
    IdentityError,
>)
    ensures
        match config_base(value_view(xdg_config_home), value_view(home)) {
            Some(base) => directory matches Ok(d) && d@ == below(base, encode_utf8("ee2e-chat"@)),
            None => directory matches Err(IdentityError::NoConfigDir),
        },
{
    if let Some(xdg) = xdg_config_home {
        if xdg.len() > 0 && xdg[0] == 47 {
            return Ok(join(xdg, "ee2e-chat"));
        }
    }
    match home {
        Some(home) => {
            let base = join(home, ".config");
            Ok(join(base.as_slice(), "ee2e-chat"))
        },
        None => Err(IdentityError::NoConfigDir),
    }
}

/// A file of that name in the directory that holds this program's files.
pub(crate) fn config_file(
    xdg_config_home: Option<&[u8]>,
    home: Option<&[u8]>,
    name: &str,
) -> (path: Result<Vec<u8>, IdentityError>)
    ensures
        match config_base(value_view(xdg_config_home), value_view(home)) {
            Some(base) => path matches Ok(p) && p@ == below(
                below(base, encode_utf8("ee2e-chat"@)),
                encode_utf8(name@),
            ),
            None => path matches Err(IdentityError::NoConfigDir),
        },
{
    match config_dir(xdg_config_home, home) {
        Ok(directory) => Ok(join(directory.as_slice(), name)),
        Err(e) => Err(e),
    }
}

/// Where the identity lives unless told otherwise, given the two environment
/// variables.
pub fn default_path(xdg_config_home: Option<&[u8]>, home: Option<&[u8]>) -> (path: Result<
    Vec<u8>,
    IdentityError,
>)
    ensures
        match config_base(value_view(xdg_config_home), value_view(home)) {
            Some(base) => path matches Ok(p) && p@ == below(
                below(base, encode_utf8("ee2e-chat"@)),
                encode_utf8("identity"@),
            ),
            None => path matches Err(IdentityError::NoConfigDir),
        },
{
    config_file(xdg_config_home, home, "identity")
}

/// A name below a directory on Windows: a backslash goes between them unless the
/// directory ends in a separator already or is empty.
pub open spec fn below_on_windows(directory: Seq<u8>, name: Seq<u8>) -> Seq<u8> {
    if directory.len() == 0 || directory.last() == 92 || directory.last() == 47 {
        directory + name
    } else {
        directory.push(92) + name
    }
}

fn join_on_windows(directory: &[u8], name: &str) -> (path: Vec<u8>)
    ensures
        path@ == below_on_windows(directory@, encode_utf8(name@)),
{
    let mut path: Vec<u8> = Vec::new();
    path.extend_from_slice(directory);
    if directory.len() > 0 && directory[directory.len() - 1] != 92 && directory[directory.len() - 1]
        != 47 {
        path.push(92);
    }
    path.extend_from_slice(name.as_bytes());
    assert(path@ =~= below_on_windows(directory@, encode_utf8(name@)));
    path
}

/// The directory that holds this program's files on Windows, given `%APPDATA%`.
/// It is inside a profile that only its owner can read.
pub fn windows_config_dir(appdata: Option<&[u8]>) -> (directory: Result<Vec<u8>, IdentityError>)
    ensures
        match value_view(appdata) {
            Some(base) => directory matches Ok(d) && d@ == below_on_windows(
                base,
                encode_utf8("ee2e-chat"@),
            ),
            None => directory matches Err(IdentityError::NoConfigDir),
        },
{
    match appdata {
        Some(base) => Ok(join_on_windows(base, "ee2e-chat")),
        None => Err(IdentityError::NoConfigDir),
    }
}

/// A file of that name in the directory that holds this program's files on
/// Windows.
pub(crate) fn windows_config_file(appdata: Option<&[u8]>, name: &str) -> (path: Result<
    Vec<u8>,
    IdentityError,
>)
    ensures
        match value_view(appdata) {
            Some(base) => path matches Ok(p) && p@ == below_on_windows(
                below_on_windows(base, encode_utf8("ee2e-chat"@)),
                encode_utf8(name@),
            ),
            None => path matches Err(IdentityError::NoConfigDir),
        },
{
    match windows_config_dir(appdata) {
        Ok(directory) => Ok(join_on_windows(directory.as_slice(), name)),
        Err(e) => Err(e),
    }
}

/// Where the identity lives on Windows unless told otherwise, given `%APPDATA%`.
pub fn windows_default_path(appdata: Option<&[u8]>) -> (path: Result<Vec<u8>, IdentityError>)
    ensures
        match value_view(appdata) {
            Some(base) => path matches Ok(p) && p@ == below_on_windows(
                below_on_windows(base, encode_utf8("ee2e-chat"@)),
                encode_utf8("identity"@),
            ),
            None => path matches Err(IdentityError::NoConfigDir),
        },
{
    windows_config_file(appdata, "identity")
}

// ---------------------------------------------------------------------------
// What it says
// ---------------------------------------------------------------------------
/// The names of the members of a stored identity, in order.
pub open spec fn stored_names() -> Seq<Seq<char>> {
    seq!["version"@, "secret_key"@]
}

/// A stored identity as a tree. The public key is not in it, so that it cannot
/// disagree with the secret key.
pub open spec fn stored_tree(secret_key: Seq<u8>) -> Json {
    Json::Record(
        seq![
            ("version"@, Json::Number(1)),
            ("secret_key"@, Json::Text(hex::hex_text(secret_key))),
        ],
    )
}

/// The version and the secret key's text in a file's bytes: a record with its
/// members, each given once, or a list of their values.
pub open spec fn stored_in(bytes: Seq<u8>) -> Option<(u64, Seq<char>)> {
    match json::fields(bytes, 0, stored_names()) {
        Some(values) => match (json::number_at(values[0]), json::text_at(values[1])) {
            (Some(version), Some(key)) => if version < 256 {
                Some((version, key))
            } else {
                None
            },
            _ => None,
        },
        None => None,
    }
}

/// What is wrong with a file that holds no identity.
pub open spec fn complaint(contents: Seq<char>) -> Seq<char> {
    match json::parsed(encode_utf8(contents)) {
        Ok(_) => "it does not hold an identity"@,
        Err(why) => why,
    }
}

/// The secret key that a file's text holds, or what is wrong with it.
pub open spec fn key_in(contents: Seq<char>) -> Result<Seq<u8>, Seq<char>> {
    match stored_in(encode_utf8(contents)) {
        None => Err(complaint(contents)),
        Some((version, key)) => if version != VERSION {
            Err(
                "it is version "@ + text::decimal(version as nat)
                    + ", and this build understands version 1"@,
            )
        } else {
            match hex::hex_in(key) {
                None => Err("the secret key is not valid hex"@),
                Some(secret) => if secret.len() != crypto::KEY_LEN {
                    Err(
                        "the secret key is "@ + text::decimal(secret.len())
                            + " bytes, expected 32"@,
                    )
                } else {
                    Ok(secret)
                },
            }
        },
    }
}

proof fn lemma_names()
    ensures
        json::distinct(stored_names()),
{
    reveal_strlit("version");
    reveal_strlit("secret_key");
    assert("version"@.len() == 7 && "secret_key"@.len() == 10);
}

/// A stored identity read out of bytes that read as its tree holds the same key.
pub proof fn law_an_identity_reads_back_from_its_tree(secret_key: Seq<u8>, bytes: Seq<u8>)
    ensures
        json::plain(stored_tree(secret_key), json::MAX_DEPTH as nat),
        json::reads_as(bytes, stored_tree(secret_key), json::MAX_DEPTH as nat) ==> stored_in(bytes)
            == Some((1u64, hex::hex_text(secret_key))),
        hex::hex_in(hex::hex_text(secret_key)) == Some(secret_key),
{
    lemma_names();
    hex::law_hex_reads_back(secret_key);
    reveal_with_fuel(json::plain, 2);
    let members = stored_tree(secret_key)->Record_0;
    assert(json::member_names(members) =~= stored_names());
    assert(stored_names().skip(0) =~= stored_names());
    if json::reads_as(bytes, stored_tree(secret_key), json::MAX_DEPTH as nat) {
        json::lemma_fields_read_back(bytes, members, json::MAX_DEPTH as nat, 0);
        let values = json::fields(bytes, 0, stored_names())->0;
        assert(json::reads_as(values[0], members[0].1, 126));
        assert(json::reads_as(values[1], members[1].1, 126));
    }
}

/// What is written to an identity file, line end aside.
///
/// The file that results gives the same key back.
pub fn stored_text(keypair: &Keypair) -> (contents: String)
    ensures
        contents@ == json::pretty(stored_tree(keypair.secret_key@)),
        keypair.secret_key@.len() == crypto::KEY_LEN ==> key_in(contents@.push('\n')) == Ok::<
            Seq<u8>,
            Seq<char>,
        >(keypair.secret_key@),
{
    let mut members: Vec<(String, Value)> = Vec::new();
    members.push(("version".to_owned(), json::from_number(VERSION as u64)));
    let key = hex::to_hex(keypair.secret_key.as_slice());
    members.push(("secret_key".to_owned(), json::from_text(key)));
    proof {
        lemma_names();
        let text = json::pretty(stored_tree(keypair.secret_key@));
        law_an_identity_reads_back_from_its_tree(
            keypair.secret_key@,
            encode_utf8(text.push('\n')),
        );
        assert(members@.map_values(|m: (String, serde_json::Value)| m.0@) =~= stored_names());
        assert(json::member_trees(members@) =~= stored_tree(keypair.secret_key@)->Record_0);
    }
    let document = json::from_members(members);
    json::to_pretty(&document)
}

/// The version and the secret key's text in a file's bytes.
fn stored_from(bytes: &[u8]) -> (stored: Option<(u64, String)>)
    ensures
        match stored {
            Some((version, key)) => stored_in(bytes@) == Some((version, key@)),
            None => stored_in(bytes@) is None,
        },
{
    let names: [&str; 2] = ["version", "secret_key"];
    assert(json::views(names@) =~= stored_names());
    let values: Vec<&[u8]> = match json::get_fields(bytes, 0, names.as_slice()) {
        Some(values) => values,
        None => return None,
    };
    match (json::read_number(values[0]), json::read_text(values[1])) {
        (Some(version), Some(key)) => if version < 256 {
            Some((version, key))
        } else {
            None
        },
        _ => None,
    }
}

/// What is wrong with a file that holds no identity.
fn objection(contents: &str) -> (why: String)
    ensures
        why@ == complaint(contents@),
{
    match json::parse(contents.as_bytes()) {
        Ok(_) => "it does not hold an identity".to_owned(),
        Err(why) => why,
    }
}

/// The key pair that a file's text holds, or what is wrong with it. The public
/// key is derived.
pub fn parse_stored(contents: &str) -> (outcome: Result<Keypair, String>)
    ensures
        match outcome {
            Ok(keypair) => keypair.valid() && key_in(contents@) == Ok::<Seq<u8>, Seq<char>>(
                keypair.secret_key@,
            ),
            Err(reason) => key_in(contents@) == Err::<Seq<u8>, Seq<char>>(reason@),
        },
{
    let (version, key): (u64, String) = match stored_from(contents.as_bytes()) {
        Some(stored) => stored,
        None => return Err(objection(contents)),
    };
    if version != VERSION as u64 {
        let mut reason = "it is version ".to_owned();
        reason.append(text::in_decimal(version).as_str());
        reason.append(", and this build understands version 1");
        return Err(reason);
    }
    let secret_key: Vec<u8> = match hex::from_hex(key.as_str()) {
        Some(secret_key) => secret_key,
        None => return Err("the secret key is not valid hex".to_owned()),
    };
    match crypto::public_key_for(secret_key.as_slice()) {
        Ok(public_key) => Ok(Keypair { public_key, secret_key }),
        Err(_) => {
            let mut reason = "the secret key is ".to_owned();
            reason.append(text::in_decimal(secret_key.len() as u64).as_str());
            reason.append(" bytes, expected 32");
            Err(reason)
        },
    }
}

/// The notes about a file that was found.
pub open spec fn notes_about(path: Seq<char>, mode: Option<u32>) -> Seq<Seq<char>> {
    match mode {
        Some(m) if secretfile::exposed(m) => seq![secretfile::note(path, m)],
        _ => Seq::empty(),
    }
}

/// What several texts say.
pub open spec fn texts(notes: Seq<String>) -> Seq<Seq<char>> {
    notes.map_values(|note: String| note@)
}

/// The notes about a file that was found.
pub(crate) fn notes_on(path: &str, mode: Option<u32>) -> (notes: Vec<String>)
    ensures
        texts(notes@) == notes_about(path@, mode),
{
    let mut notes: Vec<String> = Vec::new();
    if let Some(told) = secretfile::tighten_if_needed(path, mode) {
        notes.push(told);
    }
    assert(texts(notes@) =~= notes_about(path@, mode));
    notes
}

/// The identity in the file that was found, or a fresh one where there was no
/// file. A fresh one is to be written.
pub fn load_or_create(path: &str, found: Option<&FoundFile>) -> (outcome: Result<
    Loaded,
    IdentityError,
>)
    ensures
        match found {
            None => outcome matches Ok(loaded) && loaded.created && loaded.keypair.valid()
                && loaded.notes@.len() == 0,
            Some(file) => match (key_in(file.text@), outcome) {
                (Ok(secret), Ok(loaded)) => {
                    &&& !loaded.created
                    &&& loaded.keypair.valid()
                    &&& loaded.keypair.secret_key@ == secret
                    &&& texts(loaded.notes@) == notes_about(path@, file.mode)
                },
                (Err(why), Err(IdentityError::Malformed { path: p, reason })) => p@ == path@
                    && reason@ == why,
                _ => false,
            },
        },
{
    match found {
        Some(file) => {
            let notes = notes_on(path, file.mode);
            match parse_stored(file.text.as_str()) {
                Ok(keypair) => Ok(Loaded { keypair, created: false, notes }),
                Err(reason) => Err(IdentityError::Malformed { path: path.to_owned(), reason }),
            }
        },
        None => Ok(
            Loaded { keypair: crypto::generate_keypair(), created: true, notes: Vec::new() },
        ),
    }
}

impl IdentityError {
    /// What the error says.
    pub open spec fn text(&self) -> Seq<char> {
        match self {
            IdentityError::NoConfigDir =>
                "could not work out where to store the identity: neither $XDG_CONFIG_HOME nor $HOME is set"@,
            IdentityError::Io { path, reason } => path@ + ": "@ + reason@,
            IdentityError::Malformed { path, reason } => path@
                + " is not a usable identity file: "@ + reason@,
        }
    }

    /// The error in words.
    pub fn message(&self) -> (words: String)
        ensures
            words@ == self.text(),
    {
        match self {
            IdentityError::NoConfigDir => {
                "could not work out where to store the identity: neither $XDG_CONFIG_HOME nor $HOME is set".to_owned()
            },
            IdentityError::Io { path, reason } => {
                let mut words = path.clone();
                words.append(": ");
                words.append(reason.as_str());
                words
            },
            IdentityError::Malformed { path, reason } => {
                let mut words = path.clone();
                words.append(" is not a usable identity file: ");
                words.append(reason.as_str());
                words
            },
        }
    }
}

/// Several texts in a row: each in quotes, with commas between them.
pub open spec fn in_quotes(notes: Seq<Seq<char>>) -> Seq<char>
    decreases notes.len(),
{
    if notes.len() == 0 {
        Seq::empty()
    } else if notes.len() == 1 {
        text::debug_quoted(notes[0])
    } else {
        in_quotes(notes.drop_last()) + ", "@ + text::debug_quoted(notes.last())
    }
}

fn quote_all(notes: &[String]) -> (words: String)
    ensures
        words@ == in_quotes(texts(notes@)),
{
    let ghost all = texts(notes@);
    let mut words = String::new();
    assert(all.take(0) =~= Seq::<Seq<char>>::empty());
    for i in 0..notes.len()
        invariant
            all == texts(notes@),
            words@ == in_quotes(all.take(i as int)),
    {
        assert(all.take(i + 1).drop_last() =~= all.take(i as int));
        assert(all.take(i + 1).last() == notes@[i as int]@);
        if i > 0 {
            words.append(", ");
        }
        words.append(text::quoted(notes[i].as_str()).as_str());
        assert(words@ =~= in_quotes(all.take(i + 1)));
    }
    assert(all.take(all.len() as int) =~= all);
    words
}

impl Loaded {
    /// A rendering for logs, which leaves the secret key out.
    pub fn debug_text(&self) -> (words: String)
        ensures
            words@ == "Loaded { keypair: Keypair { public_key: "@ + crypto::fingerprint_text(
                self.keypair.public_key@,
            ) + ", secret_key: <redacted> }, created: "@ + (if self.created {
                "true"@
            } else {
                "false"@
            }) + ", notes: ["@ + in_quotes(texts(self.notes@)) + "] }"@,
    {
        let mut words = "Loaded { keypair: Keypair { public_key: ".to_owned();
        words.append(crypto::fingerprint(self.keypair.public_key.as_slice()).as_str());
        words.append(", secret_key: <redacted> }, created: ");
        if self.created {
            words.append("true");
        } else {
            words.append("false");
        }
        words.append(", notes: [");
        words.append(quote_all(self.notes.as_slice()).as_str());
        words.append("] }");
        words
    }
}

/// A path below a directory has one separator between the two: the directory's own
/// where it ends in one, and else one that is put there. Below no directory the name is
/// the path.
pub proof fn law_one_separator_goes_between(directory: Seq<u8>, name: Seq<u8>, last: u8)
    ensures
        below(Seq::empty(), name) == name,
        below_on_windows(Seq::empty(), name) == name,
        below(directory.push('/' as u8), name) == directory.push('/' as u8) + name,
        last != '/' as u8 ==> below(directory.push(last), name) == directory.push(last).push(
            '/' as u8,
        ) + name,
        below_on_windows(directory.push('/' as u8), name) == directory.push('/' as u8) + name,
        below_on_windows(directory.push('\\' as u8), name) == directory.push('\\' as u8) + name,
        last != '/' as u8 && last != '\\' as u8 ==> below_on_windows(directory.push(last), name)
            == directory.push(last).push('\\' as u8) + name,
{
    assert(Seq::<u8>::empty() + name =~= name);
}

/// Configuration lives where the first variable says, provided that it says an absolute
/// path, and else below the home directory; without either there is no telling.
pub proof fn law_where_configuration_lives(xdg: Seq<u8>, home: Option<Seq<u8>>)
    ensures
        xdg.len() > 0 && xdg[0] == '/' as u8 ==> config_base(Some(xdg), home) == Some(xdg),
        !(xdg.len() > 0 && xdg[0] == '/' as u8) ==> config_base(Some(xdg), home) == config_base(
            None,
            home,
        ),
        home is None ==> config_base(None, home) is None,
        home matches Some(directory) ==> config_base(None, home) == Some(
            below(directory, encode_utf8(".config"@)),
        ),
{
}

/// An identity is stored as a record of the format's version and the secret key in
/// hexadecimal, and of nothing else.
pub proof fn law_how_an_identity_is_stored(secret_key: Seq<u8>)
    ensures
        stored_tree(secret_key) == Json::Record(
            seq![
                ("version"@, Json::Number(1)),
                ("secret_key"@, Json::Text(hex::hex_text(secret_key))),
            ],
        ),
{
}

/// What is stored in bytes: a version that fits in a byte, and a text for the secret
/// key, and nothing where they are not given.
pub proof fn law_what_is_stored_in_bytes(bytes: Seq<u8>, version: u64, key: Seq<char>)
    ensures
        stored_in(bytes) == Some((version, key)) <==> (json::fields(
            bytes,
            0,
            seq!["version"@, "secret_key"@],
        ) matches Some(values) && json::number_at(values[0]) == Some(version) && json::text_at(
            values[1],
        ) == Some(key) && version < 256),
{
}

/// A file holds a secret key exactly when it is of version one and gives thirty-two
/// bytes in hexadecimal, and then it holds those bytes.
pub proof fn law_which_files_hold_a_key(contents: Seq<char>, secret: Seq<u8>)
    ensures
        key_in(contents) == Ok::<Seq<u8>, Seq<char>>(secret) <==> (stored_in(
            encode_utf8(contents),
        ) matches Some((version, key)) && version == 1 && hex::hex_in(key) == Some(secret)
            && secret.len() == 32),
{
}

/// What is said of a file that holds no key: the parser's words where it cannot be
/// parsed, and else the first thing that is wrong with it.
pub proof fn law_what_is_wrong_with_a_file(contents: Seq<char>)
    ensures
        match stored_in(encode_utf8(contents)) {
            None => match json::parsed(encode_utf8(contents)) {
                Err(why) => key_in(contents) == Err::<Seq<u8>, Seq<char>>(why),
                Ok(_) => key_in(contents) == Err::<Seq<u8>, Seq<char>>(
                    "it does not hold an identity"@,
                ),
            },
            Some((version, key)) => {
                &&& version != 1 ==> key_in(contents) == Err::<Seq<u8>, Seq<char>>(
                    "it is version "@ + text::decimal(version as nat)
                        + ", and this build understands version 1"@,
                )
                &&& version == 1 && hex::hex_in(key) is None ==> key_in(contents) == Err::<
                    Seq<u8>,
                    Seq<char>,
                >("the secret key is not valid hex"@)
                &&& version == 1 && hex::hex_in(key) is Some && hex::hex_in(key)->0.len() != 32
                    ==> key_in(contents) == Err::<Seq<u8>, Seq<char>>(
                    "the secret key is "@ + text::decimal(hex::hex_in(key)->0.len())
                        + " bytes, expected 32"@,
                )
            },
        },
{
}

/// There is one note about a file whose permission bits let others at it, and none about
/// any other.
pub proof fn law_which_files_are_noted(path: Seq<char>, mode: u32)
    ensures
        notes_about(path, None).len() == 0,
        secretfile::exposed(mode) ==> notes_about(path, Some(mode)) == seq![
            secretfile::note(path, mode),
        ],
        !secretfile::exposed(mode) ==> notes_about(path, Some(mode)).len() == 0,
{
}

/// One more text goes behind the others, with a comma between them.
pub proof fn law_quoted_texts_are_separated(notes: Seq<Seq<char>>, note: Seq<char>)
    ensures
        in_quotes(Seq::empty()) == Seq::<char>::empty(),
        in_quotes(seq![note]) == text::debug_quoted(note),
        notes.len() > 0 ==> in_quotes(notes.push(note)) == in_quotes(notes) + ", "@
            + text::debug_quoted(note),
{
    assert(notes.push(note).drop_last() =~= notes);
}

/// What each error says.
pub proof fn law_what_each_error_says(path: String, reason: String)
    ensures
        IdentityError::NoConfigDir.text()
            == "could not work out where to store the identity: neither $XDG_CONFIG_HOME nor $HOME is set"@,
        (IdentityError::Io { path, reason }).text() == path@ + ": "@ + reason@,
        (IdentityError::Malformed { path, reason }).text() == path@
            + " is not a usable identity file: "@ + reason@,
{
}

} // verus!
