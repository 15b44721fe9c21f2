//! Fetching and installing the latest version.
//!
//! The repository is cloned and the install script is run out of the clone.
//! Whether this copy can be updated at all, what each step's outcome means and
//! what is said along the way is decided here; running git and the script is
//! not.

use vstd::prelude::*;
use vstd::string::*;
use vstd::utf8::*;

verus! {

/// The directory that the running program is in.
pub struct BinDir {
    /// Its path, for people to read.
    pub shown: String,
    /// The last component of its path, where that is a name.
    pub name: Option<Vec<u8>>,
    /// The directory above it, where there is one.
    pub parent: Option<Vec<u8>>,
}

/// How running another program went.
#[derive(Debug, PartialEq, Eq)]
pub enum CommandReport {
    /// There is no such program.
    NotFound(String),
    /// It could not be run.
    NotRun(String),
    /// It ran, well or not.
    Ran { success: bool },
}

/// The words for a program that is in no directory at all.
pub open spec fn no_parent(exe: Seq<char>) -> Seq<char> {
    exe + " has no parent directory"@
}

/// The words for a program that is not in a `bin` directory.
pub open spec fn not_installed(shown: Seq<char>) -> Seq<char> {
    "this copy is not in a bin directory ("@ + shown
        + "), so it was probably built rather than installed.\n\nUpdate it with `git pull && cargo build --release`, or install it properly with install.sh."@
}

/// The words for a `bin` directory that is in no directory.
pub open spec fn no_prefix(shown: Seq<char>) -> Seq<char> {
    "could not work out a prefix from "@ + shown
}

/// The prefix that a program was installed with, or why there is none.
pub open spec fn prefix_of(exe: Seq<char>, bin_dir: Option<&BinDir>) -> Result<
    Seq<u8>,
    Seq<char>,
> {
    match bin_dir {
        None => Err(no_parent(exe)),
        Some(dir) => match dir.name {
            Some(name) if name@ == encode_utf8("bin"@) => match dir.parent {
                Some(parent) => Ok(parent@),
                None => Err(no_prefix(dir.shown@)),
            },
            _ => Err(not_installed(dir.shown@)),
        },
    }
}

/// Work out what prefix this copy was installed with.
///
/// Refused unless the program sits in a `bin` directory, because anywhere else
/// means a development build or an unusual layout, and guessing a prefix there
/// could install over something unrelated.
pub fn prefix_for(exe: &str, bin_dir: Option<&BinDir>) -> (prefix: Result<Vec<u8>, String>)
    ensures
        match prefix {
            Ok(p) => prefix_of(exe@, bin_dir) == Ok::<Seq<u8>, Seq<char>>(p@),
            Err(why) => prefix_of(exe@, bin_dir) == Err::<Seq<u8>, Seq<char>>(why@),
        },
{
    let dir: &BinDir = match bin_dir {
        Some(dir) => dir,
        None => {
            let mut why = exe.to_owned();
            why.append(" has no parent directory");
            return Err(why);
        },
    };
    let mut installed = false;
    if let Some(name) = &dir.name {
        installed = crate::bytes::same_bytes(name.as_slice(), "bin".as_bytes());
    }
    if !installed {
        let mut why = "this copy is not in a bin directory (".to_owned();
        why.append(dir.shown.as_str());
        why.append(
            "), so it was probably built rather than installed.\n\nUpdate it with `git pull && cargo build --release`, or install it properly with install.sh.",
        );
        return Err(why);
    }
    match &dir.parent {
        Some(parent) => Ok(parent.clone()),
        None => {
            let mut why = "could not work out a prefix from ".to_owned();
            why.append(dir.shown.as_str());
            Err(why)
        },
    }
}

/// What is said before anything is fetched. Fetching and running code over the
/// network should never be a surprise.
pub fn opening(exe: &str, version: &str) -> (said: String)
    ensures
        said@ == "installed at "@ + exe@ + "\ncurrent version "@ + version@
            + "\n\nfetching https://github.com/tjommilaskus/ee2e-chat.git\n"@,
{
    let mut said = "installed at ".to_owned();
    said.append(exe);
    said.append("\ncurrent version ");
    said.append(version);
    said.append("\n\nfetching https://github.com/tjommilaskus/ee2e-chat.git\n");
    said
}

/// Why a clone failed, where it did.
pub open spec fn clone_failure(report: CommandReport) -> Option<Seq<char>> {
    match report {
        CommandReport::NotFound(_) => Some("git is needed to update, and is not installed"@),
        CommandReport::NotRun(why) => Some("could not run git: "@ + why@),
        CommandReport::Ran { success } => if success {
            None
        } else {
            Some("could not clone https://github.com/tjommilaskus/ee2e-chat.git"@)
        },
    }
}

/// Judge how cloning the repository went.
pub fn after_clone(report: CommandReport) -> (outcome: Result<(), String>)
    ensures
        match outcome {
            Ok(()) => clone_failure(report) is None,
            Err(why) => clone_failure(report) == Some(why@),
        },
{
    match report {
        CommandReport::NotFound(_) => {
            Err("git is needed to update, and is not installed".to_owned())
        },
        CommandReport::NotRun(why) => {
            let mut words = "could not run git: ".to_owned();
            words.append(why.as_str());
            Err(words)
        },
        CommandReport::Ran { success } => {
            if success {
                Ok(())
            } else {
                Err("could not clone https://github.com/tjommilaskus/ee2e-chat.git".to_owned())
            }
        },
    }
}

/// Why an installation failed, where it did. There is no report where the clone
/// held no install script.
pub open spec fn install_failure(report: Option<CommandReport>) -> Option<Seq<char>> {
    match report {
        None => Some("the repository has no install.sh; update it by hand"@),
        Some(CommandReport::NotFound(why)) => Some("could not run the installer: "@ + why@),
        Some(CommandReport::NotRun(why)) => Some("could not run the installer: "@ + why@),
        Some(CommandReport::Ran { success }) => if success {
            None
        } else {
            Some("the update failed; your existing copy is untouched"@)
        },
    }
}

/// Judge how running the install script went.
pub fn after_install(report: Option<CommandReport>) -> (outcome: Result<(), String>)
    ensures
        match outcome {
            Ok(()) => install_failure(report) is None,
            Err(why) => install_failure(report) == Some(why@),
        },
{
    match report {
        None => Err("the repository has no install.sh; update it by hand".to_owned()),
        Some(CommandReport::NotFound(why)) | Some(CommandReport::NotRun(why)) => {
            let mut words = "could not run the installer: ".to_owned();
            words.append(why.as_str());
            Err(words)
        },
        Some(CommandReport::Ran { success }) => {
            if success {
                Ok(())
            } else {
                Err("the update failed; your existing copy is untouched".to_owned())
            }
        },
    }
}

/// What an update that ran to its end comes to. An installer that writes under a
/// different name would report success and have changed nothing here, so the
/// program has to have been replaced. Failing to read the new version back is
/// worth saying, but is no failure.
pub open spec fn verdict(
    exe: Seq<char>,
    prefix_bin: Seq<char>,
    replaced: bool,
    version: Option<Seq<char>>,
) -> Result<Seq<char>, Seq<char>> {
    if !replaced {
        Err(
            "the installer ran, but "@ + exe
                + " was not replaced.\n\nIt may have installed under a different name; check "@
                + prefix_bin + " and remove anything stale."@,
        )
    } else {
        match version {
            Some(version) => Ok("now running "@ + version),
            None => Ok("updated, but could not read the new version back\n"@),
        }
    }
}

/// Judge whether the update took, and say so.
pub fn conclude(exe: &str, prefix_bin: &str, replaced: bool, version: Option<&str>) -> (outcome:
    Result<String, String>)
    ensures
        ({
            let read: Option<Seq<char>> = match version {
                Some(v) => Some(v@),
                None => None,
            };
            match outcome {
                Ok(said) => verdict(exe@, prefix_bin@, replaced, read) == Ok::<
                    Seq<char>,
                    Seq<char>,
                >(said@),
                Err(why) => verdict(exe@, prefix_bin@, replaced, read) == Err::<
                    Seq<char>,
                    Seq<char>,
                >(why@),
            }
        }),
{
    if !replaced {
        let mut why = "the installer ran, but ".to_owned();
        why.append(exe);
        why.append(" was not replaced.\n\nIt may have installed under a different name; check ");
        why.append(prefix_bin);
        why.append(" and remove anything stale.");
        return Err(why);
    }
    match version {
        Some(version) => {
            let mut said = "now running ".to_owned();
            said.append(version);
            Ok(said)
        },
        None => Ok("updated, but could not read the new version back\n".to_owned()),
    }
}

/// A copy can be updated exactly when it is in a directory named `bin` that is in a
/// directory, and then that is the prefix.
pub proof fn law_which_copies_can_be_updated(exe: Seq<char>, dir: &BinDir, prefix: Seq<u8>)
    ensures
        prefix_of(exe, Some(dir)) == Ok::<Seq<u8>, Seq<char>>(prefix) <==> (dir.name matches Some(
            name,
        ) && name@ == encode_utf8("bin"@) && (dir.parent matches Some(parent) && parent@
            == prefix)),
        prefix_of(exe, None) is Err,
{
}

/// Why a copy cannot be updated.
pub proof fn law_why_a_copy_cannot_be_updated(exe: Seq<char>, dir: &BinDir)
    ensures
        prefix_of(exe, None) == Err::<Seq<u8>, Seq<char>>(exe + " has no parent directory"@),
        !(dir.name matches Some(name) && name@ == encode_utf8("bin"@)) ==> prefix_of(
            exe,
            Some(dir),
        ) == Err::<Seq<u8>, Seq<char>>(
            "this copy is not in a bin directory ("@ + dir.shown@
                + "), so it was probably built rather than installed.\n\nUpdate it with `git pull && cargo build --release`, or install it properly with install.sh."@,
        ),
        (dir.name matches Some(name) && name@ == encode_utf8("bin"@)) && dir.parent is None
            ==> prefix_of(exe, Some(dir)) == Err::<Seq<u8>, Seq<char>>(
            "could not work out a prefix from "@ + dir.shown@,
        ),
{
}

/// Cloning has worked exactly when git ran and ended well, and so has installing when
/// there was a script and it did.
pub proof fn law_when_a_step_has_worked(report: CommandReport)
    ensures
        clone_failure(report) is None <==> report == (CommandReport::Ran { success: true }),
        install_failure(Some(report)) is None <==> report == (CommandReport::Ran {
            success: true,
        }),
        install_failure(None) is Some,
{
}

/// Why a step has not worked.
pub proof fn law_why_a_step_has_not_worked(why: String)
    ensures
        clone_failure(CommandReport::NotFound(why)) == Some(
            "git is needed to update, and is not installed"@,
        ),
        clone_failure(CommandReport::NotRun(why)) == Some("could not run git: "@ + why@),
        clone_failure(CommandReport::Ran { success: false }) == Some(
            "could not clone https://github.com/tjommilaskus/ee2e-chat.git"@,
        ),
        install_failure(None) == Some("the repository has no install.sh; update it by hand"@),
        install_failure(Some(CommandReport::NotFound(why))) == Some(
            "could not run the installer: "@ + why@,
        ),
        install_failure(Some(CommandReport::NotRun(why))) == Some(
            "could not run the installer: "@ + why@,
        ),
        install_failure(Some(CommandReport::Ran { success: false })) == Some(
            "the update failed; your existing copy is untouched"@,
        ),
{
}

/// An update has worked exactly when the program was replaced, whether or not its
/// version could be read back, and what is said tells the two apart.
pub proof fn law_when_an_update_has_worked(
    exe: Seq<char>,
    prefix_bin: Seq<char>,
    replaced: bool,
    version: Option<Seq<char>>,
)
    ensures
        verdict(exe, prefix_bin, replaced, version) is Ok <==> replaced,
        replaced && version is None ==> verdict(exe, prefix_bin, replaced, version) == Ok::<
            Seq<char>,
            Seq<char>,
        >("updated, but could not read the new version back\n"@),
        replaced && version is Some ==> verdict(exe, prefix_bin, replaced, version) == Ok::<
            Seq<char>,
            Seq<char>,
        >("now running "@ + version->0),
        !replaced ==> verdict(exe, prefix_bin, replaced, version) == Err::<Seq<char>, Seq<char>>(
            "the installer ran, but "@ + exe
                + " was not replaced.\n\nIt may have installed under a different name; check "@
                + prefix_bin + " and remove anything stale."@,
        ),
{
}

} // verus!
