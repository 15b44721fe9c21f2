//! Files that hold secrets.
//!
//! The identity key and the room code both live in the config directory and
//! must never be readable by anyone else on the machine. The rules are the same
//! for both, so they are written once here.

use crate::text;
use vstd::prelude::*;
use vstd::string::*;

verus! {

/// Owner read and write only, `600` in octal. Anything wider means that somebody
/// else can read the file.
pub const FILE_MODE: u32 = 0x180;

/// Owner only, `700` in octal, for the directory that the files live in.
pub const DIR_MODE: u32 = 0x1c0;

/// A file that was found on disk.
pub struct FoundFile {
    /// Its permission bits, where the platform has such a thing.
    pub mode: Option<u32>,
    /// What it says.
    pub text: String,
}

/// Whether the permission bits let anyone but the owner at the file: any of the
/// six lowest bits, those of the group and of everybody else, is set.
pub open spec fn exposed(mode: u32) -> bool {
    mode % 64 != 0
}

/// What the user is told about a file that others could read. Correcting it
/// quietly would hide that the secret may already have been read.
pub open spec fn note(path: Seq<char>, mode: u32) -> Seq<char> {
    path + " was readable by others (mode "@ + text::numeral((mode % 512) as nat, 8)
        + "); tightened to 600"@
}

/// Whether a file's permissions have to be tightened before it is read, and what
/// the user is told about it.
pub fn tighten_if_needed(path: &str, mode: Option<u32>) -> (told: Option<String>)
    ensures
        match told {
            Some(t) => mode matches Some(m) && exposed(m) && t@ == note(path@, m),
            None => mode matches Some(m) ==> !exposed(m),
        },
{
    let mode: u32 = match mode {
        Some(mode) => mode,
        None => return None,
    };
    let bits: u32 = mode & 0x1ff;
    let others: u32 = bits & 0x3f;
    assert(bits == mode % 512 && others == mode % 64) by (bit_vector)
        requires
            bits == mode & 0x1ff,
            others == bits & 0x3f,
    ;
    if others == 0 {
        return None;
    }
    let mut told = path.to_owned();
    told.append(" was readable by others (mode ");
    told.append(text::written(bits as u64, 8).as_str());
    told.append("); tightened to 600");
    Some(told)
}

/// The two modes, in octal digits.
pub proof fn law_modes_in_octal()
    ensures
        text::numeral(FILE_MODE as nat, 8) == "600"@,
        text::numeral(DIR_MODE as nat, 8) == "700"@,
        !exposed(FILE_MODE),
        !exposed(DIR_MODE),
{
    reveal_with_fuel(text::numeral, 4);
    reveal_strlit("600");
    reveal_strlit("700");
    assert(text::numeral(FILE_MODE as nat, 8) =~= "600"@);
    assert(text::numeral(DIR_MODE as nat, 8) =~= "700"@);
}

/// What is written to a new file: the contents and a line end.
pub fn file_text(contents: &str) -> (written: String)
    ensures
        written@ == contents@.push('\n'),
{
    let mut written = contents.to_owned();
    written.push('\n');
    written
}

/// A file is exposed exactly when one of the six permission bits of its group and of
/// everybody else is set.
pub proof fn law_which_bits_expose_a_file(mode: u32)
    ensures
        exposed(mode) <==> mode & 0x20 != 0 || mode & 0x10 != 0 || mode & 0x08 != 0 || mode & 0x04
            != 0 || mode & 0x02 != 0 || mode & 0x01 != 0,
{
    assert(mode % 64 != 0 <==> mode & 0x20 != 0 || mode & 0x10 != 0 || mode & 0x08 != 0 || mode
        & 0x04 != 0 || mode & 0x02 != 0 || mode & 0x01 != 0) by (bit_vector);
}

/// What is said of an exposed file: which it is, and its nine permission bits in octal.
pub proof fn law_what_is_said_of_an_exposed_file(path: Seq<char>, mode: u32)
    ensures
        note(path, mode) == path + " was readable by others (mode "@ + text::numeral(
            (mode & 0x1ff) as nat,
            8,
        ) + "); tightened to 600"@,
{
    assert(mode & 0x1ff == mode % 512) by (bit_vector);
}

} // verus!
