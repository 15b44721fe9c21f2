//! The setup screen: what was filled in, and whether it will do.

use crate::node::Event;
use crate::text;
use vstd::prelude::*;
use vstd::string::*;

verus! {

/// What was filled in, or given on the command line.
#[derive(Debug, PartialEq, Eq)]
pub struct Startup {
    pub name: String,
    pub listen: String,
    pub connect: Option<String>,
}

/// What to start: the name to go by, the address to listen on and the peer to
/// connect to, if any.
#[derive(Debug, PartialEq, Eq)]
pub struct Plan {
    pub name: String,
    pub listen: String,
    pub connect: Option<String>,
}

/// The peer to connect to. A blank field means none.
pub open spec fn bootstrap(connect: Option<String>) -> Option<Seq<char>> {
    match connect {
        Some(addr) if !text::blank(addr@) => Some(text::trim(addr@)),
        _ => None,
    }
}

/// What is said about an address that is none. It shows what one looks like,
/// since this is the field that a newcomer is most likely to get wrong.
pub open spec fn not_an_address(listen: Seq<char>) -> Seq<char> {
    "'"@ + listen + "' is not an address to listen on; try 0.0.0.0:9999"@
}

/// What was filled in as a plan, or what is wrong with it. `listen_is_address`
/// says whether what was filled in there, trimmed, is an address.
pub fn check(startup: &Startup, listen_is_address: bool) -> (plan: Result<Plan, String>)
    ensures
        match plan {
            Ok(plan) => {
                &&& !text::blank(startup.name@)
                &&& listen_is_address
                &&& plan.name@ == text::trim(startup.name@)
                &&& plan.listen@ == text::trim(startup.listen@)
                &&& match (plan.connect, bootstrap(startup.connect)) {
                    (Some(addr), Some(wanted)) => addr@ == wanted,
                    (None, None) => true,
                    _ => false,
                }
            },
            Err(why) => if text::blank(startup.name@) {
                why@ == "a name is needed"@
            } else {
                !listen_is_address && why@ == not_an_address(text::trim(startup.listen@))
            },
        },
{
    if text::is_blank(startup.name.as_str()) {
        return Err("a name is needed".to_owned());
    }
    let listen = text::trimmed(startup.listen.as_str());
    if !listen_is_address {
        let mut why = "'".to_owned();
        why.append(listen.as_str());
        why.append("' is not an address to listen on; try 0.0.0.0:9999");
        return Err(why);
    }
    let mut connect: Option<String> = None;
    if let Some(addr) = &startup.connect {
        if !text::is_blank(addr.as_str()) {
            connect = Some(text::trimmed(addr.as_str()));
        }
    }
    Ok(Plan { name: text::trimmed(startup.name.as_str()), listen, connect })
}

/// What is said when the address cannot be listened on.
pub fn could_not_listen(addr: &str, why: &str) -> (words: String)
    ensures
        words@ == "could not listen on "@ + addr@ + ": "@ + why@,
{
    let mut words = "could not listen on ".to_owned();
    words.append(addr);
    words.append(": ");
    words.append(why);
    words
}

/// What is said when the peer to connect to does not answer. It does not stop us
/// from starting: others can still connect to us, and the room may simply not be
/// up yet.
pub fn could_not_reach(addr: &str, why: &str) -> (event: Event)
    ensures
        event matches Event::Warning(words) && words@ == "could not reach "@ + addr@ + ": "@
            + why@,
{
    let mut words = "could not reach ".to_owned();
    words.append(addr);
    words.append(": ");
    words.append(why);
    Event::Warning(words)
}

/// The peer to connect to is what was filled in, character for character, without the
/// white space around it, and there is none exactly when that leaves nothing.
pub proof fn law_whom_to_connect_to(
    before: Seq<char>,
    address: Seq<char>,
    after: Seq<char>,
    filled_in: String,
)
    requires
        forall|i: int| 0 <= i < before.len() ==> text::white_space(#[trigger] before[i]),
        forall|i: int| 0 <= i < after.len() ==> text::white_space(#[trigger] after[i]),
        address.len() > 0 ==> !text::white_space(address[0]) && !text::white_space(
            address[address.len() - 1],
        ),
        filled_in@ == before + address + after,
    ensures
        bootstrap(None) is None,
        address.len() == 0 ==> bootstrap(Some(filled_in)) is None,
        address.len() > 0 ==> bootstrap(Some(filled_in)) == Some(address),
{
    text::law_trimming_leaves_what_is_between(before, address, after);
    text::law_trim_empties_blank_text(filled_in@);
}

/// What is said about an address that is none names it.
pub proof fn law_what_is_said_of_no_address(listen: Seq<char>)
    ensures
        not_an_address(listen) == "'"@ + listen
            + "' is not an address to listen on; try 0.0.0.0:9999"@,
{
}

} // verus!
