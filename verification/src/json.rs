//! JSON documents, as `serde_json` reads and writes them.
//!
//! What is written is a `serde_json::Value`, which the contracts know by the tree
//! it holds. A record that is read is stepped through member by member, so that a
//! member which is given twice is noticed, and one that nobody asks for is only
//! stepped over. What the members mean is decided by the modules that own the
//! types which are written as JSON.

use crate::text;
use serde::de::IgnoredAny;
use serde_json::Value;
use vstd::prelude::*;
use vstd::slice::*;
use vstd::string::*;
use vstd::utf8::*;

verus! {

/// A JSON tree. The members of a record keep their order, as they do in documents
/// with `serde_json`'s feature `preserve_order`.
pub enum Json {
    Null,
    Bool(bool),
    /// A whole number from zero to the largest 64-bit one.
    Number(u64),
    /// Any other number, by its digits.
    OtherNumber(Seq<char>),
    Text(Seq<char>),
    List(Seq<Json>),
    Record(Seq<(Seq<char>, Json)>),
}

/// `serde_json`'s document type.
#[verifier::external_type_specification]
#[verifier::external_body]
pub struct ExValue(serde_json::Value);

/// The tree that a document holds.
pub uninterp spec fn tree(document: serde_json::Value) -> Json;

/// What `serde_json::from_slice` makes of the bytes of a text: a tree, or the words
/// of its complaint.
pub uninterp spec fn parsed(bytes: Seq<u8>) -> Result<Json, Seq<char>>;

/// How many of the bytes `serde_json` steps over as the value that they begin
/// with, if they begin with one.
pub uninterp spec fn leading_value(bytes: Seq<u8>) -> Option<nat>;

/// What `serde_json::to_string` writes for a tree.
pub uninterp spec fn compact(tree: Json) -> Seq<char>;

/// What `serde_json::to_string_pretty` writes for a tree.
pub uninterp spec fn pretty(tree: Json) -> Seq<char>;

/// Whether a tree has no numbers but whole ones and is nested no deeper than
/// `depth`.
pub open spec fn plain(tree: Json, depth: nat) -> bool
    decreases depth,
{
    match tree {
        Json::OtherNumber(_) => false,
        Json::List(items) => depth > 0 && forall|i: int|
            0 <= i < items.len() ==> #[trigger] plain(items[i], (depth - 1) as nat),
        Json::Record(members) => depth > 0 && forall|i: int|
            0 <= i < members.len() ==> #[trigger] plain(members[i].1, (depth - 1) as nat),
        _ => true,
    }
}

/// How deep the parser follows the nesting of lists and records.
pub const MAX_DEPTH: usize = 127;

/// Whether no two of the names are the same.
pub open spec fn distinct(names: Seq<Seq<char>>) -> bool {
    forall|i: int, j: int| 0 <= i < j < names.len() ==> names[i] != names[j]
}

/// The trees of several documents.
pub open spec fn trees(documents: Seq<serde_json::Value>) -> Seq<Json> {
    documents.map_values(|d: serde_json::Value| tree(d))
}

/// `serde_json::from_slice`, for a document of any shape. Claimed: whether it
/// succeeds, the tree, and the words of the complaint depend on the bytes alone.
#[verifier::external_body]
pub(crate) fn parse(bytes: &[u8]) -> (document: Result<Value, String>)
    ensures
        match document {
            Ok(d) => parsed(bytes@) == Ok::<Json, Seq<char>>(tree(d)),
            Err(why) => parsed(bytes@) == Err::<Json, Seq<char>>(why@),
        },
{
    serde_json::from_slice::<Value>(bytes).map_err(|e| e.to_string())
}

/// The first value that `serde_json`'s `StreamDeserializer` steps over, and its
/// `byte_offset` behind it. Claimed: whether there is one, and how long it is,
/// depends on the bytes alone, and it is neither empty nor longer than they are.
#[verifier::external_body]
fn step(bytes: &[u8]) -> (length: Option<usize>)
    ensures
        match length {
            Some(n) => leading_value(bytes@) == Some(n as nat) && 0 < n <= bytes@.len(),
            None => leading_value(bytes@) is None,
        },
{
    let mut values = serde_json::Deserializer::from_slice(bytes).into_iter::<IgnoredAny>();
    values.next()?.ok()?;
    Some(values.byte_offset())
}

/// `serde_json::to_string` on a document. Claimed: the text depends on the tree
/// alone, control characters in it are all escaped, and it reads back as the tree,
/// with a newline after it or without, provided that its numbers are whole and
/// the parser follows it to the bottom.
#[verifier::external_body]
pub(crate) fn to_compact(document: &Value) -> (text: String)
    ensures
        text@ == compact(tree(*document)),
        forall|i: int| 0 <= i < text@.len() ==> #[trigger] text@[i] >= ' ',
        plain(tree(*document), MAX_DEPTH as nat) ==> reads_as_text(text@, tree(*document)),
{
    serde_json::to_string(document).expect("a document can always be written")
}

/// `serde_json::to_string_pretty` on a document. Claimed: the text depends on the
/// tree alone, and it reads back as the tree, with a newline after it or without,
/// provided that its numbers are whole and the parser follows it to the bottom.
#[verifier::external_body]
pub(crate) fn to_pretty(document: &Value) -> (text: String)
    ensures
        text@ == pretty(tree(*document)),
        plain(tree(*document), MAX_DEPTH as nat) ==> reads_as_text(text@, tree(*document)),
{
    serde_json::to_string_pretty(document).expect("a document can always be written")
}

/// `Value::as_str`. Claimed: the text of a document that is a text.
#[verifier::external_body]
fn as_text(document: &Value) -> (text: Option<&str>)
    ensures
        match text {
            Some(t) => tree(*document) == Json::Text(t@),
            None => !(tree(*document) is Text),
        },
{
    document.as_str()
}

/// `Value::as_u64`. Claimed: the number of a document that is a whole number
/// from zero to the largest 64-bit one.
#[verifier::external_body]
fn as_number(document: &Value) -> (number: Option<u64>)
    ensures
        match number {
            Some(n) => tree(*document) == Json::Number(n),
            None => !(tree(*document) is Number),
        },
{
    document.as_u64()
}

/// `Value::as_array`. Claimed: the items of a document that is a list.
#[verifier::external_body]
fn as_list(document: &Value) -> (items: Option<&Vec<Value>>)
    ensures
        match items {
            Some(i) => tree(*document) == Json::List(trees(i@)),
            None => !(tree(*document) is List),
        },
{
    document.as_array()
}

/// `Value::from` a `String`. Claimed: the document is that text.
#[verifier::external_body]
pub(crate) fn from_text(text: String) -> (document: Value)
    ensures
        tree(document) == Json::Text(text@),
{
    Value::from(text)
}

/// `Value::from` a `u64`. Claimed: the document is that number.
#[verifier::external_body]
pub(crate) fn from_number(number: u64) -> (document: Value)
    ensures
        tree(document) == Json::Number(number),
{
    Value::from(number)
}

/// `Value::from` a `Vec` of documents. Claimed: the document is the list of
/// them.
#[verifier::external_body]
pub(crate) fn from_list(items: Vec<Value>) -> (document: Value)
    ensures
        tree(document) == Json::List(trees(items@)),
{
    Value::from(items)
}

/// The names and trees of the members of a record.
pub open spec fn member_trees(members: Seq<(String, serde_json::Value)>) -> Seq<
    (Seq<char>, Json),
> {
    members.map_values(|m: (String, serde_json::Value)| (m.0@, tree(m.1)))
}

/// `Value::from_iter` over names and documents. Claimed: the document is the
/// record with those members, in that order. Of two members with one name only
/// the later would remain, so the names are distinct.
#[verifier::external_body]
pub(crate) fn from_members(members: Vec<(String, Value)>) -> (document: Value)
    requires
        distinct(members@.map_values(|m: (String, serde_json::Value)| m.0@)),
    ensures
        tree(document) == Json::Record(member_trees(members@)),
{
    members.into_iter().collect()
}

// ---------------------------------------------------------------------------
// Stepping through records and lists
// ---------------------------------------------------------------------------
/// The marks between the parts of records and lists.
pub const COLON: u8 = 58;

pub const COMMA: u8 = 44;

pub const OPEN_BRACE: u8 = 123;

pub const CLOSE_BRACE: u8 = 125;

pub const OPEN_BRACKET: u8 = 91;

pub const CLOSE_BRACKET: u8 = 93;

/// The white space of JSON: spaces, tabs and line ends.
pub open spec fn is_space(b: u8) -> bool {
    b == 32 || b == 9 || b == 10 || b == 13
}

/// The bytes without the white space that they begin with.
pub open spec fn unspaced(bytes: Seq<u8>) -> Seq<u8>
    decreases bytes.len(),
{
    if bytes.len() > 0 && is_space(bytes[0]) {
        unspaced(bytes.drop_first())
    } else {
        bytes
    }
}

/// Taking white space away leaves no more bytes than there were.
pub proof fn lemma_unspaced_is_no_longer(bytes: Seq<u8>)
    ensures
        unspaced(bytes).len() <= bytes.len(),
    decreases bytes.len(),
{
    if bytes.len() > 0 && is_space(bytes[0]) {
        lemma_unspaced_is_no_longer(bytes.drop_first());
    }
}

/// What follows a mark and the white space behind it, if the bytes begin with the
/// mark.
pub open spec fn after(bytes: Seq<u8>, mark: u8) -> Option<Seq<u8>> {
    if bytes.len() > 0 && bytes[0] == mark {
        Some(unspaced(bytes.drop_first()))
    } else {
        None
    }
}

/// The value that the bytes begin with, and what follows it and the white space
/// behind it.
pub open spec fn next_value(bytes: Seq<u8>) -> Option<(Seq<u8>, Seq<u8>)> {
    match leading_value(bytes) {
        Some(n) => if 0 < n && n <= bytes.len() {
            Some((bytes.take(n as int), unspaced(bytes.skip(n as int))))
        } else {
            None
        },
        None => None,
    }
}

/// The member that the bytes begin with, as its name and the bytes of its value,
/// and what follows it.
pub open spec fn next_member(bytes: Seq<u8>) -> Option<((Seq<char>, Seq<u8>), Seq<u8>)> {
    match next_value(bytes) {
        Some((key, rest)) => match (parsed(key), after(rest, COLON)) {
            (Ok(Json::Text(name)), Some(at)) => match next_value(at) {
                Some((value, rest)) => Some(((name, value), rest)),
                None => None,
            },
            _ => None,
        },
        None => None,
    }
}

/// Every step leaves fewer bytes than it found.
pub proof fn lemma_steps_go_on(bytes: Seq<u8>)
    ensures
        next_value(bytes) matches Some((value, rest)) ==> rest.len() < bytes.len(),
        next_member(bytes) matches Some((part, rest)) ==> rest.len() < bytes.len(),
{
    if let Some((key, rest)) = next_value(bytes) {
        lemma_unspaced_is_no_longer(bytes.skip(key.len() as int));
        if let Some(at) = after(rest, COLON) {
            lemma_unspaced_is_no_longer(rest.drop_first());
            if let Some((value, end)) = next_value(at) {
                lemma_unspaced_is_no_longer(at.skip(value.len() as int));
            }
        }
    }
}

/// The members of a record from one of them on, up to the brace that closes it,
/// with nothing behind that.
pub open spec fn members_from(bytes: Seq<u8>) -> Option<Seq<(Seq<char>, Seq<u8>)>>
    decreases bytes.len(),
{
    match next_member(bytes) {
        Some((part, rest)) => if after(rest, CLOSE_BRACE) == Some(Seq::<u8>::empty()) {
            Some(seq![part])
        } else {
            match after(rest, COMMA) {
                Some(more) => {
                    proof {
                        lemma_steps_go_on(bytes);
                        lemma_unspaced_is_no_longer(rest.drop_first());
                    }
                    match members_from(more) {
                        Some(others) => Some(seq![part] + others),
                        None => None,
                    }
                },
                None => None,
            }
        },
        None => None,
    }
}

/// The members of a record in their order, each as its name and the bytes of its
/// value, where the bytes are a record with white space around it.
pub open spec fn record_in(bytes: Seq<u8>) -> Option<Seq<(Seq<char>, Seq<u8>)>> {
    match after(unspaced(bytes), OPEN_BRACE) {
        Some(inner) => if after(inner, CLOSE_BRACE) == Some(Seq::<u8>::empty()) {
            Some(Seq::empty())
        } else {
            members_from(inner)
        },
        None => None,
    }
}

/// The items of a list from one of them on, up to the bracket that closes it, with
/// nothing behind that.
pub open spec fn items_from(bytes: Seq<u8>) -> Option<Seq<Seq<u8>>>
    decreases bytes.len(),
{
    match next_value(bytes) {
        Some((item, rest)) => if after(rest, CLOSE_BRACKET) == Some(Seq::<u8>::empty()) {
            Some(seq![item])
        } else {
            match after(rest, COMMA) {
                Some(more) => {
                    proof {
                        lemma_steps_go_on(bytes);
                        lemma_unspaced_is_no_longer(rest.drop_first());
                    }
                    match items_from(more) {
                        Some(others) => Some(seq![item] + others),
                        None => None,
                    }
                },
                None => None,
            }
        },
        None => None,
    }
}

/// The bytes of the items of a list in their order, where the bytes are a list
/// with white space around it.
pub open spec fn list_in(bytes: Seq<u8>) -> Option<Seq<Seq<u8>>> {
    match after(unspaced(bytes), OPEN_BRACKET) {
        Some(inner) => if after(inner, CLOSE_BRACKET) == Some(Seq::<u8>::empty()) {
            Some(Seq::empty())
        } else {
            items_from(inner)
        },
        None => None,
    }
}

/// Whether the bytes read as the tree: parsed at once, and stepped through as far
/// down as the tree goes.
pub open spec fn reads_as(bytes: Seq<u8>, tree: Json, depth: nat) -> bool
    decreases depth,
{
    &&& parsed(bytes) == Ok::<Json, Seq<char>>(tree)
    &&& match tree {
        Json::Record(members) => {
            &&& depth > 0
            &&& record_in(bytes) is Some
            &&& record_in(bytes)->0.len() == members.len()
            &&& forall|i: int|
                0 <= i < members.len() ==> (#[trigger] record_in(bytes)->0[i]).0 == members[i].0
                    && reads_as(record_in(bytes)->0[i].1, members[i].1, (depth - 1) as nat)
        },
        Json::List(items) => {
            &&& depth > 0
            &&& list_in(bytes) is Some
            &&& list_in(bytes)->0.len() == items.len()
            &&& forall|i: int|
                0 <= i < items.len() ==> reads_as(
                    #[trigger] list_in(bytes)->0[i],
                    items[i],
                    (depth - 1) as nat,
                )
        },
        _ => true,
    }
}

/// Whether a text reads as the tree, with a newline after it or without.
pub open spec fn reads_as_text(text: Seq<char>, tree: Json) -> bool {
    &&& reads_as(encode_utf8(text), tree, MAX_DEPTH as nat)
    &&& reads_as(encode_utf8(text.push('\n')), tree, MAX_DEPTH as nat)
}

/// The bytes without the white space that they begin with.
fn skip_space(bytes: &[u8]) -> (rest: &[u8])
    ensures
        rest@ == unspaced(bytes@),
{
    let mut i: usize = 0;
    assert(bytes@.skip(0) =~= bytes@);
    while i < bytes.len() && (bytes[i] == 32 || bytes[i] == 9 || bytes[i] == 10 || bytes[i] == 13)
        invariant
            i <= bytes@.len(),
            unspaced(bytes@) == unspaced(bytes@.skip(i as int)),
        decreases bytes@.len() - i,
    {
        assert(bytes@.skip(i as int)[0] == bytes@[i as int]);
        assert(bytes@.skip(i as int).drop_first() =~= bytes@.skip(i + 1));
        i = i + 1;
    }
    proof {
        if i < bytes@.len() {
            assert(bytes@.skip(i as int)[0] == bytes@[i as int]);
        }
        assert(bytes@.subrange(i as int, bytes@.len() as int) =~= bytes@.skip(i as int));
    }
    slice_subrange(bytes, i, bytes.len())
}

/// What follows a mark and the white space behind it.
fn step_mark(bytes: &[u8], mark: u8) -> (rest: Option<&[u8]>)
    ensures
        match rest {
            Some(r) => after(bytes@, mark) == Some(r@),
            None => after(bytes@, mark) is None,
        },
{
    if bytes.len() > 0 && bytes[0] == mark {
        let behind = slice_subrange(bytes, 1, bytes.len());
        assert(behind@ =~= bytes@.drop_first());
        Some(skip_space(behind))
    } else {
        None
    }
}

/// Whether a mark and white space are all that there is.
fn ends_with_mark(bytes: &[u8], mark: u8) -> (ends: bool)
    ensures
        ends == (after(bytes@, mark) == Some(Seq::<u8>::empty())),
{
    match step_mark(bytes, mark) {
        Some(rest) => {
            assert(rest@.len() == 0 ==> rest@ =~= Seq::<u8>::empty());
            rest.len() == 0
        },
        None => false,
    }
}

/// The value that the bytes begin with, and what follows it.
fn step_value(bytes: &[u8]) -> (found: Option<(&[u8], &[u8])>)
    ensures
        match found {
            Some((value, rest)) => next_value(bytes@) == Some((value@, rest@)),
            None => next_value(bytes@) is None,
        },
{
    match step(bytes) {
        Some(n) => {
            let value = slice_subrange(bytes, 0, n);
            let behind = slice_subrange(bytes, n, bytes.len());
            assert(value@ =~= bytes@.take(n as int));
            assert(behind@ =~= bytes@.skip(n as int));
            Some((value, skip_space(behind)))
        },
        None => None,
    }
}

/// The member that the bytes begin with, and what follows it.
fn step_member(bytes: &[u8]) -> (found: Option<((String, &[u8]), &[u8])>)
    ensures
        match found {
            Some((part, rest)) => next_member(bytes@) == Some(((part.0@, part.1@), rest@)),
            None => next_member(bytes@) is None,
        },
{
    let (key, rest): (&[u8], &[u8]) = match step_value(bytes) {
        Some(found) => found,
        None => return None,
    };
    let name: String = match read_text(key) {
        Some(name) => name,
        None => return None,
    };
    let at: &[u8] = match step_mark(rest, COLON) {
        Some(at) => at,
        None => return None,
    };
    match step_value(at) {
        Some((value, rest)) => Some(((name, value), rest)),
        None => None,
    }
}

/// What the parts of a record say.
pub open spec fn part_views(parts: Seq<(String, &[u8])>) -> Seq<(Seq<char>, Seq<u8>)> {
    parts.map_values(|part: (String, &[u8])| (part.0@, part.1@))
}

/// What several runs of bytes are.
pub open spec fn byte_views(parts: Seq<&[u8]>) -> Seq<Seq<u8>> {
    parts.map_values(|part: &[u8]| part@)
}

/// The members of a record.
fn record_of(bytes: &[u8]) -> (record: Option<Vec<(String, &[u8])>>)
    ensures
        match record {
            Some(parts) => record_in(bytes@) == Some(part_views(parts@)),
            None => record_in(bytes@) is None,
        },
{
    let mut parts: Vec<(String, &[u8])> = Vec::new();
    let mut at: &[u8] = match step_mark(skip_space(bytes), OPEN_BRACE) {
        Some(inner) => inner,
        None => return None,
    };
    assert(part_views(parts@) =~= Seq::<(Seq<char>, Seq<u8>)>::empty());
    if ends_with_mark(at, CLOSE_BRACE) {
        return Some(parts);
    }
    proof {
        if let Some(others) = members_from(at@) {
            assert(part_views(parts@) + others =~= others);
        }
    }
    loop
        invariant
            record_in(bytes@) == match members_from(at@) {
                Some(others) => Some(part_views(parts@) + others),
                None => None,
            },
        decreases at@.len(),
    {
        let ghost before = part_views(parts@);
        let (part, rest): ((String, &[u8]), &[u8]) = match step_member(at) {
            Some(found) => found,
            None => return None,
        };
        proof {
            lemma_steps_go_on(at@);
        }
        let ghost added = (part.0@, part.1@);
        parts.push(part);
        assert(part_views(parts@) =~= before + seq![added]);
        if ends_with_mark(rest, CLOSE_BRACE) {
            return Some(parts);
        }
        let ghost start = at@;
        at = match step_mark(rest, COMMA) {
            Some(more) => more,
            None => return None,
        };
        proof {
            lemma_unspaced_is_no_longer(rest@.drop_first());
            if let Some(others) = members_from(at@) {
                assert(before + (seq![added] + others) =~= part_views(parts@) + others);
            }
        }
    }
}

/// The bytes of the items of a list.
pub(crate) fn list_of(bytes: &[u8]) -> (list: Option<Vec<&[u8]>>)
    ensures
        match list {
            Some(parts) => list_in(bytes@) == Some(byte_views(parts@)),
            None => list_in(bytes@) is None,
        },
{
    let mut parts: Vec<&[u8]> = Vec::new();
    let mut at: &[u8] = match step_mark(skip_space(bytes), OPEN_BRACKET) {
        Some(inner) => inner,
        None => return None,
    };
    assert(byte_views(parts@) =~= Seq::<Seq<u8>>::empty());
    if ends_with_mark(at, CLOSE_BRACKET) {
        return Some(parts);
    }
    proof {
        if let Some(others) = items_from(at@) {
            assert(byte_views(parts@) + others =~= others);
        }
    }
    loop
        invariant
            list_in(bytes@) == match items_from(at@) {
                Some(others) => Some(byte_views(parts@) + others),
                None => None,
            },
        decreases at@.len(),
    {
        let ghost before = byte_views(parts@);
        let (item, rest): (&[u8], &[u8]) = match step_value(at) {
            Some(found) => found,
            None => return None,
        };
        proof {
            lemma_steps_go_on(at@);
        }
        parts.push(item);
        assert(byte_views(parts@) =~= before + seq![item@]);
        if ends_with_mark(rest, CLOSE_BRACKET) {
            return Some(parts);
        }
        at = match step_mark(rest, COMMA) {
            Some(more) => more,
            None => return None,
        };
        proof {
            lemma_unspaced_is_no_longer(rest@.drop_first());
            if let Some(others) = items_from(at@) {
                assert(before + (seq![item@] + others) =~= byte_views(parts@) + others);
            }
        }
    }
}

// ---------------------------------------------------------------------------
// Shapes shared by several types
// ---------------------------------------------------------------------------
/// The values that are given under a name, in their order.
pub open spec fn given(parts: Seq<(Seq<char>, Seq<u8>)>, name: Seq<char>) -> Seq<Seq<u8>>
    decreases parts.len(),
{
    if parts.len() == 0 {
        Seq::empty()
    } else if parts.last().0 == name {
        given(parts.drop_last(), name).push(parts.last().1)
    } else {
        given(parts.drop_last(), name)
    }
}

/// The value of the member of that name, if it is given once and no more.
pub open spec fn only(parts: Seq<(Seq<char>, Seq<u8>)>, name: Seq<char>) -> Option<Seq<u8>> {
    if given(parts, name).len() == 1 {
        Some(given(parts, name)[0])
    } else {
        None
    }
}

/// The values of the named members, for a record that gives each of them once,
/// whatever else it gives, or the items of a list that is as long, after the first
/// `skip` of them.
pub open spec fn fields(bytes: Seq<u8>, skip: nat, names: Seq<Seq<char>>) -> Option<Seq<Seq<u8>>> {
    match record_in(bytes) {
        Some(parts) => if forall|i: int|
            0 <= i < names.len() ==> only(parts, #[trigger] names[i]) is Some {
            Some(names.map_values(|name: Seq<char>| only(parts, name)->0))
        } else {
            None
        },
        None => match list_in(bytes) {
            Some(items) => if items.len() == skip + names.len() {
                Some(items.skip(skip as int))
            } else {
                None
            },
            None => None,
        },
    }
}

/// The views of several texts.
pub open spec fn views(names: Seq<&str>) -> Seq<Seq<char>> {
    names.map_values(|name: &str| name@)
}

/// The value of the member of that name, if it is given once and no more.
fn find<'a>(parts: &[(String, &'a [u8])], name: &str) -> (value: Option<&'a [u8]>)
    ensures
        match value {
            Some(v) => only(part_views(parts@), name@) == Some(v@),
            None => only(part_views(parts@), name@) is None,
        },
{
    let ghost all = part_views(parts@);
    let mut found: Option<&'a [u8]> = None;
    let mut twice = false;
    for i in 0..parts.len()
        invariant
            all == part_views(parts@),
            match found {
                Some(v) => if twice {
                    given(all.take(i as int), name@).len() > 1
                } else {
                    given(all.take(i as int), name@) =~= seq![v@]
                },
                None => !twice && given(all.take(i as int), name@).len() == 0,
            },
    {
        assert(all.take(i + 1).drop_last() =~= all.take(i as int));
        assert(all.take(i + 1).last() == (parts@[i as int].0@, parts@[i as int].1@));
        if text::same_text(parts[i].0.as_str(), name) {
            if found.is_some() {
                twice = true;
            }
            found = Some(parts[i].1);
        }
    }
    assert(all.take(all.len() as int) =~= all);
    if twice {
        None
    } else {
        found
    }
}

/// The value of the member of that name of a record, if it is given once, and the
/// first item of a list.
pub open spec fn first_field(bytes: Seq<u8>, name: Seq<char>) -> Option<Seq<u8>> {
    match record_in(bytes) {
        Some(parts) => only(parts, name),
        None => match list_in(bytes) {
            Some(items) => if items.len() > 0 {
                Some(items[0])
            } else {
                None
            },
            None => None,
        },
    }
}

/// The value of the member of that name of a record, or the first item of a list.
pub(crate) fn get_first<'a>(bytes: &'a [u8], name: &str) -> (value: Option<&'a [u8]>)
    ensures
        match value {
            Some(v) => first_field(bytes@, name@) == Some(v@),
            None => first_field(bytes@, name@) is None,
        },
{
    if let Some(parts) = record_of(bytes) {
        return find(parts.as_slice(), name);
    }
    match list_of(bytes) {
        Some(items) => if items.len() > 0 {
            Some(items[0])
        } else {
            None
        },
        None => None,
    }
}

/// The values of the named members, or the items of a list that is as long.
pub(crate) fn get_fields<'a>(bytes: &'a [u8], skip: usize, names: &[&str]) -> (found: Option<
    Vec<&'a [u8]>,
>)
    requires
        skip + names@.len() <= usize::MAX,
    ensures
        match found {
            Some(values) => {
                &&& fields(bytes@, skip as nat, views(names@)) == Some(byte_views(values@))
                &&& values@.len() == names@.len()
            },
            None => fields(bytes@, skip as nat, views(names@)) is None,
        },
{
    let ghost wanted = views(names@);
    let mut values: Vec<&'a [u8]> = Vec::new();
    if let Some(parts) = record_of(bytes) {
        let ghost all = part_views(parts@);
        for i in 0..names.len()
            invariant
                wanted == views(names@),
                record_in(bytes@) == Some(all),
                all == part_views(parts@),
                values@.len() == i,
                forall|j: int|
                    0 <= j < i ==> only(all, #[trigger] wanted[j]) == Some(values@[j]@),
        {
            assert(wanted[i as int] == names@[i as int]@);
            match find(parts.as_slice(), names[i]) {
                Some(value) => {
                    values.push(value);
                },
                None => {
                    return None;
                },
            }
        }
        assert(wanted.map_values(|name: Seq<char>| only(all, name)->0) =~= byte_views(values@));
        return Some(values);
    }
    let items: Vec<&'a [u8]> = match list_of(bytes) {
        Some(items) => items,
        None => return None,
    };
    if items.len() != skip + names.len() {
        return None;
    }
    for i in 0..names.len()
        invariant
            items@.len() == skip + names@.len(),
            skip + names@.len() <= usize::MAX,
            values@.len() == i,
            forall|j: int| 0 <= j < i ==> #[trigger] values@[j] == items@[skip + j],
    {
        values.push(items[skip + i]);
    }
    assert(byte_views(items@).skip(skip as int) =~= byte_views(values@));
    Some(values)
}

proof fn lemma_given_none(parts: Seq<(Seq<char>, Seq<u8>)>, name: Seq<char>)
    requires
        forall|i: int| 0 <= i < parts.len() ==> (#[trigger] parts[i]).0 != name,
    ensures
        given(parts, name) == Seq::<Seq<u8>>::empty(),
    decreases parts.len(),
{
    if parts.len() > 0 {
        assert(parts[parts.len() - 1].0 != name);
        lemma_given_none(parts.drop_last(), name);
    }
}

proof fn lemma_given_once(parts: Seq<(Seq<char>, Seq<u8>)>, at: int)
    requires
        0 <= at < parts.len(),
        forall|i: int|
            0 <= i < parts.len() && i != at ==> (#[trigger] parts[i]).0 != parts[at].0,
    ensures
        given(parts, parts[at].0) == seq![parts[at].1],
    decreases parts.len(),
{
    let front = parts.drop_last();
    let name = parts[at].0;
    if at == parts.len() - 1 {
        assert forall|i: int| 0 <= i < front.len() implies (#[trigger] front[i]).0 != name by {
            assert(parts[i].0 != name);
        }
        lemma_given_none(front, name);
        assert(given(parts, name) =~= seq![parts[at].1]);
    } else {
        assert(parts[parts.len() - 1].0 != name);
        assert forall|i: int| 0 <= i < front.len() && i != at implies (#[trigger] front[i]).0
            != front[at].0 by {
            assert(parts[i].0 != name);
        }
        lemma_given_once(front, at);
    }
}

/// The names of the members of a record.
pub open spec fn member_names(members: Seq<(Seq<char>, Json)>) -> Seq<Seq<char>> {
    members.map_values(|m: (Seq<char>, Json)| m.0)
}

/// A record that reads as a tree whose names are distinct gives each of them once,
/// and under each name the value that reads as the member's tree.
pub proof fn lemma_fields_read_back(
    bytes: Seq<u8>,
    members: Seq<(Seq<char>, Json)>,
    depth: nat,
    skip: nat,
)
    requires
        reads_as(bytes, Json::Record(members), depth),
        distinct(member_names(members)),
        skip < members.len(),
    ensures
        fields(bytes, skip, member_names(members).skip(skip as int)) is Some,
        ({
            let values = fields(bytes, skip, member_names(members).skip(skip as int))->0;
            &&& values.len() == members.len() - skip
            &&& forall|j: int|
                0 <= j < values.len() ==> reads_as(
                    #[trigger] values[j],
                    members[skip + j].1,
                    (depth - 1) as nat,
                )
        }),
        first_field(bytes, members[0].0) is Some,
        reads_as(first_field(bytes, members[0].0)->0, members[0].1, (depth - 1) as nat),
{
    let parts = record_in(bytes)->0;
    let all = member_names(members);
    let names = all.skip(skip as int);
    assert forall|i: int| 0 <= i < members.len() implies only(parts, #[trigger] all[i]) == Some(
        parts[i].1,
    ) by {
        assert(parts[i].0 == members[i].0);
        assert forall|k: int| 0 <= k < parts.len() && k != i implies (#[trigger] parts[k]).0
            != parts[i].0 by {
            assert(parts[k].0 == members[k].0);
            assert(all[k] == members[k].0 && all[i] == members[i].0);
            if k < i {
                assert(all[k] != all[i]);
            } else {
                assert(all[i] != all[k]);
            }
        }
        lemma_given_once(parts, i);
    }
    assert forall|j: int| 0 <= j < names.len() implies only(parts, #[trigger] names[j]) == Some(
        parts[skip + j].1,
    ) by {
        assert(names[j] == all[skip + j]);
    }
    let values = names.map_values(|name: Seq<char>| only(parts, name)->0);
    assert forall|j: int| 0 <= j < values.len() implies reads_as(
        #[trigger] values[j],
        members[skip + j].1,
        (depth - 1) as nat,
    ) by {
        assert(values[j] == only(parts, names[j])->0);
        assert(values[j] == parts[skip + j].1);
    }
    assert(all[0] == members[0].0);
    assert(parts[0].0 == members[0].0);
}

/// The text that the bytes of a value say.
pub open spec fn text_at(bytes: Seq<u8>) -> Option<Seq<char>> {
    match parsed(bytes) {
        Ok(Json::Text(text)) => Some(text),
        _ => None,
    }
}

/// The number that the bytes of a value say.
pub open spec fn number_at(bytes: Seq<u8>) -> Option<u64> {
    match parsed(bytes) {
        Ok(Json::Number(n)) => Some(n),
        _ => None,
    }
}

/// The bytes that the bytes of a value say, as a list of numbers.
pub open spec fn bytes_at(bytes: Seq<u8>) -> Option<Seq<u8>> {
    match parsed(bytes) {
        Ok(tree) => bytes_in(tree),
        Err(_) => None,
    }
}

/// The text that the bytes of a value say.
pub(crate) fn read_text(bytes: &[u8]) -> (text: Option<String>)
    ensures
        match text {
            Some(t) => text_at(bytes@) == Some(t@),
            None => text_at(bytes@) is None,
        },
{
    match parse(bytes) {
        Ok(document) => match as_text(&document) {
            Some(text) => Some(text.to_owned()),
            None => None,
        },
        Err(_) => None,
    }
}

/// The number that the bytes of a value say.
pub(crate) fn read_number(bytes: &[u8]) -> (number: Option<u64>)
    ensures
        number == number_at(bytes@),
{
    match parse(bytes) {
        Ok(document) => as_number(&document),
        Err(_) => None,
    }
}

/// The bytes that the bytes of a value say, as a list of numbers.
pub(crate) fn read_bytes(bytes: &[u8]) -> (read: Option<Vec<u8>>)
    ensures
        match read {
            Some(b) => bytes_at(bytes@) == Some(b@),
            None => bytes_at(bytes@) is None,
        },
{
    match parse(bytes) {
        Ok(document) => as_bytes(&document),
        Err(_) => None,
    }
}

/// The list of numbers that stands for bytes.
pub open spec fn bytes_tree(bytes: Seq<u8>) -> Json {
    Json::List(bytes.map_values(|b: u8| Json::Number(b as u64)))
}

/// Whether a tree is a number that fits in a byte.
pub open spec fn is_byte(tree: Json) -> bool {
    tree matches Json::Number(n) && n < 256
}

/// The bytes that a list of numbers stands for.
pub open spec fn bytes_in(tree: Json) -> Option<Seq<u8>> {
    match tree {
        Json::List(items) => if forall|i: int| 0 <= i < items.len() ==> is_byte(#[trigger] items[i]) {
            Some(items.map_values(|item: Json| item->Number_0 as u8))
        } else {
            None
        },
        _ => None,
    }
}

/// Bytes written as numbers are read back as the same bytes.
pub proof fn lemma_bytes_read_back(bytes: Seq<u8>, depth: nat)
    requires
        0 < depth,
    ensures
        bytes_in(bytes_tree(bytes)) == Some(bytes),
        plain(bytes_tree(bytes), depth),
{
    reveal_with_fuel(plain, 2);
    let items = bytes.map_values(|b: u8| Json::Number(b as u64));
    assert(items.map_values(|item: Json| item->Number_0 as u8) =~= bytes);
}

/// Bytes as a list of numbers.
pub(crate) fn from_bytes(bytes: &[u8]) -> (document: Value)
    ensures
        tree(document) == bytes_tree(bytes@),
{
    let mut items: Vec<Value> = Vec::new();
    for i in 0..bytes.len()
        invariant
            items@.len() == i,
            forall|j: int|
                0 <= j < i ==> tree(#[trigger] items@[j]) == Json::Number(bytes@[j] as u64),
    {
        items.push(from_number(bytes[i] as u64));
    }
    assert(trees(items@) =~= bytes@.map_values(|b: u8| Json::Number(b as u64)));
    from_list(items)
}

/// The bytes that a list of numbers stands for.
fn as_bytes(document: &Value) -> (bytes: Option<Vec<u8>>)
    ensures
        match bytes {
            Some(b) => bytes_in(tree(*document)) == Some(b@),
            None => bytes_in(tree(*document)) is None,
        },
{
    let items: &Vec<Value> = match as_list(document) {
        Some(items) => items,
        None => return None,
    };
    let ghost all = trees(items@);
    let mut bytes: Vec<u8> = Vec::new();
    for i in 0..items.len()
        invariant
            all == trees(items@),
            tree(*document) == Json::List(all),
            bytes@.len() == i,
            forall|j: int|
                0 <= j < i ==> is_byte(#[trigger] all[j]) && bytes@[j] == all[j]->Number_0,
    {
        assert(all[i as int] == tree(items@[i as int]));
        match as_number(&items[i]) {
            Some(n) => {
                if n >= 256 {
                    return None;
                }
                bytes.push(n as u8);
            },
            None => return None,
        }
    }
    assert(all.map_values(|item: Json| item->Number_0 as u8) =~= bytes@);
    Some(bytes)
}

// ---------------------------------------------------------------------------
// What holds of all of it
// ---------------------------------------------------------------------------
/// Whether the bytes are white space, and nothing else.
pub open spec fn all_space(bytes: Seq<u8>) -> bool {
    forall|i: int|
        0 <= i < bytes.len() ==> (#[trigger] bytes[i] == ' ' as u8 || bytes[i] == '\t' as u8
            || bytes[i] == '\n' as u8 || bytes[i] == '\r' as u8)
}

/// Whether the bytes begin with something other than white space.
pub open spec fn starts_solid(bytes: Seq<u8>) -> bool {
    bytes.len() > 0 && bytes[0] != ' ' as u8 && bytes[0] != '\t' as u8 && bytes[0] != '\n' as u8
        && bytes[0] != '\r' as u8
}

/// White space is stepped over, and nothing else is.
pub proof fn law_white_space_is_stepped_over(space: Seq<u8>, bytes: Seq<u8>)
    requires
        all_space(space),
        bytes.len() == 0 || starts_solid(bytes),
    ensures
        unspaced(space + bytes) == bytes,
    decreases space.len(),
{
    if space.len() == 0 {
        assert(space + bytes =~= bytes);
    } else {
        let rest = space.drop_first();
        assert((space + bytes)[0] == space[0]);
        assert((space + bytes).drop_first() =~= rest + bytes);
        assert forall|i: int| 0 <= i < rest.len() implies (#[trigger] rest[i] == ' ' as u8
            || rest[i] == '\t' as u8 || rest[i] == '\n' as u8 || rest[i] == '\r' as u8) by {
            assert(rest[i] == space[i + 1]);
        }
        law_white_space_is_stepped_over(rest, bytes);
    }
}

proof fn lemma_marked(mark: u8, space: Seq<u8>, bytes: Seq<u8>)
    requires
        all_space(space),
        bytes.len() == 0 || starts_solid(bytes),
    ensures
        after(seq![mark] + space + bytes, mark) == Some(bytes),
{
    let whole = seq![mark] + space + bytes;
    assert(whole.drop_first() =~= space + bytes);
    law_white_space_is_stepped_over(space, bytes);
}

proof fn lemma_value_found(value: Seq<u8>, space: Seq<u8>, bytes: Seq<u8>)
    requires
        value.len() > 0,
        leading_value(value + space + bytes) == Some(value.len()),
        all_space(space),
        bytes.len() == 0 || starts_solid(bytes),
    ensures
        next_value(value + space + bytes) == Some((value, bytes)),
{
    let whole = value + space + bytes;
    assert(whole.take(value.len() as int) =~= value);
    assert(whole.skip(value.len() as int) =~= space + bytes);
    law_white_space_is_stepped_over(space, bytes);
}

/// Two braces with white space in and around them are a record without members, and
/// two brackets a list without items.
pub proof fn law_what_holds_nothing(before: Seq<u8>, between: Seq<u8>, behind: Seq<u8>)
    requires
        all_space(before),
        all_space(between),
        all_space(behind),
    ensures
        record_in(before + (seq!['{' as u8] + between + (seq!['}' as u8] + behind))) == Some(
            Seq::<(Seq<char>, Seq<u8>)>::empty(),
        ),
        list_in(before + (seq!['[' as u8] + between + (seq![']' as u8] + behind))) == Some(
            Seq::<Seq<u8>>::empty(),
        ),
{
    let none = Seq::<u8>::empty();
    let brace = seq!['}' as u8] + behind;
    let bracket = seq![']' as u8] + behind;
    assert(brace + none =~= brace);
    assert(bracket + none =~= bracket);
    lemma_marked('}' as u8, behind, none);
    lemma_marked(']' as u8, behind, none);
    lemma_marked('{' as u8, between, brace);
    lemma_marked('[' as u8, between, bracket);
    law_white_space_is_stepped_over(before, seq!['{' as u8] + between + brace);
    law_white_space_is_stepped_over(before, seq!['[' as u8] + between + bracket);
}

/// A brace, with white space around it, opens a record, whose members are those from
/// the first of them on, and a bracket a list in the same way; nothing else opens
/// either.
pub proof fn law_what_opens_a_record_or_a_list(before: Seq<u8>, space: Seq<u8>, inner: Seq<u8>)
    requires
        all_space(before),
        all_space(space),
        starts_solid(inner),
    ensures
        inner[0] != '}' as u8 ==> record_in(before + (seq!['{' as u8] + space + inner))
            == members_from(inner),
        inner[0] != ']' as u8 ==> list_in(before + (seq!['[' as u8] + space + inner))
            == items_from(inner),
        inner[0] != '{' as u8 ==> record_in(before + inner) is None,
        inner[0] != '[' as u8 ==> list_in(before + inner) is None,
{
    lemma_marked('{' as u8, space, inner);
    lemma_marked('[' as u8, space, inner);
    law_white_space_is_stepped_over(before, seq!['{' as u8] + space + inner);
    law_white_space_is_stepped_over(before, seq!['[' as u8] + space + inner);
    law_white_space_is_stepped_over(before, inner);
}

/// A member is a name, a colon and a value, with white space between them as it may
/// be. With a closing brace behind it, and nothing but white space after that, it is
/// the last; with a comma, the members behind that follow it; and with anything else
/// there is no record.
pub proof fn law_members_are_read_one_by_one(
    key: Seq<u8>,
    name: Seq<char>,
    s1: Seq<u8>,
    s2: Seq<u8>,
    value: Seq<u8>,
    s3: Seq<u8>,
    mark: u8,
    s4: Seq<u8>,
    rest: Seq<u8>,
)
    requires
        all_space(s1),
        all_space(s2),
        all_space(s3),
        all_space(s4),
        rest.len() == 0 || starts_solid(rest),
        starts_solid(seq![mark]),
        key.len() > 0,
        parsed(key) == Ok::<Json, Seq<char>>(Json::Text(name)),
        starts_solid(value),
        ({
            let behind = seq![mark] + s4 + rest;
            let pair = value + s3 + behind;
            &&& leading_value(pair) == Some(value.len())
            &&& leading_value(key + s1 + (seq![':' as u8] + s2 + pair)) == Some(key.len())
        }),
    ensures
        ({
            let behind = seq![mark] + s4 + rest;
            let pair = value + s3 + behind;
            let whole = key + s1 + (seq![':' as u8] + s2 + pair);
            &&& mark == '}' as u8 && rest.len() == 0 ==> members_from(whole) == Some(
                seq![(name, value)],
            )
            &&& mark == '}' as u8 && rest.len() > 0 ==> members_from(whole) is None
            &&& mark == ',' as u8 ==> members_from(whole) == match members_from(rest) {
                Some(others) => Some(seq![(name, value)] + others),
                None => None,
            }
            &&& mark != '}' as u8 && mark != ',' as u8 ==> members_from(whole) is None
        }),
{
    let behind = seq![mark] + s4 + rest;
    let pair = value + s3 + behind;
    let whole = key + s1 + (seq![':' as u8] + s2 + pair);
    lemma_marked(mark, s4, rest);
    assert(starts_solid(behind));
    lemma_value_found(value, s3, behind);
    assert(pair[0] == value[0]);
    lemma_marked(':' as u8, s2, pair);
    assert(starts_solid(seq![':' as u8] + s2 + pair));
    lemma_value_found(key, s1, seq![':' as u8] + s2 + pair);
    assert(next_member(whole) == Some(((name, value), behind)));
    if rest.len() == 0 {
        assert(rest =~= Seq::<u8>::empty());
    }
}

/// With a closing bracket behind it, and nothing but white space after that, an item of
/// a list is the last; with a comma, the items behind that follow it; and with anything
/// else there is no list.
pub proof fn law_items_are_read_one_by_one(
    value: Seq<u8>,
    s3: Seq<u8>,
    mark: u8,
    s4: Seq<u8>,
    rest: Seq<u8>,
)
    requires
        all_space(s3),
        all_space(s4),
        rest.len() == 0 || starts_solid(rest),
        starts_solid(seq![mark]),
        value.len() > 0,
        leading_value(value + s3 + (seq![mark] + s4 + rest)) == Some(value.len()),
    ensures
        ({
            let whole = value + s3 + (seq![mark] + s4 + rest);
            &&& mark == ']' as u8 && rest.len() == 0 ==> items_from(whole) == Some(seq![value])
            &&& mark == ']' as u8 && rest.len() > 0 ==> items_from(whole) is None
            &&& mark == ',' as u8 ==> items_from(whole) == match items_from(rest) {
                Some(others) => Some(seq![value] + others),
                None => None,
            }
            &&& mark != ']' as u8 && mark != ',' as u8 ==> items_from(whole) is None
        }),
{
    let behind = seq![mark] + s4 + rest;
    lemma_marked(mark, s4, rest);
    assert(starts_solid(behind));
    lemma_value_found(value, s3, behind);
    if rest.len() == 0 {
        assert(rest =~= Seq::<u8>::empty());
    }
}

/// A member is found by its name where it is given once, with the very value that it is
/// given, and not where it is missing or given twice.
pub proof fn law_a_member_is_given_once(
    parts: Seq<(Seq<char>, Seq<u8>)>,
    name: Seq<char>,
    i: int,
    j: int,
)
    ensures
        0 <= i < parts.len() && parts[i].0 == name && (forall|k: int|
            0 <= k < parts.len() && k != i ==> (#[trigger] parts[k]).0 != name) ==> only(
            parts,
            name,
        ) == Some(parts[i].1),
        (forall|k: int| 0 <= k < parts.len() ==> (#[trigger] parts[k]).0 != name) ==> only(
            parts,
            name,
        ) is None,
        0 <= i < j < parts.len() && parts[i].0 == name && parts[j].0 == name ==> only(
            parts,
            name,
        ) is None,
{
    if 0 <= i < parts.len() && parts[i].0 == name && (forall|k: int|
        0 <= k < parts.len() && k != i ==> (#[trigger] parts[k]).0 != name) {
        lemma_given_once(parts, i);
    }
    if forall|k: int| 0 <= k < parts.len() ==> (#[trigger] parts[k]).0 != name {
        lemma_given_none(parts, name);
    }
    if 0 <= i < j < parts.len() && parts[i].0 == name && parts[j].0 == name {
        lemma_given_twice(parts, name, i, j);
    }
}

proof fn lemma_given_at_least_once(parts: Seq<(Seq<char>, Seq<u8>)>, name: Seq<char>, i: int)
    requires
        0 <= i < parts.len(),
        parts[i].0 == name,
    ensures
        given(parts, name).len() >= 1,
    decreases parts.len(),
{
    if i < parts.len() - 1 {
        lemma_given_at_least_once(parts.drop_last(), name, i);
    }
}

proof fn lemma_given_twice(parts: Seq<(Seq<char>, Seq<u8>)>, name: Seq<char>, i: int, j: int)
    requires
        0 <= i < j < parts.len(),
        parts[i].0 == name,
        parts[j].0 == name,
    ensures
        given(parts, name).len() >= 2,
    decreases parts.len(),
{
    if j < parts.len() - 1 {
        lemma_given_twice(parts.drop_last(), name, i, j);
    } else {
        lemma_given_at_least_once(parts.drop_last(), name, i);
    }
}

/// The fields of a record are found exactly when each of them is, in the order in which
/// they are asked for, whatever else the record gives.
pub proof fn law_the_fields_of_a_record(
    bytes: Seq<u8>,
    skip: nat,
    names: Seq<Seq<char>>,
    parts: Seq<(Seq<char>, Seq<u8>)>,
    i: int,
)
    requires
        record_in(bytes) == Some(parts),
        0 <= i < names.len(),
    ensures
        only(parts, names[i]) is None ==> fields(bytes, skip, names) is None,
        (forall|k: int| 0 <= k < names.len() ==> only(parts, #[trigger] names[k]) is Some)
            ==> fields(bytes, skip, names) is Some,
        fields(bytes, skip, names) is Some ==> fields(bytes, skip, names)->0.len() == names.len()
            && Some(fields(bytes, skip, names)->0[i]) == only(parts, names[i]),
        first_field(bytes, names[i]) == only(parts, names[i]),
{
}

/// The fields of a list are all of its items but those that are skipped, where there
/// are as many as are asked for; what is neither record nor list has no fields.
pub proof fn law_the_fields_of_a_list(
    bytes: Seq<u8>,
    skip: nat,
    names: Seq<Seq<char>>,
    name: Seq<char>,
)
    requires
        record_in(bytes) is None,
    ensures
        match list_in(bytes) {
            Some(items) => {
                &&& fields(bytes, skip, names) is Some <==> items.len() == skip + names.len()
                &&& fields(bytes, skip, names) is Some ==> items.take(skip as int) + fields(
                    bytes,
                    skip,
                    names,
                )->0 == items
                &&& items.len() > 0 ==> first_field(bytes, name) == Some(items[0])
                &&& items.len() == 0 ==> first_field(bytes, name) is None
            },
            None => fields(bytes, skip, names) is None && first_field(bytes, name) is None,
        },
{
    if let Some(items) = list_in(bytes) {
        if items.len() == skip + names.len() {
            assert(items.take(skip as int) + items.skip(skip as int) =~= items);
        }
    }
}

/// A value is read as the text, the number or the bytes that the parser finds it to be,
/// and as nothing that the parser does not; bytes are a list of whole numbers below 256.
pub proof fn law_what_a_value_says(bytes: Seq<u8>, text: Seq<char>, number: u64, read: Seq<u8>)
    ensures
        text_at(bytes) == Some(text) <==> parsed(bytes) == Ok::<Json, Seq<char>>(Json::Text(text)),
        number_at(bytes) == Some(number) <==> parsed(bytes) == Ok::<Json, Seq<char>>(
            Json::Number(number),
        ),
        bytes_at(bytes) == Some(read) <==> (parsed(bytes) matches Ok(Json::List(items))
            && items.len() == read.len() && (forall|i: int|
            0 <= i < items.len() ==> #[trigger] items[i] == Json::Number(read[i] as u64))),
{
    if let Ok(Json::List(items)) = parsed(bytes) {
        if bytes_at(bytes) == Some(read) {
            assert forall|i: int| 0 <= i < items.len() implies #[trigger] items[i]
                == Json::Number(read[i] as u64) by {
                assert(is_byte(items[i]));
                assert(read[i] == items[i]->Number_0 as u8);
            }
        }
        if items.len() == read.len() && (forall|i: int|
            0 <= i < items.len() ==> #[trigger] items[i] == Json::Number(read[i] as u64)) {
            assert(items.map_values(|item: Json| item->Number_0 as u8) =~= read);
        }
    }
}

/// Bytes are written as a list of their values, one number for each.
pub proof fn law_how_bytes_are_written(bytes: Seq<u8>)
    ensures
        bytes_tree(bytes) matches Json::List(items) && items.len() == bytes.len() && (forall|i: int|
            0 <= i < bytes.len() ==> #[trigger] items[i] == Json::Number(bytes[i] as u64)),
{
}

} // verus!
