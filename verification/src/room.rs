//! Room codes: who is allowed in.
//!
//! Encryption settles what a peer can read; it says nothing about who may join.
//! A room has one code, held by everybody in it, and a connection is refused
//! unless both ends prove that they hold it. The code itself never crosses the
//! wire.

use crate::bytes;
use crate::crypto;
use crate::digits;
use crate::identity;
use crate::identity::IdentityError;
use crate::secretfile::FoundFile;
use crate::text;
use hmac::{Hmac, Mac};
use sha2::Sha256;
use vstd::prelude::*;
use vstd::string::*;
use vstd::utf8::*;

verus! {

/// A code is 80 bits: far beyond guessing, while still short enough to read
/// down a phone.
pub const CODE_BYTES: usize = 10;

/// How many characters of the alphabet spell out a code, five bits to each.
pub const CODE_SYMBOLS: usize = 16;

/// The length of the nonce that each side contributes to a connection.
pub const NONCE_LEN: usize = 32;

/// The length of a proof.
pub const PROOF_LEN: usize = 32;

/// A room's invite code.
#[derive(PartialEq, Eq)]
pub struct RoomCode {
    bytes: [u8; 10],
}

impl View for RoomCode {
    type V = Seq<u8>;

    closed spec fn view(&self) -> Seq<u8> {
        self.bytes@
    }
}

/// Every code has ten bytes.
pub proof fn law_a_code_has_ten_bytes(code: RoomCode)
    ensures
        code@.len() == CODE_BYTES,
{
}

impl Clone for RoomCode {
    fn clone(&self) -> (copy: Self)
        ensures
            copy@ == self@,
    {
        RoomCode { bytes: self.bytes }
    }
}

/// Why a text is not a room code.
#[derive(Debug, PartialEq, Eq)]
pub enum RoomError {
    Malformed(&'static str),
}

/// The character for a five-bit value in Crockford's alphabet, which leaves out
/// I, L, O and U so that a code cannot be misread as a different valid one.
pub open spec fn symbol(v: int) -> u8 {
    if v < 10 {
        (48 + v) as u8
    } else if v < 18 {
        (55 + v) as u8
    } else if v < 20 {
        (56 + v) as u8
    } else if v < 22 {
        (57 + v) as u8
    } else if v < 27 {
        (58 + v) as u8
    } else {
        (59 + v) as u8
    }
}

/// The alphabet, written out.
pub proof fn law_alphabet(v: int)
    requires
        0 <= v < 32,
    ensures
        "0123456789ABCDEFGHJKMNPQRSTVWXYZ"@.len() == 32,
        "0123456789ABCDEFGHJKMNPQRSTVWXYZ"@[v] == symbol(v) as char,
{
    reveal_strlit("0123456789ABCDEFGHJKMNPQRSTVWXYZ");
}

/// Upper case, and the lookalikes of one and zero turned into those digits.
pub open spec fn folded(b: u8) -> u8 {
    let upper = if 97 <= b <= 122 {
        (b - 32) as u8
    } else {
        b
    };
    if upper == 73 || upper == 76 {
        49
    } else if upper == 79 {
        48
    } else {
        upper
    }
}

/// Whether a byte can stand in a code.
pub open spec fn is_symbol(b: u8) -> bool {
    exists|v: int| 0 <= v < 32 && folded(b) == #[trigger] symbol(v)
}

/// The five-bit value that a byte stands for.
pub open spec fn symbol_value(b: u8) -> u8 {
    (choose|v: int| 0 <= v < 32 && folded(b) == #[trigger] symbol(v)) as u8
}

/// Dashes, underscores, spaces, tabs and line ends are there for the reader.
pub open spec fn is_separator(b: u8) -> bool {
    b == 45 || b == 95 || b == 32 || b == 9 || b == 10 || b == 13
}

/// The bytes that are not separators.
pub open spec fn cleaned(bytes: Seq<u8>) -> Seq<u8> {
    bytes.filter(|b: u8| !is_separator(b))
}

/// `TIO`, which decorates the front of a code.
pub open spec fn prefix() -> Seq<u8> {
    seq![84u8, 73u8, 79u8]
}

/// `tio`, as good as the other.
pub open spec fn lower_prefix() -> Seq<u8> {
    seq![116u8, 105u8, 111u8]
}

/// The bytes after the prefix, where there is one.
pub open spec fn without_prefix(bytes: Seq<u8>) -> Seq<u8> {
    if bytes.len() >= 3 && (bytes.take(3) == prefix() || bytes.take(3) == lower_prefix()) {
        bytes.skip(3)
    } else {
        bytes
    }
}

/// What a text says once separators and prefix are gone.
pub open spec fn body(text: Seq<char>) -> Seq<u8> {
    without_prefix(cleaned(encode_utf8(text)))
}

/// Whether every byte can stand in a code.
pub open spec fn all_symbols(bytes: Seq<u8>) -> bool {
    forall|i: int| 0 <= i < bytes.len() ==> is_symbol(#[trigger] bytes[i])
}

/// The five-bit values that bytes stand for.
pub open spec fn symbol_values(bytes: Seq<u8>) -> Seq<u8> {
    bytes.map_values(|b: u8| symbol_value(b))
}

/// Whether the text spells out the code: sixteen characters of five bits that
/// make the same 80-bit number as the code's ten bytes.
pub open spec fn spells(text: Seq<char>, code: Seq<u8>) -> bool {
    &&& body(text).len() == CODE_SYMBOLS
    &&& all_symbols(body(text))
    &&& code.len() == CODE_BYTES
    &&& digits::value(code, 256) == digits::value(symbol_values(body(text)), 32)
}

/// The sixteen characters of a code.
pub open spec fn symbols_of(code: Seq<u8>) -> Seq<u8> {
    digits::digits_of(digits::value(code, 256), 16, 32).map_values(|d: u8| symbol(d as int))
}

/// Four characters of a code, the `g`th group of them.
pub open spec fn group(code: Seq<u8>, g: int) -> Seq<char> {
    symbols_of(code).subrange(4 * g, 4 * g + 4).map_values(|b: u8| b as char)
}

/// The form shown to people: the prefix and four groups of four, with dashes.
pub open spec fn display_text(code: Seq<u8>) -> Seq<char> {
    seq!['T', 'I', 'O', '-'] + group(code, 0) + seq!['-'] + group(code, 1) + seq!['-'] + group(
        code,
        2,
    ) + seq!['-'] + group(code, 3)
}

proof fn lemma_symbol_value(b: u8, v: int)
    requires
        0 <= v < 32,
        folded(b) == symbol(v),
    ensures
        is_symbol(b),
        symbol_value(b) == v,
{
    let w = choose|w: int| 0 <= w < 32 && folded(b) == #[trigger] symbol(w);
    assert(symbol(v) == symbol(w));
}

/// The five-bit value of a byte.
fn value_of_symbol(b: u8) -> (v: Option<u8>)
    ensures
        v is Some <==> is_symbol(b),
        v matches Some(n) ==> n == symbol_value(b) && n < 32,
{
    let upper: u8 = if 97 <= b && b <= 122 {
        b - 32
    } else {
        b
    };
    let folded_byte: u8 = if upper == 73 || upper == 76 {
        49
    } else if upper == 79 {
        48
    } else {
        upper
    };
    let n: u8 = if 48 <= folded_byte && folded_byte < 58 {
        folded_byte - 48
    } else if 65 <= folded_byte && folded_byte <= 72 {
        folded_byte - 55
    } else if 74 <= folded_byte && folded_byte <= 75 {
        folded_byte - 56
    } else if 77 <= folded_byte && folded_byte <= 78 {
        folded_byte - 57
    } else if 80 <= folded_byte && folded_byte <= 84 {
        folded_byte - 58
    } else if 86 <= folded_byte && folded_byte <= 90 {
        folded_byte - 59
    } else {
        return None;
    };
    proof {
        lemma_symbol_value(b, n as int);
    }
    Some(n)
}

/// The byte for a five-bit value.
fn symbol_for(v: u8) -> (b: u8)
    requires
        v < 32,
    ensures
        b == symbol(v as int),
        b < 128,
{
    if v < 10 {
        48 + v
    } else if v < 18 {
        55 + v
    } else if v < 20 {
        56 + v
    } else if v < 22 {
        57 + v
    } else if v < 27 {
        58 + v
    } else {
        59 + v
    }
}

fn clean(bytes: &[u8]) -> (kept: Vec<u8>)
    ensures
        kept@ == cleaned(bytes@),
{
    let mut kept: Vec<u8> = Vec::new();
    proof {
        reveal(Seq::filter);
        assert(bytes@.take(0) =~= Seq::<u8>::empty());
    }
    for i in 0..bytes.len()
        invariant
            kept@ == cleaned(bytes@.take(i as int)),
    {
        proof {
            reveal(Seq::filter);
            assert(bytes@.take(i + 1).drop_last() =~= bytes@.take(i as int));
        }
        let b: u8 = bytes[i];
        if !(b == 45 || b == 95 || b == 32 || b == 9 || b == 10 || b == 13) {
            kept.push(b);
        }
    }
    assert(bytes@.take(bytes@.len() as int) =~= bytes@);
    kept
}

fn strip(bytes: &[u8]) -> (rest: Vec<u8>)
    ensures
        rest@ == without_prefix(bytes@),
{
    let mut from: usize = 0;
    if bytes.len() >= 3 {
        let upper = bytes[0] == 84 && bytes[1] == 73 && bytes[2] == 79;
        let lower = bytes[0] == 116 && bytes[1] == 105 && bytes[2] == 111;
        proof {
            let front = bytes@.take(3);
            assert(upper ==> front =~= prefix());
            assert(lower ==> front =~= lower_prefix());
            assert(front == prefix() ==> front[0] == 84 && front[1] == 73 && front[2] == 79);
            assert(front == lower_prefix() ==> front[0] == 116 && front[1] == 105 && front[2]
                == 111);
        }
        if upper || lower {
            from = 3;
        }
    }
    let mut rest: Vec<u8> = Vec::new();
    for i in from..bytes.len()
        invariant
            from <= bytes@.len(),
            rest@ == bytes@.subrange(from as int, i as int),
    {
        rest.push(bytes[i]);
        assert(rest@ =~= bytes@.subrange(from as int, i + 1));
    }
    assert(rest@ =~= bytes@.skip(from as int));
    assert(bytes@.skip(0) =~= bytes@);
    rest
}

impl RoomCode {
    /// Parse a code as typed, which may be lower case, spaced, or run together.
    pub fn parse(text: &str) -> (parsed: Result<Self, RoomError>)
        ensures
            match parsed {
                Ok(code) => spells(text@, code@),
                Err(RoomError::Malformed(why)) => if body(text@).len() != CODE_SYMBOLS {
                    why@ == "wrong length"@
                } else {
                    &&& !all_symbols(body(text@))
                    &&& why@ == "contains a character it should not"@
                },
            },
    {
        let kept = clean(text.as_bytes());
        let rest = strip(kept.as_slice());
        if rest.len() != CODE_SYMBOLS {
            return Err(RoomError::Malformed("wrong length"));
        }
        let mut values: Vec<u8> = Vec::new();
        for i in 0..rest.len()
            invariant
                rest@ == body(text@),
                rest@.len() == CODE_SYMBOLS,
                values@ == symbol_values(rest@.take(i as int)),
                digits::digits_below(values@, 32),
                forall|j: int| 0 <= j < i ==> is_symbol(#[trigger] rest@[j]),
        {
            match value_of_symbol(rest[i]) {
                Some(n) => {
                    values.push(n);
                    assert(values@ =~= symbol_values(rest@.take(i + 1)));
                },
                None => {
                    return Err(RoomError::Malformed("contains a character it should not"));
                },
            }
        }
        proof {
            assert(rest@.take(rest@.len() as int) =~= rest@);
            lemma_capacity();
            digits::lemma_value_bound(values@, 32);
        }
        let number: u128 = digits::read_as(values.as_slice(), 32);
        let digits = digits::written_in(number, CODE_BYTES, 256);
        proof {
            digits::lemma_value_of_digits(number as nat, 10, 256);
        }
        match bytes::to_array::<10>(digits.as_slice()) {
            Some(bytes) => Ok(RoomCode { bytes }),
            None => Err(RoomError::Malformed("wrong length")),
        }
    }

    /// The form shown to people, grouped for reading aloud.
    pub fn display(&self) -> (text: String)
        ensures
            text@ == display_text(self@),
    {
        proof {
            lemma_capacity();
            digits::lemma_value_bound(self@, 256);
            digits::lemma_value_of_digits(digits::value(self@, 256), 16, 32);
        }
        let number: u128 = digits::read_as(self.bytes.as_slice(), 256);
        let digits = digits::written_in(number, CODE_SYMBOLS, 32);
        let mut text = String::from_str("TIO-");
        proof {
            reveal_strlit("TIO-");
            assert(text@ =~= seq!['T', 'I', 'O', '-']);
        }
        push_group(&mut text, digits.as_slice(), 0, Ghost(self@));
        text.push('-');
        push_group(&mut text, digits.as_slice(), 1, Ghost(self@));
        text.push('-');
        push_group(&mut text, digits.as_slice(), 2, Ghost(self@));
        text.push('-');
        push_group(&mut text, digits.as_slice(), 3, Ghost(self@));
        assert(text@ =~= display_text(self@));
        text
    }
}

/// Appends one group of four characters.
fn push_group(text: &mut String, digits: &[u8], g: usize, Ghost(code): Ghost<Seq<u8>>)
    requires
        g < 4,
        digits@ == digits::digits_of(digits::value(code, 256), 16, 32),
        digits@.len() == 16,
        digits::digits_below(digits@, 32),
    ensures
        final(text)@ == old(text)@ + group(code, g as int),
{
    let ghost before = text@;
    for i in 4 * g..4 * g + 4
        invariant
            g < 4,
            digits@ == digits::digits_of(digits::value(code, 256), 16, 32),
            digits@.len() == 16,
            digits::digits_below(digits@, 32),
            4 * g <= i,
            text@ == before + group(code, g as int).take(i - 4 * g),
    {
        let b = symbol_for(digits[i]);
        text.push(b as char);
        assert(group(code, g as int).take(i + 1 - 4 * g) =~= group(code, g as int).take(
            i - 4 * g,
        ).push(b as char));
        assert(text@ =~= before + group(code, g as int).take(i + 1 - 4 * g));
    }
    assert(group(code, g as int).take(4) =~= group(code, g as int));
}

/// Sixteen five-bit values hold exactly what ten bytes hold.
proof fn lemma_capacity()
    ensures
        digits::power(32, 16) == 1208925819614629174706176,
        digits::power(256, 10) == 1208925819614629174706176,
{
    reveal_with_fuel(digits::power, 17);
}

proof fn lemma_symbols(code: Seq<u8>)
    requires
        code.len() == CODE_BYTES,
    ensures
        symbols_of(code).len() == CODE_SYMBOLS,
        digits::digits_of(digits::value(code, 256), 16, 32).len() == CODE_SYMBOLS,
        digits::digits_below(digits::digits_of(digits::value(code, 256), 16, 32), 32),
        digits::value(digits::digits_of(digits::value(code, 256), 16, 32), 32) == digits::value(
            code,
            256,
        ),
{
    lemma_capacity();
    digits::lemma_value_bound(code, 256);
    digits::lemma_value_of_digits(digits::value(code, 256), 16, 32);
}

/// The lower case form of a letter; every other byte is kept.
pub open spec fn lowered(b: u8) -> u8 {
    if 65 <= b <= 90 {
        (b + 32) as u8
    } else {
        b
    }
}

/// Every letter in lower case.
pub open spec fn all_lowered(bytes: Seq<u8>) -> Seq<u8> {
    bytes.map_values(|b: u8| lowered(b))
}

/// However a shown code is typed back, with the prefix or without, in upper
/// case or in lower case, and with whatever separators, it is the same code.
pub proof fn law_a_shown_code_reads_back(code: Seq<u8>, text: Seq<char>)
    requires
        code.len() == CODE_BYTES,
        ({
            let typed = cleaned(encode_utf8(text));
            let shown = symbols_of(code);
            ||| typed == shown
            ||| typed == prefix() + shown
            ||| typed == all_lowered(shown)
            ||| typed == lower_prefix() + all_lowered(shown)
        }),
    ensures
        spells(text, code),
{
    lemma_symbols(code);
    let typed = cleaned(encode_utf8(text));
    let shown = symbols_of(code);
    let lower = all_lowered(shown);
    let values = digits::digits_of(digits::value(code, 256), 16, 32);
    assert(body(text) == shown || body(text) == lower) by {
        if typed == prefix() + shown {
            assert(typed.take(3) =~= prefix());
            assert(typed.skip(3) =~= shown);
        } else if typed == lower_prefix() + lower {
            assert(typed.take(3) =~= lower_prefix());
            assert(typed.skip(3) =~= lower);
        } else {
            assert(shown[1] == symbol(values[1] as int));
            assert(typed.take(3)[1] == typed[1]);
            assert(prefix()[1] == 73 && lower_prefix()[1] == 105);
            assert(without_prefix(typed) == typed);
        }
    }
    let typed_body = body(text);
    assert forall|i: int| 0 <= i < typed_body.len() implies is_symbol(#[trigger] typed_body[i])
        && symbol_value(typed_body[i]) == values[i] by {
        assert(shown[i] == symbol(values[i] as int));
        assert(lower[i] == lowered(shown[i]));
        lemma_symbol_value(typed_body[i], values[i] as int);
    }
    assert(symbol_values(typed_body) =~= values);
}

/// Separators between the characters of a text make no difference to the code.
pub proof fn law_separators_do_not_matter(before: Seq<char>, c: char, after: Seq<char>)
    requires
        (c as u32) < 128,
        is_separator(c as u8),
    ensures
        body(before + seq![c] + after) == body(before + after),
{
    let kept = |b: u8| !is_separator(b);
    let (x, y, z) = (encode_utf8(before), encode_utf8(seq![c]), encode_utf8(after));
    text::lemma_encoding_joins(before + seq![c], after);
    text::lemma_encoding_joins(before, seq![c]);
    text::lemma_encoding_joins(before, after);
    text::lemma_ascii_encoding(seq![c]);
    assert(y =~= seq![c as u8]);
    Seq::filter_distributes_over_add(x + y, z, kept);
    Seq::filter_distributes_over_add(x, y, kept);
    Seq::filter_distributes_over_add(x, z, kept);
    reveal_with_fuel(Seq::filter, 2);
    assert(y.drop_last() =~= Seq::<u8>::empty());
    assert(y.filter(kept) =~= Seq::<u8>::empty());
    assert(x.filter(kept) + y.filter(kept) =~= x.filter(kept));
}

proof fn lemma_nothing_to_clean(bytes: Seq<u8>)
    requires
        forall|i: int| 0 <= i < bytes.len() ==> !is_separator(#[trigger] bytes[i]),
    ensures
        cleaned(bytes) == bytes,
    decreases bytes.len(),
{
    reveal(Seq::filter);
    if bytes.len() > 0 {
        let front = bytes.drop_last();
        assert forall|i: int| 0 <= i < front.len() implies !is_separator(#[trigger] front[i]) by {
            assert(front[i] == bytes[i]);
        }
        lemma_nothing_to_clean(front);
        assert(!is_separator(bytes[bytes.len() - 1]));
        assert(front.push(bytes.last()) =~= bytes);
    } else {
        assert(bytes =~= Seq::<u8>::empty());
    }
}

/// A code survives being written down and typed back.
pub proof fn law_a_code_survives_being_written_down(code: Seq<u8>)
    requires
        code.len() == CODE_BYTES,
    ensures
        spells(display_text(code), code),
{
    lemma_symbols(code);
    let shown = symbols_of(code);
    let as_chars = |b: u8| b as char;
    let as_bytes = |c: char| c as u8;
    let values = digits::digits_of(digits::value(code, 256), 16, 32);
    assert forall|i: int| 0 <= i < 16 implies (#[trigger] shown[i]) < 128 && !is_separator(
        shown[i],
    ) by {
        assert(shown[i] == symbol(values[i] as int));
    }
    let dash = seq!['-'];
    let head = seq!['T', 'I', 'O'];
    let g0 = group(code, 0);
    let g1 = group(code, 1);
    let g2 = group(code, 2);
    let g3 = group(code, 3);
    let whole = display_text(code);
    assert(head + dash =~= seq!['T', 'I', 'O', '-']);
    assert(whole =~= head + dash + g0 + dash + g1 + dash + g2 + dash + g3);
    // The dashes are dropped one after the other.
    law_separators_do_not_matter(head + dash + g0 + dash + g1 + dash + g2, '-', g3);
    let a3 = head + dash + g0 + dash + g1 + dash + g2 + g3;
    assert(a3 =~= head + dash + g0 + dash + g1 + dash + (g2 + g3));
    law_separators_do_not_matter(head + dash + g0 + dash + g1, '-', g2 + g3);
    let a2 = head + dash + g0 + dash + g1 + (g2 + g3);
    assert(a2 =~= head + dash + g0 + dash + (g1 + g2 + g3));
    law_separators_do_not_matter(head + dash + g0, '-', g1 + g2 + g3);
    let a1 = head + dash + g0 + (g1 + g2 + g3);
    assert(a1 =~= head + dash + (g0 + g1 + g2 + g3));
    law_separators_do_not_matter(head, '-', g0 + g1 + g2 + g3);
    let a0 = head + (g0 + g1 + g2 + g3);
    assert(body(whole) == body(a0));
    assert(a0 =~= head + shown.map_values(as_chars));
    assert(is_ascii_chars(a0)) by {
        assert forall|i: int| 0 <= i < a0.len() implies '\0' <= #[trigger] a0[i] <= '\u{7f}' by {
            if i >= 3 {
                assert(a0[i] == shown[i - 3] as char);
            }
        }
    }
    text::lemma_ascii_encoding(a0);
    assert(encode_utf8(a0) =~= prefix() + shown) by {
        assert forall|i: int| 0 <= i < 19 implies #[trigger] a0.map_values(as_bytes)[i] == (
        prefix() + shown)[i] by {
            if i >= 3 {
                assert(a0[i] == shown[i - 3] as char);
            }
        }
    }
    lemma_nothing_to_clean(prefix() + shown);
    law_a_shown_code_reads_back(code, a0);
}

/// A text spells out one code at most.
pub proof fn law_a_text_spells_one_code(text: Seq<char>, a: Seq<u8>, b: Seq<u8>)
    requires
        spells(text, a),
        spells(text, b),
    ensures
        a == b,
{
    digits::lemma_digits_of_value(a, 256);
    digits::lemma_digits_of_value(b, 256);
}

// ---------------------------------------------------------------------------
// Admission
// ---------------------------------------------------------------------------
/// The HMAC-SHA-256 of the data under the key.
pub uninterp spec fn hmac_sha256(key: Seq<u8>, data: Seq<u8>) -> Seq<u8>;

/// `hmac`'s `Hmac<Sha256>`: `new_from_slice`, which takes a key of any length,
/// `update` and `finalize`. Claimed: the code is a function of key and data.
#[verifier::external_body]
fn mac_of(key: &[u8; 32], data: &[u8]) -> (mac: [u8; 32])
    ensures
        mac@ == hmac_sha256(key@, data@),
{
    let mut mac = Hmac::<Sha256>::new_from_slice(key).expect("any length key is accepted");
    mac.update(data);
    mac.finalize().into_bytes().into()
}

/// The key both ends derive from the code. A plain hash suffices, because the
/// code is generated at full entropy rather than chosen by a person.
pub open spec fn room_key(code: Seq<u8>) -> Seq<u8> {
    crypto::sha256(encode_utf8("tio-chat v1 room key"@) + code)
}

/// What a proof covers: both public keys and both nonces, the prover's first.
pub open spec fn proof_data(
    my_public_key: Seq<u8>,
    my_nonce: Seq<u8>,
    their_public_key: Seq<u8>,
    their_nonce: Seq<u8>,
) -> Seq<u8> {
    encode_utf8("tio-chat v1 admission"@) + my_public_key + my_nonce + their_public_key
        + their_nonce
}

/// The proof that its maker holds the code, for one specific connection.
pub open spec fn admission_proof(
    code: Seq<u8>,
    my_public_key: Seq<u8>,
    my_nonce: Seq<u8>,
    their_public_key: Seq<u8>,
    their_nonce: Seq<u8>,
) -> Seq<u8> {
    hmac_sha256(
        room_key(code),
        proof_data(my_public_key, my_nonce, their_public_key, their_nonce),
    )
}

/// Whether a peer's proof is the one that a holder of the code would have made.
pub open spec fn accepts(
    code: Seq<u8>,
    claimed: Seq<u8>,
    their_public_key: Seq<u8>,
    their_nonce: Seq<u8>,
    my_public_key: Seq<u8>,
    my_nonce: Seq<u8>,
) -> bool {
    claimed == admission_proof(code, their_public_key, their_nonce, my_public_key, my_nonce)
}

/// Two holders of the same code accept each other's proofs.
pub proof fn law_holders_accept_each_other(
    code: Seq<u8>,
    a_key: Seq<u8>,
    a_nonce: Seq<u8>,
    b_key: Seq<u8>,
    b_nonce: Seq<u8>,
)
    ensures
        accepts(
            code,
            admission_proof(code, a_key, a_nonce, b_key, b_nonce),
            a_key,
            a_nonce,
            b_key,
            b_nonce,
        ),
        accepts(
            code,
            admission_proof(code, b_key, b_nonce, a_key, a_nonce),
            b_key,
            b_nonce,
            a_key,
            a_nonce,
        ),
{
}

/// A proof covers its keys and nonces and nothing else could be read into it:
/// two connections with anything different about them are proved over different
/// data.
pub proof fn law_a_proof_covers_one_connection(
    a_key: Seq<u8>,
    a_nonce: Seq<u8>,
    b_key: Seq<u8>,
    b_nonce: Seq<u8>,
    c_key: Seq<u8>,
    c_nonce: Seq<u8>,
    d_key: Seq<u8>,
    d_nonce: Seq<u8>,
)
    requires
        a_key.len() == c_key.len(),
        b_key.len() == d_key.len(),
        a_nonce.len() == NONCE_LEN,
        b_nonce.len() == NONCE_LEN,
        c_nonce.len() == NONCE_LEN,
        d_nonce.len() == NONCE_LEN,
        proof_data(a_key, a_nonce, b_key, b_nonce) == proof_data(c_key, c_nonce, d_key, d_nonce),
    ensures
        a_key == c_key,
        a_nonce == c_nonce,
        b_key == d_key,
        b_nonce == d_nonce,
{
    let x = proof_data(a_key, a_nonce, b_key, b_nonce);
    let y = proof_data(c_key, c_nonce, d_key, d_nonce);
    let n = encode_utf8("tio-chat v1 admission"@).len();
    let k = n + a_key.len();
    let m = k + NONCE_LEN;
    let o = m + b_key.len();
    assert(a_key =~= x.subrange(n as int, k as int));
    assert(c_key =~= y.subrange(n as int, k as int));
    assert(a_nonce =~= x.subrange(k as int, m));
    assert(c_nonce =~= y.subrange(k as int, m));
    assert(b_key =~= x.subrange(m, o));
    assert(d_key =~= y.subrange(m, o));
    assert(b_nonce =~= x.subrange(o, o + NONCE_LEN));
    assert(d_nonce =~= y.subrange(o, o + NONCE_LEN));
}

/// A proof echoed back at its sender does not cover what its sender would
/// check, unless both ends had the same key and drew the same nonce.
pub proof fn law_a_reflected_proof_covers_something_else(
    a_key: Seq<u8>,
    a_nonce: Seq<u8>,
    b_key: Seq<u8>,
    b_nonce: Seq<u8>,
)
    requires
        a_key.len() == b_key.len(),
        a_nonce.len() == NONCE_LEN,
        b_nonce.len() == NONCE_LEN,
        a_key != b_key || a_nonce != b_nonce,
    ensures
        proof_data(a_key, a_nonce, b_key, b_nonce) != proof_data(b_key, b_nonce, a_key, a_nonce),
{
    if proof_data(a_key, a_nonce, b_key, b_nonce) == proof_data(b_key, b_nonce, a_key, a_nonce) {
        law_a_proof_covers_one_connection(
            a_key,
            a_nonce,
            b_key,
            b_nonce,
            b_key,
            b_nonce,
            a_key,
            a_nonce,
        );
    }
}

/// Compares two proofs in a time that does not depend on where they differ, so
/// that a wrong code cannot be narrowed down byte by byte.
fn constant_time_eq(a: &[u8; 32], b: &[u8; 32]) -> (same: bool)
    ensures
        same == (a@ == b@),
{
    let mut difference: u8 = 0;
    for i in 0..32usize
        invariant
            difference == 0 <==> forall|j: int| 0 <= j < i ==> a@[j] == b@[j],
    {
        let (x, y) = (a[i], b[i]);
        let before = difference;
        difference = difference | (x ^ y);
        assert(difference == 0 <==> before == 0 && x == y) by (bit_vector)
            requires
                difference == before | (x ^ y),
        ;
    }
    assert(difference == 0 ==> a@ =~= b@);
    difference == 0
}

/// A nonce for one connection. Any 32 bytes can come out: they are the operating
/// system's random bytes as they are.
pub fn new_nonce() -> (nonce: [u8; 32])
    ensures
        nonce@.len() == NONCE_LEN,
{
    crypto::random_bytes::<32>()
}

impl RoomCode {
    /// A fresh code. Any code can come out: it is the one that the operating
    /// system's random bytes make.
    pub fn generate() -> (code: Self)
        ensures
            code@.len() == CODE_BYTES,
    {
        RoomCode::of_bytes(crypto::random_bytes::<10>())
    }

    /// The code that those bytes make.
    pub fn of_bytes(bytes: [u8; 10]) -> (code: Self)
        ensures
            code@ == bytes@,
    {
        RoomCode { bytes }
    }

    /// Prove that we hold this code, for one specific connection.
    pub fn make_proof(
        &self,
        my_public_key: &[u8],
        my_nonce: &[u8; 32],
        their_public_key: &[u8],
        their_nonce: &[u8; 32],
    ) -> (made: [u8; 32])
        ensures
            made@ == admission_proof(
                self@,
                my_public_key@,
                my_nonce@,
                their_public_key@,
                their_nonce@,
            ),
    {
        let keyed = bytes::joined("tio-chat v1 room key".as_bytes(), self.bytes.as_slice());
        let key = crypto::digest_of(keyed.as_slice());
        let mut data = bytes::joined("tio-chat v1 admission".as_bytes(), my_public_key);
        data.extend_from_slice(my_nonce.as_slice());
        data.extend_from_slice(their_public_key);
        data.extend_from_slice(their_nonce.as_slice());
        assert(data@ =~= proof_data(
            my_public_key@,
            my_nonce@,
            their_public_key@,
            their_nonce@,
        ));
        mac_of(&key, data.as_slice())
    }

    /// Check the proof a peer sent, by recomputing it from their side.
    pub fn verify(
        &self,
        claimed: &[u8; 32],
        their_public_key: &[u8],
        their_nonce: &[u8; 32],
        my_public_key: &[u8],
        my_nonce: &[u8; 32],
    ) -> (accepted: bool)
        ensures
            accepted == accepts(
                self@,
                claimed@,
                their_public_key@,
                their_nonce@,
                my_public_key@,
                my_nonce@,
            ),
    {
        let expected = self.make_proof(their_public_key, their_nonce, my_public_key, my_nonce);
        constant_time_eq(&expected, claimed)
    }

    /// A rendering for logs, which leaves the code out.
    pub fn debug_text(&self) -> (text: String)
        ensures
            text@ == "RoomCode(<redacted>)"@,
    {
        "RoomCode(<redacted>)".to_owned()
    }
}

impl RoomError {
    /// What the error says.
    pub open spec fn text(&self) -> Seq<char> {
        match self {
            RoomError::Malformed(why) => "that is not a room code: "@ + why@,
        }
    }

    /// The error in words.
    pub fn message(&self) -> (text: String)
        ensures
            text@ == self.text(),
    {
        match self {
            RoomError::Malformed(why) => {
                let mut text = String::from_str("that is not a room code: ");
                text.append(why);
                text
            },
        }
    }
}

// ---------------------------------------------------------------------------
// Storage
// ---------------------------------------------------------------------------
/// A room code, and how it came about.
pub struct Loaded {
    pub code: RoomCode,
    /// No room existed and this one is to be written.
    pub created: bool,
    /// Things that the user should be told.
    pub notes: Vec<String>,
}

/// Where the room code lives, given the two environment variables.
pub fn default_path(xdg_config_home: Option<&[u8]>, home: Option<&[u8]>) -> (path: Result<
    Vec<u8>,
    IdentityError,
>)
    ensures
        match identity::config_base(
            identity::value_view(xdg_config_home),
            identity::value_view(home),
        ) {
            Some(base) => path matches Ok(p) && p@ == identity::below(
                identity::below(base, encode_utf8("ee2e-chat"@)),
                encode_utf8("room"@),
            ),
            None => path matches Err(IdentityError::NoConfigDir),
        },
{
    identity::config_file(xdg_config_home, home, "room")
}

/// Where the room code lives on Windows, given `%APPDATA%`.
pub fn windows_default_path(appdata: Option<&[u8]>) -> (path: Result<Vec<u8>, IdentityError>)
    ensures
        match identity::value_view(appdata) {
            Some(base) => path matches Ok(p) && p@ == identity::below_on_windows(
                identity::below_on_windows(base, encode_utf8("ee2e-chat"@)),
                encode_utf8("room"@),
            ),
            None => path matches Err(IdentityError::NoConfigDir),
        },
{
    identity::windows_config_file(appdata, "room")
}

/// The room code in the file that was found, or a fresh one where there was no
/// file. A fresh one is to be written.
///
/// Creating one rather than running without is deliberate: an open room is not a
/// setting that anyone should reach by forgetting a flag.
pub fn load_or_create(path: &str, found: Option<&FoundFile>) -> (outcome: Result<Loaded, RoomError>)
    ensures
        match found {
            None => outcome matches Ok(loaded) && loaded.created && loaded.code@.len()
                == CODE_BYTES && loaded.notes@.len() == 0,
            Some(file) => match outcome {
                Ok(loaded) => {
                    &&& !loaded.created
                    &&& spells(text::trim(file.text@), loaded.code@)
                    &&& identity::texts(loaded.notes@) == identity::notes_about(path@, file.mode)
                },
                Err(RoomError::Malformed(why)) => if body(text::trim(file.text@)).len()
                    != CODE_SYMBOLS {
                    why@ == "wrong length"@
                } else {
                    &&& !all_symbols(body(text::trim(file.text@)))
                    &&& why@ == "contains a character it should not"@
                },
            },
        },
{
    match found {
        Some(file) => {
            let notes = identity::notes_on(path, file.mode);
            match RoomCode::parse(text::trimmed(file.text.as_str()).as_str()) {
                Ok(code) => Ok(Loaded { code, created: false, notes }),
                Err(e) => Err(e),
            }
        },
        None => Ok(Loaded { code: RoomCode::generate(), created: true, notes: Vec::new() }),
    }
}

/// A code written to a file, which ends in a line end, comes back out of it.
pub proof fn law_a_saved_code_comes_back(code: Seq<u8>)
    requires
        code.len() == CODE_BYTES,
    ensures
        spells(text::trim(display_text(code).push('\n')), code),
{
    let shown = display_text(code);
    let line_end = seq!['\n'];
    lemma_symbols(code);
    let last = shown[shown.len() - 1];
    let values = digits::digits_of(digits::value(code, 256), 16, 32);
    assert(last == symbol(values[15] as int) as char);
    assert(text::trim(shown) == shown) by {
        assert(shown[0] == 'T');
        assert(!text::white_space(shown.last()));
    }
    text::law_trim_ignores_padding(Seq::empty(), shown, line_end);
    assert(Seq::<char>::empty() + shown + line_end =~= shown.push('\n'));
    law_a_code_survives_being_written_down(code);
}

/// What each character of a code stands for: that of the alphabet its place in it, in
/// either case, and the lookalikes of one and zero those digits.
pub proof fn law_what_each_character_stands_for(v: int)
    requires
        0 <= v < 32,
    ensures
        is_symbol("0123456789ABCDEFGHJKMNPQRSTVWXYZ"@[v] as u8),
        symbol_value("0123456789ABCDEFGHJKMNPQRSTVWXYZ"@[v] as u8) == v,
        is_symbol("0123456789abcdefghjkmnpqrstvwxyz"@[v] as u8),
        symbol_value("0123456789abcdefghjkmnpqrstvwxyz"@[v] as u8) == v,
        is_symbol('I' as u8) && symbol_value('I' as u8) == 1,
        is_symbol('i' as u8) && symbol_value('i' as u8) == 1,
        is_symbol('L' as u8) && symbol_value('L' as u8) == 1,
        is_symbol('l' as u8) && symbol_value('l' as u8) == 1,
        is_symbol('O' as u8) && symbol_value('O' as u8) == 0,
        is_symbol('o' as u8) && symbol_value('o' as u8) == 0,
{
    reveal_strlit("0123456789ABCDEFGHJKMNPQRSTVWXYZ");
    reveal_strlit("0123456789abcdefghjkmnpqrstvwxyz");
    lemma_symbol_value("0123456789ABCDEFGHJKMNPQRSTVWXYZ"@[v] as u8, v);
    lemma_symbol_value("0123456789abcdefghjkmnpqrstvwxyz"@[v] as u8, v);
    lemma_symbol_value('I' as u8, 1);
    lemma_symbol_value('i' as u8, 1);
    lemma_symbol_value('L' as u8, 1);
    lemma_symbol_value('l' as u8, 1);
    lemma_symbol_value('O' as u8, 0);
    lemma_symbol_value('o' as u8, 0);
}

/// The bytes that can stand in a code are those of the digits and of the letters
/// other than U.
pub proof fn law_which_bytes_can_stand_in_a_code(b: u8)
    ensures
        is_symbol(b) <==> 48 <= b <= 57 || (65 <= b <= 90 && b != 85) || (97 <= b <= 122 && b
            != 117),
{
    if 48 <= b <= 57 || (65 <= b <= 90 && b != 85) || (97 <= b <= 122 && b != 117) {
        let f = folded(b) as int;
        let v = if f < 58 {
            f - 48
        } else if f <= 72 {
            f - 55
        } else if f <= 75 {
            f - 56
        } else if f <= 78 {
            f - 57
        } else if f <= 84 {
            f - 58
        } else {
            f - 59
        };
        lemma_symbol_value(b, v);
    } else if is_symbol(b) {
        let v = choose|v: int| 0 <= v < 32 && folded(b) == #[trigger] symbol(v);
        assert(folded(b) == symbol(v));
    }
}

/// Of the bytes of a text, the dashes, underscores, spaces, tabs and line ends are
/// left out, and every other byte is kept, in its place.
pub proof fn law_what_is_left_out_of_a_code(bytes: Seq<u8>, b: u8)
    ensures
        cleaned(Seq::empty()) == Seq::<u8>::empty(),
        b == '-' as u8 || b == '_' as u8 || b == ' ' as u8 || b == '\t' as u8 || b == '\n' as u8
            || b == '\r' as u8 ==> cleaned(bytes.push(b)) == cleaned(bytes),
        !(b == '-' as u8 || b == '_' as u8 || b == ' ' as u8 || b == '\t' as u8 || b == '\n' as u8
            || b == '\r' as u8) ==> cleaned(bytes.push(b)) == cleaned(bytes).push(b),
{
    reveal(Seq::filter);
    assert(bytes.push(b).drop_last() =~= bytes);
}

/// A prefix, in upper case or in lower case, comes off once, and nothing else does.
pub proof fn law_a_prefix_comes_off_once(text: Seq<char>, rest: Seq<u8>)
    ensures
        cleaned(encode_utf8(text)) == seq!['T' as u8, 'I' as u8, 'O' as u8] + rest ==> body(text)
            == rest,
        cleaned(encode_utf8(text)) == seq!['t' as u8, 'i' as u8, 'o' as u8] + rest ==> body(text)
            == rest,
        cleaned(encode_utf8(text)) == rest && !(rest.len() >= 3 && ((rest[0] == 'T' as u8
            && rest[1] == 'I' as u8 && rest[2] == 'O' as u8) || (rest[0] == 't' as u8 && rest[1]
            == 'i' as u8 && rest[2] == 'o' as u8))) ==> body(text) == rest,
{
    let typed = cleaned(encode_utf8(text));
    let upper = seq!['T' as u8, 'I' as u8, 'O' as u8];
    let lower = seq!['t' as u8, 'i' as u8, 'o' as u8];
    assert(upper =~= prefix());
    assert(lower =~= lower_prefix());
    if typed == upper + rest {
        assert(typed.take(3) =~= upper);
        assert(typed.skip(3) =~= rest);
    }
    if typed == lower + rest {
        assert(typed.take(3) =~= lower);
        assert(typed.skip(3) =~= rest);
    }
    if typed == rest && typed.len() >= 3 {
        assert(typed.take(3)[0] == typed[0] && typed.take(3)[1] == typed[1] && typed.take(3)[2]
            == typed[2]);
        assert(prefix()[0] == 84 && prefix()[1] == 73 && prefix()[2] == 79);
        assert(lower_prefix()[0] == 116 && lower_prefix()[1] == 105 && lower_prefix()[2] == 111);
    }
}

/// Every text of sixteen characters that can stand in a code spells one, and a text
/// that spells a code has nothing but those: their five-bit values, one behind the
/// other, are the code's bits.
pub proof fn law_which_texts_spell_a_code(text: Seq<char>, code: Seq<u8>)
    ensures
        spells(text, code) ==> body(text).len() == 16 && code.len() == 10 && digits::value(
            code,
            256,
        ) == digits::value(body(text).map_values(|b: u8| symbol_value(b)), 32),
        spells(text, code) ==> forall|i: int|
            0 <= i < body(text).len() ==> is_symbol(#[trigger] body(text)[i]),
        body(text).len() == 16 && (forall|i: int|
            0 <= i < body(text).len() ==> is_symbol(#[trigger] body(text)[i])) && code.len() == 10
            && digits::value(code, 256) == digits::value(
            body(text).map_values(|b: u8| symbol_value(b)),
            32,
        ) ==> spells(text, code),
{
}

/// A code is shown as a prefix and four groups of four with dashes in front, each
/// character the one of the alphabet that stands for the next five bits of the code.
pub proof fn law_how_a_code_is_shown(code: Seq<u8>, g: int, j: int)
    requires
        code.len() == 10,
        0 <= g < 4,
        0 <= j < 4,
    ensures
        display_text(code).len() == 23,
        display_text(code)[0] == 'T',
        display_text(code)[1] == 'I',
        display_text(code)[2] == 'O',
        display_text(code)[3 + 5 * g] == '-',
        ({
            let d = digits::digits_of(digits::value(code, 256), 16, 32)[4 * g + j];
            &&& d < 32
            &&& display_text(code)[4 + 5 * g + j] == "0123456789ABCDEFGHJKMNPQRSTVWXYZ"@[d as int]
        }),
{
    lemma_symbols(code);
    let values = digits::digits_of(digits::value(code, 256), 16, 32);
    let d = values[4 * g + j];
    law_alphabet(d as int);
    assert(group(code, g)[j] == symbol(d as int) as char);
}

/// A proof is the HMAC, under the digest of the room's label and code, of the
/// admission label, the prover's key and nonce and the other's key and nonce; and
/// nothing else is accepted as one.
pub proof fn law_what_a_proof_is(
    code: Seq<u8>,
    a_key: Seq<u8>,
    a_nonce: Seq<u8>,
    b_key: Seq<u8>,
    b_nonce: Seq<u8>,
    claimed: Seq<u8>,
)
    ensures
        admission_proof(code, a_key, a_nonce, b_key, b_nonce) == hmac_sha256(
            crypto::sha256(encode_utf8("tio-chat v1 room key"@) + code),
            encode_utf8("tio-chat v1 admission"@) + a_key + a_nonce + b_key + b_nonce,
        ),
        accepts(code, claimed, a_key, a_nonce, b_key, b_nonce) <==> claimed == hmac_sha256(
            crypto::sha256(encode_utf8("tio-chat v1 room key"@) + code),
            encode_utf8("tio-chat v1 admission"@) + a_key + a_nonce + b_key + b_nonce,
        ),
{
}

/// What is said of a text that is not a room code.
pub proof fn law_what_is_said_of_no_code(why: &'static str)
    ensures
        RoomError::Malformed(why).text() == "that is not a room code: "@ + why@,
{
}

} // verus!
