//! Bytes as hexadecimal text, and back.

use crate::text;
use vstd::prelude::*;
use vstd::string::*;

verus! {

/// The `k`th half byte, the high half of each byte coming first.
pub open spec fn nibble(bytes: Seq<u8>, k: int) -> nat {
    if k % 2 == 0 {
        (bytes[k / 2] / 16) as nat
    } else {
        (bytes[k / 2] % 16) as nat
    }
}

/// The upper case character for a half byte.
pub open spec fn upper_digit(d: nat) -> char {
    if d < 10 {
        (48 + d) as char
    } else {
        (55 + d) as char
    }
}

/// The bytes in lower case hexadecimal, two characters to each.
pub open spec fn hex_text(bytes: Seq<u8>) -> Seq<char> {
    Seq::new(2 * bytes.len(), |k: int| text::digit_char(nibble(bytes, k)))
}

/// The `k`th half byte.
pub fn nibble_at(bytes: &[u8], k: usize) -> (d: u8)
    requires
        k / 2 < bytes@.len(),
    ensures
        d == nibble(bytes@, k as int),
        d < 16,
{
    if k % 2 == 0 {
        bytes[k / 2] / 16
    } else {
        bytes[k / 2] % 16
    }
}

/// The upper case character for a half byte.
pub fn upper_digit_char(d: u8) -> (c: char)
    requires
        d < 16,
    ensures
        c == upper_digit(d as nat),
{
    if d < 10 {
        (48 + d) as char
    } else {
        (55 + d) as char
    }
}

/// The bytes in lower case hexadecimal.
pub fn to_hex(bytes: &[u8]) -> (out: String)
    ensures
        out@ == hex_text(bytes@),
{
    let mut out = String::new();
    for i in 0..bytes.len()
        invariant
            out@ == hex_text(bytes@).take(2 * i),
    {
        out.push(text::digit(bytes[i] / 16));
        out.push(text::digit(bytes[i] % 16));
        assert(out@ =~= hex_text(bytes@).take(2 * i + 2));
    }
    assert(hex_text(bytes@).take(2 * bytes@.len() as int) =~= hex_text(bytes@));
    out
}

/// The half byte that a character stands for, in either case.
pub open spec fn digit_value(c: char) -> Option<u8> {
    if '0' <= c && c <= '9' {
        Some((c as u32 - 48) as u8)
    } else if 'A' <= c && c <= 'F' {
        Some((c as u32 - 55) as u8)
    } else if 'a' <= c && c <= 'f' {
        Some((c as u32 - 87) as u8)
    } else {
        None
    }
}

/// Whether a text is an even number of digits and nothing else.
pub open spec fn all_digits(s: Seq<char>) -> bool {
    &&& s.len() % 2 == 0
    &&& forall|k: int| 0 <= k < s.len() ==> digit_value(#[trigger] s[k]) is Some
}

/// The byte that two digits stand for.
pub open spec fn pair_value(high: char, low: char) -> u8 {
    (16 * digit_value(high)->0 + digit_value(low)->0) as u8
}

/// The bytes that a text stands for, white space around it aside.
pub open spec fn hex_in(s: Seq<char>) -> Option<Seq<u8>> {
    let t = text::trim(s);
    if all_digits(t) {
        Some(Seq::new(t.len() / 2, |k: int| pair_value(t[2 * k], t[2 * k + 1])))
    } else {
        None
    }
}

/// Bytes written in hexadecimal are read back as the same bytes.
pub proof fn law_hex_reads_back(bytes: Seq<u8>)
    ensures
        hex_in(hex_text(bytes)) == Some(bytes),
{
    let s = hex_text(bytes);
    assert forall|k: int| 0 <= k < s.len() implies digit_value(#[trigger] s[k]) == Some(
        nibble(bytes, k) as u8,
    ) && !text::white_space(s[k]) by {
        assert(nibble(bytes, k) < 16);
    }
    assert(text::trim(s) == s);
    assert forall|k: int| 0 <= k < bytes.len() implies #[trigger] pair_value(
        s[2 * k],
        s[2 * k + 1],
    ) == bytes[k] by {
        assert(nibble(bytes, 2 * k) == bytes[k] / 16);
        assert(nibble(bytes, 2 * k + 1) == bytes[k] % 16) by {
            assert((2 * k + 1) / 2 == k);
        }
    }
    assert(Seq::new(s.len() / 2, |k: int| pair_value(s[2 * k], s[2 * k + 1])) =~= bytes);
}

/// The half byte that a character stands for.
fn value_of_digit(c: char) -> (d: Option<u8>)
    ensures
        d == digit_value(c),
        d matches Some(n) ==> n < 16,
{
    if '0' <= c && c <= '9' {
        Some((c as u32 - 48) as u8)
    } else if 'A' <= c && c <= 'F' {
        Some((c as u32 - 55) as u8)
    } else if 'a' <= c && c <= 'f' {
        Some((c as u32 - 87) as u8)
    } else {
        None
    }
}

/// The bytes that a text stands for, white space around it aside: it has to be
/// an even number of digits and nothing else.
pub fn from_hex(s: &str) -> (bytes: Option<Vec<u8>>)
    ensures
        match bytes {
            Some(b) => hex_in(s@) == Some(b@),
            None => hex_in(s@) is None,
        },
{
    let trimmed = text::trimmed(s);
    let chars = text::characters(trimmed.as_str());
    if chars.len() % 2 != 0 {
        return None;
    }
    let ghost t = text::trim(s@);
    let mut out: Vec<u8> = Vec::new();
    for k in 0..chars.len() / 2
        invariant
            chars@ == t,
            t == text::trim(s@),
            t.len() % 2 == 0,
            out@.len() == k,
            forall|j: int| 0 <= j < 2 * k ==> digit_value(#[trigger] t[j]) is Some,
            forall|j: int|
                0 <= j < k ==> #[trigger] out@[j] == pair_value(t[2 * j], t[2 * j + 1]),
    {
        match (value_of_digit(chars[2 * k]), value_of_digit(chars[2 * k + 1])) {
            (Some(high), Some(low)) => {
                out.push(16 * high + low);
            },
            _ => {
                return None;
            },
        }
    }
    assert(Seq::new(t.len() / 2, |k: int| pair_value(t[2 * k], t[2 * k + 1])) =~= out@);
    Some(out)
}

/// Each byte is written as the digit of its high half and the digit of its low
/// half, in lower case.
pub proof fn law_each_byte_is_two_digits(bytes: Seq<u8>, i: int)
    requires
        0 <= i < bytes.len(),
    ensures
        hex_text(bytes).len() == 2 * bytes.len(),
        hex_text(bytes)[2 * i] == "0123456789abcdef"@[bytes[i] as int / 16],
        hex_text(bytes)[2 * i + 1] == "0123456789abcdef"@[bytes[i] as int % 16],
{
    reveal_strlit("0123456789abcdef");
    assert((2 * i + 1) / 2 == i);
    assert((2 * i + 1) % 2 == 1);
    assert(nibble(bytes, 2 * i) == bytes[i] / 16);
    assert(nibble(bytes, 2 * i + 1) == bytes[i] % 16);
}

/// Pairs of digits, in either case and with white space around them, are read as
/// the bytes that they stand for.
pub proof fn law_digits_are_read_as_bytes(
    before: Seq<char>,
    digits: Seq<char>,
    after: Seq<char>,
    halves: Seq<u8>,
)
    requires
        forall|i: int| 0 <= i < before.len() ==> text::white_space(#[trigger] before[i]),
        forall|i: int| 0 <= i < after.len() ==> text::white_space(#[trigger] after[i]),
        halves.len() == digits.len(),
        halves.len() % 2 == 0,
        forall|k: int|
            0 <= k < halves.len() ==> (#[trigger] halves[k]) < 16 && (digits[k]
                == "0123456789abcdef"@[halves[k] as int] || digits[k]
                == "0123456789ABCDEF"@[halves[k] as int]),
    ensures
        hex_in(before + digits + after) is Some,
        hex_in(before + digits + after)->0.len() == digits.len() / 2,
        forall|i: int|
            0 <= i < digits.len() / 2 ==> (#[trigger] hex_in(before + digits + after)->0[i]) == 16
                * halves[2 * i] + halves[2 * i + 1],
{
    reveal_strlit("0123456789abcdef");
    reveal_strlit("0123456789ABCDEF");
    assert forall|k: int| 0 <= k < digits.len() implies digit_value(#[trigger] digits[k]) == Some(
        halves[k],
    ) && !text::white_space(digits[k]) by {
        assert(halves[k] < 16);
    }
    text::law_trimming_leaves_what_is_between(before, digits, after);
    assert forall|i: int| 0 <= i < digits.len() / 2 implies (#[trigger] hex_in(
        before + digits + after,
    )->0[i]) == 16 * halves[2 * i] + halves[2 * i + 1] by {
        assert(digit_value(digits[2 * i]) == Some(halves[2 * i]));
        assert(digit_value(digits[2 * i + 1]) == Some(halves[2 * i + 1]));
    }
}

/// A text with an odd number of characters between the white space around it, or
/// with a character that is no digit, stands for no bytes.
pub proof fn law_what_is_not_hexadecimal_is_refused(
    before: Seq<char>,
    s: Seq<char>,
    after: Seq<char>,
)
    requires
        forall|i: int| 0 <= i < before.len() ==> text::white_space(#[trigger] before[i]),
        forall|i: int| 0 <= i < after.len() ==> text::white_space(#[trigger] after[i]),
        s.len() > 0,
        !text::white_space(s[0]),
        !text::white_space(s[s.len() - 1]),
        s.len() % 2 == 1 || exists|k: int|
            0 <= k < s.len() && !("0123456789abcdef"@.contains(#[trigger] s[k])
                || "0123456789ABCDEF"@.contains(s[k])),
    ensures
        hex_in(before + s + after) is None,
{
    text::law_trimming_leaves_what_is_between(before, s, after);
    reveal_strlit("0123456789abcdef");
    reveal_strlit("0123456789ABCDEF");
    let lower = "0123456789abcdef"@;
    let upper = "0123456789ABCDEF"@;
    if s.len() % 2 == 0 {
        let k = choose|k: int|
            0 <= k < s.len() && !(lower.contains(#[trigger] s[k]) || upper.contains(s[k]));
        if let Some(v) = digit_value(s[k]) {
            assert(lower[v as int] == s[k] || upper[v as int] == s[k]);
        }
    }
}

/// The upper case digits are those of hexadecimal.
pub proof fn law_upper_digits_in_order(d: nat)
    requires
        d < 16,
    ensures
        upper_digit(d) == "0123456789ABCDEF"@[d as int],
{
    reveal_strlit("0123456789ABCDEF");
}

/// Of the half bytes, the high half of each byte comes first.
pub proof fn law_halves_in_order(bytes: Seq<u8>, i: int)
    requires
        0 <= i < bytes.len(),
    ensures
        nibble(bytes, 2 * i) == bytes[i] as nat / 16,
        nibble(bytes, 2 * i + 1) == bytes[i] as nat % 16,
{
    assert((2 * i + 1) / 2 == i);
    assert((2 * i + 1) % 2 == 1);
}

} // verus!
