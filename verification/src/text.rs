//! Text: white space, letter case, numerals and the bytes behind them.

use vstd::prelude::*;
use vstd::string::*;
use vstd::utf8::*;

verus! {

/// The characters with Unicode's `White_Space` property.
pub open spec fn white_space(c: char) -> bool {
    let code = c as u32;
    ||| 0x09 <= code <= 0x0d
    ||| code == 0x20
    ||| code == 0x85
    ||| code == 0xa0
    ||| code == 0x1680
    ||| 0x2000 <= code <= 0x200a
    ||| code == 0x2028
    ||| code == 0x2029
    ||| code == 0x202f
    ||| code == 0x205f
    ||| code == 0x3000
}

/// What `str::to_lowercase` makes of a text that is not all ASCII.
pub uninterp spec fn unicode_lowercase(s: Seq<char>) -> Seq<char>;

/// What `str`'s `Debug` writes for a text: the text in quotes, with what cannot
/// stand there as it is escaped.
pub uninterp spec fn debug_quoted(s: Seq<char>) -> Seq<char>;

/// The lower case form of an ASCII letter; every other character is kept.
pub open spec fn ascii_lower(c: char) -> char {
    if 'A' <= c && c <= 'Z' {
        ((c as u32) + 32) as char
    } else {
        c
    }
}

/// The lower case form of a text. The letters of ASCII text are lowered one for
/// one; any other text is a matter for the Unicode tables.
pub open spec fn lowercase(s: Seq<char>) -> Seq<char> {
    if is_ascii_chars(s) {
        s.map_values(|c: char| ascii_lower(c))
    } else {
        unicode_lowercase(s)
    }
}

/// `char::is_whitespace`. Claimed: it tells the characters with the
/// `White_Space` property from the others.
pub assume_specification[ char::is_whitespace ](c: char) -> (r: bool)
    ensures
        r == white_space(c),
;

/// `str::to_lowercase`. Claimed: ASCII text has its letters lowered one for one,
/// and what becomes of any other text depends on the text alone.
pub assume_specification[ str::to_lowercase ](s: &str) -> (r: String)
    ensures
        is_ascii_chars(s@) ==> r@ == s@.map_values(|c: char| ascii_lower(c)),
        !is_ascii_chars(s@) ==> r@ == unicode_lowercase(s@),
;

/// `String::push`: the character is appended.
pub assume_specification[ String::push ](s: &mut String, c: char)
    ensures
        final(s)@ == old(s)@.push(c),
;

/// `str::from_utf8`: the text that the bytes encode. Claimed: it succeeds
/// exactly on valid UTF-8, and the text's encoding is those bytes.
#[verifier::external_body]
fn checked_utf8(bytes: &[u8]) -> (text: Option<&str>)
    ensures
        text is Some <==> valid_utf8(bytes@),
        text matches Some(t) ==> encode_utf8(t@) == bytes@,
{
    std::str::from_utf8(bytes).ok()
}

/// `format!` of a text with `str`'s `Debug`. Claimed: what is written depends on
/// the text alone.
#[verifier::external_body]
pub(crate) fn quoted(s: &str) -> (words: String)
    ensures
        words@ == debug_quoted(s@),
{
    format!("{:?}", s)
}

/// `s` without the white space it begins with.
pub open spec fn trim_front(s: Seq<char>) -> Seq<char>
    decreases s.len(),
{
    if s.len() > 0 && white_space(s[0]) {
        trim_front(s.drop_first())
    } else {
        s
    }
}

/// `s` without the white space it ends with.
pub open spec fn trim_back(s: Seq<char>) -> Seq<char>
    decreases s.len(),
{
    if s.len() > 0 && white_space(s.last()) {
        trim_back(s.drop_last())
    } else {
        s
    }
}

/// `s` without the white space around it.
pub open spec fn trim(s: Seq<char>) -> Seq<char> {
    trim_back(trim_front(s))
}

/// Whether `s` holds nothing but white space.
pub open spec fn blank(s: Seq<char>) -> bool {
    forall|i: int| 0 <= i < s.len() ==> white_space(#[trigger] s[i])
}

/// Trimming leaves nothing of a blank text, and something of any other.
pub proof fn law_trim_empties_blank_text(s: Seq<char>)
    ensures
        trim(s).len() == 0 <==> blank(s),
    decreases s.len(),
{
    lemma_trim_front_blank(s);
    lemma_trim_back_blank(trim_front(s));
    if !blank(s) {
        lemma_trim_front_keeps(s);
    }
}

proof fn lemma_trim_front_blank(s: Seq<char>)
    ensures
        trim_front(s).len() == 0 <==> blank(s),
        trim_front(s).len() > 0 ==> !white_space(trim_front(s)[0]),
    decreases s.len(),
{
    if s.len() > 0 && white_space(s[0]) {
        lemma_trim_front_blank(s.drop_first());
        if blank(s.drop_first()) {
            assert forall|i: int| 0 <= i < s.len() implies white_space(#[trigger] s[i]) by {
                if i > 0 {
                    assert(s.drop_first()[i - 1] == s[i]);
                }
            }
        }
        if blank(s) {
            assert forall|i: int| 0 <= i < s.drop_first().len() implies white_space(
                #[trigger] s.drop_first()[i],
            ) by {
                assert(s.drop_first()[i] == s[i + 1]);
            }
        }
    } else if s.len() > 0 {
        assert(!white_space(s[0]));
    }
}

proof fn lemma_trim_front_keeps(s: Seq<char>)
    requires
        !blank(s),
    ensures
        !blank(trim_front(s)),
{
    lemma_trim_front_blank(s);
    assert(!white_space(trim_front(s)[0]));
}

proof fn lemma_trim_back_blank(s: Seq<char>)
    ensures
        trim_back(s).len() == 0 <==> blank(s),
    decreases s.len(),
{
    if s.len() > 0 && white_space(s.last()) {
        lemma_trim_back_blank(s.drop_last());
        if blank(s.drop_last()) {
            assert forall|i: int| 0 <= i < s.len() implies white_space(#[trigger] s[i]) by {
                if i < s.len() - 1 {
                    assert(s.drop_last()[i] == s[i]);
                }
            }
        }
        if blank(s) {
            assert forall|i: int| 0 <= i < s.drop_last().len() implies white_space(
                #[trigger] s.drop_last()[i],
            ) by {
                assert(s.drop_last()[i] == s[i]);
            }
        }
    } else if s.len() > 0 {
        assert(!white_space(s[s.len() - 1]));
    }
}

/// White space added around a text is trimmed away again.
pub proof fn law_trim_ignores_padding(before: Seq<char>, s: Seq<char>, after: Seq<char>)
    requires
        blank(before),
        blank(after),
    ensures
        trim(before + s + after) == trim(s),
{
    lemma_trim_front_padding(before, s + after);
    assert(before + (s + after) =~= before + s + after);
    if blank(s) {
        assert(blank(s + after)) by {
            assert forall|i: int| 0 <= i < (s + after).len() implies white_space(
                #[trigger] (s + after)[i],
            ) by {
                if i < s.len() {
                    assert((s + after)[i] == s[i]);
                } else {
                    assert((s + after)[i] == after[i - s.len()]);
                }
            }
        }
        law_trim_empties_blank_text(s + after);
        law_trim_empties_blank_text(s);
        assert(trim(s + after) =~= trim(s));
    } else {
        lemma_trim_front_append(s, after);
        lemma_trim_back_padding(trim_front(s), after);
    }
}

proof fn lemma_trim_front_padding(before: Seq<char>, s: Seq<char>)
    requires
        blank(before),
    ensures
        trim_front(before + s) == trim_front(s),
    decreases before.len(),
{
    if before.len() == 0 {
        assert(before + s =~= s);
    } else {
        assert(white_space(before[0]));
        assert((before + s).drop_first() =~= before.drop_first() + s);
        assert forall|i: int| 0 <= i < before.drop_first().len() implies white_space(
            #[trigger] before.drop_first()[i],
        ) by {
            assert(before.drop_first()[i] == before[i + 1]);
        }
        lemma_trim_front_padding(before.drop_first(), s);
    }
}

proof fn lemma_trim_front_append(s: Seq<char>, after: Seq<char>)
    requires
        !blank(s),
    ensures
        trim_front(s + after) == trim_front(s) + after,
    decreases s.len(),
{
    if s.len() > 0 && white_space(s[0]) {
        assert((s + after).drop_first() =~= s.drop_first() + after);
        lemma_trim_front_blank(s);
        lemma_trim_front_blank(s.drop_first());
        lemma_trim_front_append(s.drop_first(), after);
    }
}

proof fn lemma_trim_back_padding(s: Seq<char>, after: Seq<char>)
    requires
        blank(after),
    ensures
        trim_back(s + after) == trim_back(s),
    decreases after.len(),
{
    if after.len() == 0 {
        assert(s + after =~= s);
    } else {
        assert(white_space(after[after.len() - 1]));
        assert((s + after).drop_last() =~= s + after.drop_last());
        assert forall|i: int| 0 <= i < after.drop_last().len() implies white_space(
            #[trigger] after.drop_last()[i],
        ) by {
            assert(after.drop_last()[i] == after[i]);
        }
        lemma_trim_back_padding(s, after.drop_last());
    }
}

/// Whether two texts are the same.
pub fn same_text(a: &str, b: &str) -> (same: bool)
    ensures
        same == (a@ == b@),
{
    a.to_owned() == b.to_owned()
}

/// The characters of a text, one by one.
pub fn characters(s: &str) -> (chars: Vec<char>)
    ensures
        chars@ == s@,
{
    let mut chars: Vec<char> = Vec::new();
    for c in it: s.chars()
        invariant
            it.seq() == s@,
            chars@ == s@.take(it.index() as int),
    {
        assert(s@.take(it.index() as int).push(c) =~= s@.take(it.index() + 1));
        chars.push(c);
    }
    assert(s@.take(s@.len() as int) =~= s@);
    chars
}

/// The text without the white space around it.
pub fn trimmed(s: &str) -> (r: String)
    ensures
        r@ == trim(s@),
{
    let chars = characters(s);
    let mut from: usize = 0;
    assert(s@.skip(0) =~= s@);
    while from < chars.len() && chars[from].is_whitespace()
        invariant
            chars@ == s@,
            from <= chars@.len(),
            trim_front(s@) == trim_front(s@.skip(from as int)),
        decreases chars@.len() - from,
    {
        assert(s@.skip(from as int)[0] == chars@[from as int]);
        assert(s@.skip(from as int).drop_first() =~= s@.skip(from + 1));
        from = from + 1;
    }
    proof {
        if from < chars@.len() {
            assert(s@.skip(from as int)[0] == chars@[from as int]);
        }
        assert(trim_front(s@) == s@.skip(from as int));
        assert(s@.skip(from as int) =~= s@.subrange(from as int, s@.len() as int));
    }
    let mut to: usize = chars.len();
    while from < to && chars[to - 1].is_whitespace()
        invariant
            chars@ == s@,
            from <= to <= chars@.len(),
            trim(s@) == trim_back(s@.subrange(from as int, to as int)),
        decreases to,
    {
        assert(s@.subrange(from as int, to as int).last() == chars@[to - 1]);
        assert(s@.subrange(from as int, to as int).drop_last() =~= s@.subrange(
            from as int,
            to - 1,
        ));
        to = to - 1;
    }
    proof {
        if from < to {
            assert(s@.subrange(from as int, to as int).last() == chars@[to - 1]);
        }
    }
    s.substring_char(from, to).to_owned()
}

/// Whether the text holds nothing but white space.
pub fn is_blank(s: &str) -> (r: bool)
    ensures
        r == blank(s@),
{
    proof {
        law_trim_empties_blank_text(s@);
    }
    trimmed(s).as_str().is_empty()
}

/// The text that the bytes encode, unless they are not UTF-8.
pub fn decoded(bytes: &[u8]) -> (text: Option<String>)
    ensures
        text is Some <==> valid_utf8(bytes@),
        text matches Some(t) ==> encode_utf8(t@) == bytes@ && t@ == decode_utf8(bytes@),
{
    match checked_utf8(bytes) {
        Some(t) => {
            proof {
                encode_utf8_decode_utf8(t@);
            }
            Some(t.to_owned())
        },
        None => None,
    }
}

/// A text without the newline that ends it, where one does.
pub open spec fn unterminated(s: Seq<char>) -> Seq<char> {
    if s.len() > 0 && s.last() == '\n' {
        s.drop_last()
    } else {
        s
    }
}

/// The text without the newline that ends it, where one does.
pub fn without_line_end(s: &str) -> (rest: &str)
    ensures
        rest@ == unterminated(s@),
{
    let count: usize = s.unicode_len();
    if count > 0 && s.get_char(count - 1) == '\n' {
        let rest = s.substring_char(0, count - 1);
        assert(rest@ =~= unterminated(s@));
        rest
    } else {
        s
    }
}

/// The bytes of ASCII text are its characters, one for one.
pub proof fn lemma_ascii_encoding(s: Seq<char>)
    requires
        is_ascii_chars(s),
    ensures
        encode_utf8(s) == s.map_values(|c: char| c as u8),
{
    is_ascii_chars_encode_utf8(s);
    assert(encode_utf8(s) =~= s.map_values(|c: char| c as u8));
}

/// The bytes of two texts put together are the bytes of the one and of the
/// other.
pub proof fn lemma_encoding_joins(a: Seq<char>, b: Seq<char>)
    ensures
        encode_utf8(a + b) == encode_utf8(a) + encode_utf8(b),
    decreases a.len(),
{
    if a.len() == 0 {
        assert(a + b =~= b);
        assert(encode_utf8(a) + encode_utf8(b) =~= encode_utf8(b));
    } else {
        lemma_encoding_joins(a.drop_first(), b);
        assert((a + b).drop_first() =~= a.drop_first() + b);
        assert(encode_utf8(a + b) =~= encode_utf8(a) + encode_utf8(b));
    }
}

/// The character for a digit below sixteen, letters being lower case.
pub open spec fn digit_char(d: nat) -> char {
    if d < 10 {
        (48 + d) as char
    } else {
        (87 + d) as char
    }
}

/// `n` written in the given radix, without leading zeros.
pub open spec fn numeral(n: nat, radix: nat) -> Seq<char>
    decreases n,
{
    if radix < 2 || n < radix {
        seq![digit_char(n)]
    } else {
        proof {
            assert(n / radix < n) by (nonlinear_arith)
                requires
                    2 <= radix,
                    radix <= n,
            ;
        }
        numeral(n / radix, radix).push(digit_char(n % radix))
    }
}

/// `n` in decimal.
pub open spec fn decimal(n: nat) -> Seq<char> {
    numeral(n, 10)
}

/// The character for a digit below sixteen.
pub fn digit(d: u8) -> (c: char)
    requires
        d < 16,
    ensures
        c == digit_char(d as nat),
{
    if d < 10 {
        (48 + d) as char
    } else {
        (87 + d) as char
    }
}

/// `n` written in the given radix.
pub fn written(n: u64, radix: u64) -> (s: String)
    requires
        2 <= radix <= 16,
    ensures
        s@ == numeral(n as nat, radix as nat),
    decreases n,
{
    if n < radix {
        let mut s = String::new();
        s.push(digit(n as u8));
        assert(s@ =~= seq![digit_char(n as nat)]);
        s
    } else {
        proof {
            assert(n / radix < n) by (nonlinear_arith)
                requires
                    2 <= radix,
                    radix <= n,
            ;
        }
        let mut s = written(n / radix, radix);
        s.push(digit((n % radix) as u8));
        s
    }
}

/// `n` in decimal.
pub fn in_decimal(n: u64) -> (s: String)
    ensures
        s@ == decimal(n as nat),
{
    written(n, 10)
}

// ---------------------------------------------------------------------------
// What holds of all of it
// ---------------------------------------------------------------------------
/// A text is blank exactly when it has no character but white space.
pub proof fn law_blank_is_white_space_only(s: Seq<char>)
    ensures
        blank(s) <==> !exists|i: int| 0 <= i < s.len() && !white_space(#[trigger] s[i]),
{
}

/// Of a text with white space around it, trimming leaves what is between, character
/// for character, where that neither begins nor ends with white space.
pub proof fn law_trimming_leaves_what_is_between(
    before: Seq<char>,
    s: Seq<char>,
    after: Seq<char>,
)
    requires
        forall|i: int| 0 <= i < before.len() ==> white_space(#[trigger] before[i]),
        forall|i: int| 0 <= i < after.len() ==> white_space(#[trigger] after[i]),
        s.len() > 0 ==> !white_space(s[0]) && !white_space(s[s.len() - 1]),
    ensures
        trim(before + s + after) == s,
{
    law_trim_ignores_padding(before, s, after);
    assert(trim(s) == s);
}

/// Every text is white space, then what trimming leaves of it, then white space,
/// and what is left neither begins nor ends with white space.
pub proof fn law_trimming_takes_white_space_only(s: Seq<char>)
    ensures
        exists|from: int, to: int|
            0 <= from <= to <= s.len() && trim(s) == #[trigger] s.subrange(from, to) && (forall|
                i: int,
            |
                0 <= i < from || to <= i < s.len() ==> white_space(#[trigger] s[i])),
        trim(s).len() > 0 ==> !white_space(trim(s)[0]) && !white_space(trim(s)[trim(s).len() - 1]),
{
    lemma_trim_front_is_an_end(s);
    let from = choose|from: int|
        0 <= from <= s.len() && trim_front(s) == #[trigger] s.subrange(from, s.len() as int) && (
        forall|i: int| 0 <= i < from ==> white_space(#[trigger] s[i]));
    let rest = trim_front(s);
    lemma_trim_back_is_a_start(rest);
    let count = choose|count: int|
        0 <= count <= rest.len() && trim_back(rest) == #[trigger] rest.subrange(0, count) && (
        forall|i: int| count <= i < rest.len() ==> white_space(#[trigger] rest[i]));
    let to = from + count;
    assert(trim(s) =~= s.subrange(from, to));
    assert forall|i: int| 0 <= i < from || to <= i < s.len() implies white_space(
        #[trigger] s[i],
    ) by {
        if to <= i {
            assert(rest[i - from] == s[i]);
        }
    }
    lemma_trim_front_blank(s);
}

proof fn lemma_trim_front_is_an_end(s: Seq<char>)
    ensures
        exists|from: int|
            0 <= from <= s.len() && trim_front(s) == #[trigger] s.subrange(from, s.len() as int)
                && (forall|i: int| 0 <= i < from ==> white_space(#[trigger] s[i])),
    decreases s.len(),
{
    if s.len() > 0 && white_space(s[0]) {
        let rest = s.drop_first();
        lemma_trim_front_is_an_end(rest);
        let from = choose|from: int|
            0 <= from <= rest.len() && trim_front(rest) == #[trigger] rest.subrange(
                from,
                rest.len() as int,
            ) && (forall|i: int| 0 <= i < from ==> white_space(#[trigger] rest[i]));
        assert(trim_front(s) =~= s.subrange(from + 1, s.len() as int));
        assert forall|i: int| 0 <= i < from + 1 implies white_space(#[trigger] s[i]) by {
            if i > 0 {
                assert(rest[i - 1] == s[i]);
            }
        }
    } else {
        assert(trim_front(s) =~= s.subrange(0, s.len() as int));
    }
}

proof fn lemma_trim_back_is_a_start(s: Seq<char>)
    ensures
        exists|count: int|
            0 <= count <= s.len() && trim_back(s) == #[trigger] s.subrange(0, count) && (forall|
                i: int,
            |
                count <= i < s.len() ==> white_space(#[trigger] s[i])),
        trim_back(s).len() > 0 ==> !white_space(trim_back(s)[trim_back(s).len() - 1]),
    decreases s.len(),
{
    if s.len() > 0 && white_space(s.last()) {
        let rest = s.drop_last();
        lemma_trim_back_is_a_start(rest);
        let count = choose|count: int|
            0 <= count <= rest.len() && trim_back(rest) == #[trigger] rest.subrange(0, count) && (
            forall|i: int| count <= i < rest.len() ==> white_space(#[trigger] rest[i]));
        assert(trim_back(s) =~= s.subrange(0, count));
        assert forall|i: int| count <= i < s.len() implies white_space(#[trigger] s[i]) by {
            if i < rest.len() {
                assert(rest[i] == s[i]);
            }
        }
    } else {
        assert(trim_back(s) =~= s.subrange(0, s.len() as int));
    }
}

/// Taking the line end off undoes putting one on, takes off no more than one, and
/// leaves a text without one alone.
pub proof fn law_a_line_end_comes_off_once(s: Seq<char>)
    ensures
        unterminated(s.push('\n')) == s,
        s.len() == 0 || s[s.len() - 1] != '\n' ==> unterminated(s) == s,
{
    assert(s.push('\n').drop_last() =~= s);
}

/// The digits are those of hexadecimal, in lower case.
pub proof fn law_digits_in_order(d: nat)
    requires
        d < 16,
    ensures
        "0123456789abcdef"@.len() == 16,
        digit_char(d) == "0123456789abcdef"@[d as int],
{
    reveal_strlit("0123456789abcdef");
}

/// A number below the radix is written as one digit, and any other as its quotient
/// by the radix with the digit of the remainder behind it.
pub proof fn law_numerals_are_positional(n: nat, radix: nat)
    requires
        2 <= radix <= 16,
    ensures
        n < radix ==> numeral(n, radix) == seq!["0123456789abcdef"@[n as int]],
        n >= radix ==> numeral(n, radix) == numeral(n / radix, radix).push(
            "0123456789abcdef"@[(n % radix) as int],
        ),
        decimal(n) == numeral(n, 10),
{
    reveal_strlit("0123456789abcdef");
    assert(0 <= n % radix < radix) by (nonlinear_arith)
        requires
            2 <= radix,
    ;
}

/// A letter and its lower case form are thirty-two apart, and what is no letter has
/// no other form.
pub proof fn law_lowering_a_letter(c: char)
    ensures
        'A' <= c && c <= 'Z' ==> ascii_lower(c) as u32 == c as u32 + 32,
        !('A' <= c && c <= 'Z') ==> ascii_lower(c) == c,
{
}

} // verus!
