//! Text helpers shared by the validators: trimming, prefixes, counting and decimal numbers.

use vstd::prelude::*;

verus! {

/// The characters that carry the Unicode `White_Space` property.
pub open spec fn is_white_space(c: char) -> bool {
    ||| '\u{9}' <= c <= '\u{d}'
    ||| c == ' '
    ||| c == '\u{85}'
    ||| c == '\u{a0}'
    ||| c == '\u{1680}'
    ||| '\u{2000}' <= c <= '\u{200a}'
    ||| c == '\u{2028}'
    ||| c == '\u{2029}'
    ||| c == '\u{202f}'
    ||| c == '\u{205f}'
    ||| c == '\u{3000}'
}

/// Nothing but white space: what trims to the empty text.
pub open spec fn is_blank(text: Seq<char>) -> bool {
    forall|i: int| 0 <= i < text.len() ==> is_white_space(#[trigger] text[i])
}

/// `text` without its leading white space.
pub open spec fn trimmed_front(text: Seq<char>) -> Seq<char>
    decreases text.len(),
{
    if text.len() > 0 && is_white_space(text.first()) {
        trimmed_front(text.drop_first())
    } else {
        text
    }
}

/// `text` without its trailing white space.
pub open spec fn trimmed_back(text: Seq<char>) -> Seq<char>
    decreases text.len(),
{
    if text.len() > 0 && is_white_space(text.last()) {
        trimmed_back(text.drop_last())
    } else {
        text
    }
}

/// `text` without its leading and trailing white space.
pub open spec fn trimmed(text: Seq<char>) -> Seq<char> {
    trimmed_back(trimmed_front(text))
}

/// The number of bytes that `text` takes up in UTF-8.
pub open spec fn byte_len(text: Seq<char>) -> nat {
    vstd::utf8::encode_utf8(text).len()
}

/// Calls `str::trim`, which removes leading and trailing characters with the
/// Unicode `White_Space` property and nothing else.
#[verifier::external_body]
pub(crate) fn trim(text: &str) -> (result: &str)
    ensures
        result@ == trimmed(text@),
{
    text.trim()
}

/// `String::push` appends one character.
pub assume_specification[ String::push ](string: &mut String, c: char)
    ensures
        final(string)@ == old(string)@.push(c),
;

proof fn lemma_trimmed_front(text: Seq<char>)
    ensures
        trimmed_front(text).len() <= text.len(),
        trimmed_front(text).len() > 0 ==> !is_white_space(trimmed_front(text).first()),
        trimmed_front(text).len() == 0 <==> is_blank(text),
        trimmed_front(text).len() > 0 ==> trimmed_front(text).last() == text.last(),
    decreases text.len(),
{
    if text.len() > 0 && is_white_space(text.first()) {
        let rest = text.drop_first();
        lemma_trimmed_front(rest);
        assert(is_blank(rest) ==> is_blank(text)) by {
            assert forall|i: int| is_blank(rest) && 0 <= i < text.len() implies is_white_space(
                #[trigger] text[i],
            ) by {
                if i > 0 {
                    assert(rest[i - 1] == text[i]);
                }
            }
        }
        assert(is_blank(text) ==> is_blank(rest));
    } else if text.len() > 0 {
        assert(!is_white_space(text[0]));
    }
}

proof fn lemma_trimmed_back(text: Seq<char>)
    ensures
        trimmed_back(text).len() <= text.len(),
        trimmed_back(text) == text.take(trimmed_back(text).len() as int),
        trimmed_back(text).len() > 0 ==> !is_white_space(trimmed_back(text).last()),
        trimmed_back(text).len() == 0 ==> is_blank(text),
        trimmed_back(text).len() > 0 ==> trimmed_back(text).first() == text.first(),
    decreases text.len(),
{
    if text.len() > 0 && is_white_space(text.last()) {
        let rest = text.drop_last();
        lemma_trimmed_back(rest);
        assert(trimmed_back(text) =~= text.take(trimmed_back(text).len() as int));
        if trimmed_back(text).len() == 0 {
            assert forall|i: int| 0 <= i < text.len() implies is_white_space(#[trigger] text[i]) by {
                if i < rest.len() {
                    assert(rest[i] == text[i]);
                }
            }
        }
    } else {
        assert(text =~= text.take(text.len() as int));
    }
}

/// Trimming leaves nothing exactly when there was nothing but white space.
pub proof fn lemma_trimmed_empty_iff_blank(text: Seq<char>)
    ensures
        trimmed(text).len() == 0 <==> is_blank(text),
{
    lemma_trimmed_front(text);
    lemma_trimmed_back(trimmed_front(text));
    if trimmed(text).len() == 0 && trimmed_front(text).len() > 0 {
        assert(is_white_space(trimmed_front(text)[0]));
    }
}

/// What trimming returns neither starts nor ends with white space, so trimming it
/// again changes nothing.
pub proof fn lemma_trimmed_is_stable(text: Seq<char>)
    ensures
        trimmed(trimmed(text)) == trimmed(text),
        trimmed(text).len() <= text.len(),
        trimmed(text).len() > 0 ==> !is_white_space(trimmed(text).first()) && !is_white_space(
            trimmed(text).last(),
        ),
{
    lemma_trimmed_front(text);
    lemma_trimmed_back(trimmed_front(text));
    let once = trimmed(text);
    assert(trimmed_front(once) == once);
    assert(trimmed_back(once) == once);
}

/// The characters of `text`, in order.
pub fn to_chars(text: &str) -> (chars: Vec<char>)
    ensures
        chars@ == text@,
{
    let mut chars: Vec<char> = Vec::new();
    for c in it: text.chars()
        invariant
            chars@ == it.seq().take(it.index() as int),
            it.seq() == text@,
    {
        chars.push(c);
    }
    chars
}

/// Whether two texts hold the same characters.
pub fn same_text(left: &str, right: &str) -> (same: bool)
    ensures
        same == (left@ == right@),
{
    let a = to_chars(left);
    let b = to_chars(right);
    if a.len() != b.len() {
        return false;
    }
    let mut i: usize = 0;
    while i < a.len()
        invariant
            a.len() == b.len(),
            i <= a.len(),
            a@ == left@,
            b@ == right@,
            forall|j: int| 0 <= j < i ==> a[j] == b[j],
        decreases a.len() - i,
    {
        if a[i] != b[i] {
            return false;
        }
        i += 1;
    }
    assert(left@ =~= right@);
    true
}

/// Whether `text` begins with `prefix`.
pub fn starts_with(text: &str, prefix: &str) -> (found: bool)
    ensures
        found == prefix@.is_prefix_of(text@),
{
    let chars = to_chars(text);
    let expected = to_chars(prefix);
    if chars.len() < expected.len() {
        return false;
    }
    let mut i: usize = 0;
    while i < expected.len()
        invariant
            expected.len() <= chars.len(),
            i <= expected.len(),
            chars@ == text@,
            expected@ == prefix@,
            forall|j: int| 0 <= j < i ==> expected[j] == chars[j],
        decreases expected.len() - i,
    {
        if expected[i] != chars[i] {
            assert(text@.subrange(0, prefix@.len() as int)[i as int] != prefix@[i as int]);
            return false;
        }
        i += 1;
    }
    assert(prefix@ =~= text@.subrange(0, prefix@.len() as int));
    true
}

/// `text` with every `from` replaced by `to`.
pub open spec fn replaced(text: Seq<char>, from: char, to: char) -> Seq<char> {
    text.map_values(
        |c: char|
            if c == from {
                to
            } else {
                c
            },
    )
}

/// Replaces one character by another wherever it occurs.
pub fn replace_char(text: &str, from: char, to: char) -> (result: String)
    ensures
        result@ == replaced(text@, from, to),
{
    let mut result = String::new();
    for c in it: text.chars()
        invariant
            result@ == replaced(it.seq().take(it.index() as int), from, to),
            it.seq() == text@,
    {
        if c == from {
            result.push(to);
        } else {
            result.push(c);
        }
    }
    result
}

/// The decimal digit for a value below ten.
pub open spec fn digit(value: nat) -> char {
    (48 + value) as char
}

/// The shortest decimal numeral for `value`.
pub open spec fn decimal(value: nat) -> Seq<char>
    decreases value,
{
    if value < 10 {
        seq![digit(value)]
    } else {
        decimal(value / 10).push(digit(value % 10))
    }
}

/// The decimal numeral for `value`, with a minus sign in front of a negative one.
pub open spec fn signed_decimal(value: int) -> Seq<char> {
    if value < 0 {
        seq!['-'] + decimal((-value) as nat)
    } else {
        decimal(value as nat)
    }
}

/// Writes a number in decimal.
pub fn decimal_text(value: u64) -> (result: String)
    ensures
        result@ == decimal(value as nat),
    decreases value,
{
    let mut result = if value < 10 {
        String::new()
    } else {
        decimal_text(value / 10)
    };
    let last: u8 = 48 + (value % 10) as u8;
    result.push(last as char);
    result
}

/// Writes a signed number in decimal.
pub fn signed_decimal_text(value: i32) -> (result: String)
    ensures
        result@ == signed_decimal(value as int),
{
    if value < 0 {
        let mut result = String::new();
        result.push('-');
        let magnitude: i64 = -(value as i64);
        let digits = decimal_text(magnitude as u64);
        result.append(digits.as_str());
        assert(result@ =~= signed_decimal(value as int));
        result
    } else {
        decimal_text(value as u64)
    }
}

} // verus!
