//! Promises about trimming, numbers and the order of texts.

use crate::ordering;
use crate::text;
use vstd::prelude::*;

verus! {

/// White space is exactly these characters.
pub proof fn lemma_white_space_characters(c: char)
    ensures
        text::is_white_space(c) <==> (c == '\t' || c == '\n' || c == '\u{b}' || c == '\u{c}' || c
            == '\r' || c == ' ' || c == '\u{85}' || c == '\u{a0}' || c == '\u{1680}' || c
            == '\u{2000}' || c == '\u{2001}' || c == '\u{2002}' || c == '\u{2003}' || c
            == '\u{2004}' || c == '\u{2005}' || c == '\u{2006}' || c == '\u{2007}' || c
            == '\u{2008}' || c == '\u{2009}' || c == '\u{200a}' || c == '\u{2028}' || c
            == '\u{2029}' || c == '\u{202f}' || c == '\u{205f}' || c == '\u{3000}'),
{
}

proof fn lemma_front_trims(blank: Seq<char>, rest: Seq<char>)
    requires
        forall|i: int| 0 <= i < blank.len() ==> text::is_white_space(#[trigger] blank[i]),
        rest.len() == 0 || !text::is_white_space(rest[0]),
    ensures
        text::trimmed_front(blank + rest) == rest,
    decreases blank.len(),
{
    if blank.len() > 0 {
        assert(text::is_white_space(blank[0]));
        assert forall|i: int| 0 <= i < blank.drop_first().len() implies text::is_white_space(
            #[trigger] blank.drop_first()[i],
        ) by {
            assert(text::is_white_space(blank[i + 1]));
        }
        lemma_front_trims(blank.drop_first(), rest);
        assert((blank + rest).drop_first() =~= blank.drop_first() + rest);
    } else {
        assert(blank + rest =~= rest);
    }
}

proof fn lemma_back_trims(rest: Seq<char>, blank: Seq<char>)
    requires
        forall|i: int| 0 <= i < blank.len() ==> text::is_white_space(#[trigger] blank[i]),
        rest.len() == 0 || !text::is_white_space(rest.last()),
    ensures
        text::trimmed_back(rest + blank) == rest,
    decreases blank.len(),
{
    if blank.len() > 0 {
        assert(text::is_white_space(blank[blank.len() - 1]));
        assert forall|i: int| 0 <= i < blank.drop_last().len() implies text::is_white_space(
            #[trigger] blank.drop_last()[i],
        ) by {
            assert(text::is_white_space(blank[i]));
        }
        lemma_back_trims(rest, blank.drop_last());
        assert((rest + blank).drop_last() =~= rest + blank.drop_last());
    } else {
        assert(rest + blank =~= rest);
    }
}

/// Trimming takes away the white space around a text, however much there is, and nothing
/// of the text itself.
pub proof fn lemma_trimming_takes_the_padding(before: Seq<char>, core: Seq<char>, after: Seq<char>)
    requires
        forall|i: int| 0 <= i < before.len() ==> text::is_white_space(#[trigger] before[i]),
        forall|i: int| 0 <= i < after.len() ==> text::is_white_space(#[trigger] after[i]),
        core.len() > 0 ==> !text::is_white_space(core[0]) && !text::is_white_space(
            core[core.len() - 1],
        ),
    ensures
        text::trimmed(before + core + after) == core,
{
    if core.len() > 0 {
        assert(before + core + after =~= before + (core + after));
        lemma_front_trims(before, core + after);
        lemma_back_trims(core, after);
    } else {
        let whole = before + core + after;
        assert(whole =~= whole + Seq::<char>::empty());
        assert forall|i: int| 0 <= i < whole.len() implies text::is_white_space(
            #[trigger] whole[i],
        ) by {
            if i < before.len() {
                assert(whole[i] == before[i]);
            } else {
                assert(whole[i] == after[i - before.len()]);
            }
        }
        lemma_front_trims(whole, Seq::empty());
        assert(core =~= Seq::empty());
    }
}

/// A text without a single character that is not white space is blank, and no other.
pub proof fn lemma_blank_means_nothing_visible(value: Seq<char>)
    ensures
        text::is_blank(value) <==> !(exists|i: int|
            0 <= i < value.len() && !text::is_white_space(#[trigger] value[i])),
        text::is_blank(value) <==> text::trimmed(value).len() == 0,
{
    text::lemma_trimmed_empty_iff_blank(value);
}

/// Numbers are written in decimal: one digit for a number below ten, and for a larger
/// one the digits of its tenth followed by its last digit.
pub proof fn lemma_decimal_digits(tenth: nat, last: nat)
    requires
        last < 10,
    ensures
        text::decimal(last) == seq!["0123456789"@[last as int]],
        tenth > 0 ==> text::decimal(10 * tenth + last) == text::decimal(tenth).push(
            "0123456789"@[last as int],
        ),
        tenth > 0 ==> text::signed_decimal(-(tenth as int)) == seq!['-'] + text::decimal(tenth),
        text::signed_decimal(tenth as int) == text::decimal(tenth),
{
    reveal_strlit("0123456789");
    assert((10 * tenth + last) / 10 == tenth);
    assert((10 * tenth + last) % 10 == last);
}

/// Replacing a character changes that character wherever it stands, and nothing else.
pub proof fn lemma_replacing_changes_one_character(
    value: Seq<char>,
    from: char,
    to: char,
    index: int,
)
    requires
        0 <= index < value.len(),
    ensures
        text::replaced(value, from, to).len() == value.len(),
        value[index] == from ==> text::replaced(value, from, to)[index] == to,
        value[index] != from ==> text::replaced(value, from, to)[index] == value[index],
{
}

/// The size of a text is the number of its UTF-8 bytes.
pub proof fn lemma_size_in_bytes(value: Seq<char>)
    ensures
        text::byte_len(value) == vstd::utf8::encode_utf8(value).len(),
{
}

/// Of two byte sequences the one comes first that is a beginning of the other, or that
/// has the smaller byte where they first differ.
pub proof fn lemma_bytes_are_compared_at_the_first_difference(
    common: Seq<u8>,
    left: Seq<u8>,
    right: Seq<u8>,
)
    requires
        left.len() > 0 && right.len() > 0 ==> left[0] != right[0],
    ensures
        ordering::bytes_le(common + left, common + right) <==> (left.len() == 0 || (right.len() > 0
            && left[0] < right[0])),
    decreases common.len(),
{
    if common.len() > 0 {
        lemma_bytes_are_compared_at_the_first_difference(common.drop_first(), left, right);
        assert((common + left).drop_first() =~= common.drop_first() + left);
        assert((common + right).drop_first() =~= common.drop_first() + right);
    } else {
        assert(common + left =~= left);
        assert(common + right =~= right);
    }
}

/// Texts are ordered as their UTF-8 bytes are.
pub proof fn lemma_texts_are_ordered_by_bytes(left: Seq<char>, right: Seq<char>)
    ensures
        ordering::text_le(left, right) <==> ordering::bytes_le(
            vstd::utf8::encode_utf8(left),
            vstd::utf8::encode_utf8(right),
        ),
{
}

} // verus!
