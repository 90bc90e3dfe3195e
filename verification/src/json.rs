//! JSON values and JSON strings.

use serde_json::Value;
use vstd::prelude::*;

verus! {

/// A JSON value of the `serde_json` crate.
#[verifier::external_type_specification]
#[verifier::external_body]
pub struct ExValue(Value);

/// The members of a JSON object, by name; none for a value of another kind.
pub uninterp spec fn object_members(value: Value) -> Option<Map<Seq<char>, Value>>;

/// The member of that name, if the value is an object and has one.
pub open spec fn member(value: Value, name: Seq<char>) -> Option<Value> {
    match object_members(value) {
        Some(members) => if members.contains_key(name) {
            Some(members[name])
        } else {
            None
        },
        None => None,
    }
}

/// A reference to an optional value, without the reference.
pub open spec fn referenced(value: Option<&Value>) -> Option<Value> {
    match value {
        Some(value) => Some(*value),
        None => None,
    }
}

/// Calls `Value::as_object` and, on the object, `Map::get`: finds the member of that
/// name, and nothing in a value that is no object.
#[verifier::external_body]
pub(crate) fn find_member<'a>(value: &'a Value, name: &str) -> (found: Option<&'a Value>)
    ensures
        found is Some == (object_members(*value) is Some && object_members(*value)->0.contains_key(
            name@,
        )),
        found is Some ==> *found->0 == object_members(*value)->0[name@],
{
    value.as_object().and_then(|object| object.get(name))
}

/// The hexadecimal digit for a value below sixteen, in lower case.
pub open spec fn hex_digit(value: int) -> char {
    if value < 10 {
        (48 + value) as char
    } else {
        (87 + value) as char
    }
}

/// How one character is written in a JSON string.
pub open spec fn escape(c: char) -> Seq<char> {
    if c == '"' {
        seq!['\\', '"']
    } else if c == '\\' {
        seq!['\\', '\\']
    } else if c == '\u{8}' {
        seq!['\\', 'b']
    } else if c == '\t' {
        seq!['\\', 't']
    } else if c == '\n' {
        seq!['\\', 'n']
    } else if c == '\u{c}' {
        seq!['\\', 'f']
    } else if c == '\r' {
        seq!['\\', 'r']
    } else if c as int <= 31 {
        seq!['\\', 'u', '0', '0', hex_digit(c as int / 16), hex_digit(c as int % 16)]
    } else {
        seq![c]
    }
}

/// The characters of a text as they are written in a JSON string.
pub open spec fn escaped(text: Seq<char>) -> Seq<char>
    decreases text.len(),
{
    if text.len() == 0 {
        Seq::empty()
    } else {
        escape(text[0]) + escaped(text.drop_first())
    }
}

/// A text as a JSON string.
pub open spec fn json_string(text: Seq<char>) -> Seq<char> {
    seq!['"'] + escaped(text) + seq!['"']
}

/// Calls `serde_json::to_string` on a text. It never fails on one, and writes it between
/// quotation marks, with the quotation mark, the backslash and the control characters
/// below the space escaped and every other character as it is.
#[verifier::external_body]
pub(crate) fn write_string(string: &str) -> (written: Result<String, String>)
    ensures
        written is Ok,
        written->Ok_0@ == json_string(string@),
{
    serde_json::to_string(string).map_err(|error| error.to_string())
}

/// No way of writing one character begins another.
proof fn lemma_escape_is_prefix_free(c: char, d: char, c_rest: Seq<char>, d_rest: Seq<char>)
    requires
        escape(c) + c_rest == escape(d) + d_rest,
    ensures
        c == d,
        c_rest == d_rest,
{
    let left = escape(c) + c_rest;
    let right = escape(d) + d_rest;
    assert(left[0] == escape(c)[0]);
    assert(right[0] == escape(d)[0]);
    if escape(c).len() > 1 && escape(d).len() > 1 {
        assert(left[1] == escape(c)[1]);
        assert(right[1] == escape(d)[1]);
        if escape(c).len() == 6 && escape(d).len() == 6 {
            assert(left[4] == escape(c)[4]);
            assert(right[4] == escape(d)[4]);
            assert(left[5] == escape(c)[5]);
            assert(right[5] == escape(d)[5]);
        }
    }
    assert(c == d);
    assert(c_rest =~= left.skip(escape(c).len() as int));
    assert(d_rest =~= right.skip(escape(d).len() as int));
}

/// No quotation mark stands alone in an escaped text.
proof fn lemma_escape_has_no_bare_quote(c: char)
    ensures
        escape(c).len() > 0,
        escape(c)[0] != '"',
{
}

/// Different texts are written as different JSON strings, and neither is the beginning
/// of the other.
pub proof fn lemma_json_string_is_prefix_free(
    left: Seq<char>,
    right: Seq<char>,
    left_rest: Seq<char>,
    right_rest: Seq<char>,
)
    requires
        json_string(left) + left_rest == json_string(right) + right_rest,
    ensures
        left == right,
        left_rest == right_rest,
{
    let a = escaped(left) + seq!['"'] + left_rest;
    let b = escaped(right) + seq!['"'] + right_rest;
    assert(a =~= (json_string(left) + left_rest).skip(1));
    assert(b =~= (json_string(right) + right_rest).skip(1));
    lemma_escaped_is_prefix_free(left, right, left_rest, right_rest);
}

proof fn lemma_escaped_is_prefix_free(
    left: Seq<char>,
    right: Seq<char>,
    left_rest: Seq<char>,
    right_rest: Seq<char>,
)
    requires
        escaped(left) + seq!['"'] + left_rest == escaped(right) + seq!['"'] + right_rest,
    ensures
        left == right,
        left_rest == right_rest,
    decreases left.len(),
{
    let a = escaped(left) + seq!['"'] + left_rest;
    let b = escaped(right) + seq!['"'] + right_rest;
    if left.len() > 0 {
        lemma_escape_has_no_bare_quote(left[0]);
        assert(a[0] == escape(left[0])[0]);
    } else {
        assert(a[0] == '"');
    }
    if right.len() > 0 {
        lemma_escape_has_no_bare_quote(right[0]);
        assert(b[0] == escape(right[0])[0]);
    } else {
        assert(b[0] == '"');
    }
    if left.len() > 0 && right.len() > 0 {
        let c_rest = escaped(left.drop_first()) + seq!['"'] + left_rest;
        let d_rest = escaped(right.drop_first()) + seq!['"'] + right_rest;
        assert(a =~= escape(left[0]) + c_rest);
        assert(b =~= escape(right[0]) + d_rest);
        lemma_escape_is_prefix_free(left[0], right[0], c_rest, d_rest);
        lemma_escaped_is_prefix_free(left.drop_first(), right.drop_first(), left_rest, right_rest);
        assert(left =~= seq![left[0]] + left.drop_first());
        assert(right =~= seq![right[0]] + right.drop_first());
    } else {
        assert(left =~= right);
        assert(left_rest =~= a.skip(1));
        assert(right_rest =~= b.skip(1));
    }
}

} // verus!
