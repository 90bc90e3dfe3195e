//! Promises about routing one round to another model.

use crate::json;
use crate::round_model_route;
use crate::round_model_route::{OneShotRoundModelRoute, RouteView};
use crate::text;
use serde_json::Value;
use vstd::prelude::*;

verus! {

/// A route is its round and its whole model id.
pub proof fn lemma_routes_keep_everything(route: OneShotRoundModelRoute, message: String)
    ensures
        route@.round_number == route.round_number,
        route@.model_id == route.model_id@,
        round_model_route::route_view(Ok(route)) == Ok::<RouteView, Seq<char>>(route@),
        round_model_route::route_view(Err(message)) == Err::<RouteView, Seq<char>>(message@),
        round_model_route::optional_route_view(Ok(Some(route))) == Ok::<
            Option<RouteView>,
            Seq<char>,
        >(Some(route@)),
        round_model_route::optional_route_view(Ok(None)) == Ok::<Option<RouteView>, Seq<char>>(
            None,
        ),
        round_model_route::optional_route_view(Err(message)) == Err::<
            Option<RouteView>,
            Seq<char>,
        >(message@),
        round_model_route::count_view(Err(message)) == Err::<usize, Seq<char>>(message@),
        round_model_route::count_view(Ok(route.round_number)) == Ok::<usize, Seq<char>>(
            route.round_number,
        ),
        round_model_route::present(Ok(route@)) == Ok::<Option<RouteView>, Seq<char>>(Some(route@)),
        round_model_route::present(Err(message@)) == Err::<Option<RouteView>, Seq<char>>(message@),
{
}

/// A route is acceptable exactly if its model id has between one and two hundred and
/// fifty-six characters; its round does not matter.
pub proof fn lemma_route_is_acceptable_exactly_if(route: RouteView)
    ensures
        route.error() is None <==> 1 <= route.model_id.len() <= 256,
        route.model_id.len() == 0 ==> route.error() == Some(
            "one-shot round model id must not be empty"@,
        ),
        route.model_id.len() > 256 ==> route.error() == Some(
            "one-shot round model id must be at most 256 characters"@,
        ),
        route.error() is None ==> route.validated() == Ok::<RouteView, Seq<char>>(route),
        route.error() matches Some(message) ==> route.validated() == Err::<RouteView, Seq<char>>(
            message,
        ),
{
}

/// A route is made for the given round and the model id without the white space around
/// it.
pub proof fn lemma_route_is_made_of_its_parts(
    round_number: usize,
    before: Seq<char>,
    model_id: Seq<char>,
    after: Seq<char>,
)
    requires
        forall|i: int| 0 <= i < before.len() ==> text::is_white_space(#[trigger] before[i]),
        forall|i: int| 0 <= i < after.len() ==> text::is_white_space(#[trigger] after[i]),
        model_id.len() > 0 ==> !text::is_white_space(model_id[0]) && !text::is_white_space(
            model_id[model_id.len() - 1],
        ),
    ensures
        RouteView::made(round_number, before + model_id + after) == (RouteView {
            round_number,
            model_id,
        }).validated(),
{
    crate::laws::texts::lemma_trimming_takes_the_padding(before, model_id, after);
}

/// The model of a route is chosen for its round alone.
pub proof fn lemma_model_is_chosen_for_one_round(route: RouteView, round_number: usize)
    ensures
        round_number == route.round_number ==> route.model_for(round_number) == Some(
            route.model_id,
        ),
        round_number != route.round_number ==> route.model_for(round_number) is None,
{
}

/// A route is written as a JSON object of its round and its model id.
pub proof fn lemma_context_value_is_an_object(route: RouteView)
    ensures
        route.context_text() == "{\"roundNumber\":"@ + text::decimal(route.round_number as nat)
            + ",\"modelId\":"@ + (seq!['"'] + json::escaped(route.model_id) + seq!['"']) + "}"@,
{
}

/// In a JSON string each character is written on its own: as it is, but for the
/// quotation mark, the backslash and the control characters.
pub proof fn lemma_characters_are_escaped_one_by_one(value: Seq<char>, c: char)
    ensures
        json::escaped(seq![c] + value) == json::escape(c) + json::escaped(value),
        json::escaped(Seq::<char>::empty()) == Seq::<char>::empty(),
        c != '"' && c != '\\' && c as int >= 32 ==> json::escape(c) == seq![c],
        json::escape('"') == seq!['\\', '"'],
        json::escape('\\') == seq!['\\', '\\'],
        json::escape('\n') == seq!['\\', 'n'],
        json::escape('\r') == seq!['\\', 'r'],
        json::escape('\t') == seq!['\\', 't'],
        json::escape('\u{8}') == seq!['\\', 'b'],
        json::escape('\u{c}') == seq!['\\', 'f'],
        c as int <= 31 && c != '\n' && c != '\r' && c != '\t' && c != '\u{8}' && c != '\u{c}'
            ==> json::escape(c) == "\\u00"@.push("0123456789abcdef"@[c as int / 16]).push(
            "0123456789abcdef"@[c as int % 16],
        ),
{
    reveal_strlit("\\u00");
    reveal_strlit("0123456789abcdef");
    if c as int <= 31 && c != '\n' && c != '\r' && c != '\t' && c != '\u{8}' && c != '\u{c}' {
        assert(json::escape(c) =~= "\\u00"@.push("0123456789abcdef"@[c as int / 16]).push(
            "0123456789abcdef"@[c as int % 16],
        ));
    }
    assert((seq![c] + value).drop_first() =~= value);
}

/// The digits stand for ten times the number of those before the last, and the last.
pub proof fn lemma_numerals_are_decimal(digits: Seq<char>, last: int)
    requires
        0 <= last < 10,
    ensures
        round_model_route::digits_value(Seq::<char>::empty()) == 0,
        round_model_route::digits_value(digits.push("0123456789"@[last])) == 10
            * round_model_route::digits_value(digits) + last,
        round_model_route::is_digit("0123456789"@[last]),
{
    reveal_strlit("0123456789");
    assert(digits.push("0123456789"@[last]).drop_last() =~= digits);
}

/// A round number is read exactly if it is digits, maybe behind one plus sign, for a
/// number that fits; nothing else is.
pub proof fn lemma_numeral_is_read_exactly_if(digits: Seq<char>)
    requires
        digits.len() > 0,
        digits[0] != '+',
    ensures
        ({
            let readable = (forall|i: int|
                0 <= i < digits.len() ==> '0' <= (#[trigger] digits[i]) <= '9')
                && round_model_route::digits_value(digits) <= usize::MAX;
            &&& round_model_route::parsed_count(digits) is Ok <==> readable
            &&& round_model_route::parsed_count(seq!['+'] + digits) is Ok <==> readable
            &&& readable ==> round_model_route::parsed_count(digits)->Ok_0
                == round_model_route::digits_value(digits)
            &&& readable ==> round_model_route::parsed_count(seq!['+'] + digits)->Ok_0
                == round_model_route::digits_value(digits)
        }),
        round_model_route::parsed_count(digits) matches Err(reason) ==> reason
            == round_model_route::count_refusal(digits, usize::MAX as nat),
        round_model_route::parsed_count(Seq::<char>::empty()) is Err,
        round_model_route::parsed_count(seq!['+']) is Err,
        round_model_route::parsed_count(seq!['+', '+'] + digits) is Err,
{
    let plus = seq!['+'] + digits;
    assert(plus.drop_first() =~= digits);
    assert(seq!['+'].drop_first() =~= Seq::<char>::empty());
    let twice = seq!['+', '+'] + digits;
    assert(twice.drop_first()[0] == '+');
    assert(!round_model_route::is_digit('+'));
    assert(!round_model_route::is_digit(round_model_route::digits_of(twice)[0]));
    if forall|i: int| 0 <= i < digits.len() ==> '0' <= (#[trigger] digits[i]) <= '9' {
        assert forall|i: int| 0 <= i < digits.len() implies round_model_route::is_digit(
            #[trigger] digits[i],
        ) by {
            assert('0' <= digits[i] <= '9');
        }
    }
    if round_model_route::is_count(digits) {
        assert forall|i: int| 0 <= i < digits.len() implies '0' <= (#[trigger] digits[i])
            <= '9' by {
            assert(round_model_route::is_digit(digits[i]));
        }
    }
}

/// The environment gives a route for a round number that was read, and tells what was
/// wrong with one that was not.
pub proof fn lemma_environment_gives_a_route(
    model_id: Seq<char>,
    round_number: usize,
    reason: Seq<char>,
)
    ensures
        RouteView::made(round_number, model_id) matches Ok(route) ==> round_model_route::env_route(
            model_id,
            Ok(round_number),
        ) == Ok::<Option<RouteView>, Seq<char>>(Some(route)),
        RouteView::made(round_number, model_id) matches Err(message)
            ==> round_model_route::env_route(model_id, Ok(round_number)) == Err::<
            Option<RouteView>,
            Seq<char>,
        >(message),
        round_model_route::env_route(model_id, Err(reason)) == Err::<Option<RouteView>, Seq<char>>(
            "invalid one-shot round model route round number: "@ + reason,
        ),
        round_model_route::unpaired_env() == "BITFUN_EVAL_SMALL_MODEL"@ + " and "@
            + "BITFUN_EVAL_SMALL_MODEL_ROUND"@ + " must be provided together"@,
{
}

/// What was parsed is taken as it is if it is acceptable, and a parser's complaint is
/// passed on behind its context.
pub proof fn lemma_parsed_routes_are_taken_as_they_are(
    context: Seq<char>,
    route: RouteView,
    reason: Seq<char>,
)
    ensures
        1 <= route.model_id.len() <= 256 ==> round_model_route::accepted(context, Ok(route)) == Ok::<
            RouteView,
            Seq<char>,
        >(route),
        !(1 <= route.model_id.len() <= 256) ==> round_model_route::accepted(context, Ok(route))
            is Err,
        round_model_route::accepted(context, Err(reason)) == Err::<RouteView, Seq<char>>(
            context + reason,
        ),
{
}

/// The metadata describes a route under its own key and nowhere else.
pub proof fn lemma_metadata_describes_a_route_under_its_key(value: Value)
    ensures
        round_model_route::route_entry(None) is None,
        json::object_members(value) is None ==> round_model_route::route_entry(Some(value))
            is None,
        json::object_members(value) matches Some(members) ==> {
            let key = "bitfun_one_shot_round_model_route"@;
            &&& members.contains_key(key) ==> round_model_route::route_entry(Some(value)) == Some(
                members[key],
            )
            &&& !members.contains_key(key) ==> round_model_route::route_entry(Some(value)) is None
        },
        json::referenced(Some(&value)) == Some(value),
        json::referenced(None) is None,
{
}

} // verus!
