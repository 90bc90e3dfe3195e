//! Running a single round of a conversation on another model.

use crate::json;
use crate::json::{find_member, write_string};
use crate::text;
use crate::text::{decimal_text, trim};
use serde_json::Value;
use vstd::prelude::*;

verus! {

pub const ONE_SHOT_ROUND_MODEL_ROUTE_METADATA_KEY: &'static str =
    "bitfun_one_shot_round_model_route";

pub const ONE_SHOT_ROUND_MODEL_ROUTE_MODEL_ENV: &'static str = "BITFUN_EVAL_SMALL_MODEL";

pub const ONE_SHOT_ROUND_MODEL_ROUTE_ROUND_ENV: &'static str = "BITFUN_EVAL_SMALL_MODEL_ROUND";

/// The most characters that a model id may have.
pub const MAX_MODEL_ID_CHARS: usize = 256;

/// The round that runs on another model, and that model.
#[derive(Debug, Clone, PartialEq, Eq)]
pub struct OneShotRoundModelRoute {
    pub round_number: usize,
    pub model_id: String,
}

pub struct RouteView {
    pub round_number: usize,
    pub model_id: Seq<char>,
}

impl View for OneShotRoundModelRoute {
    type V = RouteView;

    open spec fn view(&self) -> RouteView {
        RouteView { round_number: self.round_number, model_id: self.model_id@ }
    }
}

impl RouteView {
    /// Why there can be no such route, if so.
    pub open spec fn error(self) -> Option<Seq<char>> {
        if self.model_id.len() == 0 {
            Some("one-shot round model id must not be empty"@)
        } else if self.model_id.len() > MAX_MODEL_ID_CHARS {
            Some("one-shot round model id must be at most 256 characters"@)
        } else {
            None
        }
    }

    /// The route itself if it is acceptable, else the reason why not.
    pub open spec fn validated(self) -> Result<RouteView, Seq<char>> {
        match self.error() {
            Some(message) => Err(message),
            None => Ok(self),
        }
    }

    /// The route to the trimmed model id, if that is acceptable.
    pub open spec fn made(round_number: usize, model_id: Seq<char>) -> Result<
        RouteView,
        Seq<char>,
    > {
        (RouteView { round_number, model_id: text::trimmed(model_id) }).validated()
    }

    /// The model for a round, if it is the round of the route.
    pub open spec fn model_for(self, round_number: usize) -> Option<Seq<char>> {
        if self.round_number == round_number {
            Some(self.model_id)
        } else {
            None
        }
    }

    /// The route as a JSON object.
    pub open spec fn context_text(self) -> Seq<char> {
        "{\"roundNumber\":"@ + text::decimal(self.round_number as nat) + ",\"modelId\":"@
            + json::json_string(self.model_id) + "}"@
    }
}

/// A route or a message, by their views.
pub open spec fn route_view(result: Result<OneShotRoundModelRoute, String>) -> Result<
    RouteView,
    Seq<char>,
> {
    match result {
        Ok(route) => Ok(route@),
        Err(message) => Err(message@),
    }
}

/// An optional route or a message, by their views.
pub open spec fn optional_route_view(
    result: Result<Option<OneShotRoundModelRoute>, String>,
) -> Result<Option<RouteView>, Seq<char>> {
    match result {
        Ok(Some(route)) => Ok(Some(route@)),
        Ok(None) => Ok(None),
        Err(message) => Err(message@),
    }
}

/// A route that may be refused, as an optional one.
pub open spec fn present(result: Result<RouteView, Seq<char>>) -> Result<
    Option<RouteView>,
    Seq<char>,
> {
    match result {
        Ok(route) => Ok(Some(route)),
        Err(message) => Err(message),
    }
}

/// What becomes of a parsed route: it is accepted, or refused with the reason, which is
/// `context` and the parser's message if there was nothing to accept.
pub open spec fn accepted(
    context: Seq<char>,
    parsed: Result<RouteView, Seq<char>>,
) -> Result<RouteView, Seq<char>> {
    match parsed {
        Ok(route) => route.validated(),
        Err(reason) => Err(context + reason),
    }
}

/// A count or a message, by their views.
pub open spec fn count_view(parsed: Result<usize, String>) -> Result<usize, Seq<char>> {
    match parsed {
        Ok(count) => Ok(count),
        Err(message) => Err(message@),
    }
}

/// The digits of a numeral that may begin with a plus sign.
pub open spec fn digits_of(numeral: Seq<char>) -> Seq<char> {
    if numeral.len() > 0 && numeral[0] == '+' {
        numeral.drop_first()
    } else {
        numeral
    }
}

pub open spec fn is_digit(c: char) -> bool {
    '0' <= c <= '9'
}

/// The number that decimal digits stand for.
pub open spec fn digits_value(digits: Seq<char>) -> nat
    decreases digits.len(),
{
    if digits.len() == 0 {
        0
    } else {
        10 * digits_value(digits.drop_last()) + (digits.last() as int - 48) as nat
    }
}

/// A numeral for a `usize`: decimal digits, maybe behind a plus sign, for a number that
/// fits.
pub open spec fn is_count(numeral: Seq<char>) -> bool {
    let digits = digits_of(numeral);
    &&& digits.len() > 0
    &&& forall|i: int| 0 <= i < digits.len() ==> is_digit(#[trigger] digits[i])
    &&& digits_value(digits) <= usize::MAX
}

/// Why a text is no numeral for a `usize` whose largest value is given, in the words of
/// the standard library.
pub uninterp spec fn count_refusal(numeral: Seq<char>, largest: nat) -> Seq<char>;

/// What a numeral parses to.
pub open spec fn parsed_count(numeral: Seq<char>) -> Result<usize, Seq<char>> {
    if is_count(numeral) {
        Ok(digits_value(digits_of(numeral)) as usize)
    } else {
        Err(count_refusal(numeral, usize::MAX as nat))
    }
}

/// Calls `str::parse::<usize>`, which accepts decimal digits behind an optional plus
/// sign if their number fits. The message of a refusal is determined by the text and by
/// the largest number that fits.
#[verifier::external_body]
fn parse_count(numeral: &str) -> (parsed: Result<usize, String>)
    ensures
        parsed is Ok == is_count(numeral@),
        parsed is Ok ==> parsed->Ok_0 == digits_value(digits_of(numeral@)),
        parsed is Err ==> parsed->Err_0@ == count_refusal(numeral@, usize::MAX as nat),
{
    numeral.parse::<usize>().map_err(|error| error.to_string())
}

/// `context` followed by `reason`.
fn explained(context: &str, reason: &str) -> (message: String)
    ensures
        message@ == context@ + reason@,
{
    let mut message = context.to_string();
    message.append(reason);
    message
}

/// The value under the key of the route, if the metadata is an object that has one.
pub open spec fn route_entry(metadata: Option<Value>) -> Option<Value> {
    match metadata {
        Some(value) => json::member(value, ONE_SHOT_ROUND_MODEL_ROUTE_METADATA_KEY@),
        None => None,
    }
}

/// Finds the value in the metadata that describes the route.
pub fn route_metadata_value<'a>(metadata: Option<&'a Value>) -> (found: Option<&'a Value>)
    ensures
        json::referenced(found) == route_entry(json::referenced(metadata)),
{
    match metadata {
        Some(value) => find_member(value, ONE_SHOT_ROUND_MODEL_ROUTE_METADATA_KEY),
        None => None,
    }
}

/// What the two environment variables ask for, once the round number is parsed.
pub open spec fn env_route(model_id: Seq<char>, round_number: Result<usize, Seq<char>>) -> Result<
    Option<RouteView>,
    Seq<char>,
> {
    match round_number {
        Err(reason) => Err("invalid one-shot round model route round number: "@ + reason),
        Ok(round_number) => present(RouteView::made(round_number, model_id)),
    }
}

/// The complaint about one environment variable without the other.
pub open spec fn unpaired_env() -> Seq<char> {
    ONE_SHOT_ROUND_MODEL_ROUTE_MODEL_ENV@ + " and "@ + ONE_SHOT_ROUND_MODEL_ROUTE_ROUND_ENV@
        + " must be provided together"@
}

impl OneShotRoundModelRoute {
    /// A route to the model with the trimmed id.
    pub fn new(round_number: usize, model_id: &str) -> (result: Result<Self, String>)
        ensures
            route_view(result) == RouteView::made(round_number, model_id@),
    {
        let route = Self { round_number, model_id: trim(model_id).to_string() };
        route.validate()?;
        Ok(route)
    }

    /// Accepts a route whose model id is neither empty nor too long.
    pub fn validate(&self) -> (result: Result<(), String>)
        ensures
            result is Ok <==> self@.error() is None,
            result matches Err(message) ==> self@.error() == Some(message@),
    {
        let count = self.model_id.as_str().unicode_len();
        if count == 0 {
            return Err("one-shot round model id must not be empty".to_string());
        }
        if count > MAX_MODEL_ID_CHARS {
            return Err("one-shot round model id must be at most 256 characters".to_string());
        }
        Ok(())
    }

    /// The model for a round, if it is the round of the route.
    pub fn model_id_for_round(&self, round_number: usize) -> (model_id: Option<&str>)
        ensures
            model_id is Some <==> self@.model_for(round_number) is Some,
            model_id matches Some(id) ==> self@.model_for(round_number) == Some(id@),
    {
        if self.round_number == round_number {
            Some(self.model_id.as_str())
        } else {
            None
        }
    }

    /// The route that the metadata asks for, given what the value that describes it
    /// parsed to. There is nothing to parse where there is no such value.
    pub fn from_metadata(parsed: Option<Result<Self, String>>) -> (result: Result<
        Option<Self>,
        String,
    >)
        ensures
            optional_route_view(result) == match parsed {
                None => Ok(None),
                Some(parsed) => present(
                    accepted("invalid one-shot round model route: "@, route_view(parsed)),
                ),
            },
    {
        match parsed {
            None => Ok(None),
            Some(Err(reason)) => Err(
                explained("invalid one-shot round model route: ", reason.as_str()),
            ),
            Some(Ok(route)) => {
                route.validate()?;
                Ok(Some(route))
            },
        }
    }

    /// The route that the environment asks for. Both variables must be set, or neither.
    pub fn from_env_values(
        model_id: Option<&str>,
        round_number: Option<&str>,
    ) -> (result: Result<Option<Self>, String>)
        ensures
            optional_route_view(result) == match (model_id, round_number) {
                (Some(model_id), Some(round_number)) => env_route(
                    model_id@,
                    parsed_count(text::trimmed(round_number@)),
                ),
                (None, None) => Ok(None),
                _ => Err(unpaired_env()),
            },
    {
        match (model_id, round_number) {
            (Some(model_id), Some(round_number)) => {
                Self::from_parsed_env_values(model_id, parse_count(trim(round_number)))
            },
            (None, None) => Ok(None),
            _ => {
                let mut message = ONE_SHOT_ROUND_MODEL_ROUTE_MODEL_ENV.to_string();
                message.append(" and ");
                message.append(ONE_SHOT_ROUND_MODEL_ROUTE_ROUND_ENV);
                message.append(" must be provided together");
                Err(message)
            },
        }
    }

    /// The route that the environment asks for, given what the round number parsed to.
    pub fn from_parsed_env_values(
        model_id: &str,
        round_number: Result<usize, String>,
    ) -> (result: Result<Option<Self>, String>)
        ensures
            optional_route_view(result) == env_route(model_id@, count_view(round_number)),
    {
        match round_number {
            Err(reason) => Err(
                explained(
                    "invalid one-shot round model route round number: ",
                    reason.as_str(),
                ),
            ),
            Ok(round_number) => {
                let route = Self::new(round_number, model_id)?;
                Ok(Some(route))
            },
        }
    }

    /// The route as a JSON object.
    pub fn to_context_value(&self) -> (result: Result<String, String>)
        ensures
            result is Ok,
            result->Ok_0@ == self@.context_text(),
    {
        let model_id = match write_string(self.model_id.as_str()) {
            Ok(model_id) => model_id,
            Err(reason) => {
                return Err(
                    explained(
                        "failed to serialize one-shot round model route: ",
                        reason.as_str(),
                    ),
                );
            },
        };
        let mut encoded = "{\"roundNumber\":".to_string();
        let round_number = decimal_text(self.round_number as u64);
        encoded.append(round_number.as_str());
        encoded.append(",\"modelId\":");
        encoded.append(model_id.as_str());
        encoded.append("}");
        Ok(encoded)
    }

    /// Accepts the route that a context value parsed to.
    pub fn from_context_value(parsed: Result<Self, String>) -> (result: Result<Self, String>)
        ensures
            route_view(result) == accepted(
                "invalid one-shot round model route context: "@,
                route_view(parsed),
            ),
    {
        match parsed {
            Err(reason) => Err(
                explained("invalid one-shot round model route context: ", reason.as_str()),
            ),
            Ok(route) => {
                route.validate()?;
                Ok(route)
            },
        }
    }
}

/// A route that was made is acceptable, its model id is trimmed, and making it again
/// changes nothing.
pub proof fn lemma_made_route_is_stable(round_number: usize, model_id: Seq<char>)
    requires
        RouteView::made(round_number, model_id) is Ok,
    ensures
        ({
            let route = RouteView::made(round_number, model_id)->Ok_0;
            &&& route.error() is None
            &&& route.round_number == round_number
            &&& route.model_id == text::trimmed(model_id)
            &&& RouteView::made(route.round_number, route.model_id) == Ok::<RouteView, Seq<char>>(
                route,
            )
        }),
{
    text::lemma_trimmed_is_stable(model_id);
}

/// A route is made exactly if the model id is not blank and, trimmed, not too long.
pub proof fn lemma_route_is_made_for_acceptable_ids(round_number: usize, model_id: Seq<char>)
    ensures
        RouteView::made(round_number, model_id) is Ok <==> !text::is_blank(model_id)
            && text::trimmed(model_id).len() <= MAX_MODEL_ID_CHARS,
{
    text::lemma_trimmed_empty_iff_blank(model_id);
}

/// A route selects its model for its own round and for no other.
pub proof fn lemma_only_the_configured_round(route: RouteView, round_number: usize)
    ensures
        route.model_for(round_number) is Some <==> round_number == route.round_number,
        route.model_for(route.round_number) == Some(route.model_id),
{
}

/// Whatever comes out of the environment, the metadata or a context value is acceptable.
pub proof fn lemma_only_acceptable_routes_come_out(
    context: Seq<char>,
    parsed: Result<RouteView, Seq<char>>,
    model_id: Seq<char>,
    round_number: Result<usize, Seq<char>>,
)
    ensures
        accepted(context, parsed) matches Ok(route) ==> route.error() is None,
        present(accepted(context, parsed)) matches Ok(Some(route)) ==> route.error() is None,
        env_route(model_id, round_number) matches Ok(Some(route)) ==> route.error() is None,
        !(env_route(model_id, round_number) matches Ok(None)),
{
}

proof fn lemma_decimal_is_digits(value: nat)
    ensures
        text::decimal(value).len() > 0,
        forall|i: int|
            0 <= i < text::decimal(value).len() ==> is_digit(#[trigger] text::decimal(value)[i]),
        digits_value(text::decimal(value)) == value,
    decreases value,
{
    if value >= 10 {
        lemma_decimal_is_digits(value / 10);
        assert(text::decimal(value).drop_last() =~= text::decimal(value / 10));
    } else {
        assert(text::decimal(value).drop_last() =~= Seq::empty());
        assert(digits_value(Seq::empty()) == 0);
    }
}

/// A round number that is written in decimal is read back from the environment as it is.
pub proof fn lemma_decimal_round_number_is_read_back(round_number: usize)
    ensures
        parsed_count(text::decimal(round_number as nat)) == Ok::<usize, Seq<char>>(round_number),
{
    lemma_decimal_is_digits(round_number as nat);
    let numeral = text::decimal(round_number as nat);
    assert(is_digit(numeral[0]));
}

/// Different routes are written as different context values.
pub proof fn lemma_context_text_is_injective(left: RouteView, right: RouteView)
    requires
        left.context_text() == right.context_text(),
    ensures
        left == right,
{
    reveal_strlit("{\"roundNumber\":");
    reveal_strlit(",\"modelId\":");
    reveal_strlit("}");
    let a = text::decimal(left.round_number as nat);
    let b = text::decimal(right.round_number as nat);
    lemma_decimal_is_digits(left.round_number as nat);
    lemma_decimal_is_digits(right.round_number as nat);
    let head = "{\"roundNumber\":"@;
    let a_rest = ",\"modelId\":"@ + json::json_string(left.model_id) + "}"@;
    let b_rest = ",\"modelId\":"@ + json::json_string(right.model_id) + "}"@;
    let whole = left.context_text();
    assert(whole.skip(head.len() as int) =~= a + a_rest);
    assert(right.context_text().skip(head.len() as int) =~= b + b_rest);
    let tail = a + a_rest;
    assert(a_rest[0] == ',');
    assert(b_rest[0] == ',');
    assert(a.len() == b.len()) by {
        if a.len() < b.len() {
            assert(tail[a.len() as int] == ',');
            assert(is_digit(b[a.len() as int]));
        }
        if b.len() < a.len() {
            assert((b + b_rest)[b.len() as int] == ',');
            assert(is_digit(a[b.len() as int]));
        }
    }
    assert(a =~= tail.take(a.len() as int));
    assert(b =~= tail.take(b.len() as int));
    assert(a_rest =~= tail.skip(a.len() as int));
    assert(b_rest =~= tail.skip(b.len() as int));
    let middle = ",\"modelId\":"@.len() as int;
    assert(a_rest.skip(middle) =~= json::json_string(left.model_id) + "}"@);
    assert(b_rest.skip(middle) =~= json::json_string(right.model_id) + "}"@);
    json::lemma_json_string_is_prefix_free(left.model_id, right.model_id, "}"@, "}"@);
}

/// A context value gives its route back through any parser that reads what is written: an
/// acceptable route as it is, any other with the reason why it is not acceptable. Such
/// parsers exist, since no context value is written for two routes.
pub proof fn lemma_context_value_gives_the_route_back(
    route: RouteView,
    context: Seq<char>,
    parse: spec_fn(Seq<char>) -> Result<RouteView, Seq<char>>,
)
    requires
        parse(route.context_text()) == Ok::<RouteView, Seq<char>>(route),
    ensures
        accepted(context, parse(route.context_text())) == route.validated(),
        route.error() is None ==> accepted(context, parse(route.context_text())) == Ok::<
            RouteView,
            Seq<char>,
        >(route),
        route.error() matches Some(message) ==> accepted(context, parse(route.context_text()))
            == Err::<RouteView, Seq<char>>(message),
        exists|reader: spec_fn(Seq<char>) -> Result<RouteView, Seq<char>>|
            is_context_reader(reader),
{
    let reader = |text: Seq<char>|
        if exists|route: RouteView| #[trigger] route.context_text() == text {
            Ok::<RouteView, Seq<char>>(choose|route: RouteView| #[trigger] route.context_text() == text)
        } else {
            Err::<RouteView, Seq<char>>(Seq::empty())
        };
    assert forall|route: RouteView| reader(#[trigger] route.context_text()) == Ok::<
        RouteView,
        Seq<char>,
    >(route) by {
        let text = route.context_text();
        let chosen = choose|other: RouteView| #[trigger] other.context_text() == text;
        assert(chosen.context_text() == text);
        lemma_context_text_is_injective(chosen, route);
    }
    assert(is_context_reader(reader));
}

/// The parser reads every route back from the context value that is written for it.
pub open spec fn is_context_reader(
    parse: spec_fn(Seq<char>) -> Result<RouteView, Seq<char>>,
) -> bool {
    forall|route: RouteView|
        parse(#[trigger] route.context_text()) == Ok::<RouteView, Seq<char>>(route)
}

} // verus!
