use agent_runtime::round_model_route::{
    route_metadata_value, OneShotRoundModelRoute, MAX_MODEL_ID_CHARS,
    ONE_SHOT_ROUND_MODEL_ROUTE_METADATA_KEY, ONE_SHOT_ROUND_MODEL_ROUTE_MODEL_ENV,
    ONE_SHOT_ROUND_MODEL_ROUTE_ROUND_ENV,
};
use serde_json::Value;

fn parse_route(value: &Value) -> Result<OneShotRoundModelRoute, String> {
    let round_number = value
        .get("roundNumber")
        .and_then(Value::as_u64)
        .ok_or_else(|| "missing field `roundNumber`".to_string())?;
    let model_id = value
        .get("modelId")
        .and_then(Value::as_str)
        .ok_or_else(|| "missing field `modelId`".to_string())?;
    Ok(OneShotRoundModelRoute {
        round_number: round_number as usize,
        model_id: model_id.to_string(),
    })
}

fn parse_context(text: &str) -> Result<OneShotRoundModelRoute, String> {
    let value: Value = serde_json::from_str(text).map_err(|error| error.to_string())?;
    parse_route(&value)
}

fn metadata_with(key: &str, entry: Value) -> Value {
    let mut object = serde_json::Map::new();
    object.insert(key.to_string(), entry);
    Value::Object(object)
}

#[test]
fn selects_only_the_configured_round() {
    let route = OneShotRoundModelRoute::new(3, "small-model").expect("valid route");

    assert_eq!(route.model_id_for_round(2), None);
    assert_eq!(route.model_id_for_round(3), Some("small-model"));
    assert_eq!(route.model_id_for_round(4), None);
}

#[test]
fn metadata_and_context_round_trip() {
    let mut entry = serde_json::Map::new();
    entry.insert("roundNumber".to_string(), Value::from(7u64));
    entry.insert("modelId".to_string(), Value::from("small-model"));
    let metadata = metadata_with(ONE_SHOT_ROUND_MODEL_ROUTE_METADATA_KEY, Value::Object(entry));

    let parsed = route_metadata_value(Some(&metadata)).map(parse_route);
    let route = OneShotRoundModelRoute::from_metadata(parsed)
        .expect("valid metadata")
        .expect("route present");
    let encoded = route.to_context_value().expect("encode context");

    assert_eq!(
        OneShotRoundModelRoute::from_context_value(parse_context(&encoded))
            .expect("decode context"),
        route
    );
}

#[test]
fn rejects_empty_model_id() {
    let error = OneShotRoundModelRoute::new(0, "   ").expect_err("empty model id");
    assert!(error.contains("must not be empty"), "{error}");
}

#[test]
fn parses_environment_values() {
    let route = OneShotRoundModelRoute::from_env_values(Some("small-model"), Some("5"))
        .expect("valid environment values")
        .expect("route present");

    assert_eq!(route.round_number, 5);
    assert_eq!(route.model_id, "small-model");
}

#[test]
fn rejects_partial_environment_values() {
    let error = OneShotRoundModelRoute::from_env_values(Some("small-model"), None)
        .expect_err("partial environment values");

    assert!(error.contains(ONE_SHOT_ROUND_MODEL_ROUTE_ROUND_ENV));
}

#[test]
fn either_environment_variable_alone_is_refused() {
    let expected = format!(
        "{} and {} must be provided together",
        ONE_SHOT_ROUND_MODEL_ROUTE_MODEL_ENV, ONE_SHOT_ROUND_MODEL_ROUTE_ROUND_ENV
    );
    assert_eq!(
        OneShotRoundModelRoute::from_env_values(Some("small-model"), None),
        Err(expected.clone())
    );
    assert_eq!(OneShotRoundModelRoute::from_env_values(None, Some("5")), Err(expected));
    assert_eq!(OneShotRoundModelRoute::from_env_values(None, None), Ok(None));
}

#[test]
fn round_numbers_are_read_as_the_standard_library_reads_them() {
    let numerals = [
        "0", "5", "+7", "  12 ", "007", "18446744073709551615", "18446744073709551616", "", "+",
        "-1", "1x", "\u{661}", "++1", "1_000", " ",
    ];
    for numeral in numerals {
        let expected = match numeral.trim().parse::<usize>() {
            Ok(round_number) => Ok(Some(OneShotRoundModelRoute {
                round_number,
                model_id: "m".to_string(),
            })),
            Err(error) => Err(format!(
                "invalid one-shot round model route round number: {error}"
            )),
        };
        assert_eq!(
            OneShotRoundModelRoute::from_env_values(Some(" m "), Some(numeral)),
            expected
        );
    }
}

#[test]
fn parsed_environment_values_decide_the_route() {
    assert_eq!(
        OneShotRoundModelRoute::from_parsed_env_values("m", Err("no digits".to_string())),
        Err("invalid one-shot round model route round number: no digits".to_string())
    );
    assert_eq!(
        OneShotRoundModelRoute::from_parsed_env_values(" m\n", Ok(9)),
        Ok(Some(OneShotRoundModelRoute { round_number: 9, model_id: "m".to_string() }))
    );
    assert_eq!(
        OneShotRoundModelRoute::from_parsed_env_values("\t", Ok(9)),
        Err("one-shot round model id must not be empty".to_string())
    );
}

#[test]
fn model_ids_are_trimmed_and_limited_in_characters() {
    let longest = "\u{e9}".repeat(MAX_MODEL_ID_CHARS);
    let padded = format!("  {longest}\u{3000}");
    let route = OneShotRoundModelRoute::new(1, &padded).expect("longest model id");
    assert_eq!(route.model_id, longest);
    assert_eq!(OneShotRoundModelRoute::new(1, &route.model_id), Ok(route));

    let too_long = "x".repeat(MAX_MODEL_ID_CHARS + 1);
    assert_eq!(
        OneShotRoundModelRoute::new(1, &too_long),
        Err("one-shot round model id must be at most 256 characters".to_string())
    );
}

#[test]
fn metadata_without_a_route_is_no_error() {
    assert!(route_metadata_value(None).is_none());
    assert!(route_metadata_value(Some(&Value::Null)).is_none());
    assert!(route_metadata_value(Some(&Value::from("text"))).is_none());
    let other = metadata_with("another_key", Value::Null);
    assert!(route_metadata_value(Some(&other)).is_none());
    assert_eq!(OneShotRoundModelRoute::from_metadata(None), Ok(None));
}

#[test]
fn metadata_lookup_finds_the_entry_itself() {
    let metadata = metadata_with(ONE_SHOT_ROUND_MODEL_ROUTE_METADATA_KEY, Value::from(3u64));
    assert_eq!(route_metadata_value(Some(&metadata)), Some(&Value::from(3u64)));
}

#[test]
fn unparsable_routes_are_reported_with_their_source() {
    assert_eq!(
        OneShotRoundModelRoute::from_metadata(Some(Err("bad".to_string()))),
        Err("invalid one-shot round model route: bad".to_string())
    );
    assert_eq!(
        OneShotRoundModelRoute::from_context_value(Err("bad".to_string())),
        Err("invalid one-shot round model route context: bad".to_string())
    );
}

#[test]
fn unacceptable_routes_are_refused_from_every_source() {
    let empty = || OneShotRoundModelRoute { round_number: 1, model_id: String::new() };
    let message = "one-shot round model id must not be empty".to_string();
    assert_eq!(empty().validate(), Err(message.clone()));
    assert_eq!(
        OneShotRoundModelRoute::from_metadata(Some(Ok(empty()))),
        Err(message.clone())
    );
    assert_eq!(OneShotRoundModelRoute::from_context_value(Ok(empty())), Err(message));
}

#[test]
fn blank_but_not_empty_ids_pass_where_nothing_is_trimmed() {
    let route = OneShotRoundModelRoute { round_number: 1, model_id: "  ".to_string() };
    assert_eq!(route.validate(), Ok(()));
    assert_eq!(OneShotRoundModelRoute::from_context_value(Ok(route.clone())), Ok(route));
}

#[test]
fn context_values_have_this_exact_form() {
    let route = OneShotRoundModelRoute { round_number: 42, model_id: "a\"b\\c\u{1}\n".to_string() };
    assert_eq!(
        route.to_context_value(),
        Ok("{\"roundNumber\":42,\"modelId\":\"a\\\"b\\\\c\\u0001\\n\"}".to_string())
    );
}

#[test]
fn context_values_read_back_for_every_kind_of_character() {
    let mut all_ascii = String::new();
    for byte in 0u8..128 {
        all_ascii.push(byte as char);
    }
    for model_id in [all_ascii.as_str(), "\u{7f}\u{80}\u{2028}\u{10ffff}", "plain", "/"] {
        for round_number in [0, 9, 10, 99, 100, usize::MAX] {
            let route = OneShotRoundModelRoute { round_number, model_id: model_id.to_string() };
            let text = route.to_context_value().expect("encode context");
            assert_eq!(parse_context(&text), Ok(route));
        }
    }
}

#[test]
fn different_routes_have_different_context_values() {
    let routes = [
        OneShotRoundModelRoute { round_number: 1, model_id: "1".to_string() },
        OneShotRoundModelRoute { round_number: 11, model_id: String::new() },
        OneShotRoundModelRoute { round_number: 1, model_id: "\\n".to_string() },
        OneShotRoundModelRoute { round_number: 1, model_id: "\n".to_string() },
        OneShotRoundModelRoute { round_number: 1, model_id: "\"".to_string() },
    ];
    for (i, left) in routes.iter().enumerate() {
        for (j, right) in routes.iter().enumerate() {
            assert_eq!(left.to_context_value() == right.to_context_value(), i == j);
        }
    }
}
