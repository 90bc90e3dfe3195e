use agent_runtime::ordering::{is_text_le, sort_by_key};
use agent_runtime::round_model_route::OneShotRoundModelRoute;
use agent_runtime::round_replay::{checkpoint_recording_enabled, RoundSessionArtifact};
use agent_runtime::text::{
    decimal_text, replace_char, same_text, signed_decimal_text, starts_with, to_chars,
};

#[test]
fn trimming_agrees_with_the_standard_library_on_every_character() {
    for code in 0u32..=0x10ffff {
        if let Some(c) = char::from_u32(code) {
            if c.is_whitespace() || code % 64 == 0 || code < 0x3100 {
                let padded = format!("{c}m{c}");
                let route = OneShotRoundModelRoute::new(0, &padded).expect("one-letter model id");
                assert_eq!(route.model_id, padded.trim());
            }
        }
    }
}

#[test]
fn recording_is_enabled_by_affirmative_settings_alone() {
    for setting in ["1", "true", "TRUE", "yes", "YES", " 1 ", "\tyes\n"] {
        assert!(checkpoint_recording_enabled(Some(setting)));
    }
    for setting in ["", "0", "True", "Yes", "on", "11", "tru e"] {
        assert!(!checkpoint_recording_enabled(Some(setting)));
    }
    assert!(!checkpoint_recording_enabled(None));
}

#[test]
fn numbers_are_written_in_decimal() {
    for value in [0u64, 7, 10, 67108864, u64::MAX] {
        assert_eq!(decimal_text(value), value.to_string());
    }
    for value in [0i32, -1, 128, i32::MIN, i32::MAX] {
        assert_eq!(signed_decimal_text(value), value.to_string());
    }
}

#[test]
fn text_helpers_work_on_characters() {
    assert_eq!(to_chars("a\u{e9}"), vec!['a', '\u{e9}']);
    assert!(same_text("a\u{e9}", "a\u{e9}"));
    assert!(!same_text("a", "ab"));
    assert!(starts_with("tool-results/x", "tool-results/"));
    assert!(!starts_with("tool", "tool-results/"));
    assert_eq!(replace_char("a\\b\\", '\\', '/'), "a/b/");
}

#[test]
fn texts_are_ordered_as_the_standard_library_orders_them() {
    let texts = ["", "a", "ab", "b", "a/b", "a.b", "\u{e9}", "z", "\u{10000}", "\u{ffff}", "A"];
    for left in texts {
        for right in texts {
            assert_eq!(is_text_le(left, right), left <= right);
        }
    }
    let mut expected: Vec<String> = texts.iter().map(|text| text.to_string()).collect();
    let sorted = sort_by_key(expected.clone());
    expected.sort();
    assert_eq!(sorted, expected);
}

#[test]
fn sorting_agrees_with_the_stable_sort_of_the_standard_library() {
    let mut items = Vec::new();
    let mut seed: u32 = 7;
    for position in 0..3000 {
        seed = seed.wrapping_mul(1_103_515_245).wrapping_add(12_345);
        items.push(RoundSessionArtifact {
            relative_path: format!("p{}", (seed >> 16) % 500),
            contents_base64: position.to_string(),
        });
    }
    let sorted = sort_by_key(items.clone());
    items.sort_by(|left, right| left.relative_path.cmp(&right.relative_path));
    assert_eq!(sorted, items);
}
