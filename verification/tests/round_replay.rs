use agent_runtime::error::BitFunError;
use agent_runtime::message::{Message, MessageContent, MessageRole, ToolCall};
use agent_runtime::round_replay::{
    checkpoint_size_error, normalize_routed_model_history, validate_commit,
    validate_relative_path, validate_session_artifact_path, CheckpointRead, PathStyle,
    RoundReplayCheckpoint, RoundSessionArtifact, RoundWorkspaceFile, RoundWorkspaceSnapshot,
    ROUND_REPLAY_CHECKPOINT_VERSION,
};
use serde_json::Value;

fn checkpoint(messages: Vec<Message>) -> RoundReplayCheckpoint {
    RoundReplayCheckpoint {
        version: ROUND_REPLAY_CHECKPOINT_VERSION,
        source_session_id: "session".to_string(),
        source_turn_id: "turn".to_string(),
        source_turn_index: 0,
        round_index: 2,
        artifact_session_id: None,
        agent_type: "agentic".to_string(),
        original_user_input: "task".to_string(),
        primary_model_id: "large".to_string(),
        session_max_context_tokens: Some(128_128),
        messages,
        workspace: RoundWorkspaceSnapshot {
            baseline_commit: "0123456789abcdef".to_string(),
            tracked_patch: String::new(),
            untracked_files: Vec::new(),
        },
        session_artifacts: Vec::new(),
    }
}

fn valid_checkpoint() -> RoundReplayCheckpoint {
    checkpoint(vec![Message::user("task".to_string())])
}

fn invalid(message: &str) -> Result<(), BitFunError> {
    Err(BitFunError::Validation(message.to_string()))
}

#[test]
fn checkpoint_paths_reject_escape_components() {
    assert!(validate_relative_path("src/lib.rs").is_ok());
    assert!(validate_relative_path("../secret").is_err());
    assert!(validate_relative_path("/tmp/secret").is_err());
}

#[test]
fn checkpoint_validation_rejects_empty_messages() {
    let checkpoint = RoundReplayCheckpoint {
        version: ROUND_REPLAY_CHECKPOINT_VERSION,
        source_session_id: "session".to_string(),
        source_turn_id: "turn".to_string(),
        source_turn_index: 0,
        round_index: 2,
        artifact_session_id: None,
        agent_type: "agentic".to_string(),
        original_user_input: "task".to_string(),
        primary_model_id: "large".to_string(),
        session_max_context_tokens: Some(128_128),
        messages: Vec::new(),
        workspace: RoundWorkspaceSnapshot {
            baseline_commit: "0123456789abcdef".to_string(),
            tracked_patch: String::new(),
            untracked_files: Vec::new(),
        },
        session_artifacts: Vec::new(),
    };
    assert!(checkpoint.validate().is_err());
}

fn text_field(value: &Value, name: &str) -> String {
    value.get(name).and_then(Value::as_str).expect("text field").to_string()
}

fn count_field(value: &Value, name: &str) -> usize {
    value.get(name).and_then(Value::as_u64).expect("number field") as usize
}

#[test]
fn version_one_checkpoint_remains_readable() {
    let json = "{\"version\": 1, \"sourceSessionId\": \"session\", \"sourceTurnId\": \"turn\", \
                \"sourceTurnIndex\": 0, \"roundIndex\": 2, \"agentType\": \"agentic\", \
                \"originalUserInput\": \"task\", \"primaryModelId\": \"large\", \
                \"messages\": [\"task\"], \"workspace\": {\
                \"baselineCommit\": \"0123456789abcdef\", \"trackedPatch\": \"\", \
                \"untrackedFiles\": []}}";
    let value: Value = serde_json::from_str(json).expect("v1 checkpoint should deserialize");
    let workspace = value.get("workspace").expect("workspace");
    let checkpoint = RoundReplayCheckpoint {
        version: count_field(&value, "version") as u32,
        source_session_id: text_field(&value, "sourceSessionId"),
        source_turn_id: text_field(&value, "sourceTurnId"),
        source_turn_index: count_field(&value, "sourceTurnIndex"),
        round_index: count_field(&value, "roundIndex"),
        artifact_session_id: value
            .get("artifactSessionId")
            .and_then(Value::as_str)
            .map(str::to_string),
        agent_type: text_field(&value, "agentType"),
        original_user_input: text_field(&value, "originalUserInput"),
        primary_model_id: text_field(&value, "primaryModelId"),
        session_max_context_tokens: value
            .get("sessionMaxContextTokens")
            .and_then(Value::as_u64)
            .map(|tokens| tokens as usize),
        messages: value
            .get("messages")
            .and_then(Value::as_array)
            .expect("messages")
            .iter()
            .map(|message| Message::user(message.as_str().expect("message").to_string()))
            .collect(),
        workspace: RoundWorkspaceSnapshot {
            baseline_commit: text_field(workspace, "baselineCommit"),
            tracked_patch: text_field(workspace, "trackedPatch"),
            untracked_files: Vec::new(),
        },
        session_artifacts: match value.get("sessionArtifacts") {
            None => Vec::new(),
            Some(_) => panic!("version one has no session artifacts"),
        },
    };
    assert_eq!(checkpoint.version, 1);
    assert!(checkpoint.session_artifacts.is_empty());
    assert_eq!(checkpoint.session_max_context_tokens, None);
    checkpoint.validate().expect("v1 checkpoint should validate");
    let loaded = RoundReplayCheckpoint::load("v1.json", CheckpointRead::Parsed(checkpoint));
    assert!(loaded.is_ok());
}

#[test]
fn deepseek_history_preserves_empty_reasoning_for_tool_rounds() {
    let mut messages = vec![Message::assistant_with_reasoning(
        None,
        String::new(),
        vec![ToolCall {
            tool_id: "call-1".to_string(),
            tool_name: "Read".to_string(),
            arguments: "{\"file_path\":\"/app/file\"}".to_string(),
            raw_arguments: None,
            is_error: false,
            recovered_from_truncation: false,
        }],
    )];
    normalize_routed_model_history(&mut messages, "deepseek-v4-flash");
    let MessageContent::Mixed { reasoning_content, .. } = &messages[0].content else {
        panic!("expected mixed assistant message");
    };
    assert_eq!(reasoning_content.as_deref(), Some(""));
}

fn tool_call() -> ToolCall {
    ToolCall {
        tool_id: "call".to_string(),
        tool_name: "Read".to_string(),
        arguments: "{}".to_string(),
        raw_arguments: None,
        is_error: false,
        recovered_from_truncation: false,
    }
}

#[test]
fn history_for_other_models_stays_as_it_is() {
    let history =
        vec![Message::assistant_with_reasoning(None, "hi".to_string(), vec![tool_call()])];
    let mut messages = history.clone();
    normalize_routed_model_history(&mut messages, "deep-seek");
    assert_eq!(messages, history);
}

#[test]
fn only_tool_rounds_without_reasoning_are_filled_in() {
    let mut user_mixed = Message::assistant_with_reasoning(None, "u".to_string(), vec![tool_call()]);
    user_mixed.role = MessageRole::User;
    let history = vec![
        Message::user("task".to_string()),
        Message::assistant_with_reasoning(None, "no tools".to_string(), Vec::new()),
        Message::assistant_with_reasoning(
            Some("why".to_string()),
            "kept".to_string(),
            vec![tool_call()],
        ),
        user_mixed,
        Message::assistant_with_reasoning(None, "filled".to_string(), vec![tool_call()]),
        Message {
            role: MessageRole::Tool,
            content: MessageContent::Other("{}".to_string()),
            rest: "{\"id\":7}".to_string(),
        },
    ];
    let mut messages = history.clone();
    normalize_routed_model_history(&mut messages, "vendor/DeepSeek-R1");
    assert_eq!(messages[..4], history[..4]);
    assert_eq!(messages[5], history[5]);
    assert_eq!(
        messages[4],
        Message::assistant_with_reasoning(
            Some(String::new()),
            "filled".to_string(),
            vec![tool_call()]
        )
    );
    let once = messages.clone();
    normalize_routed_model_history(&mut messages, "vendor/DeepSeek-R1");
    assert_eq!(messages, once);
}

#[test]
fn every_check_of_a_checkpoint_has_its_own_error() {
    assert_eq!(valid_checkpoint().validate(), Ok(()));

    for version in [0, 3] {
        let mut broken = valid_checkpoint();
        broken.version = version;
        assert_eq!(
            broken.validate(),
            invalid(&format!("Unsupported round replay checkpoint version: {version}"))
        );
    }

    let missing = "Round replay checkpoint is missing required identity fields";
    let mut broken = valid_checkpoint();
    broken.source_session_id = " ".to_string();
    assert_eq!(broken.validate(), invalid(missing));
    let mut broken = valid_checkpoint();
    broken.source_turn_id = String::new();
    assert_eq!(broken.validate(), invalid(missing));
    let mut broken = valid_checkpoint();
    broken.agent_type = "\n".to_string();
    assert_eq!(broken.validate(), invalid(missing));
    let mut broken = valid_checkpoint();
    broken.primary_model_id = "\t".to_string();
    assert_eq!(broken.validate(), invalid(missing));

    let mut broken = valid_checkpoint();
    broken.artifact_session_id = Some("  ".to_string());
    assert_eq!(
        broken.validate(),
        invalid("Round replay checkpoint has an empty artifact session id")
    );

    assert_eq!(
        checkpoint(Vec::new()).validate(),
        invalid("Round replay checkpoint contains no model-visible messages")
    );

    let mut broken = valid_checkpoint();
    broken.workspace.baseline_commit = "012345".to_string();
    assert_eq!(broken.validate(), invalid("Invalid checkpoint baseline commit: 012345"));

    let mut broken = valid_checkpoint();
    broken.workspace.untracked_files.push(RoundWorkspaceFile {
        relative_path: "ok".to_string(),
        contents_base64: String::new(),
    });
    broken.workspace.untracked_files.push(RoundWorkspaceFile {
        relative_path: "a/../b".to_string(),
        contents_base64: String::new(),
    });
    assert_eq!(broken.validate(), invalid("Unsafe checkpoint workspace path: a/../b"));

    let mut broken = valid_checkpoint();
    broken.session_artifacts.push(RoundSessionArtifact {
        relative_path: "turns/turn.json".to_string(),
        contents_base64: String::new(),
    });
    assert_eq!(
        broken.validate(),
        invalid("Unsupported round replay session artifact path: turns/turn.json")
    );
}

#[test]
fn loading_reports_what_went_wrong() {
    assert_eq!(
        RoundReplayCheckpoint::load("c.json", CheckpointRead::Unreadable("gone".to_string()))
            .map(|_| ()),
        Err(BitFunError::Io("Failed to read round replay checkpoint c.json: gone".to_string()))
    );
    assert_eq!(
        RoundReplayCheckpoint::load("c.json", CheckpointRead::Malformed("eof".to_string()))
            .map(|_| ()),
        invalid("Invalid round replay checkpoint c.json: eof")
    );
    assert_eq!(
        RoundReplayCheckpoint::load("c.json", CheckpointRead::Parsed(checkpoint(Vec::new())))
            .map(|_| ()),
        invalid("Round replay checkpoint contains no model-visible messages")
    );
}

#[test]
fn commits_are_at_least_seven_hexadecimal_digits() {
    assert_eq!(validate_commit("0123456"), Ok(()));
    assert_eq!(validate_commit("abcDEF9"), Ok(()));
    for commit in ["", "012345", "012345g", " 1234567", "012345\u{e9}"] {
        assert_eq!(
            validate_commit(commit),
            invalid(&format!("Invalid checkpoint baseline commit: {commit}"))
        );
    }
}

#[test]
fn relative_paths_agree_with_the_standard_library() {
    let candidates = [
        "", "a", "a/b", "a//b", "a/", "a/./b", "a/.", "./a", ".", "..", "../a", "a/..", "a/../b",
        "/a", "//", ".a", "..a", "a..", "...", "a/...", ".//a", "\u{e9}/x", " ", "a\\..\\b",
    ];
    for path in candidates {
        let parsed = std::path::Path::new(path);
        let unsafe_path = path.is_empty()
            || parsed.is_absolute()
            || parsed
                .components()
                .any(|component| !matches!(component, std::path::Component::Normal(_)));
        assert_eq!(validate_relative_path(path).is_err(), unsafe_path, "{path}");
    }
}

#[test]
fn artifact_paths_lie_below_the_artifact_directories() {
    assert_eq!(validate_session_artifact_path("tool-results/a.txt"), Ok(()));
    assert_eq!(
        validate_session_artifact_path("artifacts/compression-transcripts/b/c.json"),
        Ok(())
    );
    for path in ["tool-results", "artifacts/other", "x/tool-results/a"] {
        assert_eq!(
            validate_session_artifact_path(path),
            invalid(&format!("Unsupported round replay session artifact path: {path}"))
        );
    }
    assert_eq!(
        validate_session_artifact_path("tool-results/../a"),
        invalid("Unsafe checkpoint workspace path: tool-results/../a")
    );
}

#[test]
fn the_size_error_names_limit_and_size() {
    assert_eq!(
        checkpoint_size_error(67_108_865),
        BitFunError::Validation(
            "Round replay checkpoint workspace snapshot exceeds 67108864 bytes (captured 67108865)"
                .to_string()
        )
    );
}

#[test]
fn windows_paths_know_backslashes_and_drives() {
    let refused = [
        "", "..", "..\\secret", "a\\..\\b", "a/..\\b", "\\x", "/x", "C:\\x", "c:x", "C:", ".\\a", "./a",
        "\\\\server\\share\\x",
    ];
    for path in refused {
        assert_eq!(
            PathStyle::Windows.validate_relative_path(path),
            invalid(&format!("Unsafe checkpoint workspace path: {path}"))
        );
    }
    for path in ["a", "a\\b", "a/b\\c", "a\\.\\b", "a\\", "..a\\b", "1:x", "ab:c", "\u{e9}:x"] {
        assert_eq!(PathStyle::Windows.validate_relative_path(path), Ok(()));
    }
}

#[test]
fn unix_paths_know_neither_backslashes_nor_drives() {
    for path in ["..\\secret", "C:\\x", "\\x"] {
        assert_eq!(PathStyle::Unix.validate_relative_path(path), Ok(()));
    }
    assert!(PathStyle::Unix.validate_relative_path("a/../b").is_err());
}

#[test]
fn the_host_style_follows_the_separators_of_the_system() {
    let expected =
        if std::path::is_separator('\\') { PathStyle::Windows } else { PathStyle::Unix };
    assert_eq!(PathStyle::host(), expected);
    assert_eq!(PathStyle::for_separator(true), PathStyle::Windows);
    assert_eq!(PathStyle::for_separator(false), PathStyle::Unix);
    for path in ["a", "..\\secret", "C:x", "/x"] {
        assert_eq!(validate_relative_path(path), expected.validate_relative_path(path));
        assert_eq!(
            validate_session_artifact_path(path),
            expected.validate_session_artifact_path(path)
        );
    }
}

#[test]
fn checkpoints_are_checked_for_the_style_of_their_paths() {
    let mut windows = valid_checkpoint();
    windows.workspace.untracked_files.push(RoundWorkspaceFile {
        relative_path: "..\\up".to_string(),
        contents_base64: String::new(),
    });
    let refusal = "Unsafe checkpoint workspace path: ..\\up";
    assert_eq!(windows.validate_for(PathStyle::Windows), invalid(refusal));
    assert_eq!(windows.validate_for(PathStyle::Unix), Ok(()));
    assert_eq!(
        RoundReplayCheckpoint::load_for(
            PathStyle::Windows,
            "c.json",
            CheckpointRead::Parsed(windows.clone())
        )
        .map(|_| ()),
        invalid(refusal)
    );
    assert!(RoundReplayCheckpoint::load_for(
        PathStyle::Unix,
        "c.json",
        CheckpointRead::Parsed(windows)
    )
    .is_ok());
    let artifact = PathStyle::Windows.validate_session_artifact_path("tool-results/..\\x");
    assert_eq!(artifact, invalid("Unsafe checkpoint workspace path: tool-results/..\\x"));
}

#[test]
fn error_messages_come_without_their_kind() {
    assert_eq!(BitFunError::Io("a".to_string()).message(), "a");
    assert_eq!(BitFunError::Validation("b".to_string()).message(), "b");
}
