use agent_runtime::file_read_state::{
    assert_file_not_unexpectedly_modified, assert_found_fresh, content_unchanged_since_full_read,
    file_read_facts_are_fresh, file_read_facts_content_matches, refuse_stale_edit,
    refuse_stale_write,
    validate_edit_content_freshness_against_read_state, validate_prior_read_state,
    validate_write_content_freshness_against_read_state,
    validate_write_mtime_freshness_against_read_state, FileMutationKind, FileReadFreshnessFacts,
    FileReadState, FileReadStateStore, FILE_UNEXPECTEDLY_MODIFIED_ERROR,
};

fn sample_state(
    start_line: usize,
    end_line: usize,
    total_lines: usize,
    is_partial_view: bool,
) -> FileReadState {
    FileReadState {
        content: String::new(),
        timestamp_ms: 0,
        start_line,
        end_line,
        total_lines,
        is_partial_view,
    }
}

#[test]
fn file_read_state_accepts_nonempty_whole_file() {
    let state = sample_state(1, 10, 10, false);
    assert!(state.is_full_file_read());
}

#[test]
fn file_read_state_rejects_partial_view() {
    let state = sample_state(1, 10, 10, true);
    assert!(!state.is_full_file_read());
}

#[test]
fn file_read_state_accepts_empty_file_from_read_tool() {
    let state = sample_state(0, 0, 0, false);
    assert!(state.is_full_file_read());
}

#[test]
fn file_read_state_rejects_empty_file_with_one_based_range() {
    let state = sample_state(1, 0, 0, false);
    assert!(!state.is_full_file_read());
}

#[test]
fn file_read_state_store_scopes_entries_by_session() {
    let mut store = FileReadStateStore::new();
    store.create_session("session-a");
    store.create_session("session-b");

    store.set("session-a", "src/lib.rs", sample_state(1, 1, 1, false));

    assert!(store.get("session-a", "src/lib.rs").is_some());
    assert!(store.get("session-b", "src/lib.rs").is_none());
    assert!(store.get("session-a", "src/main.rs").is_none());
}

#[test]
fn file_read_state_store_lists_only_explicit_reads() {
    let mut store = FileReadStateStore::new();
    store.set("session", "src/z.rs", sample_state(1, 1, 1, false));
    store.set("session", "src/a.rs", sample_state(1, 1, 1, false));
    store.set("session", "src/injected.rs", sample_state(1, 1, 1, true));

    assert_eq!(
        store.explicitly_read_paths("session"),
        vec!["src/a.rs".to_string(), "src/z.rs".to_string()]
    );
}

#[test]
fn file_read_state_store_clear_and_delete_drop_session_entries() {
    let mut store = FileReadStateStore::new();
    store.set("session-a", "src/lib.rs", sample_state(1, 1, 1, false));
    store.set("session-b", "src/lib.rs", sample_state(1, 1, 1, false));

    store.clear_session("session-a");
    assert!(store.get("session-a", "src/lib.rs").is_none());
    assert!(store.get("session-b", "src/lib.rs").is_some());

    store.delete_session("session-b");
    assert!(store.get("session-b", "src/lib.rs").is_none());
}

#[test]
fn validate_prior_read_state_requires_initial_read() {
    assert_eq!(
        validate_prior_read_state("src/main.rs", None, FileMutationKind::Edit).as_deref(),
        Some("Use Read to load the current contents of src/main.rs before calling Edit on it.")
    );
}

#[test]
fn validate_prior_read_state_rejects_auto_injected_partial_view() {
    let state = sample_state(1, 10, 10, true);

    assert_eq!(
        validate_prior_read_state("src/main.rs", Some(&state), FileMutationKind::Write)
            .as_deref(),
        Some("Use Read to load the full contents of src/main.rs before calling Write on it.")
    );
}

#[test]
fn validate_prior_read_state_accepts_read_tool_range() {
    let state = sample_state(50, 100, 556, false);

    assert!(
        validate_prior_read_state("src/main.rs", Some(&state), FileMutationKind::Edit)
            .is_none()
    );
}

#[test]
fn file_read_state_from_full_content_sets_empty_file_range() {
    let state = FileReadState::from_full_content("", 100);

    assert_eq!(state.start_line, 0);
    assert_eq!(state.end_line, 0);
    assert_eq!(state.total_lines, 0);
    assert!(state.is_full_file_read());
}

#[test]
fn content_unchanged_since_full_read_rejects_partial_ranges() {
    let state = sample_state(50, 100, 556, false);

    assert!(!content_unchanged_since_full_read(
        &state, "middle\n"
    ));
}

#[test]
fn validate_edit_content_freshness_rejects_partial_read_range_without_full_file() {
    let state = FileReadState {
        content: "middle\n".to_string(),
        timestamp_ms: 100,
        start_line: 50,
        end_line: 100,
        total_lines: 556,
        is_partial_view: false,
    };

    assert!(validate_edit_content_freshness_against_read_state(
        "src/state.js",
        &state,
        "different full file\n",
        Some(200),
    )
    .is_some());
}

#[test]
fn assert_file_not_unexpectedly_modified_allows_matching_full_read_after_newer_mtime() {
    let state = read_state("alpha\n", 100);

    assert!(assert_file_not_unexpectedly_modified(Some(&state), "alpha\n", Some(200)).is_ok());
}

#[test]
fn assert_file_not_unexpectedly_modified_rejects_changed_full_read_after_newer_mtime() {
    let state = read_state("alpha\n", 100);

    assert!(assert_file_not_unexpectedly_modified(Some(&state), "beta\n", Some(200)).is_err());
}

#[test]
fn assert_file_not_unexpectedly_modified_rejects_partial_read_after_newer_mtime() {
    let state = FileReadState {
        content: "middle\n".to_string(),
        timestamp_ms: 100,
        start_line: 50,
        end_line: 100,
        total_lines: 556,
        is_partial_view: false,
    };

    assert!(
        assert_file_not_unexpectedly_modified(Some(&state), "full file\n", Some(200)).is_err()
    );
}

fn read_state(content: &str, timestamp_ms: u64) -> FileReadState {
    FileReadState {
        content: content.to_string(),
        timestamp_ms,
        start_line: 1,
        end_line: 1,
        total_lines: 1,
        is_partial_view: false,
    }
}

#[test]
fn validate_edit_content_freshness_allows_matching_remote_content_without_mtime() {
    let state = read_state("alpha\n", 100);

    assert!(validate_edit_content_freshness_against_read_state(
        "src/main.rs",
        &state,
        "alpha\n",
        None,
    )
    .is_none());
}

#[test]
fn validate_edit_content_freshness_allows_remote_content_missing_cached_trailing_newline() {
    // Regression test: the Read tool's cached content is reconstructed via
    // a line-split/join that drops a trailing newline, while a remote
    // SFTP re-read of the same unchanged file preserves it. Remote
    // workspaces have no mtime to short-circuit the comparison, so this
    // must not be reported as "no longer matches the last Read result".
    let state = read_state("alpha\nbeta", 100);

    assert!(validate_edit_content_freshness_against_read_state(
        "Caddyfile",
        &state,
        "alpha\nbeta\n",
        None,
    )
    .is_none());
}

#[test]
fn validate_edit_content_freshness_rejects_changed_remote_content_without_mtime() {
    let state = read_state("alpha\n", 100);

    assert_eq!(
        validate_edit_content_freshness_against_read_state(
            "src/main.rs",
            &state,
            "beta\n",
            None,
        )
        .as_deref(),
        Some(
            "The file src/main.rs no longer matches the last Read result. Use Read again, then retry Edit."
        )
    );
}

#[test]
fn validate_edit_content_freshness_allows_newer_mtime_when_full_read_content_matches() {
    let state = read_state("alpha\n", 100);

    assert!(validate_edit_content_freshness_against_read_state(
        "src/main.rs",
        &state,
        "alpha\n",
        Some(200),
    )
    .is_none());
}

#[test]
fn validate_edit_content_freshness_rejects_newer_mtime_when_content_differs() {
    let state = read_state("alpha\n", 100);

    assert!(validate_edit_content_freshness_against_read_state(
        "src/main.rs",
        &state,
        "beta\n",
        Some(200),
    )
    .is_some());
}

#[test]
fn validate_edit_content_freshness_ignores_older_mtime_even_when_content_differs() {
    let state = read_state("alpha\n", 200);

    assert!(validate_edit_content_freshness_against_read_state(
        "src/main.rs",
        &state,
        "beta\n",
        Some(100),
    )
    .is_none());
}

#[test]
fn validate_write_mtime_freshness_rejects_newer_mtime_before_content_compare() {
    let state = read_state("alpha\n", 100);

    assert_eq!(
        validate_write_mtime_freshness_against_read_state("src/main.rs", &state, 200)
            .as_deref(),
        Some("The file src/main.rs changed after it was last read. Use Read again, then retry Write.")
    );
}

#[test]
fn validate_write_mtime_freshness_allows_older_mtime_without_content_compare() {
    let state = read_state("alpha\n", 200);

    assert!(
        validate_write_mtime_freshness_against_read_state("src/main.rs", &state, 100).is_none()
    );
}

#[test]
fn validate_write_content_freshness_rejects_changed_remote_content_without_mtime() {
    let state = read_state("alpha\n", 100);

    assert_eq!(
        validate_write_content_freshness_against_read_state(
            "src/main.rs",
            &state,
            "beta\n",
        )
        .as_deref(),
        Some(
            "The file src/main.rs no longer matches the last Read result. Use Read again, then retry Write."
        )
    );
}

#[test]
fn full_content_counts_lines_as_the_standard_library_does() {
    for content in ["", "\n", "a", "a\n", "a\nb", "a\r\nb\r\n", "\n\n", "\r", "a\n\nb\n\n"] {
        let state = FileReadState::from_full_content(content, 7);
        let lines = content.lines().count();
        assert_eq!(state.content, content);
        assert_eq!(state.timestamp_ms, 7);
        assert_eq!(state.start_line, if lines == 0 { 0 } else { 1 });
        assert_eq!(state.end_line, lines);
        assert_eq!(state.total_lines, lines);
        assert!(!state.is_partial_view);
        assert!(state.is_full_file_read());
    }
}

#[test]
fn read_tool_content_keeps_its_range() {
    let state = FileReadState::from_read_tool_content("x".to_string(), 5, 2, 3, 9);
    assert_eq!(
        state,
        FileReadState {
            content: "x".to_string(),
            timestamp_ms: 5,
            start_line: 2,
            end_line: 3,
            total_lines: 9,
            is_partial_view: false,
        }
    );
    assert!(!state.is_full_file_read());
    assert!(!sample_state(2, 10, 10, false).is_full_file_read());
    assert!(!sample_state(1, 9, 10, false).is_full_file_read());
    assert!(sample_state(1, 11, 10, false).is_full_file_read());
}

#[test]
fn a_final_newline_does_not_count_on_either_side() {
    assert!(content_unchanged_since_full_read(&read_state("a\nb", 0), "a\nb\n"));
    assert!(content_unchanged_since_full_read(&read_state("a\nb\n", 0), "a\nb"));
    assert!(content_unchanged_since_full_read(&read_state("", 0), "\n"));
    assert!(!content_unchanged_since_full_read(&read_state("a", 0), "a\n\n"));
    assert!(!content_unchanged_since_full_read(&read_state("a", 0), "b"));
    assert!(!content_unchanged_since_full_read(&read_state("a", 0), "ab"));
}

#[test]
fn freshness_facts_decide_by_mtime_or_content() {
    let facts = |is_full_file_read: bool| FileReadFreshnessFacts {
        content: "a",
        timestamp_ms: 100,
        is_full_file_read,
    };
    assert!(file_read_facts_are_fresh(facts(false), "b", Some(100)));
    assert!(!file_read_facts_are_fresh(facts(false), "a", Some(101)));
    assert!(!file_read_facts_are_fresh(facts(false), "a", None));
    assert!(file_read_facts_are_fresh(facts(true), "a", None));
    assert!(file_read_facts_content_matches(facts(true), "a\n"));
    assert!(!file_read_facts_content_matches(facts(false), "a"));
}

#[test]
fn an_unread_file_counts_as_modified() {
    assert_eq!(
        assert_file_not_unexpectedly_modified(None, "", None),
        Err(FILE_UNEXPECTEDLY_MODIFIED_ERROR.to_string())
    );
    assert_eq!(
        assert_file_not_unexpectedly_modified(Some(&read_state("a", 1)), "b", Some(2)),
        Err(FILE_UNEXPECTEDLY_MODIFIED_ERROR.to_string())
    );
}

#[test]
fn edit_refusal_names_the_newer_mtime() {
    assert_eq!(
        validate_edit_content_freshness_against_read_state("f", &read_state("a", 1), "b", Some(2))
            .as_deref(),
        Some("The file f changed after it was last read. Use Read again, then retry Edit.")
    );
}

#[test]
fn matching_content_may_be_written_and_edited() {
    let state = read_state("alpha\n", 100);
    assert_eq!(validate_write_content_freshness_against_read_state("f", &state, "alpha"), None);
    assert_eq!(
        validate_edit_content_freshness_against_read_state("f", &state, "alpha", Some(500)),
        None
    );
}

#[test]
fn a_file_that_passes_the_write_mtime_gate_passes_the_edit_gate() {
    let state = sample_state(5, 6, 10, false);
    assert_eq!(validate_write_mtime_freshness_against_read_state("f", &state, 0), None);
    assert_eq!(
        validate_edit_content_freshness_against_read_state("f", &state, "other", Some(0)),
        None
    );
}

#[test]
fn set_replaces_and_get_returns_a_copy_of_the_last_state() {
    let mut store = FileReadStateStore::default();
    store.set("s", "p", read_state("old", 1));
    store.set("s", "p", read_state("new", 2));
    store.set("s", "q", read_state("other", 3));
    assert_eq!(store.get("s", "p"), Some(read_state("new", 2)));
    assert_eq!(store.get("s", "p"), Some(read_state("new", 2)));
    assert_eq!(store.get("s", "q"), Some(read_state("other", 3)));
    assert_eq!(store.get("missing", "p"), None);
}

#[test]
fn creating_a_session_again_keeps_its_entries() {
    let mut store = FileReadStateStore::new();
    store.create_session("s");
    assert_eq!(store.get("s", "p"), None);
    store.set("s", "p", read_state("x", 1));
    store.create_session("s");
    assert_eq!(store.get("s", "p"), Some(read_state("x", 1)));
}

#[test]
fn clearing_or_deleting_a_missing_session_changes_nothing() {
    let mut store = FileReadStateStore::new();
    store.set("s", "p", read_state("x", 1));
    store.clear_session("other");
    store.delete_session("other");
    assert_eq!(store.get("s", "p"), Some(read_state("x", 1)));
    assert!(store.explicitly_read_paths("other").is_empty());
    store.clear_session("s");
    store.set("s", "q", read_state("y", 2));
    assert_eq!(store.explicitly_read_paths("s"), vec!["q".to_string()]);
}

#[test]
fn listed_paths_are_those_that_pass_the_prior_read_gate() {
    let mut store = FileReadStateStore::new();
    let paths = ["b", "a", "\u{e9}", "B", "a/b", "c"];
    for (i, path) in paths.iter().enumerate() {
        store.set("s", path, sample_state(1, 1, 1, i % 3 == 2));
    }
    let listed = store.explicitly_read_paths("s");
    let mut expected = vec!["b".to_string(), "a".to_string(), "B".to_string(), "a/b".to_string()];
    expected.sort();
    assert_eq!(listed, expected);
    for path in paths {
        let state = store.get("s", path);
        let refusal = validate_prior_read_state(path, state.as_ref(), FileMutationKind::Write);
        assert_eq!(listed.contains(&path.to_string()), refusal.is_none());
    }
}

#[test]
fn a_given_verdict_decides_by_itself() {
    assert_eq!(assert_found_fresh(Some(true)), Ok(()));
    for verdict in [None, Some(false)] {
        assert_eq!(
            assert_found_fresh(verdict),
            Err(FILE_UNEXPECTEDLY_MODIFIED_ERROR.to_string())
        );
    }
    assert_eq!(refuse_stale_edit("f", true, Some(1)), None);
    assert_eq!(
        refuse_stale_edit("f", false, Some(1)).as_deref(),
        Some("The file f changed after it was last read. Use Read again, then retry Edit.")
    );
    assert_eq!(
        refuse_stale_edit("f", false, None).as_deref(),
        Some("The file f no longer matches the last Read result. Use Read again, then retry Edit.")
    );
    assert_eq!(refuse_stale_write("f", true), None);
    assert_eq!(
        refuse_stale_write("f", false).as_deref(),
        Some(
            "The file f no longer matches the last Read result. Use Read again, then retry Write."
        )
    );
}
