use agent_runtime::error::BitFunError;
use agent_runtime::round_replay::capture::{
    capture_workspace_snapshot, split_names, WorkspaceCapture, GIT_DIFF, GIT_LIST_UNTRACKED,
};
use agent_runtime::round_replay::restore::{
    check_payloads, restore_workspace_snapshot, rollback_workspace_restore, WorkspaceRestore,
    GIT_APPLY_PATCH, GIT_CHECK_PATCH, GIT_ROLL_BACK, GIT_STATUS, PATCH_FILE,
};
use agent_runtime::round_replay::step::Step;
use agent_runtime::round_replay::workspace::{
    run_git, ShellOutput, WorkspaceReply, WorkspaceRequest, GIT_HEAD,
};
use agent_runtime::round_replay::{
    PathStyle, RoundWorkspaceFile, RoundWorkspaceSnapshot, MAX_CHECKPOINT_BYTES,
};
use std::collections::BTreeMap;

const COMMIT: &str = "0123456789abcdef";

/// A workspace in memory that notes everything it is asked.
struct Workspace {
    head: Result<ShellOutput, String>,
    patch: String,
    status: String,
    listing: String,
    files: BTreeMap<String, Vec<u8>>,
    unwritable: Option<String>,
    rollback: Result<ShellOutput, String>,
    asked: Vec<String>,
}

fn printed(stdout: &str) -> Result<ShellOutput, String> {
    Ok(ShellOutput { stdout: stdout.to_string(), stderr: String::new(), exit_code: 0 })
}

impl Workspace {
    fn new() -> Self {
        Workspace {
            head: printed(&format!("{COMMIT}\n")),
            patch: String::new(),
            status: String::new(),
            listing: String::new(),
            files: BTreeMap::new(),
            unwritable: None,
            rollback: printed("HEAD is now at 0123456"),
            asked: Vec::new(),
        }
    }

    fn answer(&mut self, request: WorkspaceRequest) -> WorkspaceReply {
        match request {
            WorkspaceRequest::RunGit(command) => {
                self.asked.push(command.to_string());
                let outcome = if command == GIT_HEAD {
                    self.head.clone()
                } else if command == GIT_DIFF {
                    printed(&self.patch)
                } else if command == GIT_LIST_UNTRACKED {
                    printed(&self.listing)
                } else if command == GIT_STATUS {
                    printed(&self.status)
                } else {
                    printed("")
                };
                WorkspaceReply::Shell(outcome)
            }
            WorkspaceRequest::ReadFile(path) => {
                self.asked.push(format!("read {path}"));
                WorkspaceReply::Contents(
                    self.files.get(&path).cloned().ok_or_else(|| "no such file".to_string()),
                )
            }
            WorkspaceRequest::ProbeFile(path) => {
                self.asked.push(format!("probe {path}"));
                if path == "unknown" {
                    WorkspaceReply::Exists(Err("disk on fire".to_string()))
                } else {
                    WorkspaceReply::Exists(Ok(self.files.contains_key(&path)))
                }
            }
            WorkspaceRequest::WriteFile(path, contents) => {
                self.asked.push(format!("write {path}"));
                if self.unwritable.as_ref() == Some(&path) {
                    return WorkspaceReply::Written(Err("read-only".to_string()));
                }
                self.files.insert(path, contents);
                WorkspaceReply::Written(Ok(()))
            }
            WorkspaceRequest::RollBack(command) => {
                self.asked.push(format!("roll back: {command}"));
                WorkspaceReply::Shell(self.rollback.clone())
            }
        }
    }

    fn capture(&mut self) -> Result<RoundWorkspaceSnapshot, BitFunError> {
        let (mut capture, mut step) = WorkspaceCapture::new(PathStyle::host());
        loop {
            match step {
                Step::Finish(result) => return result,
                Step::Ask(request) => {
                    let reply = self.answer(request);
                    let next = capture_workspace_snapshot(capture, reply);
                    capture = next.0;
                    step = next.1;
                }
            }
        }
    }

    fn restore(&mut self, snapshot: &RoundWorkspaceSnapshot) -> Result<(), BitFunError> {
        let (mut restore, mut step) = WorkspaceRestore::new(PathStyle::host(), snapshot.clone());
        loop {
            match step {
                Step::Finish(result) => return result,
                Step::Ask(request) => {
                    let reply = self.answer(request);
                    let next = restore_workspace_snapshot(restore, reply);
                    restore = next.0;
                    step = next.1;
                }
            }
        }
    }
}

fn file(path: &str, contents_base64: &str) -> RoundWorkspaceFile {
    RoundWorkspaceFile {
        relative_path: path.to_string(),
        contents_base64: contents_base64.to_string(),
    }
}

fn snapshot(patch: &str, files: Vec<RoundWorkspaceFile>) -> RoundWorkspaceSnapshot {
    RoundWorkspaceSnapshot {
        baseline_commit: COMMIT.to_string(),
        tracked_patch: patch.to_string(),
        untracked_files: files,
    }
}

fn validation<T>(message: &str) -> Result<T, BitFunError> {
    Err(BitFunError::Validation(message.to_string()))
}

fn io<T>(message: &str) -> Result<T, BitFunError> {
    Err(BitFunError::Io(message.to_string()))
}

#[test]
fn a_capture_stores_the_commit_the_patch_and_the_untracked_files() {
    let mut workspace = Workspace::new();
    workspace.patch = "diff".to_string();
    workspace.listing = "b.txt\0\0a/c.bin\0".to_string();
    workspace.files.insert("b.txt".to_string(), b"complete output".to_vec());
    workspace.files.insert("a/c.bin".to_string(), vec![0, 255]);
    assert_eq!(
        workspace.capture(),
        Ok(snapshot(
            "diff",
            vec![file("b.txt", "Y29tcGxldGUgb3V0cHV0"), file("a/c.bin", "AP8=")]
        ))
    );
    assert_eq!(
        workspace.asked,
        vec![GIT_HEAD, GIT_DIFF, GIT_LIST_UNTRACKED, "read b.txt", "read a/c.bin"]
    );
}

#[test]
fn a_captured_workspace_is_restored_byte_by_byte() {
    let mut source = Workspace::new();
    source.patch = "some patch\n".to_string();
    source.listing = "x\0y/z\0".to_string();
    source.files.insert("x".to_string(), (0u8..=255).collect());
    source.files.insert("y/z".to_string(), Vec::new());
    let captured = source.capture().expect("capture");

    let mut target = Workspace::new();
    assert_eq!(target.restore(&captured), Ok(()));
    assert_eq!(target.files.get("x"), source.files.get("x"));
    assert_eq!(target.files.get("y/z"), source.files.get("y/z"));
    assert_eq!(target.files.get(PATCH_FILE), Some(&b"some patch\n".to_vec()));
    assert_eq!(
        target.asked,
        vec![
            GIT_HEAD,
            GIT_STATUS,
            "probe x",
            "probe y/z",
            "write .git/bitfun-round-replay.patch",
            GIT_CHECK_PATCH,
            GIT_APPLY_PATCH,
            "write x",
            "write y/z",
        ]
    );
}

#[test]
fn a_capture_stops_at_a_bad_commit() {
    let mut workspace = Workspace::new();
    workspace.head = printed("HEAD\n");
    assert_eq!(workspace.capture(), validation("Invalid checkpoint baseline commit: HEAD"));
    assert_eq!(workspace.asked, vec![GIT_HEAD]);
}

#[test]
fn a_capture_stops_at_a_path_that_leaves_the_workspace() {
    let mut workspace = Workspace::new();
    workspace.listing = "../up\0".to_string();
    assert_eq!(workspace.capture(), validation("Unsafe checkpoint workspace path: ../up"));
}

#[test]
fn a_capture_stops_at_a_file_that_cannot_be_read() {
    let mut workspace = Workspace::new();
    workspace.listing = "gone\0".to_string();
    assert_eq!(workspace.capture(), io("Failed to capture untracked file gone: no such file"));
}

#[test]
fn a_capture_may_reach_the_limit_and_not_exceed_it() {
    let mut workspace = Workspace::new();
    workspace.patch = "ab".to_string();
    workspace.listing = "big\0".to_string();
    workspace.files.insert("big".to_string(), vec![0; MAX_CHECKPOINT_BYTES - 2]);
    assert!(workspace.capture().is_ok());
    workspace.files.insert("big".to_string(), vec![0; MAX_CHECKPOINT_BYTES - 1]);
    assert_eq!(
        workspace.capture(),
        validation(
            "Round replay checkpoint workspace snapshot exceeds 67108864 bytes (captured 67108865)"
        )
    );
}

#[test]
fn a_patch_over_the_limit_is_refused_before_anything_is_listed() {
    let mut workspace = Workspace::new();
    workspace.patch = "x".repeat(MAX_CHECKPOINT_BYTES + 1);
    assert!(workspace.capture().is_err());
    assert_eq!(workspace.asked, vec![GIT_HEAD, GIT_DIFF]);
}

#[test]
fn git_failures_carry_their_reason() {
    assert_eq!(run_git(Err("timeout".to_string())), io("Workspace git command failed: timeout"));
    assert_eq!(
        run_git(Ok(ShellOutput {
            stdout: "ignored".to_string(),
            stderr: " fatal \n".to_string(),
            exit_code: -128,
        })),
        io("Workspace git command failed with exit code -128: fatal")
    );
    assert_eq!(run_git(printed(" kept \n")), Ok(" kept \n".to_string()));
}

#[test]
fn a_restoration_needs_the_commit_of_the_snapshot() {
    let mut workspace = Workspace::new();
    workspace.head = printed("fedcba9876543210\n");
    assert_eq!(
        workspace.restore(&snapshot("", Vec::new())),
        validation(
            "Round replay requires baseline commit 0123456789abcdef, but the workspace is at \
             fedcba9876543210"
        )
    );
    assert_eq!(workspace.asked, vec![GIT_HEAD]);
}

#[test]
fn a_restoration_needs_a_clean_workspace() {
    let mut workspace = Workspace::new();
    workspace.status = " M src/lib.rs\n".to_string();
    assert_eq!(
        workspace.restore(&snapshot("patch", Vec::new())),
        validation("Round replay requires a clean workspace before applying the checkpoint")
    );
    assert_eq!(workspace.asked, vec![GIT_HEAD, GIT_STATUS]);
}

#[test]
fn a_restoration_never_overwrites_a_file() {
    let mut workspace = Workspace::new();
    workspace.files.insert("b".to_string(), b"mine".to_vec());
    assert_eq!(
        workspace.restore(&snapshot("patch", vec![file("a", ""), file("b", "")])),
        validation("Round replay refuses to overwrite existing untracked file: b")
    );
    assert_eq!(workspace.files.len(), 1);
}

#[test]
fn a_probe_that_fails_ends_the_restoration() {
    let mut workspace = Workspace::new();
    assert_eq!(
        workspace.restore(&snapshot("", vec![file("unknown", "")])),
        io("disk on fire")
    );
}

#[test]
fn a_bad_payload_is_found_before_anything_is_written() {
    let mut workspace = Workspace::new();
    let error = workspace
        .restore(&snapshot("patch", vec![file("a", "YQ=="), file("b", "?")]))
        .expect_err("bad payload");
    let BitFunError::Validation(message) = error else {
        panic!("expected a validation error");
    };
    assert!(message.starts_with("Invalid base64 for checkpoint file b: "), "{message}");
    assert!(workspace.files.is_empty());
}

#[test]
fn payload_reports_name_the_first_file() {
    let files = vec![file("a", ""), file("b", ""), file("c", "")];
    let payloads = vec![Ok(Vec::new()), Err("first".to_string()), Err("second".to_string())];
    assert_eq!(
        check_payloads(&files, &payloads),
        validation("Invalid base64 for checkpoint file b: first")
    );
    assert_eq!(check_payloads(&files, &vec![Ok(vec![1]), Ok(vec![2]), Ok(vec![3])]), Ok(()));
}

#[test]
fn given_payloads_are_what_is_written() {
    let (mut restore, mut step) =
        WorkspaceRestore::with_payloads(
            PathStyle::Unix,
            snapshot("", vec![file("a", "?")]),
            vec![Ok(vec![7])],
        );
    let mut workspace = Workspace::new();
    let result = loop {
        match step {
            Step::Finish(result) => break result,
            Step::Ask(request) => {
                let next = restore_workspace_snapshot(restore, workspace.answer(request));
                restore = next.0;
                step = next.1;
            }
        }
    };
    assert_eq!(result, Ok(()));
    assert_eq!(workspace.files.get("a"), Some(&vec![7]));
}

#[test]
fn an_unsafe_snapshot_is_refused_before_anything_is_asked() {
    let mut workspace = Workspace::new();
    assert_eq!(
        workspace.restore(&snapshot("", vec![file("/etc/passwd", "")])),
        validation("Unsafe checkpoint workspace path: /etc/passwd")
    );
    assert!(workspace.asked.is_empty());
}

#[test]
fn an_empty_patch_is_not_applied() {
    let mut workspace = Workspace::new();
    assert_eq!(workspace.restore(&snapshot("", vec![file("a", "YQ==")])), Ok(()));
    assert_eq!(workspace.asked, vec![GIT_HEAD, GIT_STATUS, "probe a", "write a"]);
}

#[test]
fn a_patch_that_cannot_be_staged_ends_the_restoration() {
    let mut workspace = Workspace::new();
    workspace.unwritable = Some(PATCH_FILE.to_string());
    assert_eq!(
        workspace.restore(&snapshot("patch", vec![file("a", "YQ==")])),
        io("Failed to stage round replay patch: read-only")
    );
    assert!(workspace.files.is_empty());
}

#[test]
fn a_failed_write_is_rolled_back_and_reported() {
    let mut workspace = Workspace::new();
    workspace.unwritable = Some("b".to_string());
    let files = vec![file("a", "YQ=="), file("b", "Yg=="), file("c", "Yw==")];
    assert_eq!(
        workspace.restore(&snapshot("", files.clone())),
        io("Failed to restore checkpoint file b: read-only; rollback=ok")
    );
    assert_eq!(workspace.asked.last(), Some(&format!("roll back: {GIT_ROLL_BACK}")));
    assert!(!workspace.files.contains_key("c"));

    let mut workspace = Workspace::new();
    workspace.unwritable = Some("a".to_string());
    workspace.rollback = Err("locked".to_string());
    assert_eq!(
        workspace.restore(&snapshot("", files)),
        io("Failed to restore checkpoint file a: read-only; rollback=failed: \
            Workspace git command failed: locked")
    );
}

#[test]
fn roll_back_outcomes_are_reported() {
    assert_eq!(rollback_workspace_restore(printed("HEAD is now at 0123456")), "ok");
    assert_eq!(
        rollback_workspace_restore(Err("x".to_string())),
        "failed: Workspace git command failed: x"
    );
    let refused =
        ShellOutput { stdout: String::new(), stderr: "fatal\n".to_string(), exit_code: 128 };
    assert_eq!(
        rollback_workspace_restore(Ok(refused)),
        "failed: Workspace git command failed with exit code 128: fatal"
    );
}

#[test]
fn listings_are_split_at_nul_characters() {
    let listing = "\0a\0\0b c\0d";
    let expected: Vec<String> =
        listing.split('\0').filter(|name| !name.is_empty()).map(str::to_string).collect();
    assert_eq!(split_names(listing), expected);
    assert!(split_names("").is_empty());
}

#[test]
fn a_capture_refuses_the_paths_of_its_style() {
    for (style, accepted) in [(PathStyle::Unix, true), (PathStyle::Windows, false)] {
        let mut workspace = Workspace::new();
        workspace.listing = "..\\up\0".to_string();
        workspace.files.insert("..\\up".to_string(), Vec::new());
        let (mut capture, mut step) = WorkspaceCapture::new(style);
        let result = loop {
            match step {
                Step::Finish(result) => break result,
                Step::Ask(request) => {
                    let next = capture_workspace_snapshot(capture, workspace.answer(request));
                    capture = next.0;
                    step = next.1;
                }
            }
        };
        assert_eq!(result.is_ok(), accepted);
        let (_, step) =
            WorkspaceRestore::new(style, snapshot("", vec![file("..\\up", "")]));
        assert_eq!(matches!(step, Step::Ask(_)), accepted);
    }
}
