use agent_runtime::error::BitFunError;
use agent_runtime::round_replay::artifact_capture::{capture_session_artifacts, ArtifactCapture};
use agent_runtime::round_replay::artifact_restore::{
    check_artifacts, restore_session_artifacts, ArtifactRestore,
};
use agent_runtime::round_replay::session::{
    DirectoryEntry, EntryKind, PathFailure, SessionReply, SessionRequest,
};
use agent_runtime::round_replay::step::Step;
use agent_runtime::round_replay::{PathStyle, RoundSessionArtifact, MAX_CHECKPOINT_BYTES};
use std::collections::{BTreeMap, BTreeSet};

/// A session directory in memory that notes every change it is asked for.
struct Session {
    files: BTreeMap<String, Vec<u8>>,
    handles: Vec<String>,
    listing: Vec<DirectoryEntry>,
    broken: Option<String>,
    odd_entries: Vec<DirectoryEntry>,
    entry_error: bool,
    asked: Vec<String>,
}

impl Session {
    fn new() -> Self {
        Session {
            files: BTreeMap::new(),
            handles: Vec::new(),
            listing: Vec::new(),
            broken: None,
            odd_entries: Vec::new(),
            entry_error: false,
            asked: Vec::new(),
        }
    }

    fn with(mut self, path: &str, contents: &[u8]) -> Self {
        self.files.insert(path.to_string(), contents.to_vec());
        self
    }

    fn handle(&mut self, path: String) -> usize {
        self.handles.push(path);
        self.handles.len() - 1
    }

    fn failure(&self, path: &str) -> Option<PathFailure> {
        if self.broken.as_deref() == Some(path) {
            Some(PathFailure { path: format!("/session/{path}"), reason: "broken".to_string() })
        } else {
            None
        }
    }

    fn list(&mut self, directory: &str) {
        let prefix = format!("{directory}/");
        let mut names: BTreeSet<(String, bool)> = BTreeSet::new();
        for path in self.files.keys() {
            if let Some(rest) = path.strip_prefix(&prefix) {
                match rest.split_once('/') {
                    Some((name, _)) => names.insert((format!("{prefix}{name}"), true)),
                    None => names.insert((path.clone(), false)),
                };
            }
        }
        let mut entries = Vec::new();
        for (path, is_directory) in names {
            let handle = self.handle(path.clone());
            let kind = if is_directory { EntryKind::Directory } else { EntryKind::File };
            entries.push(DirectoryEntry { handle, kind: Ok(kind), relative_path: Ok(path) });
        }
        entries.append(&mut self.odd_entries);
        self.listing = entries;
    }

    fn answer(&mut self, request: SessionRequest) -> SessionReply {
        match request {
            SessionRequest::FindRoot(root) => {
                let prefix = format!("{root}/");
                let found = self.files.keys().any(|path| path.starts_with(&prefix));
                SessionReply::Root(if found { Some(self.handle(root.to_string())) } else { None })
            }
            SessionRequest::OpenDirectory(handle) => {
                let directory = self.handles[handle].clone();
                self.asked.push(format!("open {directory}"));
                match self.failure(&directory) {
                    Some(failure) => SessionReply::Opened(Err(failure)),
                    None => {
                        self.list(&directory);
                        SessionReply::Opened(Ok(()))
                    }
                }
            }
            SessionRequest::NextEntry => {
                if self.entry_error {
                    SessionReply::Entry(Err("lost".to_string()))
                } else {
                    SessionReply::Entry(Ok(self.listing.pop()))
                }
            }
            SessionRequest::ReadFile(handle) => {
                let path = self.handles[handle].clone();
                match self.failure(&path) {
                    Some(failure) => SessionReply::Contents(Err(failure)),
                    None => SessionReply::Contents(Ok(self.files[&path].clone())),
                }
            }
            SessionRequest::ProbeFile(path) => SessionReply::Exists(self.files.contains_key(&path)),
            SessionRequest::CreateParent(path) => {
                self.asked.push(format!("parent {path}"));
                let parent = path[..path.rfind('/').expect("separator")].to_string();
                match self.failure(&parent) {
                    Some(failure) => SessionReply::ParentCreated(Err(failure)),
                    None => SessionReply::ParentCreated(Ok(())),
                }
            }
            SessionRequest::WriteFile(path, contents) => {
                self.asked.push(format!("write {path}"));
                match self.failure(&path) {
                    Some(failure) => SessionReply::Written(Err(failure.reason)),
                    None => {
                        self.files.insert(path, contents);
                        SessionReply::Written(Ok(()))
                    }
                }
            }
            SessionRequest::RemoveFile(path) => {
                self.asked.push(format!("remove {path}"));
                self.files.remove(&path);
                SessionReply::Removed
            }
        }
    }

    fn capture(&mut self) -> Result<Vec<RoundSessionArtifact>, BitFunError> {
        let (mut capture, mut step) = ArtifactCapture::new(PathStyle::host());
        loop {
            match step {
                Step::Finish(result) => return result,
                Step::Ask(request) => {
                    let next = capture_session_artifacts(capture, self.answer(request));
                    capture = next.0;
                    step = next.1;
                }
            }
        }
    }

    fn restore(&mut self, artifacts: &[RoundSessionArtifact]) -> Result<(), BitFunError> {
        let (mut restore, mut step) = ArtifactRestore::new(PathStyle::host(), artifacts.to_vec());
        loop {
            match step {
                Step::Finish(result) => return result,
                Step::Ask(request) => {
                    let next = restore_session_artifacts(restore, self.answer(request));
                    restore = next.0;
                    step = next.1;
                }
            }
        }
    }
}

fn artifact(path: &str, contents_base64: &str) -> RoundSessionArtifact {
    RoundSessionArtifact {
        relative_path: path.to_string(),
        contents_base64: contents_base64.to_string(),
    }
}

fn validation<T>(message: &str) -> Result<T, BitFunError> {
    Err(BitFunError::Validation(message.to_string()))
}

fn io<T>(message: &str) -> Result<T, BitFunError> {
    Err(BitFunError::Io(message.to_string()))
}

#[test]
fn session_artifacts_round_trip_only_supported_directories() {
    let mut source = Session::new()
        .with("tool-results/result.txt", b"complete output")
        .with("turns/turn.json", b"ignored");

    let artifacts = source.capture().expect("capture artifacts");
    assert_eq!(artifacts.len(), 1);
    assert_eq!(artifacts[0].relative_path, "tool-results/result.txt");

    let mut destination = Session::new();
    destination.restore(&artifacts).expect("restore artifacts");
    assert_eq!(
        destination.files.get("tool-results/result.txt").expect("read restored artifact"),
        b"complete output"
    );
    assert!(destination.restore(&artifacts).is_err());
}

#[test]
fn a_capture_walks_every_directory_and_sorts_by_path() {
    let mut session = Session::new()
        .with("tool-results/z.txt", b"z")
        .with("tool-results/sub/deep/b.txt", b"b")
        .with("tool-results/sub/a.txt", b"a")
        .with("tool-results/other/c.txt", b"c")
        .with("artifacts/compression-transcripts/t.json", b"t");
    let artifacts = session.capture().expect("capture artifacts");
    let expected = vec![
        artifact("artifacts/compression-transcripts/t.json", "dA=="),
        artifact("tool-results/other/c.txt", "Yw=="),
        artifact("tool-results/sub/a.txt", "YQ=="),
        artifact("tool-results/sub/deep/b.txt", "Yg=="),
        artifact("tool-results/z.txt", "eg=="),
    ];
    assert_eq!(artifacts, expected);
    assert_eq!(session.asked.len(), 5);
    assert_eq!(session.asked[0], "open tool-results");
    assert_eq!(session.asked[4], "open artifacts/compression-transcripts");

    let mut target = Session::new();
    assert_eq!(target.restore(&artifacts), Ok(()));
    assert_eq!(target.files, session.files);
    assert_eq!(target.capture(), Ok(artifacts));
}

#[test]
fn a_session_without_artifact_directories_has_no_artifacts() {
    assert_eq!(Session::new().with("turns/turn.json", b"x").capture(), Ok(Vec::new()));
}

#[test]
fn other_entries_are_passed_over() {
    let mut session = Session::new().with("tool-results/a", b"a");
    session.odd_entries.push(DirectoryEntry {
        handle: 99,
        kind: Ok(EntryKind::Other),
        relative_path: Err("unused".to_string()),
    });
    assert_eq!(session.capture(), Ok(vec![artifact("tool-results/a", "YQ==")]));
}

#[test]
fn backslashes_in_reported_paths_become_separators() {
    let mut session = Session::new().with("tool-results/sub\\a.txt", b"a");
    assert_eq!(session.capture(), Ok(vec![artifact("tool-results/sub/a.txt", "YQ==")]));
}

#[test]
fn every_failure_of_a_capture_is_reported() {
    let mut session = Session::new().with("tool-results/a", b"a");
    session.broken = Some("tool-results".to_string());
    assert_eq!(
        session.capture(),
        io("Failed to enumerate round replay session artifacts /session/tool-results: broken")
    );

    let mut session = Session::new().with("tool-results/a", b"a");
    session.broken = Some("tool-results/a".to_string());
    assert_eq!(
        session.capture(),
        io("Failed to read session artifact /session/tool-results/a: broken")
    );

    let mut session = Session::new().with("tool-results/a", b"a");
    session.entry_error = true;
    assert_eq!(session.capture(), io("Failed to read session artifact entry: lost"));

    let mut session = Session::new().with("tool-results/a", b"a");
    session.odd_entries.push(DirectoryEntry {
        handle: 0,
        kind: Err("no type".to_string()),
        relative_path: Ok("tool-results/x".to_string()),
    });
    assert_eq!(session.capture(), io("Failed to inspect session artifact: no type"));

    let mut session = Session::new().with("tool-results/a", b"a");
    session.odd_entries.push(DirectoryEntry {
        handle: 0,
        kind: Ok(EntryKind::File),
        relative_path: Err("prefix not found".to_string()),
    });
    assert_eq!(session.capture(), validation("prefix not found"));

    let mut session = Session::new().with("tool-results/a", b"a");
    session.odd_entries.push(DirectoryEntry {
        handle: 0,
        kind: Ok(EntryKind::File),
        relative_path: Ok("elsewhere/a".to_string()),
    });
    assert_eq!(
        session.capture(),
        validation("Unsupported round replay session artifact path: elsewhere/a")
    );
}

#[test]
fn too_many_artifact_bytes_are_refused() {
    let mut session = Session::new().with("tool-results/a", b"x");
    session.files.insert("tool-results/b".to_string(), vec![0; MAX_CHECKPOINT_BYTES]);
    assert_eq!(
        session.capture(),
        validation(
            "Round replay checkpoint workspace snapshot exceeds 67108864 bytes (captured 67108865)"
        )
    );
}

#[test]
fn an_existing_artifact_stops_the_restoration_before_any_change() {
    let mut session = Session::new().with("tool-results/b", b"mine");
    assert_eq!(
        session.restore(&[artifact("tool-results/a", "YQ=="), artifact("tool-results/b", "Yg==")]),
        validation("Round replay refuses to overwrite existing session artifact: tool-results/b")
    );
    assert!(session.asked.is_empty());
}

#[test]
fn unfit_artifacts_are_refused_in_order() {
    let mut session = Session::new();
    assert_eq!(
        session.restore(&[artifact("tool-results/a", "YQ=="), artifact("turns/b", "?")]),
        validation("Unsupported round replay session artifact path: turns/b")
    );
    let error = session
        .restore(&[artifact("tool-results/a", "?"), artifact("turns/b", "")])
        .expect_err("bad payload");
    let BitFunError::Validation(message) = error else {
        panic!("expected a validation error");
    };
    assert!(
        message.starts_with("Invalid base64 for session artifact tool-results/a: "),
        "{message}"
    );
    assert!(session.asked.is_empty());
}

#[test]
fn artifact_reports_name_the_first_unfit_artifact() {
    let artifacts = vec![artifact("tool-results/a", ""), artifact("tool-results/b", "")];
    assert_eq!(
        check_artifacts(PathStyle::Unix, &artifacts, &vec![Ok(vec![1]), Err("odd".to_string())]),
        validation("Invalid base64 for session artifact tool-results/b: odd")
    );
    assert_eq!(check_artifacts(PathStyle::Unix, &artifacts, &vec![Ok(vec![1]), Ok(vec![2])]), Ok(()));
}

#[test]
fn a_directory_that_cannot_be_created_ends_the_restoration() {
    let mut session = Session::new();
    session.broken = Some("tool-results/sub".to_string());
    assert_eq!(
        session.restore(&[
            artifact("tool-results/a", "YQ=="),
            artifact("tool-results/sub/b", "Yg==")
        ]),
        io("Failed to create session artifact directory /session/tool-results/sub: broken")
    );
    assert!(session.files.is_empty());
}

#[test]
fn a_failed_artifact_write_removes_what_was_written_last_first() {
    let mut session = Session::new();
    session.broken = Some("tool-results/c".to_string());
    let artifacts = [
        artifact("tool-results/a", "YQ=="),
        artifact("tool-results/b", "Yg=="),
        artifact("tool-results/c", "Yw=="),
    ];
    assert_eq!(
        session.restore(&artifacts),
        io("Failed to restore session artifact tool-results/c: broken")
    );
    assert_eq!(
        session.asked[3..],
        [
            "write tool-results/a",
            "write tool-results/b",
            "write tool-results/c",
            "remove tool-results/b",
            "remove tool-results/a",
        ]
    );
    assert!(session.files.is_empty());
}
