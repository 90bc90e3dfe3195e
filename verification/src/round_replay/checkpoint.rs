//! The checkpoint itself: what it holds and when it may be replayed.

use crate::error::{BitFunError, BitFunResult, ErrorView};
use crate::message::Message;
use crate::ordering::{Keyed, TextKeyed};
use crate::round_replay::paths;
use crate::round_replay::paths::{invalid, validate_commit, PathStyle};
use crate::text;
use crate::text::{decimal_text, same_text, trim};
use vstd::prelude::*;

verus! {

pub const ROUND_REPLAY_CHECKPOINT_VERSION: u32 = 2;

pub const ROUND_REPLAY_START_CONTEXT_KEY: &'static str = "eval_round_replay_start";

pub const ROUND_REPLAY_ARTIFACT_SESSION_CONTEXT_KEY: &'static str =
    "eval_round_replay_artifact_session_id";

pub const ROUND_REPLAY_METADATA_KEY: &'static str = "bitfun_eval_round_replay";

pub const ROUND_CHECKPOINT_RECORD_ENV: &'static str = "BITFUN_EVAL_RECORD_ROUND_CHECKPOINTS";

pub const ROUND_REPLAY_CHECKPOINT_ENV: &'static str = "BITFUN_EVAL_REPLAY_CHECKPOINT";

/// The most bytes that a snapshot, or the artifacts of a session, may hold.
pub const MAX_CHECKPOINT_BYTES: usize = 64 * 1024 * 1024;

/// Everything that is needed to run one round of a conversation again.
#[derive(Debug, Clone)]
pub struct RoundReplayCheckpoint {
    pub version: u32,
    pub source_session_id: String,
    pub source_turn_id: String,
    pub source_turn_index: usize,
    pub round_index: usize,
    pub artifact_session_id: Option<String>,
    pub agent_type: String,
    pub original_user_input: String,
    pub primary_model_id: String,
    pub session_max_context_tokens: Option<usize>,
    pub messages: Vec<Message>,
    pub workspace: RoundWorkspaceSnapshot,
    pub session_artifacts: Vec<RoundSessionArtifact>,
}

/// A workspace as its difference from a commit.
#[derive(Debug, Clone, PartialEq, Eq)]
pub struct RoundWorkspaceSnapshot {
    pub baseline_commit: String,
    pub tracked_patch: String,
    pub untracked_files: Vec<RoundWorkspaceFile>,
}

/// A file that the commit does not know.
#[derive(Debug, Clone, PartialEq, Eq)]
pub struct RoundWorkspaceFile {
    pub relative_path: String,
    pub contents_base64: String,
}

/// A file that a session wrote beside the workspace.
#[derive(Debug, Clone, PartialEq, Eq)]
pub struct RoundSessionArtifact {
    pub relative_path: String,
    pub contents_base64: String,
}

/// A stored file: where it belongs and its base64 contents.
pub struct StoredFile {
    pub path: Seq<char>,
    pub payload: Seq<char>,
}

pub struct SnapshotView {
    pub baseline_commit: Seq<char>,
    pub tracked_patch: Seq<char>,
    pub untracked_files: Seq<StoredFile>,
}

impl View for RoundWorkspaceFile {
    type V = StoredFile;

    open spec fn view(&self) -> StoredFile {
        StoredFile { path: self.relative_path@, payload: self.contents_base64@ }
    }
}

impl View for RoundSessionArtifact {
    type V = StoredFile;

    open spec fn view(&self) -> StoredFile {
        StoredFile { path: self.relative_path@, payload: self.contents_base64@ }
    }
}

impl Keyed for StoredFile {
    open spec fn key(&self) -> Seq<char> {
        self.path
    }
}

impl Keyed for RoundSessionArtifact {
    open spec fn key(&self) -> Seq<char> {
        self.relative_path@
    }
}

impl TextKeyed for RoundSessionArtifact {
    fn key_text(&self) -> (text: &str) {
        self.relative_path.as_str()
    }
}

impl View for RoundWorkspaceSnapshot {
    type V = SnapshotView;

    open spec fn view(&self) -> SnapshotView {
        SnapshotView {
            baseline_commit: self.baseline_commit@,
            tracked_patch: self.tracked_patch@,
            untracked_files: stored_files(self.untracked_files@),
        }
    }
}

pub open spec fn stored_files(files: Seq<RoundWorkspaceFile>) -> Seq<StoredFile> {
    files.map_values(|file: RoundWorkspaceFile| file@)
}

pub open spec fn stored_artifacts(artifacts: Seq<RoundSessionArtifact>) -> Seq<StoredFile> {
    artifacts.map_values(|artifact: RoundSessionArtifact| artifact@)
}

/// The error of the first file whose path leaves the workspace.
pub open spec fn workspace_files_error(style: PathStyle, files: Seq<StoredFile>) -> Option<
    ErrorView,
> {
    ErrorView::first(
        files.map_values(|file: StoredFile| paths::workspace_path_error(style, file.path)),
    )
}

/// The error of the first artifact whose path is not an artifact path.
pub open spec fn artifacts_error(style: PathStyle, artifacts: Seq<StoredFile>) -> Option<
    ErrorView,
> {
    ErrorView::first(
        artifacts.map_values(
            |artifact: StoredFile| paths::artifact_path_error(style, artifact.path),
        ),
    )
}

impl SnapshotView {
    /// Why the snapshot cannot be restored anywhere, if so.
    pub open spec fn error(self, style: PathStyle) -> Option<ErrorView> {
        match paths::commit_error(self.baseline_commit) {
            Some(error) => Some(error),
            None => workspace_files_error(style, self.untracked_files),
        }
    }
}

/// What was found where a checkpoint should be.
pub enum CheckpointRead {
    /// The file could not be read.
    Unreadable(String),
    /// The file does not hold a checkpoint.
    Malformed(String),
    Parsed(RoundReplayCheckpoint),
}

impl RoundReplayCheckpoint {
    pub open spec fn is_supported_version(&self) -> bool {
        1 <= self.version <= ROUND_REPLAY_CHECKPOINT_VERSION
    }

    pub open spec fn is_identified(&self) -> bool {
        &&& !text::is_blank(self.source_session_id@)
        &&& !text::is_blank(self.source_turn_id@)
        &&& !text::is_blank(self.agent_type@)
        &&& !text::is_blank(self.primary_model_id@)
    }

    pub open spec fn has_blank_artifact_session(&self) -> bool {
        self.artifact_session_id matches Some(id) && text::is_blank(id@)
    }

    /// Why the checkpoint cannot be replayed: the first of its checks that fails.
    pub open spec fn error(&self, style: PathStyle) -> Option<ErrorView> {
        if !self.is_supported_version() {
            Some(
                ErrorView::Validation(
                    "Unsupported round replay checkpoint version: "@ + text::decimal(
                        self.version as nat,
                    ),
                ),
            )
        } else if !self.is_identified() {
            Some(
                ErrorView::Validation(
                    "Round replay checkpoint is missing required identity fields"@,
                ),
            )
        } else if self.has_blank_artifact_session() {
            Some(
                ErrorView::Validation("Round replay checkpoint has an empty artifact session id"@),
            )
        } else if self.messages@.len() == 0 {
            Some(
                ErrorView::Validation("Round replay checkpoint contains no model-visible messages"@),
            )
        } else {
            match self.workspace@.error(style) {
                Some(error) => Some(error),
                None => artifacts_error(style, stored_artifacts(self.session_artifacts@)),
            }
        }
    }

    /// What comes of a checkpoint that was read from `path`.
    pub open spec fn is_loaded(
        style: PathStyle,
        path: Seq<char>,
        read: CheckpointRead,
        result: BitFunResult<Self>,
    ) -> bool {
        match read {
            CheckpointRead::Unreadable(reason) => ErrorView::of(result) == Some(
                ErrorView::Io("Failed to read round replay checkpoint "@ + path + ": "@ + reason@),
            ),
            CheckpointRead::Malformed(reason) => ErrorView::of(result) == Some(
                ErrorView::Validation(
                    "Invalid round replay checkpoint "@ + path + ": "@ + reason@,
                ),
            ),
            CheckpointRead::Parsed(checkpoint) => match checkpoint.error(style) {
                Some(error) => ErrorView::of(result) == Some(error),
                None => result == Ok::<Self, BitFunError>(checkpoint),
            },
        }
    }

    /// Accepts a checkpoint that was read from `path` and may be replayed on the system
    /// that this runs on.
    pub fn load(path: &str, read: CheckpointRead) -> (result: BitFunResult<Self>)
        ensures
            Self::is_loaded(PathStyle::Unix, path@, read, result) || Self::is_loaded(
                PathStyle::Windows,
                path@,
                read,
                result,
            ),
    {
        Self::load_for(PathStyle::host(), path, read)
    }

    /// Accepts a checkpoint that was read from `path` and may be replayed where paths
    /// have the given style.
    pub fn load_for(style: PathStyle, path: &str, read: CheckpointRead) -> (result: BitFunResult<
        Self,
    >)
        ensures
            Self::is_loaded(style, path@, read, result),
    {
        match read {
            CheckpointRead::Unreadable(reason) => {
                let mut message = "Failed to read round replay checkpoint ".to_string();
                message.append(path);
                message.append(": ");
                message.append(reason.as_str());
                Err(BitFunError::Io(message))
            },
            CheckpointRead::Malformed(reason) => {
                let mut message = "Invalid round replay checkpoint ".to_string();
                message.append(path);
                message.append(": ");
                message.append(reason.as_str());
                Err(BitFunError::Validation(message))
            },
            CheckpointRead::Parsed(checkpoint) => {
                match checkpoint.validate_for(style) {
                    Ok(()) => Ok(checkpoint),
                    Err(error) => Err(error),
                }
            },
        }
    }

    /// Checks that the checkpoint can be replayed on the system that this runs on, and
    /// reports the first thing that is wrong.
    pub fn validate(&self) -> (result: BitFunResult<()>)
        ensures
            ErrorView::of(result) == self.error(PathStyle::Unix) || ErrorView::of(result)
                == self.error(PathStyle::Windows),
    {
        self.validate_for(PathStyle::host())
    }

    /// Checks that the checkpoint can be replayed where paths have the given style, and
    /// reports the first thing that is wrong.
    pub fn validate_for(&self, style: PathStyle) -> (result: BitFunResult<()>)
        ensures
            ErrorView::of(result) == self.error(style),
    {
        if self.version == 0 || self.version > ROUND_REPLAY_CHECKPOINT_VERSION {
            let version = decimal_text(self.version as u64);
            return Err(invalid("Unsupported round replay checkpoint version: ", version.as_str()));
        }
        if is_blank_text(self.source_session_id.as_str()) || is_blank_text(
            self.source_turn_id.as_str(),
        ) || is_blank_text(self.agent_type.as_str()) || is_blank_text(
            self.primary_model_id.as_str(),
        ) {
            return Err(
                BitFunError::Validation(
                    "Round replay checkpoint is missing required identity fields".to_string(),
                ),
            );
        }
        if let Some(id) = &self.artifact_session_id {
            if is_blank_text(id.as_str()) {
                return Err(
                    BitFunError::Validation(
                        "Round replay checkpoint has an empty artifact session id".to_string(),
                    ),
                );
            }
        }
        if self.messages.is_empty() {
            return Err(
                BitFunError::Validation(
                    "Round replay checkpoint contains no model-visible messages".to_string(),
                ),
            );
        }
        self.workspace.validate(style)?;
        validate_artifact_paths(style, &self.session_artifacts)
    }
}

impl RoundWorkspaceSnapshot {
    /// Checks the commit and the paths that the snapshot names.
    pub fn validate(&self, style: PathStyle) -> (result: BitFunResult<()>)
        ensures
            ErrorView::of(result) == self@.error(style),
    {
        validate_commit(self.baseline_commit.as_str())?;
        let ghost checks = self@.untracked_files.map_values(
            |file: StoredFile| paths::workspace_path_error(style, file.path),
        );
        let mut i: usize = 0;
        while i < self.untracked_files.len()
            invariant
                i <= self.untracked_files.len(),
                self@.error(style) == ErrorView::first(checks),
                checks == self@.untracked_files.map_values(
                    |file: StoredFile| paths::workspace_path_error(style, file.path),
                ),
                forall|j: int| 0 <= j < i ==> (#[trigger] checks[j]) is None,
            decreases self.untracked_files.len() - i,
        {
            match style.validate_relative_path(self.untracked_files[i].relative_path.as_str()) {
                Ok(()) => {},
                Err(error) => {
                    proof {
                        crate::error::lemma_first_error_at(checks, i as int);
                    }
                    return Err(error);
                },
            }
            i += 1;
        }
        proof {
            crate::error::lemma_first_error_none(checks);
        }
        Ok(())
    }
}

fn validate_artifact_paths(
    style: PathStyle,
    artifacts: &Vec<RoundSessionArtifact>,
) -> (result: BitFunResult<()>)
    ensures
        ErrorView::of(result) == artifacts_error(style, stored_artifacts(artifacts@)),
{
    let ghost checks = stored_artifacts(artifacts@).map_values(
        |artifact: StoredFile| paths::artifact_path_error(style, artifact.path),
    );
    let mut i: usize = 0;
    while i < artifacts.len()
        invariant
            i <= artifacts.len(),
            checks == stored_artifacts(artifacts@).map_values(
                |artifact: StoredFile| paths::artifact_path_error(style, artifact.path),
            ),
            forall|j: int| 0 <= j < i ==> (#[trigger] checks[j]) is None,
        decreases artifacts.len() - i,
    {
        match style.validate_session_artifact_path(artifacts[i].relative_path.as_str()) {
            Ok(()) => {},
            Err(error) => {
                proof {
                    crate::error::lemma_first_error_at(checks, i as int);
                }
                return Err(error);
            },
        }
        i += 1;
    }
    proof {
        crate::error::lemma_first_error_none(checks);
    }
    Ok(())
}

fn is_blank_text(value: &str) -> (blank: bool)
    ensures
        blank == text::is_blank(value@),
{
    proof {
        text::lemma_trimmed_empty_iff_blank(value@);
    }
    trim(value).is_empty()
}

/// The settings that switch checkpoint recording on.
pub open spec fn is_affirmative(value: Seq<char>) -> bool {
    ||| value == "1"@
    ||| value == "true"@
    ||| value == "TRUE"@
    ||| value == "yes"@
    ||| value == "YES"@
}

/// Whether the value of the recording variable, if it is set, asks for recording.
pub fn checkpoint_recording_enabled(value: Option<&str>) -> (enabled: bool)
    ensures
        enabled == (value matches Some(setting) && is_affirmative(text::trimmed(setting@))),
{
    match value {
        None => false,
        Some(setting) => {
            let setting = trim(setting);
            same_text(setting, "1") || same_text(setting, "true") || same_text(setting, "TRUE")
                || same_text(setting, "yes") || same_text(setting, "YES")
        },
    }
}

pub open spec fn size_error(bytes: nat) -> ErrorView {
    ErrorView::Validation(
        "Round replay checkpoint workspace snapshot exceeds "@ + text::decimal(
            MAX_CHECKPOINT_BYTES as nat,
        ) + " bytes (captured "@ + text::decimal(bytes) + ")"@,
    )
}

/// The error for a capture that grew to `bytes`.
pub fn checkpoint_size_error(bytes: usize) -> (error: BitFunError)
    ensures
        error@ == size_error(bytes as nat),
{
    let mut message = "Round replay checkpoint workspace snapshot exceeds ".to_string();
    let limit = decimal_text(MAX_CHECKPOINT_BYTES as u64);
    message.append(limit.as_str());
    message.append(" bytes (captured ");
    let captured = decimal_text(bytes as u64);
    message.append(captured.as_str());
    message.append(")");
    BitFunError::Validation(message)
}

} // verus!
