//! Checkpoints of a model round, and their capture and restoration.

pub mod artifact_capture;
pub mod artifact_restore;
pub mod artifact_round_trip;
pub mod capture;
pub mod checkpoint;
pub mod history;
pub mod paths;
pub mod payload;
pub mod restore;
pub mod session;
pub mod step;
pub mod workspace;

pub use checkpoint::{
    checkpoint_recording_enabled, checkpoint_size_error, CheckpointRead, RoundReplayCheckpoint,
    RoundSessionArtifact, RoundWorkspaceFile, RoundWorkspaceSnapshot, SnapshotView, StoredFile,
    MAX_CHECKPOINT_BYTES, ROUND_CHECKPOINT_RECORD_ENV, ROUND_REPLAY_ARTIFACT_SESSION_CONTEXT_KEY,
    ROUND_REPLAY_CHECKPOINT_ENV, ROUND_REPLAY_CHECKPOINT_VERSION, ROUND_REPLAY_METADATA_KEY,
    ROUND_REPLAY_START_CONTEXT_KEY,
};
pub use history::normalize_routed_model_history;
pub use paths::{
    validate_commit, validate_relative_path, validate_session_artifact_path, PathStyle,
};
