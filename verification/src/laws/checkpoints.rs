//! Promises about checkpoints: which are accepted, and what is told of the others.

use crate::error::{BitFunError, BitFunResult, ErrorView};
use crate::round_replay::capture;
use crate::round_replay::checkpoint;
use crate::round_replay::checkpoint::{
    CheckpointRead, RoundReplayCheckpoint, RoundSessionArtifact, RoundWorkspaceSnapshot,
    StoredFile,
};
use crate::round_replay::paths;
use crate::round_replay::paths::PathStyle;
use crate::text;
use vstd::prelude::*;

verus! {

/// Some character of the text is not white space.
pub open spec fn is_visible(value: Seq<char>) -> bool {
    exists|i: int| 0 <= i < value.len() && !text::is_white_space(#[trigger] value[i])
}

/// An error is its kind and its message, and a result holds its error or none.
pub proof fn lemma_errors_are_kind_and_message<T>(value: T, message: String)
    ensures
        BitFunError::Validation(message)@ == ErrorView::Validation(message@),
        BitFunError::Io(message)@ == ErrorView::Io(message@),
        ErrorView::Validation(message@).message() == message@,
        ErrorView::Io(message@).message() == message@,
        ErrorView::of(Ok::<T, BitFunError>(value)) is None,
        ErrorView::of(Err::<T, BitFunError>(BitFunError::Validation(message))) == Some(
            ErrorView::Validation(message@),
        ),
        ErrorView::of(Err::<T, BitFunError>(BitFunError::Io(message))) == Some(
            ErrorView::Io(message@),
        ),
{
}

/// A snapshot is its commit, its whole patch and all its files in order, each with its
/// path and its payload; artifacts are their paths and payloads.
pub proof fn lemma_snapshots_keep_everything(
    snapshot: RoundWorkspaceSnapshot,
    artifacts: Seq<RoundSessionArtifact>,
)
    ensures
        snapshot@.baseline_commit == snapshot.baseline_commit@,
        snapshot@.tracked_patch == snapshot.tracked_patch@,
        snapshot@.untracked_files.len() == snapshot.untracked_files@.len(),
        forall|i: int|
            0 <= i < snapshot.untracked_files@.len() ==> {
                &&& (#[trigger] snapshot@.untracked_files[i]).path
                    == snapshot.untracked_files@[i].relative_path@
                &&& snapshot@.untracked_files[i].payload
                    == snapshot.untracked_files@[i].contents_base64@
            },
        checkpoint::stored_artifacts(artifacts).len() == artifacts.len(),
        forall|i: int|
            0 <= i < artifacts.len() ==> {
                &&& (#[trigger] checkpoint::stored_artifacts(artifacts)[i]).path
                    == artifacts[i].relative_path@
                &&& checkpoint::stored_artifacts(artifacts)[i].payload
                    == artifacts[i].contents_base64@
            },
{
}

proof fn lemma_files_error(style: PathStyle, files: Seq<StoredFile>)
    ensures
        checkpoint::workspace_files_error(style, files) is None <==> forall|i: int|
            0 <= i < files.len() ==> paths::workspace_path_error(
                style,
                (#[trigger] files[i]).path,
            ) is None,
        checkpoint::artifacts_error(style, files) is None <==> forall|i: int|
            0 <= i < files.len() ==> paths::artifact_path_error(
                style,
                (#[trigger] files[i]).path,
            ) is None,
{
    let checks = files.map_values(|file: StoredFile| paths::workspace_path_error(style, file.path));
    crate::error::lemma_first_error_none(checks);
    let others = files.map_values(|file: StoredFile| paths::artifact_path_error(style, file.path));
    crate::error::lemma_first_error_none(others);
    if checkpoint::workspace_files_error(style, files) is None {
        assert forall|i: int| 0 <= i < files.len() implies paths::workspace_path_error(
            style,
            (#[trigger] files[i]).path,
        ) is None by {
            assert(checks[i] is None);
        }
    }
    if checkpoint::artifacts_error(style, files) is None {
        assert forall|i: int| 0 <= i < files.len() implies paths::artifact_path_error(
            style,
            (#[trigger] files[i]).path,
        ) is None by {
            assert(others[i] is None);
        }
    }
}

/// A snapshot is acceptable exactly if its commit is a commit and every file has an
/// acceptable path.
pub proof fn lemma_snapshot_is_acceptable_exactly_if(
    style: PathStyle,
    snapshot: RoundWorkspaceSnapshot,
)
    ensures
        snapshot@.error(style) is None <==> {
            &&& paths::commit_error(snapshot.baseline_commit@) is None
            &&& forall|i: int|
                0 <= i < snapshot.untracked_files@.len() ==> paths::workspace_path_error(
                    style,
                    (#[trigger] snapshot.untracked_files@[i]).relative_path@,
                ) is None
        },
{
    let files = snapshot@.untracked_files;
    lemma_files_error(style, files);
    if snapshot@.error(style) is None {
        assert forall|i: int|
            0 <= i < snapshot.untracked_files@.len() implies paths::workspace_path_error(
            style,
            (#[trigger] snapshot.untracked_files@[i]).relative_path@,
        ) is None by {
            assert(files[i].path == snapshot.untracked_files@[i].relative_path@);
        }
    }
    if forall|i: int|
        0 <= i < snapshot.untracked_files@.len() ==> paths::workspace_path_error(
            style,
            (#[trigger] snapshot.untracked_files@[i]).relative_path@,
        ) is None {
        assert forall|i: int| 0 <= i < files.len() implies paths::workspace_path_error(
            style,
            (#[trigger] files[i]).path,
        ) is None by {
            assert(files[i].path == snapshot.untracked_files@[i].relative_path@);
        }
    }
}

/// A checkpoint is accepted exactly if its version is known, its identity fields say
/// something, an artifact session is absent or says something, there is a message, the
/// commit is a commit, and every path is acceptable. Nothing else about it matters.
pub proof fn lemma_checkpoint_is_accepted_exactly_if(
    style: PathStyle,
    checkpoint: RoundReplayCheckpoint,
)
    ensures
        checkpoint.error(style) is None <==> {
            &&& checkpoint.version == 1 || checkpoint.version == 2
            &&& is_visible(checkpoint.source_session_id@)
            &&& is_visible(checkpoint.source_turn_id@)
            &&& is_visible(checkpoint.agent_type@)
            &&& is_visible(checkpoint.primary_model_id@)
            &&& checkpoint.artifact_session_id is None || is_visible(
                checkpoint.artifact_session_id->0@,
            )
            &&& checkpoint.messages@.len() > 0
            &&& paths::commit_error(checkpoint.workspace.baseline_commit@) is None
            &&& forall|i: int|
                0 <= i < checkpoint.workspace.untracked_files@.len()
                    ==> paths::workspace_path_error(
                    style,
                    (#[trigger] checkpoint.workspace.untracked_files@[i]).relative_path@,
                ) is None
            &&& forall|i: int|
                0 <= i < checkpoint.session_artifacts@.len() ==> paths::artifact_path_error(
                    style,
                    (#[trigger] checkpoint.session_artifacts@[i]).relative_path@,
                ) is None
        },
{
    lemma_snapshot_is_acceptable_exactly_if(style, checkpoint.workspace);
    let artifacts = checkpoint::stored_artifacts(checkpoint.session_artifacts@);
    lemma_files_error(style, artifacts);
    if checkpoint::artifacts_error(style, artifacts) is None {
        assert forall|i: int|
            0 <= i < checkpoint.session_artifacts@.len() implies paths::artifact_path_error(
            style,
            (#[trigger] checkpoint.session_artifacts@[i]).relative_path@,
        ) is None by {
            assert(artifacts[i].path == checkpoint.session_artifacts@[i].relative_path@);
        }
    }
    if forall|i: int|
        0 <= i < checkpoint.session_artifacts@.len() ==> paths::artifact_path_error(
            style,
            (#[trigger] checkpoint.session_artifacts@[i]).relative_path@,
        ) is None {
        assert forall|i: int| 0 <= i < artifacts.len() implies paths::artifact_path_error(
            style,
            (#[trigger] artifacts[i]).path,
        ) is None by {
            assert(artifacts[i].path == checkpoint.session_artifacts@[i].relative_path@);
        }
    }
}

/// What is told of a checkpoint that is refused is the first thing that is wrong with it.
pub proof fn lemma_checkpoint_refusals_tell_the_first_fault(
    style: PathStyle,
    checkpoint: RoundReplayCheckpoint,
)
    ensures
        ({
            let known = checkpoint.version == 1 || checkpoint.version == 2;
            let identified = is_visible(checkpoint.source_session_id@) && is_visible(
                checkpoint.source_turn_id@,
            ) && is_visible(checkpoint.agent_type@) && is_visible(checkpoint.primary_model_id@);
            let session = checkpoint.artifact_session_id is None || is_visible(
                checkpoint.artifact_session_id->0@,
            );
            let error = checkpoint.error(style);
            &&& !known ==> error == Some(
                ErrorView::Validation(
                    "Unsupported round replay checkpoint version: "@ + text::decimal(
                        checkpoint.version as nat,
                    ),
                ),
            )
            &&& known && !identified ==> error == Some(
                ErrorView::Validation(
                    "Round replay checkpoint is missing required identity fields"@,
                ),
            )
            &&& known && identified && !session ==> error == Some(
                ErrorView::Validation("Round replay checkpoint has an empty artifact session id"@),
            )
            &&& known && identified && session && checkpoint.messages@.len() == 0 ==> error == Some(
                ErrorView::Validation("Round replay checkpoint contains no model-visible messages"@),
            )
            &&& known && identified && session && checkpoint.messages@.len() > 0 ==> {
                &&& checkpoint.workspace@.error(style) is Some ==> error
                    == checkpoint.workspace@.error(style)
                &&& checkpoint.workspace@.error(style) is None ==> error
                    == checkpoint::artifacts_error(
                    style,
                    checkpoint::stored_artifacts(checkpoint.session_artifacts@),
                )
            }
        }),
{
}

/// The fault of a list of paths is that of the first one that is not acceptable, and of a
/// snapshot its commit comes before its files.
pub proof fn lemma_first_bad_path_is_told(
    style: PathStyle,
    snapshot: RoundWorkspaceSnapshot,
    artifacts: Seq<RoundSessionArtifact>,
    index: int,
)
    ensures
        paths::commit_error(snapshot.baseline_commit@) is Some ==> snapshot@.error(style)
            == paths::commit_error(snapshot.baseline_commit@),
        paths::commit_error(snapshot.baseline_commit@) is None && 0 <= index
            < snapshot.untracked_files@.len() && paths::workspace_path_error(
            style,
            snapshot.untracked_files@[index].relative_path@,
        ) is Some && (forall|i: int|
            0 <= i < index ==> paths::workspace_path_error(
                style,
                (#[trigger] snapshot.untracked_files@[i]).relative_path@,
            ) is None) ==> snapshot@.error(style) == paths::workspace_path_error(
            style,
            snapshot.untracked_files@[index].relative_path@,
        ),
        0 <= index < artifacts.len() && paths::artifact_path_error(
            style,
            artifacts[index].relative_path@,
        ) is Some && (forall|i: int|
            0 <= i < index ==> paths::artifact_path_error(
                style,
                (#[trigger] artifacts[i]).relative_path@,
            ) is None) ==> checkpoint::artifacts_error(
            style,
            checkpoint::stored_artifacts(artifacts),
        ) == paths::artifact_path_error(style, artifacts[index].relative_path@),
{
    let files = snapshot@.untracked_files;
    let checks = files.map_values(|file: StoredFile| paths::workspace_path_error(style, file.path));
    if 0 <= index < checks.len() && checks[index] is Some && (forall|i: int|
        0 <= i < index ==> paths::workspace_path_error(
            style,
            (#[trigger] snapshot.untracked_files@[i]).relative_path@,
        ) is None) {
        assert forall|i: int| 0 <= i < index implies (#[trigger] checks[i]) is None by {
            assert(files[i].path == snapshot.untracked_files@[i].relative_path@);
        }
        crate::error::lemma_first_error_at(checks, index);
    }
    let stored = checkpoint::stored_artifacts(artifacts);
    let others = stored.map_values(|file: StoredFile| paths::artifact_path_error(style, file.path));
    if 0 <= index < others.len() && others[index] is Some && (forall|i: int|
        0 <= i < index ==> paths::artifact_path_error(
            style,
            (#[trigger] artifacts[i]).relative_path@,
        ) is None) {
        assert forall|i: int| 0 <= i < index implies (#[trigger] others[i]) is None by {
            assert(stored[i].path == artifacts[i].relative_path@);
        }
        crate::error::lemma_first_error_at(others, index);
    }
}

/// Loading hands out the very checkpoint that was read if it is acceptable, and otherwise
/// tells why not.
pub proof fn lemma_loading_hands_out_what_was_read(
    style: PathStyle,
    path: Seq<char>,
    checkpoint: RoundReplayCheckpoint,
    reason: String,
    result: BitFunResult<RoundReplayCheckpoint>,
)
    ensures
        RoundReplayCheckpoint::is_loaded(style, path, CheckpointRead::Parsed(checkpoint), result)
            ==> {
            &&& result is Ok <==> checkpoint.error(style) is None
            &&& result matches Ok(loaded) ==> loaded == checkpoint
            &&& result matches Err(error) ==> checkpoint.error(style) == Some(error@)
        },
        RoundReplayCheckpoint::is_loaded(style, path, CheckpointRead::Unreadable(reason), result)
            ==> (result matches Err(BitFunError::Io(message)) && message@
            == "Failed to read round replay checkpoint "@ + path + ": "@ + reason@),
        RoundReplayCheckpoint::is_loaded(style, path, CheckpointRead::Malformed(reason), result)
            ==> (result matches Err(BitFunError::Validation(message)) && message@
            == "Invalid round replay checkpoint "@ + path + ": "@ + reason@),
{
}

/// Recording is asked for by these five words alone, with any white space around them.
pub proof fn lemma_recording_words(setting: Seq<char>)
    ensures
        checkpoint::is_affirmative(setting) <==> seq![
            "1"@,
            "true"@,
            "TRUE"@,
            "yes"@,
            "YES"@,
        ].contains(setting),
{
    let words = seq!["1"@, "true"@, "TRUE"@, "yes"@, "YES"@];
    if checkpoint::is_affirmative(setting) {
        assert(words[0] == "1"@ && words[1] == "true"@ && words[2] == "TRUE"@ && words[3] == "yes"@
            && words[4] == "YES"@);
    }
}

/// The size limit is sixty-four mebibytes, and the complaint names it and the size, which
/// is counted up to the largest count there is.
pub proof fn lemma_size_limit(bytes: nat)
    ensures
        checkpoint::MAX_CHECKPOINT_BYTES == 64 * 1024 * 1024,
        checkpoint::size_error(bytes) == ErrorView::Validation(
            "Round replay checkpoint workspace snapshot exceeds "@ + text::decimal(67108864)
                + " bytes (captured "@ + text::decimal(bytes) + ")"@,
        ),
        bytes <= usize::MAX ==> capture::counted(bytes) == bytes,
        bytes > usize::MAX ==> capture::counted(bytes) == usize::MAX as nat,
{
}

} // verus!
