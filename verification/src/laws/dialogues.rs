//! Promises about the dialogues with a workspace and a session directory: what a request
//! says, what answers it, and how a dialogue begins.

use crate::error::BitFunError;
use crate::file_read_state;
use crate::round_model_route;
use crate::round_replay::artifact_capture;
use crate::round_replay::artifact_capture::{ArtifactCapture, FoundFile};
use crate::round_replay::artifact_restore;
use crate::round_replay::artifact_restore::ArtifactRestore;
use crate::round_replay::capture;
use crate::round_replay::capture::WorkspaceCapture;
use crate::round_replay::checkpoint;
use crate::round_replay::checkpoint::{
    RoundSessionArtifact, RoundWorkspaceSnapshot, SnapshotView, StoredFile,
};
use crate::round_replay::paths::PathStyle;
use crate::round_replay::payload;
use crate::round_replay::restore;
use crate::round_replay::restore::{Payload, WorkspaceRestore};
use crate::round_replay::session::{SessionReply, SessionRequest, SessionRequestView};
use crate::round_replay::step::{Step, StepView};
use crate::round_replay::workspace;
use crate::round_replay::workspace::{RequestView, WorkspaceReply, WorkspaceRequest};
use vstd::prelude::*;

verus! {

/// A request to a workspace says its command, or its path and all its bytes.
pub proof fn lemma_workspace_requests_are_taken_literally(
    command: &'static str,
    path: String,
    contents: Vec<u8>,
)
    ensures
        WorkspaceRequest::RunGit(command)@ == RequestView::RunGit(command@),
        WorkspaceRequest::RollBack(command)@ == RequestView::RollBack(command@),
        WorkspaceRequest::ReadFile(path)@ == RequestView::ReadFile(path@),
        WorkspaceRequest::ProbeFile(path)@ == RequestView::ProbeFile(path@),
        WorkspaceRequest::WriteFile(path, contents)@ == RequestView::WriteFile(path@, contents@),
{
}

/// A request to a session directory says its directory, its handle, or its path and all
/// its bytes.
pub proof fn lemma_session_requests_are_taken_literally(
    root: &'static str,
    handle: usize,
    path: String,
    contents: Vec<u8>,
)
    ensures
        SessionRequest::FindRoot(root)@ == SessionRequestView::FindRoot(root@),
        SessionRequest::OpenDirectory(handle)@ == SessionRequestView::OpenDirectory(handle),
        SessionRequest::NextEntry@ == SessionRequestView::NextEntry,
        SessionRequest::ReadFile(handle)@ == SessionRequestView::ReadFile(handle),
        SessionRequest::ProbeFile(path)@ == SessionRequestView::ProbeFile(path@),
        SessionRequest::CreateParent(path)@ == SessionRequestView::CreateParent(path@),
        SessionRequest::WriteFile(path, contents)@ == SessionRequestView::WriteFile(
            path@,
            contents@,
        ),
        SessionRequest::RemoveFile(path)@ == SessionRequestView::RemoveFile(path@),
{
}

/// A step is its request, its error or its outcome.
pub proof fn lemma_steps_are_taken_literally(
    request: WorkspaceRequest,
    snapshot: RoundWorkspaceSnapshot,
    asked: SessionRequest,
    artifacts: Vec<RoundSessionArtifact>,
    error: BitFunError,
)
    ensures
        Step::<WorkspaceRequest, RoundWorkspaceSnapshot>::Ask(request)@ == StepView::<
            RequestView,
            SnapshotView,
        >::Ask(request@),
        Step::<WorkspaceRequest, RoundWorkspaceSnapshot>::Finish(Ok(snapshot))@ == StepView::<
            RequestView,
            SnapshotView,
        >::Finish(Ok(snapshot@)),
        Step::<WorkspaceRequest, RoundWorkspaceSnapshot>::Finish(Err(error))@ == StepView::<
            RequestView,
            SnapshotView,
        >::Finish(Err(error@)),
        artifact_capture::capture_view(Step::Ask(asked)) == StepView::<
            SessionRequestView,
            Seq<StoredFile>,
        >::Ask(asked@),
        artifact_capture::capture_view(Step::Finish(Ok(artifacts))) == StepView::<
            SessionRequestView,
            Seq<StoredFile>,
        >::Finish(Ok(checkpoint::stored_artifacts(artifacts@))),
        artifact_capture::capture_view(Step::Finish(Err(error))) == StepView::<
            SessionRequestView,
            Seq<StoredFile>,
        >::Finish(Err(error@)),
{
}

/// Each request is answered by any reply of its kind and by no other: a command by its
/// outcome, a read by contents, a probe by presence, a write by success.
pub proof fn lemma_requests_are_answered_in_kind(
    reply: WorkspaceReply,
    answer: SessionReply,
    text: Seq<char>,
    bytes: Seq<u8>,
    handle: usize,
)
    ensures
        RequestView::RunGit(text).is_answered_by(reply) <==> reply is Shell,
        RequestView::RollBack(text).is_answered_by(reply) <==> reply is Shell,
        RequestView::ReadFile(text).is_answered_by(reply) <==> reply is Contents,
        RequestView::ProbeFile(text).is_answered_by(reply) <==> reply is Exists,
        RequestView::WriteFile(text, bytes).is_answered_by(reply) <==> reply is Written,
        SessionRequestView::FindRoot(text).is_answered_by(answer) <==> answer is Root,
        SessionRequestView::OpenDirectory(handle).is_answered_by(answer) <==> answer is Opened,
        SessionRequestView::NextEntry.is_answered_by(answer) <==> answer is Entry,
        SessionRequestView::ReadFile(handle).is_answered_by(answer) <==> answer is Contents,
        SessionRequestView::ProbeFile(text).is_answered_by(answer) <==> answer is Exists,
        SessionRequestView::CreateParent(text).is_answered_by(answer) <==> answer is ParentCreated,
        SessionRequestView::WriteFile(text, bytes).is_answered_by(answer) <==> answer is Written,
        SessionRequestView::RemoveFile(text).is_answered_by(answer) <==> answer is Removed,
{
}

/// A dialogue takes every reply that answers what it asked last, whatever the reply says.
pub proof fn lemma_every_answer_is_taken(
    capture: WorkspaceCapture,
    restore: WorkspaceRestore,
    reply: WorkspaceReply,
    capturing: ArtifactCapture,
    restoring: ArtifactRestore,
    answer: SessionReply,
)
    ensures
        capture.awaits(reply) <==> {
            let step = capture::capture_step(capture.style(), capture.replies());
            step is Ask && step->Ask_0.is_answered_by(reply)
        },
        restore.awaits(reply) <==> {
            let step = restore::restore_step(
                restore.style(),
                restore.snapshot(),
                restore.payloads(),
                restore.replies(),
            );
            step is Ask && step->Ask_0.is_answered_by(reply)
        },
        capturing.awaits(answer) <==> {
            let step = artifact_capture::artifact_capture_step(
                capturing.style(),
                capturing.replies(),
            );
            step is Ask && step->Ask_0.is_answered_by(answer)
        },
        restoring.awaits(answer) <==> {
            let step = artifact_restore::artifact_step(
                restoring.artifacts(),
                restoring.payloads(),
                artifact_restore::artifact_progress(
                    restoring.style(),
                    restoring.artifacts(),
                    restoring.payloads(),
                    restoring.replies(),
                ),
            );
            step is Ask && step->Ask_0.is_answered_by(answer)
        },
{
}

/// A payload stands for all the bytes that it decodes to, file by file.
pub proof fn lemma_payloads_are_decoded_file_by_file(
    files: Seq<StoredFile>,
    payloads: Seq<Result<Vec<u8>, String>>,
    found: Seq<FoundFile>,
    contents: Seq<Seq<u8>>,
    bytes: Vec<u8>,
    reason: String,
    i: int,
)
    ensures
        payload::decoded_view(Ok(bytes)) == Ok::<Seq<u8>, Seq<char>>(bytes@),
        payload::decoded_view(Err(reason)) == Err::<Seq<u8>, Seq<char>>(reason@),
        restore::decoded_payloads(files).len() == files.len(),
        0 <= i < files.len() ==> restore::decoded_payloads(files)[i] == payload::base64_contents(
            files[i].payload,
        ),
        restore::payload_views(payloads).len() == payloads.len(),
        0 <= i < payloads.len() ==> restore::payload_views(payloads)[i] == payload::decoded_view(
            payloads[i],
        ),
        artifact_capture::contents_found(found).len() == found.len(),
        0 <= i < found.len() ==> artifact_capture::contents_found(found)[i] == found[i].contents,
        capture::holds_contents(files, contents) ==> files.len() == contents.len() && (0 <= i
            < files.len() ==> payload::base64_contents(files[i].payload) == Ok::<
            Seq<u8>,
            Seq<char>,
        >(contents[i])),
{
}

/// A restoration of something that cannot be restored is over before it asks anything,
/// and payloads that do not decode end it right behind the checks.
pub proof fn lemma_unfit_restorations_do_not_begin(
    style: PathStyle,
    snapshot: RoundWorkspaceSnapshot,
    payloads: Seq<Payload>,
    artifacts: Seq<StoredFile>,
    decoded: Seq<Payload>,
)
    ensures
        snapshot@.error(style) matches Some(error) ==> restore::restore_step(
            style,
            snapshot@,
            payloads,
            Seq::empty(),
        ) == StepView::<RequestView, ()>::Finish(Err(error)),
        artifact_restore::unfit_artifact(style, artifacts, decoded) matches Some(error)
            ==> artifact_restore::artifact_step(
            artifacts,
            decoded,
            artifact_restore::artifact_progress(style, artifacts, decoded, Seq::empty()),
        ) == StepView::<SessionRequestView, ()>::Finish(Err(error)),
{
}

/// Payloads that do not decode end a restoration of a workspace as soon as its last check
/// has gone well, and the first of them is told.
pub proof fn lemma_undecodable_payloads_end_a_restoration(
    style: PathStyle,
    snapshot: RoundWorkspaceSnapshot,
    payloads: Seq<Payload>,
    replies: Seq<WorkspaceReply>,
    reply: WorkspaceReply,
)
    requires
        replies.len() + 1 == 2 + snapshot.untracked_files@.len(),
        restore::restore_progress(style, snapshot@, payloads, replies) matches Ok(Some(request))
            && !(request is RollBack),
        restore::is_accepted(snapshot@, replies.len() as int, reply),
        restore::payloads_error(snapshot@.untracked_files, payloads) is Some,
    ensures
        restore::restore_step(style, snapshot@, payloads, replies.push(reply)) == StepView::<
            RequestView,
            (),
        >::Finish(Err(restore::payloads_error(snapshot@.untracked_files, payloads)->0)),
{
    let all = replies.push(reply);
    assert(all.drop_last() =~= replies);
    assert(snapshot@.untracked_files.len() == snapshot.untracked_files@.len());
}

/// The names under which things are stored and asked for.
pub proof fn lemma_names_and_limits()
    ensures
        checkpoint::ROUND_REPLAY_CHECKPOINT_VERSION == 2,
        checkpoint::ROUND_REPLAY_START_CONTEXT_KEY@ == "eval_round_replay_start"@,
        checkpoint::ROUND_REPLAY_ARTIFACT_SESSION_CONTEXT_KEY@
            == "eval_round_replay_artifact_session_id"@,
        checkpoint::ROUND_REPLAY_METADATA_KEY@ == "bitfun_eval_round_replay"@,
        checkpoint::ROUND_CHECKPOINT_RECORD_ENV@ == "BITFUN_EVAL_RECORD_ROUND_CHECKPOINTS"@,
        checkpoint::ROUND_REPLAY_CHECKPOINT_ENV@ == "BITFUN_EVAL_REPLAY_CHECKPOINT"@,
        round_model_route::ONE_SHOT_ROUND_MODEL_ROUTE_METADATA_KEY@
            == "bitfun_one_shot_round_model_route"@,
        round_model_route::ONE_SHOT_ROUND_MODEL_ROUTE_MODEL_ENV@ == "BITFUN_EVAL_SMALL_MODEL"@,
        round_model_route::ONE_SHOT_ROUND_MODEL_ROUTE_ROUND_ENV@
            == "BITFUN_EVAL_SMALL_MODEL_ROUND"@,
        file_read_state::FILE_UNEXPECTEDLY_MODIFIED_ERROR@
            == "File has been unexpectedly modified. Read it again before attempting to write it."@,
        workspace::WORKSPACE_COMMAND_TIMEOUT_MS == 30_000,
{
}

} // verus!
