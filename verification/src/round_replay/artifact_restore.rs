//! Restoring the artifacts of a session: all of them or none, and never over a file
//! that is already there.

use crate::error::{BitFunError, BitFunResult, ErrorView};
use crate::round_replay::artifact_capture;
use crate::round_replay::artifact_capture::FoundFile;
use crate::round_replay::capture;
use crate::round_replay::checkpoint;
use crate::round_replay::checkpoint::{RoundSessionArtifact, StoredFile};
use crate::round_replay::paths;
use crate::round_replay::paths::{invalid, PathStyle};
use crate::round_replay::payload;
use crate::round_replay::payload::decode_payload;
use crate::round_replay::restore;
use crate::round_replay::restore::Payload;
use crate::round_replay::session::{SessionReply, SessionRequest, SessionRequestView};
use crate::round_replay::step::{Step, StepView};
use vstd::prelude::*;

verus! {

/// Why an artifact cannot be restored anywhere: its path, or else its payload.
pub open spec fn artifact_error(style: PathStyle, path: Seq<char>, payload: Payload) -> Option<ErrorView> {
    match (paths::artifact_path_error(style, path), payload) {
        (Some(error), _) => Some(error),
        (None, Err(reason)) => Some(
            ErrorView::Validation("Invalid base64 for session artifact "@ + path + ": "@ + reason),
        ),
        (None, Ok(_)) => None,
    }
}

/// The error of the first artifact that cannot be restored anywhere.
pub open spec fn unfit_artifact(style: PathStyle, artifacts: Seq<StoredFile>, payloads: Seq<Payload>) -> Option<
    ErrorView,
> {
    ErrorView::first(
        Seq::new(artifacts.len(), |i: int| artifact_error(style, artifacts[i].path, payloads[i])),
    )
}

/// Everything that is asked for when nothing goes wrong: is any artifact there
/// already, then the directories, then the files.
pub open spec fn artifact_plan(artifacts: Seq<StoredFile>, payloads: Seq<Payload>) -> Seq<
    SessionRequestView,
> {
    artifacts.map_values(|artifact: StoredFile| SessionRequestView::ProbeFile(artifact.path))
        + artifacts.map_values(
        |artifact: StoredFile| SessionRequestView::CreateParent(artifact.path),
    ) + Seq::new(
        artifacts.len(),
        |i: int| SessionRequestView::WriteFile(artifacts[i].path, payloads[i]->Ok_0),
    )
}

/// Where a restoration of artifacts stands.
pub enum ArtifactProgress {
    /// It waits on the request at this index of the plan.
    Planned(int),
    /// Writing the artifact `failed` went wrong; the first `left` artifacts are still
    /// to be removed, the last of them first.
    Removing { failed: int, left: int, reason: Seq<char> },
    Restored,
    Failed(ErrorView),
}

pub open spec fn artifact_probe_error(path: Seq<char>, reply: SessionReply) -> Option<ErrorView> {
    match reply {
        SessionReply::Exists(true) => Some(
            ErrorView::Validation(
                "Round replay refuses to overwrite existing session artifact: "@ + path,
            ),
        ),
        _ => None,
    }
}

pub open spec fn parent_error(reply: SessionReply) -> Option<ErrorView> {
    match reply {
        SessionReply::ParentCreated(Err(failure)) => Some(
            ErrorView::Io(
                "Failed to create session artifact directory "@ + failure.path@ + ": "@
                    + failure.reason@,
            ),
        ),
        _ => None,
    }
}

pub open spec fn artifact_write_error(path: Seq<char>, reason: Seq<char>) -> ErrorView {
    ErrorView::Io("Failed to restore session artifact "@ + path + ": "@ + reason)
}

/// What comes once the first `count` requests of the plan have gone well.
pub open spec fn planned(artifacts: Seq<StoredFile>, count: int) -> ArtifactProgress {
    if count < 3 * artifacts.len() {
        ArtifactProgress::Planned(count)
    } else {
        ArtifactProgress::Restored
    }
}

/// What comes once the artifact `failed` could not be written and all but the first
/// `left` artifacts in front of it are removed again.
pub open spec fn removal(
    artifacts: Seq<StoredFile>,
    failed: int,
    left: int,
    reason: Seq<char>,
) -> ArtifactProgress {
    if left == 0 {
        ArtifactProgress::Failed(artifact_write_error(artifacts[failed].path, reason))
    } else {
        ArtifactProgress::Removing { failed, left, reason }
    }
}

/// What comes after the reply to the request at `index` of the plan.
pub open spec fn after_planned(
    artifacts: Seq<StoredFile>,
    index: int,
    reply: SessionReply,
) -> ArtifactProgress {
    let count = artifacts.len();
    let error = if index < count {
        artifact_probe_error(artifacts[index].path, reply)
    } else if index < 2 * count {
        parent_error(reply)
    } else {
        None
    };
    match error {
        Some(error) => ArtifactProgress::Failed(error),
        None => match reply {
            SessionReply::Written(Err(reason)) => if index >= 2 * count {
                removal(artifacts, index - 2 * count, index - 2 * count, reason@)
            } else {
                planned(artifacts, index + 1)
            },
            _ => planned(artifacts, index + 1),
        },
    }
}

/// Where a restoration stands after some replies.
pub open spec fn artifact_progress(
    style: PathStyle,
    artifacts: Seq<StoredFile>,
    payloads: Seq<Payload>,
    replies: Seq<SessionReply>,
) -> ArtifactProgress
    decreases replies.len(),
{
    if unfit_artifact(style, artifacts, payloads) is Some {
        ArtifactProgress::Failed(unfit_artifact(style, artifacts, payloads)->0)
    } else if replies.len() == 0 {
        planned(artifacts, 0)
    } else {
        match artifact_progress(style, artifacts, payloads, replies.drop_last()) {
            ArtifactProgress::Planned(index) => after_planned(artifacts, index, replies.last()),
            ArtifactProgress::Removing { failed, left, reason } => removal(
                artifacts,
                failed,
                left - 1,
                reason,
            ),
            finished => finished,
        }
    }
}

/// What a restoration does where it stands.
pub open spec fn artifact_step(
    artifacts: Seq<StoredFile>,
    payloads: Seq<Payload>,
    progress: ArtifactProgress,
) -> StepView<SessionRequestView, ()> {
    match progress {
        ArtifactProgress::Planned(index) => StepView::Ask(
            artifact_plan(artifacts, payloads)[index],
        ),
        ArtifactProgress::Removing { failed, left, reason } => StepView::Ask(
            SessionRequestView::RemoveFile(artifacts[left - 1].path),
        ),
        ArtifactProgress::Restored => StepView::Finish(Ok(())),
        ArtifactProgress::Failed(error) => StepView::Finish(Err(error)),
    }
}

/// The plan, request by request.
pub proof fn lemma_artifact_plan(artifacts: Seq<StoredFile>, payloads: Seq<Payload>)
    ensures
        artifact_plan(artifacts, payloads).len() == 3 * artifacts.len(),
        forall|i: int|
            0 <= i < artifacts.len() ==> #[trigger] artifact_plan(artifacts, payloads)[i]
                == SessionRequestView::ProbeFile(artifacts[i].path),
        forall|i: int|
            artifacts.len() <= i < 2 * artifacts.len() ==> #[trigger] artifact_plan(
                artifacts,
                payloads,
            )[i] == SessionRequestView::CreateParent(artifacts[i - artifacts.len()].path),
        forall|i: int|
            2 * artifacts.len() <= i < 3 * artifacts.len() ==> #[trigger] artifact_plan(
                artifacts,
                payloads,
            )[i] == SessionRequestView::WriteFile(
                artifacts[i - 2 * artifacts.len()].path,
                payloads[i - 2 * artifacts.len()]->Ok_0,
            ),
{
}

enum ArtifactPhase {
    Probe(usize),
    CreateParent(usize),
    Write(usize),
    Remove { failed: usize, left: usize, reason: String },
    Finished,
}

/// A restoration of artifacts in progress.
pub struct ArtifactRestore {
    style: PathStyle,
    artifacts: Vec<RoundSessionArtifact>,
    payloads: Vec<Result<Vec<u8>, String>>,
    phase: ArtifactPhase,
    replies: Ghost<Seq<SessionReply>>,
}

impl ArtifactPhase {
    spec fn progress(self, count: int) -> ArtifactProgress {
        match self {
            ArtifactPhase::Probe(i) => ArtifactProgress::Planned(i as int),
            ArtifactPhase::CreateParent(i) => ArtifactProgress::Planned(count + i),
            ArtifactPhase::Write(i) => ArtifactProgress::Planned(2 * count + i),
            ArtifactPhase::Remove { failed, left, reason } => ArtifactProgress::Removing {
                failed: failed as int,
                left: left as int,
                reason: reason@,
            },
            ArtifactPhase::Finished => ArtifactProgress::Restored,
        }
    }

    spec fn is_in_range(self, count: int) -> bool {
        match self {
            ArtifactPhase::Probe(i) => i < count,
            ArtifactPhase::CreateParent(i) => i < count,
            ArtifactPhase::Write(i) => i < count,
            ArtifactPhase::Remove { failed, left, reason } => 0 < left <= failed < count,
            ArtifactPhase::Finished => true,
        }
    }
}

impl ArtifactRestore {
    /// How the paths of the session are written.
    pub closed spec fn style(self) -> PathStyle {
        self.style
    }

    /// The artifacts that are restored.
    pub closed spec fn artifacts(self) -> Seq<StoredFile> {
        checkpoint::stored_artifacts(self.artifacts@)
    }

    /// What their payloads decoded to.
    pub closed spec fn payloads(self) -> Seq<Payload> {
        restore::payload_views(self.payloads@)
    }

    /// The replies that the restoration has taken so far.
    pub closed spec fn replies(self) -> Seq<SessionReply> {
        self.replies@
    }

    /// Where the restoration stands.
    pub open spec fn progress(self) -> ArtifactProgress {
        artifact_progress(self.style(), self.artifacts(), self.payloads(), self.replies())
    }

    /// Whether `reply` answers what the restoration last asked.
    pub open spec fn awaits(self, reply: SessionReply) -> bool {
        artifact_step(self.artifacts(), self.payloads(), self.progress()) matches StepView::Ask(
            request,
        ) && request.is_answered_by(reply)
    }

    #[verifier::type_invariant]
    spec fn is_consistent(self) -> bool {
        let artifacts = checkpoint::stored_artifacts(self.artifacts@);
        let payloads = restore::payload_views(self.payloads@);
        let progress = artifact_progress(self.style, artifacts, payloads, self.replies@);
        &&& payloads.len() == artifacts.len()
        &&& self.phase.is_in_range(artifacts.len() as int)
        &&& match self.phase {
            ArtifactPhase::Finished => progress is Restored || progress is Failed,
            _ => {
                &&& unfit_artifact(self.style, artifacts, payloads) is None
                &&& progress == self.phase.progress(artifacts.len() as int)
            },
        }
    }

    /// Begins a restoration, after decoding every payload.
    pub fn new(style: PathStyle, artifacts: Vec<RoundSessionArtifact>) -> (start: (
        Self,
        Step<SessionRequest, ()>,
    ))
        ensures
            start.0.style() == style,
            start.0.artifacts() == checkpoint::stored_artifacts(artifacts@),
            start.0.payloads() == restore::decoded_payloads(
                checkpoint::stored_artifacts(artifacts@),
            ),
            start.0.replies() == Seq::<SessionReply>::empty(),
            start.1@ == artifact_step(
                start.0.artifacts(),
                start.0.payloads(),
                start.0.progress(),
            ),
    {
        let payloads = decode_artifacts(&artifacts);
        assert(payloads@.len() == restore::payload_views(payloads@).len());
        Self::with_payloads(style, artifacts, payloads)
    }

    /// Begins a restoration of artifacts whose payloads decode as given.
    pub fn with_payloads(
        style: PathStyle,
        artifacts: Vec<RoundSessionArtifact>,
        payloads: Vec<Result<Vec<u8>, String>>,
    ) -> (start: (Self, Step<SessionRequest, ()>))
        requires
            payloads@.len() == artifacts@.len(),
        ensures
            start.0.style() == style,
            start.0.artifacts() == checkpoint::stored_artifacts(artifacts@),
            start.0.payloads() == restore::payload_views(payloads@),
            start.0.replies() == Seq::<SessionReply>::empty(),
            start.1@ == artifact_step(
                start.0.artifacts(),
                start.0.payloads(),
                start.0.progress(),
            ),
    {
        let ghost empty = Seq::<SessionReply>::empty();
        match check_artifacts(style, &artifacts, &payloads) {
            Err(error) => (
                ArtifactRestore {
                    style,
                    artifacts,
                    payloads,
                    phase: ArtifactPhase::Finished,
                    replies: Ghost(empty),
                },
                Step::Finish(Err(error)),
            ),
            Ok(()) => Self::proceed(style, artifacts, payloads, ArtifactPhase::Probe(0), Ghost(empty)),
        }
    }

    /// Ends with `outcome`.
    fn finish(
        style: PathStyle,
        artifacts: Vec<RoundSessionArtifact>,
        payloads: Vec<Result<Vec<u8>, String>>,
        Ghost(replies): Ghost<Seq<SessionReply>>,
        outcome: BitFunResult<()>,
    ) -> (next: (Self, Step<SessionRequest, ()>))
        requires
            payloads@.len() == artifacts@.len(),
            artifact_progress(
                style,
                checkpoint::stored_artifacts(artifacts@),
                restore::payload_views(payloads@),
                replies,
            ) == (match outcome {
                Ok(_) => ArtifactProgress::Restored,
                Err(error) => ArtifactProgress::Failed(error@),
            }),
        ensures
            next.0.style() == style,
            next.0.artifacts() == checkpoint::stored_artifacts(artifacts@),
            next.0.payloads() == restore::payload_views(payloads@),
            next.0.replies() == replies,
            next.1@ == artifact_step(next.0.artifacts(), next.0.payloads(), next.0.progress()),
    {
        (
            ArtifactRestore {
                style,
                artifacts,
                payloads,
                phase: ArtifactPhase::Finished,
                replies: Ghost(replies),
            },
            Step::Finish(outcome),
        )
    }

    /// Asks for the request that `phase` stands for; one behind the last of its kind
    /// stands for the first of the next.
    fn proceed(
        style: PathStyle,
        artifacts: Vec<RoundSessionArtifact>,
        payloads: Vec<Result<Vec<u8>, String>>,
        phase: ArtifactPhase,
        Ghost(replies): Ghost<Seq<SessionReply>>,
    ) -> (next: (Self, Step<SessionRequest, ()>))
        requires
            payloads@.len() == artifacts@.len(),
            unfit_artifact(
                style,
                checkpoint::stored_artifacts(artifacts@),
                restore::payload_views(payloads@),
            ) is None,
            phase.progress(artifacts@.len() as int) matches ArtifactProgress::Planned(index)
                && artifact_progress(
                style,
                checkpoint::stored_artifacts(artifacts@),
                restore::payload_views(payloads@),
                replies,
            ) == planned(checkpoint::stored_artifacts(artifacts@), index),
            match phase {
                ArtifactPhase::Probe(i) => i <= artifacts@.len(),
                ArtifactPhase::CreateParent(i) => i <= artifacts@.len(),
                ArtifactPhase::Write(i) => i <= artifacts@.len(),
                _ => false,
            },
        ensures
            next.0.style() == style,
            next.0.artifacts() == checkpoint::stored_artifacts(artifacts@),
            next.0.payloads() == restore::payload_views(payloads@),
            next.0.replies() == replies,
            next.1@ == artifact_step(next.0.artifacts(), next.0.payloads(), next.0.progress()),
    {
        let ghost stored = checkpoint::stored_artifacts(artifacts@);
        let ghost views = restore::payload_views(payloads@);
        let count = artifacts.len();
        assert(stored.len() == count && views.len() == count);
        proof {
            lemma_artifact_plan(stored, views);
        }
        let mut phase = phase;
        if let ArtifactPhase::Probe(i) = phase {
            if i == count {
                phase = ArtifactPhase::CreateParent(0);
            }
        }
        if let ArtifactPhase::CreateParent(i) = phase {
            if i == count {
                phase = ArtifactPhase::Write(0);
            }
        }
        let request = match phase {
            ArtifactPhase::Probe(i) => {
                assert(stored[i as int].path == artifacts@[i as int].relative_path@);
                SessionRequest::ProbeFile(artifacts[i].relative_path.clone())
            },
            ArtifactPhase::CreateParent(i) => {
                assert(stored[i as int].path == artifacts@[i as int].relative_path@);
                SessionRequest::CreateParent(artifacts[i].relative_path.clone())
            },
            ArtifactPhase::Write(i) => {
                if i == count {
                    return Self::finish(style, artifacts, payloads, Ghost(replies), Ok(()));
                }
                assert(stored[i as int].path == artifacts@[i as int].relative_path@);
                assert(views[i as int] is Ok) by {
                    let checks = Seq::new(
                        stored.len(),
                        |j: int| artifact_error(style, stored[j].path, views[j]),
                    );
                    crate::error::lemma_first_error_none(checks);
                    assert(checks[i as int] is None);
                }
                match &payloads[i] {
                    Ok(contents) => {
                        let contents = contents.clone();
                        assert(views[i as int] == payload::decoded_view(payloads@[i as int]));
                        SessionRequest::WriteFile(artifacts[i].relative_path.clone(), contents)
                    },
                    Err(_) => unreached(),
                }
            },
            _ => unreached(),
        };
        (
            ArtifactRestore { style, artifacts, payloads, phase, replies: Ghost(replies) },
            Step::Ask(request),
        )
    }

    /// Removes what was written in front of the artifact that could not be.
    fn remove_on(
        style: PathStyle,
        artifacts: Vec<RoundSessionArtifact>,
        payloads: Vec<Result<Vec<u8>, String>>,
        failed: usize,
        left: usize,
        reason: String,
        Ghost(replies): Ghost<Seq<SessionReply>>,
    ) -> (next: (Self, Step<SessionRequest, ()>))
        requires
            payloads@.len() == artifacts@.len(),
            left <= failed < artifacts@.len(),
            unfit_artifact(
                style,
                checkpoint::stored_artifacts(artifacts@),
                restore::payload_views(payloads@),
            ) is None,
            artifact_progress(
                style,
                checkpoint::stored_artifacts(artifacts@),
                restore::payload_views(payloads@),
                replies,
            ) == removal(
                checkpoint::stored_artifacts(artifacts@),
                failed as int,
                left as int,
                reason@,
            ),
        ensures
            next.0.style() == style,
            next.0.artifacts() == checkpoint::stored_artifacts(artifacts@),
            next.0.payloads() == restore::payload_views(payloads@),
            next.0.replies() == replies,
            next.1@ == artifact_step(next.0.artifacts(), next.0.payloads(), next.0.progress()),
    {
        let ghost stored = checkpoint::stored_artifacts(artifacts@);
        if left == 0 {
            let mut message = "Failed to restore session artifact ".to_string();
            message.append(artifacts[failed].relative_path.as_str());
            message.append(": ");
            message.append(reason.as_str());
            assert(stored[failed as int].path == artifacts@[failed as int].relative_path@);
            return Self::finish(
                style,
                artifacts,
                payloads,
                Ghost(replies),
                Err(BitFunError::Io(message)),
            );
        }
        let path = artifacts[left - 1].relative_path.clone();
        assert(stored[left - 1].path == path@);
        (
            ArtifactRestore {
                style,
                artifacts,
                payloads,
                phase: ArtifactPhase::Remove { failed, left, reason },
                replies: Ghost(replies),
            },
            Step::Ask(SessionRequest::RemoveFile(path)),
        )
    }
}

/// Decodes the payload of every artifact.
fn decode_artifacts(artifacts: &Vec<RoundSessionArtifact>) -> (payloads: Vec<
    Result<Vec<u8>, String>,
>)
    ensures
        restore::payload_views(payloads@) == restore::decoded_payloads(
            checkpoint::stored_artifacts(artifacts@),
        ),
{
    let mut payloads: Vec<Result<Vec<u8>, String>> = Vec::new();
    let mut i: usize = 0;
    while i < artifacts.len()
        invariant
            i <= artifacts.len(),
            payloads@.len() == i,
            forall|j: int|
                0 <= j < i ==> payload::decoded_view(#[trigger] payloads@[j])
                    == payload::base64_contents(artifacts@[j]@.payload),
        decreases artifacts.len() - i,
    {
        payloads.push(decode_payload(artifacts[i].contents_base64.as_str()));
        i += 1;
    }
    assert(restore::payload_views(payloads@) =~= restore::decoded_payloads(
        checkpoint::stored_artifacts(artifacts@),
    ));
    payloads
}

/// Reports the first artifact whose path is not acceptable or whose payload did not decode.
pub fn check_artifacts(
    style: PathStyle,
    artifacts: &Vec<RoundSessionArtifact>,
    payloads: &Vec<Result<Vec<u8>, String>>,
) -> (result: BitFunResult<()>)
    requires
        artifacts@.len() == payloads@.len(),
    ensures
        ErrorView::of(result) == unfit_artifact(
            style,
            checkpoint::stored_artifacts(artifacts@),
            restore::payload_views(payloads@),
        ),
{
    let ghost stored = checkpoint::stored_artifacts(artifacts@);
    let ghost views = restore::payload_views(payloads@);
    let ghost checks = Seq::new(
        stored.len(),
        |i: int| artifact_error(style, stored[i].path, views[i]),
    );
    let mut i: usize = 0;
    while i < artifacts.len()
        invariant
            i <= artifacts.len(),
            artifacts@.len() == payloads@.len(),
            stored == checkpoint::stored_artifacts(artifacts@),
            views == restore::payload_views(payloads@),
            checks == Seq::new(
                stored.len(),
                |i: int| artifact_error(style, stored[i].path, views[i]),
            ),
            forall|j: int| 0 <= j < i ==> (#[trigger] checks[j]) is None,
        decreases artifacts.len() - i,
    {
        let path = artifacts[i].relative_path.as_str();
        match style.validate_session_artifact_path(path) {
            Ok(()) => {},
            Err(error) => {
                proof {
                    crate::error::lemma_first_error_at(checks, i as int);
                }
                return Err(error);
            },
        }
        match &payloads[i] {
            Ok(_) => {},
            Err(reason) => {
                let mut message = "Invalid base64 for session artifact ".to_string();
                message.append(path);
                message.append(": ");
                message.append(reason.as_str());
                proof {
                    crate::error::lemma_first_error_at(checks, i as int);
                }
                return Err(BitFunError::Validation(message));
            },
        }
        i += 1;
    }
    proof {
        crate::error::lemma_first_error_none(checks);
    }
    Ok(())
}

/// Takes the reply to the last request, and says what to do next.
pub fn restore_session_artifacts(restore: ArtifactRestore, reply: SessionReply) -> (next: (
    ArtifactRestore,
    Step<SessionRequest, ()>,
))
    requires
        restore.awaits(reply),
    ensures
        next.0.style() == restore.style(),
        next.0.artifacts() == restore.artifacts(),
        next.0.payloads() == restore.payloads(),
        next.0.replies() == restore.replies().push(reply),
        next.1@ == artifact_step(next.0.artifacts(), next.0.payloads(), next.0.progress()),
{
    proof {
        use_type_invariant(&restore);
    }
    let ghost before = restore.replies@;
    let ghost replies = before.push(reply);
    assert(replies.drop_last() =~= before);
    let ArtifactRestore { style, artifacts, payloads, phase, replies: _ } = restore;
    let ghost stored = checkpoint::stored_artifacts(artifacts@);
    let ghost views = restore::payload_views(payloads@);
    assert(stored.len() == artifacts.len());
    proof {
        lemma_artifact_plan(stored, views);
    }
    match (phase, reply) {
        (ArtifactPhase::Probe(i), SessionReply::Exists(exists)) => {
            if exists {
                assert(stored[i as int].path == artifacts@[i as int].relative_path@);
                let error = invalid(
                    "Round replay refuses to overwrite existing session artifact: ",
                    artifacts[i].relative_path.as_str(),
                );
                return ArtifactRestore::finish(style, artifacts, payloads, Ghost(replies), Err(error));
            }
            ArtifactRestore::proceed(
                style,
                artifacts,
                payloads,
                ArtifactPhase::Probe(i + 1),
                Ghost(replies),
            )
        },
        (ArtifactPhase::CreateParent(i), SessionReply::ParentCreated(outcome)) => {
            match outcome {
                Err(failure) => {
                    let mut message = "Failed to create session artifact directory ".to_string();
                    message.append(failure.path.as_str());
                    message.append(": ");
                    message.append(failure.reason.as_str());
                    ArtifactRestore::finish(
                        style,
                        artifacts,
                        payloads,
                        Ghost(replies),
                        Err(BitFunError::Io(message)),
                    )
                },
                Ok(_) => ArtifactRestore::proceed(
                    style,
                    artifacts,
                    payloads,
                    ArtifactPhase::CreateParent(i + 1),
                    Ghost(replies),
                ),
            }
        },
        (ArtifactPhase::Write(i), SessionReply::Written(outcome)) => {
            match outcome {
                Err(reason) => ArtifactRestore::remove_on(
                    style,
                    artifacts,
                    payloads,
                    i,
                    i,
                    reason,
                    Ghost(replies),
                ),
                Ok(_) => ArtifactRestore::proceed(
                    style,
                    artifacts,
                    payloads,
                    ArtifactPhase::Write(i + 1),
                    Ghost(replies),
                ),
            }
        },
        (ArtifactPhase::Remove { failed, left, reason }, SessionReply::Removed) => {
            ArtifactRestore::remove_on(style, artifacts, payloads, failed, left - 1, reason, Ghost(replies))
        },
        _ => unreached(),
    }
}

/// Every reply answers the request that was open when it came.
pub open spec fn is_artifact_history(
    style: PathStyle,
    artifacts: Seq<StoredFile>,
    payloads: Seq<Payload>,
    replies: Seq<SessionReply>,
) -> bool {
    forall|i: int|
        0 <= i < replies.len() ==> (artifact_step(
            artifacts,
            payloads,
            artifact_progress(style, artifacts, payloads, #[trigger] replies.take(i)),
        ) matches StepView::Ask(request) && request.is_answered_by(replies[i]))
}

/// The reply to the request at `index` of the plan lets the restoration go on.
pub open spec fn is_artifact_accepted(
    artifacts: Seq<StoredFile>,
    index: int,
    reply: SessionReply,
) -> bool {
    after_planned(artifacts, index, reply) == planned(artifacts, index + 1)
}

/// A restoration asks for its plan in order, and goes on only while every reply is
/// accepted; it leaves the plan only behind a write that failed, to remove, from the
/// last to the first, what was written in front of it.
pub proof fn lemma_artifacts_follow_plan(
    style: PathStyle,
    artifacts: Seq<StoredFile>,
    payloads: Seq<Payload>,
    replies: Seq<SessionReply>,
)
    ensures
        match artifact_progress(style, artifacts, payloads, replies) {
            ArtifactProgress::Planned(index) => {
                &&& index == replies.len() < 3 * artifacts.len()
                &&& unfit_artifact(style, artifacts, payloads) is None
                &&& forall|i: int|
                    0 <= i < replies.len() ==> is_artifact_accepted(
                        artifacts,
                        i,
                        #[trigger] replies[i],
                    )
            },
            ArtifactProgress::Removing { failed, left, reason } => {
                &&& 0 < left <= failed < artifacts.len()
                &&& replies.len() == 2 * artifacts.len() + failed + 1 + (failed - left)
                &&& unfit_artifact(style, artifacts, payloads) is None
                &&& (replies[2 * artifacts.len() + failed] matches SessionReply::Written(Err(text))
                    && text@ == reason)
                &&& forall|i: int|
                    0 <= i < 2 * artifacts.len() + failed ==> is_artifact_accepted(
                        artifacts,
                        i,
                        #[trigger] replies[i],
                    )
            },
            ArtifactProgress::Restored => {
                &&& unfit_artifact(style, artifacts, payloads) is None
                &&& 3 * artifacts.len() <= replies.len()
                &&& forall|i: int|
                    0 <= i < 3 * artifacts.len() ==> is_artifact_accepted(
                        artifacts,
                        i,
                        #[trigger] replies[i],
                    )
            },
            ArtifactProgress::Failed(_) => true,
        },
    decreases replies.len(),
{
    if unfit_artifact(style, artifacts, payloads) is None && replies.len() > 0 {
        let before = replies.drop_last();
        lemma_artifacts_follow_plan(style, artifacts, payloads, before);
        let count = match artifact_progress(style, artifacts, payloads, before) {
            ArtifactProgress::Planned(index) => index,
            ArtifactProgress::Removing { failed, left, reason } => 2 * artifacts.len() + failed,
            ArtifactProgress::Restored => 3 * artifacts.len() as int,
            ArtifactProgress::Failed(_) => 0,
        };
        assert forall|i: int| 0 <= i < count implies is_artifact_accepted(
            artifacts,
            i,
            #[trigger] replies[i],
        ) by {
            assert(is_artifact_accepted(artifacts, i, before[i]));
        }
    }
}

/// No directory is made, and no file written or removed, before all of this is known:
/// every artifact has an artifact path, every payload decodes, and none of the
/// artifacts is there already.
pub proof fn lemma_artifact_checks_come_first(
    style: PathStyle,
    artifacts: Seq<StoredFile>,
    payloads: Seq<Payload>,
    replies: Seq<SessionReply>,
)
    requires
        payloads.len() == artifacts.len(),
        is_artifact_history(style, artifacts, payloads, replies),
        artifact_step(
            artifacts,
            payloads,
            artifact_progress(style, artifacts, payloads, replies),
        ) matches StepView::Ask(request) && !(request is ProbeFile),
    ensures
        forall|i: int|
            0 <= i < artifacts.len() ==> paths::artifact_path_error(
                style,
                (#[trigger] artifacts[i]).path,
            ) is None,
        forall|i: int| 0 <= i < payloads.len() ==> (#[trigger] payloads[i]) is Ok,
        artifacts.len() <= replies.len(),
        forall|i: int|
            0 <= i < artifacts.len() ==> #[trigger] replies[i] == SessionReply::Exists(false),
{
    lemma_artifact_plan(artifacts, payloads);
    lemma_artifacts_follow_plan(style, artifacts, payloads, replies);
    let checks = Seq::new(
        artifacts.len(),
        |i: int| artifact_error(style, artifacts[i].path, payloads[i]),
    );
    crate::error::lemma_first_error_none(checks);
    assert forall|i: int| 0 <= i < artifacts.len() implies paths::artifact_path_error(
        style,
        (#[trigger] artifacts[i]).path,
    ) is None by {
        assert(checks[i] is None);
    }
    assert forall|i: int| 0 <= i < payloads.len() implies (#[trigger] payloads[i]) is Ok by {
        assert(checks[i] is None);
    }
    assert forall|i: int| 0 <= i < artifacts.len() implies #[trigger] replies[i]
        == SessionReply::Exists(false) by {
        assert(is_artifact_accepted(artifacts, i, replies[i]));
        let earlier = replies.take(i);
        lemma_artifacts_follow_plan(style, artifacts, payloads, earlier);
        assert(artifact_step(
            artifacts,
            payloads,
            artifact_progress(style, artifacts, payloads, earlier),
        ) is Ask);
        assert(replies[i] is Exists);
    }
}

/// Only what this restoration wrote is ever removed: a removal is asked for only
/// where the write of that artifact succeeded.
pub proof fn lemma_only_written_artifacts_are_removed(
    style: PathStyle,
    artifacts: Seq<StoredFile>,
    payloads: Seq<Payload>,
    replies: Seq<SessionReply>,
)
    requires
        is_artifact_history(style, artifacts, payloads, replies),
        artifact_progress(style, artifacts, payloads, replies) is Removing,
    ensures
        ({
            let index = artifact_progress(style, artifacts, payloads, replies)->left - 1;
            &&& 0 <= index < artifacts.len()
            &&& artifact_step(
                artifacts,
                payloads,
                artifact_progress(style, artifacts, payloads, replies),
            ) == StepView::<SessionRequestView, ()>::Ask(
                SessionRequestView::RemoveFile(artifacts[index].path),
            )
            &&& replies[2 * artifacts.len() + index] matches SessionReply::Written(Ok(_))
        }),
{
    lemma_artifact_plan(artifacts, payloads);
    lemma_artifacts_follow_plan(style, artifacts, payloads, replies);
    let position = 2 * artifacts.len() + artifact_progress(style, artifacts, payloads, replies)->left - 1;
    assert(is_artifact_accepted(artifacts, position, replies[position]));
    let earlier = replies.take(position);
    lemma_artifacts_follow_plan(style, artifacts, payloads, earlier);
    assert(artifact_step(
        artifacts,
        payloads,
        artifact_progress(style, artifacts, payloads, earlier),
    ) is Ask);
    match artifact_progress(style, artifacts, payloads, earlier) {
        ArtifactProgress::Planned(_) => {},
        ArtifactProgress::Removing { failed, left, reason } => {
            let bad = 2 * artifacts.len() + failed;
            assert(is_artifact_accepted(artifacts, bad, replies[bad]));
            assert(earlier[bad] == replies[bad]);
            assert(false);
        },
        _ => {},
    }
    assert(replies[position] is Written);
}

/// Behind a write that failed, the artifacts written before it are removed from the
/// last to the first, and then the restoration fails with an error that names the
/// artifact. `removals` holds the replies to the removals so far.
pub proof fn lemma_failed_artifact_write_is_undone(
    style: PathStyle,
    artifacts: Seq<StoredFile>,
    payloads: Seq<Payload>,
    replies: Seq<SessionReply>,
    failed: int,
    reason: String,
    removals: Seq<SessionReply>,
)
    requires
        0 <= failed < artifacts.len(),
        artifact_progress(style, artifacts, payloads, replies) == ArtifactProgress::Planned(
            2 * artifacts.len() + failed,
        ),
        removals.len() <= failed,
    ensures
        ({
            let all = replies.push(SessionReply::Written(Err(reason))) + removals;
            artifact_step(
                artifacts,
                payloads,
                artifact_progress(style, artifacts, payloads, all),
            ) == if removals.len() < failed {
                StepView::<SessionRequestView, ()>::Ask(
                    SessionRequestView::RemoveFile(artifacts[failed - 1 - removals.len()].path),
                )
            } else {
                StepView::Finish(
                    Err(
                        ErrorView::Io(
                            "Failed to restore session artifact "@ + artifacts[failed].path
                                + ": "@ + reason@,
                        ),
                    ),
                )
            }
        }),
        ({
            let all = replies.push(SessionReply::Written(Err(reason))) + removals;
            artifact_progress(style, artifacts, payloads, all) == removal(
                artifacts,
                failed,
                failed - removals.len(),
                reason@,
            )
        }),
    decreases removals.len(),
{
    let written = replies.push(SessionReply::Written(Err(reason)));
    let all = written + removals;
    lemma_artifacts_follow_plan(style, artifacts, payloads, replies);
    if removals.len() == 0 {
        assert(all =~= written);
        assert(written.drop_last() =~= replies);
    } else {
        lemma_failed_artifact_write_is_undone(
            style,
            artifacts,
            payloads,
            replies,
            failed,
            reason,
            removals.drop_last(),
        );
        assert(all.drop_last() =~= written + removals.drop_last());
    }
}

/// As long as every reply is accepted the restoration asks for its plan, request by
/// request, and behind the last it succeeds.
pub proof fn lemma_accepted_artifact_replies_lead_to_success(
    style: PathStyle,
    artifacts: Seq<StoredFile>,
    payloads: Seq<Payload>,
    replies: Seq<SessionReply>,
)
    requires
        unfit_artifact(style, artifacts, payloads) is None,
        replies.len() <= 3 * artifacts.len(),
        forall|i: int|
            0 <= i < replies.len() ==> is_artifact_accepted(artifacts, i, #[trigger] replies[i]),
    ensures
        artifact_progress(style, artifacts, payloads, replies) == planned(
            artifacts,
            replies.len() as int,
        ),
        artifact_step(
            artifacts,
            payloads,
            artifact_progress(style, artifacts, payloads, replies),
        ) == if replies.len() < artifact_plan(artifacts, payloads).len() {
            StepView::<SessionRequestView, ()>::Ask(
                artifact_plan(artifacts, payloads)[replies.len() as int],
            )
        } else {
            StepView::Finish(Ok(()))
        },
    decreases replies.len(),
{
    lemma_artifact_plan(artifacts, payloads);
    if replies.len() > 0 {
        let before = replies.drop_last();
        assert forall|i: int| 0 <= i < before.len() implies is_artifact_accepted(
            artifacts,
            i,
            #[trigger] before[i],
        ) by {
            assert(is_artifact_accepted(artifacts, i, replies[i]));
        }
        lemma_accepted_artifact_replies_lead_to_success(style, artifacts, payloads, before);
        let index = replies.len() - 1;
        assert(is_artifact_accepted(artifacts, index, replies[index]));
    }
}

/// A restoration that succeeds wrote every artifact.
pub proof fn lemma_restored_artifacts_are_all_written(
    style: PathStyle,
    artifacts: Seq<StoredFile>,
    payloads: Seq<Payload>,
    replies: Seq<SessionReply>,
    index: int,
)
    requires
        is_artifact_history(style, artifacts, payloads, replies),
        artifact_progress(style, artifacts, payloads, replies) is Restored,
        0 <= index < artifacts.len(),
    ensures
        replies.len() == 3 * artifacts.len(),
        replies[2 * artifacts.len() + index] matches SessionReply::Written(Ok(_)),
{
    lemma_artifact_plan(artifacts, payloads);
    lemma_artifacts_follow_plan(style, artifacts, payloads, replies);
    let count = 3 * artifacts.len() as int;
    if replies.len() > count {
        let last = replies.len() - 1;
        let before = replies.take(last);
        assert(before =~= replies.drop_last());
        lemma_artifacts_follow_plan(style, artifacts, payloads, before);
        assert(artifact_step(
            artifacts,
            payloads,
            artifact_progress(style, artifacts, payloads, before),
        ) is Ask);
    }
    let position = 2 * artifacts.len() + index;
    assert(is_artifact_accepted(artifacts, position, replies[position]));
    let earlier = replies.take(position);
    lemma_artifacts_follow_plan(style, artifacts, payloads, earlier);
    assert(artifact_step(
        artifacts,
        payloads,
        artifact_progress(style, artifacts, payloads, earlier),
    ) is Ask);
    match artifact_progress(style, artifacts, payloads, earlier) {
        ArtifactProgress::Removing { failed, left, reason } => {
            let bad = 2 * artifacts.len() + failed;
            assert(is_artifact_accepted(artifacts, bad, replies[bad]));
            assert(earlier[bad] == replies[bad]);
        },
        _ => {},
    }
}

/// Restoring what a capture handed out writes, under the same paths, the very bytes
/// that the capture read, as long as the stored payloads hold those bytes; and the
/// payloads of every complete capture do.
pub proof fn lemma_restore_writes_what_was_found(style: PathStyle, replies: Seq<SessionReply>)
    requires
        artifact_capture::walk_after(style, replies).stage is Captured,
    ensures
        ({
            let files = artifact_capture::found_in_order(style, replies);
            let artifacts = artifact_capture::captured_artifacts(style, replies);
            let payloads = restore::decoded_payloads(artifacts);
            let count = artifacts.len() as int;
            capture::holds_contents(artifacts, artifact_capture::contents_found(files)) ==> {
                &&& unfit_artifact(style, artifacts, payloads) is None
                &&& artifact_plan(artifacts, payloads).skip(2 * count) == files.map_values(
                    |file: FoundFile| SessionRequestView::WriteFile(file.path, file.contents),
                )
            }
        }),
{
    let files = artifact_capture::found_in_order(style, replies);
    let artifacts = artifact_capture::captured_artifacts(style, replies);
    let payloads = restore::decoded_payloads(artifacts);
    let count = artifacts.len() as int;
    if capture::holds_contents(artifacts, artifact_capture::contents_found(files)) {
        artifact_capture::lemma_captured_artifacts_are_restorable(style, replies);
        let path_checks = artifacts.map_values(
            |artifact: StoredFile| paths::artifact_path_error(style, artifact.path),
        );
        crate::error::lemma_first_error_none(path_checks);
        let checks = Seq::new(
            artifacts.len(),
            |i: int| artifact_error(style, artifacts[i].path, payloads[i]),
        );
        crate::error::lemma_first_error_none(checks);
        assert forall|i: int| 0 <= i < checks.len() implies (#[trigger] checks[i]) is None by {
            assert(path_checks[i] is None);
            assert(payload::base64_contents(artifacts[i].payload) is Ok);
        }
        lemma_artifact_plan(artifacts, payloads);
        let writes = artifact_plan(artifacts, payloads).skip(2 * count);
        assert forall|i: int| 0 <= i < count implies (#[trigger] writes[i])
            == SessionRequestView::WriteFile(files[i].path, files[i].contents) by {
            assert(writes[i] == artifact_plan(artifacts, payloads)[2 * count + i]);
            assert(payload::base64_contents(artifacts[i].payload) == Ok::<Seq<u8>, Seq<char>>(
                files[i].contents,
            ));
        }
        assert(writes =~= files.map_values(
            |file: FoundFile| SessionRequestView::WriteFile(file.path, file.contents),
        ));
    }
}

} // verus!
