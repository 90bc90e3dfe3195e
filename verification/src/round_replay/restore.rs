//! Restoring the state of a workspace from a snapshot, without overwriting anything.

use crate::error::{BitFunError, BitFunResult, ErrorView};
use crate::round_replay::capture;
use crate::round_replay::checkpoint;
use crate::round_replay::checkpoint::{
    RoundWorkspaceFile, RoundWorkspaceSnapshot, SnapshotView, StoredFile,
};
use crate::round_replay::paths::PathStyle;
use crate::round_replay::payload;
use crate::round_replay::payload::decode_payload;
use crate::round_replay::step::{Step, StepView};
use crate::round_replay::workspace;
use crate::round_replay::workspace::{
    run_git, RequestView, ShellOutput, WorkspaceReply, WorkspaceRequest, GIT_HEAD,
};
use crate::text;
use crate::text::{same_text, trim};
use vstd::prelude::*;

verus! {

/// Asks for everything in the workspace that differs from the commit.
pub const GIT_STATUS: &'static str = "git status --porcelain --untracked-files=all";

/// Where the patch is put before it is applied.
pub const PATCH_FILE: &'static str = ".git/bitfun-round-replay.patch";

pub const GIT_CHECK_PATCH: &'static str =
    "git apply --check --binary --whitespace=nowarn .git/bitfun-round-replay.patch";

pub const GIT_APPLY_PATCH: &'static str =
    "git apply --binary --whitespace=nowarn .git/bitfun-round-replay.patch";

/// Puts the workspace back to the commit.
pub const GIT_ROLL_BACK: &'static str = "git reset --hard HEAD && git clean -fd";

/// The decoded contents of a stored file, or why it has none.
pub type Payload = Result<Seq<u8>, Seq<char>>;

pub open spec fn payload_error(path: Seq<char>, payload: Payload) -> Option<ErrorView> {
    match payload {
        Ok(_) => None,
        Err(reason) => Some(
            ErrorView::Validation(
                "Invalid base64 for checkpoint file "@ + path + ": "@ + reason,
            ),
        ),
    }
}

/// The error of the first file whose payload does not decode.
pub open spec fn payloads_error(files: Seq<StoredFile>, payloads: Seq<Payload>) -> Option<
    ErrorView,
> {
    ErrorView::first(
        Seq::new(files.len(), |i: int| payload_error(files[i].path, payloads[i])),
    )
}

/// What the payloads of some stored files decode to.
pub open spec fn decoded_payloads(files: Seq<StoredFile>) -> Seq<Payload> {
    files.map_values(|file: StoredFile| payload::base64_contents(file.payload))
}

pub open spec fn payload_views(payloads: Seq<Result<Vec<u8>, String>>) -> Seq<Payload> {
    payloads.map_values(|payload: Result<Vec<u8>, String>| payload::decoded_view(payload))
}

/// The requests that test whether an untracked file is in the way.
pub open spec fn probes(files: Seq<StoredFile>) -> Seq<RequestView> {
    files.map_values(|file: StoredFile| RequestView::ProbeFile(file.path))
}

/// The requests that bring the patch in; none for an empty patch.
pub open spec fn staging(patch: Seq<char>) -> Seq<RequestView> {
    if patch.len() == 0 {
        Seq::empty()
    } else {
        seq![
            RequestView::WriteFile(PATCH_FILE@, vstd::utf8::encode_utf8(patch)),
            RequestView::RunGit(GIT_CHECK_PATCH@),
            RequestView::RunGit(GIT_APPLY_PATCH@),
        ]
    }
}

/// The requests that write the untracked files.
pub open spec fn writes(files: Seq<StoredFile>, payloads: Seq<Payload>) -> Seq<RequestView> {
    Seq::new(
        files.len(),
        |i: int| RequestView::WriteFile(files[i].path, payloads[i]->Ok_0),
    )
}

/// Everything that a restoration asks for when nothing goes wrong: where the workspace
/// is, whether it is clean, whether any file is in the way; then the patch, then the files.
pub open spec fn restore_plan(snapshot: SnapshotView, payloads: Seq<Payload>) -> Seq<RequestView> {
    seq![RequestView::RunGit(GIT_HEAD@), RequestView::RunGit(GIT_STATUS@)] + probes(
        snapshot.untracked_files,
    ) + staging(snapshot.tracked_patch) + writes(snapshot.untracked_files, payloads)
}

/// How many requests come before the first that changes the workspace.
pub open spec fn checks_len(snapshot: SnapshotView) -> int {
    2int + snapshot.untracked_files.len()
}

/// How many requests come before the first untracked file is written.
pub open spec fn writes_start(snapshot: SnapshotView) -> int {
    checks_len(snapshot) + staging(snapshot.tracked_patch).len()
}

/// Why the workspace does not stand at the commit of the snapshot.
pub open spec fn head_error(baseline: Seq<char>, reply: WorkspaceReply) -> Option<ErrorView> {
    match workspace::git_output(reply->Shell_0) {
        Err(error) => Some(error),
        Ok(printed) => if text::trimmed(printed) == baseline {
            None
        } else {
            Some(
                ErrorView::Validation(
                    "Round replay requires baseline commit "@ + baseline
                        + ", but the workspace is at "@ + text::trimmed(printed),
                ),
            )
        },
    }
}

/// Why the workspace is not known to be clean.
pub open spec fn status_error(reply: WorkspaceReply) -> Option<ErrorView> {
    match workspace::git_output(reply->Shell_0) {
        Err(error) => Some(error),
        Ok(printed) => if text::is_blank(printed) {
            None
        } else {
            Some(
                ErrorView::Validation(
                    "Round replay requires a clean workspace before applying the checkpoint"@,
                ),
            )
        },
    }
}

/// Why a file may not be written at `path`.
pub open spec fn probe_error(path: Seq<char>, reply: WorkspaceReply) -> Option<ErrorView> {
    match reply {
        WorkspaceReply::Exists(Err(reason)) => Some(ErrorView::Io(reason@)),
        WorkspaceReply::Exists(Ok(true)) => Some(
            ErrorView::Validation(
                "Round replay refuses to overwrite existing untracked file: "@ + path,
            ),
        ),
        _ => None,
    }
}

/// Why the patch could not be put in place or applied.
pub open spec fn staging_error(reply: WorkspaceReply) -> Option<ErrorView> {
    match reply {
        WorkspaceReply::Written(Err(reason)) => Some(
            ErrorView::Io("Failed to stage round replay patch: "@ + reason@),
        ),
        WorkspaceReply::Shell(outcome) => match workspace::git_output(outcome) {
            Err(error) => Some(error),
            Ok(_) => None,
        },
        _ => None,
    }
}

/// Why the reply to the request at `index` of the plan ends the restoration at once.
/// A file that cannot be written does not: it is rolled back first.
pub open spec fn reply_error(
    snapshot: SnapshotView,
    index: int,
    reply: WorkspaceReply,
) -> Option<ErrorView> {
    if index == 0 {
        head_error(snapshot.baseline_commit, reply)
    } else if index == 1 {
        status_error(reply)
    } else if index < checks_len(snapshot) {
        probe_error(snapshot.untracked_files[index - 2].path, reply)
    } else if index < writes_start(snapshot) {
        staging_error(reply)
    } else {
        None
    }
}

/// The reply to the request at `index` of the plan is that a file could not be written.
pub open spec fn is_failed_write(
    snapshot: SnapshotView,
    index: int,
    reply: WorkspaceReply,
) -> bool {
    index >= writes_start(snapshot) && (reply matches WorkspaceReply::Written(Err(_)))
}

/// How a roll back is reported.
pub open spec fn rollback_report(outcome: Result<ShellOutput, String>) -> Seq<char> {
    match workspace::git_output(outcome) {
        Ok(_) => "ok"@,
        Err(error) => "failed: "@ + error.message(),
    }
}

/// The error behind a file that could not be written and the roll back that followed.
pub open spec fn write_error(
    path: Seq<char>,
    written: WorkspaceReply,
    rolled_back: WorkspaceReply,
) -> ErrorView {
    ErrorView::Io(
        "Failed to restore checkpoint file "@ + path + ": "@ + (written->Written_0->Err_0)@
            + "; rollback="@ + rollback_report(rolled_back->Shell_0),
    )
}

/// What is done once the first `count` requests of the plan have gone well.
pub open spec fn next_in_plan(snapshot: SnapshotView, payloads: Seq<Payload>, count: int) -> Result<
    Option<RequestView>,
    ErrorView,
> {
    if count == checks_len(snapshot) && payloads_error(snapshot.untracked_files, payloads) is Some {
        Err(payloads_error(snapshot.untracked_files, payloads)->0)
    } else if count < restore_plan(snapshot, payloads).len() {
        Ok(Some(restore_plan(snapshot, payloads)[count]))
    } else {
        Ok(None)
    }
}

/// Where a restoration stands after some replies: what it asks next, nothing if it is
/// complete, or why it failed.
pub open spec fn restore_progress(
    style: PathStyle,
    snapshot: SnapshotView,
    payloads: Seq<Payload>,
    replies: Seq<WorkspaceReply>,
) -> Result<Option<RequestView>, ErrorView>
    decreases replies.len(),
{
    let index = replies.len() - 1;
    if snapshot.error(style) is Some {
        Err(snapshot.error(style)->0)
    } else if replies.len() == 0 {
        next_in_plan(snapshot, payloads, 0)
    } else {
        match restore_progress(style, snapshot, payloads, replies.drop_last()) {
            Ok(Some(RequestView::RollBack(_))) => Err(
                write_error(
                    snapshot.untracked_files[index - 1 - writes_start(snapshot)].path,
                    replies[index - 1],
                    replies[index],
                ),
            ),
            Ok(Some(_)) => match reply_error(snapshot, index, replies[index]) {
                Some(error) => Err(error),
                None => if is_failed_write(snapshot, index, replies[index]) {
                    Ok(Some(RequestView::RollBack(GIT_ROLL_BACK@)))
                } else {
                    next_in_plan(snapshot, payloads, index + 1)
                },
            },
            finished => finished,
        }
    }
}

/// What a restoration does after some replies.
pub open spec fn restore_step(
    style: PathStyle,
    snapshot: SnapshotView,
    payloads: Seq<Payload>,
    replies: Seq<WorkspaceReply>,
) -> StepView<RequestView, ()> {
    match restore_progress(style, snapshot, payloads, replies) {
        Err(error) => StepView::Finish(Err(error)),
        Ok(Some(request)) => StepView::Ask(request),
        Ok(None) => StepView::Finish(Ok(())),
    }
}

/// The plan, request by request.
pub proof fn lemma_restore_plan(snapshot: SnapshotView, payloads: Seq<Payload>)
    ensures
        restore_plan(snapshot, payloads).len() == writes_start(snapshot)
            + snapshot.untracked_files.len(),
        restore_plan(snapshot, payloads)[0] == RequestView::RunGit(GIT_HEAD@),
        restore_plan(snapshot, payloads)[1] == RequestView::RunGit(GIT_STATUS@),
        forall|i: int|
            2 <= i < checks_len(snapshot) ==> #[trigger] restore_plan(snapshot, payloads)[i]
                == RequestView::ProbeFile(snapshot.untracked_files[i - 2].path),
        forall|i: int|
            checks_len(snapshot) <= i < writes_start(snapshot) ==> #[trigger] restore_plan(
                snapshot,
                payloads,
            )[i] == staging(snapshot.tracked_patch)[i - checks_len(snapshot)],
        forall|i: int|
            writes_start(snapshot) <= i < restore_plan(snapshot, payloads).len()
                ==> #[trigger] restore_plan(snapshot, payloads)[i] == RequestView::WriteFile(
                snapshot.untracked_files[i - writes_start(snapshot)].path,
                payloads[i - writes_start(snapshot)]->Ok_0,
            ),
{
}

enum RestorePhase {
    Head,
    Status,
    Probe(usize),
    StagePatch,
    CheckPatch,
    ApplyPatch,
    Write(usize),
    RollBack(usize, String),
    Finished,
}

/// A restoration in progress.
pub struct WorkspaceRestore {
    style: PathStyle,
    snapshot: RoundWorkspaceSnapshot,
    payloads: Vec<Result<Vec<u8>, String>>,
    phase: RestorePhase,
    replies: Ghost<Seq<WorkspaceReply>>,
}

impl RestorePhase {
    /// The index in the plan of the request that the phase waits on.
    spec fn index(self, snapshot: SnapshotView) -> int {
        match self {
            RestorePhase::Head => 0,
            RestorePhase::Status => 1,
            RestorePhase::Probe(i) => 2 + i,
            RestorePhase::StagePatch => checks_len(snapshot),
            RestorePhase::CheckPatch => checks_len(snapshot) + 1,
            RestorePhase::ApplyPatch => checks_len(snapshot) + 2,
            RestorePhase::Write(i) => writes_start(snapshot) + i,
            RestorePhase::RollBack(i, _) => writes_start(snapshot) + i + 1,
            RestorePhase::Finished => 0,
        }
    }

    /// Whether the workspace may already have been changed.
    spec fn is_past_checks(self) -> bool {
        self is StagePatch || self is CheckPatch || self is ApplyPatch || self is Write
    }

    spec fn is_in_range(self, snapshot: SnapshotView) -> bool {
        match self {
            RestorePhase::Probe(i) => i < snapshot.untracked_files.len(),
            RestorePhase::Write(i) => i < snapshot.untracked_files.len(),
            RestorePhase::RollBack(i, _) => i < snapshot.untracked_files.len(),
            RestorePhase::StagePatch => snapshot.tracked_patch.len() > 0,
            RestorePhase::CheckPatch => snapshot.tracked_patch.len() > 0,
            RestorePhase::ApplyPatch => snapshot.tracked_patch.len() > 0,
            _ => true,
        }
    }
}

impl WorkspaceRestore {
    /// How the paths of the workspace are written.
    pub closed spec fn style(self) -> PathStyle {
        self.style
    }

    /// The snapshot that is restored.
    pub closed spec fn snapshot(self) -> SnapshotView {
        self.snapshot@
    }

    /// What its payloads decoded to.
    pub closed spec fn payloads(self) -> Seq<Payload> {
        payload_views(self.payloads@)
    }

    /// The replies that the restoration has taken so far.
    pub closed spec fn replies(self) -> Seq<WorkspaceReply> {
        self.replies@
    }

    /// Whether `reply` answers what the restoration last asked.
    pub open spec fn awaits(self, reply: WorkspaceReply) -> bool {
        restore_progress(self.style(), self.snapshot(), self.payloads(), self.replies()) matches Ok(
            Some(request),
        ) && request.is_answered_by(reply)
    }

    #[verifier::type_invariant]
    spec fn is_consistent(self) -> bool {
        let snapshot = self.snapshot@;
        let payloads = payload_views(self.payloads@);
        let replies = self.replies@;
        let progress = restore_progress(self.style, snapshot, payloads, replies);
        &&& payloads.len() == snapshot.untracked_files.len()
        &&& self.phase.is_in_range(snapshot)
        &&& self.phase.is_past_checks() ==> payloads_error(snapshot.untracked_files, payloads)
            is None
        &&& match self.phase {
            RestorePhase::Finished => !(progress matches Ok(Some(_))),
            RestorePhase::RollBack(_, reason) => {
                &&& replies.len() == self.phase.index(snapshot)
                &&& progress == Ok::<Option<RequestView>, ErrorView>(
                    Some(RequestView::RollBack(GIT_ROLL_BACK@)),
                )
                &&& replies.last() == WorkspaceReply::Written(Err(reason))
            },
            _ => {
                &&& replies.len() == self.phase.index(snapshot)
                &&& progress == Ok::<Option<RequestView>, ErrorView>(
                    Some(restore_plan(snapshot, payloads)[self.phase.index(snapshot)]),
                )
            },
        }
    }

    /// Begins a restoration, after decoding every payload of the snapshot.
    pub fn new(style: PathStyle, snapshot: RoundWorkspaceSnapshot) -> (start: (
        Self,
        Step<WorkspaceRequest, ()>,
    ))
        ensures
            start.0.style() == style,
            start.0.snapshot() == snapshot@,
            start.0.payloads() == decoded_payloads(snapshot@.untracked_files),
            start.0.replies() == Seq::<WorkspaceReply>::empty(),
            start.1@ == restore_step(
                style,
                start.0.snapshot(),
                start.0.payloads(),
                start.0.replies(),
            ),
    {
        let payloads = decode_files(&snapshot.untracked_files);
        assert(payloads@.len() == payload_views(payloads@).len());
        Self::with_payloads(style, snapshot, payloads)
    }

    /// Begins a restoration of a snapshot whose payloads decode as given.
    pub fn with_payloads(
        style: PathStyle,
        snapshot: RoundWorkspaceSnapshot,
        payloads: Vec<Result<Vec<u8>, String>>,
    ) -> (start: (Self, Step<WorkspaceRequest, ()>))
        requires
            payloads@.len() == snapshot@.untracked_files.len(),
        ensures
            start.0.style() == style,
            start.0.snapshot() == snapshot@,
            start.0.payloads() == payload_views(payloads@),
            start.0.replies() == Seq::<WorkspaceReply>::empty(),
            start.1@ == restore_step(
                style,
                start.0.snapshot(),
                start.0.payloads(),
                start.0.replies(),
            ),
    {
        let ghost empty = Seq::<WorkspaceReply>::empty();
        match snapshot.validate(style) {
            Err(error) => (
                WorkspaceRestore {
                    style,
                    snapshot,
                    payloads,
                    phase: RestorePhase::Finished,
                    replies: Ghost(empty),
                },
                Step::Finish(Err(error)),
            ),
            Ok(()) => (
                WorkspaceRestore {
                    style,
                    snapshot,
                    payloads,
                    phase: RestorePhase::Head,
                    replies: Ghost(empty),
                },
                Step::Ask(WorkspaceRequest::RunGit(GIT_HEAD)),
            ),
        }
    }

    /// Ends with `outcome`.
    fn finish(
        style: PathStyle,
        snapshot: RoundWorkspaceSnapshot,
        payloads: Vec<Result<Vec<u8>, String>>,
        Ghost(replies): Ghost<Seq<WorkspaceReply>>,
        outcome: BitFunResult<()>,
    ) -> (next: (Self, Step<WorkspaceRequest, ()>))
        requires
            payloads@.len() == snapshot@.untracked_files.len(),
            Step::<WorkspaceRequest, ()>::Finish(outcome)@ == restore_step(style, snapshot@, payload_views(payloads@), replies),
        ensures
            next.0.style() == style,
            next.0.snapshot() == snapshot@,
            next.0.payloads() == payload_views(payloads@),
            next.0.replies() == replies,
            next.1@ == restore_step(style, snapshot@, payload_views(payloads@), replies),
    {
        (
            WorkspaceRestore {
                style,
                snapshot,
                payloads,
                phase: RestorePhase::Finished,
                replies: Ghost(replies),
            },
            Step::Finish(outcome),
        )
    }

    /// Goes on once everything up to the phase before has gone well.
    fn proceed(
        style: PathStyle,
        snapshot: RoundWorkspaceSnapshot,
        payloads: Vec<Result<Vec<u8>, String>>,
        phase: RestorePhase,
        Ghost(replies): Ghost<Seq<WorkspaceReply>>,
    ) -> (next: (Self, Step<WorkspaceRequest, ()>))
        requires
            payloads@.len() == snapshot@.untracked_files.len(),
            restore_progress(style, snapshot@, payload_views(payloads@), replies) == next_in_plan(
                snapshot@,
                payload_views(payloads@),
                replies.len() as int,
            ),
            phase.index(snapshot@) == replies.len(),
            !(phase is Finished || phase is RollBack || phase is Head),
            phase matches RestorePhase::Probe(i) ==> i <= snapshot@.untracked_files.len(),
            phase matches RestorePhase::Write(i) ==> {
                &&& i <= snapshot@.untracked_files.len()
                &&& i > 0 || snapshot@.tracked_patch.len() > 0
            },
            phase.is_past_checks() ==> payloads_error(
                snapshot@.untracked_files,
                payload_views(payloads@),
            ) is None,
            !(phase is Probe || phase is Write) ==> phase.is_in_range(snapshot@) && !(
            phase is StagePatch),
        ensures
            next.0.style() == style,
            next.0.snapshot() == snapshot@,
            next.0.payloads() == payload_views(payloads@),
            next.0.replies() == replies,
            next.1@ == restore_step(style, snapshot@, payload_views(payloads@), replies),
    {
        let ghost files = snapshot@.untracked_files;
        let ghost views = payload_views(payloads@);
        let count = snapshot.untracked_files.len();
        assert(files.len() == count && views.len() == count);
        proof {
            lemma_restore_plan(snapshot@, views);
        }
        let mut phase = phase;
        if let RestorePhase::Probe(i) = phase {
            if i < count {
                let path = snapshot.untracked_files[i].relative_path.clone();
                assert(files[i as int].path == path@);
                return (
                    WorkspaceRestore { style, snapshot, payloads, phase, replies: Ghost(replies) },
                    Step::Ask(WorkspaceRequest::ProbeFile(path)),
                );
            }
            match check_payloads(&snapshot.untracked_files, &payloads) {
                Ok(()) => {},
                Err(error) => {
                    return Self::finish(style, snapshot, payloads, Ghost(replies), Err(error));
                },
            }
            phase = if snapshot.tracked_patch.as_str().is_empty() {
                RestorePhase::Write(0)
            } else {
                RestorePhase::StagePatch
            };
        }
        let request = match phase {
            RestorePhase::Status => WorkspaceRequest::RunGit(GIT_STATUS),
            RestorePhase::StagePatch => WorkspaceRequest::WriteFile(
                PATCH_FILE.to_string(),
                snapshot.tracked_patch.as_str().as_bytes_vec(),
            ),
            RestorePhase::CheckPatch => WorkspaceRequest::RunGit(GIT_CHECK_PATCH),
            RestorePhase::ApplyPatch => WorkspaceRequest::RunGit(GIT_APPLY_PATCH),
            RestorePhase::Write(i) => {
                if i == count {
                    return Self::finish(style, snapshot, payloads, Ghost(replies), Ok(()));
                }
                let path = snapshot.untracked_files[i].relative_path.clone();
                assert(files[i as int].path == path@);
                assert(views[i as int] is Ok) by {
                    let checks = Seq::new(
                        files.len(),
                        |j: int| payload_error(files[j].path, views[j]),
                    );
                    crate::error::lemma_first_error_none(checks);
                    assert(checks[i as int] is None);
                }
                match &payloads[i] {
                    Ok(contents) => {
                        let contents = contents.clone();
                        assert(views[i as int] == payload::decoded_view(payloads@[i as int]));
                        WorkspaceRequest::WriteFile(path, contents)
                    },
                    Err(_) => unreached(),
                }
            },
            _ => unreached(),
        };
        (
            WorkspaceRestore { style, snapshot, payloads, phase, replies: Ghost(replies) },
            Step::Ask(request),
        )
    }
}

/// Decodes the payload of every file.
fn decode_files(files: &Vec<RoundWorkspaceFile>) -> (payloads: Vec<Result<Vec<u8>, String>>)
    ensures
        payload_views(payloads@) == decoded_payloads(checkpoint::stored_files(files@)),
{
    let mut payloads: Vec<Result<Vec<u8>, String>> = Vec::new();
    let mut i: usize = 0;
    while i < files.len()
        invariant
            i <= files.len(),
            payloads@.len() == i,
            forall|j: int|
                0 <= j < i ==> payload::decoded_view(#[trigger] payloads@[j])
                    == payload::base64_contents(files@[j]@.payload),
        decreases files.len() - i,
    {
        payloads.push(decode_payload(files[i].contents_base64.as_str()));
        i += 1;
    }
    assert(payload_views(payloads@) =~= decoded_payloads(checkpoint::stored_files(files@)));
    payloads
}

/// Reports the first file whose payload did not decode.
pub fn check_payloads(
    files: &Vec<RoundWorkspaceFile>,
    payloads: &Vec<Result<Vec<u8>, String>>,
) -> (result: BitFunResult<()>)
    requires
        files@.len() == payloads@.len(),
    ensures
        ErrorView::of(result) == payloads_error(
            checkpoint::stored_files(files@),
            payload_views(payloads@),
        ),
{
    let ghost stored = checkpoint::stored_files(files@);
    let ghost views = payload_views(payloads@);
    let ghost checks = Seq::new(
        stored.len(),
        |i: int| payload_error(stored[i].path, views[i]),
    );
    let mut i: usize = 0;
    while i < files.len()
        invariant
            i <= files.len(),
            files@.len() == payloads@.len(),
            stored == checkpoint::stored_files(files@),
            views == payload_views(payloads@),
            checks == Seq::new(
                stored.len(),
                |i: int| payload_error(stored[i].path, views[i]),
            ),
            forall|j: int| 0 <= j < i ==> (#[trigger] checks[j]) is None,
        decreases files.len() - i,
    {
        match &payloads[i] {
            Ok(_) => {},
            Err(reason) => {
                let mut message = "Invalid base64 for checkpoint file ".to_string();
                message.append(files[i].relative_path.as_str());
                message.append(": ");
                message.append(reason.as_str());
                proof {
                    crate::error::lemma_first_error_at(checks, i as int);
                }
                return Err(BitFunError::Validation(message));
            },
        }
        i += 1;
    }
    proof {
        crate::error::lemma_first_error_none(checks);
    }
    Ok(())
}

/// How the outcome of a roll back is reported.
pub fn rollback_workspace_restore(outcome: Result<ShellOutput, String>) -> (report: String)
    ensures
        report@ == rollback_report(outcome),
{
    match run_git(outcome) {
        Ok(_) => "ok".to_string(),
        Err(error) => {
            let mut report = "failed: ".to_string();
            report.append(error.message());
            report
        },
    }
}

/// Takes the reply to the last request, and says what to do next.
pub fn restore_workspace_snapshot(restore: WorkspaceRestore, reply: WorkspaceReply) -> (next: (
    WorkspaceRestore,
    Step<WorkspaceRequest, ()>,
))
    requires
        restore.awaits(reply),
    ensures
        next.0.style() == restore.style(),
        next.0.snapshot() == restore.snapshot(),
        next.0.payloads() == restore.payloads(),
        next.0.replies() == restore.replies().push(reply),
        next.1@ == restore_step(
            restore.style(),
            restore.snapshot(),
            restore.payloads(),
            next.0.replies(),
        ),
{
    proof {
        use_type_invariant(&restore);
    }
    let ghost before = restore.replies@;
    let ghost replies = before.push(reply);
    assert(replies.drop_last() =~= before);
    let WorkspaceRestore { style, snapshot, payloads, phase, replies: _ } = restore;
    assert(snapshot@.untracked_files.len() == snapshot.untracked_files.len());
    proof {
        lemma_restore_plan(snapshot@, payload_views(payloads@));
    }
    match (phase, reply) {
        (RestorePhase::Head, WorkspaceReply::Shell(outcome)) => {
            let printed = match run_git(outcome) {
                Ok(printed) => printed,
                Err(error) => {
                    return WorkspaceRestore::finish(
                        style,
                        snapshot,
                        payloads,
                        Ghost(replies),
                        Err(error),
                    );
                },
            };
            let current_commit = trim(printed.as_str());
            if !same_text(current_commit, snapshot.baseline_commit.as_str()) {
                let mut message = "Round replay requires baseline commit ".to_string();
                message.append(snapshot.baseline_commit.as_str());
                message.append(", but the workspace is at ");
                message.append(current_commit);
                return WorkspaceRestore::finish(
                    style,
                    snapshot,
                    payloads,
                    Ghost(replies),
                    Err(BitFunError::Validation(message)),
                );
            }
            WorkspaceRestore::proceed(style, snapshot, payloads, RestorePhase::Status, Ghost(replies))
        },
        (RestorePhase::Status, WorkspaceReply::Shell(outcome)) => {
            let printed = match run_git(outcome) {
                Ok(printed) => printed,
                Err(error) => {
                    return WorkspaceRestore::finish(
                        style,
                        snapshot,
                        payloads,
                        Ghost(replies),
                        Err(error),
                    );
                },
            };
            proof {
                text::lemma_trimmed_empty_iff_blank(printed@);
            }
            if !trim(printed.as_str()).is_empty() {
                let message =
                    "Round replay requires a clean workspace before applying the checkpoint".to_string();
                return WorkspaceRestore::finish(
                    style,
                    snapshot,
                    payloads,
                    Ghost(replies),
                    Err(BitFunError::Validation(message)),
                );
            }
            WorkspaceRestore::proceed(style, snapshot, payloads, RestorePhase::Probe(0), Ghost(replies))
        },
        (RestorePhase::Probe(i), WorkspaceReply::Exists(outcome)) => {
            match outcome {
                Err(reason) => WorkspaceRestore::finish(
                    style,
                    snapshot,
                    payloads,
                    Ghost(replies),
                    Err(BitFunError::Io(reason)),
                ),
                Ok(true) => {
                    let mut message =
                        "Round replay refuses to overwrite existing untracked file: ".to_string();
                    message.append(snapshot.untracked_files[i].relative_path.as_str());
                    WorkspaceRestore::finish(
                        style,
                        snapshot,
                        payloads,
                        Ghost(replies),
                        Err(BitFunError::Validation(message)),
                    )
                },
                Ok(false) => WorkspaceRestore::proceed(
                    style,
                    snapshot,
                    payloads,
                    RestorePhase::Probe(i + 1),
                    Ghost(replies),
                ),
            }
        },
        (RestorePhase::StagePatch, WorkspaceReply::Written(outcome)) => {
            match outcome {
                Err(reason) => {
                    let mut message = "Failed to stage round replay patch: ".to_string();
                    message.append(reason.as_str());
                    WorkspaceRestore::finish(
                        style,
                        snapshot,
                        payloads,
                        Ghost(replies),
                        Err(BitFunError::Io(message)),
                    )
                },
                Ok(_) => WorkspaceRestore::proceed(
                    style,
                    snapshot,
                    payloads,
                    RestorePhase::CheckPatch,
                    Ghost(replies),
                ),
            }
        },
        (RestorePhase::CheckPatch, WorkspaceReply::Shell(outcome)) => {
            match run_git(outcome) {
                Err(error) => WorkspaceRestore::finish(
                    style,
                    snapshot,
                    payloads,
                    Ghost(replies),
                    Err(error),
                ),
                Ok(_) => WorkspaceRestore::proceed(
                    style,
                    snapshot,
                    payloads,
                    RestorePhase::ApplyPatch,
                    Ghost(replies),
                ),
            }
        },
        (RestorePhase::ApplyPatch, WorkspaceReply::Shell(outcome)) => {
            match run_git(outcome) {
                Err(error) => WorkspaceRestore::finish(
                    style,
                    snapshot,
                    payloads,
                    Ghost(replies),
                    Err(error),
                ),
                Ok(_) => WorkspaceRestore::proceed(
                    style,
                    snapshot,
                    payloads,
                    RestorePhase::Write(0),
                    Ghost(replies),
                ),
            }
        },
        (RestorePhase::Write(i), WorkspaceReply::Written(outcome)) => {
            match outcome {
                Err(reason) => (
                    WorkspaceRestore {
                        style,
                        snapshot,
                        payloads,
                        phase: RestorePhase::RollBack(i, reason),
                        replies: Ghost(replies),
                    },
                    Step::Ask(WorkspaceRequest::RollBack(GIT_ROLL_BACK)),
                ),
                Ok(_) => WorkspaceRestore::proceed(
                    style,
                    snapshot,
                    payloads,
                    RestorePhase::Write(i + 1),
                    Ghost(replies),
                ),
            }
        },
        (RestorePhase::RollBack(i, reason), WorkspaceReply::Shell(outcome)) => {
            let mut message = "Failed to restore checkpoint file ".to_string();
            message.append(snapshot.untracked_files[i].relative_path.as_str());
            message.append(": ");
            message.append(reason.as_str());
            message.append("; rollback=");
            let report = rollback_workspace_restore(outcome);
            message.append(report.as_str());
            WorkspaceRestore::finish(
                style,
                snapshot,
                payloads,
                Ghost(replies),
                Err(BitFunError::Io(message)),
            )
        },
        _ => unreached(),
    }
}

/// Every reply answers the request that was open when it came.
pub open spec fn is_restore_history(
    style: PathStyle,
    snapshot: SnapshotView,
    payloads: Seq<Payload>,
    replies: Seq<WorkspaceReply>,
) -> bool {
    forall|i: int|
        0 <= i < replies.len() ==> (restore_progress(
            style,
            snapshot,
            payloads,
            #[trigger] replies.take(i),
        ) matches Ok(Some(request)) && request.is_answered_by(replies[i]))
}

/// The reply to the request at `index` of the plan lets the restoration go on.
pub open spec fn is_accepted(snapshot: SnapshotView, index: int, reply: WorkspaceReply) -> bool {
    &&& reply_error(snapshot, index, reply) is None
    &&& !is_failed_write(snapshot, index, reply)
}

/// A request that may change the files of the workspace.
pub open spec fn changes_workspace(request: RequestView) -> bool {
    ||| request is WriteFile
    ||| request is RollBack
    ||| request == RequestView::RunGit(GIT_APPLY_PATCH@)
}

/// A restoration asks for its plan in order, and goes on only while every reply is
/// accepted; it leaves the plan only to roll back, right behind a failed write.
pub proof fn lemma_restore_follows_plan(
    style: PathStyle,
    snapshot: SnapshotView,
    payloads: Seq<Payload>,
    replies: Seq<WorkspaceReply>,
)
    requires
        restore_progress(style, snapshot, payloads, replies) matches Ok(Some(_)),
    ensures
        restore_progress(style, snapshot, payloads, replies)->Ok_0->0 is RollBack ==> {
            &&& replies.len() > 0
            &&& is_failed_write(snapshot, replies.len() - 1, replies.last())
            &&& replies.len() <= restore_plan(snapshot, payloads).len()
            &&& forall|i: int|
                0 <= i < replies.len() - 1 ==> is_accepted(snapshot, i, #[trigger] replies[i])
        },
        !(restore_progress(style, snapshot, payloads, replies)->Ok_0->0 is RollBack) ==> {
            &&& replies.len() < restore_plan(snapshot, payloads).len()
            &&& restore_progress(style, snapshot, payloads, replies)->Ok_0->0 == restore_plan(
                snapshot,
                payloads,
            )[replies.len() as int]
            &&& forall|i: int|
                0 <= i < replies.len() ==> is_accepted(snapshot, i, #[trigger] replies[i])
        },
        snapshot.error(style) is None,
        replies.len() >= checks_len(snapshot) ==> payloads_error(
            snapshot.untracked_files,
            payloads,
        ) is None,
    decreases replies.len(),
{
    lemma_restore_plan(snapshot, payloads);
    if replies.len() > 0 {
        let before = replies.drop_last();
        lemma_restore_follows_plan(style, snapshot, payloads, before);
        assert forall|i: int| 0 <= i < before.len() implies is_accepted(
            snapshot,
            i,
            #[trigger] replies[i],
        ) by {
            assert(is_accepted(snapshot, i, before[i]));
        }
        let index = replies.len() - 1;
        if !is_failed_write(snapshot, index, replies[index]) {
            assert(is_accepted(snapshot, index, replies[index]));
        }
        assert(staging(snapshot.tracked_patch).len() <= 3);
    }
}

/// Nothing in the workspace is changed before all of this is known: the snapshot is
/// well formed, the workspace stands at its commit and is clean, none of its files is
/// in the way, and every payload decodes.
pub proof fn lemma_checks_come_before_changes(
    style: PathStyle,
    snapshot: SnapshotView,
    payloads: Seq<Payload>,
    replies: Seq<WorkspaceReply>,
)
    requires
        payloads.len() == snapshot.untracked_files.len(),
        is_restore_history(style, snapshot, payloads, replies),
        restore_progress(style, snapshot, payloads, replies) matches Ok(Some(request))
            && changes_workspace(request),
    ensures
        snapshot.error(style) is None,
        replies.len() >= checks_len(snapshot),
        workspace::git_output(replies[0]->Shell_0) matches Ok(printed) && text::trimmed(printed)
            == snapshot.baseline_commit,
        workspace::git_output(replies[1]->Shell_0) matches Ok(printed) && text::is_blank(printed),
        forall|i: int|
            0 <= i < snapshot.untracked_files.len() ==> #[trigger] replies[2 + i]
                == WorkspaceReply::Exists(Ok(false)),
        forall|i: int| 0 <= i < payloads.len() ==> (#[trigger] payloads[i]) is Ok,
{
    lemma_restore_plan(snapshot, payloads);
    lemma_restore_follows_plan(style, snapshot, payloads, replies);
    let request = restore_progress(style, snapshot, payloads, replies)->Ok_0->0;
    if request is RollBack {
        assert(replies.len() - 1 >= writes_start(snapshot));
    } else if replies.len() < checks_len(snapshot) {
        reveal_strlit("git rev-parse HEAD");
        reveal_strlit("git status --porcelain --untracked-files=all");
        reveal_strlit("git apply --binary --whitespace=nowarn .git/bitfun-round-replay.patch");
        assert(GIT_APPLY_PATCH@.len() != GIT_HEAD@.len());
        assert(GIT_APPLY_PATCH@.len() != GIT_STATUS@.len());
        assert(false);
    }
    let last = if request is RollBack {
        replies.len() - 1
    } else {
        replies.len() as int
    };
    assert(is_accepted(snapshot, 0, replies[0]));
    assert(is_accepted(snapshot, 1, replies[1]));
    assert forall|i: int| 0 <= i < snapshot.untracked_files.len() implies #[trigger] replies[2 + i]
        == WorkspaceReply::Exists(Ok(false)) by {
        let index = 2 + i;
        assert(is_accepted(snapshot, index, replies[index]));
        let before = replies.take(index);
        assert(restore_progress(style, snapshot, payloads, before) is Ok);
        lemma_restore_follows_plan(style, snapshot, payloads, before);
        assert(replies[index] is Exists);
    }
    let files = snapshot.untracked_files;
    let checks = Seq::new(files.len(), |i: int| payload_error(files[i].path, payloads[i]));
    crate::error::lemma_first_error_none(checks);
    assert forall|i: int| 0 <= i < payloads.len() implies (#[trigger] payloads[i]) is Ok by {
        assert(checks[i] is None);
    }
}

/// A restoration that succeeds has asked for its whole plan, and every reply was accepted.
pub proof fn lemma_restored_after_the_whole_plan(
    style: PathStyle,
    snapshot: SnapshotView,
    payloads: Seq<Payload>,
    replies: Seq<WorkspaceReply>,
)
    requires
        is_restore_history(style, snapshot, payloads, replies),
        restore_progress(style, snapshot, payloads, replies) == Ok::<Option<RequestView>, ErrorView>(
            None,
        ),
    ensures
        replies.len() == restore_plan(snapshot, payloads).len(),
        forall|i: int| 0 <= i < replies.len() ==> is_accepted(snapshot, i, #[trigger] replies[i]),
        forall|i: int|
            writes_start(snapshot) <= i < replies.len() ==> ((#[trigger] replies[i]) matches
                WorkspaceReply::Written(Ok(_))),
{
    lemma_restore_plan(snapshot, payloads);
    let last = replies.len() - 1;
    let before = replies.drop_last();
    assert(replies.len() > 0);
    assert(replies.take(last) =~= before);
    assert(restore_progress(style, snapshot, payloads, replies.take(last)) is Ok);
    lemma_restore_follows_plan(style, snapshot, payloads, before);
    assert forall|i: int| 0 <= i < replies.len() implies is_accepted(
        snapshot,
        i,
        #[trigger] replies[i],
    ) by {
        if i < last {
            assert(is_accepted(snapshot, i, before[i]));
        }
    }
    assert forall|i: int| writes_start(snapshot) <= i < replies.len() implies (
    (#[trigger] replies[i]) matches WorkspaceReply::Written(Ok(_))) by {
        assert(is_accepted(snapshot, i, replies[i]));
        let earlier = replies.take(i);
        assert(restore_progress(style, snapshot, payloads, earlier) is Ok);
        lemma_restore_follows_plan(style, snapshot, payloads, earlier);
        if restore_progress(style, snapshot, payloads, earlier)->Ok_0->0 is RollBack {
            assert(is_accepted(snapshot, i - 1, replies[i - 1]));
            assert(earlier.last() == replies[i - 1]);
        }
        assert(replies[i] is Written);
    }
}

/// As long as every reply is accepted the restoration asks for its plan, request by
/// request, and behind the last it succeeds.
pub proof fn lemma_accepted_replies_lead_to_success(
    style: PathStyle,
    snapshot: SnapshotView,
    payloads: Seq<Payload>,
    replies: Seq<WorkspaceReply>,
)
    requires
        snapshot.error(style) is None,
        replies.len() >= checks_len(snapshot) ==> payloads_error(
            snapshot.untracked_files,
            payloads,
        ) is None,
        replies.len() <= restore_plan(snapshot, payloads).len(),
        forall|i: int| 0 <= i < replies.len() ==> is_accepted(snapshot, i, #[trigger] replies[i]),
    ensures
        restore_step(style, snapshot, payloads, replies) == if replies.len() < restore_plan(
            snapshot,
            payloads,
        ).len() {
            StepView::<RequestView, ()>::Ask(
                restore_plan(snapshot, payloads)[replies.len() as int],
            )
        } else {
            StepView::Finish(Ok(()))
        },
    decreases replies.len(),
{
    lemma_restore_plan(snapshot, payloads);
    if replies.len() > 0 {
        let before = replies.drop_last();
        assert forall|i: int| 0 <= i < before.len() implies is_accepted(
            snapshot,
            i,
            #[trigger] before[i],
        ) by {
            assert(is_accepted(snapshot, i, replies[i]));
        }
        lemma_accepted_replies_lead_to_success(style, snapshot, payloads, before);
        let index = replies.len() - 1;
        assert(is_accepted(snapshot, index, replies[index]));
    }
}

/// A file that cannot be written is answered by a roll back, and the restoration then
/// fails with an error that names the file and reports how the roll back went.
pub proof fn lemma_failed_write_rolls_back(
    style: PathStyle,
    snapshot: SnapshotView,
    payloads: Seq<Payload>,
    replies: Seq<WorkspaceReply>,
    index: int,
    reason: String,
    outcome: Result<ShellOutput, String>,
)
    requires
        0 <= index < snapshot.untracked_files.len(),
        replies.len() == writes_start(snapshot) + index,
        restore_progress(style, snapshot, payloads, replies) matches Ok(Some(RequestView::WriteFile(_, _))),
    ensures
        ({
            let failed = replies.push(WorkspaceReply::Written(Err(reason)));
            let rolled_back = failed.push(WorkspaceReply::Shell(outcome));
            &&& restore_step(style, snapshot, payloads, failed) == StepView::<RequestView, ()>::Ask(
                RequestView::RollBack(GIT_ROLL_BACK@),
            )
            &&& restore_step(style, snapshot, payloads, rolled_back) == StepView::<RequestView, ()>::Finish(
                Err(
                    ErrorView::Io(
                        "Failed to restore checkpoint file "@
                            + snapshot.untracked_files[index].path + ": "@ + reason@
                            + "; rollback="@ + rollback_report(outcome),
                    ),
                ),
            )
        }),
{
    let failed = replies.push(WorkspaceReply::Written(Err(reason)));
    let rolled_back = failed.push(WorkspaceReply::Shell(outcome));
    assert(failed.drop_last() =~= replies);
    assert(rolled_back.drop_last() =~= failed);
    lemma_restore_follows_plan(style, snapshot, payloads, replies);
}

/// Restoring what a capture handed out puts back, under the same names, the very
/// bytes that the capture read: the payloads of every complete capture hold what was
/// read, and with such payloads nothing but those bytes is ever written to a file.
pub proof fn lemma_restore_writes_what_was_captured(style: PathStyle, replies: Seq<WorkspaceReply>)
    requires
        capture::is_capture_history(style, replies),
        capture::capture_progress(style, replies) == Ok::<Option<RequestView>, ErrorView>(None),
    ensures
        ({
            let files = capture::captured_snapshot(replies).untracked_files;
            let names = capture::reported_names(replies[2])->Ok_0;
            let contents = capture::contents_read(replies.skip(3));
            capture::holds_contents(files, contents) ==> {
                &&& payloads_error(files, decoded_payloads(files)) is None
                &&& writes(files, decoded_payloads(files)) == Seq::new(
                    names.len(),
                    |i: int| RequestView::WriteFile(names[i], contents[i]),
                )
            }
        }),
{
    capture::lemma_complete_capture_reads_every_name(style, replies);
    let files = capture::captured_snapshot(replies).untracked_files;
    let names = capture::reported_names(replies[2])->Ok_0;
    let contents = capture::contents_read(replies.skip(3));
    let payloads = decoded_payloads(files);
    let checks = Seq::new(files.len(), |i: int| payload_error(files[i].path, payloads[i]));
    crate::error::lemma_first_error_none(checks);
    if capture::holds_contents(files, contents) {
        assert forall|i: int| 0 <= i < checks.len() implies (#[trigger] checks[i]) is None by {
            assert(payload::base64_contents(files[i].payload) is Ok);
        }
        assert forall|i: int| 0 <= i < names.len() implies writes(files, payloads)[i]
            == RequestView::WriteFile(names[i], contents[i]) by {
            assert(payload::base64_contents(files[i].payload) == Ok::<Seq<u8>, Seq<char>>(
                contents[i],
            ));
        }
        assert(writes(files, payloads) =~= Seq::new(
            names.len(),
            |i: int| RequestView::WriteFile(names[i], contents[i]),
        ));
    }
}

} // verus!
