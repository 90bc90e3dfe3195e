//! Promises about capturing and restoring the artifacts of a session.

use crate::error::ErrorView;
use crate::round_replay::artifact_capture;
use crate::round_replay::artifact_capture::{FoundFile, Walk, WalkStage};
use crate::round_replay::artifact_restore;
use crate::round_replay::artifact_restore::ArtifactProgress;
use crate::round_replay::artifact_round_trip;
use crate::round_replay::checkpoint;
use crate::round_replay::checkpoint::{RoundSessionArtifact, StoredFile};
use crate::round_replay::paths;
use crate::round_replay::paths::PathStyle;
use crate::round_replay::payload;
use crate::round_replay::restore::Payload;
use crate::round_replay::session::{
    DirectoryEntry, EntryKind, PathFailure, SessionReply, SessionRequestView,
};
use crate::round_replay::step::StepView;
use crate::text;
use vstd::prelude::*;

verus! {

/// The two artifact directories are looked for, one after the other.
pub proof fn lemma_artifact_directories()
    ensures
        artifact_capture::artifact_roots() == seq![
            "tool-results"@,
            "artifacts/compression-transcripts"@,
        ],
{
}

/// A file is stored under its path with the text of all its bytes.
pub proof fn lemma_files_are_stored_whole(file: FoundFile)
    ensures
        file.stored().path == file.path,
        file.stored().payload == payload::base64_text(file.contents),
{
}

/// What is asked next, where a capture stands.
pub proof fn lemma_capture_asks_for(style: PathStyle, replies: Seq<SessionReply>)
    ensures
        ({
            let walk = artifact_capture::walk_after(style, replies);
            let step = artifact_capture::artifact_capture_step(style, replies);
            &&& walk.stage is FindRoot ==> step == StepView::<
                SessionRequestView,
                Seq<StoredFile>,
            >::Ask(
                SessionRequestView::FindRoot(
                    seq!["tool-results"@, "artifacts/compression-transcripts"@][walk.root],
                ),
            )
            &&& walk.stage matches WalkStage::Open(handle) ==> step == StepView::<
                SessionRequestView,
                Seq<StoredFile>,
            >::Ask(SessionRequestView::OpenDirectory(handle))
            &&& walk.stage is List ==> step == StepView::<SessionRequestView, Seq<StoredFile>>::Ask(
                SessionRequestView::NextEntry,
            )
            &&& walk.stage matches WalkStage::Read { path, handle } ==> step == StepView::<
                SessionRequestView,
                Seq<StoredFile>,
            >::Ask(SessionRequestView::ReadFile(handle))
            &&& walk.stage matches WalkStage::Failed(error) ==> step == StepView::<
                SessionRequestView,
                Seq<StoredFile>,
            >::Finish(Err(error))
        }),
{
}

/// What goes wrong while artifacts are captured ends the capture and is told with the
/// place and the reason.
pub proof fn lemma_artifact_capture_tells_what_went_wrong(
    walk: Walk,
    failure: PathFailure,
    reason: String,
    entry: DirectoryEntry,
)
    ensures
        walk.stage is Open ==> walk.after(SessionReply::Opened(Err(failure))).stage
            == WalkStage::Failed(
            ErrorView::Io(
                "Failed to enumerate round replay session artifacts "@ + failure.path@ + ": "@
                    + failure.reason@,
            ),
        ),
        walk.stage is List ==> walk.after(SessionReply::Entry(Err(reason))).stage
            == WalkStage::Failed(
            ErrorView::Io("Failed to read session artifact entry: "@ + reason@),
        ),
        walk.stage is Read ==> walk.after(SessionReply::Contents(Err(failure))).stage
            == WalkStage::Failed(
            ErrorView::Io(
                "Failed to read session artifact "@ + failure.path@ + ": "@ + failure.reason@,
            ),
        ),
        walk.stage is List ==> {
            let after = walk.after(SessionReply::Entry(Ok(Some(entry))));
            &&& entry.kind matches Err(why) ==> after.stage == WalkStage::Failed(
                ErrorView::Io("Failed to inspect session artifact: "@ + why@),
            )
            &&& entry.kind == Ok::<EntryKind, String>(EntryKind::Other) ==> after == walk
            &&& entry.kind == Ok::<EntryKind, String>(EntryKind::Directory) ==> after.pending
                == walk.pending.push(entry.handle) && after.stage is List && after.found
                == walk.found
            &&& entry.kind == Ok::<EntryKind, String>(EntryKind::File) && entry.relative_path is Err
                ==> after.stage == WalkStage::Failed(
                ErrorView::Validation(entry.relative_path->Err_0@),
            )
        },
{
}

/// The directory that was listed last is opened next, and once it turns out to be empty the
/// capture goes on as if it had not been listed.
pub proof fn lemma_last_listed_directory_is_opened_first(
    style: PathStyle,
    replies: Seq<SessionReply>,
    entry: DirectoryEntry,
)
    requires
        artifact_capture::artifact_capture_step(style, replies) == StepView::<
            SessionRequestView,
            Seq<StoredFile>,
        >::Ask(SessionRequestView::NextEntry),
        entry.kind == Ok::<EntryKind, String>(EntryKind::Directory),
    ensures
        ({
            let listed = replies.push(SessionReply::Entry(Ok(Some(entry))));
            let ended = listed.push(SessionReply::Entry(Ok(None)));
            let opened = ended.push(SessionReply::Opened(Ok(())));
            let left = opened.push(SessionReply::Entry(Ok(None)));
            &&& artifact_capture::artifact_capture_step(style, listed) == StepView::<
                SessionRequestView,
                Seq<StoredFile>,
            >::Ask(SessionRequestView::NextEntry)
            &&& artifact_capture::artifact_capture_step(style, ended) == StepView::<
                SessionRequestView,
                Seq<StoredFile>,
            >::Ask(SessionRequestView::OpenDirectory(entry.handle))
            &&& artifact_capture::artifact_capture_step(style, opened) == StepView::<
                SessionRequestView,
                Seq<StoredFile>,
            >::Ask(SessionRequestView::NextEntry)
            &&& artifact_capture::artifact_capture_step(style, left)
                == artifact_capture::artifact_capture_step(
                style,
                replies.push(SessionReply::Entry(Ok(None))),
            )
        }),
{
    let walk = artifact_capture::walk_after(style, replies);
    let nothing = SessionReply::Entry(Ok(None));
    let listed = replies.push(SessionReply::Entry(Ok(Some(entry))));
    let ended = listed.push(nothing);
    let opened = ended.push(SessionReply::Opened(Ok(())));
    let left = opened.push(nothing);
    let without = replies.push(nothing);
    assert(listed.drop_last() =~= replies);
    assert(ended.drop_last() =~= listed);
    assert(opened.drop_last() =~= ended);
    assert(left.drop_last() =~= opened);
    assert(without.drop_last() =~= replies);
    assert(walk.stage is List);
    assert(artifact_capture::walk_after(style, listed).pending == walk.pending.push(entry.handle));
    assert(walk.pending.push(entry.handle).drop_last() =~= walk.pending);
    assert(artifact_capture::walk_after(style, opened) == walk);
    assert(artifact_capture::walk_after(style, left) == artifact_capture::walk_after(
        style,
        without,
    ));
}

/// A file is read exactly if its path, with slashes for backslashes, is an acceptable
/// artifact path; it is kept whole under that path unless there is too much data.
pub proof fn lemma_listed_file_is_read_and_kept(
    walk: Walk,
    entry: DirectoryEntry,
    reported: String,
    contents: Vec<u8>,
)
    requires
        walk.stage is List,
        entry.kind == Ok::<EntryKind, String>(EntryKind::File),
        entry.relative_path == Ok::<String, String>(reported),
    ensures
        ({
            let path = Seq::new(
                reported@.len(),
                |i: int|
                    if reported@[i] == '\\' {
                        '/'
                    } else {
                        reported@[i]
                    },
            );
            let asked = walk.after(SessionReply::Entry(Ok(Some(entry))));
            let done = asked.after(SessionReply::Contents(Ok(contents)));
            let bytes = artifact_round_trip::joined_contents(walk.found).len() + contents@.len();
            &&& paths::artifact_path_error(walk.style, path) matches Some(error) ==> asked.stage
                == WalkStage::Failed(error)
            &&& paths::artifact_path_error(walk.style, path) is None ==> {
                &&& asked.stage == (WalkStage::Read { path, handle: entry.handle })
                &&& done.found == walk.found.push(FoundFile { path, contents: contents@ })
                &&& bytes <= 67108864 ==> done.stage is List
                &&& bytes > 67108864 ==> done.stage is Failed
                &&& bytes > 67108864 && bytes <= usize::MAX ==> done.stage == WalkStage::Failed(
                    ErrorView::Validation(
                        "Round replay checkpoint workspace snapshot exceeds "@ + text::decimal(
                            67108864,
                        ) + " bytes (captured "@ + text::decimal(bytes) + ")"@,
                    ),
                )
            }
        }),
{
    let path = Seq::new(
        reported@.len(),
        |i: int|
            if reported@[i] == '\\' {
                '/'
            } else {
                reported@[i]
            },
    );
    assert(text::replaced(reported@, '\\', '/') =~= path);
    let found = walk.found.push(FoundFile { path, contents: contents@ });
    assert(found.drop_last() =~= walk.found);
    artifact_round_trip::lemma_found_bytes_are_all_bytes(walk.found);
}

/// An artifact can be restored exactly if its path is an acceptable artifact path and its
/// payload decodes; of several that cannot, the first is told.
pub proof fn lemma_unfit_artifacts_are_told(
    style: PathStyle,
    artifacts: Seq<RoundSessionArtifact>,
    payloads: Seq<Payload>,
    index: int,
)
    requires
        0 <= index < artifacts.len(),
        payloads.len() == artifacts.len(),
        forall|i: int|
            0 <= i < index ==> paths::artifact_path_error(
                style,
                (#[trigger] artifacts[i]).relative_path@,
            ) is None && payloads[i] is Ok,
    ensures
        ({
            let path = artifacts[index].relative_path@;
            let told = artifact_restore::unfit_artifact(
                style,
                checkpoint::stored_artifacts(artifacts),
                payloads,
            );
            &&& paths::artifact_path_error(style, path) is Some ==> told
                == paths::artifact_path_error(style, path)
            &&& paths::artifact_path_error(style, path) is None && payloads[index] is Err ==> told
                == Some(
                ErrorView::Validation(
                    "Invalid base64 for session artifact "@ + path + ": "@
                        + payloads[index]->Err_0,
                ),
            )
            &&& paths::artifact_path_error(style, path) is None && payloads[index] is Ok && index
                == artifacts.len() - 1 ==> told is None
        }),
{
    let stored = checkpoint::stored_artifacts(artifacts);
    let checks = Seq::new(
        stored.len(),
        |i: int| artifact_restore::artifact_error(style, stored[i].path, payloads[i]),
    );
    assert forall|i: int| 0 <= i < index implies (#[trigger] checks[i]) is None by {
        assert(stored[i].path == artifacts[i].relative_path@);
    }
    assert(stored[index].path == artifacts[index].relative_path@);
    if checks[index] is Some {
        crate::error::lemma_first_error_at(checks, index);
    } else {
        crate::error::lemma_first_error_none(checks);
    }
}

/// A restoration asks whether any artifact is there, then for the directory of each, then
/// to write each under its path with all the bytes that its payload stands for.
pub proof fn lemma_artifact_restoration_asks_for(
    artifacts: Seq<RoundSessionArtifact>,
    payloads: Seq<Payload>,
    index: int,
)
    requires
        0 <= index < artifacts.len(),
    ensures
        ({
            let plan = artifact_restore::artifact_plan(
                checkpoint::stored_artifacts(artifacts),
                payloads,
            );
            let count = artifacts.len() as int;
            let path = artifacts[index].relative_path@;
            &&& plan.len() == 3 * count
            &&& plan[index] == SessionRequestView::ProbeFile(path)
            &&& plan[count + index] == SessionRequestView::CreateParent(path)
            &&& plan[2 * count + index] == SessionRequestView::WriteFile(
                path,
                payloads[index]->Ok_0,
            )
        }),
{
    let stored = checkpoint::stored_artifacts(artifacts);
    artifact_restore::lemma_artifact_plan(stored, payloads);
    assert(stored.len() == artifacts.len());
    assert(stored[index].path == artifacts[index].relative_path@);
    let plan = artifact_restore::artifact_plan(stored, payloads);
    let count = artifacts.len() as int;
    assert(plan[count + index] == SessionRequestView::CreateParent(stored[index].path));
    assert(plan[2 * count + index] == SessionRequestView::WriteFile(
        stored[index].path,
        payloads[index]->Ok_0,
    ));
}

/// A reply lets a restoration go on exactly if the artifact is not there, its directory
/// is, or the file was written; what does not is told.
pub proof fn lemma_artifact_restoration_goes_on_exactly_if(
    artifacts: Seq<RoundSessionArtifact>,
    index: int,
    failure: PathFailure,
    reason: String,
)
    requires
        0 <= index < artifacts.len(),
    ensures
        ({
            let stored = checkpoint::stored_artifacts(artifacts);
            let count = artifacts.len() as int;
            let path = artifacts[index].relative_path@;
            &&& artifact_restore::is_artifact_accepted(stored, index, SessionReply::Exists(false))
            &&& artifact_restore::is_artifact_accepted(
                stored,
                count + index,
                SessionReply::ParentCreated(Ok(())),
            )
            &&& artifact_restore::is_artifact_accepted(
                stored,
                2 * count + index,
                SessionReply::Written(Ok(())),
            )
            &&& artifact_restore::after_planned(stored, index, SessionReply::Exists(true))
                == ArtifactProgress::Failed(
                ErrorView::Validation(
                    "Round replay refuses to overwrite existing session artifact: "@ + path,
                ),
            )
            &&& artifact_restore::after_planned(
                stored,
                count + index,
                SessionReply::ParentCreated(Err(failure)),
            ) == ArtifactProgress::Failed(
                ErrorView::Io(
                    "Failed to create session artifact directory "@ + failure.path@ + ": "@
                        + failure.reason@,
                ),
            )
            &&& !artifact_restore::is_artifact_accepted(
                stored,
                2 * count + index,
                SessionReply::Written(Err(reason)),
            )
            &&& index == 0 ==> artifact_restore::after_planned(
                stored,
                2 * count,
                SessionReply::Written(Err(reason)),
            ) == ArtifactProgress::Failed(
                ErrorView::Io(
                    "Failed to restore session artifact "@ + path + ": "@ + reason@,
                ),
            )
            &&& index > 0 ==> artifact_restore::after_planned(
                stored,
                2 * count + index,
                SessionReply::Written(Err(reason)),
            ) == (ArtifactProgress::Removing { failed: index, left: index, reason: reason@ })
        }),
{
    let stored = checkpoint::stored_artifacts(artifacts);
    assert(stored.len() == artifacts.len());
    assert(stored[index].path == artifacts[index].relative_path@);
}

} // verus!
