//! Promises about capturing a workspace and restoring it.

use crate::error::{BitFunError, ErrorView};
use crate::round_replay::capture;
use crate::round_replay::checkpoint::{RoundWorkspaceSnapshot, SnapshotView, StoredFile};
use crate::round_replay::paths;
use crate::round_replay::paths::PathStyle;
use crate::round_replay::payload;
use crate::round_replay::restore;
use crate::round_replay::restore::Payload;
use crate::round_replay::step::StepView;
use crate::round_replay::workspace;
use crate::round_replay::workspace::{RequestView, ShellOutput, WorkspaceReply};
use crate::text;
use vstd::prelude::*;

verus! {

/// The command ran to its end and printed this.
pub open spec fn printed(reply: WorkspaceReply, stdout: Seq<char>) -> bool {
    reply matches WorkspaceReply::Shell(Ok(output)) && output.exit_code == 0 && output.stdout@
        == stdout
}

/// A command that ends with zero gives all that it printed; any other end, and a command
/// that could not be run, is told with its reason.
pub proof fn lemma_git_commands_give_what_they_print(
    output: ShellOutput,
    reason: String,
    error: BitFunError,
)
    ensures
        output.exit_code == 0 ==> workspace::git_output(Ok(output)) == Ok::<Seq<char>, ErrorView>(
            output.stdout@,
        ),
        output.exit_code != 0 ==> workspace::git_output(Ok(output)) == Err::<Seq<char>, ErrorView>(
            ErrorView::Io(
                "Workspace git command failed with exit code "@ + text::signed_decimal(
                    output.exit_code as int,
                ) + ": "@ + text::trimmed(output.stderr@),
            ),
        ),
        workspace::git_output(Err(reason)) == Err::<Seq<char>, ErrorView>(
            ErrorView::Io("Workspace git command failed: "@ + reason@),
        ),
        workspace::text_result(Ok(reason)) == Ok::<Seq<char>, ErrorView>(reason@),
        workspace::text_result(Err(error)) == Err::<Seq<char>, ErrorView>(error@),
{
}

proof fn lemma_piece_len(name: Seq<char>, rest: Seq<char>)
    requires
        !name.contains('\0'),
        rest.len() > 0 ==> rest[0] == '\0',
    ensures
        capture::piece_len(name + rest) == name.len(),
    decreases name.len(),
{
    if name.len() > 0 {
        assert(name.contains(name[0]));
        assert((name + rest).drop_first() =~= name.drop_first() + rest);
        assert(!name.drop_first().contains('\0')) by {
            if name.drop_first().contains('\0') {
                let i = name.drop_first().index_of('\0');
                assert(name[i + 1] == '\0');
            }
        }
        lemma_piece_len(name.drop_first(), rest);
    } else {
        assert(name + rest =~= rest);
    }
}

/// A listing is read name by name: what stands in front of the first NUL is the first
/// name, whole, unless nothing stands there, and the names behind it follow.
pub proof fn lemma_listing_is_read_name_by_name(name: Seq<char>, rest: Seq<char>)
    requires
        !name.contains('\0'),
    ensures
        name.len() > 0 ==> capture::listed_names(name + seq!['\0'] + rest) == seq![name]
            + capture::listed_names(rest),
        name.len() == 0 ==> capture::listed_names(name + seq!['\0'] + rest)
            == capture::listed_names(rest),
        name.len() > 0 ==> capture::listed_names(name) == seq![name],
        capture::listed_names(Seq::<char>::empty()) == Seq::<Seq<char>>::empty(),
{
    let behind = seq!['\0'] + rest;
    let listing = name + seq!['\0'] + rest;
    assert(listing =~= name + behind);
    assert(behind.drop_first() =~= rest);
    lemma_piece_len(name, behind);
    lemma_piece_len(name, Seq::empty());
    assert(name + Seq::<char>::empty() =~= name);
    if name.len() > 0 {
        assert(name.contains(name[0]));
        assert(listing[0] == name[0]);
        assert(listing.take(name.len() as int) =~= name);
        assert(listing.skip(name.len() as int) =~= behind);
        assert(capture::listed_names(behind) == capture::listed_names(rest));
        assert(name.take(name.len() as int) =~= name);
        assert(name.skip(name.len() as int) =~= Seq::empty());
        assert(capture::listed_names(Seq::<char>::empty()) =~= Seq::<Seq<char>>::empty());
        assert(capture::listed_names(name) =~= seq![name] + Seq::<Seq<char>>::empty());
        assert(seq![name] + Seq::<Seq<char>>::empty() =~= seq![name]);
    } else {
        assert(listing =~= behind);
    }
}

/// All the bytes that were read, one file behind the other.
pub open spec fn bytes_read(reads: Seq<WorkspaceReply>) -> Seq<u8>
    decreases reads.len(),
{
    if reads.len() == 0 {
        Seq::empty()
    } else {
        bytes_read(reads.drop_last()) + reads.last()->Contents_0->Ok_0@
    }
}

/// Every file was read.
pub open spec fn all_read(reads: Seq<WorkspaceReply>) -> bool {
    forall|i: int|
        0 <= i < reads.len() ==> ((#[trigger] reads[i]) matches WorkspaceReply::Contents(Ok(_)))
}

proof fn lemma_captured_bytes(patch: Seq<char>, reads: Seq<WorkspaceReply>)
    requires
        all_read(reads),
    ensures
        capture::captured_bytes(patch, reads) == vstd::utf8::encode_utf8(patch).len() + bytes_read(
            reads,
        ).len(),
    decreases reads.len(),
{
    if reads.len() > 0 {
        let front = reads.drop_last();
        assert(reads[reads.len() - 1] matches WorkspaceReply::Contents(Ok(_)));
        assert forall|i: int| 0 <= i < front.len() implies ((#[trigger] front[i]) matches
            WorkspaceReply::Contents(Ok(_))) by {
            assert(front[i] == reads[i]);
        }
        lemma_captured_bytes(patch, front);
    }
}

proof fn lemma_reading_goes_on(
    style: PathStyle,
    patch: Seq<char>,
    names: Seq<Seq<char>>,
    reads: Seq<WorkspaceReply>,
)
    requires
        all_read(reads),
        reads.len() <= names.len(),
        forall|i: int|
            0 <= i <= reads.len() && i < names.len() ==> paths::workspace_path_error(
                style,
                #[trigger] names[i],
            ) is None,
        vstd::utf8::encode_utf8(patch).len() + bytes_read(reads).len() <= 67108864,
    ensures
        capture::reading_error(style, patch, names, reads) is None,
    decreases reads.len(),
{
    if reads.len() > 0 {
        let front = reads.drop_last();
        assert(reads[reads.len() - 1] matches WorkspaceReply::Contents(Ok(_)));
        assert forall|i: int| 0 <= i < front.len() implies ((#[trigger] front[i]) matches
            WorkspaceReply::Contents(Ok(_))) by {
            assert(front[i] == reads[i]);
        }
        lemma_reading_goes_on(style, patch, names, front);
        lemma_captured_bytes(patch, reads);
    }
}

/// A workspace is asked for its commit, its patch, its untracked files and then for each
/// of them in turn; once all were read the capture is complete. It holds the commit that
/// was printed without the white space around it, the whole patch as it was printed, and
/// every file under its name with the text of all its bytes. This goes well for every
/// commit and all acceptable names as long as everything stays within the size limit.
pub proof fn lemma_capture_takes_what_is_reported(
    style: PathStyle,
    head: Seq<char>,
    patch: Seq<char>,
    listing: Seq<char>,
    replies: Seq<WorkspaceReply>,
)
    requires
        replies.len() > 0 ==> printed(replies[0], head),
        replies.len() > 0 ==> paths::commit_error(text::trimmed(head)) is None,
        replies.len() > 1 ==> printed(replies[1], patch),
        replies.len() > 1 ==> vstd::utf8::encode_utf8(patch).len() + bytes_read(
            replies.skip(3),
        ).len() <= 67108864,
        replies.len() > 2 ==> printed(replies[2], listing),
        replies.len() <= 3 + capture::listed_names(listing).len(),
        forall|i: int|
            0 <= i <= replies.len() - 3 && i < capture::listed_names(listing).len()
                ==> paths::workspace_path_error(
                style,
                #[trigger] capture::listed_names(listing)[i],
            ) is None,
        all_read(replies.skip(3)),
    ensures
        replies.len() == 0 ==> capture::capture_step(style, replies) == StepView::<
            RequestView,
            SnapshotView,
        >::Ask(RequestView::RunGit("git rev-parse HEAD"@)),
        replies.len() == 1 ==> capture::capture_step(style, replies) == StepView::<
            RequestView,
            SnapshotView,
        >::Ask(RequestView::RunGit("git diff --binary --full-index --no-color HEAD -- ."@)),
        replies.len() == 2 ==> capture::capture_step(style, replies) == StepView::<
            RequestView,
            SnapshotView,
        >::Ask(RequestView::RunGit("git ls-files --others --exclude-standard -z"@)),
        3 <= replies.len() < 3 + capture::listed_names(listing).len() ==> capture::capture_step(
            style,
            replies,
        ) == StepView::<RequestView, SnapshotView>::Ask(
            RequestView::ReadFile(capture::listed_names(listing)[replies.len() - 3]),
        ),
        replies.len() == 3 + capture::listed_names(listing).len() ==> {
            let outcome = capture::capture_step(style, replies);
            &&& outcome is Finish
            &&& outcome->Finish_0 is Ok
            &&& outcome->Finish_0->Ok_0.baseline_commit == text::trimmed(head)
            &&& outcome->Finish_0->Ok_0.tracked_patch == patch
            &&& outcome->Finish_0->Ok_0.untracked_files.len() == capture::listed_names(
                listing,
            ).len()
            &&& forall|i: int|
                0 <= i < capture::listed_names(listing).len() ==> {
                    &&& (#[trigger] outcome->Finish_0->Ok_0.untracked_files[i]).path
                        == capture::listed_names(listing)[i]
                    &&& outcome->Finish_0->Ok_0.untracked_files[i].payload == payload::base64_text(
                        replies[3 + i]->Contents_0->Ok_0@,
                    )
                }
        },
{
    let names = capture::listed_names(listing);
    let reads = replies.skip(3);
    if replies.len() >= 3 {
        assert(reads.len() == replies.len() - 3);
        lemma_reading_goes_on(style, patch, names, reads);
        if replies.len() == 3 + names.len() {
            let outcome = capture::capture_step(style, replies);
            assert(outcome == StepView::<RequestView, SnapshotView>::Finish(
                Ok(capture::captured_snapshot(replies)),
            ));
            assert forall|i: int| 0 <= i < names.len() implies {
                &&& (#[trigger] outcome->Finish_0->Ok_0.untracked_files[i]).path == names[i]
                &&& outcome->Finish_0->Ok_0.untracked_files[i].payload == payload::base64_text(
                    replies[3 + i]->Contents_0->Ok_0@,
                )
            } by {
                assert(reads[i] == replies[3 + i]);
                assert(reads[i] matches WorkspaceReply::Contents(Ok(_)));
            }
        }
    }
}

/// A capture that succeeded asked for nothing in vain: the snapshot holds the commit that
/// was printed without the white space around it, the whole patch that was printed, and
/// for each name that was listed, in that order, the text of the bytes that were read.
pub proof fn lemma_snapshot_is_what_was_reported(
    style: PathStyle,
    replies: Seq<WorkspaceReply>,
    snapshot: RoundWorkspaceSnapshot,
)
    requires
        capture::is_capture_history(style, replies),
        capture::capture_progress(style, replies) == Ok::<Option<RequestView>, ErrorView>(None),
    ensures
        capture::capture_step(style, replies) == StepView::<RequestView, SnapshotView>::Finish(
            Ok(snapshot@),
        ) ==> {
            let head = replies[0]->Shell_0->Ok_0.stdout@;
            let diff = replies[1]->Shell_0->Ok_0.stdout@;
            let listing = replies[2]->Shell_0->Ok_0.stdout@;
            &&& replies.len() == 3 + snapshot.untracked_files@.len()
            &&& printed(replies[0], head) && snapshot.baseline_commit@ == text::trimmed(head)
            &&& printed(replies[1], diff) && snapshot.tracked_patch@ == diff
            &&& printed(replies[2], listing) && capture::listed_names(listing).len()
                == snapshot.untracked_files@.len()
            &&& forall|i: int|
                0 <= i < snapshot.untracked_files@.len() ==> {
                    &&& (#[trigger] snapshot.untracked_files@[i]).relative_path@
                        == capture::listed_names(listing)[i]
                    &&& snapshot.untracked_files@[i].contents_base64@ == payload::base64_text(
                        replies[3 + i]->Contents_0->Ok_0@,
                    )
                    &&& replies[3 + i] matches WorkspaceReply::Contents(Ok(_))
                }
        },
{
    if capture::capture_step(style, replies) == StepView::<RequestView, SnapshotView>::Finish(
        Ok(snapshot@),
    ) {
        let view = snapshot@;
        let names = capture::listed_names(replies[2]->Shell_0->Ok_0.stdout@);
        let reads = replies.skip(3);
        lemma_complete_capture_replies(style, replies);
        assert(view == capture::captured_snapshot(replies));
        assert(replies[0] is Shell && replies[1] is Shell && replies[2] is Shell);
        assert(view.untracked_files == capture::captured_files(names, reads));
        assert(view.untracked_files.len() == snapshot.untracked_files@.len());
        assert forall|i: int| 0 <= i < snapshot.untracked_files@.len() implies {
            &&& (#[trigger] snapshot.untracked_files@[i]).relative_path@ == names[i]
            &&& snapshot.untracked_files@[i].contents_base64@ == payload::base64_text(
                replies[3 + i]->Contents_0->Ok_0@,
            )
            &&& replies[3 + i] matches WorkspaceReply::Contents(Ok(_))
        } by {
            assert(snapshot.untracked_files@[i]@ == view.untracked_files[i]);
            assert(reads[i] == replies[3 + i]);
            assert(reads[i] matches WorkspaceReply::Contents(Ok(_)));
        }
        let head = replies[0]->Shell_0->Ok_0.stdout@;
        let diff = replies[1]->Shell_0->Ok_0.stdout@;
        assert(printed(replies[0], head));
        assert(printed(replies[1], diff));
        assert(printed(replies[2], replies[2]->Shell_0->Ok_0.stdout@));
        assert(workspace::git_output(replies[0]->Shell_0) == Ok::<Seq<char>, ErrorView>(head));
        assert(workspace::git_output(replies[1]->Shell_0) == Ok::<Seq<char>, ErrorView>(diff));
        assert(capture::head_commit(replies[0]) == Ok::<Seq<char>, ErrorView>(text::trimmed(head)));
        assert(capture::reported_patch(replies[1]) == Ok::<Seq<char>, ErrorView>(diff));
        assert(view.baseline_commit == snapshot.baseline_commit@);
        assert(snapshot.baseline_commit@ == text::trimmed(head));
        assert(snapshot.tracked_patch@ == diff);
    }
}

/// The replies to a complete capture are those of commands and reads that went well.
proof fn lemma_complete_capture_replies(style: PathStyle, replies: Seq<WorkspaceReply>)
    requires
        capture::is_capture_history(style, replies),
        capture::capture_progress(style, replies) == Ok::<Option<RequestView>, ErrorView>(None),
    ensures
        replies.len() >= 3,
        forall|k: int|
            0 <= k < 3 ==> (#[trigger] replies[k]) is Shell && replies[k]->Shell_0 is Ok
                && replies[k]->Shell_0->Ok_0.exit_code == 0,
        replies.len() == 3 + capture::listed_names(replies[2]->Shell_0->Ok_0.stdout@).len(),
        capture::reported_names(replies[2])->Ok_0 == capture::listed_names(
            replies[2]->Shell_0->Ok_0.stdout@,
        ),
        all_read(replies.skip(3)),
{
    capture::lemma_complete_capture_reads_every_name(style, replies);
    let reads = replies.skip(3);
    assert forall|k: int| 0 <= k < 3 implies (#[trigger] replies[k]) is Shell
        && replies[k]->Shell_0 is Ok && replies[k]->Shell_0->Ok_0.exit_code == 0 by {
        let before = replies.take(k);
        assert(capture::capture_progress(style, before) is Ok);
        if k > 0 {
            assert(before[0] == replies[0]);
        }
        if k > 1 {
            assert(before[1] == replies[1]);
        }
    }
    assert forall|i: int| 0 <= i < reads.len() implies ((#[trigger] reads[i]) matches
        WorkspaceReply::Contents(Ok(_))) by {
        let before = replies.take(3 + i);
        assert(capture::capture_progress(style, before) is Ok);
        assert(before[0] == replies[0] && before[1] == replies[1] && before[2] == replies[2]);
        assert(before.skip(3).len() == i);
        assert(reads[i] == replies[3 + i]);
        assert(replies[3 + i] is Contents);
        lemma_no_read_failed(
            style,
            capture::reported_patch(replies[1])->Ok_0,
            capture::reported_names(replies[2])->Ok_0,
            reads,
            i,
        );
    }
}

proof fn lemma_no_read_failed(
    style: PathStyle,
    patch: Seq<char>,
    names: Seq<Seq<char>>,
    reads: Seq<WorkspaceReply>,
    index: int,
)
    requires
        capture::reading_error(style, patch, names, reads) is None,
        0 <= index < reads.len(),
    ensures
        !(reads[index] matches WorkspaceReply::Contents(Err(_))),
    decreases reads.len(),
{
    if index < reads.len() - 1 {
        lemma_no_read_failed(style, patch, names, reads.drop_last(), index);
    }
}

/// What goes wrong while a workspace is captured ends the capture and is told: a command
/// that fails, a commit or a name that is not acceptable, a file that cannot be read, and
/// more data than the limit.
pub proof fn lemma_capture_tells_what_went_wrong(
    style: PathStyle,
    names: Seq<Seq<char>>,
    patch: Seq<char>,
    reads: Seq<WorkspaceReply>,
    reply: WorkspaceReply,
)
    requires
        reads.len() < names.len(),
        capture::reading_error(style, patch, names, reads) is None,
    ensures
        reply matches WorkspaceReply::Contents(Err(reason)) ==> capture::reading_error(
            style,
            patch,
            names,
            reads.push(reply),
        ) == Some(
            ErrorView::Io(
                "Failed to capture untracked file "@ + names[reads.len() as int] + ": "@ + reason@,
            ),
        ),
        all_read(reads) && (reply matches WorkspaceReply::Contents(Ok(contents))
            && vstd::utf8::encode_utf8(patch).len() + bytes_read(reads).len() + contents@.len()
            > 67108864) ==> capture::reading_error(style, patch, names, reads.push(reply))
            is Some,
        all_read(reads) && (reply matches WorkspaceReply::Contents(Ok(contents))
            && vstd::utf8::encode_utf8(patch).len() + bytes_read(reads).len() + contents@.len()
            <= 67108864) ==> capture::reading_error(style, patch, names, reads.push(reply)) == (
        if reads.len() + 1 < names.len() {
            paths::workspace_path_error(style, names[reads.len() as int + 1])
        } else {
            None
        }),
{
    let all = reads.push(reply);
    assert(all.drop_last() =~= reads);
    if all_read(reads) {
        lemma_captured_bytes(patch, reads);
    }
}

/// A command that fails while a workspace is captured ends the capture with its error, as
/// does a commit that is none and a patch over the limit.
pub proof fn lemma_capture_stops_at_a_failed_command(
    style: PathStyle,
    replies: Seq<WorkspaceReply>,
    outcome: Result<ShellOutput, String>,
)
    requires
        replies.len() < 3,
        capture::capture_step(style, replies) is Ask,
    ensures
        ({
            let after = capture::capture_step(style, replies.push(WorkspaceReply::Shell(outcome)));
            &&& workspace::git_output(outcome) matches Err(error) ==> after == StepView::<
                RequestView,
                SnapshotView,
            >::Finish(Err(error))
            &&& workspace::git_output(outcome) matches Ok(stdout) ==> {
                &&& replies.len() == 0 && paths::commit_error(text::trimmed(stdout)) is Some
                    ==> after == StepView::<RequestView, SnapshotView>::Finish(
                    Err(paths::commit_error(text::trimmed(stdout))->0),
                )
                &&& replies.len() == 1 && vstd::utf8::encode_utf8(stdout).len() > 67108864
                    ==> after == StepView::<RequestView, SnapshotView>::Finish(
                    Err(
                        ErrorView::Validation(
                            "Round replay checkpoint workspace snapshot exceeds "@
                                + text::decimal(67108864) + " bytes (captured "@ + text::decimal(
                                vstd::utf8::encode_utf8(stdout).len(),
                            ) + ")"@,
                        ),
                    ),
                )
            }
        }),
{
    let all = replies.push(WorkspaceReply::Shell(outcome));
    assert(all[replies.len() as int] == WorkspaceReply::Shell(outcome));
    if replies.len() > 0 {
        assert(all[0] == replies[0]);
    }
    if replies.len() > 1 {
        assert(all[1] == replies[1]);
    }
    if replies.len() == 2 {
        assert(all.skip(3) =~= Seq::empty());
    }
}

/// A restoration asks, in this order, for the commit and the state of the workspace,
/// whether any of the files is there, then, if there is a patch, to store all of its
/// bytes, to test it and to apply it, and then to write each file with the bytes that its
/// payload stands for. Nothing else is asked for.
pub proof fn lemma_restoration_asks_for(
    snapshot: RoundWorkspaceSnapshot,
    payloads: Seq<Payload>,
    index: int,
)
    ensures
        ({
            let plan = restore::restore_plan(snapshot@, payloads);
            let count = snapshot.untracked_files@.len() as int;
            let staged: int = if snapshot.tracked_patch@.len() > 0 {
                3
            } else {
                0
            };
            &&& plan.len() == 2 + count + staged + count
            &&& plan[0] == RequestView::RunGit("git rev-parse HEAD"@)
            &&& plan[1] == RequestView::RunGit("git status --porcelain --untracked-files=all"@)
            &&& 0 <= index < count ==> plan[2 + index] == RequestView::ProbeFile(
                snapshot.untracked_files@[index].relative_path@,
            )
            &&& snapshot.tracked_patch@.len() > 0 ==> {
                &&& plan[2 + count] == RequestView::WriteFile(
                    ".git/bitfun-round-replay.patch"@,
                    vstd::utf8::encode_utf8(snapshot.tracked_patch@),
                )
                &&& plan[3 + count] == RequestView::RunGit(
                    "git apply --check --binary --whitespace=nowarn .git/bitfun-round-replay.patch"@,
                )
                &&& plan[4 + count] == RequestView::RunGit(
                    "git apply --binary --whitespace=nowarn .git/bitfun-round-replay.patch"@,
                )
            }
            &&& 0 <= index < count ==> plan[2 + count + staged + index] == RequestView::WriteFile(
                snapshot.untracked_files@[index].relative_path@,
                payloads[index]->Ok_0,
            )
        }),
{
    restore::lemma_restore_plan(snapshot@, payloads);
    let count = snapshot@.untracked_files.len();
    assert(count == snapshot.untracked_files@.len());
    if 0 <= index < count {
        assert(snapshot@.untracked_files[index].path
            == snapshot.untracked_files@[index].relative_path@);
    }
}

/// A reply lets a restoration go on exactly if it is the commit of the snapshot, a clean
/// state, no file in the way, or a request that was carried out.
pub proof fn lemma_restoration_goes_on_exactly_if(
    snapshot: RoundWorkspaceSnapshot,
    index: int,
    outcome: Result<ShellOutput, String>,
    exists: Result<bool, String>,
    written: Result<(), String>,
)
    ensures
        ({
            let count = snapshot.untracked_files@.len() as int;
            let staged: int = if snapshot.tracked_patch@.len() > 0 {
                3
            } else {
                0
            };
            let shell = WorkspaceReply::Shell(outcome);
            &&& restore::is_accepted(snapshot@, 0, shell) <==> (outcome is Ok
                && outcome->Ok_0.exit_code == 0 && text::trimmed(outcome->Ok_0.stdout@)
                == snapshot.baseline_commit@)
            &&& restore::is_accepted(snapshot@, 1, shell) <==> (outcome is Ok
                && outcome->Ok_0.exit_code == 0 && text::trimmed(outcome->Ok_0.stdout@).len() == 0)
            &&& 2 <= index < 2 + count ==> (restore::is_accepted(
                snapshot@,
                index,
                WorkspaceReply::Exists(exists),
            ) <==> exists is Ok && !exists->Ok_0)
            &&& 2 + count <= index < 2 + count + staged ==> (restore::is_accepted(
                snapshot@,
                index,
                shell,
            ) <==> outcome is Ok && outcome->Ok_0.exit_code == 0)
            &&& 2 + count <= index ==> (restore::is_accepted(
                snapshot@,
                index,
                WorkspaceReply::Written(written),
            ) <==> written is Ok)
        }),
{
    assert(snapshot@.untracked_files.len() == snapshot.untracked_files@.len());
    if outcome is Ok {
        text::lemma_trimmed_empty_iff_blank(outcome->Ok_0.stdout@);
    }
}

/// A reply that does not let a restoration go on ends it, and is told.
pub proof fn lemma_restoration_tells_why_it_stopped(
    style: PathStyle,
    snapshot: RoundWorkspaceSnapshot,
    payloads: Seq<Payload>,
    replies: Seq<WorkspaceReply>,
    reply: WorkspaceReply,
)
    requires
        restore::restore_progress(style, snapshot@, payloads, replies) matches Ok(Some(request))
            && !(request is RollBack),
    ensures
        ({
            let count = snapshot.untracked_files@.len() as int;
            let index = replies.len() as int;
            let after = restore::restore_step(style, snapshot@, payloads, replies.push(reply));
            &&& (index == 0 || index == 1) && (reply matches WorkspaceReply::Shell(outcome)
                && workspace::git_output(outcome) is Err) ==> after == StepView::<
                RequestView,
                (),
            >::Finish(Err(workspace::git_output(reply->Shell_0)->Err_0))
            &&& index == 0 && (reply matches WorkspaceReply::Shell(Ok(output)) && output.exit_code
                == 0 && text::trimmed(output.stdout@) != snapshot.baseline_commit@) ==> after
                == StepView::<RequestView, ()>::Finish(
                Err(
                    ErrorView::Validation(
                        "Round replay requires baseline commit "@ + snapshot.baseline_commit@
                            + ", but the workspace is at "@ + text::trimmed(
                            reply->Shell_0->Ok_0.stdout@,
                        ),
                    ),
                ),
            )
            &&& index == 1 && (reply matches WorkspaceReply::Shell(Ok(output)) && output.exit_code
                == 0 && text::trimmed(output.stdout@).len() > 0) ==> after == StepView::<
                RequestView,
                (),
            >::Finish(
                Err(
                    ErrorView::Validation(
                        "Round replay requires a clean workspace before applying the checkpoint"@,
                    ),
                ),
            )
            &&& 2 <= index < 2 + count && reply == WorkspaceReply::Exists(Ok(true)) ==> after
                == StepView::<RequestView, ()>::Finish(
                Err(
                    ErrorView::Validation(
                        "Round replay refuses to overwrite existing untracked file: "@
                            + snapshot.untracked_files@[index - 2].relative_path@,
                    ),
                ),
            )
            &&& 2 <= index < 2 + count && (reply matches WorkspaceReply::Exists(Err(reason)))
                ==> after == StepView::<RequestView, ()>::Finish(
                Err(ErrorView::Io(reply->Exists_0->Err_0@)),
            )
            &&& snapshot.tracked_patch@.len() > 0 && index == 2 + count && (
            reply matches WorkspaceReply::Written(Err(reason))) ==> after == StepView::<
                RequestView,
                (),
            >::Finish(
                Err(
                    ErrorView::Io(
                        "Failed to stage round replay patch: "@ + reply->Written_0->Err_0@,
                    ),
                ),
            )
            &&& snapshot.tracked_patch@.len() > 0 && (index == 3 + count || index == 4 + count) && (
            reply matches WorkspaceReply::Shell(outcome) && workspace::git_output(outcome) is Err)
                ==> after == StepView::<RequestView, ()>::Finish(
                Err(workspace::git_output(reply->Shell_0)->Err_0),
            )
        }),
{
    let all = replies.push(reply);
    assert(all.drop_last() =~= replies);
    assert(snapshot@.untracked_files.len() == snapshot.untracked_files@.len());
    if reply is Shell && reply->Shell_0 is Ok {
        text::lemma_trimmed_empty_iff_blank(reply->Shell_0->Ok_0.stdout@);
    }
    if 2 <= replies.len() < 2 + snapshot.untracked_files@.len() {
        let i = replies.len() - 2;
        assert(snapshot@.untracked_files[i].path == snapshot.untracked_files@[i].relative_path@);
    }
}

/// A roll back puts the workspace back to its commit and removes what was added, and is
/// reported as well done exactly if its command was.
pub proof fn lemma_roll_backs_are_reported(outcome: Result<ShellOutput, String>)
    ensures
        restore::GIT_ROLL_BACK@ == "git reset --hard HEAD && git clean -fd"@,
        workspace::git_output(outcome) is Ok ==> restore::rollback_report(outcome) == "ok"@,
        workspace::git_output(outcome) matches Err(error) ==> restore::rollback_report(outcome)
            == "failed: "@ + error.message(),
{
}

/// The first payload that does not decode is told, before anything is changed.
pub proof fn lemma_bad_payload_is_told(
    files: Seq<StoredFile>,
    payloads: Seq<Payload>,
    index: int,
)
    requires
        0 <= index < files.len(),
        payloads.len() == files.len(),
        forall|i: int| 0 <= i < index ==> (#[trigger] payloads[i]) is Ok,
    ensures
        payloads[index] matches Err(reason) ==> restore::payloads_error(files, payloads) == Some(
            ErrorView::Validation(
                "Invalid base64 for checkpoint file "@ + files[index].path + ": "@ + reason,
            ),
        ),
        index == files.len() - 1 && payloads[index] is Ok ==> restore::payloads_error(
            files,
            payloads,
        ) is None,
{
    let checks = Seq::new(
        files.len(),
        |i: int| restore::payload_error(files[i].path, payloads[i]),
    );
    assert forall|i: int| 0 <= i < index implies (#[trigger] checks[i]) is None by {
        assert(payloads[i] is Ok);
    }
    if payloads[index] is Err {
        crate::error::lemma_first_error_at(checks, index);
    } else {
        crate::error::lemma_first_error_none(checks);
    }
}

/// What was captured can be restored where it was captured: the reply that told the commit
/// then is accepted as the commit now, the patch that is stored is byte for byte the patch
/// that git printed then, and each file is written with the very bytes that were read.
pub proof fn lemma_captured_workspace_is_put_back(
    style: PathStyle,
    captured: Seq<WorkspaceReply>,
    snapshot: RoundWorkspaceSnapshot,
    index: int,
)
    requires
        capture::is_capture_history(style, captured),
        capture::capture_progress(style, captured) == Ok::<Option<RequestView>, ErrorView>(None),
    ensures
        (capture::capture_step(style, captured) == StepView::<RequestView, SnapshotView>::Finish(
            Ok(snapshot@),
        ) && capture::holds_contents(
            snapshot@.untracked_files,
            capture::contents_read(captured.skip(3)),
        )) ==> {
            let payloads = restore::decoded_payloads(snapshot@.untracked_files);
            let plan = restore::restore_plan(snapshot@, payloads);
            let count = snapshot.untracked_files@.len() as int;
            let diff = captured[1]->Shell_0->Ok_0.stdout@;
            let staged: int = if diff.len() > 0 {
                3
            } else {
                0
            };
            &&& snapshot@.error(style) is None
            &&& restore::payloads_error(snapshot@.untracked_files, payloads) is None
            &&& restore::is_accepted(snapshot@, 0, captured[0])
            &&& plan.len() == 2 + count + staged + count
            &&& diff.len() > 0 ==> plan[2 + count] == RequestView::WriteFile(
                ".git/bitfun-round-replay.patch"@,
                vstd::utf8::encode_utf8(diff),
            )
            &&& 0 <= index < count ==> plan[2 + count + staged + index] == RequestView::WriteFile(
                capture::listed_names(captured[2]->Shell_0->Ok_0.stdout@)[index],
                captured[3 + index]->Contents_0->Ok_0@,
            )
        },
{
    if capture::capture_step(style, captured) == StepView::<RequestView, SnapshotView>::Finish(
        Ok(snapshot@),
    ) && capture::holds_contents(
        snapshot@.untracked_files,
        capture::contents_read(captured.skip(3)),
    ) {
        let payloads = restore::decoded_payloads(snapshot@.untracked_files);
        let count = snapshot.untracked_files@.len() as int;
        lemma_snapshot_is_what_was_reported(style, captured, snapshot);
        lemma_restoration_asks_for(snapshot, payloads, index);
        capture::lemma_captured_snapshot_is_restorable(style, captured);
        restore::lemma_restore_writes_what_was_captured(style, captured);
        assert(snapshot@ == capture::captured_snapshot(captured));
        if 0 <= index < count {
            assert(snapshot@.untracked_files.len() == count);
            assert(snapshot.untracked_files@[index].relative_path@ == capture::listed_names(
                captured[2]->Shell_0->Ok_0.stdout@,
            )[index]);
            assert(snapshot.untracked_files@[index].contents_base64@ == payload::base64_text(
                captured[3 + index]->Contents_0->Ok_0@,
            ));
            assert(captured.skip(3)[index] == captured[3 + index]);
            assert(payload::base64_contents(snapshot@.untracked_files[index].payload) == Ok::<
                Seq<u8>,
                Seq<char>,
            >(capture::contents_read(captured.skip(3))[index]));
        }
    }
}

} // verus!
