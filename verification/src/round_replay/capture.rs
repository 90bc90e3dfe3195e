//! Capturing the state of a workspace: the commit, the patch on top of it and the
//! files that git does not track.

use crate::error::{BitFunError, ErrorView};
use crate::round_replay::checkpoint;
use crate::round_replay::checkpoint::{
    checkpoint_size_error, RoundWorkspaceFile, RoundWorkspaceSnapshot, SnapshotView, StoredFile,
    MAX_CHECKPOINT_BYTES,
};
use crate::round_replay::paths;
use crate::round_replay::paths::{validate_commit, PathStyle};
use crate::round_replay::payload;
use crate::round_replay::payload::encode_payload;
use crate::round_replay::step::{Step, StepView};
use crate::round_replay::workspace;
use crate::round_replay::workspace::{
    run_git, RequestView, WorkspaceReply, WorkspaceRequest, GIT_HEAD,
};
use crate::text;
use crate::text::{to_chars, trim};
use vstd::prelude::*;

verus! {

/// Asks for everything that differs from the commit in the tracked files.
pub const GIT_DIFF: &'static str = "git diff --binary --full-index --no-color HEAD -- .";

/// Asks for the names of the untracked files, with a NUL behind each.
pub const GIT_LIST_UNTRACKED: &'static str = "git ls-files --others --exclude-standard -z";

/// How many characters come before the first NUL.
pub open spec fn piece_len(listing: Seq<char>) -> nat
    decreases listing.len(),
{
    if listing.len() == 0 || listing[0] == '\0' {
        0
    } else {
        1 + piece_len(listing.drop_first())
    }
}

/// The first name of a listing lies within it, and is not empty unless a NUL comes first.
pub proof fn lemma_piece_len_in_range(listing: Seq<char>)
    ensures
        piece_len(listing) <= listing.len(),
        listing.len() > 0 && listing[0] != '\0' ==> piece_len(listing) > 0,
    decreases listing.len(),
{
    if listing.len() > 0 && listing[0] != '\0' {
        lemma_piece_len_in_range(listing.drop_first());
    }
}

/// The names in a NUL-separated listing; what lies between two NULs side by side is no name.
pub open spec fn listed_names(listing: Seq<char>) -> Seq<Seq<char>>
    decreases listing.len(),
{
    if listing.len() == 0 {
        Seq::empty()
    } else if listing[0] == '\0' {
        listed_names(listing.drop_first())
    } else {
        let len = piece_len(listing) as int;
        proof {
            lemma_piece_len_in_range(listing);
        }
        seq![listing.take(len)] + listed_names(listing.skip(len))
    }
}

/// The commit that the workspace reports.
pub open spec fn head_commit(reply: WorkspaceReply) -> Result<Seq<char>, ErrorView> {
    match workspace::git_output(reply->Shell_0) {
        Err(error) => Err(error),
        Ok(printed) => match paths::commit_error(text::trimmed(printed)) {
            Some(error) => Err(error),
            None => Ok(text::trimmed(printed)),
        },
    }
}

/// The patch that the workspace reports, if it is not too large.
pub open spec fn reported_patch(reply: WorkspaceReply) -> Result<Seq<char>, ErrorView> {
    match workspace::git_output(reply->Shell_0) {
        Err(error) => Err(error),
        Ok(printed) => if text::byte_len(printed) > MAX_CHECKPOINT_BYTES {
            Err(checkpoint::size_error(text::byte_len(printed)))
        } else {
            Ok(printed)
        },
    }
}

/// The untracked files that the workspace reports.
pub open spec fn reported_names(reply: WorkspaceReply) -> Result<Seq<Seq<char>>, ErrorView> {
    match workspace::git_output(reply->Shell_0) {
        Err(error) => Err(error),
        Ok(printed) => Ok(listed_names(printed)),
    }
}

/// The contents that came back for a file; none if reading it failed.
pub open spec fn contents_of(reply: WorkspaceReply) -> Seq<u8> {
    match reply {
        WorkspaceReply::Contents(Ok(contents)) => contents@,
        _ => Seq::empty(),
    }
}

pub open spec fn read_error(path: Seq<char>, reply: WorkspaceReply) -> Option<ErrorView> {
    match reply {
        WorkspaceReply::Contents(Err(reason)) => Some(
            ErrorView::Io("Failed to capture untracked file "@ + path + ": "@ + reason@),
        ),
        _ => None,
    }
}

/// The size of the patch and of every file read so far.
pub open spec fn captured_bytes(patch: Seq<char>, reads: Seq<WorkspaceReply>) -> nat
    decreases reads.len(),
{
    if reads.len() == 0 {
        text::byte_len(patch)
    } else {
        captured_bytes(patch, reads.drop_last()) + contents_of(reads.last()).len()
    }
}

/// A byte count as it is reported: no larger than the machine can count.
pub open spec fn counted(bytes: nat) -> nat {
    if bytes <= usize::MAX {
        bytes
    } else {
        usize::MAX as nat
    }
}

/// Why the file at `index` may not be read, if there is one and it may not.
pub open spec fn name_error(
    style: PathStyle,
    names: Seq<Seq<char>>,
    index: int,
) -> Option<ErrorView> {
    if index < names.len() {
        paths::workspace_path_error(style, names[index])
    } else {
        None
    }
}

/// The first thing that goes wrong while the files are read one after the other: a
/// path that leaves the workspace, a file that cannot be read, too much data.
pub open spec fn reading_error(
    style: PathStyle,
    patch: Seq<char>,
    names: Seq<Seq<char>>,
    reads: Seq<WorkspaceReply>,
) -> Option<ErrorView>
    decreases reads.len(),
{
    if reads.len() == 0 {
        name_error(style, names, 0)
    } else {
        match reading_error(style, patch, names, reads.drop_last()) {
            Some(error) => Some(error),
            None => match read_error(names[reads.len() - 1], reads.last()) {
                Some(error) => Some(error),
                None => if captured_bytes(patch, reads) > MAX_CHECKPOINT_BYTES {
                    Some(checkpoint::size_error(counted(captured_bytes(patch, reads))))
                } else {
                    name_error(style, names, reads.len() as int)
                },
            },
        }
    }
}

/// Where a capture stands after some replies: what it asks next, nothing if it is
/// complete, or why it failed.
pub open spec fn capture_progress(style: PathStyle, replies: Seq<WorkspaceReply>) -> Result<
    Option<RequestView>,
    ErrorView,
> {
    if replies.len() == 0 {
        Ok(Some(RequestView::RunGit(GIT_HEAD@)))
    } else {
        match head_commit(replies[0]) {
            Err(error) => Err(error),
            Ok(_) => if replies.len() == 1 {
                Ok(Some(RequestView::RunGit(GIT_DIFF@)))
            } else {
                match reported_patch(replies[1]) {
                    Err(error) => Err(error),
                    Ok(patch) => if replies.len() == 2 {
                        Ok(Some(RequestView::RunGit(GIT_LIST_UNTRACKED@)))
                    } else {
                        match reported_names(replies[2]) {
                            Err(error) => Err(error),
                            Ok(names) => reading_progress(style, patch, names, replies.skip(3)),
                        }
                    },
                }
            },
        }
    }
}

/// Where the reading of the untracked files stands.
pub open spec fn reading_progress(
    style: PathStyle,
    patch: Seq<char>,
    names: Seq<Seq<char>>,
    reads: Seq<WorkspaceReply>,
) -> Result<Option<RequestView>, ErrorView> {
    match reading_error(style, patch, names, reads) {
        Some(error) => Err(error),
        None => if reads.len() < names.len() {
            Ok(Some(RequestView::ReadFile(names[reads.len() as int])))
        } else {
            Ok(None)
        },
    }
}

/// The files as they are stored, in the order in which git lists them.
pub open spec fn captured_files(names: Seq<Seq<char>>, reads: Seq<WorkspaceReply>) -> Seq<
    StoredFile,
> {
    Seq::new(
        reads.len(),
        |i: int|
            StoredFile { path: names[i], payload: payload::base64_text(contents_of(reads[i])) },
    )
}

/// The snapshot that a complete capture hands out.
pub open spec fn captured_snapshot(replies: Seq<WorkspaceReply>) -> SnapshotView {
    SnapshotView {
        baseline_commit: head_commit(replies[0])->Ok_0,
        tracked_patch: reported_patch(replies[1])->Ok_0,
        untracked_files: captured_files(reported_names(replies[2])->Ok_0, replies.skip(3)),
    }
}

/// What a capture does after some replies.
pub open spec fn capture_step(style: PathStyle, replies: Seq<WorkspaceReply>) -> StepView<
    RequestView,
    SnapshotView,
> {
    match capture_progress(style, replies) {
        Err(error) => StepView::Finish(Err(error)),
        Ok(Some(request)) => StepView::Ask(request),
        Ok(None) => StepView::Finish(Ok(captured_snapshot(replies))),
    }
}

/// The stored files decode to the contents that were read.
pub open spec fn holds_contents(files: Seq<StoredFile>, contents: Seq<Seq<u8>>) -> bool {
    &&& files.len() == contents.len()
    &&& forall|i: int|
        0 <= i < files.len() ==> payload::base64_contents((#[trigger] files[i]).payload)
            == Ok::<Seq<u8>, Seq<char>>(contents[i])
}

/// The contents of the files that were read.
pub open spec fn contents_read(reads: Seq<WorkspaceReply>) -> Seq<Seq<u8>> {
    reads.map_values(|reply: WorkspaceReply| contents_of(reply))
}

enum CapturePhase {
    Head,
    Diff { baseline_commit: String },
    Listing { baseline_commit: String, tracked_patch: String },
    Reading(Reading),
    Finished,
}

struct Reading {
    baseline_commit: String,
    tracked_patch: String,
    names: Vec<String>,
    captured: Vec<RoundWorkspaceFile>,
    total_bytes: usize,
}

/// A capture in progress.
pub struct WorkspaceCapture {
    style: PathStyle,
    phase: CapturePhase,
    replies: Ghost<Seq<WorkspaceReply>>,
}

pub open spec fn texts(strings: Seq<String>) -> Seq<Seq<char>> {
    strings.map_values(|string: String| string@)
}

impl Reading {
    spec fn matches(self, replies: Seq<WorkspaceReply>) -> bool {
        let names = texts(self.names@);
        let reads = replies.skip(3);
        &&& replies.len() == 3 + self.captured@.len()
        &&& head_commit(replies[0]) == Ok::<Seq<char>, ErrorView>(self.baseline_commit@)
        &&& reported_patch(replies[1]) == Ok::<Seq<char>, ErrorView>(self.tracked_patch@)
        &&& reported_names(replies[2]) == Ok::<Seq<Seq<char>>, ErrorView>(names)
        &&& self.captured@.len() <= names.len()
        &&& checkpoint::stored_files(self.captured@) == captured_files(names, reads)
        &&& holds_contents(checkpoint::stored_files(self.captured@), contents_read(reads))
        &&& self.total_bytes == captured_bytes(self.tracked_patch@, reads)
        &&& self.total_bytes <= MAX_CHECKPOINT_BYTES
    }
}

impl WorkspaceCapture {
    /// How the paths of the workspace are written.
    pub closed spec fn style(self) -> PathStyle {
        self.style
    }

    /// The replies that the capture has taken so far.
    pub closed spec fn replies(self) -> Seq<WorkspaceReply> {
        self.replies@
    }

    /// Whether `reply` answers what the capture last asked.
    pub open spec fn awaits(self, reply: WorkspaceReply) -> bool {
        capture_progress(self.style(), self.replies()) matches Ok(Some(request)) && request.is_answered_by(reply)
    }

    #[verifier::type_invariant]
    spec fn is_consistent(self) -> bool {
        let style = self.style;
        let replies = self.replies@;
        match self.phase {
            CapturePhase::Head => replies.len() == 0,
            CapturePhase::Diff { baseline_commit } => {
                &&& replies.len() == 1
                &&& head_commit(replies[0]) == Ok::<Seq<char>, ErrorView>(baseline_commit@)
            },
            CapturePhase::Listing { baseline_commit, tracked_patch } => {
                &&& replies.len() == 2
                &&& head_commit(replies[0]) == Ok::<Seq<char>, ErrorView>(baseline_commit@)
                &&& reported_patch(replies[1]) == Ok::<Seq<char>, ErrorView>(tracked_patch@)
            },
            CapturePhase::Reading(reading) => {
                &&& reading.matches(replies)
                &&& reading.captured@.len() < reading.names@.len()
                &&& reading_error(
                    style,
                    reading.tracked_patch@,
                    texts(reading.names@),
                    replies.skip(3),
                ) is None
            },
            CapturePhase::Finished => capture_step(style, replies) is Finish,
        }
    }

    /// Begins a capture. The first request asks for the commit.
    pub fn new(style: PathStyle) -> (start: (
        Self,
        Step<WorkspaceRequest, RoundWorkspaceSnapshot>,
    ))
        ensures
            start.0.style() == style,
            start.0.replies() == Seq::<WorkspaceReply>::empty(),
            start.1@ == capture_step(style, start.0.replies()),
    {
        (
            WorkspaceCapture { style, phase: CapturePhase::Head, replies: Ghost(Seq::empty()) },
            Step::Ask(WorkspaceRequest::RunGit(GIT_HEAD)),
        )
    }

    fn finished(style: PathStyle, Ghost(replies): Ghost<Seq<WorkspaceReply>>) -> (done: Self)
        requires
            capture_step(style, replies) is Finish,
        ensures
            done.style() == style,
            done.replies() == replies,
    {
        WorkspaceCapture { style, phase: CapturePhase::Finished, replies: Ghost(replies) }
    }

    /// Goes on to the next untracked file, or finishes behind the last.
    fn read_on(style: PathStyle, reading: Reading, Ghost(replies): Ghost<Seq<WorkspaceReply>>) -> (next: (
        Self,
        Step<WorkspaceRequest, RoundWorkspaceSnapshot>,
    ))
        requires
            reading.matches(replies),
            reading_error(style, reading.tracked_patch@, texts(reading.names@), replies.skip(3))
                == name_error(style, texts(reading.names@), reading.captured@.len() as int),
        ensures
            next.0.style() == style,
            next.0.replies() == replies,
            next.1@ == capture_step(style, replies),
            next.1 matches Step::Finish(Ok(snapshot)) ==> holds_contents(
                snapshot@.untracked_files,
                contents_read(replies.skip(3)),
            ),
    {
        let ghost names = texts(reading.names@);
        let index = reading.captured.len();
        assert(replies.skip(3).len() == index);
        if index == reading.names.len() {
            let snapshot = RoundWorkspaceSnapshot {
                baseline_commit: reading.baseline_commit,
                tracked_patch: reading.tracked_patch,
                untracked_files: reading.captured,
            };
            return (Self::finished(style, Ghost(replies)), Step::Finish(Ok(snapshot)));
        }
        let name = reading.names[index].clone();
        assert(names[index as int] == name@);
        match style.validate_relative_path(name.as_str()) {
            Err(error) => (Self::finished(style, Ghost(replies)), Step::Finish(Err(error))),
            Ok(()) => (
                WorkspaceCapture {
                    style,
                    phase: CapturePhase::Reading(reading),
                    replies: Ghost(replies),
                },
                Step::Ask(WorkspaceRequest::ReadFile(name)),
            ),
        }
    }
}

/// The names in a NUL-separated listing.
pub fn split_names(listing: &str) -> (names: Vec<String>)
    ensures
        texts(names@) == listed_names(listing@),
{
    let chars = to_chars(listing);
    let len = chars.len();
    let mut names: Vec<String> = Vec::new();
    let mut start: usize = 0;
    assert(listing@.skip(0) =~= listing@);
    assert(texts(names@) + listed_names(listing@) =~= listed_names(listing@));
    while start < len
        invariant
            chars@ == listing@,
            len == chars.len(),
            start <= len,
            texts(names@) + listed_names(listing@.skip(start as int)) == listed_names(listing@),
        decreases len - start,
    {
        let ghost rest = listing@.skip(start as int);
        if chars[start] == '\0' {
            assert(rest.drop_first() =~= listing@.skip(start + 1));
            start += 1;
        } else {
            let mut end: usize = start;
            assert(listing@.skip(end as int) =~= rest);
            while end < len && chars[end] != '\0'
                invariant
                    chars@ == listing@,
                    len == chars.len(),
                    start <= end <= len,
                    rest == listing@.skip(start as int),
                    piece_len(rest) == (end - start) + piece_len(listing@.skip(end as int)),
                decreases len - end,
            {
                assert(listing@.skip(end as int).drop_first() =~= listing@.skip(end + 1));
                end += 1;
            }
            assert(piece_len(rest) == end - start);
            let name = listing.substring_char(start, end).to_string();
            assert(name@ =~= rest.take(end - start));
            assert(rest.skip(end - start) =~= listing@.skip(end as int));
            let ghost before = texts(names@);
            names.push(name);
            assert(texts(names@) =~= before.push(name@));
            assert(before + (seq![name@] + listed_names(listing@.skip(end as int))) =~= texts(
                names@,
            ) + listed_names(listing@.skip(end as int)));
            start = end;
        }
    }
    assert(texts(names@) + listed_names(listing@.skip(start as int)) =~= texts(names@));
    names
}

/// Takes the reply to the last request, and says what to do next.
pub fn capture_workspace_snapshot(capture: WorkspaceCapture, reply: WorkspaceReply) -> (next: (
    WorkspaceCapture,
    Step<WorkspaceRequest, RoundWorkspaceSnapshot>,
))
    requires
        capture.awaits(reply),
    ensures
        next.0.style() == capture.style(),
        next.0.replies() == capture.replies().push(reply),
        next.1@ == capture_step(capture.style(), next.0.replies()),
        next.1 matches Step::Finish(Ok(snapshot)) ==> holds_contents(
            snapshot@.untracked_files,
            contents_read(next.0.replies().skip(3)),
        ),
{
    proof {
        use_type_invariant(&capture);
    }
    let style = capture.style;
    let ghost before = capture.replies@;
    let ghost replies = before.push(reply);
    match (capture.phase, reply) {
        (CapturePhase::Head, WorkspaceReply::Shell(outcome)) => {
            let printed = match run_git(outcome) {
                Ok(printed) => printed,
                Err(error) => {
                    return (WorkspaceCapture::finished(style, Ghost(replies)), Step::Finish(Err(error)));
                },
            };
            let baseline_commit = trim(printed.as_str()).to_string();
            match validate_commit(baseline_commit.as_str()) {
                Ok(()) => (
                    WorkspaceCapture {
                        style,
                        phase: CapturePhase::Diff { baseline_commit },
                        replies: Ghost(replies),
                    },
                    Step::Ask(WorkspaceRequest::RunGit(GIT_DIFF)),
                ),
                Err(error) => (
                    WorkspaceCapture::finished(style, Ghost(replies)),
                    Step::Finish(Err(error)),
                ),
            }
        },
        (CapturePhase::Diff { baseline_commit }, WorkspaceReply::Shell(outcome)) => {
            let tracked_patch = match run_git(outcome) {
                Ok(printed) => printed,
                Err(error) => {
                    return (WorkspaceCapture::finished(style, Ghost(replies)), Step::Finish(Err(error)));
                },
            };
            let total_bytes = tracked_patch.as_str().as_bytes().len();
            if total_bytes > MAX_CHECKPOINT_BYTES {
                return (
                    WorkspaceCapture::finished(style, Ghost(replies)),
                    Step::Finish(Err(checkpoint_size_error(total_bytes))),
                );
            }
            (
                WorkspaceCapture {
                    style,
                    phase: CapturePhase::Listing { baseline_commit, tracked_patch },
                    replies: Ghost(replies),
                },
                Step::Ask(WorkspaceRequest::RunGit(GIT_LIST_UNTRACKED)),
            )
        },
        (
            CapturePhase::Listing { baseline_commit, tracked_patch },
            WorkspaceReply::Shell(outcome),
        ) => {
            let listing = match run_git(outcome) {
                Ok(printed) => printed,
                Err(error) => {
                    return (WorkspaceCapture::finished(style, Ghost(replies)), Step::Finish(Err(error)));
                },
            };
            let names = split_names(listing.as_str());
            let total_bytes = tracked_patch.as_str().as_bytes().len();
            let captured: Vec<RoundWorkspaceFile> = Vec::new();
            assert(replies.skip(3) =~= Seq::empty());
            assert(checkpoint::stored_files(captured@) =~= captured_files(
                texts(names@),
                replies.skip(3),
            ));
            WorkspaceCapture::read_on(
                style,
                Reading { baseline_commit, tracked_patch, names, captured, total_bytes },
                Ghost(replies),
            )
        },
        (CapturePhase::Reading(reading), WorkspaceReply::Contents(outcome)) => {
            let ghost names = texts(reading.names@);
            let ghost reads = replies.skip(3);
            assert(reads.drop_last() =~= before.skip(3));
            assert(reads.last() == reply);
            let mut reading = reading;
            let index = reading.captured.len();
            let name = reading.names[index].clone();
            assert(names[index as int] == name@);
            let contents = match outcome {
                Ok(contents) => contents,
                Err(reason) => {
                    let mut message = "Failed to capture untracked file ".to_string();
                    message.append(name.as_str());
                    message.append(": ");
                    message.append(reason.as_str());
                    return (
                        WorkspaceCapture::finished(style, Ghost(replies)),
                        Step::Finish(Err(BitFunError::Io(message))),
                    );
                },
            };
            let total_bytes = reading.total_bytes.saturating_add(contents.len());
            if total_bytes > MAX_CHECKPOINT_BYTES {
                return (
                    WorkspaceCapture::finished(style, Ghost(replies)),
                    Step::Finish(Err(checkpoint_size_error(total_bytes))),
                );
            }
            let contents_base64 = encode_payload(&contents);
            let ghost stored = checkpoint::stored_files(reading.captured@);
            let file = RoundWorkspaceFile { relative_path: name, contents_base64 };
            reading.total_bytes = total_bytes;
            reading.captured.push(file);
            assert(checkpoint::stored_files(reading.captured@) =~= stored.push(file@));
            assert(checkpoint::stored_files(reading.captured@) =~= captured_files(names, reads));
            assert(holds_contents(
                checkpoint::stored_files(reading.captured@),
                contents_read(reads),
            )) by {
                assert forall|i: int| 0 <= i < reads.len() implies payload::base64_contents(
                    (#[trigger] checkpoint::stored_files(reading.captured@)[i]).payload,
                ) == Ok::<Seq<u8>, Seq<char>>(contents_read(reads)[i]) by {
                    if i < stored.len() {
                        assert(stored[i] == checkpoint::stored_files(reading.captured@)[i]);
                        assert(contents_read(before.skip(3))[i] == contents_read(reads)[i]);
                    }
                }
            }
            WorkspaceCapture::read_on(style, reading, Ghost(replies))
        },
        _ => unreached(),
    }
}

/// Every reply answers the request that was open when it came.
pub open spec fn is_capture_history(style: PathStyle, replies: Seq<WorkspaceReply>) -> bool {
    forall|i: int|
        0 <= i < replies.len() ==> (capture_progress(style, #[trigger] replies.take(i)) matches Ok(
            Some(request),
        ) && request.is_answered_by(replies[i]))
}

proof fn lemma_names_read_are_plain(
    style: PathStyle,
    patch: Seq<char>,
    names: Seq<Seq<char>>,
    reads: Seq<WorkspaceReply>,
)
    requires
        reading_error(style, patch, names, reads) is None,
        text::byte_len(patch) <= MAX_CHECKPOINT_BYTES,
    ensures
        forall|i: int|
            0 <= i <= reads.len() && i < names.len() ==> paths::is_plain_relative_path(
                style,
                #[trigger] names[i],
            ),
        captured_bytes(patch, reads) <= MAX_CHECKPOINT_BYTES,
    decreases reads.len(),
{
    if reads.len() > 0 {
        lemma_names_read_are_plain(style, patch, names, reads.drop_last());
    }
}

/// A complete capture took exactly one read for every name that git listed.
pub proof fn lemma_complete_capture_reads_every_name(
    style: PathStyle,
    replies: Seq<WorkspaceReply>,
)
    requires
        is_capture_history(style, replies),
        capture_progress(style, replies) == Ok::<Option<RequestView>, ErrorView>(None),
    ensures
        replies.len() == 3 + (reported_names(replies[2])->Ok_0).len(),
{
    let last = replies.len() - 1;
    if replies.len() > 3 {
        let before = replies.take(last);
        assert(capture_progress(style, before) is Ok);
        assert(before[0] == replies[0] && before[1] == replies[1] && before[2] == replies[2]);
        assert(before.skip(3).len() == last - 3);
    }
}

/// What a complete capture hands out can be restored: its commit and all its paths
/// are acceptable, its patch is what git printed, its files are the ones that git
/// listed, in that order, and together they stay within the size limit.
pub proof fn lemma_captured_snapshot_is_restorable(
    style: PathStyle,
    replies: Seq<WorkspaceReply>,
)
    requires
        is_capture_history(style, replies),
        capture_progress(style, replies) == Ok::<Option<RequestView>, ErrorView>(None),
    ensures
        captured_snapshot(replies).error(style) is None,
        captured_snapshot(replies).tracked_patch == workspace::git_output(
            replies[1]->Shell_0,
        )->Ok_0,
        captured_snapshot(replies).untracked_files.map_values(|file: StoredFile| file.path)
            == reported_names(replies[2])->Ok_0,
        captured_bytes(captured_snapshot(replies).tracked_patch, replies.skip(3))
            <= MAX_CHECKPOINT_BYTES,
{
    lemma_complete_capture_reads_every_name(style, replies);
    let snapshot = captured_snapshot(replies);
    let names = reported_names(replies[2])->Ok_0;
    let reads = replies.skip(3);
    lemma_names_read_are_plain(style, snapshot.tracked_patch, names, reads);
    let checks = snapshot.untracked_files.map_values(
        |file: StoredFile| paths::workspace_path_error(style, file.path),
    );
    crate::error::lemma_first_error_none(checks);
    assert forall|i: int| 0 <= i < checks.len() implies (#[trigger] checks[i]) is None by {
        assert(paths::is_plain_relative_path(style, names[i]));
    }
    assert(snapshot.untracked_files.map_values(|file: StoredFile| file.path) =~= names);
}

/// A listed name is never empty and never holds a NUL.
pub proof fn lemma_listed_names_are_names(listing: Seq<char>, index: int)
    requires
        0 <= index < listed_names(listing).len(),
    ensures
        listed_names(listing)[index].len() > 0,
        !listed_names(listing)[index].contains('\0'),
    decreases listing.len(),
{
    if listing[0] == '\0' {
        lemma_listed_names_are_names(listing.drop_first(), index);
    } else {
        let len = piece_len(listing) as int;
        lemma_piece_len_in_range(listing);
        if index == 0 {
            lemma_no_nul_in_piece(listing);
        } else {
            lemma_listed_names_are_names(listing.skip(len), index - 1);
        }
    }
}

proof fn lemma_no_nul_in_piece(listing: Seq<char>)
    ensures
        piece_len(listing) <= listing.len(),
        !listing.take(piece_len(listing) as int).contains('\0'),
    decreases listing.len(),
{
    if listing.len() > 0 && listing[0] != '\0' {
        let rest = listing.drop_first();
        lemma_no_nul_in_piece(rest);
        let piece = listing.take(piece_len(listing) as int);
        assert forall|i: int| 0 <= i < piece.len() implies piece[i] != '\0' by {
            if i > 0 {
                assert(rest.take(piece_len(rest) as int)[i - 1] == piece[i]);
            }
        }
    }
}

} // verus!
