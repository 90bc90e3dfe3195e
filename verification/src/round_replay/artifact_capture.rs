//! Capturing the artifacts of a session: every file below its artifact directories.

use crate::error::{BitFunError, ErrorView};
use crate::ordering;
use crate::ordering::{sort_by_key, Keyed};
use crate::round_replay::capture;
use crate::round_replay::checkpoint;
use crate::round_replay::checkpoint::{
    checkpoint_size_error, RoundSessionArtifact, StoredFile, MAX_CHECKPOINT_BYTES,
};
use crate::round_replay::paths;
use crate::round_replay::paths::PathStyle;
use crate::round_replay::payload;
use crate::round_replay::payload::encode_payload;
use crate::round_replay::session::{
    DirectoryEntry, EntryKind, PathFailure, SessionReply, SessionRequest, SessionRequestView,
    COMPRESSION_TRANSCRIPTS_ROOT, TOOL_RESULTS_ROOT,
};
use crate::round_replay::step::{Step, StepView};
use crate::text;
use crate::text::replace_char;
use vstd::multiset::Multiset;
use vstd::prelude::*;

verus! {

/// A file that was found and read.
pub struct FoundFile {
    pub path: Seq<char>,
    pub contents: Seq<u8>,
}

impl Keyed for FoundFile {
    open spec fn key(&self) -> Seq<char> {
        self.path
    }
}

impl FoundFile {
    /// The file as it is stored.
    pub open spec fn stored(self) -> StoredFile {
        StoredFile { path: self.path, payload: payload::base64_text(self.contents) }
    }
}

/// What a walk over the artifact directories is about to do.
pub enum WalkStage {
    FindRoot,
    Open(usize),
    List,
    Read { path: Seq<char>, handle: usize },
    Captured,
    Failed(ErrorView),
}

/// A walk over the artifact directories.
pub struct Walk {
    /// How paths are written.
    pub style: PathStyle,
    pub stage: WalkStage,
    /// How many artifact directories have been walked.
    pub root: int,
    /// The directories that were seen and not opened yet.
    pub pending: Seq<usize>,
    /// The files read so far, in the order in which they were found.
    pub found: Seq<FoundFile>,
}

/// The artifact directories, in the order in which they are walked.
pub open spec fn artifact_roots() -> Seq<Seq<char>> {
    seq![TOOL_RESULTS_ROOT@, COMPRESSION_TRANSCRIPTS_ROOT@]
}

/// The size of everything that was read.
pub open spec fn found_bytes(found: Seq<FoundFile>) -> nat
    decreases found.len(),
{
    if found.len() == 0 {
        0
    } else {
        found_bytes(found.drop_last()) + found.last().contents.len()
    }
}

pub open spec fn failure_at(context: Seq<char>, failure: PathFailure) -> ErrorView {
    ErrorView::Io(context + failure.path@ + ": "@ + failure.reason@)
}

impl Walk {
    /// A walk that has not begun.
    pub open spec fn start(style: PathStyle) -> Walk {
        Walk {
            style,
            stage: WalkStage::FindRoot,
            root: 0,
            pending: Seq::empty(),
            found: Seq::empty(),
        }
    }

    pub open spec fn at(self, stage: WalkStage) -> Walk {
        Walk { stage, ..self }
    }

    pub open spec fn failed(self, error: ErrorView) -> Walk {
        self.at(WalkStage::Failed(error))
    }

    /// One artifact directory is done or missing; the next one follows.
    pub open spec fn next_root(self) -> Walk {
        Walk {
            stage: if self.root + 1 < artifact_roots().len() {
                WalkStage::FindRoot
            } else {
                WalkStage::Captured
            },
            root: self.root + 1,
            ..self
        }
    }

    /// A directory is done; the one seen last follows.
    pub open spec fn next_directory(self) -> Walk {
        if self.pending.len() == 0 {
            self.next_root()
        } else {
            Walk {
                stage: WalkStage::Open(self.pending.last()),
                pending: self.pending.drop_last(),
                ..self
            }
        }
    }

    /// An entry of the open directory: a directory is kept for later, a file is read
    /// if its path is an artifact path, and anything else is passed over.
    pub open spec fn after_entry(self, entry: DirectoryEntry) -> Walk {
        match entry.kind {
            Err(reason) => self.failed(
                ErrorView::Io("Failed to inspect session artifact: "@ + reason@),
            ),
            Ok(EntryKind::Directory) => Walk { pending: self.pending.push(entry.handle), ..self },
            Ok(EntryKind::Other) => self,
            Ok(EntryKind::File) => match entry.relative_path {
                Err(reason) => self.failed(ErrorView::Validation(reason@)),
                Ok(reported) => {
                    let path = text::replaced(reported@, '\\', '/');
                    match paths::artifact_path_error(self.style, path) {
                        Some(error) => self.failed(error),
                        None => self.at(WalkStage::Read { path, handle: entry.handle }),
                    }
                },
            },
        }
    }

    /// A file was read; the walk goes on unless there is too much data now.
    pub open spec fn after_file(self, path: Seq<char>, contents: Seq<u8>) -> Walk {
        let found = self.found.push(FoundFile { path, contents });
        let walk = Walk { found, ..self };
        if found_bytes(found) > MAX_CHECKPOINT_BYTES {
            walk.failed(checkpoint::size_error(capture::counted(found_bytes(found))))
        } else {
            walk.at(WalkStage::List)
        }
    }

    /// The walk after the reply to what it asked.
    pub open spec fn after(self, reply: SessionReply) -> Walk {
        match (self.stage, reply) {
            (WalkStage::FindRoot, SessionReply::Root(None)) => self.next_root(),
            (WalkStage::FindRoot, SessionReply::Root(Some(handle))) => self.at(
                WalkStage::Open(handle),
            ),
            (WalkStage::Open(_), SessionReply::Opened(Ok(_))) => self.at(WalkStage::List),
            (WalkStage::Open(_), SessionReply::Opened(Err(failure))) => self.failed(
                failure_at("Failed to enumerate round replay session artifacts "@, failure),
            ),
            (WalkStage::List, SessionReply::Entry(Err(reason))) => self.failed(
                ErrorView::Io("Failed to read session artifact entry: "@ + reason@),
            ),
            (WalkStage::List, SessionReply::Entry(Ok(None))) => self.next_directory(),
            (WalkStage::List, SessionReply::Entry(Ok(Some(entry)))) => self.after_entry(entry),
            (WalkStage::Read { path, handle }, SessionReply::Contents(Ok(contents))) => {
                self.after_file(path, contents@)
            },
            (WalkStage::Read { path, handle }, SessionReply::Contents(Err(failure))) => {
                self.failed(failure_at("Failed to read session artifact "@, failure))
            },
            _ => self,
        }
    }

    /// What is asked where the walk stands, unless it is over.
    pub open spec fn request(self) -> Option<SessionRequestView> {
        match self.stage {
            WalkStage::FindRoot => Some(SessionRequestView::FindRoot(artifact_roots()[self.root])),
            WalkStage::Open(handle) => Some(SessionRequestView::OpenDirectory(handle)),
            WalkStage::List => Some(SessionRequestView::NextEntry),
            WalkStage::Read { path, handle } => Some(SessionRequestView::ReadFile(handle)),
            WalkStage::Captured => None,
            WalkStage::Failed(_) => None,
        }
    }
}

/// Where a capture stands after some replies.
pub open spec fn walk_after(style: PathStyle, replies: Seq<SessionReply>) -> Walk
    decreases replies.len(),
{
    if replies.len() == 0 {
        Walk::start(style)
    } else {
        walk_after(style, replies.drop_last()).after(replies.last())
    }
}

/// The files that were found, in the order of their paths.
pub open spec fn found_in_order(style: PathStyle, replies: Seq<SessionReply>) -> Seq<FoundFile> {
    ordering::sorted_by_key(walk_after(style, replies).found)
}

/// What a complete capture hands out.
pub open spec fn captured_artifacts(style: PathStyle, replies: Seq<SessionReply>) -> Seq<StoredFile> {
    stored_found(found_in_order(style, replies))
}

/// What a capture does after some replies.
pub open spec fn artifact_capture_step(style: PathStyle, replies: Seq<SessionReply>) -> StepView<
    SessionRequestView,
    Seq<StoredFile>,
> {
    let walk = walk_after(style, replies);
    match (walk.request(), walk.stage) {
        (Some(request), _) => StepView::Ask(request),
        (None, WalkStage::Failed(error)) => StepView::Finish(Err(error)),
        (None, _) => StepView::Finish(Ok(captured_artifacts(style, replies))),
    }
}

/// A step of a capture, with the artifacts as stored files.
pub open spec fn capture_view(step: Step<SessionRequest, Vec<RoundSessionArtifact>>) -> StepView<
    SessionRequestView,
    Seq<StoredFile>,
> {
    match step {
        Step::Ask(request) => StepView::Ask(request@),
        Step::Finish(Ok(artifacts)) => StepView::Finish(
            Ok(checkpoint::stored_artifacts(artifacts@)),
        ),
        Step::Finish(Err(error)) => StepView::Finish(Err(error@)),
    }
}

/// The contents of some files.
pub open spec fn contents_found(files: Seq<FoundFile>) -> Seq<Seq<u8>> {
    files.map_values(|file: FoundFile| file.contents)
}

enum CaptureStage {
    FindRoot,
    Open,
    List,
    Read { path: String },
    Finished,
}

struct WalkState {
    root: usize,
    pending: Vec<usize>,
    captured: Vec<RoundSessionArtifact>,
    total_bytes: usize,
}

/// A capture of artifacts in progress.
pub struct ArtifactCapture {
    style: PathStyle,
    stage: CaptureStage,
    state: WalkState,
    replies: Ghost<Seq<SessionReply>>,
}

/// What is stored of a file decodes to its contents.
spec fn is_kept(file: FoundFile) -> bool {
    payload::base64_contents(payload::base64_text(file.contents)) == Ok::<Seq<u8>, Seq<char>>(
        file.contents,
    )
}

/// Some files as they are stored.
pub open spec fn stored_found(found: Seq<FoundFile>) -> Seq<StoredFile> {
    found.map_values(|file: FoundFile| file.stored())
}

impl WalkState {
    spec fn matches(self, walk: Walk) -> bool {
        &&& self.root == walk.root
        &&& self.root <= artifact_roots().len()
        &&& self.pending@ == walk.pending
        &&& checkpoint::stored_artifacts(self.captured@) == stored_found(walk.found)
        &&& self.total_bytes == found_bytes(walk.found)
        &&& self.total_bytes <= MAX_CHECKPOINT_BYTES
        &&& forall|i: int| 0 <= i < walk.found.len() ==> is_kept(#[trigger] walk.found[i])
    }
}

impl ArtifactCapture {
    /// How the paths of the session are written.
    pub closed spec fn style(self) -> PathStyle {
        self.style
    }

    /// The replies that the capture has taken so far.
    pub closed spec fn replies(self) -> Seq<SessionReply> {
        self.replies@
    }

    /// Whether `reply` answers what the capture last asked.
    pub open spec fn awaits(self, reply: SessionReply) -> bool {
        walk_after(self.style(), self.replies()).request() matches Some(request) && request.is_answered_by(reply)
    }

    #[verifier::type_invariant]
    spec fn is_consistent(self) -> bool {
        let walk = walk_after(self.style, self.replies@);
        match self.stage {
            CaptureStage::FindRoot => {
                &&& walk.stage is FindRoot
                &&& walk.root < artifact_roots().len()
                &&& walk.pending.len() == 0
                &&& self.state.matches(walk)
            },
            CaptureStage::Open => {
                &&& walk.stage is Open
                &&& walk.root < artifact_roots().len()
                &&& self.state.matches(walk)
            },
            CaptureStage::List => {
                &&& walk.stage is List
                &&& walk.root < artifact_roots().len()
                &&& self.state.matches(walk)
            },
            CaptureStage::Read { path } => {
                &&& walk.stage matches WalkStage::Read { path: expected, handle } && expected
                    == path@
                &&& walk.root < artifact_roots().len()
                &&& self.state.matches(walk)
            },
            CaptureStage::Finished => walk.request() is None,
        }
    }

    /// Begins a capture. The first request looks for the first artifact directory.
    pub fn new(style: PathStyle) -> (start: (Self, Step<SessionRequest, Vec<RoundSessionArtifact>>))
        ensures
            start.0.style() == style,
            start.0.replies() == Seq::<SessionReply>::empty(),
            capture_view(start.1) == artifact_capture_step(style, start.0.replies()),
    {
        let state = WalkState {
            root: 0,
            pending: Vec::new(),
            captured: Vec::new(),
            total_bytes: 0,
        };
        assert(checkpoint::stored_artifacts(state.captured@) =~= stored_found(Seq::empty()));
        (
            ArtifactCapture {
                style,
                stage: CaptureStage::FindRoot,
                state,
                replies: Ghost(Seq::empty()),
            },
            Step::Ask(SessionRequest::FindRoot(TOOL_RESULTS_ROOT)),
        )
    }

    fn finished(style: PathStyle, Ghost(replies): Ghost<Seq<SessionReply>>) -> (done: Self)
        requires
            walk_after(style, replies).request() is None,
        ensures
            done.style() == style,
            done.replies() == replies,
    {
        ArtifactCapture {
            style,
            stage: CaptureStage::Finished,
            state: WalkState {
                root: 0,
                pending: Vec::new(),
                captured: Vec::new(),
                total_bytes: 0,
            },
            replies: Ghost(replies),
        }
    }

    fn failed(style: PathStyle, error: BitFunError, Ghost(replies): Ghost<Seq<SessionReply>>) -> (next: (
        Self,
        Step<SessionRequest, Vec<RoundSessionArtifact>>,
    ))
        requires
            walk_after(style, replies).stage == WalkStage::Failed(error@),
        ensures
            next.0.style() == style,
            next.0.replies() == replies,
            capture_view(next.1) == artifact_capture_step(style, replies),
            next.1 matches Step::Finish(Err(_)),
    {
        (Self::finished(style, Ghost(replies)), Step::Finish(Err(error)))
    }

    fn list_on(style: PathStyle, state: WalkState, Ghost(replies): Ghost<Seq<SessionReply>>) -> (next: (
        Self,
        Step<SessionRequest, Vec<RoundSessionArtifact>>,
    ))
        requires
            walk_after(style, replies).stage is List,
            walk_after(style, replies).root < artifact_roots().len(),
            state.matches(walk_after(style, replies)),
        ensures
            next.0.style() == style,
            next.0.replies() == replies,
            capture_view(next.1) == artifact_capture_step(style, replies),
            next.1 is Ask,
    {
        (
            ArtifactCapture { style, stage: CaptureStage::List, state, replies: Ghost(replies) },
            Step::Ask(SessionRequest::NextEntry),
        )
    }

    /// Goes on to the next artifact directory, or hands out the artifacts behind the
    /// last.
    fn next_root(
        style: PathStyle,
        state: WalkState,
        Ghost(replies): Ghost<Seq<SessionReply>>,
        Ghost(walk): Ghost<Walk>,
    ) -> (next: (Self, Step<SessionRequest, Vec<RoundSessionArtifact>>))
        requires
            state.matches(walk),
            walk.root < artifact_roots().len(),
            walk.pending.len() == 0,
            walk_after(style, replies) == walk.next_root(),
        ensures
            next.0.style() == style,
            next.0.replies() == replies,
            capture_view(next.1) == artifact_capture_step(style, replies),
            next.1 matches Step::Finish(Ok(artifacts)) ==> capture::holds_contents(
                checkpoint::stored_artifacts(artifacts@),
                contents_found(found_in_order(style, replies)),
            ),
    {
        let mut state = state;
        state.root += 1;
        assert(state.matches(walk.next_root()));
        if state.root == 1 {
            return (
                ArtifactCapture { style, stage: CaptureStage::FindRoot, state, replies: Ghost(replies) },
                Step::Ask(SessionRequest::FindRoot(COMPRESSION_TRANSCRIPTS_ROOT)),
            );
        }
        let ghost captured = state.captured@;
        let ghost found = walk.found;
        let artifacts = sort_by_key(state.captured);
        proof {
            let view = |artifact: RoundSessionArtifact| artifact@;
            let store = |file: FoundFile| file.stored();
            ordering::lemma_sorted_map(captured, view);
            ordering::lemma_sorted_map(found, store);
            ordering::lemma_sorted_by_key(found);
            let sorted = ordering::sorted_by_key(found);
            assert(checkpoint::stored_artifacts(artifacts@) == sorted.map_values(store));
            assert forall|i: int| 0 <= i < sorted.len() implies is_kept(#[trigger] sorted[i]) by {
                assert(found.contains(sorted[i]));
            }
            let files = checkpoint::stored_artifacts(artifacts@);
            assert forall|i: int| 0 <= i < files.len() implies payload::base64_contents(
                (#[trigger] files[i]).payload,
            ) == Ok::<Seq<u8>, Seq<char>>(contents_found(sorted)[i]) by {
                assert(is_kept(sorted[i]));
            }
        }
        (Self::finished(style, Ghost(replies)), Step::Finish(Ok(artifacts)))
    }

    /// Goes on to the directory seen last, or to the next artifact directory.
    fn next_directory(
        style: PathStyle,
        state: WalkState,
        Ghost(replies): Ghost<Seq<SessionReply>>,
        Ghost(walk): Ghost<Walk>,
    ) -> (next: (Self, Step<SessionRequest, Vec<RoundSessionArtifact>>))
        requires
            state.matches(walk),
            walk.root < artifact_roots().len(),
            walk_after(style, replies) == walk.next_directory(),
        ensures
            next.0.style() == style,
            next.0.replies() == replies,
            capture_view(next.1) == artifact_capture_step(style, replies),
            next.1 matches Step::Finish(Ok(artifacts)) ==> capture::holds_contents(
                checkpoint::stored_artifacts(artifacts@),
                contents_found(found_in_order(style, replies)),
            ),
    {
        let mut state = state;
        match state.pending.pop() {
            None => Self::next_root(style, state, Ghost(replies), Ghost(walk)),
            Some(handle) => (
                ArtifactCapture { style, stage: CaptureStage::Open, state, replies: Ghost(replies) },
                Step::Ask(SessionRequest::OpenDirectory(handle)),
            ),
        }
    }

    /// Takes note of an entry of the open directory.
    fn after_entry(
        style: PathStyle,
        state: WalkState,
        entry: DirectoryEntry,
        Ghost(replies): Ghost<Seq<SessionReply>>,
        Ghost(walk): Ghost<Walk>,
    ) -> (next: (Self, Step<SessionRequest, Vec<RoundSessionArtifact>>))
        requires
            state.matches(walk),
            walk.stage is List,
            walk.style == style,
            walk.root < artifact_roots().len(),
            walk_after(style, replies) == walk.after_entry(entry),
        ensures
            next.0.style() == style,
            next.0.replies() == replies,
            capture_view(next.1) == artifact_capture_step(style, replies),
            !(next.1 matches Step::Finish(Ok(_))),
    {
        let mut state = state;
        let kind = match entry.kind {
            Ok(kind) => kind,
            Err(reason) => {
                let mut message = "Failed to inspect session artifact: ".to_string();
                message.append(reason.as_str());
                return Self::failed(style, BitFunError::Io(message), Ghost(replies));
            },
        };
        match kind {
            EntryKind::Directory => {
                state.pending.push(entry.handle);
                Self::list_on(style, state, Ghost(replies))
            },
            EntryKind::Other => Self::list_on(style, state, Ghost(replies)),
            EntryKind::File => {
                let reported = match entry.relative_path {
                    Ok(reported) => reported,
                    Err(reason) => {
                        return Self::failed(style, BitFunError::Validation(reason), Ghost(replies));
                    },
                };
                let path = replace_char(reported.as_str(), '\\', '/');
                match style.validate_session_artifact_path(path.as_str()) {
                    Err(error) => Self::failed(style, error, Ghost(replies)),
                    Ok(()) => (
                        ArtifactCapture {
                            style,
                            stage: CaptureStage::Read { path },
                            state,
                            replies: Ghost(replies),
                        },
                        Step::Ask(SessionRequest::ReadFile(entry.handle)),
                    ),
                }
            },
        }
    }

    /// Takes in a file that was read.
    fn after_file(
        style: PathStyle,
        state: WalkState,
        path: String,
        contents: Vec<u8>,
        Ghost(replies): Ghost<Seq<SessionReply>>,
        Ghost(walk): Ghost<Walk>,
    ) -> (next: (Self, Step<SessionRequest, Vec<RoundSessionArtifact>>))
        requires
            state.matches(walk),
            walk.root < artifact_roots().len(),
            walk_after(style, replies) == walk.after_file(path@, contents@),
        ensures
            next.0.style() == style,
            next.0.replies() == replies,
            capture_view(next.1) == artifact_capture_step(style, replies),
            !(next.1 matches Step::Finish(Ok(_))),
    {
        let ghost file = FoundFile { path: path@, contents: contents@ };
        let ghost found = walk.found.push(file);
        assert(found.drop_last() =~= walk.found);
        let mut state = state;
        let total_bytes = state.total_bytes.saturating_add(contents.len());
        if total_bytes > MAX_CHECKPOINT_BYTES {
            return Self::failed(style, checkpoint_size_error(total_bytes), Ghost(replies));
        }
        state.total_bytes = total_bytes;
        let ghost before = state.captured@;
        let artifact = RoundSessionArtifact {
            relative_path: path,
            contents_base64: encode_payload(&contents),
        };
        state.captured.push(artifact);
        assert(checkpoint::stored_artifacts(state.captured@) =~= checkpoint::stored_artifacts(
            before,
        ).push(artifact@));
        assert(stored_found(found) =~= stored_found(walk.found).push(file.stored()));
        assert(is_kept(file));
        Self::list_on(style, state, Ghost(replies))
    }
}

/// An I/O error whose message is `context`, the path that failed and the reason.
fn io_failure(context: &str, failure: &PathFailure) -> (error: BitFunError)
    ensures
        error@ == failure_at(context@, *failure),
{
    let mut message = context.to_string();
    message.append(failure.path.as_str());
    message.append(": ");
    message.append(failure.reason.as_str());
    BitFunError::Io(message)
}

/// Takes the reply to what the capture asked, and says what it does next.
///
/// The artifact directories are walked one after the other. Whenever a directory is
/// done, the one seen last is opened. The artifacts that a complete capture hands out
/// are in the order of their paths, and they decode to the contents that were read.
pub fn capture_session_artifacts(capture: ArtifactCapture, reply: SessionReply) -> (next: (
    ArtifactCapture,
    Step<SessionRequest, Vec<RoundSessionArtifact>>,
))
    requires
        capture.awaits(reply),
    ensures
        next.0.style() == capture.style(),
        next.0.replies() == capture.replies().push(reply),
        capture_view(next.1) == artifact_capture_step(capture.style(), next.0.replies()),
        next.1 matches Step::Finish(Ok(artifacts)) ==> capture::holds_contents(
            checkpoint::stored_artifacts(artifacts@),
            contents_found(found_in_order(capture.style(), next.0.replies())),
        ),
{
    proof {
        use_type_invariant(&capture);
    }
    let style = capture.style;
    let ghost walk = walk_after(style, capture.replies@);
    let ghost replies = capture.replies@.push(reply);
    proof {
        lemma_walk_stays_in_bounds(style, capture.replies@);
    }
    assert(replies.drop_last() =~= capture.replies@);
    let state = capture.state;
    match (capture.stage, reply) {
        (CaptureStage::FindRoot, SessionReply::Root(None)) => ArtifactCapture::next_root(
            style,
            state,
            Ghost(replies),
            Ghost(walk),
        ),
        (CaptureStage::FindRoot, SessionReply::Root(Some(handle))) => (
            ArtifactCapture { style, stage: CaptureStage::Open, state, replies: Ghost(replies) },
            Step::Ask(SessionRequest::OpenDirectory(handle)),
        ),
        (CaptureStage::Open, SessionReply::Opened(Ok(_))) => ArtifactCapture::list_on(
            style,
            state,
            Ghost(replies),
        ),
        (CaptureStage::Open, SessionReply::Opened(Err(failure))) => ArtifactCapture::failed(
            style,
            io_failure("Failed to enumerate round replay session artifacts ", &failure),
            Ghost(replies),
        ),
        (CaptureStage::List, SessionReply::Entry(Err(reason))) => {
            let mut message = "Failed to read session artifact entry: ".to_string();
            message.append(reason.as_str());
            ArtifactCapture::failed(style, BitFunError::Io(message), Ghost(replies))
        },
        (CaptureStage::List, SessionReply::Entry(Ok(None))) => ArtifactCapture::next_directory(
            style,
            state,
            Ghost(replies),
            Ghost(walk),
        ),
        (
            CaptureStage::List,
            SessionReply::Entry(Ok(Some(entry))),
        ) => ArtifactCapture::after_entry(style, state, entry, Ghost(replies), Ghost(walk)),
        (
            CaptureStage::Read { path },
            SessionReply::Contents(Ok(contents)),
        ) => ArtifactCapture::after_file(style, state, path, contents, Ghost(replies), Ghost(walk)),
        (CaptureStage::Read { path }, SessionReply::Contents(Err(failure))) => {
            ArtifactCapture::failed(
                style,
                io_failure("Failed to read session artifact ", &failure),
                Ghost(replies),
            )
        },
        _ => vstd::pervasive::unreached(),
    }
}

/// Everything that a walk has read lies below the artifact directories, and unless the
/// walk failed it is not too much.
pub proof fn lemma_walk_stays_in_bounds(style: PathStyle, replies: Seq<SessionReply>)
    ensures
        forall|i: int|
            0 <= i < walk_after(style, replies).found.len() ==> paths::artifact_path_error(
                style,
                (#[trigger] walk_after(style, replies).found[i]).path,
            ) is None,
        walk_after(style, replies).stage !is Failed ==> found_bytes(walk_after(style, replies).found)
            <= MAX_CHECKPOINT_BYTES,
        walk_after(style, replies).style == style,
        walk_after(style, replies).stage matches WalkStage::Read { path, handle }
            ==> paths::artifact_path_error(style, path) is None,
    decreases replies.len(),
{
    if replies.len() > 0 {
        lemma_walk_stays_in_bounds(style, replies.drop_last());
    }
}

/// The artifacts that a complete capture hands out all pass validation, are in the
/// order of their paths, and are exactly the files that were read.
pub proof fn lemma_captured_artifacts_are_restorable(style: PathStyle, replies: Seq<SessionReply>)
    requires
        walk_after(style, replies).stage is Captured,
    ensures
        checkpoint::artifacts_error(style, captured_artifacts(style, replies)) is None,
        ordering::is_in_key_order(captured_artifacts(style, replies)),
        captured_artifacts(style, replies).to_multiset() == stored_found(
            walk_after(style, replies).found,
        ).to_multiset(),
        found_in_order(style, replies).to_multiset() == walk_after(style, replies).found.to_multiset(),
        found_bytes(walk_after(style, replies).found) <= MAX_CHECKPOINT_BYTES,
{
    let found = walk_after(style, replies).found;
    let files = captured_artifacts(style, replies);
    lemma_walk_stays_in_bounds(style, replies);
    ordering::lemma_sorted_by_key(found);
    ordering::lemma_sorted_map(found, |file: FoundFile| file.stored());
    ordering::lemma_sorted_by_key(stored_found(found));
    let checks = files.map_values(
        |artifact: StoredFile| paths::artifact_path_error(style, artifact.path),
    );
    crate::error::lemma_first_error_none(checks);
    assert forall|i: int| 0 <= i < checks.len() implies (#[trigger] checks[i]) is None by {
        assert(found.contains(found_in_order(style, replies)[i]));
    }
}

/// The directories that were reported so far.
pub open spec fn directories_seen(style: PathStyle, replies: Seq<SessionReply>) -> Multiset<usize>
    decreases replies.len(),
{
    if replies.len() == 0 {
        Multiset::empty()
    } else {
        let earlier = directories_seen(style, replies.drop_last());
        match (walk_after(style, replies.drop_last()).stage, replies.last()) {
            (WalkStage::FindRoot, SessionReply::Root(Some(handle))) => earlier.insert(handle),
            (WalkStage::List, SessionReply::Entry(Ok(Some(entry)))) => if entry.kind == Ok::<
                EntryKind,
                String,
            >(EntryKind::Directory) {
                earlier.insert(entry.handle)
            } else {
                earlier
            },
            _ => earlier,
        }
    }
}

/// The directories that were opened so far.
pub open spec fn directories_opened(style: PathStyle, replies: Seq<SessionReply>) -> Multiset<usize>
    decreases replies.len(),
{
    if replies.len() == 0 {
        Multiset::empty()
    } else {
        let earlier = directories_opened(style, replies.drop_last());
        match (walk_after(style, replies.drop_last()).stage, replies.last()) {
            (WalkStage::Open(handle), SessionReply::Opened(Ok(_))) => earlier.insert(handle),
            _ => earlier,
        }
    }
}

/// The paths of the files that were reported so far.
pub open spec fn files_listed(style: PathStyle, replies: Seq<SessionReply>) -> Seq<Seq<char>>
    decreases replies.len(),
{
    if replies.len() == 0 {
        Seq::empty()
    } else {
        let earlier = files_listed(style, replies.drop_last());
        match (walk_after(style, replies.drop_last()).stage, replies.last()) {
            (WalkStage::List, SessionReply::Entry(Ok(Some(entry)))) => {
                if entry.kind == Ok::<EntryKind, String>(EntryKind::File) {
                    match entry.relative_path {
                        Ok(reported) => earlier.push(text::replaced(reported@, '\\', '/')),
                        Err(_) => earlier,
                    }
                } else {
                    earlier
                }
            },
            _ => earlier,
        }
    }
}

/// The paths of some files.
pub open spec fn paths_found(files: Seq<FoundFile>) -> Seq<Seq<char>> {
    files.map_values(|file: FoundFile| file.path)
}

/// At every point, what was seen and not opened yet is still to be opened, and what was
/// listed and not read yet is being read.
proof fn lemma_nothing_is_lost(style: PathStyle, replies: Seq<SessionReply>)
    requires
        walk_after(style, replies).stage !is Failed,
    ensures
        ({
            let walk = walk_after(style, replies);
            &&& directories_seen(style, replies) == directories_opened(style, replies).add(
                walk.pending.to_multiset(),
            ).add(
                match walk.stage {
                    WalkStage::Open(handle) => Multiset::singleton(handle),
                    _ => Multiset::empty(),
                },
            )
            &&& files_listed(style, replies) == match walk.stage {
                WalkStage::Read { path, handle } => paths_found(walk.found).push(path),
                _ => paths_found(walk.found),
            }
            &&& walk.stage is FindRoot || walk.stage is Captured ==> walk.pending.len() == 0
            &&& walk.stage is Captured ==> walk.root == artifact_roots().len()
            &&& walk.stage !is Captured ==> walk.root < artifact_roots().len()
        }),
    decreases replies.len(),
{
    broadcast use vstd::seq_lib::group_to_multiset_ensures;
    broadcast use vstd::multiset::group_multiset_axioms;

    let walk = walk_after(style, replies);
    if replies.len() == 0 {
        assert(paths_found(walk.found) =~= Seq::empty());
        assert(directories_seen(style, replies) =~= directories_opened(style, replies).add(
            walk.pending.to_multiset(),
        ).add(Multiset::empty()));
    } else {
        let before = walk_after(style, replies.drop_last());
        lemma_nothing_is_lost(style, replies.drop_last());
        if before.pending.len() > 0 {
            assert(before.pending =~= before.pending.drop_last().push(before.pending.last()));
        }
        assert(directories_seen(style, replies) =~= directories_opened(style, replies).add(
            walk.pending.to_multiset(),
        ).add(
            match walk.stage {
                WalkStage::Open(handle) => Multiset::singleton(handle),
                _ => Multiset::empty(),
            },
        ));
        assert(files_listed(style, replies) =~= match walk.stage {
            WalkStage::Read { path, handle } => paths_found(walk.found).push(path),
            _ => paths_found(walk.found),
        });
    }
}

/// When a capture is complete, both artifact directories have been looked for, every
/// directory that was reported has been opened, and every file that was reported has
/// been read.
pub proof fn lemma_complete_capture_misses_nothing(style: PathStyle, replies: Seq<SessionReply>)
    requires
        walk_after(style, replies).stage is Captured,
    ensures
        walk_after(style, replies).root == artifact_roots().len(),
        directories_opened(style, replies) == directories_seen(style, replies),
        paths_found(walk_after(style, replies).found) == files_listed(style, replies),
{
    broadcast use vstd::seq_lib::group_to_multiset_ensures;
    broadcast use vstd::multiset::group_multiset_axioms;

    lemma_nothing_is_lost(style, replies);
    let walk = walk_after(style, replies);
    assert(walk.pending =~= Seq::empty());
    assert(directories_opened(style, replies) =~= directories_seen(style, replies));
}

} // verus!
