//! Capturing and restoring the artifacts of a session against a directory that holds
//! files: what is captured, restored and captured again stays the same.

use crate::ordering;
use crate::ordering::Keyed;
use crate::round_replay::artifact_capture;
use crate::round_replay::artifact_capture::{FoundFile, Walk, WalkStage};
use crate::round_replay::artifact_restore;
use crate::round_replay::capture;
use crate::round_replay::checkpoint::{StoredFile, MAX_CHECKPOINT_BYTES};
use crate::round_replay::paths;
use crate::round_replay::paths::{PathStyle, COMPRESSION_TRANSCRIPTS_PREFIX, TOOL_RESULTS_PREFIX};
use crate::round_replay::payload;
use crate::round_replay::restore;
use crate::round_replay::restore::Payload;
use crate::round_replay::session::{
    DirectoryEntry, EntryKind, SessionReply, SessionRequestView, COMPRESSION_TRANSCRIPTS_ROOT,
    TOOL_RESULTS_ROOT,
};
use crate::round_replay::step::StepView;
use crate::text;
use vstd::prelude::*;

verus! {

/// A directory that holds files and answers a capture.
pub struct SessionTree {
    /// The files, by their paths below the directory, written with slashes.
    pub files: Map<Seq<char>, Seq<u8>>,
    /// The path that a handle stands for.
    pub places: Map<usize, Seq<char>>,
    /// The entries of each directory, in the order in which they are shown.
    pub listings: Map<Seq<char>, Seq<DirectoryEntry>>,
}

/// The path lies in the directory or in a directory below it.
pub open spec fn is_below(directory: Seq<char>, path: Seq<char>) -> bool {
    directory.push('/').is_prefix_of(path)
}

pub open spec fn one_if(condition: bool) -> nat {
    if condition {
        1
    } else {
        0
    }
}

/// How many of the artifact directories from the given one on the path lies below.
pub open spec fn roots_above(first: int, path: Seq<char>) -> nat {
    one_if(first <= 0 && is_below(TOOL_RESULTS_ROOT@, path)) + one_if(
        first <= 1 && is_below(COMPRESSION_TRANSCRIPTS_ROOT@, path),
    )
}

/// What a capture finds at the path if these are the files.
pub open spec fn artifact_at(files: Map<Seq<char>, Seq<u8>>, path: Seq<char>) -> Seq<FoundFile> {
    if files.contains_key(path) && roots_above(0, path) > 0 {
        seq![FoundFile { path, contents: files[path] }]
    } else {
        Seq::empty()
    }
}

impl SessionTree {
    /// The entry is the file of that path, or a directory above it.
    pub open spec fn shows(self, entry: DirectoryEntry, path: Seq<char>) -> bool {
        match entry.kind {
            Ok(EntryKind::File) => self.places[entry.handle] == path,
            Ok(EntryKind::Directory) => is_below(self.places[entry.handle], path),
            _ => false,
        }
    }

    /// How many of the entries show the path.
    pub open spec fn times_shown(self, entries: Seq<DirectoryEntry>, path: Seq<char>) -> nat
        decreases entries.len(),
    {
        if entries.len() == 0 {
            0
        } else {
            one_if(self.shows(entries[0], path)) + self.times_shown(entries.drop_first(), path)
        }
    }

    /// The entry tells the truth: its kind is known, a file is there under its path, and
    /// a directory can be listed.
    pub open spec fn is_honest(self, entry: DirectoryEntry) -> bool {
        match entry.kind {
            Ok(EntryKind::File) => {
                &&& entry.relative_path matches Ok(path) && text::replaced(path@, '\\', '/')
                    == self.places[entry.handle]
                &&& self.files.contains_key(self.places[entry.handle])
            },
            Ok(EntryKind::Directory) => self.listings.contains_key(self.places[entry.handle]),
            Ok(EntryKind::Other) => true,
            Err(_) => false,
        }
    }

    /// The listings are those of a directory tree: their entries are honest, and the
    /// listing of a directory shows every file below it once and no other file.
    pub open spec fn is_well_formed(self) -> bool {
        &&& forall|directory: Seq<char>, i: int|
            self.listings.contains_key(directory) && 0 <= i < self.listings[directory].len()
                ==> self.is_honest(#[trigger] self.listings[directory][i])
        &&& forall|directory: Seq<char>, path: Seq<char>|
            self.listings.contains_key(directory) && self.files.contains_key(path)
                ==> #[trigger] self.times_shown(self.listings[directory], path) == one_if(
                is_below(directory, path),
            )
    }

    /// The entries of the open directory that were not shown yet.
    pub open spec fn entries_left(self, style: PathStyle, replies: Seq<SessionReply>) -> Seq<
        DirectoryEntry,
    >
        decreases replies.len(),
    {
        if replies.len() == 0 {
            Seq::empty()
        } else {
            let earlier = self.entries_left(style, replies.drop_last());
            match (artifact_capture::walk_after(style, replies.drop_last()).stage, replies.last()) {
                (WalkStage::Open(handle), _) => self.listings[self.places[handle]],
                (WalkStage::List, SessionReply::Entry(Ok(Some(_)))) => earlier.drop_first(),
                _ => earlier,
            }
        }
    }

    /// The reply is what this directory answers where the capture stands.
    pub open spec fn answers(
        self,
        walk: Walk,
        entries: Seq<DirectoryEntry>,
        reply: SessionReply,
    ) -> bool {
        match walk.stage {
            WalkStage::FindRoot => {
                let root = artifact_capture::artifact_roots()[walk.root];
                match reply {
                    SessionReply::Root(None) => forall|path: Seq<char>| #[trigger]
                        self.files.contains_key(path) ==> !is_below(root, path),
                    SessionReply::Root(Some(handle)) => {
                        &&& self.places[handle] == root
                        &&& self.listings.contains_key(root)
                    },
                    _ => false,
                }
            },
            WalkStage::Open(_) => reply matches SessionReply::Opened(Ok(_)),
            WalkStage::List => match reply {
                SessionReply::Entry(Ok(None)) => entries.len() == 0,
                SessionReply::Entry(Ok(Some(entry))) => entries.len() > 0 && entry == entries[0],
                _ => false,
            },
            WalkStage::Read { path, handle } => reply matches SessionReply::Contents(Ok(contents))
                && contents@ == self.files[self.places[handle]],
            WalkStage::Captured => false,
            WalkStage::Failed(_) => false,
        }
    }

    /// Every reply to the capture is what this directory answers.
    pub open spec fn answered(self, style: PathStyle, replies: Seq<SessionReply>) -> bool
        decreases replies.len(),
    {
        replies.len() == 0 || {
            let before = replies.drop_last();
            &&& self.answered(style, before)
            &&& self.answers(
                artifact_capture::walk_after(style, before),
                self.entries_left(style, before),
                replies.last(),
            )
        }
    }

    /// How many of the directories hold the path.
    spec fn times_pending(self, pending: Seq<usize>, path: Seq<char>) -> nat
        decreases pending.len(),
    {
        if pending.len() == 0 {
            0
        } else {
            self.times_pending(pending.drop_last(), path) + one_if(
                is_below(self.places[pending.last()], path),
            )
        }
    }

    /// How many times the walk is still going to come upon the path.
    spec fn times_ahead(self, walk: Walk, entries: Seq<DirectoryEntry>, path: Seq<char>) -> nat {
        self.times_shown(entries, path) + self.times_pending(walk.pending, path)
            + match walk.stage {
            WalkStage::Open(handle) => one_if(is_below(self.places[handle], path)),
            WalkStage::Read { path: reading, handle } => one_if(reading == path),
            _ => 0,
        } + roots_above(
            if walk.stage is FindRoot {
                walk.root
            } else {
                walk.root + 1
            },
            path,
        )
    }

    /// What holds of a walk over this directory as long as it has not failed.
    spec fn is_on_track(self, walk: Walk, entries: Seq<DirectoryEntry>) -> bool {
        &&& 0 <= walk.root
        &&& walk.stage is Captured ==> walk.root == 2 && walk.pending.len() == 0
        &&& walk.stage !is Captured ==> walk.root < 2
        &&& walk.stage is FindRoot ==> walk.pending.len() == 0
        &&& !(walk.stage is List || walk.stage is Read) ==> entries.len() == 0
        &&& forall|i: int| 0 <= i < entries.len() ==> self.is_honest(#[trigger] entries[i])
        &&& forall|i: int|
            0 <= i < walk.pending.len() ==> self.listings.contains_key(
                self.places[#[trigger] walk.pending[i]],
            )
        &&& walk.stage matches WalkStage::Open(handle) ==> self.listings.contains_key(
            self.places[handle],
        )
        &&& walk.stage matches WalkStage::Read { path, handle } ==> self.places[handle] == path
            && self.files.contains_key(path)
        &&& forall|i: int|
            0 <= i < walk.found.len() ==> self.files.contains_key((#[trigger] walk.found[i]).path)
                && self.files[walk.found[i].path] == walk.found[i].contents
        &&& walk.found.no_duplicates()
        &&& forall|path: Seq<char>| #[trigger]
            self.files.contains_key(path) ==> ordering::with_key(walk.found, path).len()
                + self.times_ahead(walk, entries, path) == roots_above(0, path)
    }
}

/// No path lies below both artifact directories.
proof fn lemma_one_root_at_most(path: Seq<char>)
    ensures
        roots_above(0, path) <= 1,
{
    reveal_strlit("tool-results");
    reveal_strlit("artifacts/compression-transcripts");
    if is_below(TOOL_RESULTS_ROOT@, path) && is_below(COMPRESSION_TRANSCRIPTS_ROOT@, path) {
        assert(TOOL_RESULTS_ROOT@.push('/')[0] == path[0]);
        assert(COMPRESSION_TRANSCRIPTS_ROOT@.push('/')[0] == path[0]);
    }
}

/// An acceptable artifact path lies below an artifact directory.
proof fn lemma_artifact_paths_have_a_root(style: PathStyle, path: Seq<char>)
    requires
        paths::artifact_path_error(style, path) is None,
    ensures
        roots_above(0, path) == 1,
{
    reveal_strlit("tool-results");
    reveal_strlit("tool-results/");
    reveal_strlit("artifacts/compression-transcripts");
    reveal_strlit("artifacts/compression-transcripts/");
    assert(TOOL_RESULTS_ROOT@.push('/') =~= TOOL_RESULTS_PREFIX@);
    assert(COMPRESSION_TRANSCRIPTS_ROOT@.push('/') =~= COMPRESSION_TRANSCRIPTS_PREFIX@);
    lemma_one_root_at_most(path);
}

proof fn lemma_step_stays_on_track(
    tree: SessionTree,
    walk: Walk,
    entries: Seq<DirectoryEntry>,
    reply: SessionReply,
    entries_after: Seq<DirectoryEntry>,
)
    requires
        tree.is_well_formed(),
        tree.is_on_track(walk, entries),
        tree.answers(walk, entries, reply),
        entries_after == match (walk.stage, reply) {
            (WalkStage::Open(handle), _) => tree.listings[tree.places[handle]],
            (WalkStage::List, SessionReply::Entry(Ok(Some(_)))) => entries.drop_first(),
            _ => entries,
        },
        walk.after(reply).stage !is Failed,
    ensures
        tree.is_on_track(walk.after(reply), entries_after),
{
    let after = walk.after(reply);
    assert(artifact_capture::artifact_roots().len() == 2);
    assert forall|i: int| 0 <= i < entries_after.len() implies tree.is_honest(
        #[trigger] entries_after[i],
    ) by {
        match walk.stage {
            WalkStage::Open(handle) => {
                assert(tree.is_honest(tree.listings[tree.places[handle]][i]));
            },
            _ => {
                if entries_after != entries {
                    assert(entries_after[i] == entries[i + 1]);
                }
            },
        }
    }
    if walk.stage is List && entries.len() > 0 {
        assert(tree.is_honest(entries[0]));
    }
    assert forall|i: int| 0 <= i < after.pending.len() implies tree.listings.contains_key(
        tree.places[#[trigger] after.pending[i]],
    ) by {
        if i < walk.pending.len() {
            assert(after.pending[i] == walk.pending[i]);
        }
    }
    if after.stage is Open && walk.stage is List {
        assert(walk.pending[walk.pending.len() - 1] == walk.pending.last());
    }
    if walk.stage is Read {
        lemma_reading_adds_one(tree, walk, entries);
    }
    assert forall|path: Seq<char>| #[trigger] tree.files.contains_key(path) implies ordering::with_key(
        after.found,
        path,
    ).len() + tree.times_ahead(after, entries_after, path) == roots_above(0, path) by {
        lemma_path_stays_on_track(tree, walk, entries, reply, entries_after, path);
    }
}

/// A file that is being read was not read before.
proof fn lemma_reading_adds_one(tree: SessionTree, walk: Walk, entries: Seq<DirectoryEntry>)
    requires
        tree.is_on_track(walk, entries),
        walk.stage is Read,
    ensures
        forall|i: int|
            0 <= i < walk.found.len() ==> (#[trigger] walk.found[i]).path != walk.stage->path,
{
    let reading = walk.stage->path;
    lemma_one_root_at_most(reading);
    assert(tree.files.contains_key(reading));
    assert forall|i: int| 0 <= i < walk.found.len() implies (#[trigger] walk.found[i]).path
        != reading by {
        ordering::lemma_found_has_key(walk.found, i);
    }
}

proof fn lemma_path_stays_on_track(
    tree: SessionTree,
    walk: Walk,
    entries: Seq<DirectoryEntry>,
    reply: SessionReply,
    entries_after: Seq<DirectoryEntry>,
    path: Seq<char>,
)
    requires
        tree.is_well_formed(),
        tree.is_on_track(walk, entries),
        tree.answers(walk, entries, reply),
        entries_after == match (walk.stage, reply) {
            (WalkStage::Open(handle), _) => tree.listings[tree.places[handle]],
            (WalkStage::List, SessionReply::Entry(Ok(Some(_)))) => entries.drop_first(),
            _ => entries,
        },
        walk.after(reply).stage !is Failed,
        tree.files.contains_key(path),
    ensures
        ordering::with_key(walk.after(reply).found, path).len() + tree.times_ahead(
            walk.after(reply),
            entries_after,
            path,
        ) == roots_above(0, path),
{
    let after = walk.after(reply);
    assert(artifact_capture::artifact_roots().len() == 2);
    assert(ordering::with_key(walk.found, path).len() + tree.times_ahead(walk, entries, path)
        == roots_above(0, path));
    match walk.stage {
        WalkStage::FindRoot => {
            assert(artifact_capture::artifact_roots()[0] == TOOL_RESULTS_ROOT@);
            assert(artifact_capture::artifact_roots()[1] == COMPRESSION_TRANSCRIPTS_ROOT@);
        },
        WalkStage::Open(handle) => {
            let directory = tree.places[handle];
            assert(tree.times_shown(tree.listings[directory], path) == one_if(
                is_below(directory, path),
            ));
            assert(tree.times_shown(entries, path) == 0);
        },
        WalkStage::List => {
            if reply->Entry_0->Ok_0 is Some {
                let entry = entries[0];
                assert(tree.is_honest(entry));
                if entry.kind == Ok::<EntryKind, String>(EntryKind::Directory) {
                    assert(after.pending.drop_last() =~= walk.pending);
                }
            }
        },
        WalkStage::Read { path: reading, handle } => {
            let contents = reply->Contents_0->Ok_0@;
            ordering::lemma_with_key_push(
                walk.found,
                FoundFile { path: reading, contents },
                path,
            );
        },
        _ => {},
    }
}

proof fn lemma_walk_stays_on_track(tree: SessionTree, style: PathStyle, replies: Seq<SessionReply>)
    requires
        tree.is_well_formed(),
        tree.answered(style, replies),
        artifact_capture::walk_after(style, replies).stage !is Failed,
    ensures
        tree.is_on_track(
            artifact_capture::walk_after(style, replies),
            tree.entries_left(style, replies),
        ),
    decreases replies.len(),
{
    if replies.len() == 0 {
        reveal(Seq::filter);
        assert forall|path: Seq<char>| #[trigger]
            tree.files.contains_key(path) implies ordering::with_key(
            Seq::<FoundFile>::empty(),
            path,
        ).len() + tree.times_ahead(Walk::start(style), Seq::empty(), path) == roots_above(0, path) by {
            assert(ordering::with_key(Seq::<FoundFile>::empty(), path).len() == 0);
        }
    } else {
        let before = replies.drop_last();
        let walk = artifact_capture::walk_after(style, before);
        lemma_walk_stays_on_track(tree, style, before);
        lemma_step_stays_on_track(
            tree,
            walk,
            tree.entries_left(style, before),
            replies.last(),
            tree.entries_left(style, replies),
        );
    }
}

/// A complete capture finds every file below the artifact directories once, with its
/// contents, and nothing else.
pub proof fn lemma_capture_finds_every_artifact(
    tree: SessionTree,
    style: PathStyle,
    replies: Seq<SessionReply>,
    path: Seq<char>,
)
    requires
        tree.is_well_formed(),
        tree.answered(style, replies),
        artifact_capture::walk_after(style, replies).stage is Captured,
    ensures
        ordering::with_key(artifact_capture::walk_after(style, replies).found, path)
            == artifact_at(tree.files, path),
{
    let walk = artifact_capture::walk_after(style, replies);
    let entries = tree.entries_left(style, replies);
    let found = ordering::with_key(walk.found, path);
    lemma_walk_stays_on_track(tree, style, replies);
    lemma_one_root_at_most(path);
    if tree.files.contains_key(path) {
        assert(found.len() == roots_above(0, path));
    } else if found.len() > 0 {
        ordering::lemma_with_key_is_found(walk.found, path);
    }
    if found.len() > 0 {
        ordering::lemma_with_key_members(walk.found, path, 0);
        assert(found =~= artifact_at(tree.files, path));
    } else {
        assert(found =~= artifact_at(tree.files, path));
    }
}

/// Captures of directories that hold the same files below the artifact directories hand
/// out the same artifacts, however the directories show them.
pub proof fn lemma_capture_is_determined_by_the_files(
    style: PathStyle,
    left: SessionTree,
    left_replies: Seq<SessionReply>,
    right: SessionTree,
    right_replies: Seq<SessionReply>,
)
    requires
        left.is_well_formed(),
        left.answered(style, left_replies),
        artifact_capture::walk_after(style, left_replies).stage is Captured,
        right.is_well_formed(),
        right.answered(style, right_replies),
        artifact_capture::walk_after(style, right_replies).stage is Captured,
        forall|path: Seq<char>| #[trigger]
            artifact_at(left.files, path) == artifact_at(right.files, path),
    ensures
        artifact_capture::found_in_order(style, left_replies) == artifact_capture::found_in_order(
            style,
            right_replies,
        ),
        artifact_capture::captured_artifacts(style, left_replies)
            == artifact_capture::captured_artifacts(style, right_replies),
{
    let a = artifact_capture::walk_after(style, left_replies).found;
    let b = artifact_capture::walk_after(style, right_replies).found;
    ordering::lemma_sorted_by_key(a);
    ordering::lemma_sorted_by_key(b);
    let left_order = ordering::sorted_by_key(a);
    let right_order = ordering::sorted_by_key(b);
    assert forall|key: Seq<char>| #[trigger]
        ordering::with_key(left_order, key) == ordering::with_key(right_order, key) by {
        lemma_capture_finds_every_artifact(left, style, left_replies, key);
        lemma_capture_finds_every_artifact(right, style, right_replies, key);
        assert(ordering::with_key(left_order, key) == ordering::with_key(a, key));
        assert(ordering::with_key(right_order, key) == ordering::with_key(b, key));
        assert(artifact_at(left.files, key) == artifact_at(right.files, key));
    }
    ordering::lemma_stable_order_is_unique(left_order, right_order);
}

/// The bytes without one of the files.
proof fn lemma_bytes_without(files: Seq<FoundFile>, index: int)
    requires
        0 <= index < files.len(),
    ensures
        artifact_capture::found_bytes(files) == artifact_capture::found_bytes(files.remove(index))
            + files[index].contents.len(),
    decreases files.len(),
{
    if index == files.len() - 1 {
        assert(files.remove(index) =~= files.drop_last());
    } else {
        lemma_bytes_without(files.drop_last(), index);
        assert(files.remove(index).drop_last() =~= files.drop_last().remove(index));
        assert(files.remove(index).last() == files.last());
    }
}

/// Distinct files out of some files are no more bytes than all of them.
proof fn lemma_part_has_no_more_bytes(part: Seq<FoundFile>, whole: Seq<FoundFile>)
    requires
        part.no_duplicates(),
        forall|i: int| 0 <= i < part.len() ==> whole.contains(#[trigger] part[i]),
    ensures
        artifact_capture::found_bytes(part) <= artifact_capture::found_bytes(whole),
    decreases part.len(),
{
    if part.len() > 0 {
        let last = part.last();
        assert(whole.contains(part[part.len() - 1]));
        let index = whole.index_of(last);
        let rest = whole.remove(index);
        let front = part.drop_last();
        assert forall|i: int| 0 <= i < front.len() implies rest.contains(#[trigger] front[i]) by {
            assert(whole.contains(part[i]));
            let k = whole.index_of(part[i]);
            assert(part[i] != part[part.len() - 1]);
            if k < index {
                assert(rest[k] == part[i]);
            } else {
                assert(rest[k - 1] == part[i]);
            }
        }
        lemma_part_has_no_more_bytes(front, rest);
        lemma_bytes_without(whole, index);
    }
}

/// A directory whose artifacts have acceptable paths and are not too much data is
/// captured without a failure.
pub proof fn lemma_fitting_directory_is_captured(
    tree: SessionTree,
    style: PathStyle,
    replies: Seq<SessionReply>,
    all: Seq<FoundFile>,
)
    requires
        tree.is_well_formed(),
        tree.answered(style, replies),
        forall|path: Seq<char>| #[trigger]
            tree.files.contains_key(path) ==> paths::artifact_path_error(style, path) is None
                && all.contains(FoundFile { path, contents: tree.files[path] }),
        artifact_capture::found_bytes(all) <= MAX_CHECKPOINT_BYTES,
    ensures
        artifact_capture::walk_after(style, replies).stage !is Failed,
    decreases replies.len(),
{
    if replies.len() > 0 {
        let before = replies.drop_last();
        let walk = artifact_capture::walk_after(style, before);
        let entries = tree.entries_left(style, before);
        let reply = replies.last();
        artifact_capture::lemma_walk_stays_in_bounds(style, before);
        lemma_fitting_directory_is_captured(tree, style, before, all);
        lemma_walk_stays_on_track(tree, style, before);
        if walk.stage is List && entries.len() > 0 {
            assert(tree.is_honest(entries[0]));
        }
        if let WalkStage::Read { path, handle } = walk.stage {
            let file = FoundFile { path, contents: reply->Contents_0->Ok_0@ };
            let found = walk.found.push(file);
            lemma_reading_adds_one(tree, walk, entries);
            assert(found.no_duplicates());
            assert forall|i: int| 0 <= i < found.len() implies all.contains(#[trigger] found[i]) by {
                if i < walk.found.len() {
                    assert(tree.files.contains_key(walk.found[i].path));
                } else {
                    assert(tree.files.contains_key(path));
                }
            }
            lemma_part_has_no_more_bytes(found, all);
        }
    }
}

/// The files of a directory after it took part in a restoration: what was written is
/// there, and what was removed is not.
pub open spec fn directory_after(
    style: PathStyle,
    artifacts: Seq<StoredFile>,
    payloads: Seq<Payload>,
    files: Map<Seq<char>, Seq<u8>>,
    replies: Seq<SessionReply>,
) -> Map<Seq<char>, Seq<u8>>
    decreases replies.len(),
{
    if replies.len() == 0 {
        files
    } else {
        let before = replies.drop_last();
        let earlier = directory_after(style, artifacts, payloads, files, before);
        let step = artifact_restore::artifact_step(
            artifacts,
            payloads,
            artifact_restore::artifact_progress(style, artifacts, payloads, before),
        );
        match (step, replies.last()) {
            (
                StepView::Ask(SessionRequestView::WriteFile(path, contents)),
                SessionReply::Written(Ok(_)),
            ) => earlier.insert(path, contents),
            (StepView::Ask(SessionRequestView::RemoveFile(path)), _) => earlier.remove(path),
            _ => earlier,
        }
    }
}

/// The files that the first `count` artifacts stand for, a later one in place of an
/// earlier one at the same path.
pub open spec fn artifact_files(
    artifacts: Seq<StoredFile>,
    payloads: Seq<Payload>,
    count: int,
) -> Map<Seq<char>, Seq<u8>>
    decreases count,
{
    if count <= 0 {
        Map::empty()
    } else {
        artifact_files(artifacts, payloads, count - 1).insert(
            artifacts[count - 1].path,
            payloads[count - 1]->Ok_0,
        )
    }
}

proof fn lemma_directory_while_restoring(
    style: PathStyle,
    artifacts: Seq<StoredFile>,
    payloads: Seq<Payload>,
    replies: Seq<SessionReply>,
    count: int,
)
    requires
        artifact_restore::is_artifact_history(style, artifacts, payloads, replies),
        artifact_restore::artifact_progress(style, artifacts, payloads, replies) is Restored,
        0 <= count <= replies.len(),
    ensures
        replies.len() == 3 * artifacts.len(),
        directory_after(style, artifacts, payloads, Map::empty(), replies.take(count))
            == artifact_files(artifacts, payloads, count - 2 * artifacts.len()),
    decreases count,
{
    artifact_restore::lemma_artifact_plan(artifacts, payloads);
    artifact_restore::lemma_artifacts_follow_plan(style, artifacts, payloads, replies);
    if artifacts.len() == 0 {
        if replies.len() > 0 {
            let none = replies.take(0);
            assert(artifact_restore::artifact_progress(style, artifacts, payloads, none)
                is Restored);
            assert(artifact_restore::artifact_step(
                artifacts,
                payloads,
                artifact_restore::artifact_progress(style, artifacts, payloads, none),
            ) is Ask);
        }
    } else {
        artifact_restore::lemma_restored_artifacts_are_all_written(
            style,
            artifacts,
            payloads,
            replies,
            0,
        );
    }
    if count > 0 {
        let earlier = replies.take(count - 1);
        lemma_directory_while_restoring(style, artifacts, payloads, replies, count - 1);
        assert(replies.take(count).drop_last() =~= earlier);
        assert forall|i: int| 0 <= i < earlier.len() implies artifact_restore::is_artifact_accepted(
            artifacts,
            i,
            #[trigger] earlier[i],
        ) by {
            assert(artifact_restore::is_artifact_accepted(artifacts, i, replies[i]));
        }
        artifact_restore::lemma_accepted_artifact_replies_lead_to_success(
            style,
            artifacts,
            payloads,
            earlier,
        );
        let index = count - 1 - 2 * artifacts.len();
        if index >= 0 {
            artifact_restore::lemma_restored_artifacts_are_all_written(
                style,
                artifacts,
                payloads,
                replies,
                index,
            );
            assert(artifact_restore::artifact_plan(artifacts, payloads)[count - 1]
                == SessionRequestView::WriteFile(artifacts[index].path, payloads[index]->Ok_0));
        }
    }
}

/// A restoration into an empty directory that succeeds leaves exactly the files that the
/// artifacts stand for.
pub proof fn lemma_restored_directory_holds_the_artifacts(
    style: PathStyle,
    artifacts: Seq<StoredFile>,
    payloads: Seq<Payload>,
    replies: Seq<SessionReply>,
)
    requires
        artifact_restore::is_artifact_history(style, artifacts, payloads, replies),
        artifact_restore::artifact_progress(style, artifacts, payloads, replies) is Restored,
    ensures
        directory_after(style, artifacts, payloads, Map::empty(), replies) == artifact_files(
            artifacts,
            payloads,
            artifacts.len() as int,
        ),
{
    lemma_directory_while_restoring(
        style,
        artifacts,
        payloads,
        replies,
        replies.len() as int,
    );
    assert(replies.take(replies.len() as int) =~= replies);
}

proof fn lemma_artifact_files(
    artifacts: Seq<StoredFile>,
    payloads: Seq<Payload>,
    count: int,
    files: Map<Seq<char>, Seq<u8>>,
)
    requires
        0 <= count <= artifacts.len(),
        forall|i: int|
            0 <= i < count ==> payloads[i]->Ok_0 == files[(#[trigger] artifacts[i]).path],
    ensures
        forall|path: Seq<char>| #[trigger]
            artifact_files(artifacts, payloads, count).contains_key(path) <==> exists|i: int|
                0 <= i < count && (#[trigger] artifacts[i]).path == path,
        forall|path: Seq<char>| #[trigger]
            artifact_files(artifacts, payloads, count).contains_key(path) ==> artifact_files(
                artifacts,
                payloads,
                count,
            )[path] == files[path],
    decreases count,
{
    if count > 0 {
        lemma_artifact_files(artifacts, payloads, count - 1, files);
        let earlier = artifact_files(artifacts, payloads, count - 1);
        let last = artifacts[count - 1].path;
        assert forall|path: Seq<char>| #[trigger]
            artifact_files(artifacts, payloads, count).contains_key(path) <==> exists|i: int|
                0 <= i < count && (#[trigger] artifacts[i]).path == path by {
            if path != last && earlier.contains_key(path) {
                let i = choose|i: int|
                    0 <= i < count - 1 && (#[trigger] artifacts[i]).path == path;
                assert(artifacts[i].path == path);
            }
        }
    }
}

/// What a capture finds in order is what it found, and all of it is in the directory.
proof fn lemma_found_in_order_is_in_the_directory(
    tree: SessionTree,
    style: PathStyle,
    replies: Seq<SessionReply>,
)
    requires
        tree.is_well_formed(),
        tree.answered(style, replies),
        artifact_capture::walk_after(style, replies).stage is Captured,
    ensures
        ({
            let files = artifact_capture::found_in_order(style, replies);
            &&& forall|i: int|
                0 <= i < files.len() ==> tree.files.contains_key((#[trigger] files[i]).path)
                    && tree.files[files[i].path] == files[i].contents
                    && paths::artifact_path_error(style, files[i].path) is None
                    && artifact_capture::walk_after(style, replies).found.contains(files[i])
            &&& forall|path: Seq<char>|
                (#[trigger] artifact_at(tree.files, path)).len() > 0 ==> exists|i: int|
                    0 <= i < files.len() && (#[trigger] files[i]).path == path
        }),
{
    let found = artifact_capture::walk_after(style, replies).found;
    let files = artifact_capture::found_in_order(style, replies);
    lemma_walk_stays_on_track(tree, style, replies);
    artifact_capture::lemma_walk_stays_in_bounds(style, replies);
    ordering::lemma_sorted_by_key(found);
    assert forall|i: int| 0 <= i < files.len() implies tree.files.contains_key(
        (#[trigger] files[i]).path,
    ) && tree.files[files[i].path] == files[i].contents && paths::artifact_path_error(
        style,
        files[i].path,
    ) is None && found.contains(files[i]) by {
        assert(found.contains(files[i]));
        let k = found.index_of(files[i]);
        assert(found[k] == files[i]);
    }
    assert forall|path: Seq<char>|
        (#[trigger] artifact_at(tree.files, path)).len() > 0 implies exists|i: int|
        0 <= i < files.len() && (#[trigger] files[i]).path == path by {
        lemma_capture_finds_every_artifact(tree, style, replies, path);
        assert(ordering::with_key(files, path) == ordering::with_key(found, path));
        ordering::lemma_with_key_is_found(files, path);
        let i = choose|i: int| 0 <= i < files.len() && (#[trigger] files[i]).key() == path;
        assert(files[i].path == path);
    }
}

/// Whatever is captured from one directory, restored into an empty one and captured
/// again from there comes out as the same artifacts. The second capture cannot fail; once
/// it is over it has handed out what the first did. The payloads must hold the bytes that
/// were read, as those of every complete capture do.
pub proof fn lemma_capture_after_restoration_gives_the_artifacts_back(
    style: PathStyle,
    source: SessionTree,
    captured: Seq<SessionReply>,
    restored: Seq<SessionReply>,
    target: SessionTree,
    again: Seq<SessionReply>,
)
    requires
        source.is_well_formed(),
        source.answered(style, captured),
        artifact_capture::walk_after(style, captured).stage is Captured,
        target.is_well_formed(),
        target.answered(style, again),
        artifact_capture::walk_after(style, again).request() is None,
    ensures
        ({
            let artifacts = artifact_capture::captured_artifacts(style, captured);
            let payloads = restore::decoded_payloads(artifacts);
            let contents = artifact_capture::contents_found(
                artifact_capture::found_in_order(style, captured),
            );
            (capture::holds_contents(artifacts, contents) && artifact_restore::is_artifact_history(
                style,
                artifacts,
                payloads,
                restored,
            ) && artifact_restore::artifact_progress(style, artifacts, payloads, restored)
                is Restored && target.files == directory_after(
                style,
                artifacts,
                payloads,
                Map::empty(),
                restored,
            )) ==> artifact_capture::artifact_capture_step(style, again) == StepView::<
                SessionRequestView,
                Seq<StoredFile>,
            >::Finish(Ok(artifacts))
        }),
{
    let artifacts = artifact_capture::captured_artifacts(style, captured);
    let payloads = restore::decoded_payloads(artifacts);
    let files = artifact_capture::found_in_order(style, captured);
    let contents = artifact_capture::contents_found(files);
    let found = artifact_capture::walk_after(style, captured).found;
    if capture::holds_contents(artifacts, contents) && artifact_restore::is_artifact_history(
        style,
        artifacts,
        payloads,
        restored,
    ) && artifact_restore::artifact_progress(style, artifacts, payloads, restored) is Restored
        && target.files == directory_after(style, artifacts, payloads, Map::empty(), restored) {
        let count = artifacts.len() as int;
        lemma_restored_directory_holds_the_artifacts(style, artifacts, payloads, restored);
        lemma_found_in_order_is_in_the_directory(source, style, captured);
        artifact_capture::lemma_walk_stays_in_bounds(style, captured);
        assert forall|i: int| 0 <= i < count implies payloads[i]->Ok_0
            == source.files[(#[trigger] artifacts[i]).path] by {
            assert(artifacts[i] == files[i].stored());
            assert(payloads[i] == Ok::<Seq<u8>, Seq<char>>(contents[i]));
        }
        lemma_artifact_files(artifacts, payloads, count, source.files);
        assert forall|path: Seq<char>| #[trigger]
            target.files.contains_key(path) implies paths::artifact_path_error(style, path) is None
            && found.contains(FoundFile { path, contents: target.files[path] }) by {
            let i = choose|i: int| 0 <= i < count && (#[trigger] artifacts[i]).path == path;
            assert(artifacts[i] == files[i].stored());
            assert(found.contains(files[i]));
        }
        lemma_fitting_directory_is_captured(target, style, again, found);
        assert forall|path: Seq<char>| #[trigger]
            artifact_at(source.files, path) == artifact_at(target.files, path) by {
            if target.files.contains_key(path) {
                let i = choose|i: int| 0 <= i < count && (#[trigger] artifacts[i]).path == path;
                assert(artifacts[i] == files[i].stored());
                lemma_artifact_paths_have_a_root(style, path);
            }
            if artifact_at(source.files, path).len() > 0 {
                let i = choose|i: int| 0 <= i < files.len() && (#[trigger] files[i]).path == path;
                assert(artifacts[i] == files[i].stored());
                assert(artifacts[i].path == path);
                assert(target.files.contains_key(path));
            }
            assert(artifact_at(source.files, path) =~= artifact_at(target.files, path));
        }
        lemma_capture_is_determined_by_the_files(style, source, captured, target, again);
    }
}

/// The bytes of some files, one behind the other.
pub open spec fn joined_contents(files: Seq<FoundFile>) -> Seq<u8>
    decreases files.len(),
{
    if files.len() == 0 {
        Seq::empty()
    } else {
        joined_contents(files.drop_last()) + files.last().contents
    }
}

/// The size of what was found is the number of its bytes.
pub proof fn lemma_found_bytes_are_all_bytes(files: Seq<FoundFile>)
    ensures
        artifact_capture::found_bytes(files) == joined_contents(files).len(),
    decreases files.len(),
{
    if files.len() > 0 {
        lemma_found_bytes_are_all_bytes(files.drop_last());
    }
}

/// The path is something behind one of the two artifact directories.
pub open spec fn is_artifact_place(path: Seq<char>) -> bool {
    "tool-results/"@.is_prefix_of(path) || "artifacts/compression-transcripts/"@.is_prefix_of(path)
}

proof fn lemma_artifact_places(path: Seq<char>)
    ensures
        is_artifact_place(path) <==> roots_above(0, path) > 0,
{
    reveal_strlit("tool-results");
    reveal_strlit("tool-results/");
    reveal_strlit("artifacts/compression-transcripts");
    reveal_strlit("artifacts/compression-transcripts/");
    assert(TOOL_RESULTS_ROOT@.push('/') =~= "tool-results/"@);
    assert(COMPRESSION_TRANSCRIPTS_ROOT@.push('/') =~= "artifacts/compression-transcripts/"@);
}

/// A directory is captured without a failure whenever the files below its artifact
/// directories have paths that stay below it and are no more than sixty-four mebibytes
/// together. How long their names are, how deep they lie, and what else the directory
/// holds does not matter.
pub proof fn lemma_every_named_artifact_can_be_captured(
    tree: SessionTree,
    style: PathStyle,
    replies: Seq<SessionReply>,
    all: Seq<FoundFile>,
)
    requires
        tree.is_well_formed(),
        tree.answered(style, replies),
        forall|path: Seq<char>| #[trigger]
            tree.files.contains_key(path) && is_artifact_place(path) ==> paths::workspace_path_error(
                style,
                path,
            ) is None && all.contains(FoundFile { path, contents: tree.files[path] }),
        joined_contents(all).len() <= 67108864,
    ensures
        artifact_capture::walk_after(style, replies).stage !is Failed,
    decreases replies.len(),
{
    if replies.len() > 0 {
        let before = replies.drop_last();
        let walk = artifact_capture::walk_after(style, before);
        let entries = tree.entries_left(style, before);
        let reply = replies.last();
        artifact_capture::lemma_walk_stays_in_bounds(style, before);
        lemma_every_named_artifact_can_be_captured(tree, style, before, all);
        lemma_walk_stays_on_track(tree, style, before);
        lemma_found_bytes_are_all_bytes(all);
        if walk.stage is List && entries.len() > 0 {
            let entry = entries[0];
            let path = tree.places[entry.handle];
            assert(tree.is_honest(entry));
            if entry.kind == Ok::<EntryKind, String>(EntryKind::File) {
                assert(tree.shows(entry, path));
                assert(tree.times_shown(entries, path) >= 1);
                assert(tree.files.contains_key(path));
                assert(roots_above(0, path) > 0);
                lemma_artifact_places(path);
                assert(TOOL_RESULTS_PREFIX@ == "tool-results/"@);
                assert(COMPRESSION_TRANSCRIPTS_PREFIX@ == "artifacts/compression-transcripts/"@);
                assert(paths::artifact_path_error(style, path) is None);
            }
        }
        if let WalkStage::Read { path, handle } = walk.stage {
            let file = FoundFile { path, contents: reply->Contents_0->Ok_0@ };
            let found = walk.found.push(file);
            lemma_reading_adds_one(tree, walk, entries);
            assert(found.no_duplicates());
            assert forall|i: int| 0 <= i < found.len() implies all.contains(#[trigger] found[i]) by {
                let p = found[i].path;
                if i < walk.found.len() {
                    assert(tree.files.contains_key(walk.found[i].path));
                    ordering::lemma_found_has_key(walk.found, i);
                } else {
                    assert(tree.files.contains_key(path));
                }
                assert(roots_above(0, p) > 0);
                lemma_artifact_places(p);
            }
            lemma_part_has_no_more_bytes(found, all);
        }
    }
}

/// What a capture of a directory hands out once it is over: every file below the artifact
/// directories under its path with the text of all its bytes, no other file, no file
/// twice, and in the order of the paths.
pub proof fn lemma_captured_artifacts_are_the_files(
    tree: SessionTree,
    style: PathStyle,
    replies: Seq<SessionReply>,
    all: Seq<FoundFile>,
    path: Seq<char>,
    i: int,
    j: int,
)
    requires
        tree.is_well_formed(),
        tree.answered(style, replies),
        forall|path: Seq<char>| #[trigger]
            tree.files.contains_key(path) && is_artifact_place(path) ==> paths::workspace_path_error(
                style,
                path,
            ) is None && all.contains(FoundFile { path, contents: tree.files[path] }),
        joined_contents(all).len() <= 67108864,
        artifact_capture::walk_after(style, replies).request() is None,
    ensures
        ({
            let outcome = artifact_capture::artifact_capture_step(style, replies);
            let artifacts = outcome->Finish_0->Ok_0;
            &&& outcome is Finish
            &&& outcome->Finish_0 is Ok
            &&& tree.files.contains_key(path) && is_artifact_place(path) ==> exists|k: int|
                0 <= k < artifacts.len() && (#[trigger] artifacts[k]).path == path
            &&& 0 <= i < artifacts.len() ==> {
                &&& tree.files.contains_key(artifacts[i].path)
                &&& is_artifact_place(artifacts[i].path)
                &&& artifacts[i].payload == payload::base64_text(tree.files[artifacts[i].path])
            }
            &&& 0 <= i < j < artifacts.len() ==> artifacts[i].path != artifacts[j].path
                && ordering::text_le(artifacts[i].path, artifacts[j].path)
        }),
{
    lemma_every_named_artifact_can_be_captured(tree, style, replies, all);
    let artifacts = artifact_capture::captured_artifacts(style, replies);
    let files = artifact_capture::found_in_order(style, replies);
    let found = artifact_capture::walk_after(style, replies).found;
    lemma_walk_stays_on_track(tree, style, replies);
    lemma_found_in_order_is_in_the_directory(tree, style, replies);
    ordering::lemma_sorted_by_key(found);
    assert(artifacts.len() == files.len());
    assert(artifact_capture::artifact_capture_step(style, replies) == StepView::<
        SessionRequestView,
        Seq<StoredFile>,
    >::Finish(Ok(artifacts)));
    assert forall|k: int| 0 <= k < files.len() implies (#[trigger] artifacts[k]).path
        == files[k].path && artifacts[k].payload == payload::base64_text(files[k].contents) by {
        assert(artifacts[k] == files[k].stored());
    }
    if tree.files.contains_key(path) && is_artifact_place(path) {
        lemma_artifact_places(path);
        assert(artifact_at(tree.files, path).len() > 0);
        let k = choose|k: int| 0 <= k < files.len() && (#[trigger] files[k]).path == path;
        assert(artifacts[k].path == path);
    }
    if 0 <= i < files.len() {
        assert(tree.files.contains_key(files[i].path));
        lemma_artifact_paths_have_a_root(style, files[i].path);
        lemma_artifact_places(files[i].path);
        assert(artifacts[i].path == files[i].path);
    }
    if 0 <= i < j < files.len() {
        found.lemma_multiset_has_no_duplicates();
        files.lemma_multiset_has_no_duplicates_conv();
        assert(files[i] != files[j]);
        assert(tree.files.contains_key(files[i].path) && tree.files.contains_key(files[j].path));
        assert(files[i].path != files[j].path);
        assert(ordering::text_le(files[i].key(), files[j].key()));
        assert(artifacts[i].path == files[i].path && artifacts[j].path == files[j].path);
    }
    let outcome = artifact_capture::artifact_capture_step(style, replies);
    assert(outcome->Finish_0->Ok_0 == artifacts);
    assert(0 <= i < artifacts.len() ==> tree.files.contains_key(artifacts[i].path)
        && is_artifact_place(artifacts[i].path) && artifacts[i].payload == payload::base64_text(
        tree.files[artifacts[i].path],
    ));
    assert(0 <= i < j < artifacts.len() ==> artifacts[i].path != artifacts[j].path
        && ordering::text_le(artifacts[i].path, artifacts[j].path));
}

} // verus!
