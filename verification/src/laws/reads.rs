//! Promises about what was read of a file and whether the file may be changed.

use crate::file_read_state;
use crate::file_read_state::freshness;
use crate::file_read_state::freshness::FileReadFreshnessFacts;
use crate::file_read_state::store;
use crate::file_read_state::{FileMutationKind, FileReadState};
use crate::ordering;
use vstd::prelude::*;

verus! {

/// The texts are equal, or one is the other and a line feed behind a last line that had
/// none.
pub open spec fn equal_but_for_a_final_newline(left: Seq<char>, right: Seq<char>) -> bool {
    ||| left == right
    ||| left == right + "\n"@ && !(right.len() > 0 && right[right.len() - 1] == '\n')
    ||| right == left + "\n"@ && !(left.len() > 0 && left[left.len() - 1] == '\n')
}

/// Two contents count as the same exactly if they are equal but for a final line feed.
pub proof fn lemma_same_content_exactly_if(left: Seq<char>, right: Seq<char>)
    ensures
        freshness::same_content(left, right) <==> equal_but_for_a_final_newline(left, right),
{
    reveal_strlit("\n");
    let l = freshness::without_final_newline(left);
    let r = freshness::without_final_newline(right);
    if left.len() > 0 && left.last() == '\n' {
        assert(left =~= left.drop_last() + "\n"@);
    }
    if right.len() > 0 && right.last() == '\n' {
        assert(right =~= right.drop_last() + "\n"@);
    }
    if equal_but_for_a_final_newline(left, right) && left != right {
        if left == right + "\n"@ {
            assert(left.drop_last() =~= right);
        } else {
            assert(right.drop_last() =~= left);
        }
    }
}

/// Contents that differ anywhere in front of a final line feed never count as the same.
pub proof fn lemma_any_difference_counts(left: Seq<char>, right: Seq<char>, index: int)
    requires
        0 <= index < left.len(),
        0 <= index < right.len(),
        left[index] != right[index],
    ensures
        !(index == left.len() - 1 && left[index] == '\n') && !(index == right.len() - 1
            && right[index] == '\n') ==> !freshness::same_content(left, right),
{
    reveal_strlit("\n");
    lemma_same_content_exactly_if(left, right);
}

/// The read was asked for and took in every line.
pub open spec fn read_every_line(state: FileReadState) -> bool {
    &&& !state.is_partial_view
    &&& (state.total_lines == 0 && state.start_line == 0 && state.end_line == 0) || (
    state.total_lines > 0 && state.start_line == 1 && state.end_line >= state.total_lines)
}

/// The file is fresh: not modified after it was read, or read as a whole and still the
/// same but for a final line feed.
pub open spec fn unchanged_since_read(
    state: FileReadState,
    content: Seq<char>,
    mtime_ms: Option<u64>,
) -> bool {
    ||| mtime_ms is Some && mtime_ms->0 <= state.timestamp_ms
    ||| read_every_line(state) && equal_but_for_a_final_newline(state.content@, content)
}

/// What was read decides on freshness exactly so.
pub proof fn lemma_fresh_exactly_if(
    state: FileReadState,
    content: Seq<char>,
    mtime_ms: Option<u64>,
    facts: FileReadFreshnessFacts,
)
    ensures
        state.is_full_read() <==> read_every_line(state),
        state.is_fresh(content, mtime_ms) <==> unchanged_since_read(state, content, mtime_ms),
        state.content_matches(content) <==> unchanged_since_read(state, content, None),
        facts.content_matches(content) <==> facts.is_full_file_read
            && equal_but_for_a_final_newline(facts.content@, content),
        facts.are_fresh(content, mtime_ms) <==> (mtime_ms is Some && mtime_ms->0
            <= facts.timestamp_ms) || (facts.is_full_file_read && equal_but_for_a_final_newline(
            facts.content@,
            content,
        )),
{
    lemma_same_content_exactly_if(state.content@, content);
    lemma_same_content_exactly_if(facts.content@, content);
}

/// An edit is refused exactly if the file is not fresh, and told whether its time or its
/// content gave it away.
pub proof fn lemma_edit_is_refused_exactly_if(
    path: Seq<char>,
    state: FileReadState,
    content: Seq<char>,
    mtime_ms: Option<u64>,
)
    ensures
        file_read_state::edit_refusal(path, state, content, mtime_ms) == if unchanged_since_read(
            state,
            content,
            mtime_ms,
        ) {
            None
        } else if mtime_ms is Some {
            Some(
                "The file "@ + path
                    + " changed after it was last read. Use Read again, then retry Edit."@,
            )
        } else {
            Some(
                "The file "@ + path
                    + " no longer matches the last Read result. Use Read again, then retry Edit."@,
            )
        },
        forall|fresh: bool| #[trigger]
            file_read_state::edit_refusal_given(path, fresh, mtime_ms) is None <==> fresh,
{
    lemma_same_content_exactly_if(state.content@, content);
}

/// A write is refused exactly if the file was modified after it was read, going by its
/// time, or is no longer what was read as a whole, going by its content.
pub proof fn lemma_write_is_refused_exactly_if(
    path: Seq<char>,
    state: FileReadState,
    content: Seq<char>,
    mtime_ms: u64,
)
    ensures
        file_read_state::write_mtime_refusal(path, state, mtime_ms) == if mtime_ms
            <= state.timestamp_ms {
            None
        } else {
            Some(
                "The file "@ + path
                    + " changed after it was last read. Use Read again, then retry Write."@,
            )
        },
        file_read_state::write_content_refusal(path, state, content) == if unchanged_since_read(
            state,
            content,
            None,
        ) {
            None
        } else {
            Some(
                "The file "@ + path
                    + " no longer matches the last Read result. Use Read again, then retry Write."@,
            )
        },
        forall|fresh: bool| #[trigger]
            file_read_state::write_content_refusal_given(path, fresh) is None <==> fresh,
{
    lemma_same_content_exactly_if(state.content@, content);
}

/// Somebody else's change is never edited over: if a whole file was read, differs now in
/// front of a final line feed, and its time is unknown or later, the edit is refused.
pub proof fn lemma_changed_file_is_not_edited(
    path: Seq<char>,
    state: FileReadState,
    content: Seq<char>,
    mtime_ms: Option<u64>,
    index: int,
)
    requires
        0 <= index < state.content@.len(),
        0 <= index < content.len(),
        state.content@[index] != content[index],
        !(index == state.content@.len() - 1 && state.content@[index] == '\n'),
        !(index == content.len() - 1 && content[index] == '\n'),
        mtime_ms is None || mtime_ms->0 > state.timestamp_ms,
    ensures
        file_read_state::edit_refusal(path, state, content, mtime_ms) is Some,
        file_read_state::write_content_refusal(path, state, content) is Some,
{
    lemma_any_difference_counts(state.content@, content, index);
    lemma_edit_is_refused_exactly_if(path, state, content, mtime_ms);
    lemma_write_is_refused_exactly_if(path, state, content, 0);
    lemma_same_content_exactly_if(state.content@, content);
}

/// A file may be changed on the strength of a read exactly if there was one that the
/// model asked for.
pub proof fn lemma_prior_read_is_needed(
    path: Seq<char>,
    state: FileReadState,
    kind: FileMutationKind,
)
    ensures
        ({
            let tool = if kind == FileMutationKind::Edit {
                "Edit"@
            } else {
                "Write"@
            };
            &&& file_read_state::prior_read_refusal(path, None, kind) == Some(
                "Use Read to load the current contents of "@ + path + (" before calling "@ + tool
                    + " on it."@),
            )
            &&& state.is_partial_view ==> file_read_state::prior_read_refusal(
                path,
                Some(state),
                kind,
            ) == Some(
                "Use Read to load the full contents of "@ + path + (" before calling "@ + tool
                    + " on it."@),
            )
            &&& !state.is_partial_view ==> file_read_state::prior_read_refusal(
                path,
                Some(state),
                kind,
            ) is None
        }),
{
}

/// A message is there with its whole text or not at all.
pub proof fn lemma_messages_are_whole(message: String)
    ensures
        file_read_state::message_text(Some(message)) == Some(message@),
        file_read_state::message_text(None) is None,
{
}

/// The lines, each with a line feed behind it.
pub open spec fn terminated(lines: Seq<Seq<char>>) -> Seq<char>
    decreases lines.len(),
{
    if lines.len() == 0 {
        Seq::empty()
    } else {
        terminated(lines.drop_last()) + lines.last() + "\n"@
    }
}

proof fn lemma_newlines_behind(content: Seq<char>, line: Seq<char>)
    requires
        !line.contains('\n'),
    ensures
        file_read_state::newline_count(content + line) == file_read_state::newline_count(content),
    decreases line.len(),
{
    if line.len() == 0 {
        assert(content + line =~= content);
    } else {
        assert(line.contains(line[line.len() - 1]));
        assert((content + line).drop_last() =~= content + line.drop_last());
        assert(!line.drop_last().contains('\n')) by {
            if line.drop_last().contains('\n') {
                let i = line.drop_last().index_of('\n');
                assert(line[i] == '\n');
            }
        }
        lemma_newlines_behind(content, line.drop_last());
    }
}

/// Lines are counted: as many as there are line feeds behind them, and one more for
/// something behind the last line feed.
pub proof fn lemma_lines_are_counted(lines: Seq<Seq<char>>, last: Seq<char>)
    requires
        forall|i: int| 0 <= i < lines.len() ==> !(#[trigger] lines[i]).contains('\n'),
        !last.contains('\n'),
    ensures
        file_read_state::newline_count(terminated(lines)) == lines.len(),
        file_read_state::line_count(terminated(lines)) == lines.len(),
        file_read_state::line_count(terminated(lines) + last) == lines.len() + if last.len() > 0 {
            1nat
        } else {
            0nat
        },
    decreases lines.len(),
{
    reveal_strlit("\n");
    let content = terminated(lines);
    if lines.len() > 0 {
        let front = lines.drop_last();
        assert forall|i: int| 0 <= i < front.len() implies !(#[trigger] front[i]).contains('\n') by {
            assert(front[i] == lines[i]);
        }
        assert(!lines[lines.len() - 1].contains('\n'));
        lemma_lines_are_counted(front, Seq::empty());
        lemma_newlines_behind(terminated(front), lines.last());
        assert(content.drop_last() =~= terminated(front) + lines.last());
        assert(content.last() == '\n');
    }
    lemma_newlines_behind(content, last);
    if last.len() > 0 {
        assert((content + last).last() == last[last.len() - 1]);
        assert(last.contains(last[last.len() - 1]));
    } else {
        assert(content + last =~= content);
    }
}

/// A lookup finds exactly what is stored for the session under the path.
pub proof fn lemma_lookups_find_what_is_stored(
    sessions: Map<Seq<char>, Map<Seq<char>, FileReadState>>,
    session: Seq<char>,
    path: Seq<char>,
)
    ensures
        sessions.contains_key(session) && sessions[session].contains_key(path) ==> store::state_at(
            sessions,
            session,
            path,
        ) == Some(sessions[session][path]),
        !(sessions.contains_key(session) && sessions[session].contains_key(path))
            ==> store::state_at(sessions, session, path) is None,
{
}

/// Opening a session adds it and nothing else, clearing it keeps it without its files, and
/// storing a read adds the session where it was missing and keeps all that is stored for
/// other paths and other sessions.
pub proof fn lemma_sessions_are_changed_one_by_one(
    sessions: Map<Seq<char>, Map<Seq<char>, FileReadState>>,
    session: Seq<char>,
    other: Seq<char>,
    path: Seq<char>,
    other_path: Seq<char>,
    state: FileReadState,
)
    ensures
        store::with_session(sessions, session).contains_key(other) <==> other == session
            || sessions.contains_key(other),
        store::with_session_cleared(sessions, session).contains_key(other)
            <==> sessions.contains_key(other),
        store::with_state(sessions, session, path, state).contains_key(other) <==> other == session
            || sessions.contains_key(other),
        sessions.contains_key(session) ==> store::with_session(sessions, session)[session]
            == sessions[session],
        !sessions.contains_key(session) ==> store::with_session(sessions, session)[session]
            == Map::<Seq<char>, FileReadState>::empty(),
        sessions.contains_key(session) ==> store::with_session_cleared(sessions, session)[session]
            == Map::<Seq<char>, FileReadState>::empty(),
        other != session && sessions.contains_key(other) ==> {
            &&& store::with_session(sessions, session)[other] == sessions[other]
            &&& store::with_session_cleared(sessions, session)[other] == sessions[other]
            &&& store::with_state(sessions, session, path, state)[other] == sessions[other]
        },
        ({
            let files = store::with_state(sessions, session, path, state)[session];
            let was_stored = sessions.contains_key(session)
                && sessions[session].contains_key(other_path);
            &&& files.contains_key(path) && files[path] == state
            &&& other_path != path ==> (files.contains_key(other_path) <==> was_stored)
            &&& other_path != path && was_stored ==> files[other_path]
                == sessions[session][other_path]
        }),
{
}

/// The list of paths that a session has read holds a path exactly if looking it up finds
/// a read that is no partial view; no path stands twice, and an earlier one never comes
/// after a later one.
pub proof fn lemma_listed_paths(
    sessions: Map<Seq<char>, Map<Seq<char>, FileReadState>>,
    session: Seq<char>,
    paths: Seq<String>,
    path: Seq<char>,
    i: int,
    j: int,
)
    requires
        store::are_explicit_paths(store::path_texts(paths), store::files_of(sessions, session)),
    ensures
        (exists|k: int| 0 <= k < paths.len() && (#[trigger] paths[k])@ == path) <==> (
        store::state_at(sessions, session, path) is Some && !store::state_at(
            sessions,
            session,
            path,
        )->0.is_partial_view),
        0 <= i < j < paths.len() ==> paths[i]@ != paths[j]@ && ordering::text_le(
            paths[i]@,
            paths[j]@,
        ),
{
    let texts = store::path_texts(paths);
    if exists|k: int| 0 <= k < paths.len() && (#[trigger] paths[k])@ == path {
        let k = choose|k: int| 0 <= k < paths.len() && (#[trigger] paths[k])@ == path;
        assert(texts[k] == path);
        assert(texts.contains(path));
    }
    if texts.contains(path) {
        let k = texts.index_of(path);
        assert(paths[k]@ == path);
    }
    if 0 <= i < j < paths.len() {
        assert(texts[i] == paths[i]@ && texts[j] == paths[j]@);
    }
}

} // verus!
