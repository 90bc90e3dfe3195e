//! What a session has read of its files, and the gates that this puts in front of
//! editing and writing them.

use crate::text::to_chars;
use vstd::prelude::*;

pub mod freshness;
pub mod store;

pub use freshness::{
    file_read_facts_are_fresh, file_read_facts_content_matches, FileReadFreshnessFacts,
};
pub use store::FileReadStateStore;

verus! {

pub const FILE_UNEXPECTEDLY_MODIFIED_ERROR: &'static str =
    "File has been unexpectedly modified. Read it again before attempting to write it.";

/// How a file is about to be changed.
#[derive(Debug, Clone, Copy, PartialEq, Eq, Structural)]
pub enum FileMutationKind {
    Edit,
    Write,
}

impl FileMutationKind {
    pub open spec fn name(self) -> Seq<char> {
        match self {
            FileMutationKind::Edit => "Edit"@,
            FileMutationKind::Write => "Write"@,
        }
    }

    fn tool_name(self) -> (name: &'static str)
        ensures
            name@ == self.name(),
    {
        match self {
            Self::Edit => "Edit",
            Self::Write => "Write",
        }
    }
}

/// What was last read of a file.
#[derive(Debug, PartialEq, Eq)]
pub struct FileReadState {
    /// Raw file content without Read-tool line-number prefixes (LF-normalized view).
    pub content: String,
    /// File mtime in milliseconds since UNIX epoch when recorded, if known.
    pub timestamp_ms: u64,
    pub start_line: usize,
    pub end_line: usize,
    pub total_lines: usize,
    /// True when this entry was populated by auto-injection and the model has
    /// not explicitly read the file. Range reads from the Read tool do not set this.
    pub is_partial_view: bool,
}

impl Clone for FileReadState {
    fn clone(&self) -> (copy: Self)
        ensures
            copy == *self,
    {
        FileReadState {
            content: self.content.clone(),
            timestamp_ms: self.timestamp_ms,
            start_line: self.start_line,
            end_line: self.end_line,
            total_lines: self.total_lines,
            is_partial_view: self.is_partial_view,
        }
    }
}

/// How many line feeds there are in `content`.
pub open spec fn newline_count(content: Seq<char>) -> nat
    decreases content.len(),
{
    if content.len() == 0 {
        0
    } else if content.last() == '\n' {
        newline_count(content.drop_last()) + 1
    } else {
        newline_count(content.drop_last())
    }
}

/// How many lines there are in `content`. A line ends with a line feed, which the last
/// line may lack.
pub open spec fn line_count(content: Seq<char>) -> nat {
    if content.len() > 0 && content.last() != '\n' {
        newline_count(content) + 1
    } else {
        newline_count(content)
    }
}

/// Counts the lines of a text.
fn count_lines(content: &str) -> (lines: usize)
    ensures
        lines == line_count(content@),
{
    let chars = to_chars(content);
    let len = chars.len();
    let mut newlines: usize = 0;
    let mut i: usize = 0;
    while i < len
        invariant
            chars@ == content@,
            len == chars.len(),
            newlines <= i <= len,
            newlines == newline_count(content@.take(i as int)),
            i > 0 && content@[i - 1] != '\n' ==> newlines < i,
        decreases len - i,
    {
        assert(content@.take(i + 1).drop_last() =~= content@.take(i as int));
        if chars[i] == '\n' {
            newlines += 1;
        }
        i += 1;
    }
    assert(content@.take(len as int) =~= content@);
    if len > 0 && chars[len - 1] != '\n' {
        newlines + 1
    } else {
        newlines
    }
}

impl FileReadState {
    /// What the Read tool returned, whether a range of lines or all of them.
    pub fn from_read_tool_content(
        content: String,
        timestamp_ms: u64,
        start_line: usize,
        end_line: usize,
        total_lines: usize,
    ) -> (state: Self)
        ensures
            state == (FileReadState {
                content,
                timestamp_ms,
                start_line,
                end_line,
                total_lines,
                is_partial_view: false,
            }),
    {
        Self { content, timestamp_ms, start_line, end_line, total_lines, is_partial_view: false }
    }

    /// A read of the whole of `content`.
    pub fn from_full_content(content: &str, timestamp_ms: u64) -> (state: Self)
        ensures
            state.content@ == content@,
            state.timestamp_ms == timestamp_ms,
            state.start_line == if line_count(content@) == 0 {
                0int
            } else {
                1int
            },
            state.end_line == line_count(content@),
            state.total_lines == line_count(content@),
            !state.is_partial_view,
            state.is_full_read(),
    {
        let line_count = count_lines(content);
        let start_line: usize = if line_count == 0 {
            0
        } else {
            1
        };
        Self {
            content: content.to_string(),
            timestamp_ms,
            start_line,
            end_line: line_count,
            total_lines: line_count,
            is_partial_view: false,
        }
    }

    /// The read was asked for and covers every line. An empty file has the range 0 to 0.
    pub open spec fn is_full_read(self) -> bool {
        &&& !self.is_partial_view
        &&& if self.total_lines == 0 {
            self.start_line == 0 && self.end_line == 0
        } else {
            self.start_line == 1 && self.end_line >= self.total_lines
        }
    }

    pub fn is_full_file_read(&self) -> (full: bool)
        ensures
            full == self.is_full_read(),
    {
        if self.is_partial_view {
            return false;
        }
        if self.total_lines == 0 {
            return self.start_line == 0 && self.end_line == 0;
        }
        self.start_line == 1 && self.end_line >= self.total_lines
    }

    /// The whole file was read, and it holds the same content now.
    pub open spec fn content_matches(self, current_content: Seq<char>) -> bool {
        self.is_full_read() && freshness::same_content(self.content@, current_content)
    }

    /// The file has not been written since it was read, or it still holds what was read.
    pub open spec fn is_fresh(
        self,
        current_content: Seq<char>,
        current_mtime_ms: Option<u64>,
    ) -> bool {
        ||| current_mtime_ms matches Some(mtime_ms) && mtime_ms <= self.timestamp_ms
        ||| self.content_matches(current_content)
    }
}

/// The text of an optional message.
pub open spec fn message_text(message: Option<String>) -> Option<Seq<char>> {
    match message {
        Some(text) => Some(text@),
        None => None,
    }
}

/// `before`, the path, and `after`.
fn about_path(before: &str, logical_path: &str, after: &str) -> (message: String)
    ensures
        message@ == before@ + logical_path@ + after@,
{
    let mut message = before.to_string();
    message.append(logical_path);
    message.append(after);
    message
}

/// Why a file may not be changed on the strength of its last read, if it may not.
pub open spec fn prior_read_refusal(
    logical_path: Seq<char>,
    read_state: Option<FileReadState>,
    mutation: FileMutationKind,
) -> Option<Seq<char>> {
    let rest = " before calling "@ + mutation.name() + " on it."@;
    match read_state {
        None => Some("Use Read to load the current contents of "@ + logical_path + rest),
        Some(state) => if state.is_partial_view {
            Some("Use Read to load the full contents of "@ + logical_path + rest)
        } else {
            None
        },
    }
}

/// Refuses to change a file that the model has not read itself.
pub fn validate_prior_read_state(
    logical_path: &str,
    read_state: Option<&FileReadState>,
    mutation: FileMutationKind,
) -> (refusal: Option<String>)
    ensures
        message_text(refusal) == prior_read_refusal(
            logical_path@,
            match read_state {
                Some(state) => Some(*state),
                None => None,
            },
            mutation,
        ),
{
    let mut rest = " before calling ".to_string();
    rest.append(mutation.tool_name());
    rest.append(" on it.");
    let Some(read_state) = read_state else {
        return Some(
            about_path("Use Read to load the current contents of ", logical_path, rest.as_str()),
        );
    };
    if read_state.is_partial_view {
        return Some(
            about_path("Use Read to load the full contents of ", logical_path, rest.as_str()),
        );
    }
    None
}

fn file_read_freshness_facts(read_state: &FileReadState) -> (facts: FileReadFreshnessFacts<'_>)
    ensures
        facts.content@ == read_state.content@,
        facts.timestamp_ms == read_state.timestamp_ms,
        facts.is_full_file_read == read_state.is_full_read(),
{
    FileReadFreshnessFacts {
        content: read_state.content.as_str(),
        timestamp_ms: read_state.timestamp_ms,
        is_full_file_read: read_state.is_full_file_read(),
    }
}

/// Whether the whole file was read and holds the same content now.
pub fn content_unchanged_since_full_read(
    read_state: &FileReadState,
    current_content: &str,
) -> (unchanged: bool)
    ensures
        unchanged == read_state.content_matches(current_content@),
{
    file_read_facts_content_matches(file_read_freshness_facts(read_state), current_content)
}

/// Accepts a file, given whether it was found to be fresh; there is no finding for a file
/// that was not read.
pub fn assert_found_fresh(fresh: Option<bool>) -> (result: Result<(), String>)
    ensures
        result is Ok <==> fresh == Some(true),
        result matches Err(message) ==> message@ == FILE_UNEXPECTEDLY_MODIFIED_ERROR@,
{
    match fresh {
        Some(true) => Ok(()),
        _ => Err(FILE_UNEXPECTEDLY_MODIFIED_ERROR.to_string()),
    }
}

/// Accepts a file that was read and still is what was read.
pub fn assert_file_not_unexpectedly_modified(
    read_state: Option<&FileReadState>,
    current_content: &str,
    current_mtime_ms: Option<u64>,
) -> (result: Result<(), String>)
    ensures
        result is Ok <==> (read_state matches Some(state) && state.is_fresh(
            current_content@,
            current_mtime_ms,
        )),
        result matches Err(message) ==> message@ == FILE_UNEXPECTEDLY_MODIFIED_ERROR@,
{
    let fresh = match read_state {
        None => None,
        Some(read_state) => Some(
            file_read_facts_are_fresh(
                file_read_freshness_facts(read_state),
                current_content,
                current_mtime_ms,
            ),
        ),
    };
    assert_found_fresh(fresh)
}

/// Why a file may not be edited, given whether it was found to be fresh.
pub open spec fn edit_refusal_given(
    logical_path: Seq<char>,
    fresh: bool,
    current_mtime_ms: Option<u64>,
) -> Option<Seq<char>> {
    if fresh {
        None
    } else if current_mtime_ms is Some {
        Some(
            "The file "@ + logical_path
                + " changed after it was last read. Use Read again, then retry Edit."@,
        )
    } else {
        Some(
            "The file "@ + logical_path
                + " no longer matches the last Read result. Use Read again, then retry Edit."@,
        )
    }
}

/// Why a file may not be edited, if it may not.
pub open spec fn edit_refusal(
    logical_path: Seq<char>,
    read_state: FileReadState,
    current_content: Seq<char>,
    current_mtime_ms: Option<u64>,
) -> Option<Seq<char>> {
    edit_refusal_given(
        logical_path,
        read_state.is_fresh(current_content, current_mtime_ms),
        current_mtime_ms,
    )
}

/// Refuses to edit a file that was not found to be fresh.
pub fn refuse_stale_edit(
    logical_path: &str,
    fresh: bool,
    current_mtime_ms: Option<u64>,
) -> (refusal: Option<String>)
    ensures
        message_text(refusal) == edit_refusal_given(logical_path@, fresh, current_mtime_ms),
{
    if fresh {
        return None;
    }
    if current_mtime_ms.is_some() {
        return Some(
            about_path(
                "The file ",
                logical_path,
                " changed after it was last read. Use Read again, then retry Edit.",
            ),
        );
    }
    Some(
        about_path(
            "The file ",
            logical_path,
            " no longer matches the last Read result. Use Read again, then retry Edit.",
        ),
    )
}

/// Refuses to edit a file that is no longer what was read.
pub fn validate_edit_content_freshness_against_read_state(
    logical_path: &str,
    read_state: &FileReadState,
    current_content: &str,
    current_mtime_ms: Option<u64>,
) -> (refusal: Option<String>)
    ensures
        message_text(refusal) == edit_refusal(
            logical_path@,
            *read_state,
            current_content@,
            current_mtime_ms,
        ),
{
    let fresh = file_read_facts_are_fresh(
        file_read_freshness_facts(read_state),
        current_content,
        current_mtime_ms,
    );
    refuse_stale_edit(logical_path, fresh, current_mtime_ms)
}

/// Why a file may not be written going by its modification time, if it may not.
pub open spec fn write_mtime_refusal(
    logical_path: Seq<char>,
    read_state: FileReadState,
    current_mtime_ms: u64,
) -> Option<Seq<char>> {
    if current_mtime_ms > read_state.timestamp_ms {
        Some(
            "The file "@ + logical_path
                + " changed after it was last read. Use Read again, then retry Write."@,
        )
    } else {
        None
    }
}

/// Why a file may not be written going by its content, given whether it was found to be
/// fresh.
pub open spec fn write_content_refusal_given(logical_path: Seq<char>, fresh: bool) -> Option<
    Seq<char>,
> {
    if fresh {
        None
    } else {
        Some(
            "The file "@ + logical_path
                + " no longer matches the last Read result. Use Read again, then retry Write."@,
        )
    }
}

/// Why a file may not be written going by its content, if it may not.
pub open spec fn write_content_refusal(
    logical_path: Seq<char>,
    read_state: FileReadState,
    current_content: Seq<char>,
) -> Option<Seq<char>> {
    write_content_refusal_given(logical_path, read_state.is_fresh(current_content, None))
}

/// Refuses to write a file that was modified after it was read.
pub fn validate_write_mtime_freshness_against_read_state(
    logical_path: &str,
    read_state: &FileReadState,
    current_mtime_ms: u64,
) -> (refusal: Option<String>)
    ensures
        message_text(refusal) == write_mtime_refusal(
            logical_path@,
            *read_state,
            current_mtime_ms,
        ),
{
    if current_mtime_ms > read_state.timestamp_ms {
        return Some(
            about_path(
                "The file ",
                logical_path,
                " changed after it was last read. Use Read again, then retry Write.",
            ),
        );
    }
    None
}

/// Refuses to write a file that was not found to hold what was read.
pub fn refuse_stale_write(logical_path: &str, fresh: bool) -> (refusal: Option<String>)
    ensures
        message_text(refusal) == write_content_refusal_given(logical_path@, fresh),
{
    if fresh {
        return None;
    }
    Some(
        about_path(
            "The file ",
            logical_path,
            " no longer matches the last Read result. Use Read again, then retry Write.",
        ),
    )
}

/// Refuses to write a file that no longer holds what was read.
pub fn validate_write_content_freshness_against_read_state(
    logical_path: &str,
    read_state: &FileReadState,
    current_content: &str,
) -> (refusal: Option<String>)
    ensures
        message_text(refusal) == write_content_refusal(
            logical_path@,
            *read_state,
            current_content@,
        ),
{
    let fresh = file_read_facts_are_fresh(
        file_read_freshness_facts(read_state),
        current_content,
        None,
    );
    refuse_stale_write(logical_path, fresh)
}

/// Only the empty text has no lines.
pub proof fn lemma_only_empty_content_has_no_lines(content: Seq<char>)
    ensures
        line_count(content) == 0 <==> content.len() == 0,
{
}

/// A file that was read as a whole and holds the same content passes every content gate,
/// whatever its modification time is now.
pub proof fn lemma_matching_full_read_is_fresh(
    logical_path: Seq<char>,
    read_state: FileReadState,
    current_content: Seq<char>,
    current_mtime_ms: Option<u64>,
)
    requires
        read_state.is_full_read(),
        freshness::same_content(read_state.content@, current_content),
    ensures
        read_state.is_fresh(current_content, current_mtime_ms),
        edit_refusal(logical_path, read_state, current_content, current_mtime_ms) is None,
        write_content_refusal(logical_path, read_state, current_content) is None,
{
}

/// A read that does not cover the whole file never vouches for its content: such a file
/// is fresh only if it was not modified after it was read.
pub proof fn lemma_partial_read_needs_the_mtime(
    logical_path: Seq<char>,
    read_state: FileReadState,
    current_content: Seq<char>,
    current_mtime_ms: Option<u64>,
)
    requires
        !read_state.is_full_read(),
    ensures
        read_state.is_fresh(current_content, current_mtime_ms) <==> (
        current_mtime_ms matches Some(mtime_ms) && mtime_ms <= read_state.timestamp_ms),
        write_content_refusal(logical_path, read_state, current_content) is Some,
{
}

/// A file that may be written, going by its time or by its content, may also be edited.
pub proof fn lemma_write_gates_imply_the_edit_gate(
    logical_path: Seq<char>,
    read_state: FileReadState,
    current_content: Seq<char>,
    current_mtime_ms: u64,
)
    ensures
        write_mtime_refusal(logical_path, read_state, current_mtime_ms) is None ==> edit_refusal(
            logical_path,
            read_state,
            current_content,
            Some(current_mtime_ms),
        ) is None,
        write_content_refusal(logical_path, read_state, current_content) is None ==> edit_refusal(
            logical_path,
            read_state,
            current_content,
            Some(current_mtime_ms),
        ) is None,
        write_content_refusal(logical_path, read_state, current_content) is None <==> edit_refusal(
            logical_path,
            read_state,
            current_content,
            None,
        ) is None,
{
}

/// A file that is fresh was as fresh at any earlier modification time.
pub proof fn lemma_earlier_mtime_stays_fresh(
    read_state: FileReadState,
    current_content: Seq<char>,
    earlier_mtime_ms: u64,
    current_mtime_ms: u64,
)
    requires
        earlier_mtime_ms <= current_mtime_ms,
        read_state.is_fresh(current_content, Some(current_mtime_ms)),
    ensures
        read_state.is_fresh(current_content, Some(earlier_mtime_ms)),
{
}

} // verus!
