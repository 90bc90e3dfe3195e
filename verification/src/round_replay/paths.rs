//! Which commits, workspace paths and session artifact paths a checkpoint may name.

use crate::error::{BitFunError, BitFunResult, ErrorView};
use crate::text::{starts_with, to_chars};
use vstd::prelude::*;

verus! {

/// The two places below a session directory that hold artifacts, as path prefixes.
pub const TOOL_RESULTS_PREFIX: &'static str = "tool-results/";

pub const COMPRESSION_TRANSCRIPTS_PREFIX: &'static str = "artifacts/compression-transcripts/";

pub open spec fn is_hex_digit(c: char) -> bool {
    ||| '0' <= c <= '9'
    ||| 'a' <= c <= 'f'
    ||| 'A' <= c <= 'F'
}

/// A commit id: at least seven hexadecimal digits and nothing else.
pub open spec fn is_commit(commit: Seq<char>) -> bool {
    &&& commit.len() >= 7
    &&& forall|i: int| 0 <= i < commit.len() ==> is_hex_digit(#[trigger] commit[i])
}

/// How paths are written on a system.
#[derive(Debug, Clone, Copy, PartialEq, Eq, Structural)]
pub enum PathStyle {
    /// Components are separated by `/`.
    Unix,
    /// Components are separated by `/` or `\\`, and a path may begin with a drive.
    Windows,
}

impl PathStyle {
    pub open spec fn separates(self, c: char) -> bool {
        c == '/' || (self == PathStyle::Windows && c == '\\')
    }
}

pub open spec fn is_ascii_letter(c: char) -> bool {
    ||| 'a' <= c <= 'z'
    ||| 'A' <= c <= 'Z'
}

/// The path begins with a drive such as `C:`.
pub open spec fn begins_with_drive(style: PathStyle, path: Seq<char>) -> bool {
    &&& style == PathStyle::Windows
    &&& path.len() >= 2
    &&& is_ascii_letter(path[0])
    &&& path[1] == ':'
}

/// `path[start..end]` is one component of `path`: a run of characters between separators.
pub open spec fn is_component(style: PathStyle, path: Seq<char>, start: int, end: int) -> bool {
    &&& 0 <= start < end <= path.len()
    &&& start == 0 || style.separates(path[start - 1])
    &&& end == path.len() || style.separates(path[end])
    &&& forall|i: int| start <= i < end ==> !style.separates(#[trigger] path[i])
}

/// The component that begins at `start` is `..`.
pub open spec fn is_parent_component(style: PathStyle, path: Seq<char>, start: int) -> bool {
    &&& is_component(style, path, start, start + 2)
    &&& path[start] == '.'
    &&& path[start + 1] == '.'
}

/// The path begins with the component `.`.
pub open spec fn begins_in_current_dir(style: PathStyle, path: Seq<char>) -> bool {
    &&& is_component(style, path, 0, 1)
    &&& path[0] == '.'
}

/// A relative path made of ordinary names: not empty, not absolute, on no drive, no `..`
/// anywhere and no `.` in front.
///
/// Repeated and trailing separators, and `.` behind the first component, stand for
/// nothing.
pub open spec fn is_plain_relative_path(style: PathStyle, path: Seq<char>) -> bool {
    &&& path.len() > 0
    &&& !style.separates(path[0])
    &&& !begins_with_drive(style, path)
    &&& !begins_in_current_dir(style, path)
    &&& forall|start: int| !(#[trigger] is_parent_component(style, path, start))
}

/// The path lies below one of the two artifact directories.
pub open spec fn is_below_artifact_root(path: Seq<char>) -> bool {
    ||| TOOL_RESULTS_PREFIX@.is_prefix_of(path)
    ||| COMPRESSION_TRANSCRIPTS_PREFIX@.is_prefix_of(path)
}

pub open spec fn commit_error(commit: Seq<char>) -> Option<ErrorView> {
    if is_commit(commit) {
        None
    } else {
        Some(ErrorView::Validation("Invalid checkpoint baseline commit: "@ + commit))
    }
}

pub open spec fn workspace_path_error(style: PathStyle, path: Seq<char>) -> Option<ErrorView> {
    if is_plain_relative_path(style, path) {
        None
    } else {
        Some(ErrorView::Validation("Unsafe checkpoint workspace path: "@ + path))
    }
}

pub open spec fn artifact_path_error(style: PathStyle, path: Seq<char>) -> Option<ErrorView> {
    match workspace_path_error(style, path) {
        Some(error) => Some(error),
        None => if is_below_artifact_root(path) {
            None
        } else {
            Some(ErrorView::Validation("Unsupported round replay session artifact path: "@ + path))
        },
    }
}

/// A validation error whose message is `context` followed by `subject`.
pub(crate) fn invalid(context: &str, subject: &str) -> (error: BitFunError)
    ensures
        error@ == ErrorView::Validation(context@ + subject@),
{
    let mut message = context.to_string();
    message.append(subject);
    BitFunError::Validation(message)
}

fn is_ascii_hexdigit(c: char) -> (hex: bool)
    ensures
        hex == is_hex_digit(c),
{
    ('0' <= c && c <= '9') || ('a' <= c && c <= 'f') || ('A' <= c && c <= 'F')
}

/// Accepts a commit id of at least seven hexadecimal digits.
pub fn validate_commit(commit: &str) -> (result: BitFunResult<()>)
    ensures
        ErrorView::of(result) == commit_error(commit@),
{
    let chars = to_chars(commit);
    if chars.len() < 7 {
        return Err(invalid("Invalid checkpoint baseline commit: ", commit));
    }
    let mut i: usize = 0;
    while i < chars.len()
        invariant
            i <= chars.len(),
            chars@ == commit@,
            forall|j: int| 0 <= j < i ==> is_hex_digit(#[trigger] commit@[j]),
        decreases chars.len() - i,
    {
        if !is_ascii_hexdigit(chars[i]) {
            assert(!is_hex_digit(commit@[i as int]));
            return Err(invalid("Invalid checkpoint baseline commit: ", commit));
        }
        i += 1;
    }
    Ok(())
}

/// Calls `std::path::is_separator`, which says whether a character separates the
/// components of a path on this system. The slash does on every system; of any other
/// character nothing is said, since systems differ.
#[verifier::external_body]
fn is_host_separator(c: char) -> (separates: bool)
    ensures
        c == '/' ==> separates,
{
    std::path::is_separator(c)
}

impl PathStyle {
    /// The style of the system that this runs on: paths are written as on Windows where
    /// a backslash separates their components. Which style it is depends on the system
    /// alone, so nothing is promised of it.
    pub fn host() -> (style: Self) {
        Self::for_separator(is_host_separator('\\'))
    }

    /// The style of a system, given whether a backslash separates components there.
    pub fn for_separator(backslash_separates: bool) -> (style: Self)
        ensures
            style == (if backslash_separates {
                PathStyle::Windows
            } else {
                PathStyle::Unix
            }),
            style.separates('\\') == backslash_separates,
    {
        if backslash_separates {
            PathStyle::Windows
        } else {
            PathStyle::Unix
        }
    }

    fn is_separator(self, c: char) -> (separates: bool)
        ensures
            separates == self.separates(c),
    {
        match self {
            PathStyle::Unix => c == '/',
            PathStyle::Windows => c == '/' || c == '\\',
        }
    }

    /// Decides whether the characters begin with a drive.
    fn has_drive(self, path: &Vec<char>) -> (found: bool)
        ensures
            found == begins_with_drive(self, path@),
    {
        match self {
            PathStyle::Unix => false,
            PathStyle::Windows => path.len() >= 2 && (('a' <= path[0] && path[0] <= 'z') || ('A'
                <= path[0] && path[0] <= 'Z')) && path[1] == ':',
        }
    }

    /// Decides whether the characters of a path form a plain relative path.
    fn plain_relative_path(self, path: &Vec<char>) -> (plain: bool)
        ensures
            plain == is_plain_relative_path(self, path@),
    {
        let len = path.len();
        if len == 0 || self.is_separator(path[0]) || self.has_drive(path) {
            return false;
        }
        if path[0] == '.' && (len == 1 || self.is_separator(path[1])) {
            assert(begins_in_current_dir(self, path@));
            return false;
        }
        let mut i: usize = 0;
        while i < len
            invariant
                len == path.len(),
                i <= len,
                len > 0,
                !self.separates(path[0]),
                !begins_with_drive(self, path@),
                !begins_in_current_dir(self, path@),
                forall|start: int|
                    start < i ==> !(#[trigger] is_parent_component(self, path@, start)),
            decreases len - i,
        {
            if path[i] == '.' && (i == 0 || self.is_separator(path[i - 1])) && len - i >= 2
                && path[i + 1] == '.' && (len - i == 2 || self.is_separator(path[i + 2])) {
                assert(is_parent_component(self, path@, i as int));
                return false;
            }
            assert(!is_parent_component(self, path@, i as int));
            i += 1;
        }
        true
    }

    /// Accepts a relative path that stays below the directory it is joined to.
    pub fn validate_relative_path(self, path: &str) -> (result: BitFunResult<()>)
        ensures
            ErrorView::of(result) == workspace_path_error(self, path@),
    {
        let chars = to_chars(path);
        if self.plain_relative_path(&chars) {
            Ok(())
        } else {
            Err(invalid("Unsafe checkpoint workspace path: ", path))
        }
    }

    /// Accepts a relative path below one of the artifact directories of a session.
    pub fn validate_session_artifact_path(self, path: &str) -> (result: BitFunResult<()>)
        ensures
            ErrorView::of(result) == artifact_path_error(self, path@),
    {
        self.validate_relative_path(path)?;
        if !(starts_with(path, TOOL_RESULTS_PREFIX) || starts_with(
            path,
            COMPRESSION_TRANSCRIPTS_PREFIX,
        )) {
            return Err(invalid("Unsupported round replay session artifact path: ", path));
        }
        Ok(())
    }
}

/// Accepts a relative path that stays below the directory it is joined to on the system
/// that this runs on.
pub fn validate_relative_path(path: &str) -> (result: BitFunResult<()>)
    ensures
        ErrorView::of(result) == workspace_path_error(PathStyle::Unix, path@) || ErrorView::of(
            result,
        ) == workspace_path_error(PathStyle::Windows, path@),
{
    PathStyle::host().validate_relative_path(path)
}

/// Accepts a relative path below one of the artifact directories of a session on the
/// system that this runs on.
pub fn validate_session_artifact_path(path: &str) -> (result: BitFunResult<()>)
    ensures
        ErrorView::of(result) == artifact_path_error(PathStyle::Unix, path@) || ErrorView::of(
            result,
        ) == artifact_path_error(PathStyle::Windows, path@),
{
    PathStyle::host().validate_session_artifact_path(path)
}

/// What is a plain relative path on Windows is one on Unix too.
pub proof fn lemma_windows_paths_are_unix_paths(path: Seq<char>)
    requires
        is_plain_relative_path(PathStyle::Windows, path),
    ensures
        is_plain_relative_path(PathStyle::Unix, path),
{
    if begins_in_current_dir(PathStyle::Unix, path) {
        assert(begins_in_current_dir(PathStyle::Windows, path));
    }
    assert forall|start: int| !(#[trigger] is_parent_component(PathStyle::Unix, path, start)) by {
        if is_parent_component(PathStyle::Unix, path, start) {
            assert(is_parent_component(PathStyle::Windows, path, start));
        }
    }
}

/// On paths without backslashes and colons all systems agree.
pub proof fn lemma_styles_agree_on_portable_paths(path: Seq<char>)
    requires
        !path.contains('\\'),
        !path.contains(':'),
    ensures
        workspace_path_error(PathStyle::Unix, path) == workspace_path_error(
            PathStyle::Windows,
            path,
        ),
        artifact_path_error(PathStyle::Unix, path) == artifact_path_error(PathStyle::Windows, path),
{
    assert forall|i: int| 0 <= i < path.len() implies PathStyle::Unix.separates(#[trigger] path[i])
        == PathStyle::Windows.separates(path[i]) by {
        assert(path.contains(path[i]));
    }
    if path.len() >= 2 {
        assert(path.contains(path[1]));
    }
    assert forall|start: int| #[trigger]
        is_parent_component(PathStyle::Unix, path, start) == is_parent_component(
            PathStyle::Windows,
            path,
            start,
        ) by {}
    if is_plain_relative_path(PathStyle::Unix, path) {
        assert(!begins_in_current_dir(PathStyle::Windows, path));
        assert forall|start: int| !(#[trigger] is_parent_component(
            PathStyle::Windows,
            path,
            start,
        )) by {
            assert(!is_parent_component(PathStyle::Unix, path, start));
        }
    }
    if is_plain_relative_path(PathStyle::Windows, path) {
        lemma_windows_paths_are_unix_paths(path);
    }
}

} // verus!
