//! The conversation with a session directory: what is asked of it and what it answers.

use vstd::prelude::*;

verus! {

/// A directory of the session that holds artifacts.
pub const TOOL_RESULTS_ROOT: &'static str = "tool-results";

pub const COMPRESSION_TRANSCRIPTS_ROOT: &'static str = "artifacts/compression-transcripts";

/// What kind of thing a directory entry is.
#[derive(Debug, Clone, Copy, PartialEq, Eq, Structural)]
pub enum EntryKind {
    File,
    Directory,
    Other,
}

/// An entry of a directory. Whoever answers the requests picks the handle, and finds
/// the entry again by it.
#[derive(Debug, PartialEq, Eq)]
pub struct DirectoryEntry {
    pub handle: usize,
    /// The kind of the entry, or why it could not be told.
    pub kind: Result<EntryKind, String>,
    /// The path of the entry below the session directory, or why it has none.
    pub relative_path: Result<String, String>,
}

/// Something that failed, and the path at which it failed.
#[derive(Debug, PartialEq, Eq)]
pub struct PathFailure {
    pub path: String,
    pub reason: String,
}

/// What is asked of the session directory next. Paths are relative to it.
#[derive(Debug, PartialEq, Eq)]
pub enum SessionRequest {
    /// Is there such a directory?
    FindRoot(&'static str),
    OpenDirectory(usize),
    /// The next entry of the directory opened last.
    NextEntry,
    ReadFile(usize),
    ProbeFile(String),
    /// Make sure that the directory of this file exists.
    CreateParent(String),
    WriteFile(String, Vec<u8>),
    RemoveFile(String),
}

/// What the session directory answers.
#[derive(Debug, PartialEq, Eq)]
pub enum SessionReply {
    /// The handle of a directory, if there is one.
    Root(Option<usize>),
    Opened(Result<(), PathFailure>),
    Entry(Result<Option<DirectoryEntry>, String>),
    Contents(Result<Vec<u8>, PathFailure>),
    Exists(bool),
    ParentCreated(Result<(), PathFailure>),
    Written(Result<(), String>),
    /// An attempt to remove a file is over, however it went.
    Removed,
}

pub enum SessionRequestView {
    FindRoot(Seq<char>),
    OpenDirectory(usize),
    NextEntry,
    ReadFile(usize),
    ProbeFile(Seq<char>),
    CreateParent(Seq<char>),
    WriteFile(Seq<char>, Seq<u8>),
    RemoveFile(Seq<char>),
}

impl View for SessionRequest {
    type V = SessionRequestView;

    open spec fn view(&self) -> SessionRequestView {
        match self {
            SessionRequest::FindRoot(root) => SessionRequestView::FindRoot(root@),
            SessionRequest::OpenDirectory(handle) => SessionRequestView::OpenDirectory(*handle),
            SessionRequest::NextEntry => SessionRequestView::NextEntry,
            SessionRequest::ReadFile(handle) => SessionRequestView::ReadFile(*handle),
            SessionRequest::ProbeFile(path) => SessionRequestView::ProbeFile(path@),
            SessionRequest::CreateParent(path) => SessionRequestView::CreateParent(path@),
            SessionRequest::WriteFile(path, contents) => SessionRequestView::WriteFile(
                path@,
                contents@,
            ),
            SessionRequest::RemoveFile(path) => SessionRequestView::RemoveFile(path@),
        }
    }
}

impl SessionRequestView {
    /// Whether `reply` is the kind of answer that this request gets.
    pub open spec fn is_answered_by(self, reply: SessionReply) -> bool {
        match self {
            SessionRequestView::FindRoot(_) => reply is Root,
            SessionRequestView::OpenDirectory(_) => reply is Opened,
            SessionRequestView::NextEntry => reply is Entry,
            SessionRequestView::ReadFile(_) => reply is Contents,
            SessionRequestView::ProbeFile(_) => reply is Exists,
            SessionRequestView::CreateParent(_) => reply is ParentCreated,
            SessionRequestView::WriteFile(_, _) => reply is Written,
            SessionRequestView::RemoveFile(_) => reply is Removed,
        }
    }
}

} // verus!
