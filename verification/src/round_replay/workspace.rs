//! The conversation with a workspace: what is asked of it and what it answers.

use crate::error::{BitFunError, BitFunResult, ErrorView};
use crate::text;
use crate::text::{signed_decimal_text, trim};
use vstd::prelude::*;

verus! {

/// How long a command may run in the workspace, in milliseconds.
pub const WORKSPACE_COMMAND_TIMEOUT_MS: u64 = 30_000;

/// Asks which commit the workspace is at.
pub const GIT_HEAD: &'static str = "git rev-parse HEAD";

/// What a command printed and how it ended.
#[derive(Debug, Clone, PartialEq, Eq)]
pub struct ShellOutput {
    pub stdout: String,
    pub stderr: String,
    pub exit_code: i32,
}

/// What is asked of the workspace next. Paths are relative to its root.
#[derive(Debug, Clone, PartialEq, Eq)]
pub enum WorkspaceRequest {
    RunGit(&'static str),
    ReadFile(String),
    ProbeFile(String),
    WriteFile(String, Vec<u8>),
    /// A git command that undoes what was written so far.
    RollBack(&'static str),
}

/// What the workspace answers. A failure comes with its message.
#[derive(Debug, PartialEq, Eq)]
pub enum WorkspaceReply {
    Shell(Result<ShellOutput, String>),
    Contents(Result<Vec<u8>, String>),
    Exists(Result<bool, String>),
    Written(Result<(), String>),
}

pub enum RequestView {
    RunGit(Seq<char>),
    ReadFile(Seq<char>),
    ProbeFile(Seq<char>),
    WriteFile(Seq<char>, Seq<u8>),
    RollBack(Seq<char>),
}

impl View for WorkspaceRequest {
    type V = RequestView;

    open spec fn view(&self) -> RequestView {
        match self {
            WorkspaceRequest::RunGit(command) => RequestView::RunGit(command@),
            WorkspaceRequest::ReadFile(path) => RequestView::ReadFile(path@),
            WorkspaceRequest::ProbeFile(path) => RequestView::ProbeFile(path@),
            WorkspaceRequest::WriteFile(path, contents) => RequestView::WriteFile(
                path@,
                contents@,
            ),
            WorkspaceRequest::RollBack(command) => RequestView::RollBack(command@),
        }
    }
}

impl RequestView {
    /// Whether `reply` is the kind of answer that this request gets.
    pub open spec fn is_answered_by(self, reply: WorkspaceReply) -> bool {
        match self {
            RequestView::RunGit(_) => reply is Shell,
            RequestView::ReadFile(_) => reply is Contents,
            RequestView::ProbeFile(_) => reply is Exists,
            RequestView::WriteFile(_, _) => reply is Written,
            RequestView::RollBack(_) => reply is Shell,
        }
    }
}

/// What a git command printed, or why there is nothing to go by.
pub open spec fn git_output(outcome: Result<ShellOutput, String>) -> Result<Seq<char>, ErrorView> {
    match outcome {
        Err(reason) => Err(ErrorView::Io("Workspace git command failed: "@ + reason@)),
        Ok(output) => if output.exit_code == 0 {
            Ok(output.stdout@)
        } else {
            Err(
                ErrorView::Io(
                    "Workspace git command failed with exit code "@ + text::signed_decimal(
                        output.exit_code as int,
                    ) + ": "@ + text::trimmed(output.stderr@),
                ),
            )
        },
    }
}

/// A text result, with its text and its error as sequences.
pub open spec fn text_result(result: BitFunResult<String>) -> Result<Seq<char>, ErrorView> {
    match result {
        Ok(value) => Ok(value@),
        Err(error) => Err(error@),
    }
}

/// The standard output of a git command that succeeded.
pub fn run_git(outcome: Result<ShellOutput, String>) -> (result: BitFunResult<String>)
    ensures
        text_result(result) == git_output(outcome),
{
    match outcome {
        Err(reason) => {
            let mut message = "Workspace git command failed: ".to_string();
            message.append(reason.as_str());
            Err(BitFunError::Io(message))
        },
        Ok(output) => {
            if output.exit_code != 0 {
                let mut message = "Workspace git command failed with exit code ".to_string();
                let code = signed_decimal_text(output.exit_code);
                message.append(code.as_str());
                message.append(": ");
                message.append(trim(output.stderr.as_str()));
                return Err(BitFunError::Io(message));
            }
            Ok(output.stdout)
        },
    }
}

} // verus!
