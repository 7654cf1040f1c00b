//! What running the version-control tool can come to: its output, or a failure.

use crate::text::{chars_of, find_text, index_of_text};
use vstd::prelude::*;

verus! {

/// Why a command of the version-control tool gave no output.
#[derive(Debug)]
pub enum GitError {
    /// The tool could not be started because it is not installed.
    GitNotFound,
    /// The directory is not inside a repository.
    NotARepo(String),
    /// The tool could not be run, or ended with a failure; holds its diagnostic.
    CommandFailed(String),
    /// The tool's output is not text.
    InvalidUtf8,
    /// The repository's path is not text.
    InvalidPath(String),
}

/// What a `GitError` holds, as plain text.
pub enum GitErrorView {
    GitNotFound,
    NotARepo(Seq<char>),
    CommandFailed(Seq<char>),
    InvalidUtf8,
    InvalidPath(Seq<char>),
}

impl View for GitError {
    type V = GitErrorView;

    open spec fn view(&self) -> GitErrorView {
        match self {
            GitError::GitNotFound => GitErrorView::GitNotFound,
            GitError::NotARepo(path) => GitErrorView::NotARepo(path@),
            GitError::CommandFailed(detail) => GitErrorView::CommandFailed(detail@),
            GitError::InvalidUtf8 => GitErrorView::InvalidUtf8,
            GitError::InvalidPath(path) => GitErrorView::InvalidPath(path@),
        }
    }
}

impl DeepView for GitError {
    type V = GitErrorView;

    open spec fn deep_view(&self) -> GitErrorView {
        self@
    }
}

/// The sentence that tells a user about an error.
pub open spec fn error_text(e: GitErrorView) -> Seq<char> {
    match e {
        GitErrorView::GitNotFound => "git not found - is git installed?"@,
        GitErrorView::NotARepo(path) => "not a git repository: "@ + path,
        GitErrorView::CommandFailed(detail) => "git command failed: "@ + detail,
        GitErrorView::InvalidUtf8 => "invalid utf-8 in git output"@,
        GitErrorView::InvalidPath(path) => "path contains invalid UTF-8: "@ + path,
    }
}

impl GitError {
    /// The sentence that tells a user about this error.
    pub fn message(&self) -> (r: String)
        ensures
            r@ == error_text(self@),
    {
        match self {
            GitError::GitNotFound => String::from_str("git not found - is git installed?"),
            GitError::NotARepo(path) => String::from_str("not a git repository: ").concat(
                path.as_str(),
            ),
            GitError::CommandFailed(detail) => String::from_str("git command failed: ").concat(
                detail.as_str(),
            ),
            GitError::InvalidUtf8 => String::from_str("invalid utf-8 in git output"),
            GitError::InvalidPath(path) => String::from_str(
                "path contains invalid UTF-8: ",
            ).concat(path.as_str()),
        }
    }
}

/// The error for a tool that could not be started: `not_found` tells that
/// the system found no such program, `detail` is the system's own message.
pub fn launch_error(not_found: bool, detail: String) -> (e: GitError)
    ensures
        e@ == if not_found {
            GitErrorView::GitNotFound
        } else {
            GitErrorView::CommandFailed(detail@)
        },
{
    if not_found {
        GitError::GitNotFound
    } else {
        GitError::CommandFailed(detail)
    }
}

/// A command's output or error, as plain text.
pub open spec fn outcome_view(r: Result<String, GitError>) -> Result<Seq<char>, GitErrorView> {
    match r {
        Ok(text) => Ok(text@),
        Err(e) => Err(e@),
    }
}

/// What a finished command comes to. `repo` is the repository's path,
/// `success` the tool's exit status, `stdout` its output (`None` when it is
/// not text) and `stderr` its diagnostic.
pub open spec fn command_outcome(
    repo: Seq<char>,
    success: bool,
    stdout: Option<Seq<char>>,
    stderr: Seq<char>,
) -> Result<Seq<char>, GitErrorView> {
    if !success {
        if find_text(stderr, "not a git repository"@, 0) is Some {
            Err(GitErrorView::NotARepo(repo))
        } else {
            Err(GitErrorView::CommandFailed(stderr))
        }
    } else {
        match stdout {
            Some(text) => Ok(text),
            None => Err(GitErrorView::InvalidUtf8),
        }
    }
}

/// Turns a finished command into its output or its error. A failed command
/// whose diagnostic holds `not a git repository` is reported as such, with
/// the repository's path; any other failure carries the diagnostic.
pub fn read_output(repo: &str, success: bool, stdout: Option<String>, stderr: String) -> (r:
    Result<String, GitError>)
    ensures
        outcome_view(r) == command_outcome(repo@, success, stdout.deep_view(), stderr@),
{
    if !success {
        let v = chars_of(stderr.as_str());
        let mark = chars_of("not a git repository");
        if index_of_text(&v, &mark, 0).is_some() {
            Err(GitError::NotARepo(String::from_str(repo)))
        } else {
            Err(GitError::CommandFailed(stderr))
        }
    } else {
        match stdout {
            Some(text) => Ok(text),
            None => Err(GitError::InvalidUtf8),
        }
    }
}

} // verus!
