//! What the operations of the library answer to a caller: a result, or a
//! sentence that tells a user what went wrong.

use crate::branches::{get_repo_info, repo_name};
use crate::cli::{error_text, outcome_view, GitError};
use crate::commits::{get_merge_commits, merge_nodes, MergeNode, MergeNodeView};
use crate::text::trimmed;
use vstd::prelude::*;

verus! {

/// The name and the path of a repository.
#[derive(Debug)]
pub struct RepoInfo {
    pub name: String,
    pub path: String,
}

/// What a `RepoInfo` holds, as plain text.
pub struct RepoInfoView {
    pub name: Seq<char>,
    pub path: Seq<char>,
}

impl View for RepoInfo {
    type V = RepoInfoView;

    open spec fn view(&self) -> RepoInfoView {
        RepoInfoView { name: self.name@, path: self.path@ }
    }
}

/// A `RepoInfo` or a sentence, as plain text.
pub open spec fn repo_answer_view(r: Result<RepoInfo, String>) -> Result<RepoInfoView, Seq<char>> {
    match r {
        Ok(info) => Ok(info@),
        Err(message) => Err(message@),
    }
}

/// The name and the path of the repository, from the answer to the query
/// for its top directory; the error's sentence when the query failed.
pub fn repo_info(toplevel: Result<String, GitError>) -> (r: Result<RepoInfo, String>)
    ensures
        repo_answer_view(r) == match outcome_view(toplevel) {
            Ok(output) => Ok(
                RepoInfoView { name: repo_name(trimmed(output)), path: trimmed(output) },
            ),
            Err(e) => Err(error_text(e)),
        },
{
    match toplevel {
        Ok(output) => {
            let (name, path) = get_repo_info(output.as_str());
            Ok(RepoInfo { name, path })
        },
        Err(e) => Err(e.message()),
    }
}

/// One page of merge commits.
#[derive(Debug)]
pub struct MergeNodesResponse {
    pub nodes: Vec<MergeNode>,
    /// Whether the history holds commits behind this page.
    pub has_more: bool,
}

/// What a `MergeNodesResponse` holds, as plain text.
pub struct MergeNodesResponseView {
    pub nodes: Seq<MergeNodeView>,
    pub has_more: bool,
}

impl View for MergeNodesResponse {
    type V = MergeNodesResponseView;

    open spec fn view(&self) -> MergeNodesResponseView {
        MergeNodesResponseView { nodes: self.nodes.deep_view(), has_more: self.has_more }
    }
}

/// The page that a history listing holds when pages are `per_page` commits
/// long: at most that many commits, and whether the listing held more.
pub open spec fn merge_page(output: Seq<char>, per_page: u32) -> MergeNodesResponseView {
    let found = merge_nodes(output);
    if found.len() > per_page {
        MergeNodesResponseView { nodes: found.take(per_page as int), has_more: true }
    } else {
        MergeNodesResponseView { nodes: found, has_more: false }
    }
}

/// A page or a sentence, as plain text.
pub open spec fn page_answer_view(r: Result<MergeNodesResponse, String>) -> Result<
    MergeNodesResponseView,
    Seq<char>,
> {
    match r {
        Ok(page) => Ok(page@),
        Err(message) => Err(message@),
    }
}

/// One page of merge commits, from the answer to the query for the
/// history; the error's sentence when the query failed.
pub fn get_merge_nodes(history: Result<String, GitError>, per_page: u32) -> (r: Result<
    MergeNodesResponse,
    String,
>)
    ensures
        page_answer_view(r) == match outcome_view(history) {
            Ok(output) => Ok(merge_page(output, per_page)),
            Err(e) => Err(error_text(e)),
        },
        r matches Ok(page) ==> page.nodes.len() <= per_page,
{
    match history {
        Ok(output) => {
            let (nodes, has_more) = get_merge_commits(output.as_str(), per_page);
            Ok(MergeNodesResponse { nodes, has_more })
        },
        Err(e) => Err(e.message()),
    }
}

/// How many merged pull requests to return when the caller names no
/// number: 50.
pub fn merged_limit(limit: Option<usize>) -> (r: usize)
    ensures
        r == match limit {
            Some(n) => n,
            None => 50,
        },
{
    match limit {
        Some(n) => n,
        None => 50,
    }
}

} // verus!
