//! Pull requests of the hosting service, matched with the local repository.

use crate::cli::{error_text, outcome_view, GitError, GitErrorView};
use crate::order::first_n;
use crate::text::{
    chars_of, drop_spaces, find_char, find_text, index_of_char, index_of_text, is_white_space,
    lemma_find_char_at, lemma_find_text_at, matches_at, occurs_at, piece, skip_spaces, trim,
    trimmed,
};
use vstd::prelude::*;

verus! {

/// The repository on the hosting service that a local repository belongs to.
#[derive(Debug)]
pub struct GitHubInfo {
    pub owner: String,
    pub repo: String,
    /// Whether the hosting service's command-line tool can be run.
    pub gh_available: bool,
}

/// What a `GitHubInfo` holds, as plain text.
pub struct GitHubInfoView {
    pub owner: Seq<char>,
    pub repo: Seq<char>,
    pub gh_available: bool,
}

impl View for GitHubInfo {
    type V = GitHubInfoView;

    open spec fn view(&self) -> GitHubInfoView {
        GitHubInfoView { owner: self.owner@, repo: self.repo@, gh_available: self.gh_available }
    }
}

/// `s` ends with `suffix`.
pub open spec fn ends_with(s: Seq<char>, suffix: Seq<char>) -> bool {
    occurs_at(s, suffix, s.len() - suffix.len())
}

/// `s` without one `.git` at its end, if it has one.
pub open spec fn without_git_suffix(s: Seq<char>) -> Seq<char> {
    if ends_with(s, ".git"@) {
        s.subrange(0, s.len() - ".git"@.len())
    } else {
        s
    }
}

/// The owner and the repository of an address of the form
/// `git@github.com:owner/repo` or `git@github.com:owner/repo.git`: what
/// follows the colon must hold exactly one `/`.
pub open spec fn ssh_owner_repo(url: Seq<char>) -> Option<(Seq<char>, Seq<char>)> {
    let lead = "git@github.com:"@;
    if occurs_at(url, lead, 0) {
        let rest = without_git_suffix(url.subrange(lead.len() as int, url.len() as int));
        let slash = find_char(rest, '/', 0);
        if slash < rest.len() && find_char(rest, '/', slash + 1) == rest.len() {
            Some((rest.subrange(0, slash), rest.subrange(slash + 1, rest.len() as int)))
        } else {
            None
        }
    } else {
        None
    }
}

/// The owner and the repository of an address that names the host
/// `github.com`: once a `.git` at the end is taken off, they are the first
/// two pieces, separated by `/`, of what follows the first `github.com` and
/// one `/` directly after it. Further pieces are ignored.
pub open spec fn https_owner_repo(url: Seq<char>) -> Option<(Seq<char>, Seq<char>)> {
    let host = "github.com"@;
    let bare = without_git_suffix(url);
    match find_text(bare, host, 0) {
        Some(at) => {
            let after = at + host.len();
            let start = if after < bare.len() && bare[after] == '/' {
                after + 1
            } else {
                after
            };
            let slash = find_char(bare, '/', start);
            if slash < bare.len() {
                Some(
                    (
                        bare.subrange(start, slash),
                        bare.subrange(slash + 1, find_char(bare, '/', slash + 1)),
                    ),
                )
            } else {
                None
            }
        },
        None => None,
    }
}

/// The owner and the repository that a remote address names. White space
/// around the address is ignored; the form with `git@github.com:` is tried
/// first.
pub open spec fn remote_owner_repo(url: Seq<char>) -> Option<(Seq<char>, Seq<char>)> {
    let address = trimmed(url);
    match ssh_owner_repo(address) {
        Some(pair) => Some(pair),
        None => https_owner_repo(address),
    }
}

/// `url` without one `.git` at its end.
fn strip_git_suffix(url: &str) -> (r: String)
    ensures
        r@ == without_git_suffix(url@),
{
    let v = chars_of(url);
    let suffix = chars_of(".git");
    if suffix.len() <= v.len() && matches_at(&v, &suffix, v.len() - suffix.len()) {
        piece(url, 0, v.len() - suffix.len())
    } else {
        proof {
            if suffix.len() > v.len() {
                assert(!ends_with(url@, ".git"@));
            }
        }
        piece(url, 0, v.len())
    }
}

/// Reads an address of the form that starts with `git@github.com:`.
fn parse_ssh_url(url: &str) -> (r: Option<(String, String)>)
    ensures
        r.deep_view() == ssh_owner_repo(url@),
{
    let v = chars_of(url);
    let lead = chars_of("git@github.com:");
    if !matches_at(&v, &lead, 0) {
        return None;
    }
    let tail = piece(url, lead.len(), v.len());
    let rest = strip_git_suffix(tail.as_str());
    let rv = chars_of(rest.as_str());
    let slash = index_of_char(&rv, '/', 0);
    if slash < rv.len() && index_of_char(&rv, '/', slash + 1) == rv.len() {
        Some((piece(rest.as_str(), 0, slash), piece(rest.as_str(), slash + 1, rv.len())))
    } else {
        None
    }
}

/// Reads an address that names the host `github.com`.
fn parse_https_url(url: &str) -> (r: Option<(String, String)>)
    ensures
        r.deep_view() == https_owner_repo(url@),
{
    let bare = strip_git_suffix(url);
    let v = chars_of(bare.as_str());
    let host = chars_of("github.com");
    match index_of_text(&v, &host, 0) {
        Some(at) => {
            let after = at + host.len();
            let start = if after < v.len() && v[after] == '/' {
                after + 1
            } else {
                after
            };
            let slash = index_of_char(&v, '/', start);
            if slash < v.len() {
                let next = index_of_char(&v, '/', slash + 1);
                Some((piece(bare.as_str(), start, slash), piece(bare.as_str(), slash + 1, next)))
            } else {
                None
            }
        },
        None => None,
    }
}

/// Reads the owner and the repository out of a remote address. These forms
/// are understood:
/// `git@github.com:owner/repo.git`, `https://github.com/owner/repo.git` and
/// `https://github.com/owner/repo`.
pub fn parse_remote_url(url: &str) -> (r: Option<(String, String)>)
    ensures
        r.deep_view() == remote_owner_repo(url@),
{
    let address = trim(url);
    match parse_ssh_url(address.as_str()) {
        Some(pair) => Some(pair),
        None => parse_https_url(address.as_str()),
    }
}

/// The repository on the hosting service that a local repository belongs
/// to, or the sentence that says why it cannot be told. `remote` is the
/// answer to the query for the remote's address.
pub open spec fn github_info(
    remote: Result<Seq<char>, GitErrorView>,
    gh_available: bool,
) -> Result<GitHubInfoView, Seq<char>> {
    match remote {
        Err(e) => Err("Failed to get remote URL: "@ + error_text(e)),
        Ok(url) => match remote_owner_repo(url) {
            Some((owner, repo)) => Ok(GitHubInfoView { owner, repo, gh_available }),
            None => Err("Could not parse GitHub info from remote URL: "@ + trimmed(url)),
        },
    }
}

/// A `GitHubInfo` or a sentence, as plain text.
pub open spec fn github_info_view(r: Result<GitHubInfo, String>) -> Result<
    GitHubInfoView,
    Seq<char>,
> {
    match r {
        Ok(info) => Ok(info@),
        Err(message) => Err(message@),
    }
}

/// Tells which repository on the hosting service a local repository
/// belongs to, from the answer to the query for the remote's address and
/// from whether the hosting service's tool can be run.
pub fn get_github_info(remote: Result<String, GitError>, gh_available: bool) -> (r: Result<
    GitHubInfo,
    String,
>)
    ensures
        github_info_view(r) == github_info(outcome_view(remote), gh_available),
{
    match remote {
        Err(e) => Err(String::from_str("Failed to get remote URL: ").concat(e.message().as_str())),
        Ok(url) => match parse_remote_url(url.as_str()) {
            Some((owner, repo)) => Ok(GitHubInfo { owner, repo, gh_available }),
            None => Err(
                String::from_str("Could not parse GitHub info from remote URL: ").concat(
                    trim(url.as_str()).as_str(),
                ),
            ),
        },
    }
}

/// A closed pull request as the hosting service lists it. A pull request
/// that was closed without a merge has no `merged_at`.
#[derive(Debug)]
pub struct PullRequestRecord {
    pub number: i64,
    pub title: String,
    pub state: String,
    pub merged_at: Option<String>,
    pub created_at: String,
    pub merge_commit_sha: Option<String>,
    /// The number of commits, where the listing tells it.
    pub commits: Option<i64>,
    /// The branch that the pull request came from.
    pub branch_name: String,
    pub author_login: String,
    pub author_avatar: String,
}

/// What a `PullRequestRecord` holds, as plain text.
pub struct PullRequestRecordView {
    pub number: i64,
    pub title: Seq<char>,
    pub state: Seq<char>,
    pub merged_at: Option<Seq<char>>,
    pub created_at: Seq<char>,
    pub merge_commit_sha: Option<Seq<char>>,
    pub commits: Option<i64>,
    pub branch_name: Seq<char>,
    pub author_login: Seq<char>,
    pub author_avatar: Seq<char>,
}

impl View for PullRequestRecord {
    type V = PullRequestRecordView;

    open spec fn view(&self) -> PullRequestRecordView {
        PullRequestRecordView {
            number: self.number,
            title: self.title@,
            state: self.state@,
            merged_at: self.merged_at.deep_view(),
            created_at: self.created_at@,
            merge_commit_sha: self.merge_commit_sha.deep_view(),
            commits: self.commits,
            branch_name: self.branch_name@,
            author_login: self.author_login@,
            author_avatar: self.author_avatar@,
        }
    }
}

impl DeepView for PullRequestRecord {
    type V = PullRequestRecordView;

    open spec fn deep_view(&self) -> PullRequestRecordView {
        self@
    }
}

/// A merged pull request.
#[derive(Debug)]
pub struct MergedPR {
    pub number: i64,
    pub title: String,
    pub branch_name: String,
    pub author_login: String,
    pub author_avatar: String,
    pub created_at: String,
    pub merged_at: String,
    pub merge_commit_sha: String,
    pub commit_count: i64,
}

/// What a `MergedPR` holds, as plain text.
pub struct MergedPRView {
    pub number: i64,
    pub title: Seq<char>,
    pub branch_name: Seq<char>,
    pub author_login: Seq<char>,
    pub author_avatar: Seq<char>,
    pub created_at: Seq<char>,
    pub merged_at: Seq<char>,
    pub merge_commit_sha: Seq<char>,
    pub commit_count: i64,
}

impl View for MergedPR {
    type V = MergedPRView;

    open spec fn view(&self) -> MergedPRView {
        MergedPRView {
            number: self.number,
            title: self.title@,
            branch_name: self.branch_name@,
            author_login: self.author_login@,
            author_avatar: self.author_avatar@,
            created_at: self.created_at@,
            merged_at: self.merged_at@,
            merge_commit_sha: self.merge_commit_sha@,
            commit_count: self.commit_count,
        }
    }
}

impl DeepView for MergedPR {
    type V = MergedPRView;

    open spec fn deep_view(&self) -> MergedPRView {
        self@
    }
}

/// The merged pull request that a record stands for: it is one only when
/// the record has both the time of the merge and the merge commit. A
/// record that does not tell its number of commits counts as one commit.
pub open spec fn merged_form(record: PullRequestRecordView) -> Option<MergedPRView> {
    match (record.merged_at, record.merge_commit_sha) {
        (Some(merged_at), Some(merge_commit_sha)) => Some(
            MergedPRView {
                number: record.number,
                title: record.title,
                branch_name: record.branch_name,
                author_login: record.author_login,
                author_avatar: record.author_avatar,
                created_at: record.created_at,
                merged_at,
                merge_commit_sha,
                commit_count: match record.commits {
                    Some(n) => n,
                    None => 1,
                },
            },
        ),
        _ => None,
    }
}

/// The merged pull requests among `records`, in their order, and of those
/// the first `limit`.
pub open spec fn merged_pulls(records: Seq<PullRequestRecordView>, limit: int) -> Seq<
    MergedPRView,
> {
    first_n(records.filter_map(|record: PullRequestRecordView| merged_form(record)), limit)
}

/// How many closed pull requests to ask the hosting service for, so that
/// `limit` merged ones are likely to be among them: twice as many. Closed
/// pull requests that were never merged are among the answers, so even that
/// many may hold fewer than `limit` merged ones.
pub fn closed_fetch_limit(limit: usize) -> (r: usize)
    requires
        2 * limit <= usize::MAX,
    ensures
        r == 2 * limit,
{
    limit * 2
}

/// The merged pull request that a record stands for, if it is one.
fn to_merged(record: &PullRequestRecord) -> (r: Option<MergedPR>)
    ensures
        r.deep_view() == merged_form(record@),
{
    match (&record.merged_at, &record.merge_commit_sha) {
        (Some(merged_at), Some(merge_commit_sha)) => Some(
            MergedPR {
                number: record.number,
                title: record.title.clone(),
                branch_name: record.branch_name.clone(),
                author_login: record.author_login.clone(),
                author_avatar: record.author_avatar.clone(),
                created_at: record.created_at.clone(),
                merged_at: merged_at.clone(),
                merge_commit_sha: merge_commit_sha.clone(),
                commit_count: match record.commits {
                    Some(n) => n,
                    None => 1,
                },
            },
        ),
        _ => None,
    }
}

/// Picks the merged pull requests out of the closed ones that the hosting
/// service listed, keeps their order, and returns at most `limit` of them.
/// No record without a time of merge, and none without a merge commit, is
/// among them.
pub fn get_merged_prs(records: &Vec<PullRequestRecord>, limit: usize) -> (r: Vec<MergedPR>)
    ensures
        r.deep_view() == merged_pulls(records.deep_view(), limit as int),
        r.len() <= limit,
{
    let ghost f = |record: PullRequestRecordView| merged_form(record);
    let ghost all = records.deep_view();
    let mut out: Vec<MergedPR> = Vec::new();
    let mut i: usize = 0;
    while i < records.len() && out.len() < limit
        invariant
            i <= records.len(),
            all == records.deep_view(),
            f == |record: PullRequestRecordView| merged_form(record),
            out.deep_view() == first_n(all.take(i as int).filter_map(f), limit as int),
            out.len() <= limit,
            out.len() == all.take(i as int).filter_map(f).len() || out.len() == limit,
        decreases records.len() - i,
    {
        proof {
            let upto = all.take(i + 1);
            assert(upto.drop_last() =~= all.take(i as int));
            assert(upto.last() == records[i as int]@);
        }
        let ghost before = out.deep_view();
        if let Some(pr) = to_merged(&records[i]) {
            let ghost shown = pr@;
            out.push(pr);
            assert(out.deep_view() =~= before + seq![shown]);
        }
        i += 1;
    }
    proof {
        lemma_first_n_of_more(all, f, i as int, limit as int);
    }
    out
}

/// Once the first `n` merged pull requests are found among the first `i`
/// records, the records behind them change nothing.
proof fn lemma_first_n_of_more(
    all: Seq<PullRequestRecordView>,
    f: spec_fn(PullRequestRecordView) -> Option<MergedPRView>,
    i: int,
    n: int,
)
    requires
        0 <= i <= all.len(),
        0 <= n,
        i == all.len() || all.take(i).filter_map(f).len() >= n,
    ensures
        first_n(all.take(i).filter_map(f), n) == first_n(all.filter_map(f), n),
    decreases all.len() - i,
{
    if i == all.len() {
        assert(all.take(i) =~= all);
    } else {
        let upto = all.take(i + 1);
        assert(upto.drop_last() =~= all.take(i));
        let seen = all.take(i).filter_map(f);
        let grown = upto.filter_map(f);
        assert(first_n(seen, n) =~= first_n(grown, n));
        lemma_first_n_of_more(all, f, i + 1, n);
    }
}

/// Every pull request that `merged_pulls` returns stands for one of the
/// records, and that record has both the time of its merge and its merge
/// commit: a record without the time of a merge is never returned,
/// whatever else it holds.
pub proof fn lemma_only_merged_are_listed(
    records: Seq<PullRequestRecordView>,
    limit: int,
    k: int,
)
    requires
        0 <= k < merged_pulls(records, limit).len(),
    ensures
        exists|j: int|
            0 <= j < records.len() && (#[trigger] records[j]).merged_at is Some
                && records[j].merge_commit_sha is Some && merged_form(records[j]) == Some(
                merged_pulls(records, limit)[k],
            ),
{
    let f = |record: PullRequestRecordView| merged_form(record);
    let found = records.filter_map(f);
    let pr = merged_pulls(records, limit)[k];
    assert(found[k] == pr);
    assert(found.contains(pr));
    records.lemma_filter_map_contains(f, pr);
    let record = choose|t: PullRequestRecordView| #[trigger] records.contains(t) && f(t) == Some(pr);
    let j = choose|j: int| 0 <= j < records.len() && records[j] == record;
    assert(merged_form(records[j]) == Some(pr));
}

/// The first seven characters of a hash, or all of it when it is shorter.
pub open spec fn short_hash(sha: Seq<char>) -> Seq<char> {
    first_n(sha, 7)
}

/// Shortens a hash to its first seven characters.
pub fn short_sha(sha: &str) -> (r: String)
    ensures
        r@ == short_hash(sha@),
{
    let n = sha.unicode_len();
    if n > 7 {
        piece(sha, 0, 7)
    } else {
        piece(sha, 0, n)
    }
}

/// The hashes of `shas`, each shortened, in the same order.
pub fn short_shas(shas: &Vec<String>) -> (r: Vec<String>)
    ensures
        r.deep_view() == shas.deep_view().map_values(|sha: Seq<char>| short_hash(sha)),
{
    let mut out: Vec<String> = Vec::new();
    let mut i: usize = 0;
    while i < shas.len()
        invariant
            i <= shas.len(),
            out.len() == i,
            forall|k: int| 0 <= k < i ==> out[k]@ == short_hash(shas[k]@),
        decreases shas.len() - i,
    {
        out.push(short_sha(shas[i].as_str()));
        i += 1;
    }
    assert(out.deep_view() =~= shas.deep_view().map_values(|sha: Seq<char>| short_hash(sha)));
    out
}

/// What the lookup of one pull request's commits came to: the number of
/// the pull request, and the full hashes of its commits in their order, or
/// `None` when the lookup failed.
pub type CommitLookup = (i64, Option<Vec<String>>);

/// The short hashes of each pull request whose lookup succeeded, by the
/// pull request's number. Of two lookups for one number the later one
/// decides.
pub open spec fn commit_map(lookups: Seq<(i64, Option<Seq<Seq<char>>>)>) -> Map<
    i64,
    Seq<Seq<char>>,
>
    decreases lookups.len(),
{
    if lookups.len() == 0 {
        Map::empty()
    } else {
        let rest = commit_map(lookups.drop_last());
        match lookups.last().1 {
            Some(shas) => rest.insert(
                lookups.last().0,
                shas.map_values(|sha: Seq<char>| short_hash(sha)),
            ),
            None => rest,
        }
    }
}

/// The lists of a mapping, as plain text.
pub open spec fn commit_lists(m: Map<i64, Vec<String>>) -> Map<i64, Seq<Seq<char>>> {
    m.map_values(|shas: Vec<String>| shas.deep_view())
}

/// Gathers the lookups of the commits of several pull requests into one
/// mapping from a pull request's number to the short hashes of its commits.
/// A lookup that failed leaves no entry and does not fail the whole.
pub fn get_pr_commits(lookups: &Vec<CommitLookup>) -> (r: std::collections::HashMap<
    i64,
    Vec<String>,
>)
    ensures
        commit_lists(r@) == commit_map(lookups.deep_view()),
{
    broadcast use vstd::std_specs::hash::group_hash_axioms;

    let ghost all = lookups.deep_view();
    let mut results: std::collections::HashMap<i64, Vec<String>> =
        std::collections::HashMap::new();
    assert(commit_lists(results@) =~= commit_map(all.take(0)));
    let mut i: usize = 0;
    while i < lookups.len()
        invariant
            i <= lookups.len(),
            all == lookups.deep_view(),
            commit_lists(results@) == commit_map(all.take(i as int)),
        decreases lookups.len() - i,
    {
        proof {
            let upto = all.take(i + 1);
            assert(upto.drop_last() =~= all.take(i as int));
            assert(upto.last() == lookups[i as int].deep_view());
        }
        let ghost before = results@;
        if let Some(shas) = &lookups[i].1 {
            let short = short_shas(shas);
            let ghost shown = short.deep_view();
            results.insert(lookups[i].0, short);
            assert(commit_lists(results@) =~= commit_lists(before).insert(
                lookups[i as int].0,
                shown,
            ));
        }
        i += 1;
    }
    assert(all.take(lookups.len() as int) =~= all);
    results
}

/// How many of the lookups succeeded.
pub open spec fn succeeded(lookups: Seq<(i64, Option<Seq<Seq<char>>>)>) -> nat
    decreases lookups.len(),
{
    if lookups.len() == 0 {
        0
    } else {
        succeeded(lookups.drop_last()) + if lookups.last().1 is Some {
            1nat
        } else {
            0nat
        }
    }
}

/// No number is looked up twice.
pub open spec fn distinct_numbers(lookups: Seq<(i64, Option<Seq<Seq<char>>>)>) -> bool {
    forall|i: int, j: int|
        0 <= i < j < lookups.len() ==> (#[trigger] lookups[i]).0 != (#[trigger] lookups[j]).0
}

/// The mapping has an entry for a number exactly when a lookup for that
/// number succeeded; where no number is looked up twice it has as many
/// entries as lookups succeeded.
pub proof fn lemma_commit_map_entries(lookups: Seq<(i64, Option<Seq<Seq<char>>>)>)
    ensures
        commit_map(lookups).dom().finite(),
        forall|n: i64|
            commit_map(lookups).dom().contains(n) <==> exists|i: int|
                0 <= i < lookups.len() && (#[trigger] lookups[i]).0 == n && lookups[i].1 is Some,
        distinct_numbers(lookups) ==> commit_map(lookups).dom().len() == succeeded(lookups),
    decreases lookups.len(),
{
    if lookups.len() > 0 {
        let rest = lookups.drop_last();
        let last = lookups.last();
        lemma_commit_map_entries(rest);
        assert forall|n: i64| commit_map(lookups).dom().contains(n) implies exists|i: int|
            0 <= i < lookups.len() && (#[trigger] lookups[i]).0 == n && lookups[i].1 is Some by {
            if commit_map(rest).dom().contains(n) {
                let i = choose|i: int|
                    0 <= i < rest.len() && (#[trigger] rest[i]).0 == n && rest[i].1 is Some;
                assert(lookups[i] == rest[i]);
            } else {
                assert(lookups[lookups.len() - 1] == last);
            }
        }
        assert forall|n: i64|
            (exists|i: int|
                0 <= i < lookups.len() && (#[trigger] lookups[i]).0 == n && lookups[i].1 is Some)
            implies commit_map(lookups).dom().contains(n) by {
            let i = choose|i: int|
                0 <= i < lookups.len() && (#[trigger] lookups[i]).0 == n && lookups[i].1 is Some;
            if i < rest.len() {
                assert(rest[i] == lookups[i]);
            }
        }
        if distinct_numbers(lookups) {
            assert forall|i: int, j: int| 0 <= i < j < rest.len() implies (#[trigger] rest[i]).0
                != (#[trigger] rest[j]).0 by {
                assert(rest[i] == lookups[i] && rest[j] == lookups[j]);
            }
            if last.1 is Some {
                if commit_map(rest).dom().contains(last.0) {
                    let i = choose|i: int|
                        0 <= i < rest.len() && (#[trigger] rest[i]).0 == last.0 && rest[i].1
                            is Some;
                    assert(lookups[i] == rest[i]);
                    assert(lookups[lookups.len() - 1] == last);
                }
            }
        }
    }
}

/// Where one of the lookups failed, all the others succeeded and no number
/// is looked up twice, the mapping has one entry fewer than there are
/// lookups.
pub proof fn lemma_one_failed_lookup(lookups: Seq<(i64, Option<Seq<Seq<char>>>)>, failed: int)
    requires
        0 <= failed < lookups.len(),
        lookups[failed].1 is None,
        forall|i: int| 0 <= i < lookups.len() && i != failed ==> (#[trigger] lookups[i]).1 is Some,
        distinct_numbers(lookups),
    ensures
        commit_map(lookups).dom().finite(),
        commit_map(lookups).dom().len() == lookups.len() - 1,
{
    lemma_commit_map_entries(lookups);
    lemma_succeeded_but_one(lookups, failed, lookups.len() as int);
    assert(lookups.take(lookups.len() as int) =~= lookups);
}

/// Where one lookup failed and all others succeeded, all but one of the
/// first `upto` lookups succeeded if the failed one is among them.
proof fn lemma_succeeded_but_one(
    lookups: Seq<(i64, Option<Seq<Seq<char>>>)>,
    failed: int,
    upto: int,
)
    requires
        0 <= failed < lookups.len(),
        0 <= upto <= lookups.len(),
        lookups[failed].1 is None,
        forall|i: int| 0 <= i < lookups.len() && i != failed ==> (#[trigger] lookups[i]).1 is Some,
    ensures
        succeeded(lookups.take(upto)) == if failed < upto {
            upto - 1
        } else {
            upto
        },
    decreases upto,
{
    if upto > 0 {
        lemma_succeeded_but_one(lookups, failed, upto - 1);
        assert(lookups.take(upto).drop_last() =~= lookups.take(upto - 1));
        assert(lookups.take(upto).last() == lookups[upto - 1]);
    }
}

/// An owner and a repository that the three forms of address can carry:
/// neither holds a `/`, and the repository's name ends neither with `.git`
/// nor with white space.
pub open spec fn plain_names(owner: Seq<char>, repo: Seq<char>) -> bool {
    &&& !owner.contains('/')
    &&& !repo.contains('/')
    &&& !ends_with(repo, ".git"@)
    &&& repo.len() > 0 ==> !is_white_space(repo.last())
}

/// The three forms of address for one repository give the same owner and
/// repository: `git@github.com:owner/repo.git`,
/// `https://github.com/owner/repo` and `https://github.com/owner/repo.git`.
pub proof fn lemma_three_forms_agree(owner: Seq<char>, repo: Seq<char>)
    requires
        plain_names(owner, repo),
    ensures
        remote_owner_repo("git@github.com:"@ + owner + "/"@ + repo + ".git"@) == Some(
            (owner, repo),
        ),
        remote_owner_repo("https://github.com/"@ + owner + "/"@ + repo) == Some((owner, repo)),
        remote_owner_repo("https://github.com/"@ + owner + "/"@ + repo + ".git"@) == Some(
            (owner, repo),
        ),
{
    let path = owner + "/"@ + repo;
    assert("git@github.com:"@ + owner + "/"@ + repo + ".git"@ =~= "git@github.com:"@ + (path
        + ".git"@));
    lemma_ssh_form(owner, repo);
    assert("https://github.com/"@ + owner + "/"@ + repo =~= "https://github.com/"@ + path);
    lemma_https_form(owner, repo);
    assert("https://github.com/"@ + owner + "/"@ + repo + ".git"@ =~= "https://github.com/"@
        + path + ".git"@);
    lemma_https_git_form(owner, repo);
}

/// The form `git@github.com:owner/repo.git` is read as `owner` and `repo`.
proof fn lemma_ssh_form(owner: Seq<char>, repo: Seq<char>)
    requires
        plain_names(owner, repo),
    ensures
        remote_owner_repo("git@github.com:"@ + (owner + "/"@ + repo + ".git"@)) == Some(
            (owner, repo),
        ),
{
    reveal_strlit("git@github.com:");
    reveal_strlit("/");
    reveal_strlit(".git");
    let path = owner + "/"@ + repo;
    let url = "git@github.com:"@ + (path + ".git"@);
    lemma_trimmed_keeps(url);
    assert(occurs_at(url, "git@github.com:"@, 0)) by {
        assert(url.subrange(0, 15) =~= "git@github.com:"@);
    }
    assert(url.subrange(15, url.len() as int) =~= path + ".git"@);
    lemma_suffix_taken_off(path);
    lemma_path_splits(owner, repo);
}

/// An address that starts with `https://` is not of the form that starts
/// with `git@github.com:`, and names the host `github.com` first at
/// position 8.
proof fn lemma_https_lead(rest: Seq<char>)
    ensures
        !occurs_at("https://github.com/"@ + rest, "git@github.com:"@, 0),
        find_text("https://github.com/"@ + rest, "github.com"@, 0) == Some(8int),
        ("https://github.com/"@ + rest)[18] == '/',
{
    reveal_strlit("git@github.com:");
    reveal_strlit("https://github.com/");
    reveal_strlit("github.com");
    let url = "https://github.com/"@ + rest;
    if occurs_at(url, "git@github.com:"@, 0) {
        assert(url.subrange(0, 15)[0] == url[0]);
    }
    assert(occurs_at(url, "github.com"@, 8)) by {
        assert(url.subrange(8, 18) =~= "github.com"@);
    }
    assert forall|j: int| 0 <= j < 8 implies !occurs_at(url, "github.com"@, j) by {
        if occurs_at(url, "github.com"@, j) {
            assert(url.subrange(j, j + 10)[0] == url[j]);
        }
    }
    lemma_find_text_at(url, "github.com"@, 0, 8);
}

/// In `https://github.com/owner/repo` the owner runs from position 19 to
/// the next `/`, and the repository from there to the end.
proof fn lemma_https_pieces(owner: Seq<char>, repo: Seq<char>)
    requires
        !owner.contains('/'),
        !repo.contains('/'),
    ensures
        ({
            let url = "https://github.com/"@ + (owner + "/"@ + repo);
            let slash = 19 + owner.len() as int;
            &&& url.len() == slash + 1 + repo.len()
            &&& find_char(url, '/', 19) == slash
            &&& find_char(url, '/', slash + 1) == url.len()
            &&& url.subrange(19, slash) == owner
            &&& url.subrange(slash + 1, url.len() as int) == repo
        }),
{
    reveal_strlit("https://github.com/");
    reveal_strlit("/");
    let url = "https://github.com/"@ + (owner + "/"@ + repo);
    let n = owner.len() as int;
    assert forall|j: int| 19 <= j < 19 + n implies url[j] != '/' by {
        assert(owner.contains(owner[j - 19]));
    }
    assert forall|j: int| 19 + n + 1 <= j < url.len() implies url[j] != '/' by {
        assert(repo.contains(repo[j - 19 - n - 1]));
    }
    lemma_find_char_at(url, '/', 19, 19 + n);
    lemma_find_char_at(url, '/', 19 + n + 1, url.len() as int);
    assert(url.subrange(19, 19 + n) =~= owner);
    assert(url.subrange(19 + n + 1, url.len() as int) =~= repo);
}

/// `https://github.com/owner/repo` has no `.git` at its end, and no white
/// space around it.
proof fn lemma_https_bare(owner: Seq<char>, repo: Seq<char>)
    requires
        plain_names(owner, repo),
    ensures
        ({
            let url = "https://github.com/"@ + (owner + "/"@ + repo);
            &&& trimmed(url) == url
            &&& without_git_suffix(url) == url
        }),
{
    reveal_strlit("https://github.com/");
    reveal_strlit("/");
    reveal_strlit(".git");
    let url = "https://github.com/"@ + (owner + "/"@ + repo);
    assert(url.len() == 19 + owner.len() + 1 + repo.len());
    assert(url.last() == if repo.len() > 0 {
        repo.last()
    } else {
        '/'
    });
    lemma_trimmed_keeps(url);
    if ends_with(url, ".git"@) {
        let tail = url.subrange(url.len() - 4, url.len() as int);
        if repo.len() >= 4 {
            assert(repo.subrange(repo.len() - 4, repo.len() as int) =~= tail);
        } else {
            let k = 3 - repo.len();
            assert(tail[k] == url[url.len() - 4 + k]);
            assert(url[url.len() - 1 - repo.len()] == '/');
        }
    }
}

/// The form `https://github.com/owner/repo` is read as `owner` and `repo`.
proof fn lemma_https_form(owner: Seq<char>, repo: Seq<char>)
    requires
        plain_names(owner, repo),
    ensures
        remote_owner_repo("https://github.com/"@ + (owner + "/"@ + repo)) == Some((owner, repo)),
{
    reveal_strlit("github.com");
    lemma_https_bare(owner, repo);
    lemma_https_lead(owner + "/"@ + repo);
    lemma_https_pieces(owner, repo);
}

/// `https://github.com/owner/repo.git` has no white space around it, is
/// not of the form that starts with `git@github.com:`, and is
/// `https://github.com/owner/repo` once its `.git` is taken off.
proof fn lemma_https_git_bare(owner: Seq<char>, repo: Seq<char>)
    ensures
        ({
            let plain = "https://github.com/"@ + (owner + "/"@ + repo);
            let url = plain + ".git"@;
            &&& trimmed(url) == url
            &&& !occurs_at(url, "git@github.com:"@, 0)
            &&& without_git_suffix(url) == plain
        }),
{
    let plain = "https://github.com/"@ + (owner + "/"@ + repo);
    let url = plain + ".git"@;
    assert(trimmed(url) == url) by {
        reveal_strlit("https://github.com/");
        reveal_strlit(".git");
        lemma_trimmed_keeps(url);
    }
    assert(!occurs_at(url, "git@github.com:"@, 0)) by {
        assert(url =~= "https://github.com/"@ + (owner + "/"@ + repo + ".git"@));
        lemma_https_lead(owner + "/"@ + repo + ".git"@);
    }
    lemma_suffix_taken_off(plain);
}

/// The form `https://github.com/owner/repo.git` is read as `owner` and
/// `repo`.
proof fn lemma_https_git_form(owner: Seq<char>, repo: Seq<char>)
    requires
        plain_names(owner, repo),
    ensures
        remote_owner_repo("https://github.com/"@ + (owner + "/"@ + repo) + ".git"@) == Some(
            (owner, repo),
        ),
{
    reveal_strlit("github.com");
    lemma_https_git_bare(owner, repo);
    lemma_https_lead(owner + "/"@ + repo);
    lemma_https_pieces(owner, repo);
}

/// Text that neither starts nor ends with white space is its own trimmed form.
proof fn lemma_trimmed_keeps(s: Seq<char>)
    requires
        s.len() > 0,
        !is_white_space(s[0]),
        !is_white_space(s.last()),
    ensures
        trimmed(s) == s,
{
    assert(skip_spaces(s, 0, s.len() as int) == 0);
    assert(drop_spaces(s, 0, s.len() as int) == s.len());
    assert(s.subrange(0, s.len() as int) =~= s);
}

/// `s` followed by `.git` loses just that.
proof fn lemma_suffix_taken_off(s: Seq<char>)
    ensures
        without_git_suffix(s + ".git"@) == s,
{
    reveal_strlit(".git");
    let t = s + ".git"@;
    assert(t.subrange(t.len() - 4, t.len() as int) =~= ".git"@);
    assert(t.subrange(0, t.len() - 4) =~= s);
}

/// In `owner/repo` the only `/` is the one between the two.
proof fn lemma_path_splits(owner: Seq<char>, repo: Seq<char>)
    requires
        !owner.contains('/'),
        !repo.contains('/'),
    ensures
        find_char(owner + "/"@ + repo, '/', 0) == owner.len(),
        find_char(owner + "/"@ + repo, '/', owner.len() as int + 1) == (owner + "/"@ + repo).len(),
        (owner + "/"@ + repo).subrange(0, owner.len() as int) == owner,
        (owner + "/"@ + repo).subrange(
            owner.len() as int + 1,
            (owner + "/"@ + repo).len() as int,
        ) == repo,
{
    reveal_strlit("/");
    let path = owner + "/"@ + repo;
    let n = owner.len() as int;
    assert forall|j: int| 0 <= j < n implies path[j] != '/' by {
        assert(owner.contains(owner[j]));
    }
    assert forall|j: int| n + 1 <= j < path.len() implies path[j] != '/' by {
        assert(repo.contains(repo[j - n - 1]));
    }
    lemma_find_char_at(path, '/', 0, n);
    lemma_find_char_at(path, '/', n + 1, path.len() as int);
    assert(path.subrange(0, n) =~= owner);
    assert(path.subrange(n + 1, path.len() as int) =~= repo);
}

} // verus!
