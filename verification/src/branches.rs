//! How far each branch has moved from the mainline, and how fresh it is.

use crate::cli::{outcome_view, GitError, GitErrorView};
use crate::clock::{age_at, time_since, utc_now, Elapsed, Instant};
use crate::order::{
    arranged, first_behind, in_order, lemma_arranged_in_order, lemma_arranged_is_stable,
    lemma_filter_agrees, lemma_first_behind, placed, ranks, ranks_with,
};
use crate::text::{
    chars_of, find_char, find_space, first_non_space, index_of_char, index_of_space,
    lemma_sorts_before_asymmetric, lemma_sorts_before_irreflexive, lemma_sorts_before_total,
    lemma_sorts_before_transitive, lines, lines_of, matches_at, number_in, occurs_at,
    parse_number, piece, skip_spaces, sorts_before, text_less, trim, trimmed,
};
use vstd::prelude::*;

verus! {

/// A branch, measured against the mainline.
#[derive(Debug)]
pub struct Branch {
    pub name: String,
    /// Commits on the branch that the mainline lacks.
    pub commits_ahead: i32,
    /// Commits on the mainline that the branch lacks.
    pub commits_behind: i32,
    pub last_commit_date: String,
    pub last_commit_author: String,
    /// One of `fresh`, `stale` and `conflict-risk`.
    pub status: String,
    pub head_sha: String,
    /// The commit at which the branch left the mainline, if they share one.
    pub diverged_from_sha: Option<String>,
    pub diverged_from_date: Option<String>,
}

/// What a `Branch` holds, as plain text.
pub struct BranchView {
    pub name: Seq<char>,
    pub commits_ahead: i32,
    pub commits_behind: i32,
    pub last_commit_date: Seq<char>,
    pub last_commit_author: Seq<char>,
    pub status: Seq<char>,
    pub head_sha: Seq<char>,
    pub diverged_from_sha: Option<Seq<char>>,
    pub diverged_from_date: Option<Seq<char>>,
}

impl View for Branch {
    type V = BranchView;

    open spec fn view(&self) -> BranchView {
        BranchView {
            name: self.name@,
            commits_ahead: self.commits_ahead,
            commits_behind: self.commits_behind,
            last_commit_date: self.last_commit_date@,
            last_commit_author: self.last_commit_author@,
            status: self.status@,
            head_sha: self.head_sha@,
            diverged_from_sha: self.diverged_from_sha.deep_view(),
            diverged_from_date: self.diverged_from_date.deep_view(),
        }
    }
}

impl DeepView for Branch {
    type V = BranchView;

    open spec fn deep_view(&self) -> BranchView {
        self@
    }
}

/// An age of more than 14 days: more than 14 × 86 400 seconds.
pub open spec fn older_than_14_days(age: Elapsed) -> bool {
    age.seconds > 1_209_600 || (age.seconds == 1_209_600 && age.nanos > 0)
}

/// The status of a branch that is `commits_behind` commits behind the
/// mainline and whose last commit is `age` old (`None` when its date cannot
/// be read). The first rule that applies decides: more than 50 commits
/// behind is `stale`, more than 10 is `conflict-risk`, a last commit older
/// than 14 days is `stale`, anything else is `fresh`.
pub open spec fn status_text(commits_behind: i32, age: Option<Elapsed>) -> Seq<char> {
    if commits_behind > 50 {
        "stale"@
    } else if commits_behind > 10 {
        "conflict-risk"@
    } else if age matches Some(age) && older_than_14_days(age) {
        "stale"@
    } else {
        "fresh"@
    }
}

/// The status of a branch, from how far it is behind and how old its last
/// commit is.
pub fn status_for(commits_behind: i32, age: Option<Elapsed>) -> (r: String)
    ensures
        r@ == status_text(commits_behind, age),
{
    if commits_behind > 50 {
        return String::from_str("stale");
    }
    if commits_behind > 10 {
        return String::from_str("conflict-risk");
    }
    if let Some(age) = age {
        if age.seconds > 1_209_600 || (age.seconds == 1_209_600 && age.nanos > 0) {
            return String::from_str("stale");
        }
    }
    String::from_str("fresh")
}

/// The status, at the time `now`, of a branch that is `commits_behind`
/// commits behind the mainline and whose last commit bears the timestamp
/// `last_commit_date`. A timestamp that cannot be read counts as fresh.
pub fn status_at(commits_behind: i32, last_commit_date: &str, now: &Instant) -> (r: String)
    ensures
        r@ == status_text(commits_behind, age_at(last_commit_date@, *now)),
{
    if commits_behind > 10 {
        status_for(commits_behind, None)
    } else {
        status_for(commits_behind, time_since(last_commit_date, now))
    }
}

/// The status, at the time of the call, of a branch that is
/// `commits_behind` commits behind the mainline and whose last commit bears
/// the timestamp `last_commit_date`. The clock is read once.
pub fn calculate_status(commits_behind: i32, last_commit_date: &str) -> (r: String)
    ensures
        exists|now: Instant|
            r@ == status_text(commits_behind, #[trigger] age_at(last_commit_date@, now)),
{
    let now = utc_now();
    status_at(commits_behind, last_commit_date, &now)
}

/// The count that a token of the range comparison writes: decimal digits,
/// with or without a `+` before them, whose value an `i32` holds. Anything
/// else counts as 0.
pub open spec fn count_of(token: Seq<char>) -> i32 {
    let digits = if token.len() > 0 && token[0] == '+' {
        token.subrange(1, token.len() as int)
    } else {
        token
    };
    match parse_number(digits) {
        Some(n) => n,
        None => 0,
    }
}

/// The counts `(ahead, behind)` that the output of a range comparison
/// holds. The output lists the mainline's side first: its first token is
/// the number of commits behind, its second the number of commits ahead.
/// Tokens are separated by white space.
pub open spec fn ahead_behind(output: Seq<char>) -> (i32, i32) {
    let end = output.len() as int;
    let behind_from = skip_spaces(output, 0, end);
    let behind_to = find_space(output, behind_from);
    let ahead_from = skip_spaces(output, behind_to, end);
    let ahead_to = find_space(output, ahead_from);
    (
        count_of(output.subrange(ahead_from, ahead_to)),
        count_of(output.subrange(behind_from, behind_to)),
    )
}

/// The count that the characters of `v` in `[from, to)` write.
fn count_in(v: &Vec<char>, from: usize, to: usize) -> (n: i32)
    requires
        from <= to <= v.len(),
    ensures
        n == count_of(v@.subrange(from as int, to as int)),
        n >= 0,
{
    let ghost token = v@.subrange(from as int, to as int);
    let start = if from < to && v[from] == '+' {
        from + 1
    } else {
        from
    };
    assert(v@.subrange(start as int, to as int) =~= if token.len() > 0 && token[0] == '+' {
        token.subrange(1, token.len() as int)
    } else {
        token
    });
    match number_in(v, start, to) {
        Some(n) => n,
        None => 0,
    }
}

/// Reads the counts `(ahead, behind)` out of the output of a range
/// comparison. Neither count is negative; one that is missing or cannot be
/// read is 0.
pub fn get_ahead_behind(output: &str) -> (r: (i32, i32))
    ensures
        r == ahead_behind(output@),
        r.0 >= 0,
        r.1 >= 0,
{
    let v = chars_of(output);
    let behind_from = first_non_space(&v, 0, v.len());
    let behind_to = index_of_space(&v, behind_from);
    let ahead_from = first_non_space(&v, behind_to, v.len());
    let ahead_to = index_of_space(&v, ahead_from);
    let behind = count_in(&v, behind_from, behind_to);
    let ahead = count_in(&v, ahead_from, ahead_to);
    (ahead, behind)
}

/// The fork point of a branch: the hash that the common-ancestor query
/// printed and that commit's timestamp, both trimmed; both absent when the
/// query printed nothing but white space.
pub open spec fn fork_point(merge_base: Seq<char>, date: Seq<char>) -> (
    Option<Seq<char>>,
    Option<Seq<char>>,
) {
    let sha = trimmed(merge_base);
    if sha.len() == 0 {
        (None, None)
    } else {
        (Some(sha), Some(trimmed(date)))
    }
}

/// The hash of the fork point in the output of the common-ancestor query,
/// for which the timestamp is then to be asked. `None` when there is no
/// common ancestor.
pub fn fork_point_sha(merge_base: &str) -> (r: Option<String>)
    ensures
        r.deep_view() == fork_point(merge_base@, Seq::empty()).0,
{
    let sha = trim(merge_base);
    if sha.as_str().is_empty() {
        None
    } else {
        Some(sha)
    }
}

/// The fork point of a branch, from the output of the common-ancestor query
/// and the output of the query for that commit's timestamp. The second is
/// not looked at when there is no common ancestor.
pub fn get_fork_point(merge_base: &str, date: &str) -> (r: (Option<String>, Option<String>))
    ensures
        r.deep_view() == fork_point(merge_base@, date@),
{
    match fork_point_sha(merge_base) {
        Some(sha) => (Some(sha), Some(trim(date))),
        None => (None, None),
    }
}

/// The mainline's name. `origin_head` is the output of the query for the
/// remote's default head, `None` when that query failed. It decides when,
/// trimmed, it starts with `refs/remotes/origin/`: the name is what
/// follows. Else the name is `main` if such a branch exists, else `master`
/// if such a branch exists, else `HEAD`.
pub open spec fn default_branch(origin_head: Option<Seq<char>>, has_main: bool, has_master: bool)
    -> Seq<char> {
    match remote_head_branch(origin_head) {
        Some(name) => name,
        None => if has_main {
            "main"@
        } else if has_master {
            "master"@
        } else {
            "HEAD"@
        },
    }
}

/// The branch that the remote's default head names, if the query for it
/// gave one.
pub open spec fn remote_head_branch(origin_head: Option<Seq<char>>) -> Option<Seq<char>> {
    let lead = "refs/remotes/origin/"@;
    match origin_head {
        Some(output) => if occurs_at(trimmed(output), lead, 0) {
            Some(trimmed(output).subrange(lead.len() as int, trimmed(output).len() as int))
        } else {
            None
        },
        None => None,
    }
}

/// Chooses the mainline's name from what the probes of the repository
/// found. Every combination of findings gives a name.
pub fn get_default_branch(origin_head: Option<&str>, has_main: bool, has_master: bool) -> (r:
    String)
    ensures
        r@ == default_branch(origin_head.deep_view(), has_main, has_master),
{
    if let Some(output) = origin_head {
        let head = trim(output);
        let v = chars_of(head.as_str());
        let lead = chars_of("refs/remotes/origin/");
        if matches_at(&v, &lead, 0) {
            return piece(head.as_str(), lead.len(), v.len());
        }
    }
    if has_main {
        String::from_str("main")
    } else if has_master {
        String::from_str("master")
    } else {
        String::from_str("HEAD")
    }
}

/// The hash, the author and the timestamp of a branch's last commit, from
/// the output of the query for them: the output, trimmed, holds the three in
/// this order with a `|` between them. An author that is missing is
/// `Unknown`; a timestamp that is missing is empty.
pub open spec fn last_commit(output: Seq<char>) -> (Seq<char>, Seq<char>, Seq<char>) {
    let line = trimmed(output);
    let a = find_char(line, '|', 0);
    let b = find_char(line, '|', a + 1);
    let c = find_char(line, '|', b + 1);
    (
        line.subrange(0, a),
        if a < line.len() {
            line.subrange(a + 1, b)
        } else {
            "Unknown"@
        },
        if b < line.len() {
            line.subrange(b + 1, c)
        } else {
            Seq::empty()
        },
    )
}

/// Reads the hash, the author and the timestamp of a branch's last commit.
fn read_last_commit(output: &str) -> (r: (String, String, String))
    ensures
        r.deep_view() == last_commit(output@),
{
    let line = trim(output);
    let v = chars_of(line.as_str());
    let a = index_of_char(&v, '|', 0);
    let head_sha = piece(line.as_str(), 0, a);
    if a == v.len() {
        proof {
            assert(find_char(v@, '|', a + 1) == v.len());
        }
        return (head_sha, String::from_str("Unknown"), String::new());
    }
    let b = index_of_char(&v, '|', a + 1);
    let author = piece(line.as_str(), a + 1, b);
    if b == v.len() {
        return (head_sha, author, String::new());
    }
    let c = index_of_char(&v, '|', b + 1);
    (head_sha, author, piece(line.as_str(), b + 1, c))
}

/// What the repository answered to the four queries about one branch. Each
/// answer is the text that the query printed, or the error that it ended
/// with. `fork_date` is the answer to the query for the fork point's
/// timestamp; it is looked at only when `merge_base` names a fork point.
#[derive(Debug)]
pub struct BranchProbe {
    pub name: String,
    pub range_counts: Result<String, GitError>,
    pub last_commit: Result<String, GitError>,
    pub merge_base: Result<String, GitError>,
    pub fork_date: Result<String, GitError>,
}

/// What a `BranchProbe` holds, as plain text.
pub struct BranchProbeView {
    pub name: Seq<char>,
    pub range_counts: Result<Seq<char>, GitErrorView>,
    pub last_commit: Result<Seq<char>, GitErrorView>,
    pub merge_base: Result<Seq<char>, GitErrorView>,
    pub fork_date: Result<Seq<char>, GitErrorView>,
}

impl View for BranchProbe {
    type V = BranchProbeView;

    open spec fn view(&self) -> BranchProbeView {
        BranchProbeView {
            name: self.name@,
            range_counts: outcome_view(self.range_counts),
            last_commit: outcome_view(self.last_commit),
            merge_base: outcome_view(self.merge_base),
            fork_date: outcome_view(self.fork_date),
        }
    }
}

impl DeepView for BranchProbe {
    type V = BranchProbeView;

    open spec fn deep_view(&self) -> BranchProbeView {
        self@
    }
}

/// The branch that the answers describe, at the time `now`; the error of
/// the first query that failed, in the order range comparison, last commit,
/// common ancestor, fork point's timestamp.
pub open spec fn branch_of(probe: BranchProbeView, now: Instant) -> Result<
    BranchView,
    GitErrorView,
> {
    match probe.range_counts {
        Err(e) => Err(e),
        Ok(counts) => match probe.last_commit {
            Err(e) => Err(e),
            Ok(log) => match probe.merge_base {
                Err(e) => Err(e),
                Ok(base) => if trimmed(base).len() > 0 && probe.fork_date is Err {
                    Err(probe.fork_date->Err_0)
                } else {
                    let date = match probe.fork_date {
                        Ok(date) => date,
                        Err(_) => Seq::empty(),
                    };
                    Ok(
                        BranchView {
                            name: probe.name,
                            commits_ahead: ahead_behind(counts).0,
                            commits_behind: ahead_behind(counts).1,
                            last_commit_date: last_commit(log).2,
                            last_commit_author: last_commit(log).1,
                            status: status_text(
                                ahead_behind(counts).1,
                                age_at(last_commit(log).2, now),
                            ),
                            head_sha: last_commit(log).0,
                            diverged_from_sha: fork_point(base, date).0,
                            diverged_from_date: fork_point(base, date).1,
                        },
                    )
                },
            },
        },
    }
}

/// A branch or an error, as plain text.
pub open spec fn branch_result_view(r: Result<Branch, GitError>) -> Result<
    BranchView,
    GitErrorView,
> {
    match r {
        Ok(branch) => Ok(branch@),
        Err(e) => Err(e@),
    }
}

/// Puts together the record of one branch from the repository's answers.
/// Neither count of the record is negative.
pub fn get_branch_info(probe: BranchProbe, now: &Instant) -> (r: Result<Branch, GitError>)
    ensures
        branch_result_view(r) == branch_of(probe@, *now),
        r matches Ok(branch) ==> branch.commits_ahead >= 0 && branch.commits_behind >= 0,
{
    let counts = match probe.range_counts {
        Ok(counts) => counts,
        Err(e) => {
            return Err(e);
        },
    };
    let (commits_ahead, commits_behind) = get_ahead_behind(counts.as_str());
    let log = match probe.last_commit {
        Ok(log) => log,
        Err(e) => {
            return Err(e);
        },
    };
    let (head_sha, last_commit_author, last_commit_date) = read_last_commit(log.as_str());
    let base = match probe.merge_base {
        Ok(base) => base,
        Err(e) => {
            return Err(e);
        },
    };
    let (diverged_from_sha, diverged_from_date) = match fork_point_sha(base.as_str()) {
        Some(sha) => match probe.fork_date {
            Ok(date) => (Some(sha), Some(trim(date.as_str()))),
            Err(e) => {
                return Err(e);
            },
        },
        None => (None, None),
    };
    let status = status_at(commits_behind, last_commit_date.as_str(), now);
    Ok(
        Branch {
            name: probe.name,
            commits_ahead,
            commits_behind,
            last_commit_date,
            last_commit_author,
            status,
            head_sha,
            diverged_from_sha,
            diverged_from_date,
        },
    )
}

/// The ranking of branches by their last commit, the newest first: a branch
/// comes before another when the other's timestamp sorts before its own.
/// Timestamps are compared as text, in the order of a dictionary.
pub open spec fn newer() -> spec_fn(BranchView, BranchView) -> bool {
    |a: BranchView, b: BranchView| sorts_before(b.last_commit_date, a.last_commit_date)
}

/// The branches of `list` with the newest last commit first; branches with
/// the same timestamp keep the order that they have in `list`.
pub open spec fn newest_first(list: Seq<BranchView>) -> Seq<BranchView> {
    arranged(list, newer())
}

/// No branch of `list` stands before a branch with a newer last commit.
pub open spec fn is_newest_first(list: Seq<BranchView>) -> bool {
    in_order(list, newer())
}

/// Ranking by the last commit is a ranking.
pub proof fn lemma_newer_ranks()
    ensures
        ranks(newer()),
{
    let lt = newer();
    assert forall|a: BranchView, b: BranchView| #[trigger] lt(a, b) implies !lt(b, a) by {
        lemma_sorts_before_asymmetric(a.last_commit_date, b.last_commit_date);
    }
    assert forall|a: BranchView, b: BranchView, c: BranchView|
        !#[trigger] lt(a, b) && !#[trigger] lt(b, c) implies !lt(a, c) by {
        let (x, y, z) = (a.last_commit_date, b.last_commit_date, c.last_commit_date);
        lemma_sorts_before_total(x, y);
        lemma_sorts_before_total(y, z);
        if sorts_before(z, x) {
            if x == y {
            } else if y == z {
            } else {
                lemma_sorts_before_transitive(z, x, y);
            }
        }
    }
}

/// The result of `newest_first` has the newest last commit first.
pub proof fn lemma_newest_first_is_ordered(list: Seq<BranchView>)
    ensures
        is_newest_first(newest_first(list)),
{
    lemma_newer_ranks();
    lemma_arranged_in_order(list, newer());
}

/// `newest_first` neither drops nor adds a branch, and the branches that
/// bear one timestamp come out in the order in which they went in.
pub proof fn lemma_newest_first_is_stable(list: Seq<BranchView>, date: Seq<char>)
    ensures
        newest_first(list).len() == list.len(),
        newest_first(list).to_multiset() == list.to_multiset(),
        newest_first(list).filter(|b: BranchView| b.last_commit_date == date) == list.filter(
            |b: BranchView| b.last_commit_date == date,
        ),
{
    let dated = BranchView {
        name: Seq::empty(),
        commits_ahead: 0,
        commits_behind: 0,
        last_commit_date: date,
        last_commit_author: Seq::empty(),
        status: Seq::empty(),
        head_sha: Seq::empty(),
        diverged_from_sha: None,
        diverged_from_date: None,
    };
    let same_date = |b: BranchView| b.last_commit_date == date;
    let same_rank = ranks_with(newer(), dated);
    lemma_newer_ranks();
    lemma_arranged_is_stable(list, newer(), dated);
    assert forall|b: BranchView| #[trigger] same_date(b) == same_rank(b) by {
        lemma_sorts_before_total(b.last_commit_date, date);
        lemma_sorts_before_irreflexive(date);
    }
    lemma_filter_agrees(list, same_date, same_rank);
    lemma_filter_agrees(newest_first(list), same_date, same_rank);
}

/// Puts a branch into a list behind every branch that is as new or newer.
fn place(sorted: &mut Vec<Branch>, branch: Branch)
    ensures
        final(sorted).deep_view() == placed(old(sorted).deep_view(), branch@, newer()),
{
    let ghost before = sorted.deep_view();
    let mut i: usize = 0;
    while i < sorted.len() && !text_less(
        sorted[i].last_commit_date.as_str(),
        branch.last_commit_date.as_str(),
    )
        invariant
            i <= sorted.len(),
            sorted.deep_view() == before,
            first_behind(before, branch@, newer(), 0) == first_behind(
                before,
                branch@,
                newer(),
                i as int,
            ),
        decreases sorted.len() - i,
    {
        i += 1;
    }
    let ghost shown = branch@;
    sorted.insert(i, branch);
    assert(sorted.deep_view() =~= before.insert(i as int, shown));
}

/// The names of the branches to look at: the lines of the listing of local
/// branches, without the empty ones and without the mainline.
pub open spec fn listed_names(listing: Seq<char>, default_branch: Seq<char>) -> Seq<Seq<char>> {
    lines(listing).filter(|name: Seq<char>| name.len() > 0 && name != default_branch)
}

/// Reads the names of the branches to look at out of the listing of local
/// branches.
pub fn branch_names(listing: &str, default_branch: &str) -> (r: Vec<String>)
    ensures
        r.deep_view() == listed_names(listing@, default_branch@),
{
    let all = lines_of(listing);
    let base = String::from_str(default_branch);
    let ghost keep = |name: Seq<char>| name.len() > 0 && name != default_branch@;
    let mut names: Vec<String> = Vec::new();
    let mut i: usize = 0;
    while i < all.len()
        invariant
            i <= all.len(),
            base@ == default_branch@,
            all.deep_view() == lines(listing@),
            keep == |name: Seq<char>| name.len() > 0 && name != default_branch@,
            names.deep_view() == all.deep_view().take(i as int).filter(keep),
        decreases all.len() - i,
    {
        let ghost before = names.deep_view();
        proof {
            let upto = all.deep_view().take(i + 1);
            assert(upto.drop_last() =~= all.deep_view().take(i as int));
            assert(upto.last() == all[i as int]@);
            reveal(Seq::filter);
        }
        if !all[i].as_str().is_empty() && all[i] != base {
            let name = all[i].clone();
            names.push(name);
            assert(names.deep_view() =~= before.push(all[i as int]@));
        }
        i += 1;
    }
    assert(all.deep_view().take(all.len() as int) =~= all.deep_view());
    names
}

/// The branches that the answers describe, in the order of the answers. An
/// answer with a failed query describes none.
pub open spec fn described(probes: Seq<BranchProbeView>, now: Instant) -> Seq<BranchView> {
    probes.filter_map(
        |probe: BranchProbeView|
            match branch_of(probe, now) {
                Ok(branch) => Some(branch),
                Err(_) => None,
            },
    )
}

/// The listing of branches at the time `now`: the branches that the answers
/// describe, with the newest last commit first.
pub open spec fn listing_at(probes: Seq<BranchProbeView>, now: Instant) -> Seq<BranchView> {
    newest_first(described(probes, now))
}

/// Lists the branches at the time `now`, from the repository's answers
/// about each. A branch with a failed query is left out; the others come
/// with the newest last commit first, and no count of theirs is negative.
pub fn list_branches_at(probes: Vec<BranchProbe>, now: &Instant) -> (r: Vec<Branch>)
    ensures
        r.deep_view() == listing_at(probes.deep_view(), *now),
        is_newest_first(r.deep_view()),
        forall|i: int|
            0 <= i < r.len() ==> r[i].commits_ahead >= 0 && r[i].commits_behind >= 0,
{
    let ghost all = probes.deep_view();
    let ghost f = |probe: BranchProbeView|
        match branch_of(probe, *now) {
            Ok(branch) => Some(branch),
            Err(_) => None,
        };
    let mut probes = probes;
    let mut out: Vec<Branch> = Vec::new();
    let mut taken: usize = 0;
    let total = probes.len();
    while probes.len() > 0
        invariant
            taken + probes.len() == total,
            total == all.len(),
            probes.deep_view() =~= all.subrange(taken as int, total as int),
            f == |probe: BranchProbeView|
                match branch_of(probe, *now) {
                    Ok(branch) => Some(branch),
                    Err(_) => None,
                },
            out.deep_view() == newest_first(all.take(taken as int).filter_map(f)),
            forall|i: int|
                0 <= i < out.len() ==> out[i].commits_ahead >= 0 && out[i].commits_behind >= 0,
        decreases probes.len(),
    {
        let ghost waiting = probes.deep_view();
        let probe = probes.remove(0);
        proof {
            assert(waiting[0] == probe@);
            assert(probes.deep_view() =~= waiting.subrange(1, waiting.len() as int));
            let upto = all.take(taken + 1);
            assert(upto.drop_last() =~= all.take(taken as int));
            assert(upto.last() == probe@);
        }
        let ghost before = out@;
        let ghost sorted = out.deep_view();
        let ghost seen = all.take(taken as int).filter_map(f);
        if let Ok(branch) = get_branch_info(probe, now) {
            let ghost shown = branch@;
            let ghost p = first_behind(sorted, shown, newer(), 0);
            proof {
                lemma_first_behind(sorted, shown, newer(), 0);
            }
            place(&mut out, branch);
            proof {
                let grown = all.take(taken + 1).filter_map(f);
                assert(grown == seen + seq![shown]);
                assert(grown.drop_last() =~= seen);
                assert(grown.last() == shown);
                assert(out.deep_view() == sorted.insert(p, shown));
                assert(out.deep_view().len() == sorted.len() + 1);
                assert(out@.len() == before.len() + 1);
                assert forall|i: int| 0 <= i < out.len() implies out[i].commits_ahead >= 0
                    && out[i].commits_behind >= 0 by {
                    if i < p {
                        assert(out.deep_view()[i] == sorted[i]);
                        assert(sorted[i] == before[i]@);
                    } else if i > p {
                        assert(out.deep_view()[i] == sorted[i - 1]);
                        assert(sorted[i - 1] == before[i - 1]@);
                    } else {
                        assert(out.deep_view()[i] == shown);
                    }
                }
            }
        }
        taken += 1;
    }
    proof {
        assert(all.take(total as int) =~= all);
        lemma_newest_first_is_ordered(described(all, *now));
    }
    out
}

/// Lists the branches at the time of the call: see `list_branches_at`. The
/// clock is read once, and that time holds for every branch.
pub fn list_branches(probes: Vec<BranchProbe>) -> (r: Vec<Branch>)
    ensures
        exists|now: Instant| r.deep_view() == #[trigger] listing_at(probes.deep_view(), now),
        is_newest_first(r.deep_view()),
        forall|i: int|
            0 <= i < r.len() ==> r[i].commits_ahead >= 0 && r[i].commits_behind >= 0,
{
    let now = utc_now();
    list_branches_at(probes, &now)
}

/// Where the piece of `path` that ends at `end` starts: behind the last
/// `/` before `end`, or at the start of `path`.
pub open spec fn segment_start(path: Seq<char>, end: int) -> int
    decreases end,
{
    if end <= 0 {
        0
    } else if path[end - 1] == '/' {
        end
    } else {
        segment_start(path, end - 1)
    }
}

/// The last component of the part of `path` before `end`. The pieces
/// between `/` are looked at from the back; empty pieces and `.` are passed
/// over; a last piece `..` means that there is no last component.
pub open spec fn last_component(path: Seq<char>, end: int) -> Option<Seq<char>>
    decreases end + 1,
    via last_component_decreases
{
    if end <= 0 {
        None
    } else {
        let start = segment_start(path, end);
        let part = path.subrange(start, end);
        if part.len() == 0 || part == seq!['.'] {
            last_component(path, start - 1)
        } else if part == seq!['.', '.'] {
            None
        } else {
            Some(part)
        }
    }
}

#[via_fn]
proof fn last_component_decreases(path: Seq<char>, end: int) {
    lemma_segment_start_bounds(path, end);
}

/// A piece starts at or before its end.
proof fn lemma_segment_start_bounds(path: Seq<char>, end: int)
    ensures
        end >= 0 ==> 0 <= segment_start(path, end) <= end,
    decreases end,
{
    if end > 0 && path[end - 1] != '/' {
        lemma_segment_start_bounds(path, end - 1);
    }
}

/// The name of the repository whose top directory is `path`: the last
/// component of the path, or `unknown` when the path has none.
pub open spec fn repo_name(path: Seq<char>) -> Seq<char> {
    match last_component(path, path.len() as int) {
        Some(name) => name,
        None => "unknown"@,
    }
}

/// The last component of a path.
fn final_component(path: &str) -> (r: Option<String>)
    ensures
        r.deep_view() == last_component(path@, path@.len() as int),
{
    let v = chars_of(path);
    let mut end: usize = v.len();
    while end > 0
        invariant
            end <= v.len(),
            v@ == path@,
            last_component(v@, v.len() as int) == last_component(v@, end as int),
        decreases end,
    {
        let mut start: usize = end;
        while start > 0 && v[start - 1] != '/'
            invariant
                start <= end <= v.len(),
                segment_start(v@, end as int) == segment_start(v@, start as int),
            decreases start,
        {
            start -= 1;
        }
        let ghost part = v@.subrange(start as int, end as int);
        let empty = start == end;
        let dot = end - start == 1 && v[start] == '.';
        let dots = end - start == 2 && v[start] == '.' && v[start + 1] == '.';
        proof {
            if dot {
                assert(part =~= seq!['.']);
            } else if part == seq!['.'] {
                assert(part.len() == 1 && part[0] == '.');
            }
            if dots {
                assert(part =~= seq!['.', '.']);
            } else if part == seq!['.', '.'] {
                assert(part.len() == 2 && part[0] == '.' && part[1] == '.');
            }
        }
        if empty || dot {
            if start == 0 {
                assert(last_component(v@, -1) is None);
                return None;
            }
            end = start - 1;
        } else if dots {
            return None;
        } else {
            return Some(piece(path, start, end));
        }
    }
    None
}

/// The name and the path of the repository, from the output of the query
/// for its top directory. The path is the output, trimmed; the name is the
/// path's last component, `unknown` when it has none.
pub fn get_repo_info(toplevel: &str) -> (r: (String, String))
    ensures
        r.1@ == trimmed(toplevel@),
        r.0@ == repo_name(trimmed(toplevel@)),
{
    let full_path = trim(toplevel);
    let name = match final_component(full_path.as_str()) {
        Some(name) => name,
        None => String::from_str("unknown"),
    };
    (name, full_path)
}

} // verus!
