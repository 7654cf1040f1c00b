//! Merge commits of a branch, and the pull request that each subject names.

use crate::text::{
    chars_of, digits_end, end_of_digits, find_char, index_of_char, lines, lines_of, matches_at,
    number_in, occurs_at, parse_number, piece, trim, trimmed,
};
use vstd::prelude::*;

verus! {

/// One merge commit of a branch's history.
#[derive(Debug)]
pub struct MergeNode {
    /// The abbreviated hash.
    pub sha: String,
    /// The full hash.
    pub full_sha: String,
    /// The pull request that the subject names, if it names one.
    pub pr_number: Option<i32>,
    /// What the subject says of the pull request beside its number.
    pub pr_title: Option<String>,
    /// The commit's timestamp, as the history gives it.
    pub date: String,
}

/// What a `MergeNode` holds, as plain text.
pub struct MergeNodeView {
    pub sha: Seq<char>,
    pub full_sha: Seq<char>,
    pub pr_number: Option<i32>,
    pub pr_title: Option<Seq<char>>,
    pub date: Seq<char>,
}

impl View for MergeNode {
    type V = MergeNodeView;

    open spec fn view(&self) -> MergeNodeView {
        MergeNodeView {
            sha: self.sha@,
            full_sha: self.full_sha@,
            pr_number: self.pr_number,
            pr_title: self.pr_title.deep_view(),
            date: self.date@,
        }
    }
}

impl DeepView for MergeNode {
    type V = MergeNodeView;

    open spec fn deep_view(&self) -> MergeNodeView {
        self@
    }
}

/// A pull-request number with the title found beside it.
pub type PrInfo = (Option<i32>, Option<Seq<char>>);

/// The title that follows the number in a subject of the hosting service's
/// own merges: the text after the number, without a leading `from `.
pub open spec fn merge_title(tail: Seq<char>) -> Seq<char> {
    if occurs_at(tail, "from "@, 0) {
        tail.subrange("from "@.len() as int, tail.len() as int)
    } else {
        tail
    }
}

/// First form: the subject starts with `Merge pull request #`, and a decimal
/// number runs from there to the first space or to the end. What follows
/// the space is the title.
pub open spec fn merge_subject_info(s: Seq<char>) -> Option<PrInfo> {
    let lead = "Merge pull request #"@;
    if occurs_at(s, lead, 0) {
        let stop = find_char(s, ' ', lead.len() as int);
        match parse_number(s.subrange(lead.len() as int, stop)) {
            Some(n) => Some(
                (
                    Some(n),
                    if stop < s.len() {
                        Some(merge_title(s.subrange(stop + 1, s.len() as int)))
                    } else {
                        None
                    },
                ),
            ),
            None => None,
        }
    } else {
        None
    }
}

/// A parenthesized reference stands at `at`: `(#`, one or more decimal
/// digits, and `)`, with nothing between them.
pub open spec fn reference_at(s: Seq<char>, at: int) -> bool {
    &&& occurs_at(s, "(#"@, at)
    &&& at + 2 < digits_end(s, at + 2) < s.len()
    &&& s[digits_end(s, at + 2)] == ')'
}

/// The position of the first parenthesized reference in `s` at or after
/// `from`.
pub open spec fn find_reference(s: Seq<char>, from: int) -> Option<int>
    decreases s.len() - from,
{
    if from < 0 || from >= s.len() {
        None
    } else if reference_at(s, from) {
        Some(from)
    } else {
        find_reference(s, from + 1)
    }
}

/// Second form: the first parenthesized reference of the subject, wherever
/// it stands. Its digits are the number; the title is what stands before
/// it, trimmed, and is absent when nothing is left of it. A reference
/// whose number an `i32` cannot hold gives nothing: later references are
/// not looked at.
pub open spec fn parenthesized_info(s: Seq<char>) -> Option<PrInfo> {
    match find_reference(s, 0) {
        Some(at) => match parse_number(s.subrange(at + 2, digits_end(s, at + 2))) {
            Some(n) => {
                let title = trimmed(s.subrange(0, at));
                Some((Some(n), if title.len() == 0 { None } else { Some(title) }))
            },
            None => None,
        },
        None => None,
    }
}

/// Third form: the number behind the first `#`, at or after `from`, that is
/// followed by decimal digits whose value an `i32` holds.
pub open spec fn hash_number(s: Seq<char>, from: int) -> Option<i32>
    decreases s.len() - from,
{
    if from < 0 || from >= s.len() {
        None
    } else if s[from] == '#' && parse_number(s.subrange(from + 1, digits_end(s, from + 1)))
        is Some {
        parse_number(s.subrange(from + 1, digits_end(s, from + 1)))
    } else {
        hash_number(s, from + 1)
    }
}

/// The pull request that a commit subject names: the three forms are tried
/// in order and the first that applies decides.
pub open spec fn pr_info(s: Seq<char>) -> PrInfo {
    match merge_subject_info(s) {
        Some(info) => info,
        None => match parenthesized_info(s) {
            Some(info) => info,
            None => (hash_number(s, 0), None),
        },
    }
}

/// Tries the first form on a subject.
fn merge_subject(subject: &str, v: &Vec<char>) -> (r: Option<(Option<i32>, Option<String>)>)
    requires
        v@ == subject@,
    ensures
        r.deep_view() == merge_subject_info(subject@),
{
    let lead = chars_of("Merge pull request #");
    if !matches_at(v, &lead, 0) {
        return None;
    }
    let stop = index_of_char(v, ' ', lead.len());
    match number_in(v, lead.len(), stop) {
        Some(n) => {
            if stop < v.len() {
                let tail = piece(subject, stop + 1, v.len());
                let tv = chars_of(tail.as_str());
                let from = chars_of("from ");
                let title = if matches_at(&tv, &from, 0) {
                    piece(tail.as_str(), from.len(), tv.len())
                } else {
                    tail
                };
                Some((Some(n), Some(title)))
            } else {
                Some((Some(n), None))
            }
        },
        None => None,
    }
}

/// Tries the second form on a subject.
fn parenthesized(subject: &str, v: &Vec<char>) -> (r: Option<(Option<i32>, Option<String>)>)
    requires
        v@ == subject@,
    ensures
        r.deep_view() == parenthesized_info(subject@),
{
    let mark = chars_of("(#");
    proof {
        reveal_strlit("(#");
    }
    let mut at: usize = 0;
    while at < v.len()
        invariant
            at <= v.len(),
            v@ == subject@,
            mark@ == "(#"@,
            mark@.len() == 2,
            find_reference(v@, 0) == find_reference(v@, at as int),
        decreases v.len() - at,
    {
        if matches_at(v, &mark, at) {
            let end = end_of_digits(v, at + 2);
            if end > at + 2 && end < v.len() && v[end] == ')' {
                return match number_in(v, at + 2, end) {
                    Some(n) => {
                        let head = piece(subject, 0, at);
                        let title = trim(head.as_str());
                        if title.as_str().is_empty() {
                            Some((Some(n), None))
                        } else {
                            Some((Some(n), Some(title)))
                        }
                    },
                    None => None,
                };
            }
        }
        at += 1;
    }
    None
}

/// Tries the third form on a subject.
fn first_hash_number(v: &Vec<char>) -> (r: Option<i32>)
    ensures
        r == hash_number(v@, 0),
{
    let mut i: usize = 0;
    while i < v.len()
        invariant
            i <= v.len(),
            hash_number(v@, 0) == hash_number(v@, i as int),
        decreases v.len() - i,
    {
        if v[i] == '#' {
            let end = end_of_digits(v, i + 1);
            let n = number_in(v, i + 1, end);
            if n.is_some() {
                return n;
            }
        }
        i += 1;
    }
    None
}

/// Finds the pull request that a commit subject names.
pub fn parse_pr_info(subject: &str) -> (r: (Option<i32>, Option<String>))
    ensures
        r.deep_view() == pr_info(subject@),
{
    let v = chars_of(subject);
    if let Some(info) = merge_subject(subject, &v) {
        return info;
    }
    if let Some(info) = parenthesized(subject, &v) {
        return info;
    }
    (first_hash_number(&v), None)
}

/// The merge commit that one line of the history describes. A line holds
/// the full hash, the abbreviated hash, the subject and the timestamp, with
/// a `|` after each of the first three; the timestamp is all that follows
/// the third `|`. A line with fewer than three `|` describes none.
pub open spec fn merge_node(line: Seq<char>) -> Option<MergeNodeView> {
    let a = find_char(line, '|', 0);
    let b = find_char(line, '|', a + 1);
    let c = find_char(line, '|', b + 1);
    if c < line.len() {
        let info = pr_info(line.subrange(b + 1, c));
        Some(
            MergeNodeView {
                sha: line.subrange(a + 1, b),
                full_sha: line.subrange(0, a),
                pr_number: info.0,
                pr_title: info.1,
                date: line.subrange(c + 1, line.len() as int),
            },
        )
    } else {
        None
    }
}

/// Reads one line of the merge history.
pub fn parse_merge_commit(line: &str) -> (r: Option<MergeNode>)
    ensures
        r.deep_view() == merge_node(line@),
{
    let v = chars_of(line);
    let a = index_of_char(&v, '|', 0);
    if a == v.len() {
        proof {
            assert(find_char(v@, '|', a + 1) == v.len());
            assert(find_char(v@, '|', v.len() + 1) == v.len());
        }
        return None;
    }
    let b = index_of_char(&v, '|', a + 1);
    if b == v.len() {
        proof {
            assert(find_char(v@, '|', v.len() + 1) == v.len());
        }
        return None;
    }
    let c = index_of_char(&v, '|', b + 1);
    if c == v.len() {
        return None;
    }
    let subject = piece(line, b + 1, c);
    let (pr_number, pr_title) = parse_pr_info(subject.as_str());
    Some(
        MergeNode {
            sha: piece(line, a + 1, b),
            full_sha: piece(line, 0, a),
            pr_number,
            pr_title,
            date: piece(line, c + 1, v.len()),
        },
    )
}

/// The merge commits that the lines of a history listing describe, in the
/// order of the lines. Empty lines and lines that describe no commit are
/// passed over.
pub open spec fn merge_nodes(output: Seq<char>) -> Seq<MergeNodeView> {
    lines(output).filter_map(|line: Seq<char>| merge_node(line))
}

/// How many commits of the history to pass over, and how many to ask for,
/// to show page `page` of `per_page` commits. One commit more than the page
/// holds is asked for: its presence tells that another page follows.
pub open spec fn page_window(page: u32, per_page: u32) -> (u64, u64) {
    ((page * per_page) as u64, (per_page + 1) as u64)
}

/// The window of the history to ask for: see `page_window`.
pub fn merge_log_window(page: u32, per_page: u32) -> (r: (u64, u64))
    ensures
        r == page_window(page, per_page),
        r.0 == page * per_page,
        r.1 == per_page + 1,
{
    assert(page * per_page <= 0xffff_ffff * 0xffff_ffff) by (nonlinear_arith)
        requires
            0 <= page <= 0xffff_ffff,
            0 <= per_page <= 0xffff_ffff,
    ;
    let skip: u64 = page as u64 * per_page as u64;
    let limit: u64 = per_page as u64 + 1;
    (skip, limit)
}

/// One page of merge commits: at most `per_page` of the commits that
/// `output` lists, and whether it listed more than that. `output` is the
/// history listing that was asked for with the window of `merge_log_window`.
pub fn get_merge_commits(output: &str, per_page: u32) -> (r: (Vec<MergeNode>, bool))
    ensures
        r.1 == (merge_nodes(output@).len() > per_page),
        r.0.deep_view() == if r.1 {
            merge_nodes(output@).take(per_page as int)
        } else {
            merge_nodes(output@)
        },
        r.0.len() <= per_page,
{
    let all = lines_of(output);
    let ghost f = |line: Seq<char>| merge_node(line);
    let mut nodes: Vec<MergeNode> = Vec::new();
    let mut i: usize = 0;
    while i < all.len()
        invariant
            i <= all.len(),
            all.deep_view() == lines(output@),
            f == |line: Seq<char>| merge_node(line),
            nodes.deep_view() == all.deep_view().take(i as int).filter_map(f),
        decreases all.len() - i,
    {
        let parsed = parse_merge_commit(all[i].as_str());
        let ghost before = nodes.deep_view();
        proof {
            let upto = all.deep_view().take(i + 1);
            assert(upto.drop_last() =~= all.deep_view().take(i as int));
            assert(upto.last() == all[i as int]@);
        }
        if let Some(node) = parsed {
            let ghost shown = node@;
            nodes.push(node);
            assert(nodes.deep_view() =~= before + seq![shown]);
        }
        i += 1;
    }
    assert(all.deep_view().take(all.len() as int) =~= all.deep_view());
    let has_more = nodes.len() > per_page as usize;
    if has_more {
        let ghost whole = nodes.deep_view();
        nodes.truncate(per_page as usize);
        assert(nodes.deep_view() =~= whole.take(per_page as int));
    }
    (nodes, has_more)
}

} // verus!
