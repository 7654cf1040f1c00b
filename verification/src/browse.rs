//! The rules by which directories are listed and searched for repositories.
//! Reading the file system is the caller's part; these functions decide
//! what to do with what was read.

use crate::order::{
    arranged, first_behind, first_n, in_order, lemma_arranged_holds_the_same,
    lemma_arranged_in_order, lemma_arranged_push, placed, ranks,
};
use crate::text::{
    chars_of, find_text, index_of_text, lemma_sorts_before_asymmetric, lemma_sorts_before_total,
    lemma_sorts_before_transitive, same_text, sorts_before, text_less,
};
use vstd::prelude::*;

verus! {

/// One entry of a directory.
#[derive(Debug)]
pub struct DirEntry {
    pub name: String,
    pub path: String,
    pub is_dir: bool,
    /// Whether the entry is a directory that holds a repository.
    pub is_repo: bool,
}

/// What a `DirEntry` holds, as plain text.
pub struct DirEntryView {
    pub name: Seq<char>,
    pub path: Seq<char>,
    pub is_dir: bool,
    pub is_repo: bool,
}

impl View for DirEntry {
    type V = DirEntryView;

    open spec fn view(&self) -> DirEntryView {
        DirEntryView {
            name: self.name@,
            path: self.path@,
            is_dir: self.is_dir,
            is_repo: self.is_repo,
        }
    }
}

impl DeepView for DirEntry {
    type V = DirEntryView;

    open spec fn deep_view(&self) -> DirEntryView {
        self@
    }
}

/// A name that starts with a dot.
pub open spec fn hidden(name: Seq<char>) -> bool {
    name.len() > 0 && name[0] == '.'
}

/// Whether a name starts with a dot.
pub fn is_hidden(name: &str) -> (r: bool)
    ensures
        r == hidden(name@),
{
    let v = chars_of(name);
    v.len() > 0 && v[0] == '.'
}

/// The entry of a listing for what was read of one directory entry: none
/// for a hidden name. A directory with a repository's data in it is a
/// repository.
pub fn listed_entry(name: String, path: String, is_dir: bool, has_git: bool) -> (r: Option<
    DirEntry,
>)
    ensures
        r.deep_view() == if hidden(name@) {
            None
        } else {
            Some(DirEntryView { name: name@, path: path@, is_dir, is_repo: is_dir && has_git })
        },
{
    if is_hidden(name.as_str()) {
        None
    } else {
        Some(DirEntry { name, path, is_dir, is_repo: is_dir && has_git })
    }
}

/// The entry for a repository that a search found: a directory that is a
/// repository.
pub fn found_repo(name: String, path: String) -> (r: DirEntry)
    ensures
        r@ == (DirEntryView { name: name@, path: path@, is_dir: true, is_repo: true }),
{
    DirEntry { name, path, is_dir: true, is_repo: true }
}

/// Folders that a search does not enter: folders of the system and folders
/// that hold no projects of their own.
pub open spec fn skip_folders() -> Seq<Seq<char>> {
    seq![
        "Library"@,
        "Applications"@,
        "System"@,
        "Volumes"@,
        "cores"@,
        "private"@,
        "node_modules"@,
        "target"@,
        "build"@,
        "dist"@,
        "vendor"@,
        ".git"@,
        "__pycache__"@,
        "venv"@,
        ".venv"@,
        "env"@,
        ".cargo"@,
        ".rustup"@,
        ".npm"@,
        ".cache"@,
        "Caches"@,
        "Movies"@,
        "Music"@,
        "Pictures"@,
        "Photos Library.photoslibrary"@,
    ]
}

/// Folders of a home directory in which projects are usually kept.
pub open spec fn dev_folders() -> Seq<Seq<char>> {
    seq![
        "dev"@,
        "projects"@,
        "code"@,
        "repos"@,
        "src"@,
        "workspace"@,
        "work"@,
        "github"@,
        "gitlab"@,
        "Development"@,
        "Documents"@,
        "Desktop"@,
    ]
}

/// Whether `name` is one of `names`.
fn contains_name(names: &Vec<&str>, name: &str) -> (r: bool)
    ensures
        r == names.deep_view().contains(name@),
{
    let mut i: usize = 0;
    while i < names.len()
        invariant
            i <= names.len(),
            forall|j: int| 0 <= j < i ==> names.deep_view()[j] != name@,
        decreases names.len() - i,
    {
        if same_text(names[i], name) {
            assert(names.deep_view()[i as int] == name@);
            return true;
        }
        i += 1;
    }
    false
}

/// Whether a search passes over a folder of this name.
pub fn is_skipped_folder(name: &str) -> (r: bool)
    ensures
        r == skip_folders().contains(name@),
{
    let names: Vec<&str> = vec![
        "Library",
        "Applications",
        "System",
        "Volumes",
        "cores",
        "private",
        "node_modules",
        "target",
        "build",
        "dist",
        "vendor",
        ".git",
        "__pycache__",
        "venv",
        ".venv",
        "env",
        ".cargo",
        ".rustup",
        ".npm",
        ".cache",
        "Caches",
        "Movies",
        "Music",
        "Pictures",
        "Photos Library.photoslibrary",
    ];
    assert(names.deep_view() =~= skip_folders());
    contains_name(&names, name)
}

/// The folders of a home directory that a search looks into, in the order
/// in which it does.
pub fn dev_folder_names() -> (r: Vec<&'static str>)
    ensures
        r.deep_view() == dev_folders(),
{
    let names: Vec<&'static str> = vec![
        "dev",
        "projects",
        "code",
        "repos",
        "src",
        "workspace",
        "work",
        "github",
        "gitlab",
        "Development",
        "Documents",
        "Desktop",
    ];
    assert(names.deep_view() =~= dev_folders());
    names
}

/// What a search does with one entry of a directory.
#[derive(Debug, Clone, Copy, PartialEq, Eq, Structural)]
pub enum Visit {
    /// Pass over the entry.
    Skip,
    /// The entry is a repository that the query asks for: add it to the
    /// results, and do not look inside.
    Take,
    /// The entry is a directory without a repository: look inside.
    Descend,
}

/// What a search for `query` does with an entry. Hidden entries, folders of
/// `skip_folders` and files are passed over. A repository is taken when its
/// name, in lower case, holds the query, and passed over when it does not:
/// a search never looks inside a repository. Any other directory is
/// entered.
pub open spec fn visit_of(
    name: Seq<char>,
    name_lower: Seq<char>,
    is_dir: bool,
    has_git: bool,
    query: Seq<char>,
) -> Visit {
    if hidden(name) || skip_folders().contains(name) || !is_dir {
        Visit::Skip
    } else if has_git {
        if find_text(name_lower, query, 0) is Some {
            Visit::Take
        } else {
            Visit::Skip
        }
    } else {
        Visit::Descend
    }
}

/// Decides what a search for `query` does with an entry; `name_lower` is
/// the entry's name in lower case.
pub fn visit(name: &str, name_lower: &str, is_dir: bool, has_git: bool, query: &str) -> (r: Visit)
    ensures
        r == visit_of(name@, name_lower@, is_dir, has_git, query@),
{
    if is_hidden(name) || is_skipped_folder(name) || !is_dir {
        Visit::Skip
    } else if has_git {
        let v = chars_of(name_lower);
        let q = chars_of(query);
        if index_of_text(&v, &q, 0).is_some() {
            Visit::Take
        } else {
            Visit::Skip
        }
    } else {
        Visit::Descend
    }
}

/// How deep a search goes, how many results it returns and how many it
/// gathers before it ranks them: 6 levels and 20 results where the caller
/// names none, and three times as many gathered as returned.
pub fn search_bounds(max_depth: Option<u32>, limit: Option<usize>) -> (r: (u32, usize, usize))
    requires
        limit matches Some(n) ==> 3 * n <= usize::MAX,
    ensures
        r.0 == match max_depth {
            Some(d) => d,
            None => 6,
        },
        r.1 == match limit {
            Some(n) => n,
            None => 20,
        },
        r.2 == 3 * r.1,
{
    let depth: u32 = match max_depth {
        Some(d) => d,
        None => 6,
    };
    let limit: usize = match limit {
        Some(n) => n,
        None => 20,
    };
    (depth, limit, limit * 3)
}

/// Whether a search reads a directory at `depth` when `found` results are
/// gathered: not below `max_depth`, and not once `limit` results are found.
pub fn may_search(depth: u32, max_depth: u32, found: usize, limit: usize) -> (r: bool)
    ensures
        r == (depth <= max_depth && found < limit),
{
    depth <= max_depth && found < limit
}

/// How many `/` a path holds.
pub open spec fn path_depth(path: Seq<char>) -> nat {
    path.filter(|c: char| c == '/').len()
}

/// The rank of a result: results with a lower rank come first. Results
/// whose name, in lower case, is the query come before all others; among
/// the rest, and among those, the ones higher up in the tree come first.
pub open spec fn rank_of(name_lower: Seq<char>, query: Seq<char>, path: Seq<char>) -> (bool, nat) {
    (name_lower != query, path_depth(path))
}

/// The rank of a result of a search for `query`; `name_lower` is the
/// result's name in lower case.
pub fn relevance(name_lower: &str, query: &str, path: &str) -> (r: (bool, usize))
    ensures
        r.0 == rank_of(name_lower@, query@, path@).0,
        r.1 == rank_of(name_lower@, query@, path@).1,
{
    let other = !same_text(name_lower, query);
    let v = chars_of(path);
    let ghost is_slash = |c: char| c == '/';
    let mut depth: usize = 0;
    let mut i: usize = 0;
    while i < v.len()
        invariant
            i <= v.len(),
            is_slash == |c: char| c == '/',
            depth == v@.take(i as int).filter(is_slash).len(),
            depth <= i,
        decreases v.len() - i,
    {
        proof {
            let upto = v@.take(i + 1);
            assert(upto.drop_last() =~= v@.take(i as int));
            assert(upto.last() == v@[i as int]);
            reveal(Seq::filter);
        }
        if v[i] == '/' {
            depth += 1;
        }
        i += 1;
    }
    assert(v@.take(v.len() as int) =~= v@);
    (other, depth)
}

/// An entry together with its name in lower case.
pub type Named = (String, DirEntry);

/// What a `Named` holds, as plain text.
pub type NamedView = (Seq<char>, DirEntryView);

/// The entries of a list of named entries.
pub open spec fn entries_of(items: Seq<NamedView>) -> Seq<DirEntryView> {
    items.map_values(|item: NamedView| item.1)
}

/// The ranking of entries by name without regard to case: the names in
/// lower case are compared in the order of a dictionary.
pub open spec fn by_name() -> spec_fn(NamedView, NamedView) -> bool {
    |a: NamedView, b: NamedView| sorts_before(a.0, b.0)
}

/// The listing of a directory: its directories, then its files, each group
/// arranged by name without regard to case. Entries whose names differ in
/// case only keep the order in which they were read.
pub open spec fn listing(items: Seq<NamedView>) -> Seq<DirEntryView> {
    entries_of(arranged(items.filter(|item: NamedView| item.1.is_dir), by_name())) + entries_of(
        arranged(items.filter(|item: NamedView| !item.1.is_dir), by_name()),
    )
}

/// Ranking by name is a ranking.
pub proof fn lemma_by_name_ranks()
    ensures
        ranks(by_name()),
{
    let lt = by_name();
    assert forall|a: NamedView, b: NamedView| #[trigger] lt(a, b) implies !lt(b, a) by {
        lemma_sorts_before_asymmetric(a.0, b.0);
    }
    assert forall|a: NamedView, b: NamedView, c: NamedView|
        !#[trigger] lt(a, b) && !#[trigger] lt(b, c) implies !lt(a, c) by {
        lemma_sorts_before_total(a.0, b.0);
        lemma_sorts_before_total(b.0, c.0);
        if sorts_before(a.0, c.0) {
            if a.0 == b.0 {
            } else if b.0 == c.0 {
            } else {
                lemma_sorts_before_transitive(b.0, a.0, c.0);
            }
        }
    }
}

/// In a listing, no directory and no file stands behind an entry of its
/// group whose name, in lower case, sorts behind its own.
pub proof fn lemma_listing_in_order(items: Seq<NamedView>)
    ensures
        in_order(arranged(items.filter(|item: NamedView| item.1.is_dir), by_name()), by_name()),
        in_order(arranged(items.filter(|item: NamedView| !item.1.is_dir), by_name()), by_name()),
{
    lemma_by_name_ranks();
    lemma_arranged_in_order(items.filter(|item: NamedView| item.1.is_dir), by_name());
    lemma_arranged_in_order(items.filter(|item: NamedView| !item.1.is_dir), by_name());
}

/// Puts an entry into a list behind every entry whose name does not sort
/// behind its own.
fn place_by_name(sorted: &mut Vec<Named>, item: Named)
    ensures
        final(sorted).deep_view() == placed(old(sorted).deep_view(), item.deep_view(), by_name()),
{
    let ghost before = sorted.deep_view();
    let ghost shown = item.deep_view();
    let mut i: usize = 0;
    while i < sorted.len() && !text_less(item.0.as_str(), sorted[i].0.as_str())
        invariant
            i <= sorted.len(),
            sorted.deep_view() == before,
            shown == item.deep_view(),
            first_behind(before, shown, by_name(), 0) == first_behind(
                before,
                shown,
                by_name(),
                i as int,
            ),
        decreases sorted.len() - i,
    {
        assert(before[i as int] == sorted[i as int].deep_view());
        i += 1;
    }
    proof {
        if i < sorted.len() {
            assert(before[i as int] == sorted[i as int].deep_view());
        }
    }
    sorted.insert(i, item);
    assert(sorted.deep_view() =~= before.insert(i as int, shown));
}

/// Moves the entries of `items` to the end of `out`.
fn take_entries(items: Vec<Named>, out: &mut Vec<DirEntry>)
    ensures
        final(out).deep_view() == old(out).deep_view() + entries_of(items.deep_view()),
{
    let ghost all = items.deep_view();
    let ghost start = out.deep_view();
    let mut items = items;
    let mut taken: usize = 0;
    let total = items.len();
    while items.len() > 0
        invariant
            taken + items.len() == total,
            total == all.len(),
            items.deep_view() =~= all.subrange(taken as int, total as int),
            out.deep_view() == start + entries_of(all.take(taken as int)),
        decreases items.len(),
    {
        let ghost waiting = items.deep_view();
        let ghost before = out.deep_view();
        let (_, entry) = items.remove(0);
        proof {
            assert(waiting[0].1 == entry@);
            assert(items.deep_view() =~= waiting.subrange(1, waiting.len() as int));
        }
        let ghost shown = entry@;
        out.push(entry);
        proof {
            assert(out.deep_view() =~= before.push(shown));
            assert(all[taken as int] == waiting[0]);
            assert(entries_of(all.take(taken + 1)) =~= entries_of(all.take(taken as int)).push(
                shown,
            ));
            assert(start + entries_of(all.take(taken as int)).push(shown) =~= (start + entries_of(
                all.take(taken as int),
            )).push(shown));
        }
        taken += 1;
    }
    assert(all.take(total as int) =~= all);
}

/// Arranges what was read of a directory into its listing: directories
/// first, then files, each group by name without regard to case.
pub fn arrange_listing(items: Vec<Named>) -> (r: Vec<DirEntry>)
    ensures
        r.deep_view() == listing(items.deep_view()),
{
    let ghost all = items.deep_view();
    let ghost is_dir = |item: NamedView| item.1.is_dir;
    let ghost is_file = |item: NamedView| !item.1.is_dir;
    let mut items = items;
    let mut dirs: Vec<Named> = Vec::new();
    let mut files: Vec<Named> = Vec::new();
    let mut taken: usize = 0;
    let total = items.len();
    while items.len() > 0
        invariant
            taken + items.len() == total,
            total == all.len(),
            items.deep_view() =~= all.subrange(taken as int, total as int),
            is_dir == |item: NamedView| item.1.is_dir,
            is_file == |item: NamedView| !item.1.is_dir,
            dirs.deep_view() == arranged(all.take(taken as int).filter(is_dir), by_name()),
            files.deep_view() == arranged(all.take(taken as int).filter(is_file), by_name()),
        decreases items.len(),
    {
        let ghost waiting = items.deep_view();
        let item = items.remove(0);
        proof {
            assert(waiting[0] == item.deep_view());
            assert(items.deep_view() =~= waiting.subrange(1, waiting.len() as int));
            let upto = all.take(taken + 1);
            assert(upto.drop_last() =~= all.take(taken as int));
            assert(upto.last() == item.deep_view());
            reveal(Seq::filter);
            lemma_arranged_push(all.take(taken as int).filter(is_dir), item.deep_view(), by_name());
            lemma_arranged_push(
                all.take(taken as int).filter(is_file),
                item.deep_view(),
                by_name(),
            );
        }
        if item.1.is_dir {
            place_by_name(&mut dirs, item);
        } else {
            place_by_name(&mut files, item);
        }
        taken += 1;
    }
    assert(all.take(total as int) =~= all);
    let mut out: Vec<DirEntry> = Vec::new();
    assert(out.deep_view() =~= Seq::<DirEntryView>::empty());
    take_entries(dirs, &mut out);
    take_entries(files, &mut out);
    assert(Seq::<DirEntryView>::empty() + entries_of(arranged(all.filter(is_dir), by_name()))
        =~= entries_of(arranged(all.filter(is_dir), by_name())));
    out
}

/// Whether a rank comes before another: an exact match before any other
/// result, and among the rest, and among those, the shallower path first.
pub open spec fn rank_before(a: (bool, nat), b: (bool, nat)) -> bool {
    (!a.0 && b.0) || (a.0 == b.0 && a.1 < b.1)
}

/// The ranking of the results of a search for `query`.
pub open spec fn by_rank(query: Seq<char>) -> spec_fn(NamedView, NamedView) -> bool {
    |a: NamedView, b: NamedView|
        rank_before(rank_of(a.0, query, a.1.path), rank_of(b.0, query, b.1.path))
}

/// The results of a search for `query` that are returned: the best ranked
/// `limit` of what was gathered, the best first. Results of one rank keep
/// the order in which they were found.
pub open spec fn ranked(items: Seq<NamedView>, query: Seq<char>, limit: int) -> Seq<DirEntryView> {
    entries_of(first_n(arranged(items, by_rank(query)), limit))
}

/// Ranking by relevance is a ranking.
pub proof fn lemma_by_rank_ranks(query: Seq<char>)
    ensures
        ranks(by_rank(query)),
{
    let lt = by_rank(query);
    assert forall|a: NamedView, b: NamedView| #[trigger] lt(a, b) implies !lt(b, a) by {}
    assert forall|a: NamedView, b: NamedView, c: NamedView|
        !#[trigger] lt(a, b) && !#[trigger] lt(b, c) implies !lt(a, c) by {}
}

/// Among the ranked results of a search none stands behind a result that
/// it ranks before.
pub proof fn lemma_results_in_order(items: Seq<NamedView>, query: Seq<char>)
    ensures
        in_order(arranged(items, by_rank(query)), by_rank(query)),
{
    lemma_by_rank_ranks(query);
    lemma_arranged_in_order(items, by_rank(query));
}

/// Every result that is returned is one of those that were gathered.
pub proof fn lemma_ranked_are_found(items: Seq<NamedView>, query: Seq<char>, limit: int, j: int)
    requires
        0 <= j < ranked(items, query, limit).len(),
    ensures
        exists|i: int| 0 <= i < items.len() && (#[trigger] items[i]).1 == ranked(items, query, limit)[j],
{
    let sorted = arranged(items, by_rank(query));
    let kept = first_n(sorted, limit);
    assert(kept[j] == sorted[j]);
    assert(sorted.contains(sorted[j]));
    lemma_by_rank_ranks(query);
    lemma_arranged_holds_the_same(items, by_rank(query), sorted[j]);
    let i = choose|i: int| 0 <= i < items.len() && items[i] == sorted[j];
    assert(items[i].1 == ranked(items, query, limit)[j]);
}

/// Whether the first of two results of a search for `query` ranks before
/// the second.
fn ranks_before(a: &Named, b: &Named, query: &str) -> (r: bool)
    ensures
        r == by_rank(query@)(a.deep_view(), b.deep_view()),
{
    let ra = relevance(a.0.as_str(), query, a.1.path.as_str());
    let rb = relevance(b.0.as_str(), query, b.1.path.as_str());
    (!ra.0 && rb.0) || (ra.0 == rb.0 && ra.1 < rb.1)
}

/// Puts a result into a list behind every result that it does not rank
/// before.
fn place_by_rank(sorted: &mut Vec<Named>, item: Named, query: &str)
    ensures
        final(sorted).deep_view() == placed(
            old(sorted).deep_view(),
            item.deep_view(),
            by_rank(query@),
        ),
{
    let ghost before = sorted.deep_view();
    let ghost shown = item.deep_view();
    let mut i: usize = 0;
    while i < sorted.len() && !ranks_before(&item, &sorted[i], query)
        invariant
            i <= sorted.len(),
            sorted.deep_view() == before,
            shown == item.deep_view(),
            first_behind(before, shown, by_rank(query@), 0) == first_behind(
                before,
                shown,
                by_rank(query@),
                i as int,
            ),
        decreases sorted.len() - i,
    {
        assert(before[i as int] == sorted[i as int].deep_view());
        i += 1;
    }
    proof {
        if i < sorted.len() {
            assert(before[i as int] == sorted[i as int].deep_view());
        }
    }
    sorted.insert(i, item);
    assert(sorted.deep_view() =~= before.insert(i as int, shown));
}

/// Ranks what a search for `query` gathered and returns the best `limit`
/// of it, the best first.
pub fn rank_results(items: Vec<Named>, query: &str, limit: usize) -> (r: Vec<DirEntry>)
    ensures
        r.deep_view() == ranked(items.deep_view(), query@, limit as int),
        r.len() <= limit,
        forall|j: int|
            #![trigger r.deep_view()[j]]
            0 <= j < r.len() ==> exists|i: int|
                0 <= i < items.len() && (#[trigger] items.deep_view()[i]).1 == r.deep_view()[j],
{
    let ghost all = items.deep_view();
    let mut items = items;
    let mut sorted: Vec<Named> = Vec::new();
    let mut taken: usize = 0;
    let total = items.len();
    while items.len() > 0
        invariant
            taken + items.len() == total,
            total == all.len(),
            items.deep_view() =~= all.subrange(taken as int, total as int),
            sorted.deep_view() == arranged(all.take(taken as int), by_rank(query@)),
        decreases items.len(),
    {
        let ghost waiting = items.deep_view();
        let item = items.remove(0);
        proof {
            assert(waiting[0] == item.deep_view());
            assert(items.deep_view() =~= waiting.subrange(1, waiting.len() as int));
            assert(all.take(taken + 1) =~= all.take(taken as int).push(item.deep_view()));
            lemma_arranged_push(all.take(taken as int), item.deep_view(), by_rank(query@));
        }
        place_by_rank(&mut sorted, item, query);
        taken += 1;
    }
    assert(all.take(total as int) =~= all);
    let ghost whole = sorted.deep_view();
    if sorted.len() > limit {
        sorted.truncate(limit);
        assert(sorted.deep_view() =~= whole.take(limit as int));
    }
    let mut out: Vec<DirEntry> = Vec::new();
    assert(out.deep_view() =~= Seq::<DirEntryView>::empty());
    take_entries(sorted, &mut out);
    assert(out.deep_view() =~= entries_of(first_n(whole, limit as int)));
    assert forall|j: int| #![trigger out.deep_view()[j]] 0 <= j < out.len() implies exists|i: int|
        0 <= i < all.len() && (#[trigger] all[i]).1 == out.deep_view()[j] by {
        lemma_ranked_are_found(all, query@, limit as int, j);
    }
    out
}

} // verus!
