use branchview::browse::{
    arrange_listing, dev_folder_names, found_repo, is_hidden, is_skipped_folder, listed_entry,
    may_search, rank_results, relevance, search_bounds, visit, DirEntry, Named, Visit,
};

fn named(name: &str, path: &str, is_dir: bool) -> Named {
    (
        name.to_lowercase(),
        DirEntry { name: name.to_string(), path: path.to_string(), is_dir, is_repo: false },
    )
}

fn names(entries: &[DirEntry]) -> Vec<String> {
    entries.iter().map(|e| e.name.clone()).collect()
}

fn paths(entries: &[DirEntry]) -> Vec<String> {
    entries.iter().map(|e| e.path.clone()).collect()
}

#[test]
fn names_with_a_leading_dot_are_hidden() {
    assert!(is_hidden(".git"));
    assert!(is_hidden("."));
    assert!(!is_hidden("git"));
    assert!(!is_hidden("a.b"));
    assert!(!is_hidden(""));
}

#[test]
fn hidden_entries_are_not_listed() {
    assert!(listed_entry(".cache".to_string(), "/h/.cache".to_string(), true, false).is_none());
    let e = listed_entry("tool".to_string(), "/h/tool".to_string(), true, true).unwrap();
    assert_eq!(e.name, "tool");
    assert_eq!(e.path, "/h/tool");
    assert!(e.is_dir);
    assert!(e.is_repo);
    let e = listed_entry("docs".to_string(), "/h/docs".to_string(), true, false).unwrap();
    assert!(e.is_dir && !e.is_repo);
    let e = listed_entry("notes.txt".to_string(), "/h/notes.txt".to_string(), false, true).unwrap();
    assert!(!e.is_dir && !e.is_repo);
}

#[test]
fn system_and_build_folders_are_skipped() {
    for name in [
        "Library", "Applications", "System", "Volumes", "cores", "private", "node_modules",
        "target", "build", "dist", "vendor", ".git", "__pycache__", "venv", ".venv", "env",
        ".cargo", ".rustup", ".npm", ".cache", "Caches", "Movies", "Music", "Pictures",
        "Photos Library.photoslibrary",
    ] {
        assert!(is_skipped_folder(name), "{}", name);
    }
    for name in ["library", "src", "Target", "targets", "", "Photos Library", "node_module"] {
        assert!(!is_skipped_folder(name), "{}", name);
    }
}

#[test]
fn development_folders_in_order() {
    assert_eq!(
        dev_folder_names(),
        vec![
            "dev", "projects", "code", "repos", "src", "workspace", "work", "github", "gitlab",
            "Development", "Documents", "Desktop",
        ]
    );
}

#[test]
fn search_takes_matching_repositories() {
    assert_eq!(visit("MyTool", "mytool", true, true, "tool"), Visit::Take);
    assert_eq!(visit("MyTool", "mytool", true, true, "my"), Visit::Take);
    assert_eq!(visit("MyTool", "mytool", true, true, "mytool"), Visit::Take);
    assert_eq!(visit("MyTool", "mytool", true, true, ""), Visit::Take);
    assert_eq!(visit("MyTool", "mytool", true, true, "other"), Visit::Skip);
    assert_eq!(visit("MyTool", "mytool", true, true, "mytools"), Visit::Skip);
}

#[test]
fn search_enters_plain_directories_only() {
    assert_eq!(visit("work", "work", true, false, "tool"), Visit::Descend);
    assert_eq!(visit("tool.txt", "tool.txt", false, false, "tool"), Visit::Skip);
    assert_eq!(visit(".tool", ".tool", true, true, "tool"), Visit::Skip);
    assert_eq!(visit("target", "target", true, false, "tool"), Visit::Skip);
    assert_eq!(visit("node_modules", "node_modules", true, true, "node"), Visit::Skip);
}

#[test]
fn search_bounds_have_defaults() {
    assert_eq!(search_bounds(None, None), (6, 20, 60));
    assert_eq!(search_bounds(Some(2), Some(5)), (2, 5, 15));
    assert_eq!(search_bounds(Some(0), Some(0)), (0, 0, 0));
}

#[test]
fn search_stops_at_depth_and_limit() {
    assert!(may_search(0, 6, 0, 60));
    assert!(may_search(6, 6, 59, 60));
    assert!(!may_search(7, 6, 0, 60));
    assert!(!may_search(0, 6, 60, 60));
    assert!(!may_search(0, 0, 0, 0));
}

#[test]
fn exact_matches_rank_first_then_shallow_paths() {
    assert_eq!(relevance("tool", "tool", "/h/dev/tool"), (false, 3));
    assert_eq!(relevance("mytool", "tool", "/h/mytool"), (true, 2));
    assert_eq!(relevance("x", "", "x"), (true, 0));
    assert_eq!(relevance("", "", "//"), (false, 2));
    let mut found = vec![
        ("mytool", "/h/a/b/mytool"),
        ("tool", "/h/a/b/c/tool"),
        ("tools", "/h/tools"),
        ("tool", "/h/tool"),
    ];
    found.sort_by_key(|(name, path)| relevance(name, "tool", path));
    assert_eq!(
        found,
        vec![
            ("tool", "/h/tool"),
            ("tool", "/h/a/b/c/tool"),
            ("tools", "/h/tools"),
            ("mytool", "/h/a/b/mytool"),
        ]
    );
}

#[test]
fn listing_has_directories_first_and_ignores_case() {
    let listed = arrange_listing(vec![
        named("zeta.txt", "/d/zeta.txt", false),
        named("Beta", "/d/Beta", true),
        named("alpha", "/d/alpha", true),
        named("Alpha.md", "/d/Alpha.md", false),
        named("gamma", "/d/gamma", true),
        named("beta.rs", "/d/beta.rs", false),
    ]);
    assert_eq!(names(&listed), vec!["alpha", "Beta", "gamma", "Alpha.md", "beta.rs", "zeta.txt"]);
    assert!(listed[0].is_dir && listed[2].is_dir && !listed[3].is_dir);
    assert!(arrange_listing(Vec::new()).is_empty());
}

#[test]
fn names_that_differ_in_case_only_keep_their_order() {
    let listed = arrange_listing(vec![
        named("readme", "/d/1", false),
        named("README", "/d/2", false),
        named("Readme", "/d/3", false),
        named("a", "/d/4", false),
        named("src", "/d/5", true),
        named("SRC", "/d/6", true),
    ]);
    assert_eq!(paths(&listed), vec!["/d/5", "/d/6", "/d/4", "/d/1", "/d/2", "/d/3"]);
}

#[test]
fn listing_agrees_with_a_stable_sort() {
    let all = ["b", "B", "a", "ab", "Ab", "", "Z", "z", "ä", "Ä", "10", "9", "_x", "a b", "A"];
    let mut items = Vec::new();
    for (i, name) in all.iter().enumerate() {
        items.push(named(name, &format!("/d/{}", i), i % 3 == 0));
    }
    let mut dirs: Vec<(String, String)> = Vec::new();
    let mut files: Vec<(String, String)> = Vec::new();
    for (lower, e) in &items {
        if e.is_dir {
            dirs.push((lower.clone(), e.path.clone()));
        } else {
            files.push((lower.clone(), e.path.clone()));
        }
    }
    dirs.sort_by(|a, b| a.0.cmp(&b.0));
    files.sort_by(|a, b| a.0.cmp(&b.0));
    dirs.extend(files);
    let expected: Vec<String> = dirs.into_iter().map(|p| p.1).collect();
    assert_eq!(paths(&arrange_listing(items)), expected);
}

#[test]
fn results_are_ranked_and_cut() {
    let found = || {
        vec![
            named("mytool", "/h/a/b/mytool", true),
            named("Tool", "/h/a/b/c/tool", true),
            named("tools", "/h/tools", true),
            named("tool", "/h/tool", true),
            named("toolbox", "/h/toolbox", true),
        ]
    };
    let ranked = rank_results(found(), "tool", 10);
    assert_eq!(
        paths(&ranked),
        vec!["/h/tool", "/h/a/b/c/tool", "/h/tools", "/h/toolbox", "/h/a/b/mytool"]
    );
    assert_eq!(paths(&rank_results(found(), "tool", 2)), vec!["/h/tool", "/h/a/b/c/tool"]);
    assert_eq!(paths(&rank_results(found(), "tool", 5)).len(), 5);
    assert!(rank_results(found(), "tool", 0).is_empty());
    assert!(rank_results(Vec::new(), "tool", 3).is_empty());
    assert_eq!(
        paths(&rank_results(found(), "", 3)),
        vec!["/h/tools", "/h/tool", "/h/toolbox"]
    );
}

#[test]
fn ranking_agrees_with_a_stable_sort() {
    let all = [
        ("x", "/a/b/c/x"), ("x", "/a/x"), ("y", "/y"), ("xy", "/a/b/xy"), ("x", "/a/b/c/d/x"),
        ("z", "/a/z"), ("x", "/q/x"), ("y", "/a/b/c/y"), ("w", "w"), ("x", "x"),
    ];
    for query in ["x", "y", "", "none"] {
        for limit in [0usize, 1, 3, 10, 20] {
            let items: Vec<Named> = all.iter().map(|(n, p)| named(n, p, true)).collect();
            let mut expected: Vec<(String, String)> =
                all.iter().map(|(n, p)| (n.to_string(), p.to_string())).collect();
            expected.sort_by(|a, b| {
                let a_exact = a.0 == query;
                let b_exact = b.0 == query;
                if a_exact != b_exact {
                    return b_exact.cmp(&a_exact);
                }
                a.1.matches('/').count().cmp(&b.1.matches('/').count())
            });
            expected.truncate(limit);
            let expected: Vec<String> = expected.into_iter().map(|p| p.1).collect();
            assert_eq!(paths(&rank_results(items, query, limit)), expected);
        }
    }
}

#[test]
fn a_found_repository_is_a_directory_and_a_repository() {
    let e = found_repo("Tool".to_string(), "/h/dev/Tool".to_string());
    assert_eq!(e.name, "Tool");
    assert_eq!(e.path, "/h/dev/Tool");
    assert!(e.is_dir);
    assert!(e.is_repo);
    let ranked = rank_results(
        vec![
            ("tool".to_string(), found_repo("Tool".to_string(), "/h/dev/Tool".to_string())),
            ("tools".to_string(), found_repo("tools".to_string(), "/h/tools".to_string())),
        ],
        "tool",
        20,
    );
    assert_eq!(paths(&ranked), vec!["/h/dev/Tool", "/h/tools"]);
    assert!(ranked.iter().all(|e| e.is_dir && e.is_repo));
}
