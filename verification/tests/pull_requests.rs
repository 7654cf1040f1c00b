use branchview::cli::GitError;
use branchview::github::{
    closed_fetch_limit, get_github_info, get_merged_prs, get_pr_commits, short_sha, short_shas,
    PullRequestRecord,
};

fn record(number: i64, merged_at: Option<&str>, sha: Option<&str>) -> PullRequestRecord {
    PullRequestRecord {
        number,
        title: format!("Change {}", number),
        state: "closed".to_string(),
        merged_at: merged_at.map(|s| s.to_string()),
        created_at: "2024-01-01T00:00:00Z".to_string(),
        merge_commit_sha: sha.map(|s| s.to_string()),
        commits: Some(number + 1),
        branch_name: format!("topic-{}", number),
        author_login: "ann".to_string(),
        author_avatar: "https://example.org/ann.png".to_string(),
    }
}

fn hashes(list: &[&str]) -> Vec<String> {
    list.iter().map(|s| s.to_string()).collect()
}

#[test]
fn merged_pull_request_is_reshaped() {
    let merged = get_merged_prs(&vec![record(7, Some("2024-02-02T00:00:00Z"), Some("abc"))], 10);
    assert_eq!(merged.len(), 1);
    let pr = &merged[0];
    assert_eq!(pr.number, 7);
    assert_eq!(pr.title, "Change 7");
    assert_eq!(pr.branch_name, "topic-7");
    assert_eq!(pr.author_login, "ann");
    assert_eq!(pr.author_avatar, "https://example.org/ann.png");
    assert_eq!(pr.created_at, "2024-01-01T00:00:00Z");
    assert_eq!(pr.merged_at, "2024-02-02T00:00:00Z");
    assert_eq!(pr.merge_commit_sha, "abc");
    assert_eq!(pr.commit_count, 8);
}

#[test]
fn unmerged_pull_request_is_never_returned() {
    let records = vec![
        record(1, None, Some("a1")),
        record(2, Some("2024-02-02T00:00:00Z"), Some("a2")),
        record(3, None, None),
        record(4, Some("2024-02-04T00:00:00Z"), None),
        record(5, Some("2024-02-05T00:00:00Z"), Some("a5")),
    ];
    let merged = get_merged_prs(&records, 10);
    let numbers: Vec<i64> = merged.iter().map(|pr| pr.number).collect();
    assert_eq!(numbers, vec![2, 5]);
}

#[test]
fn at_most_limit_pull_requests_are_returned() {
    let records: Vec<PullRequestRecord> = (1..=6)
        .map(|n| record(n, if n % 2 == 0 { None } else { Some("2024-02-02T00:00:00Z") }, Some("s")))
        .collect();
    let numbers = |limit: usize| -> Vec<i64> {
        get_merged_prs(&records, limit).iter().map(|pr| pr.number).collect()
    };
    assert_eq!(numbers(0), Vec::<i64>::new());
    assert_eq!(numbers(1), vec![1]);
    assert_eq!(numbers(2), vec![1, 3]);
    assert_eq!(numbers(3), vec![1, 3, 5]);
    assert_eq!(numbers(4), vec![1, 3, 5]);
    assert!(get_merged_prs(&Vec::new(), 5).is_empty());
}

#[test]
fn missing_commit_count_is_one() {
    let mut r = record(9, Some("2024-02-02T00:00:00Z"), Some("abc"));
    r.commits = None;
    assert_eq!(get_merged_prs(&vec![r], 1)[0].commit_count, 1);
}

#[test]
fn twice_as_many_closed_pull_requests_are_asked_for() {
    assert_eq!(closed_fetch_limit(0), 0);
    assert_eq!(closed_fetch_limit(50), 100);
    assert_eq!(closed_fetch_limit(usize::MAX / 2), usize::MAX - 1);
}

#[test]
fn hash_is_cut_to_seven_characters() {
    assert_eq!(short_sha("0123456789abcdef"), "0123456");
    assert_eq!(short_sha("0123456"), "0123456");
    assert_eq!(short_sha("01234567"), "0123456");
    assert_eq!(short_sha("abc"), "abc");
    assert_eq!(short_sha(""), "");
    assert_eq!(short_sha("äöüäöüäöü"), "äöüäöüä");
    assert_eq!(
        short_shas(&hashes(&["0123456789", "ab", "fedcba9876543210"])),
        hashes(&["0123456", "ab", "fedcba9"])
    );
}

#[test]
fn commits_are_gathered_by_pull_request() {
    let map = get_pr_commits(&vec![
        (11, Some(hashes(&["aaaaaaaaaaaa", "bbbbbbbbbbbb"]))),
        (12, Some(hashes(&[]))),
        (13, Some(hashes(&["cccc"]))),
    ]);
    assert_eq!(map.len(), 3);
    assert_eq!(map[&11], hashes(&["aaaaaaa", "bbbbbbb"]));
    assert_eq!(map[&12], hashes(&[]));
    assert_eq!(map[&13], hashes(&["cccc"]));
}

#[test]
fn one_failed_lookup_leaves_one_entry_fewer() {
    let map = get_pr_commits(&vec![
        (11, Some(hashes(&["aaaaaaaaaaaa"]))),
        (12, None),
        (13, Some(hashes(&["cccccccccccc"]))),
        (14, Some(hashes(&["dddddddddddd"]))),
    ]);
    assert_eq!(map.len(), 3);
    assert!(!map.contains_key(&12));
    assert_eq!(map[&14], hashes(&["ddddddd"]));
    assert_eq!(get_pr_commits(&vec![(1, None)]).len(), 0);
    assert_eq!(get_pr_commits(&Vec::new()).len(), 0);
}

#[test]
fn later_lookup_for_a_number_decides() {
    let map = get_pr_commits(&vec![
        (7, Some(hashes(&["aaaaaaaaaaaa"]))),
        (7, None),
        (8, Some(hashes(&["bbbbbbbbbbbb"]))),
        (8, Some(hashes(&["cccccccccccc"]))),
    ]);
    assert_eq!(map.len(), 2);
    assert_eq!(map[&7], hashes(&["aaaaaaa"]));
    assert_eq!(map[&8], hashes(&["ccccccc"]));
}

#[test]
fn repository_is_told_from_the_remote() {
    let info = get_github_info(Ok("git@github.com:owner/repo.git\n".to_string()), true).unwrap();
    assert_eq!(info.owner, "owner");
    assert_eq!(info.repo, "repo");
    assert!(info.gh_available);
    let info = get_github_info(Ok("https://github.com/o/r".to_string()), false).unwrap();
    assert_eq!(info.owner, "o");
    assert_eq!(info.repo, "r");
    assert!(!info.gh_available);
}

#[test]
fn unreadable_remote_is_reported() {
    assert_eq!(
        get_github_info(Ok("  https://gitlab.com/o/r.git\n".to_string()), true).unwrap_err(),
        "Could not parse GitHub info from remote URL: https://gitlab.com/o/r.git"
    );
}

#[test]
fn failed_remote_query_is_reported() {
    assert_eq!(
        get_github_info(Err(GitError::CommandFailed("no remote".to_string())), true).unwrap_err(),
        "Failed to get remote URL: git command failed: no remote"
    );
    assert_eq!(
        get_github_info(Err(GitError::GitNotFound), false).unwrap_err(),
        "Failed to get remote URL: git not found - is git installed?"
    );
}
