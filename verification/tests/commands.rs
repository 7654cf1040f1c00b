use branchview::cli::{launch_error, read_output, GitError};
use branchview::commands::{get_merge_nodes, merged_limit, repo_info};

#[test]
fn every_error_has_its_sentence() {
    assert_eq!(GitError::GitNotFound.message(), "git not found - is git installed?");
    assert_eq!(GitError::NotARepo("/tmp/x".to_string()).message(), "not a git repository: /tmp/x");
    assert_eq!(
        GitError::CommandFailed("fatal: bad".to_string()).message(),
        "git command failed: fatal: bad"
    );
    assert_eq!(GitError::InvalidUtf8.message(), "invalid utf-8 in git output");
    assert_eq!(
        GitError::InvalidPath("/tmp/\u{fffd}".to_string()).message(),
        "path contains invalid UTF-8: /tmp/\u{fffd}"
    );
}

#[test]
fn output_of_a_successful_command() {
    let out = read_output("/r", true, Some("text\n".to_string()), "warning".to_string());
    assert_eq!(out.unwrap(), "text\n");
    let out = read_output("/r", true, Some(String::new()), "not a git repository".to_string());
    assert_eq!(out.unwrap(), "");
}

#[test]
fn output_that_is_no_text() {
    assert!(matches!(read_output("/r", true, None, String::new()), Err(GitError::InvalidUtf8)));
}

#[test]
fn failure_outside_a_repository() {
    let out = read_output(
        "/home/ann/x",
        false,
        Some("ignored".to_string()),
        "fatal: not a git repository (or any of the parent directories): .git\n".to_string(),
    );
    match out {
        Err(GitError::NotARepo(path)) => assert_eq!(path, "/home/ann/x"),
        other => panic!("unexpected {:?}", other),
    }
    let out = read_output("/r", false, None, "not a git repository".to_string());
    assert!(matches!(out, Err(GitError::NotARepo(_))));
}

#[test]
fn other_failure_carries_the_diagnostic() {
    match read_output("/r", false, None, "fatal: bad revision\n".to_string()) {
        Err(GitError::CommandFailed(detail)) => assert_eq!(detail, "fatal: bad revision\n"),
        other => panic!("unexpected {:?}", other),
    }
    match read_output("/r", false, Some("x".to_string()), "Not A Git Repository".to_string()) {
        Err(GitError::CommandFailed(detail)) => assert_eq!(detail, "Not A Git Repository"),
        other => panic!("unexpected {:?}", other),
    }
    match read_output("/r", false, None, String::new()) {
        Err(GitError::CommandFailed(detail)) => assert_eq!(detail, ""),
        other => panic!("unexpected {:?}", other),
    }
}

#[test]
fn tool_that_cannot_be_started() {
    assert!(matches!(launch_error(true, "No such file".to_string()), GitError::GitNotFound));
    match launch_error(false, "Permission denied".to_string()) {
        GitError::CommandFailed(detail) => assert_eq!(detail, "Permission denied"),
        other => panic!("unexpected {:?}", other),
    }
}

#[test]
fn repository_info_or_sentence() {
    let info = repo_info(Ok("/home/ann/tool\n".to_string())).unwrap();
    assert_eq!(info.name, "tool");
    assert_eq!(info.path, "/home/ann/tool");
    let info = repo_info(Ok("/\n".to_string())).unwrap();
    assert_eq!(info.name, "unknown");
    assert_eq!(info.path, "/");
    assert_eq!(
        repo_info(Err(GitError::NotARepo("/tmp".to_string()))).unwrap_err(),
        "not a git repository: /tmp"
    );
}

#[test]
fn merge_nodes_or_sentence() {
    let history = "f3|s3|Merge pull request #3 from a/b|d3\nf2|s2|x (#2)|d2\nf1|s1|y|d1\n";
    let page = get_merge_nodes(Ok(history.to_string()), 2).unwrap();
    assert!(page.has_more);
    assert_eq!(page.nodes.len(), 2);
    assert_eq!(page.nodes[0].pr_number, Some(3));
    assert_eq!(page.nodes[1].pr_number, Some(2));
    let page = get_merge_nodes(Ok(history.to_string()), 3).unwrap();
    assert!(!page.has_more);
    assert_eq!(page.nodes.len(), 3);
    assert_eq!(
        get_merge_nodes(Err(GitError::CommandFailed("bad branch".to_string())), 2).unwrap_err(),
        "git command failed: bad branch"
    );
}

#[test]
fn fifty_merged_pull_requests_by_default() {
    assert_eq!(merged_limit(None), 50);
    assert_eq!(merged_limit(Some(7)), 7);
    assert_eq!(merged_limit(Some(0)), 0);
}
