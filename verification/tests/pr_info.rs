use branchview::commits::{get_merge_commits, merge_log_window, parse_merge_commit, parse_pr_info};

fn info(number: Option<i32>, title: Option<&str>) -> (Option<i32>, Option<String>) {
    (number, title.map(|t| t.to_string()))
}

#[test]
fn merge_subject_names_number_and_branch() {
    assert_eq!(
        parse_pr_info("Merge pull request #123 from alice/feature-x"),
        info(Some(123), Some("alice/feature-x"))
    );
}

#[test]
fn parenthesized_number_with_title_before_it() {
    assert_eq!(parse_pr_info("Fix bug (#456)"), info(Some(456), Some("Fix bug")));
}

#[test]
fn bare_hash_number_gives_no_title() {
    assert_eq!(parse_pr_info("See issue #789 for details"), info(Some(789), None));
}

#[test]
fn subject_without_reference() {
    assert_eq!(parse_pr_info("No reference here"), info(None, None));
    assert_eq!(parse_pr_info(""), info(None, None));
}

#[test]
fn merge_subject_without_from() {
    assert_eq!(
        parse_pr_info("Merge pull request #12 into main"),
        info(Some(12), Some("into main"))
    );
}

#[test]
fn merge_subject_that_ends_after_the_number() {
    assert_eq!(parse_pr_info("Merge pull request #12"), info(Some(12), None));
    assert_eq!(parse_pr_info("Merge pull request #12 "), info(Some(12), Some("")));
}

#[test]
fn merge_subject_whose_number_is_too_large_falls_through() {
    assert_eq!(
        parse_pr_info("Merge pull request #99999999999 from a/b (#7)"),
        info(Some(7), Some("Merge pull request #99999999999 from a/b"))
    );
    assert_eq!(parse_pr_info("Merge pull request #99999999999 from a/b"), info(None, None));
}

#[test]
fn merge_subject_with_text_in_the_number_falls_through() {
    assert_eq!(parse_pr_info("Merge pull request #12a from a/b"), info(Some(12), None));
}

#[test]
fn signs_are_no_digits() {
    assert_eq!(parse_pr_info("Merge pull request #+5 from a/b"), info(None, None));
    assert_eq!(parse_pr_info("Fix (#-5)"), info(None, None));
}

#[test]
fn parenthesized_number_without_title() {
    assert_eq!(parse_pr_info("(#42)"), info(Some(42), None));
    assert_eq!(parse_pr_info("   (#42) tail"), info(Some(42), None));
}

#[test]
fn parenthesized_reference_may_stand_anywhere() {
    assert_eq!(parse_pr_info("a (#x) b (#12)"), info(Some(12), Some("a (#x) b")));
    assert_eq!(parse_pr_info("foo (#abc) bar (#12)"), info(Some(12), Some("foo (#abc) bar")));
    assert_eq!(parse_pr_info("(see) (# 1) fix (#7) now"), info(Some(7), Some("(see) (# 1) fix")));
    assert_eq!(parse_pr_info("(#12 ) (#13)"), info(Some(13), Some("(#12 )")));
    assert_eq!(parse_pr_info("((#4))"), info(Some(4), Some("(")));
}

#[test]
fn first_parenthesized_reference_decides() {
    assert_eq!(parse_pr_info("a (#1) b (#2)"), info(Some(1), Some("a")));
    assert_eq!(parse_pr_info("#9 then (#3)"), info(Some(3), Some("#9 then")));
}

#[test]
fn reference_needs_digits_and_both_parentheses() {
    assert_eq!(parse_pr_info("(#) and #5"), info(Some(5), None));
    assert_eq!(parse_pr_info("(#12 ) only"), info(Some(12), None));
    assert_eq!(parse_pr_info("(#12a)"), info(Some(12), None));
    assert_eq!(parse_pr_info("( #12)"), info(Some(12), None));
}

#[test]
fn reference_whose_number_is_too_large_goes_to_the_third_form() {
    assert_eq!(parse_pr_info("x (#99999999999) y (#5)"), info(Some(5), None));
    assert_eq!(parse_pr_info("x (#2147483648)"), info(None, None));
    assert_eq!(parse_pr_info("x (#2147483647)"), info(Some(2147483647), Some("x")));
}

#[test]
fn unclosed_parenthesis_falls_through() {
    assert_eq!(parse_pr_info("Fix (#31"), info(Some(31), None));
}

#[test]
fn first_hash_with_digits_wins() {
    assert_eq!(parse_pr_info("# #x #45 #46"), info(Some(45), None));
    assert_eq!(parse_pr_info("#99999999999 then #8"), info(Some(8), None));
}

#[test]
fn largest_number_that_fits() {
    assert_eq!(parse_pr_info("#2147483647"), info(Some(2147483647), None));
    assert_eq!(parse_pr_info("#2147483648"), info(None, None));
    assert_eq!(parse_pr_info("#0007"), info(Some(7), None));
}

#[test]
fn merge_line_is_split_into_four_fields() {
    let node = parse_merge_commit(
        "0123456789abcdef0123456789abcdef01234567|0123456|Merge pull request #5 from bob/topic|2024-03-01T10:00:00+00:00",
    )
    .unwrap();
    assert_eq!(node.full_sha, "0123456789abcdef0123456789abcdef01234567");
    assert_eq!(node.sha, "0123456");
    assert_eq!(node.pr_number, Some(5));
    assert_eq!(node.pr_title, Some("bob/topic".to_string()));
    assert_eq!(node.date, "2024-03-01T10:00:00+00:00");
}

#[test]
fn merge_line_with_too_few_fields() {
    assert!(parse_merge_commit("abc|ab|subject").is_none());
    assert!(parse_merge_commit("").is_none());
    assert!(parse_merge_commit("abc").is_none());
}

#[test]
fn merge_line_keeps_further_bars_in_the_last_field() {
    let node = parse_merge_commit("a|b|c|d|e").unwrap();
    assert_eq!(node.full_sha, "a");
    assert_eq!(node.sha, "b");
    assert_eq!(node.pr_number, None);
    assert_eq!(node.pr_title, None);
    assert_eq!(node.date, "d|e");
}

fn history() -> Vec<String> {
    vec![
        "f3|s3|Merge pull request #3 from a/three|2024-03-03T00:00:00Z".to_string(),
        "f2|s2|Second change (#2)|2024-03-02T00:00:00Z".to_string(),
        "f1|s1|Merge branch 'one'|2024-03-01T00:00:00Z".to_string(),
    ]
}

fn listing(history: &[String], page: u32, per_page: u32) -> String {
    let (skip, limit) = merge_log_window(page, per_page);
    let mut out = String::new();
    for line in history.iter().skip(skip as usize).take(limit as usize) {
        out.push_str(line);
        out.push('\n');
    }
    out
}

#[test]
fn first_page_of_three_commits_has_more() {
    let (nodes, has_more) = get_merge_commits(&listing(&history(), 0, 2), 2);
    assert_eq!(nodes.len(), 2);
    assert!(has_more);
    assert_eq!(nodes[0].sha, "s3");
    assert_eq!(nodes[0].pr_number, Some(3));
    assert_eq!(nodes[1].sha, "s2");
    assert_eq!(nodes[1].pr_title, Some("Second change".to_string()));
}

#[test]
fn second_page_of_three_commits_is_the_last() {
    let (nodes, has_more) = get_merge_commits(&listing(&history(), 1, 2), 2);
    assert_eq!(nodes.len(), 1);
    assert!(!has_more);
    assert_eq!(nodes[0].sha, "s1");
    assert_eq!(nodes[0].pr_number, None);
}

#[test]
fn window_skips_whole_pages_and_asks_for_one_more() {
    assert_eq!(merge_log_window(0, 2), (0, 3));
    assert_eq!(merge_log_window(1, 2), (2, 3));
    assert_eq!(merge_log_window(3, 25), (75, 26));
    assert_eq!(merge_log_window(4294967295, 4294967295), (18446744065119617025, 4294967296));
}

#[test]
fn page_never_holds_more_than_asked_for() {
    let all = history().join("\n");
    let (nodes, has_more) = get_merge_commits(&all, 1);
    assert_eq!(nodes.len(), 1);
    assert!(has_more);
    let (nodes, has_more) = get_merge_commits(&all, 0);
    assert_eq!(nodes.len(), 0);
    assert!(has_more);
    let (nodes, has_more) = get_merge_commits("", 0);
    assert_eq!(nodes.len(), 0);
    assert!(!has_more);
}

#[test]
fn empty_and_malformed_lines_are_passed_over() {
    let text = "\nf2|s2|x|d2\r\n\nnot a commit\nf1|s1|y (#9)|d1";
    let (nodes, has_more) = get_merge_commits(text, 5);
    assert!(!has_more);
    assert_eq!(nodes.len(), 2);
    assert_eq!(nodes[0].date, "d2");
    assert_eq!(nodes[1].pr_number, Some(9));
    assert_eq!(nodes[1].date, "d1");
}
