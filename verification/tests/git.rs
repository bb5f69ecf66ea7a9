use cucina::git::{natural_cmp, parse_worktrees, worktree_paths};
use std::cmp::Ordering;

#[test]
fn digit_runs_compare_by_value() {
    assert_eq!(natural_cmp("feat-64-a", "feat-522-a"), Ordering::Less);
    assert_eq!(natural_cmp("feat-617-x", "feat-585-y"), Ordering::Greater);
}

#[test]
fn text_compares_case_insensitively() {
    assert_eq!(natural_cmp("feat-agent", "feat-464"), Ordering::Greater);
    assert_eq!(natural_cmp("main", "MAIN"), Ordering::Equal);
}

const PORCELAIN: &str = "\
worktree /repo
HEAD abc123def4567890
branch refs/heads/main

worktree /repo/.wt/feat-64
HEAD 1111111111111111
branch refs/heads/feat-64

worktree /repo/.wt/feat-522
HEAD 2222222222222222
branch refs/heads/feat-522

worktree /repo/.wt/detached
HEAD 9876543210abcdef

";

#[test]
fn keeps_the_main_worktree_first_and_sorts_the_rest() {
    let found = parse_worktrees(PORCELAIN, None, &[]);
    let branches: Vec<&str> = found.iter().map(|w| w.branch.as_str()).collect();
    assert_eq!(branches, vec!["main", "9876543", "feat-64", "feat-522"]);
    assert!(found[0].is_main);
    assert!(!found[1].is_main);
}

#[test]
fn names_a_detached_head_by_its_commit() {
    let found = parse_worktrees(PORCELAIN, None, &[]);
    let detached = found.iter().find(|w| w.path.ends_with("detached")).unwrap();
    assert_eq!(detached.branch, "9876543");
}

#[test]
fn marks_the_worktree_we_asked_from_as_current() {
    let here = Some("/repo/.wt/feat-64".to_string());
    let found = parse_worktrees(PORCELAIN, here, &[]);
    let current: Vec<&str> = found
        .iter()
        .filter(|w| w.is_current)
        .map(|w| w.branch.as_str())
        .collect();
    assert_eq!(current, vec!["feat-64"]);
}

#[test]
fn yields_nothing_for_empty_output() {
    assert!(parse_worktrees("", None, &[]).is_empty());
}

#[test]
fn numbers_too_long_for_u128_compare_as_text() {
    let a = format!("v{}", "9".repeat(40));
    let b = format!("v{}", "1".repeat(41));
    assert_eq!(natural_cmp(&a, &b), Ordering::Greater);
    assert_eq!(natural_cmp("a007", "a7"), Ordering::Equal);
    assert_eq!(natural_cmp("a", "ab"), Ordering::Less);
}

#[test]
fn a_canonical_path_is_what_marks_the_current_worktree() {
    let canonical = vec![None, Some("/real/feat-64".to_string())];
    let here = Some("/real/feat-64".to_string());
    let found = parse_worktrees(PORCELAIN, here, &canonical);
    let current: Vec<&str> = found
        .iter()
        .filter(|w| w.is_current)
        .map(|w| w.branch.as_str())
        .collect();
    assert_eq!(current, vec!["feat-64"]);
    // Paths compare by component, so a trailing slash still matches.
    let found = parse_worktrees(PORCELAIN, Some("/repo/".to_string()), &[]);
    assert!(found[0].is_current);
}

#[test]
fn lists_record_paths_in_git_order() {
    assert_eq!(
        worktree_paths(PORCELAIN),
        vec!["/repo", "/repo/.wt/feat-64", "/repo/.wt/feat-522", "/repo/.wt/detached"]
    );
}

#[test]
fn a_record_without_a_blank_line_after_it_is_still_read() {
    let found = parse_worktrees("worktree /x\nbranch refs/heads/dev", None, &[]);
    assert_eq!(found.len(), 1);
    assert_eq!(found[0].branch, "dev");
}
