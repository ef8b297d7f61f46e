use repostat::header::BranchState;
use repostat::stash::count_lines;
use repostat::stash::stash_log_path;
use repostat::summary::is_clean;
use repostat::summary::render;
use repostat::summary::scan_status;
use repostat::summary::summarize;
use repostat::summary::RunSummary;

#[test]
fn empty_status_output_is_clean() {
    let lines: Vec<String> = Vec::new();
    let scan = scan_status(&lines);
    assert!(matches!(scan.branch, BranchState::Unset));
    assert_eq!(scan.ahead, 0);
    assert_eq!(scan.behind, 0);
    let s = summarize(&scan, None, 0);
    assert_eq!(s.staged, 0);
    assert_eq!(s.conflicts, 0);
    assert_eq!(s.changed, 0);
    assert_eq!(s.untracked, 0);
    assert_eq!(s.deleted, 0);
    assert_eq!(s.clean, 1);
    assert!(s.branch.is_none());
    let out = render(&s);
    assert_eq!(out, " 0 0 0 0 0 0 0 1 0");
}

#[test]
fn full_scan_counts_every_bucket() {
    let lines: Vec<String> = vec![
        "## main...origin/main [ahead 2, behind 1]".to_string(),
        "?? new.txt".to_string(),
        "AM mod.txt".to_string(),
        "MM also_mod.txt".to_string(),
        "A  staged.txt".to_string(),
        "UU conflict.txt".to_string(),
        "MD gone.txt".to_string(),
        "".to_string(),
    ];
    let scan = scan_status(&lines);
    match &scan.branch {
        BranchState::Named(b) => assert_eq!(b, "main"),
        _ => panic!("expected a named branch"),
    }
    assert_eq!(scan.ahead, 2);
    assert_eq!(scan.behind, 1);
    assert_eq!(scan.untracked.len(), 1);
    assert_eq!(scan.changed.len(), 2);
    assert_eq!(scan.staged.len(), 1);
    assert_eq!(scan.conflicts.len(), 1);
    assert_eq!(scan.deleted.len(), 1);
    assert_eq!(scan.untracked[0].path, " new.txt");
    let s = summarize(&scan, None, 3);
    assert_eq!(s.clean, 0);
    let out = render(&s);
    assert_eq!(out, "main 2 1 1 1 2 1 3 0 1");
}

#[test]
fn detached_scan_takes_resolved_label() {
    let lines: Vec<String> = vec!["## HEAD (no branch)".to_string()];
    let scan = scan_status(&lines);
    assert!(matches!(scan.branch, BranchState::Detached));
    let s = summarize(&scan, Some("v2.0+".to_string()), 0);
    assert_eq!(s.branch.as_deref(), Some("v2.0+"));
    let out = render(&s);
    assert_eq!(out, "v2.0+ 0 0 0 0 0 0 0 1 0");
}

#[test]
fn clean_flag_is_one_only_when_all_buckets_empty() {
    let empty: Vec<repostat::classify::StatusEntry> = Vec::new();
    assert_eq!(is_clean(&empty, &empty, &empty, &empty, &empty), 1);
    let one = vec![repostat::classify::StatusEntry {
        index: 'A',
        worktree: ' ',
        path: " x".to_string(),
    }];
    assert_eq!(is_clean(&one, &empty, &empty, &empty, &empty), 0);
    assert_eq!(is_clean(&empty, &one, &empty, &empty, &empty), 0);
    assert_eq!(is_clean(&empty, &empty, &one, &empty, &empty), 0);
    assert_eq!(is_clean(&empty, &empty, &empty, &one, &empty), 0);
    assert_eq!(is_clean(&empty, &empty, &empty, &empty, &one), 0);
}

#[test]
fn render_large_counts_exactly() {
    let s = RunSummary {
        branch: Some("feature/x".to_string()),
        ahead: 4294967295,
        behind: 10,
        staged: 0,
        conflicts: 7,
        changed: 105,
        untracked: 9,
        stash: 12,
        clean: 0,
        deleted: 1000,
    };
    let out = render(&s);
    assert_eq!(out, "feature/x 4294967295 10 0 7 105 9 12 0 1000");
}

#[test]
fn count_lines_matches_a_line_reader() {
    assert_eq!(count_lines(""), 0);
    assert_eq!(count_lines("a"), 1);
    assert_eq!(count_lines("a\n"), 1);
    assert_eq!(count_lines("a\nb"), 2);
    assert_eq!(count_lines("a\nb\n"), 2);
    assert_eq!(count_lines("\n\n"), 2);
}

#[test]
fn stash_path_is_under_metadata_dir() {
    assert_eq!(stash_log_path(".git\n"), ".git/logs/refs/stash");
    assert_eq!(
        stash_log_path("/repo/.git"),
        "/repo/.git/logs/refs/stash"
    );
}
