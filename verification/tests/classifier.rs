use repostat::classify::classify_line;
use repostat::classify::Classified;

#[test]
fn untracked_pair_goes_to_untracked() {
    match classify_line("?? new_file.txt") {
        Classified::Untracked(e) => {
            assert_eq!(e.index, '?');
            assert_eq!(e.worktree, '?');
            assert_eq!(e.path, " new_file.txt");
        },
        _ => panic!("expected untracked"),
    }
}

#[test]
fn worktree_modified_goes_to_changed() {
    assert!(matches!(classify_line("MM lib.rs"), Classified::Changed(_)));
}

#[test]
fn leading_space_code_is_lost_to_trimming() {
    // The line is trimmed first, so a leading-space index code shifts and
    // the remaining code is read as the index: such a line counts as staged.
    assert!(matches!(classify_line(" M lib.rs"), Classified::Staged(_)));
    assert!(matches!(classify_line(" D gone.rs"), Classified::Staged(_)));
}

#[test]
fn staged_and_modified_goes_to_changed() {
    // Worktree modification takes priority over the staged index code.
    assert!(matches!(classify_line("AM lib.rs"), Classified::Changed(_)));
}

#[test]
fn unmerged_and_modified_goes_to_changed() {
    // Worktree modification takes priority over the unmerged index code.
    assert!(matches!(classify_line("UM lib.rs"), Classified::Changed(_)));
}

#[test]
fn worktree_deleted_goes_to_deleted() {
    assert!(matches!(classify_line("AD gone.rs"), Classified::Deleted(_)));
}

#[test]
fn staged_and_deleted_goes_to_deleted() {
    assert!(matches!(classify_line("MD gone.rs"), Classified::Deleted(_)));
}

#[test]
fn unmerged_index_goes_to_conflicted() {
    assert!(matches!(classify_line("UU both.rs"), Classified::Conflicted(_)));
}

#[test]
fn unmerged_against_added_goes_to_conflicted() {
    assert!(matches!(classify_line("UA both.rs"), Classified::Conflicted(_)));
}

#[test]
fn staged_addition_goes_to_staged() {
    match classify_line("A  added.rs") {
        Classified::Staged(e) => {
            assert_eq!(e.index, 'A');
            assert_eq!(e.worktree, ' ');
            assert_eq!(e.path, " added.rs");
        },
        _ => panic!("expected staged"),
    }
}

#[test]
fn header_line_is_routed_to_header() {
    match classify_line("## main...origin/main") {
        Classified::Header(p) => assert_eq!(p, " main...origin/main"),
        _ => panic!("expected header"),
    }
}

#[test]
fn short_line_is_dropped() {
    assert!(matches!(classify_line("ab"), Classified::Dropped));
}

#[test]
fn blank_line_is_dropped() {
    assert!(matches!(classify_line("   "), Classified::Dropped));
}

#[test]
fn leading_whitespace_is_trimmed_before_codes() {
    // Trimming happens first, so the codes are read from the first
    // non-whitespace characters.
    assert!(matches!(classify_line("   x.rs"), Classified::Staged(_)));
}

#[test]
fn trailing_newline_is_trimmed() {
    assert!(matches!(classify_line("AM lib.rs\n"), Classified::Changed(_)));
}
