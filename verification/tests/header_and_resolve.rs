use repostat::header::parse_header;
use repostat::header::BranchState;
use repostat::resolve::resolve_ref_label;

fn named(r: &(BranchState, u32, u32)) -> String {
    match &r.0 {
        BranchState::Named(s) => s.clone(),
        _ => panic!("expected a named branch"),
    }
}

#[test]
fn divergence_both_counts() {
    let r = parse_header(" main...origin/main [ahead 2, behind 1]", 0, 0);
    assert_eq!(named(&r), "main");
    assert_eq!(r.1, 2);
    assert_eq!(r.2, 1);
}

#[test]
fn no_commits_yet_takes_last_token() {
    let r = parse_header(" No commits yet on main", 0, 0);
    assert_eq!(named(&r), "main");
    assert_eq!(r.1, 0);
    assert_eq!(r.2, 0);
}

#[test]
fn initial_commit_takes_last_token() {
    let r = parse_header(" Initial commit on master", 4, 9);
    assert_eq!(named(&r), "master");
    assert_eq!(r.1, 4);
    assert_eq!(r.2, 9);
}

#[test]
fn no_branch_marker_is_detached() {
    let r = parse_header(" HEAD (no branch)", 0, 0);
    assert!(matches!(r.0, BranchState::Detached));
    assert_eq!(r.1, 0);
    assert_eq!(r.2, 0);
}

#[test]
fn plain_branch_without_upstream() {
    let r = parse_header(" main", 0, 0);
    assert_eq!(named(&r), "main");
    assert_eq!(r.1, 0);
    assert_eq!(r.2, 0);
}

#[test]
fn upstream_without_divergence() {
    let r = parse_header(" dev...origin/dev", 3, 8);
    assert_eq!(named(&r), "dev");
    assert_eq!(r.1, 3);
    assert_eq!(r.2, 8);
}

#[test]
fn divergence_ahead_only() {
    let r = parse_header(" dev...origin/dev [ahead 7]", 0, 0);
    assert_eq!(named(&r), "dev");
    assert_eq!(r.1, 7);
    assert_eq!(r.2, 0);
}

#[test]
fn divergence_behind_only() {
    let r = parse_header(" dev...origin/dev [behind 3]", 0, 0);
    assert_eq!(named(&r), "dev");
    assert_eq!(r.1, 0);
    assert_eq!(r.2, 3);
}

#[test]
fn unparseable_count_defaults_to_zero() {
    let r = parse_header(" dev...origin/dev [ahead x, behind 1]", 0, 0);
    assert_eq!(named(&r), "dev");
    assert_eq!(r.1, 0);
    assert_eq!(r.2, 1);
}

#[test]
fn oversized_count_defaults_to_zero() {
    let r = parse_header(" dev...origin/dev [ahead 99999999999999999999]", 0, 0);
    assert_eq!(r.1, 0);
}

#[test]
fn two_tags_append_plus() {
    let r = resolve_ref_label("v2.0\nv1.0\n", "");
    assert_eq!(r.unwrap(), "v2.0+");
}

#[test]
fn single_tag_is_taken_plain() {
    let r = resolve_ref_label("v1.0\n", "abc1234\n");
    assert_eq!(r.unwrap(), "v1.0");
}

#[test]
fn no_tags_falls_back_to_hash() {
    let r = resolve_ref_label("", "abc1234\n");
    assert_eq!(r.unwrap(), "abc1234");
}

#[test]
fn no_tags_and_no_hash_yields_no_label() {
    let r = resolve_ref_label("", "  \n");
    assert!(r.is_none());
}

#[test]
fn marker_anywhere_in_payload_counts() {
    // The marker is a containment test, not a prefix test.
    let r = parse_header("   No commits yet on feature/a", 0, 0);
    assert_eq!(named(&r), "feature/a");
}

#[test]
fn marker_without_following_name_takes_last_token() {
    let r = parse_header(" No commits yet on", 0, 0);
    assert_eq!(named(&r), "on");
}

#[test]
fn upstream_split_happens_once() {
    let r = parse_header(" a...b...c", 0, 0);
    assert_eq!(named(&r), "a");
    assert_eq!(r.1, 0);
    assert_eq!(r.2, 0);
}

#[test]
fn count_at_type_limit_parses() {
    let r = parse_header(" dev...origin/dev [ahead 4294967295]", 0, 0);
    assert_eq!(r.1, 4294967295);
}

#[test]
fn count_with_extra_spaces_parses() {
    let r = parse_header(" dev...origin/dev [ahead  7]", 0, 0);
    assert_eq!(r.1, 7);
}

#[test]
fn header_of_two_characters_is_not_a_header() {
    // "##" alone trims to fewer than three characters and is dropped.
    let lines: Vec<String> = vec!["##".to_string()];
    let scan = repostat::summary::scan_status(&lines);
    assert!(matches!(scan.branch, BranchState::Unset));
}
