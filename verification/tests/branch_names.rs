use project_git::branch::{
    clean_branch, clean_selected_branch, clean_target_commit, normalize_branch_name,
    normalize_branch_option, short_hash,
};

#[test]
fn invalid_selected_branch_does_not_become_no_selection() {
    assert_eq!(clean_selected_branch(None).expect("no selection"), None);
    assert_eq!(
        clean_selected_branch(Some("  ".to_string())).expect("blank selection"),
        None
    );

    let error = clean_selected_branch(Some("feature+preview".to_string()))
        .expect_err("invalid selection must not fall back to the worktree");
    assert_eq!(error, "The selected branch name is invalid.");
}

#[test]
fn valid_selected_branch_is_kept_without_outer_space() {
    assert_eq!(
        clean_selected_branch(Some(" feature/preview-2 ".to_string())),
        Ok(Some("feature/preview-2".to_string()))
    );
}

#[test]
fn clean_branch_refuses_options_and_foreign_characters() {
    assert_eq!(clean_branch(None), None);
    assert_eq!(clean_branch(Some("")), None);
    assert_eq!(clean_branch(Some("--upload-pack=x")), None);
    assert_eq!(clean_branch(Some(" -b")), None);
    assert_eq!(clean_branch(Some("a b")), None);
    assert_eq!(clean_branch(Some("r\u{e9}sum\u{e9}")), None);
    assert_eq!(clean_branch(Some("a;b")), None);
    assert_eq!(
        clean_branch(Some("release/v1.2_rc-3")),
        Some("release/v1.2_rc-3".to_string())
    );
}

#[test]
fn normalize_branch_option_goes_through_clean_branch() {
    assert_eq!(normalize_branch_option(Some("\tmain\n")), Some("main".to_string()));
    assert_eq!(normalize_branch_option(Some("-main")), None);
    assert_eq!(normalize_branch_option(None), None);
}

#[test]
fn normalize_branch_name_strips_space_and_one_prefix() {
    assert_eq!(normalize_branch_name("main"), "main");
    assert_eq!(normalize_branch_name("  refs/heads/main\n"), "main");
    assert_eq!(normalize_branch_name("refs/heads/"), "");
    assert_eq!(normalize_branch_name("refs/heads"), "refs/heads");
    assert_eq!(normalize_branch_name("refs/heads/refs/heads/x"), "refs/heads/x");
    assert_eq!(normalize_branch_name("\u{3000}h\u{e9}llo\u{a0}"), "h\u{e9}llo");
}

#[test]
fn short_hash_takes_seven_characters() {
    assert_eq!(short_hash("0123456789abcdef"), "0123456");
    assert_eq!(short_hash("0123456"), "0123456");
    assert_eq!(short_hash("abc"), "abc");
    assert_eq!(short_hash(""), "");
    assert_eq!(short_hash("\u{e9}\u{e9}\u{e9}\u{e9}\u{e9}\u{e9}\u{e9}\u{e9}").chars().count(), 7);
}

#[test]
fn target_commit_is_a_full_hash_in_lower_case() {
    let upper = "ABCDEF0123456789ABCDEF0123456789ABCDEF01";
    let lower = "abcdef0123456789abcdef0123456789abcdef01";
    assert_eq!(clean_target_commit(Some(upper)), Some(lower.to_string()));
    assert_eq!(clean_target_commit(Some(lower)), Some(lower.to_string()));
    let long = "0123456789abcdef0123456789abcdef0123456789abcdef0123456789abcdef";
    assert_eq!(clean_target_commit(Some(long)), Some(long.to_string()));
    assert_eq!(clean_target_commit(Some("abcdef0")), None);
    assert_eq!(clean_target_commit(Some(&upper.replace('A', "G"))), None);
    assert_eq!(clean_target_commit(None), None);
}
