use just_shield::github_facts::pick_best;

#[test]
fn prefers_peeled_then_tag_then_branch() {
    let out = "aaa\trefs/heads/v4\nbbb\trefs/tags/v4\nccc\trefs/tags/v4^{}\n";
    assert_eq!(pick_best(out).as_deref(), Some("ccc"));
    let out = "aaa\trefs/heads/v4\nbbb\trefs/tags/v4\n";
    assert_eq!(pick_best(out).as_deref(), Some("bbb"));
    assert_eq!(pick_best(""), None);
}

#[test]
fn first_tag_and_first_other_win_and_lines_without_tab_are_skipped() {
    let out = "garbage\nx1\trefs/heads/main\nx2\trefs/heads/dev\n";
    assert_eq!(pick_best(out).as_deref(), Some("x1"));
    let out = "t1\trefs/tags/a\nt2\trefs/tags/b\n";
    assert_eq!(pick_best(out).as_deref(), Some("t1"));
}
