use just_shield::suppress::parse;

#[test]
fn standalone_comment_targets_next_meaningful_line() {
    let d = parse("a: 1\n# just-shield: ignore R1 -- 검토 완료\n\n# 다른 주석\n- uses: x/y@v1\n");
    assert_eq!(d.len(), 1);
    assert_eq!(d[0].rules, vec!["R1"]);
    assert_eq!(d[0].reason.as_deref(), Some("검토 완료"));
    assert_eq!(d[0].target_line, Some(5));
}

#[test]
fn trailing_comment_targets_same_line() {
    let d = parse("permissions: write-all  # just-shield: ignore R7 -- 배포 잡\n");
    assert_eq!(d[0].target_line, Some(1));
    assert_eq!(d[0].rules, vec!["R7"]);
}

#[test]
fn missing_reason_is_kept_but_marked() {
    let d = parse("# just-shield: ignore R1\n- uses: x/y@v1\n");
    assert_eq!(d.len(), 1);
    assert!(d[0].reason.is_none());
}

#[test]
fn multiple_rules_and_non_directives() {
    let d = parse(
        "# just-shield: ignore R1, R7 -- 둘 다 수용\nx: 1\n# 그냥 주석\njust-shield: ignore R9 (주석 아님)\n",
    );
    assert_eq!(d.len(), 1);
    assert_eq!(d[0].rules, vec!["R1", "R7"]);
}

#[test]
fn trailing_comment_with_nothing_after_it_has_no_target() {
    let d = parse("x: 1\n# just-shield: ignore R4 -- ok\n# end\n");
    assert_eq!(d.len(), 1);
    assert_eq!(d[0].comment_line, 2);
    assert_eq!(d[0].target_line, None);
    let d = parse("# just-shield: ignore -- no rules\n");
    assert!(d.is_empty());
}

#[test]
fn directives_come_in_line_order_and_target_their_line_or_later() {
    let text = "# just-shield: ignore R1 -- a\n\n- uses: a/b@v1 # just-shield: ignore R7, R6 -- b\n# just-shield: ignore --\n# just-shield: ignore R4\n";
    let d = parse(text);
    assert_eq!(d.len(), 3);
    let lines: Vec<usize> = d.iter().map(|x| x.comment_line).collect();
    assert_eq!(lines, vec![1, 3, 5]);
    assert_eq!(d[0].target_line, Some(3));
    assert_eq!(d[1].target_line, Some(3));
    assert_eq!(d[1].rules, vec!["R7", "R6"]);
    // A standalone comment at the end has nothing to target.
    assert_eq!(d[2].target_line, None);
    assert!(d.iter().all(|x| !x.rules.is_empty()));
}
