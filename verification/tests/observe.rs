use just_shield::egress_lockfile::EgressLock;
use just_shield::observe::{parse_record, render_text, verdict};
use just_shield::rules::Severity;

fn lock(text: &str) -> EgressLock {
    EgressLock::parse(text).unwrap()
}

#[test]
fn unlocked_job_never_fails_and_gets_draft() {
    let record = parse_record("job build\ncrates.io\nGITHUB.COM.\n").unwrap();
    let out = verdict(&record, Some(&lock("[release]\nghcr.io\n")));
    assert!(!out.locked);
    assert!(out.findings.is_empty());
    let draft = out.draft.unwrap();
    assert!(draft.starts_with("[build]\n"));
    assert!(draft.contains("github.com\n"));
}

#[test]
fn no_lock_at_all_gets_draft() {
    let record = parse_record("job release\nghcr.io\n").unwrap();
    let out = verdict(&record, None);
    assert!(!out.locked);
    assert!(out.draft.is_some());
}

#[test]
fn locked_job_unlisted_domain_is_high() {
    let record = parse_record("job release\nghcr.io\nevil.net\n").unwrap();
    let out = verdict(&record, Some(&lock("[release]\nghcr.io\n")));
    assert!(out.locked);
    assert_eq!(out.findings.len(), 1);
    let f = &out.findings[0];
    assert_eq!(f.rule, "EGRESS");
    assert_eq!(f.severity, Severity::High);
    assert_eq!(f.uses, "evil.net");
    assert!(f.evidence.contains("회전"));
    assert!(f.fix_hint.contains("evil.net"));
}

#[test]
fn locked_job_all_listed_including_wildcard_is_silent() {
    let record = parse_record("job release\nghcr.io\nabc123.blob.core.windows.net\n").unwrap();
    let out = verdict(
        &record,
        Some(&lock("[release]\nghcr.io\n*.blob.core.windows.net\n")),
    );
    assert!(out.locked);
    assert!(out.findings.is_empty());
}

#[test]
fn record_parse_rejects_malformed_input() {
    assert!(parse_record("crates.io\n").is_err());
    assert!(parse_record("job a\njob b\n").is_err());
    assert!(parse_record("job a\ntwo tokens\n").is_err());
}

#[test]
fn record_parse_errors_are_exact() {
    assert_eq!(
        parse_record("# c\n\ncrates.io\n").err().as_deref(),
        Some("3행: 첫 유효 줄은 `job <이름>`이어야 합니다")
    );
    assert_eq!(
        parse_record("job a\njob b\n").err().as_deref(),
        Some("2행: job 줄이 중복됩니다")
    );
    // A line trimmed to "job" is not a job line at all.
    assert_eq!(
        parse_record("job   \n").err().as_deref(),
        Some("1행: 첫 유효 줄은 `job <이름>`이어야 합니다")
    );
    assert_eq!(
        parse_record("# only comments\n").err().as_deref(),
        Some("기록에 `job <이름>` 줄이 없습니다")
    );
}

#[test]
fn locked_finding_points_at_the_section_line_and_report_sums_up() {
    let record = parse_record("job release\nevil.net\n").unwrap();
    let out = verdict(&record, Some(&lock("# head\n\n[release]\nghcr.io\n")));
    assert_eq!(out.findings[0].line, 3);
    assert_eq!(out.findings[0].file, "egress.lock");
    let text = render_text(&out);
    assert!(text.starts_with("just-shield observe — 잡 'release'의 통신 기록 (도메인 1개)\n\n  evil.net\n\n"));
    assert!(text.ends_with("요약: 🔴 미등재 목적지 1건 — 빌드 실패\n"));
}

#[test]
fn report_of_unlocked_job_includes_the_draft_and_clean_locked_job_passes() {
    let record = parse_record("job build\nb.io\na.io\n").unwrap();
    let text = render_text(&verdict(&record, None));
    assert!(text.contains("(실패하지 않음)\n잠그려면 아래 초안을 검토해 egress.lock에 추가하세요:\n\n[build]\na.io\nb.io\n"));
    let record = parse_record("job build\na.io\n").unwrap();
    let text = render_text(&verdict(&record, Some(&lock("[build]\na.io\n"))));
    assert!(text.ends_with("✅ egress.lock [build] 박제본과 일치 — 평소와 같은 통신입니다\n"));
}
