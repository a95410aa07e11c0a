use just_shield::github_facts::GithubFacts;
use just_shield::lockfile::Lockfile;
use just_shield::report::{exit_code, render, render_sarif};
use just_shield::rules::Severity;
use just_shield::scan::{scan_sources, sort_findings, ScanOptions};
use just_shield::trust::TrustContext;
use just_shield::ScanResult;
use std::collections::HashMap;
use std::io;

#[derive(Default)]
struct FakeGithub {
    tag_counts: HashMap<String, usize>,
    refs: HashMap<(String, String), String>,
}

impl GithubFacts for FakeGithub {
    fn resolve_ref(&self, owner_repo: &str, git_ref: &str) -> io::Result<Option<String>> {
        Ok(self.refs.get(&(owner_repo.to_string(), git_ref.to_string())).cloned())
    }

    fn ref_count(&self, owner_repo: &str) -> io::Result<Option<usize>> {
        Ok(self.tag_counts.get(owner_repo).copied())
    }
}

fn offline(sources: &Vec<(String, String)>, ctx: &TrustContext) -> ScanResult {
    let options: ScanOptions<FakeGithub> = ScanOptions { facts: None, cooldown_days: None };
    scan_sources(sources, ctx, None, &options, 1_700_000_000)
}

fn ctx(owner: Option<&str>) -> TrustContext {
    TrustContext::new(owner.map(str::to_string), Vec::new())
}

#[test]
fn findings_are_sorted_by_file_line_and_rule() {
    let a = "on: push\njobs:\n  b:\n    steps:\n      - uses: evil/tool@v1\n";
    let b = "on: push\npermissions: write-all\njobs:\n  b:\n    steps:\n      - uses: actions/checkout@v4\n";
    let sources = vec![
        ("z.yml".to_string(), a.to_string()),
        ("b.yml".to_string(), b.to_string()),
    ];
    let r = offline(&sources, &ctx(None));
    assert_eq!(r.workflows_scanned, 2);
    assert!(r.online_rules_skipped);
    assert!(r.suppressed.is_empty());
    let keys: Vec<(String, usize, &str)> = r
        .findings
        .iter()
        .map(|f| (f.file.clone(), f.line, f.rule))
        .collect();
    let mut sorted = keys.clone();
    sorted.sort();
    assert_eq!(keys, sorted);
    assert!(r.findings.iter().any(|f| f.file == "z.yml" && f.rule == "R1" && f.severity == Severity::High));
    assert_eq!(exit_code(&r, false), 1);
}

#[test]
fn official_actions_are_info_and_never_fail() {
    let w = "on: push\npermissions:\n  contents: read\njobs:\n  b:\n    steps:\n      - uses: actions/checkout@v4\n      - uses: github/codeql-action/init@v3\n";
    let r = offline(&vec![("ci.yml".to_string(), w.to_string())], &ctx(None));
    assert!(!r.findings.is_empty());
    assert!(r.findings.iter().all(|f| f.severity == Severity::Info));
    assert_eq!(exit_code(&r, false), 0);
    assert_eq!(exit_code(&r, true), 0);
}

#[test]
fn same_owner_actions_are_first_party_and_silent() {
    let w = "on: push\npermissions:\n  contents: read\njobs:\n  b:\n    steps:\n      - uses: myorg/tool@v1\n";
    let r = offline(&vec![("ci.yml".to_string(), w.to_string())], &ctx(Some("MyOrg")));
    assert!(r.findings.is_empty());
}

fn finding(file: &str, line: usize, rule: &'static str, evidence: &str) -> just_shield::rules::Finding {
    just_shield::rules::Finding {
        rule,
        severity: Severity::Info,
        file: file.to_string(),
        line,
        uses: String::new(),
        evidence: evidence.to_string(),
        fix_hint: String::new(),
    }
}

#[test]
fn sorting_is_stable_for_equal_keys() {
    let v = vec![
        finding("a.yml", 2, "R1", "first"),
        finding("a.yml", 2, "R1", "second"),
        finding("a.yml", 2, "LOCK", "lock"),
        finding("0.yml", 9, "R9", "zero"),
        finding("a.yml", 1, "R7", "early"),
    ];
    let out = sort_findings(v);
    let ev: Vec<&str> = out.iter().map(|f| f.evidence.as_str()).collect();
    assert_eq!(ev, vec!["zero", "early", "lock", "first", "second"]);
}

const TYPO: &str = "on: push\npermissions:\n  contents: read\njobs:\n  b:\n    steps:\n      - uses: aquasecurtiy/trivy-action@0123456789abcdef0123456789abcdef01234567\n      - uses: aquasecurity/trivy-action@0123456789abcdef0123456789abcdef01234567\n";

#[test]
fn offline_scan_reports_typosquat_as_info_only() {
    let r = offline(&vec![("ci.yml".to_string(), TYPO.to_string())], &ctx(None));
    let r2: Vec<_> = r.findings.iter().filter(|f| f.rule == "R2").collect();
    assert_eq!(r2.len(), 1);
    assert_eq!(r2[0].severity, Severity::Info);
    assert!(r.online_rules_skipped);
    assert_eq!(exit_code(&r, false), 0);
    assert_eq!(exit_code(&r, true), 0);
}

#[test]
fn corroborated_typosquat_is_promoted_to_high_online() {
    let facts = FakeGithub {
        tag_counts: HashMap::from([
            ("aquasecurtiy/trivy-action".to_string(), 1),
            ("aquasecurity/trivy-action".to_string(), 48),
        ]),
        ..Default::default()
    };
    let options = ScanOptions { facts: Some(&facts), cooldown_days: None };
    let r = scan_sources(&vec![("ci.yml".to_string(), TYPO.to_string())], &ctx(None), None, &options, 0);
    assert!(!r.online_rules_skipped);
    let r2: Vec<_> = r.findings.iter().filter(|f| f.rule == "R2").collect();
    assert_eq!(r2[0].severity, Severity::High);
    assert_eq!(exit_code(&r, false), 1);
}

#[test]
fn ignore_comment_with_reason_moves_finding_to_suppressed() {
    let w = "on: push\npermissions:\n  contents: read\njobs:\n  b:\n    steps:\n      # just-shield: ignore R1 -- 내부 보안팀 검증 완료\n      - uses: vendor/tool@v2\n      - uses: vendor/tool3@v2 # just-shield: ignore R1\n";
    let r = offline(&vec![("ci.yml".to_string(), w.to_string())], &ctx(None));
    assert_eq!(r.suppressed.len(), 1);
    assert_eq!(r.suppressed[0].reason, "내부 보안팀 검증 완료");
    assert_eq!(r.suppressed[0].finding.uses, "vendor/tool@v2");
    assert!(r.findings.iter().any(|f| f.rule == "R1" && f.uses == "vendor/tool3@v2"));
    assert!(!r.findings.iter().any(|f| f.uses == "vendor/tool@v2" && f.rule == "R1"));
}

#[test]
fn lockfile_is_compared_only_when_present() {
    let w = "on: push\npermissions:\n  contents: read\njobs:\n  b:\n    steps:\n      - uses: aquasecurity/trivy-action@0.28.0\n";
    let sources = vec![("ci.yml".to_string(), w.to_string())];
    let r = offline(&sources, &ctx(None));
    assert!(r.findings.iter().all(|f| f.rule != "LOCK"));
    let lock = Lockfile::parse("aquasecurity/trivy-action@0.28.0 aaaa000000000000000000000000000000000000\n");
    let facts = FakeGithub {
        refs: HashMap::from([(
            ("aquasecurity/trivy-action".to_string(), "0.28.0".to_string()),
            "ffff000000000000000000000000000000000000".to_string(),
        )]),
        ..Default::default()
    };
    let options = ScanOptions { facts: Some(&facts), cooldown_days: Some(3) };
    let r = scan_sources(&sources, &ctx(None), Some(&lock), &options, 0);
    let l: Vec<_> = r.findings.iter().filter(|f| f.rule == "LOCK").collect();
    assert_eq!(l.len(), 1);
    assert_eq!(l[0].severity, Severity::High);
}

#[test]
fn strict_promotes_medium_to_failure() {
    let w = "on: push\njobs:\n  b:\n    steps:\n      - run: echo hi\n";
    let r = offline(&vec![("ci.yml".to_string(), w.to_string())], &ctx(None));
    assert!(r.findings.iter().any(|f| f.rule == "R7" && f.severity == Severity::Medium));
    assert!(r.findings.iter().all(|f| f.severity != Severity::High));
    assert_eq!(exit_code(&r, false), 0);
    assert_eq!(exit_code(&r, true), 1);
}

#[test]
fn pipe_install_is_info_and_checksummed_install_is_silent() {
    let w = "on: push\npermissions:\n  contents: read\njobs:\n  b:\n    steps:\n      - run: curl -sSL https://x.example/i.sh | sh\n      - run: curl -sSL https://x.example/i.sh -o i.sh && sha256sum -c i.sh.sha256 && sh i.sh | sh\n";
    let r = offline(&vec![("ci.yml".to_string(), w.to_string())], &ctx(None));
    let r3: Vec<_> = r.findings.iter().filter(|f| f.rule == "R3").collect();
    assert_eq!(r3.len(), 1);
    assert_eq!(r3[0].severity, Severity::Info);
    assert_eq!(r3[0].line, 7);
    assert_eq!(exit_code(&r, true), 0);
}

#[test]
fn ignore_comment_hides_nothing_and_only_its_line_and_rule() {
    let plain = "on: push\njobs:\n  b:\n    steps:\n      - uses: vendor/tool@v2\n      - uses: vendor/other@v1\n";
    let commented = "on: push\njobs:\n  b:\n    steps:\n      - uses: vendor/tool@v2 # just-shield: ignore R7 -- not this rule\n      # just-shield: ignore R1 -- reviewed\n      - uses: vendor/other@v1\n";
    let before = offline(&vec![("ci.yml".to_string(), plain.to_string())], &ctx(None));
    let after = offline(&vec![("ci.yml".to_string(), commented.to_string())], &ctx(None));
    // Every finding survives, either reported or set apart.
    assert_eq!(
        after.findings.len() + after.suppressed.len(),
        before.findings.len() + before.suppressed.len()
    );
    assert_eq!(after.suppressed.len(), 1);
    assert_eq!(after.suppressed[0].finding.rule, "R1");
    assert_eq!(after.suppressed[0].finding.uses, "vendor/other@v1");
    assert_eq!(after.suppressed[0].reason, "reviewed");
    // The R7 comment names a rule that has no finding on its line: R1 there stays.
    assert!(after.findings.iter().any(|f| f.rule == "R1" && f.uses == "vendor/tool@v2"));
    assert!(after.findings.iter().any(|f| f.rule == "R7"));
}

#[test]
fn accepted_high_finding_does_not_fail_the_run() {
    let w = "on: push\npermissions:\n  contents: read\njobs:\n  b:\n    steps:\n      - uses: vendor/tool@v2 # just-shield: ignore R1 -- reviewed\n";
    let r = offline(&vec![("ci.yml".to_string(), w.to_string())], &ctx(None));
    assert_eq!(r.suppressed.len(), 1);
    assert_eq!(r.suppressed[0].finding.severity, Severity::High);
    assert!(!r.findings.iter().any(|f| f.severity == Severity::High));
    assert_eq!(exit_code(&r, false), 0);
}

#[test]
fn text_report_ends_with_the_verdict_of_the_exit_code() {
    let bad = "on: push\npermissions:\n  contents: read\njobs:\n  b:\n    steps:\n      - uses: vendor/tool@v2\n";
    let r = offline(&vec![("ci.yml".to_string(), bad.to_string())], &ctx(None));
    let text = render(&r, false);
    assert!(text.contains("🔴 R1  ci.yml:7\n"));
    assert!(text.contains("— 빌드 실패\n"));
    assert!(text.ends_with("--online 옵션에서 수행됩니다\n"));
    let ok = "on: push\npermissions:\n  contents: read\njobs:\n  b:\n    steps:\n      - run: echo hi\n";
    let r = offline(&vec![("ci.yml".to_string(), ok.to_string())], &ctx(None));
    let text = render(&r, false);
    assert!(text.contains("✅ 위반 없음"));
    assert!(!text.contains("요약:"));
}

#[test]
fn ignore_comment_without_reason_is_not_applied_and_reported_as_info() {
    let w = "on: push\npermissions:\n  contents: read\njobs:\n  b:\n    steps:\n      # just-shield: ignore R7, R1\n      - uses: vendor/tool@v2\n      - uses: vendor/tool3@v2 # just-shield: ignore R1 --   \n      - uses: vendor/tool4@v2 # just-shield: ignore X9\n";
    let r = offline(&vec![("ci.yml".to_string(), w.to_string())], &ctx(None));
    assert!(r.suppressed.is_empty());
    assert!(r.findings.iter().any(|f| f.rule == "R1" && f.severity == Severity::High && f.line == 8));
    assert!(r.findings.iter().any(|f| f.rule == "R1" && f.severity == Severity::High && f.line == 9));
    let notices: Vec<(usize, &str)> = r
        .findings
        .iter()
        .filter(|f| f.evidence.contains("사유가 없어"))
        .map(|f| (f.line, f.rule))
        .collect();
    // The first rule id named is the one reported; a comment naming no rule id gives none.
    assert_eq!(notices, vec![(7, "R7"), (9, "R1")]);
    assert!(r.findings.iter().filter(|f| f.evidence.contains("사유가 없어")).all(|f| f.severity == Severity::Info && f.uses.is_empty()));
    assert_eq!(exit_code(&r, false), 1);
}

const VIOLATION: &str = "on: push\npermissions:\n  contents: read\njobs:\n  build:\n    steps:\n      - uses: actions/checkout@v4\n      - uses: \"aquasecurity/trivy-action@master\"\n      - uses: actions/setup-node@8f152de45cc393bb48ce5d89d36b731f54556e65\n      - uses: some/tool@0123456789abcdef0123456789abcdef01234567\n      - uses: ./local/action\n      - uses: docker://alpine@sha256:0000000000000000000000000000000000000000000000000000000000000000\n      # - uses: evil/commented@v1\n      - run: echo hi\n      - uses: vendor/thing@release\n      - uses: vendor/noref\n";

#[test]
fn detects_mutable_refs_with_file_and_line() {
    let result = offline(&vec![(".github/workflows/ci.yml".to_string(), VIOLATION.to_string())], &ctx(None));
    assert_eq!(result.workflows_scanned, 1);
    let lines: Vec<usize> = result.findings.iter().map(|f| f.line).collect();
    assert_eq!(lines, vec![7, 8, 15, 16]);
    for f in &result.findings {
        assert_eq!(f.rule, "R1");
        assert!(f.file.contains("ci.yml"));
        assert!(!f.evidence.is_empty());
        assert!(!f.fix_hint.is_empty());
    }
    assert_eq!(result.findings[0].severity, Severity::Info);
    assert_eq!(result.findings[1].severity, Severity::High);
    assert_eq!(result.findings[2].severity, Severity::High);
    assert_eq!(result.findings[3].severity, Severity::High);
    assert_eq!(result.findings[1].uses, "aquasecurity/trivy-action@master");
}

#[test]
fn clean_workflows_pass_silently() {
    let clean = "on: push\npermissions:\n  contents: read\njobs:\n  build:\n    steps:\n      - uses: actions/checkout@8f152de45cc393bb48ce5d89d36b731f54556e65 # v4\n      - run: cargo test\n";
    let result = offline(&vec![(".github/workflows/ci.yml".to_string(), clean.to_string())], &ctx(None));
    assert_eq!(result.workflows_scanned, 1);
    assert!(result.findings.is_empty());
}

#[test]
fn missing_workflows_dir_is_not_an_error() {
    let result = offline(&Vec::new(), &ctx(None));
    assert_eq!(result.workflows_scanned, 0);
    assert!(result.findings.is_empty());
}

#[test]
fn missing_lockfile_changes_nothing() {
    let result = offline(&vec![(".github/workflows/ci.yml".to_string(), VIOLATION.to_string())], &ctx(None));
    assert!(result.findings.iter().all(|f| f.rule != "LOCK"));
}

#[test]
fn sarif_lists_rules_in_a_fixed_order_and_results_in_report_order() {
    let result = offline(&vec![(".github/workflows/ci.yml".to_string(), VIOLATION.to_string())], &ctx(None));
    let sarif = render_sarif(&result);
    assert!(sarif.contains("\"version\": \"2.1.0\""));
    let ids = ["R1", "R2", "R3", "R4", "R5", "R6", "R7", "R8", "R9", "R10", "LOCK", "EGRESS"];
    let mut at = 0;
    for id in ids {
        let key = format!("{{ \"id\": \"{id}\"");
        let pos = sarif[at..].find(&key).expect("rule listed in order") + at;
        at = pos + key.len();
    }
    assert!(sarif.contains("\"ruleIndex\": 0"));
    assert!(sarif.contains("\"level\": \"note\""));
    assert!(sarif.contains("\"level\": \"error\""));
    assert!(sarif.contains("\"startLine\": 16"));
    assert!(!sarif.contains("suppressions"));
    let empty = offline(&Vec::new(), &ctx(None));
    let sarif = render_sarif(&empty);
    assert!(sarif.contains("\"results\": []"));
    assert!(sarif.contains("{ \"id\": \"LOCK\""));
}
