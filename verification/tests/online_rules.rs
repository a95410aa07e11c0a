use just_shield::github_facts::GithubFacts;
use just_shield::lockfile::Lockfile;
use just_shield::rules::{check_lock, check_r10, check_r2, check_r5, check_r9, Severity};
use just_shield::trust::TrustContext;
use just_shield::workflow::extract_uses_entries;
use std::collections::HashMap;
use std::io;

const GOOD_SHA: &str = "aaaa000000000000000000000000000000000000";
const IMPOSTOR_SHA: &str = "bbbb000000000000000000000000000000000000";
const ERROR_SHA: &str = "cccc000000000000000000000000000000000000";

#[derive(Default)]
struct FakeGithub {
    refs: HashMap<(String, String), String>,
    failing_refs: Vec<String>,
    reachable: HashMap<String, bool>,
    timestamps: HashMap<String, i64>,
    tag_counts: HashMap<String, usize>,
}

impl GithubFacts for FakeGithub {
    fn resolve_ref(&self, owner_repo: &str, git_ref: &str) -> io::Result<Option<String>> {
        if self.failing_refs.iter().any(|r| r == owner_repo) {
            return Err(io::Error::other("network down"));
        }
        Ok(self
            .refs
            .get(&(owner_repo.to_string(), git_ref.to_string()))
            .cloned())
    }

    fn commit_reachable(&self, _owner_repo: &str, sha: &str) -> io::Result<Option<bool>> {
        if sha == ERROR_SHA {
            return Err(io::Error::other("network error"));
        }
        Ok(self.reachable.get(sha).copied())
    }

    fn ref_count(&self, owner_repo: &str) -> io::Result<Option<usize>> {
        Ok(self.tag_counts.get(owner_repo).copied())
    }

    fn ref_timestamp(&self, owner_repo: &str, git_ref: &str) -> io::Result<Option<i64>> {
        Ok(self
            .timestamps
            .get(&format!("{owner_repo}@{git_ref}"))
            .copied())
    }
}

fn ctx() -> TrustContext {
    TrustContext::new(Some("myorg".to_string()), Vec::new())
}

fn steps(uses: &[&str]) -> String {
    let mut w = String::from("on: push\njobs:\n  b:\n    steps:\n");
    for u in uses {
        w.push_str(&format!("      - uses: {u}\n"));
    }
    w
}

#[test]
fn r5_impostor_commit_is_high_real_commit_silent_error_is_info() {
    let w = steps(&[
        &format!("good/action@{GOOD_SHA}"),
        &format!("evil/action@{IMPOSTOR_SHA}"),
        &format!("flaky/action@{ERROR_SHA}"),
        &format!("myorg/own@{IMPOSTOR_SHA}"),
    ]);
    let entries = extract_uses_entries(&w);
    let facts = FakeGithub {
        reachable: HashMap::from([
            (GOOD_SHA.to_string(), true),
            (IMPOSTOR_SHA.to_string(), false),
        ]),
        ..Default::default()
    };
    let r5 = check_r5("ci.yml", &entries, &facts, &ctx());
    assert_eq!(r5.len(), 2);
    assert_eq!(r5[0].severity, Severity::High);
    assert!(r5[0].uses.starts_with("evil/"));
    assert_eq!(
        r5[0].evidence,
        format!("핀된 커밋 {IMPOSTOR_SHA}이(가) `evil/action`의 정식 히스토리에서 도달 불가합니다 — 포크에 숨긴 커밋을 꽂은 임포스터 커밋 신호 (TeamPCP의 Trivy 공격이 이 수법)")
    );
    assert_eq!(r5[1].severity, Severity::Info);
    assert!(r5[1].uses.starts_with("flaky/"));
    assert_eq!(r5[1].line, 7);
}

#[test]
fn r10_fresh_ref_is_medium_aged_ref_silent_boundary_exact() {
    let w = steps(&["fresh/action@v1.2.3", "aged/action@v2.0.0", "exact/action@v3.0.0"]);
    let entries = extract_uses_entries(&w);
    let t: i64 = 1_700_000_000;
    let facts = FakeGithub {
        timestamps: HashMap::from([
            ("fresh/action@v1.2.3".to_string(), t - 3 * 86_400),
            ("aged/action@v2.0.0".to_string(), t - 30 * 86_400),
            ("exact/action@v3.0.0".to_string(), t - 7 * 86_400),
        ]),
        ..Default::default()
    };
    let r10 = check_r10("ci.yml", &entries, &facts, &ctx(), 7, t);
    assert_eq!(r10.len(), 1);
    assert!(r10[0].uses.contains("fresh/"));
    assert_eq!(r10[0].severity, Severity::Medium);
    assert!(r10[0].evidence.contains("미검증"));
    assert!(r10[0].evidence.starts_with("이 참조는 발행된 지 3일밖에 안 됐습니다 (기준 7일) — "));
    assert_eq!(
        r10[0].fix_hint,
        "7일이 지난 뒤 도입하거나, 검증된 이전 버전을 사용하세요 (기준 조정: --cooldown-days)"
    );
}

#[test]
fn r10_cooldown_days_is_configurable_and_future_times_round_toward_zero() {
    let w = steps(&["fresh/action@v1.2.3"]);
    let entries = extract_uses_entries(&w);
    let t: i64 = 1_700_000_000;
    let facts = FakeGithub {
        timestamps: HashMap::from([("fresh/action@v1.2.3".to_string(), t - 10 * 86_400)]),
        ..Default::default()
    };
    assert!(check_r10("ci.yml", &entries, &facts, &ctx(), 7, t).is_empty());
    assert_eq!(check_r10("ci.yml", &entries, &facts, &ctx(), 30, t).len(), 1);
    let future = FakeGithub {
        timestamps: HashMap::from([("fresh/action@v1.2.3".to_string(), t + 86_400 + 5)]),
        ..Default::default()
    };
    let r = check_r10("ci.yml", &entries, &future, &ctx(), 7, t);
    assert!(r[0].evidence.starts_with("이 참조는 발행된 지 -1일밖에"));
}

const R2_WORKFLOW: &str = "on: push\njobs:\n  b:\n    steps:\n      - uses: aquasecurtiy/trivy-action@0123456789abcdef0123456789abcdef01234567\n      - uses: aquasecurity/trivy-action@0123456789abcdef0123456789abcdef01234567\n      - uses: totally/unrelated-action@0123456789abcdef0123456789abcdef01234567\n";

#[test]
fn offline_typosquat_is_info_and_never_fails() {
    let entries = extract_uses_entries(R2_WORKFLOW);
    let r2 = check_r2::<FakeGithub>("ci.yml", &entries, &ctx(), None);
    assert_eq!(r2.len(), 1);
    assert!(r2[0].uses.starts_with("aquasecurtiy/"));
    assert_eq!(r2[0].severity, Severity::Info);
    assert!(r2[0].evidence.contains("aquasecurity/trivy-action"));
    assert!(r2[0].evidence.ends_with(". 이름 유사도는 휴리스틱이므로 안내 등급입니다"));
    assert_eq!(r2[0].fix_hint, "의도한 액션이 `aquasecurity/trivy-action`인지 철자를 확인하세요");
}

#[test]
fn corroborated_typosquat_is_promoted_to_high() {
    let entries = extract_uses_entries(R2_WORKFLOW);
    let facts = FakeGithub {
        tag_counts: HashMap::from([
            ("aquasecurtiy/trivy-action".to_string(), 1),
            ("aquasecurity/trivy-action".to_string(), 48),
        ]),
        ..Default::default()
    };
    let r2 = check_r2("ci.yml", &entries, &ctx(), Some(&facts));
    assert_eq!(r2.len(), 1);
    assert_eq!(r2[0].severity, Severity::High);
    assert!(r2[0].evidence.contains("교차 검증: 의심 저장소는 버전 태그 1개(무명),"));
    assert!(r2[0].evidence.ends_with("`aquasecurity/trivy-action`은 48개 — 증거가 모여 격상"));
}

#[test]
fn active_lookalike_fork_and_unknown_counts_stay_info() {
    let entries = extract_uses_entries(R2_WORKFLOW);
    let fork = FakeGithub {
        tag_counts: HashMap::from([
            ("aquasecurtiy/trivy-action".to_string(), 30),
            ("aquasecurity/trivy-action".to_string(), 48),
        ]),
        ..Default::default()
    };
    assert_eq!(check_r2("ci.yml", &entries, &ctx(), Some(&fork))[0].severity, Severity::Info);
    let unknown = FakeGithub::default();
    assert_eq!(check_r2("ci.yml", &entries, &ctx(), Some(&unknown))[0].severity, Severity::Info);
}

const LOCK_WORKFLOW: &str = "on: push\njobs:\n  b:\n    steps:\n      - uses: aquasecurity/trivy-action@0.28.0\n      - uses: actions/checkout@v4\n";

fn lockfile() -> Lockfile {
    Lockfile::parse(
        "aquasecurity/trivy-action@0.28.0 aaaa000000000000000000000000000000000000\nactions/checkout@v4 bbbb000000000000000000000000000000000000\n",
    )
}

#[test]
fn moved_exact_version_tag_is_high_and_moved_alias_is_info() {
    let entries = extract_uses_entries(LOCK_WORKFLOW);
    let facts = FakeGithub {
        refs: HashMap::from([
            (
                ("aquasecurity/trivy-action".to_string(), "0.28.0".to_string()),
                "ffff000000000000000000000000000000000000".to_string(),
            ),
            (
                ("actions/checkout".to_string(), "v4".to_string()),
                "cccc000000000000000000000000000000000000".to_string(),
            ),
        ]),
        ..Default::default()
    };
    let f = check_lock("ci.yml", &entries, &lockfile(), Some(&facts), &ctx());
    assert_eq!(f.len(), 2);
    assert_eq!(f[0].severity, Severity::High);
    assert!(f[0].evidence.contains("aaaa000000000000000000000000000000000000"));
    assert!(f[0].evidence.contains("ffff000000000000000000000000000000000000"));
    assert!(f[0].evidence.contains("태그 하이재킹 신호"));
    assert_eq!(f[1].severity, Severity::Info);
    assert!(f[1].evidence.contains("메이저 별칭"));
}

#[test]
fn unmoved_tags_are_silent_and_offline_compares_nothing() {
    let entries = extract_uses_entries(LOCK_WORKFLOW);
    let facts = FakeGithub {
        refs: HashMap::from([
            (
                ("aquasecurity/trivy-action".to_string(), "0.28.0".to_string()),
                "aaaa000000000000000000000000000000000000".to_string(),
            ),
            (
                ("actions/checkout".to_string(), "v4".to_string()),
                "bbbb000000000000000000000000000000000000".to_string(),
            ),
        ]),
        ..Default::default()
    };
    assert!(check_lock("ci.yml", &entries, &lockfile(), Some(&facts), &ctx()).is_empty());
    assert!(check_lock::<FakeGithub>("ci.yml", &entries, &lockfile(), None, &ctx()).is_empty());
}

#[test]
fn unlocked_mutable_ref_is_reported_and_resolution_failure_is_info() {
    let entries = extract_uses_entries(LOCK_WORKFLOW);
    let partial = Lockfile::parse("aquasecurity/trivy-action@0.28.0 aaaa000000000000000000000000000000000000\n");
    let f = check_lock::<FakeGithub>("ci.yml", &entries, &partial, None, &ctx());
    assert_eq!(f.len(), 1);
    assert_eq!(f[0].severity, Severity::Info);
    assert!(f[0].uses.starts_with("actions/checkout"));
    assert_eq!(
        f[0].evidence,
        "가변 참조 `actions/checkout@v4`이(가) shield.lock에 박제되어 있지 않습니다 — 이동 감시 대상에서 빠져 있습니다"
    );
    let failing = FakeGithub {
        failing_refs: vec!["aquasecurity/trivy-action".to_string(), "actions/checkout".to_string()],
        ..Default::default()
    };
    let f = check_lock("ci.yml", &entries, &lockfile(), Some(&failing), &ctx());
    assert_eq!(f.len(), 2);
    assert!(f.iter().all(|x| x.severity == Severity::Info));
    assert!(f[0].evidence.contains("판정 보류"));
}

#[test]
fn known_bad_version_is_high_even_for_first_party() {
    let db = just_shield::advisory::AdvisoryDb::parse("MyOrg/Tool@v1 GHSA-x note text\n");
    let entries = extract_uses_entries(&steps(&["myorg/tool@v1", "myorg/tool@v2"]));
    let f = check_r9("ci.yml", &entries, &db);
    assert_eq!(f.len(), 1);
    assert_eq!(f[0].severity, Severity::High);
    assert_eq!(
        f[0].evidence,
        "이 버전은 공개 보안 권고에 악성으로 등재되어 있습니다 — GHSA-x: note text"
    );
}
