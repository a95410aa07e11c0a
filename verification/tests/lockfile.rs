use just_shield::github_facts::GithubFacts;
use just_shield::lockfile::{record_refs, Lockfile};
use just_shield::trust::TrustContext;
use std::collections::HashMap;
use std::io;

struct FakeGithub(HashMap<(String, String), String>);

impl GithubFacts for FakeGithub {
    fn resolve_ref(&self, owner_repo: &str, git_ref: &str) -> io::Result<Option<String>> {
        if owner_repo == "down/action" {
            return Err(io::Error::other("offline"));
        }
        Ok(self.0.get(&(owner_repo.to_string(), git_ref.to_string())).cloned())
    }
}

const WORKFLOW: &str = "on: push\npermissions:\n  contents: read\njobs:\n  b:\n    steps:\n      - uses: aquasecurity/trivy-action@0.28.0\n      - uses: actions/checkout@v4\n";

#[test]
fn lock_is_deterministic_and_sorted() {
    let a = Lockfile::parse("z/z@v1 1111\n# comment\n\na/a@v2   2222  \nnospace\nz/z@v1 3333\n");
    assert_eq!(
        a.render(),
        "# shield.lock — just-shield가 박제한 태그→SHA 대응. 직접 수정하지 말 것.\n# 갱신: just-shield lock\na/a@v2 2222\nz/z@v1 3333\n"
    );
    assert_eq!(Lockfile::parse(&a.render()).render(), a.render());
}

#[test]
fn key_and_get() {
    assert_eq!(Lockfile::key("o/r", "v1"), "o/r@v1");
    let l = Lockfile::parse("o/r@v1 abc\n");
    assert_eq!(l.get("o/r", "v1"), Some("abc"));
    assert_eq!(l.get("o/r", "v2"), None);
    let d = Lockfile::default();
    assert_eq!(d.get("o/r", "v1"), None);
}

fn fake() -> FakeGithub {
    FakeGithub(HashMap::from([
        (
            ("aquasecurity/trivy-action".to_string(), "0.28.0".to_string()),
            "aaaa000000000000000000000000000000000000".to_string(),
        ),
        (
            ("actions/checkout".to_string(), "v4".to_string()),
            "bbbb000000000000000000000000000000000000".to_string(),
        ),
    ]))
}

#[test]
fn recording_is_deterministic_and_sorted() {
    let sources = vec![("ci.yml".to_string(), WORKFLOW.to_string())];
    let ctx = TrustContext::new(None, Vec::new());
    let (lock, skipped) = record_refs(&sources, &ctx, &fake());
    assert_eq!(lock.entries.len(), 2);
    assert_eq!(skipped.len(), 0);
    let text = lock.render();
    assert!(text.find("actions/checkout@v4").unwrap() < text.find("aquasecurity/trivy-action@0.28.0").unwrap());
    let (again, _) = record_refs(&sources, &ctx, &fake());
    assert_eq!(again.render(), text);
    assert_eq!(Lockfile::parse(&text).get("actions/checkout", "v4"), Some("bbbb000000000000000000000000000000000000"));
}

#[test]
fn recording_skips_what_cannot_be_resolved_and_first_party() {
    let w = "on: push\njobs:\n  b:\n    steps:\n      - uses: gone/action@v1\n      - uses: down/action@v2\n      - uses: myorg/tool@v1\n      - uses: gone/action@v1\n";
    let sources = vec![("ci.yml".to_string(), w.to_string())];
    let ctx = TrustContext::new(Some("myorg".to_string()), Vec::new());
    let (lock, skipped) = record_refs(&sources, &ctx, &fake());
    assert_eq!(lock.entries.len(), 0);
    assert_eq!(skipped.len(), 2);
    let (k0, why0) = skipped.entry(0);
    assert_eq!(k0, "down/action@v2");
    assert!(why0.starts_with("해석 실패 — 변경하지 않음: "));
    let (k1, why1) = skipped.entry(1);
    assert_eq!(k1, "gone/action@v1");
    assert_eq!(why1, "참조를 찾을 수 없음 — 변경하지 않음");
}
