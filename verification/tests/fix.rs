use just_shield::fix::{fix_content, try_fix_line};
use just_shield::github_facts::GithubFacts;
use just_shield::sorted::StrMap;
use just_shield::trust::TrustContext;
use std::collections::HashMap;
use std::io;

struct FakeGithub(HashMap<(String, String), String>);

impl FakeGithub {
    fn new(entries: &[(&str, &str, &str)]) -> Self {
        Self(
            entries
                .iter()
                .map(|(repo, r, sha)| ((repo.to_string(), r.to_string()), sha.to_string()))
                .collect(),
        )
    }
}

impl GithubFacts for FakeGithub {
    fn resolve_ref(&self, owner_repo: &str, git_ref: &str) -> io::Result<Option<String>> {
        if owner_repo == "broken/action" {
            return Err(io::Error::other("boom"));
        }
        Ok(self
            .0
            .get(&(owner_repo.to_string(), git_ref.to_string()))
            .cloned())
    }
}

const SHA_A: &str = "aaaa000000000000000000000000000000000000";
const SHA_B: &str = "bbbb000000000000000000000000000000000000";
const SHA_C: &str = "cccc000000000000000000000000000000000000";

fn fake() -> FakeGithub {
    FakeGithub::new(&[
        ("aquasecurity/trivy-action", "v0.28.0", SHA_A),
        ("quoted/action", "v1", SHA_B),
        ("commented/action", "v2", SHA_C),
    ])
}

const WORKFLOW: &str = "name: CI\non: push # 트리거 주석\npermissions:\n  contents: read\njobs:\n  b:\n    steps:\n      - uses: aquasecurity/trivy-action@v0.28.0\n      - uses: \"quoted/action@v1\"\n      - uses: commented/action@v2 # 기존 주석\n      - uses: ./local/action\n      - uses: docker://alpine:3.19\n      - uses: pinned/action@0123456789abcdef0123456789abcdef01234567 # v9\n      - uses: unknown/action@v3\n";

struct Run {
    text: String,
    changed: bool,
    changes: Vec<just_shield::fix::FixChange>,
    skipped: StrMap<String>,
}

fn run(content: &str, ctx: &TrustContext, facts: &FakeGithub) -> Run {
    let mut cache: StrMap<Option<String>> = StrMap::new();
    let mut skipped: StrMap<String> = StrMap::new();
    let mut changes = Vec::new();
    let (text, changed) = fix_content(
        ".github/workflows/ci.yml",
        content,
        ctx,
        facts,
        &mut cache,
        &mut skipped,
        &mut changes,
    );
    Run { text, changed, changes, skipped }
}

fn ctx() -> TrustContext {
    TrustContext::new(None, Vec::new())
}

#[test]
fn replaces_mutable_refs_and_preserves_everything_else() {
    let r = run(WORKFLOW, &ctx(), &fake());
    assert!(r.changed);
    assert_eq!(r.changes.len(), 3);
    assert!(r.text.contains(&format!(
        "- uses: aquasecurity/trivy-action@{SHA_A} # v0.28.0"
    )));
    assert!(r.text.contains(&format!("- uses: \"quoted/action@{SHA_B}\" # v1")));
    assert!(r.text.contains(&format!("- uses: commented/action@{SHA_C} # 기존 주석")));
    assert!(!r.text.contains("# 기존 주석 # v2"));
    assert!(r.text.contains("- uses: ./local/action"));
    assert!(r.text.contains("- uses: docker://alpine:3.19"));
    assert!(r.text.contains("- uses: pinned/action@0123456789abcdef0123456789abcdef01234567 # v9"));
    assert!(r.text.contains("on: push # 트리거 주석"));
    assert!(r.text.contains("- uses: unknown/action@v3"));
    assert_eq!(r.skipped.len(), 1);
    let (k, why) = r.skipped.entry(0);
    assert_eq!(k, "unknown/action@v3");
    assert_eq!(why, "참조를 찾을 수 없음 — 변경하지 않음");
    assert_eq!(r.changes[0].line, 8);
    assert_eq!(r.changes[0].from, "aquasecurity/trivy-action@v0.28.0");
    assert_eq!(r.changes[0].to, format!("aquasecurity/trivy-action@{SHA_A}"));
    assert_eq!(r.changes[0].file, ".github/workflows/ci.yml");
}

#[test]
fn fix_is_idempotent() {
    let first = run(WORKFLOW, &ctx(), &fake());
    let second = run(&first.text, &ctx(), &fake());
    assert_eq!(second.changes.len(), 0);
    assert!(!second.changed);
    assert_eq!(first.text, second.text);
}

#[test]
fn crlf_line_endings_are_preserved() {
    let crlf = WORKFLOW.replace('\n', "\r\n");
    let r = run(&crlf, &ctx(), &fake());
    assert_eq!(r.text.matches('\n').count(), r.text.matches("\r\n").count());
    assert!(r.text.contains(&format!(
        "- uses: aquasecurity/trivy-action@{SHA_A} # v0.28.0\r\n"
    )));
}

#[test]
fn first_party_refs_are_left_alone() {
    let facts = FakeGithub::new(&[("myorg/tool", "v1", SHA_A), ("other/tool", "v1", SHA_B)]);
    let c = TrustContext::new(Some("myorg".to_string()), Vec::new());
    let r = run(
        "on: push\njobs:\n  b:\n    steps:\n      - uses: myorg/tool@v1\n      - uses: other/tool@v1\n",
        &c,
        &facts,
    );
    assert_eq!(r.changes.len(), 1);
    assert!(r.text.contains("- uses: myorg/tool@v1\n"));
    assert!(r.text.contains(&format!("- uses: other/tool@{SHA_B} # v1\n")));
}

#[test]
fn unchanged_file_comes_back_byte_for_byte_without_final_newline() {
    let text = "a: 1\r\n# c\n- uses: unknown/action@v3";
    let r = run(text, &ctx(), &fake());
    assert!(!r.changed);
    assert_eq!(r.text, text);
}

#[test]
fn lookups_are_cached_and_failures_reported_with_the_error() {
    let facts = fake();
    let mut cache: StrMap<Option<String>> = StrMap::new();
    let mut skipped: StrMap<String> = StrMap::new();
    let c = ctx();
    let first = try_fix_line("- uses: broken/action@v1", &c, &facts, &mut cache, &mut skipped);
    assert!(first.is_none());
    let (k, why) = skipped.entry(0);
    assert_eq!(k, "broken/action@v1");
    assert!(why.starts_with("해석 실패 — 변경하지 않음: "));
    assert!(why.contains("boom"));
    assert_eq!(cache.len(), 1);
    let hit = try_fix_line("  uses: quoted/action@v1 # keep", &c, &facts, &mut cache, &mut skipped)
        .unwrap();
    assert_eq!(hit.0, format!("  uses: quoted/action@{SHA_B} # keep"));
    assert_eq!(cache.len(), 2);
    assert!(try_fix_line("name: x", &c, &facts, &mut cache, &mut skipped).is_none());
}

struct CountingGithub {
    calls: std::cell::Cell<usize>,
}

impl GithubFacts for CountingGithub {
    fn resolve_ref(&self, _owner_repo: &str, git_ref: &str) -> io::Result<Option<String>> {
        self.calls.set(self.calls.get() + 1);
        if git_ref == "v1" {
            Ok(Some(SHA_A.to_string()))
        } else {
            Ok(None)
        }
    }
}

#[test]
fn each_ref_is_looked_up_once_and_other_refs_stay() {
    let facts = CountingGithub { calls: std::cell::Cell::new(0) };
    let mut cache: StrMap<Option<String>> = StrMap::new();
    let mut skipped: StrMap<String> = StrMap::new();
    let c = ctx();
    let a = try_fix_line("- uses: some/tool@v1", &c, &facts, &mut cache, &mut skipped).unwrap();
    assert_eq!(a.2, format!("some/tool@{SHA_A}"));
    let b = try_fix_line("  - uses: some/tool/sub@v1", &c, &facts, &mut cache, &mut skipped).unwrap();
    assert_eq!(b.2, format!("some/tool/sub@{SHA_A}"));
    assert_eq!(facts.calls.get(), 1);
    assert!(try_fix_line("- uses: some/tool@v2", &c, &facts, &mut cache, &mut skipped).is_none());
    assert!(try_fix_line("- uses: some/tool@v2", &c, &facts, &mut cache, &mut skipped).is_none());
    assert_eq!(facts.calls.get(), 2);
    assert_eq!(cache.len(), 2);
    assert_eq!(skipped.len(), 1);
    assert_eq!(skipped.entry(0).0, "some/tool@v2");
    assert_eq!(cache.get("some/tool@v1"), Some(&Some(SHA_A.to_string())));
    assert!(try_fix_line("- uses: ./local", &c, &facts, &mut cache, &mut skipped).is_none());
    assert_eq!(facts.calls.get(), 2);
}
