use just_shield::egress_lockfile::{normalize, EgressLock};

#[test]
fn parse_render_roundtrip_is_deterministic() {
    let text = "[release]\nghcr.io\ncrates.io # 발행\n\n[build]\n*.blob.core.windows.net\n";
    let lock = EgressLock::parse(text).unwrap();
    let rendered = lock.render();
    let reparsed = EgressLock::parse(&rendered).unwrap();
    assert_eq!(rendered, reparsed.render());
    assert!(rendered.find("[build]").unwrap() < rendered.find("[release]").unwrap());
    assert!(lock.job("release").unwrap().patterns.contains("crates.io"));
}

#[test]
fn wildcard_matches_exactly_one_label() {
    assert!(just_shield::egress_lockfile::matches("*.example.com", "a.example.com"));
    assert!(just_shield::egress_lockfile::matches("*.example.com", "A.EXAMPLE.COM."));
    assert!(!just_shield::egress_lockfile::matches("*.example.com", "a.b.example.com"));
    assert!(!just_shield::egress_lockfile::matches("*.example.com", "example.com"));
    assert!(!just_shield::egress_lockfile::matches("*.example.com", "aexample.com"));
    assert!(just_shield::egress_lockfile::matches("ghcr.io", "GHCR.IO"));
    assert!(!just_shield::egress_lockfile::matches("ghcr.io", "evil-ghcr.io"));
}

#[test]
fn invalid_patterns_are_rejected() {
    for bad in [
        "[j]\n*.*.example.com",
        "[j]\na.*.b",
        "[j]\n**",
        "[j]\nhas space.com",
        "orphan.com",
        "[]\n",
    ] {
        assert!(EgressLock::parse(bad).is_err(), "통과되면 안 됨: {bad}");
    }
}

#[test]
fn missing_job_is_none() {
    let lock = EgressLock::parse("[release]\nghcr.io\n").unwrap();
    assert!(lock.job("build").is_none());
    assert!(lock.job("release").is_some());
}

#[test]
fn parse_errors_name_the_line() {
    assert_eq!(
        EgressLock::parse("[a]\nx.io\n[a]\n").err().as_deref(),
        Some("3행: 잡 'a' 구획이 중복됩니다")
    );
    assert_eq!(
        EgressLock::parse("\n  [ ]\n").err().as_deref(),
        Some("2행: 잡 이름이 빈 구획입니다")
    );
    assert_eq!(
        EgressLock::parse("# c\nx.io\n").err().as_deref(),
        Some("2행: 잡 구획(`[이름]`) 앞에 도메인이 나왔습니다")
    );
    assert_eq!(
        EgressLock::parse("[j]\na.*.b\n").err().as_deref(),
        Some("2행: 'a.*.b' — 와일드카드는 선행 라벨 1개(`*.example.com`)만 허용됩니다")
    );
}

#[test]
fn render_is_sorted_and_exact() {
    let lock = EgressLock::parse("[z]\nB.io.\na.io\n[a]\n").unwrap();
    assert_eq!(
        lock.render(),
        "# egress.lock — 잡별 허용 통신 목적지 (just-shield 층 ⓒ, ADR-0006).\n# 여기 적힌 잡만 대조 대상 — 미등재 목적지 관찰 = 🔴. 와일드카드는 사람이 명시적으로만.\n\n[a]\n\n[z]\na.io\nb.io\n"
    );
    assert_eq!(lock.job("z").unwrap().line, 1);
    assert_eq!(lock.job("a").unwrap().line, 4);
}

#[test]
fn normalize_trims_lowercases_and_drops_trailing_dots() {
    assert_eq!(normalize("  GitHub.COM.. "), "github.com");
}
