use just_shield::advisory::{advisory_fields, Advisory, AdvisoryDb};

#[test]
fn bundled_snapshot_parses_and_contains_real_world_entry() {
    let db = AdvisoryDb::bundled();
    assert!(!db.is_empty());
    let advisory = db
        .lookup(
            "tj-actions/changed-files",
            "0e58ed8671d6b60d0890c21b07f8835ace038e67",
        )
        .expect("실세계 권고(CVE-2025-30066)가 동봉돼야 한다");
    assert_eq!(advisory.source, "CVE-2025-30066");
}

#[test]
fn lookup_is_case_insensitive_and_misses_are_none() {
    let db = AdvisoryDb::parse("Evil/Action@V1.0.0 GHSA-test 설명 텍스트\n# 주석\n");
    assert!(db.lookup("evil/action", "v1.0.0").is_some());
    assert!(db.lookup("evil/action", "v1.0.1").is_none());
    assert!(db.lookup("good/action", "v1.0.0").is_none());
}

#[test]
fn later_line_for_the_same_reference_wins_and_len_counts_distinct() {
    let db = AdvisoryDb::parse("a/b@v1 FIRST one\nA/B@V1 SECOND two\nc/d@v2 THIRD three\n");
    assert_eq!(db.len(), 2);
    let adv = db.lookup("a/b", "v1").unwrap();
    assert_eq!(adv.source, "SECOND");
    assert_eq!(adv.note, "two");
}

#[test]
fn lowered_keys_are_stored_and_found_exactly() {
    let line: Vec<char> = "x/y@v3 SRC some  note ".chars().collect();
    let (r, s, n) = advisory_fields(&line).unwrap();
    assert_eq!(r.iter().collect::<String>(), "x/y@v3");
    assert_eq!(s.iter().collect::<String>(), "SRC");
    assert_eq!(n.iter().collect::<String>(), "some  note");
    let solo: Vec<char> = "solo".chars().collect();
    assert!(advisory_fields(&solo).is_none());

    let mut db = AdvisoryDb::parse("");
    db.insert("x/y@v3".to_string(), Advisory { source: "A".to_string(), note: String::new() });
    db.insert("x/y@v3".to_string(), Advisory { source: "B".to_string(), note: String::new() });
    assert_eq!(db.len(), 1);
    assert_eq!(db.lookup_lowered("x/y@v3").unwrap().source, "B");
    // A lowered lookup does not fold case itself.
    assert!(db.lookup_lowered("X/Y@v3").is_none());
    assert!(db.lookup("X/Y", "V3").is_some());
}
