use just_shield::dns_observer::{
    extract_qname, first_nameserver, observe_query, observing_resolv, render_record,
};
use just_shield::sorted::StrSet;

/// A header (12 bytes), the QNAME labels, 0x00, then QTYPE/QCLASS.
fn query_packet(name: &str) -> Vec<u8> {
    let mut p = vec![
        0x12, 0x34, // ID
        0x01, 0x00, // flags: standard query
        0x00, 0x01, // QDCOUNT = 1
        0x00, 0x00, 0x00, 0x00, 0x00, 0x00,
    ];
    for label in name.split('.') {
        p.push(label.len() as u8);
        p.extend_from_slice(label.as_bytes());
    }
    p.push(0x00);
    p.extend_from_slice(&[0x00, 0x01, 0x00, 0x01]);
    p
}

fn set_of(items: &[&str]) -> StrSet {
    let mut s = StrSet::new();
    for i in items {
        s.insert(i.to_string());
    }
    s
}

#[test]
fn extracts_simple_and_multi_label_names() {
    assert_eq!(
        extract_qname(&query_packet("ghcr.io")).as_deref(),
        Some("ghcr.io")
    );
    assert_eq!(
        extract_qname(&query_packet("abc123.blob.core.windows.net")).as_deref(),
        Some("abc123.blob.core.windows.net")
    );
}

#[test]
fn lowercases_names() {
    assert_eq!(
        extract_qname(&query_packet("GHCR.IO")).as_deref(),
        Some("ghcr.io")
    );
}

#[test]
fn rejects_compression_pointer_in_question() {
    let mut p = query_packet("evil.net");
    p[12] = 0xC0;
    assert_eq!(extract_qname(&p), None);
}

#[test]
fn rejects_truncated_and_empty() {
    assert_eq!(extract_qname(&[0u8; 5]), None);
    let mut p = query_packet("x.com");
    p[4] = 0;
    p[5] = 0;
    assert_eq!(extract_qname(&p), None);
    let mut bad = vec![0x12, 0x34, 0x01, 0x00, 0x00, 0x01, 0, 0, 0, 0, 0, 0];
    bad.push(0x40);
    assert_eq!(extract_qname(&bad), None);
}

#[test]
fn first_nameserver_skips_localhost() {
    let resolv = "# comment\nnameserver 127.0.0.1\nnameserver 8.8.8.8\noptions edns0\n";
    assert_eq!(first_nameserver(resolv).as_deref(), Some("8.8.8.8"));
    assert_eq!(first_nameserver("options edns0\n"), None);
}

#[test]
fn observing_resolv_keeps_original_as_fallback() {
    let original = "nameserver 8.8.8.8\nnameserver 1.1.1.1\noptions edns0\n";
    let out = observing_resolv(original);
    let lines: Vec<&str> = out
        .lines()
        .filter(|l| l.starts_with("nameserver"))
        .collect();
    assert_eq!(lines[0], "nameserver 127.0.0.1");
    assert!(lines.contains(&"nameserver 8.8.8.8"));
    assert!(lines.contains(&"nameserver 1.1.1.1"));
    assert!(out.contains("options edns0"));
}

#[test]
fn record_format_matches_observe_reader() {
    let set = set_of(&["ghcr.io", "crates.io"]);
    let text = render_record("release", &set);
    let parsed = just_shield::observe::parse_record(&text).unwrap();
    assert_eq!(parsed.job, "release");
    assert!(parsed.domains.contains("ghcr.io"));
    assert!(parsed.domains.contains("crates.io"));
}

#[test]
fn rejects_labels_with_non_hostname_bytes_and_root_only_names() {
    let mut p = query_packet("ev!l.net");
    assert_eq!(extract_qname(&p), None);
    p = vec![0x12, 0x34, 0x01, 0x00, 0x00, 0x01, 0, 0, 0, 0, 0, 0, 0x00];
    assert_eq!(extract_qname(&p), None);
    // A name with no terminating root label is truncated.
    let mut q = query_packet("a.b");
    q.truncate(12 + 4);
    assert_eq!(extract_qname(&q), None);
}

#[test]
fn observing_resolv_drops_comments_and_duplicate_localhost_exactly() {
    let out = observing_resolv("# old\nnameserver 127.0.0.1\nsearch corp\r\nnameserver 9.9.9.9");
    assert_eq!(
        out,
        "# just-shield observe — 127.0.0.1 우선, 원본은 폴백.\nnameserver 127.0.0.1\nsearch corp\nnameserver 9.9.9.9\n"
    );
}

#[test]
fn first_nameserver_trims_and_ignores_empty_addresses() {
    assert_eq!(
        first_nameserver("  nameserver   10.0.0.2  \n").as_deref(),
        Some("10.0.0.2")
    );
    assert_eq!(first_nameserver("nameserver \nnameserver 127.0.0.1\n"), None);
}

#[test]
fn render_record_writes_header_job_and_sorted_domains() {
    let set = set_of(&["zeta.io", "alpha.io"]);
    assert_eq!(
        render_record("build", &set),
        "# just-shield observe 기록 — 잡 'build'이 조회한 도메인.\njob build\nalpha.io\nzeta.io\n"
    );
}

#[test]
fn observe_query_records_each_new_name_once() {
    let mut seen = StrSet::new();
    let first = observe_query(&mut seen, "build", &query_packet("Crates.IO"));
    assert_eq!(
        first.as_deref(),
        Some("# just-shield observe 기록 — 잡 'build'이 조회한 도메인.\njob build\ncrates.io\n")
    );
    assert!(observe_query(&mut seen, "build", &query_packet("crates.io")).is_none());
    assert!(observe_query(&mut seen, "build", &[0u8; 3]).is_none());
    assert_eq!(seen.len(), 1);
}

#[test]
fn observing_resolv_keeps_the_same_upstream() {
    let orig = "# managed\nnameserver 127.0.0.1\nnameserver 10.0.0.2\nnameserver 10.0.0.3\noptions edns0\n";
    let observed = observing_resolv(orig);
    assert_eq!(first_nameserver(&observed), first_nameserver(orig));
    assert_eq!(first_nameserver(&observed).as_deref(), Some("10.0.0.2"));
    assert_eq!(first_nameserver(&observing_resolv("")), None);
}
