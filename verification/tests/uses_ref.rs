use just_shield::uses_ref::{parse, RefKind, UsesRef};

#[test]
fn classifies_local_and_docker() {
    assert!(matches!(parse("./.github/actions/x"), UsesRef::Local));
    assert!(matches!(
        parse("docker://alpine:3.19"),
        UsesRef::DockerImage
    ));
}

#[test]
fn full_sha_is_immutable() {
    let r = parse("owner/repo@0123456789abcdef0123456789abcdef01234567");
    assert!(matches!(
        r,
        UsesRef::Repository {
            git_ref: Some(RefKind::CommitSha(_)),
            ..
        }
    ));
}

#[test]
fn tag_branch_and_short_sha_are_mutable() {
    for v in ["owner/repo@v4", "owner/repo@main", "owner/repo@abc1234"] {
        assert!(matches!(
            parse(v),
            UsesRef::Repository {
                git_ref: Some(RefKind::Mutable(_)),
                ..
            }
        ));
    }
}

#[test]
fn missing_ref_is_detected() {
    assert!(matches!(
        parse("owner/repo"),
        UsesRef::Repository { git_ref: None, .. }
    ));
}
