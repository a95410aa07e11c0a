use just_shield::trust::{owner_from_git_config, Trust, TrustContext};

fn ctx(repo_owner: Option<&str>, trusted: &[&str]) -> TrustContext {
    TrustContext::new(
        repo_owner.map(str::to_string),
        trusted.iter().map(|s| s.to_string()).collect(),
    )
}

#[test]
fn same_owner_is_first_party_case_insensitive() {
    assert_eq!(
        ctx(Some("myorg"), &[]).classify("MyOrg/tool"),
        Trust::FirstParty
    );
}

#[test]
fn configured_trusted_org_is_first_party() {
    let c = ctx(Some("myorg"), &["partner-org"]);
    assert_eq!(c.classify("Partner-Org/tool"), Trust::FirstParty);
    assert_eq!(c.classify("stranger/tool"), Trust::ThirdParty);
}

#[test]
fn github_owned_actions_are_official() {
    assert_eq!(
        ctx(Some("myorg"), &[]).classify("actions/checkout"),
        Trust::Official
    );
    assert_eq!(
        ctx(None, &[]).classify("github/codeql-action"),
        Trust::Official
    );
}

#[test]
fn everyone_else_is_third_party_even_security_vendors() {
    assert_eq!(
        ctx(Some("myorg"), &[]).classify("aquasecurity/trivy-action"),
        Trust::ThirdParty
    );
    assert_eq!(ctx(None, &[]).classify("myorg/tool"), Trust::ThirdParty);
}

#[test]
fn extracts_owner_from_https_and_ssh_urls() {
    let https = "[remote \"origin\"]\n\turl = https://github.com/kihyun1998/just-shield.git\n";
    assert_eq!(owner_from_git_config(https).as_deref(), Some("kihyun1998"));
    let ssh = "[core]\n\tbare = false\n[remote \"origin\"]\n\turl = git@github.com:someorg/repo.git\n";
    assert_eq!(owner_from_git_config(ssh).as_deref(), Some("someorg"));
}

#[test]
fn non_github_or_missing_origin_yields_none() {
    let gitlab = "[remote \"origin\"]\n\turl = https://gitlab.com/o/r.git\n";
    assert_eq!(owner_from_git_config(gitlab), None);
    assert_eq!(owner_from_git_config("[core]\n\tbare = false\n"), None);
}
