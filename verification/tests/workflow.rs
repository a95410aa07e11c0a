use just_shield::workflow::{extract_uses_value, parse_workflow};

#[test]
fn extracts_plain_and_list_item() {
    assert_eq!(
        extract_uses_value("      - uses: actions/checkout@v4"),
        Some("actions/checkout@v4".to_string())
    );
    assert_eq!(
        extract_uses_value("        uses: owner/repo@main"),
        Some("owner/repo@main".to_string())
    );
}

#[test]
fn extracts_quoted_values() {
    assert_eq!(
        extract_uses_value(r#"      - uses: "owner/repo@v1""#),
        Some("owner/repo@v1".to_string())
    );
    assert_eq!(
        extract_uses_value("      - uses: 'owner/repo@v1'"),
        Some("owner/repo@v1".to_string())
    );
}

#[test]
fn drops_trailing_comment() {
    assert_eq!(
        extract_uses_value("      - uses: owner/repo@abc123 # v2"),
        Some("owner/repo@abc123".to_string())
    );
}

#[test]
fn ignores_commented_lines_and_non_uses() {
    assert_eq!(extract_uses_value("      # uses: owner/repo@v1"), None);
    assert_eq!(extract_uses_value("      - run: echo uses: nothing"), None);
    assert_eq!(extract_uses_value("      uses:foo"), None);
}

const SAMPLE: &str = "name: CI\non: pull_request_target\npermissions: write-all\njobs:\n  build:\n    runs-on: ubuntu-latest\n    steps:\n      - uses: actions/checkout@v4\n        with:\n          ref: ${{ github.event.pull_request.head.sha }}\n      - run: cargo test\n  deploy:\n    permissions:\n      contents: read\n    steps:\n      - uses: evil/tool@v1\n        env:\n          T: ${{ secrets.TOKEN }}\n";

#[test]
fn parses_triggers_permissions_jobs_steps() {
    let doc = parse_workflow(SAMPLE);
    assert!(doc.on_text.contains("pull_request_target"));
    assert!(
        doc.workflow_permissions
            .as_ref()
            .is_some_and(|(_, v)| v.contains("write-all"))
    );
    assert_eq!(doc.jobs.len(), 2);

    let build = &doc.jobs[0];
    assert_eq!(build.name, "build");
    assert!(build.permissions.is_none());
    assert!(!build.uses_secrets);
    assert_eq!(build.steps.len(), 2);
    assert_eq!(build.steps[0].uses.as_deref(), Some("actions/checkout@v4"));
    assert!(
        build.steps[0]
            .text
            .contains("github.event.pull_request.head")
    );

    let deploy = &doc.jobs[1];
    assert!(deploy.permissions.is_some());
    assert!(deploy.uses_secrets);
    assert_eq!(deploy.steps[0].uses.as_deref(), Some("evil/tool@v1"));
}
