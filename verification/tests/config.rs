use just_shield::config::Config;

#[test]
fn trust_org_lines_are_read_and_others_ignored() {
    let c = Config::parse("# partners\ntrust-org partner-org\n\ntrust-org   \nfuture-setting 1\n  trust-org other \n");
    assert_eq!(c.trusted_owners, vec!["partner-org", "other"]);
    assert!(Config::default().trusted_owners.is_empty());
}

#[test]
fn cooldown_days_is_read_and_the_command_line_wins() {
    let c = Config::parse("trust-org a\ncooldown-days 14\n");
    assert_eq!(c.cooldown_days, Some(14));
    assert_eq!(c.cooldown_with(None), Some(14));
    assert_eq!(c.cooldown_with(Some(3)), Some(3));
    // The last valid line counts; values that are no u32 set nothing.
    let c = Config::parse("cooldown-days 5\ncooldown-days 30\ncooldown-days x1\ncooldown-days 99999999999\n");
    assert_eq!(c.cooldown_days, Some(30));
    assert_eq!(Config::parse("# cooldown-days 9\n").cooldown_days, None);
    assert_eq!(Config::parse("cooldown-days 4294967295\n").cooldown_days, Some(u32::MAX));
    assert_eq!(Config::parse("cooldown-days 4294967296\n").cooldown_days, None);
    assert_eq!(Config::parse("cooldown-days\n").cooldown_days, None);
    assert_eq!(Config::default().cooldown_with(None), None);
}
