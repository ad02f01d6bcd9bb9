use password_rules_validator::{
    diff_rule_sets, find_site, validate_rules, DiffError, Mismatch, RuleEntry, SiteReport,
};

fn entry(site: &str, raw: &str) -> RuleEntry {
    RuleEntry {
        site: site.to_string(),
        raw_rule: raw.to_string(),
    }
}

#[test]
fn scenario_a_validation_suggests_shortened_allowed() {
    let entries = vec![entry(
        "example.com",
        "minlength: 8; required: upper; allowed: upper, lower, digit",
    )];
    let report = validate_rules(&entries);
    assert_eq!(report.failed, 0);
    match &report.sites[0] {
        SiteReport::Shortenable(classes) => {
            let names: Vec<String> = classes.iter().map(|c| format!("{:?}", c)).collect();
            assert_eq!(names, vec!["Lower", "Digit"]);
        }
        other => panic!("unexpected report {:?}", other),
    }
}

#[test]
fn validation_reports_minimal_rule() {
    let entries = vec![entry("a.com", "required: upper; allowed: lower")];
    let report = validate_rules(&entries);
    assert_eq!(report.failed, 0);
    assert!(matches!(report.sites[0], SiteReport::Minimal));
}

#[test]
fn scenario_e_syntax_error_is_counted_and_others_still_checked() {
    let entries = vec![
        entry("a.com", "minlength 8"),
        entry("b.com", "required: upper; allowed: upper, lower"),
        entry("c.com", "allowed: lower"),
    ];
    let report = validate_rules(&entries);
    assert_eq!(report.sites.len(), 3);
    assert_eq!(report.failed, 1);
    assert!(matches!(report.sites[0], SiteReport::Unparsable(_)));
    assert!(matches!(report.sites[1], SiteReport::Shortenable(_)));
    assert!(matches!(report.sites[2], SiteReport::Minimal));
}

#[test]
fn blank_rule_does_not_parse() {
    let report = validate_rules(&vec![entry("a.com", ""), entry("b.com", "   ")]);
    assert_eq!(report.failed, 2);
}

#[test]
fn validation_of_no_sites() {
    let report = validate_rules(&vec![]);
    assert_eq!(report.failed, 0);
    assert!(report.sites.is_empty());
}

#[test]
fn scenario_b_diff_with_swapped_required_is_equivalent() {
    let primary = vec![entry("a.com", "minlength: 8; required: upper, lower")];
    let secondary = vec![entry("a.com", "minlength: 8; required: lower, upper")];
    assert!(diff_rule_sets(&primary, &secondary).is_ok());
}

#[test]
fn diff_ignores_site_order_and_redundant_allowed() {
    let primary = vec![
        entry("a.com", "required: upper; allowed: upper, lower"),
        entry("b.com", "maxlength: 16"),
    ];
    let secondary = vec![
        entry("b.com", "maxlength: 16"),
        entry("a.com", "required: upper; allowed: lower"),
    ];
    assert!(diff_rule_sets(&primary, &secondary).is_ok());
}

#[test]
fn scenario_d_diff_count_mismatch() {
    let primary = vec![entry("A", "minlength: 8"), entry("B", "minlength: 8")];
    let secondary = vec![entry("A", "minlength: 8")];
    assert!(matches!(
        diff_rule_sets(&primary, &secondary),
        Err(DiffError::CountMismatch(2, 1))
    ));
}

#[test]
fn diff_missing_site() {
    let primary = vec![entry("A", "minlength: 8"), entry("B", "minlength: 8")];
    let secondary = vec![entry("A", "minlength: 8"), entry("C", "minlength: 8")];
    assert!(matches!(
        diff_rule_sets(&primary, &secondary),
        Err(DiffError::MissingSite(1))
    ));
}

#[test]
fn diff_primary_unparsable() {
    let primary = vec![entry("A", "minlength 8")];
    let secondary = vec![entry("A", "minlength: 8")];
    assert!(matches!(
        diff_rule_sets(&primary, &secondary),
        Err(DiffError::PrimaryUnparsable(0, _))
    ));
}

#[test]
fn diff_secondary_unparsable() {
    let primary = vec![entry("A", "minlength: 8")];
    let secondary = vec![entry("A", "required upper")];
    assert!(matches!(
        diff_rule_sets(&primary, &secondary),
        Err(DiffError::SecondaryUnparsable(0, _))
    ));
}

#[test]
fn diff_not_equivalent_reports_site_and_check() {
    let primary = vec![entry("A", "minlength: 8"), entry("B", "minlength: 8; maxlength: 20")];
    let secondary = vec![entry("A", "minlength: 8"), entry("B", "minlength: 8; maxlength: 24")];
    assert!(matches!(
        diff_rule_sets(&primary, &secondary),
        Err(DiffError::NotEquivalent(1, Mismatch::MaxLength(Some(20), Some(24))))
    ));
}

#[test]
fn diff_of_empty_files() {
    assert!(diff_rule_sets(&vec![], &vec![]).is_ok());
}

#[test]
fn find_site_gives_first_match() {
    let entries = vec![entry("A", "x"), entry("B", "y"), entry("B", "z")];
    assert_eq!(find_site(&entries, &"B".to_string()), Some(1));
    assert_eq!(find_site(&entries, &"C".to_string()), None);
}
