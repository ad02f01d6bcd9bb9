use password_rules_validator::{
    are_equivalent, check_equivalent, normalize, normalize_allowed, required_contains,
    same_group, CharClass, Mismatch, ParsedRule,
};

fn rule(allowed: Vec<CharClass>, required: Vec<Vec<CharClass>>) -> ParsedRule {
    ParsedRule {
        min_length: None,
        max_length: None,
        max_consecutive: None,
        allowed,
        required,
    }
}

fn names(classes: &[CharClass]) -> Vec<String> {
    classes.iter().map(|c| format!("{:?}", c)).collect()
}

#[test]
fn scenario_a_normalize_drops_required_class() {
    let mut r = rule(
        vec![CharClass::Upper, CharClass::Lower, CharClass::Digit],
        vec![vec![CharClass::Upper]],
    );
    r.min_length = Some(8);
    let out = normalize_allowed(&r);
    assert_eq!(names(&out), vec!["Lower", "Digit"]);
}

#[test]
fn normalize_keeps_order_and_other_fields() {
    let mut r = rule(
        vec![CharClass::Special, CharClass::Digit, CharClass::Upper, CharClass::Lower],
        vec![vec![CharClass::Digit, CharClass::Lower]],
    );
    r.max_length = Some(64);
    r.max_consecutive = Some(3);
    let n = normalize(r);
    assert_eq!(names(&n.allowed), vec!["Special", "Upper"]);
    assert_eq!(n.max_length, Some(64));
    assert_eq!(n.max_consecutive, Some(3));
    assert_eq!(n.required.len(), 1);
}

#[test]
fn normalize_with_nothing_required_keeps_everything() {
    let r = rule(vec![CharClass::Lower, CharClass::Unicode], vec![]);
    assert_eq!(names(&normalize_allowed(&r)), vec!["Lower", "Unicode"]);
}

#[test]
fn normalize_empty_allowed() {
    let r = rule(vec![], vec![vec![CharClass::Upper]]);
    assert!(normalize_allowed(&r).is_empty());
}

#[test]
fn normalize_is_idempotent_on_example() {
    let r = rule(
        vec![CharClass::Upper, CharClass::Lower, CharClass::Digit, CharClass::Special],
        vec![vec![CharClass::Lower], vec![CharClass::Special, CharClass::Upper]],
    );
    let once = normalize(r);
    let once_names = names(&once.allowed);
    let twice = normalize(once);
    assert_eq!(names(&twice.allowed), once_names);
    assert_eq!(once_names, vec!["Digit"]);
}

#[test]
fn normalized_allowed_is_subsequence_outside_required() {
    let r = rule(
        vec![CharClass::Special, CharClass::Upper, CharClass::Digit, CharClass::Lower],
        vec![vec![CharClass::Upper]],
    );
    let out = normalize_allowed(&r);
    assert_eq!(names(&out), vec!["Special", "Digit", "Lower"]);
    for c in out.iter() {
        assert!(!required_contains(&r.required, c));
    }
}

#[test]
fn custom_classes_compare_as_sets() {
    let a = CharClass::Custom(vec!['a', 'b']);
    let b = CharClass::Custom(vec!['b', 'a', 'a']);
    let c = CharClass::Custom(vec!['a', 'c']);
    assert!(a.same_class(&b));
    assert!(!a.same_class(&c));
    assert!(!a.same_class(&CharClass::Lower));
    let r = rule(vec![CharClass::Custom(vec!['x', 'y']), CharClass::Digit], vec![vec![
        CharClass::Custom(vec!['y', 'x']),
    ]]);
    assert_eq!(names(&normalize_allowed(&r)), vec!["Digit"]);
}

#[test]
fn duplicate_keeps_the_class() {
    let a = CharClass::Custom(vec!['q', 'r']);
    assert!(a.duplicate().same_class(&a));
    assert!(CharClass::Special.duplicate().same_class(&CharClass::Special));
}

#[test]
fn equivalence_is_reflexive_on_example() {
    let r = normalize(rule(
        vec![CharClass::Lower, CharClass::Digit],
        vec![vec![CharClass::Upper, CharClass::Special]],
    ));
    assert!(are_equivalent(&r, &r));
    assert!(check_equivalent(&r, &r).is_ok());
}

#[test]
fn equivalence_is_symmetric_on_example() {
    let a = rule(vec![CharClass::Lower], vec![vec![CharClass::Upper]]);
    let b = rule(vec![CharClass::Lower], vec![vec![CharClass::Digit]]);
    assert_eq!(are_equivalent(&a, &b), are_equivalent(&b, &a));
    assert!(!are_equivalent(&a, &b));
}

#[test]
fn scenario_b_required_classes_reordered_are_equivalent() {
    let a = rule(vec![CharClass::Digit], vec![vec![CharClass::Upper, CharClass::Lower]]);
    let b = rule(vec![CharClass::Digit], vec![vec![CharClass::Lower, CharClass::Upper]]);
    assert!(are_equivalent(&a, &b));
}

#[test]
fn required_groups_reordered_are_equivalent() {
    let a = rule(vec![], vec![vec![CharClass::Upper], vec![CharClass::Digit, CharClass::Special]]);
    let b = rule(vec![], vec![vec![CharClass::Special, CharClass::Digit], vec![CharClass::Upper]]);
    assert!(are_equivalent(&a, &b));
    assert!(same_group(&a.required[1], &b.required[0]));
}

#[test]
fn scenario_c_allowed_reordered_is_not_equivalent() {
    let a = rule(vec![CharClass::Lower, CharClass::Digit], vec![]);
    let b = rule(vec![CharClass::Digit, CharClass::Lower], vec![]);
    assert!(!are_equivalent(&a, &b));
    assert_eq!(check_equivalent(&a, &b), Err(Mismatch::Allowed));
}

#[test]
fn mismatch_min_length() {
    let mut a = rule(vec![CharClass::Lower], vec![]);
    let b = rule(vec![CharClass::Lower], vec![]);
    a.min_length = Some(8);
    a.max_length = Some(20);
    assert_eq!(check_equivalent(&a, &b), Err(Mismatch::MinLength(Some(8), None)));
}

#[test]
fn mismatch_max_length() {
    let mut a = rule(vec![CharClass::Lower], vec![]);
    let mut b = rule(vec![CharClass::Lower], vec![]);
    a.max_length = Some(20);
    b.max_length = Some(30);
    assert_eq!(check_equivalent(&a, &b), Err(Mismatch::MaxLength(Some(20), Some(30))));
}

#[test]
fn mismatch_max_consecutive() {
    let a = rule(vec![CharClass::Lower], vec![]);
    let mut b = rule(vec![CharClass::Lower], vec![]);
    b.max_consecutive = Some(2);
    assert_eq!(check_equivalent(&a, &b), Err(Mismatch::MaxConsecutive(None, Some(2))));
}

#[test]
fn mismatch_required_only_in_first() {
    let a = rule(vec![], vec![vec![CharClass::Upper], vec![CharClass::Digit]]);
    let b = rule(vec![], vec![vec![CharClass::Upper]]);
    assert_eq!(check_equivalent(&a, &b), Err(Mismatch::RequiredOnlyInFirst(1)));
}

#[test]
fn mismatch_required_only_in_second() {
    let a = rule(vec![], vec![vec![CharClass::Upper]]);
    let b = rule(vec![], vec![vec![CharClass::Upper], vec![CharClass::Upper, CharClass::Digit]]);
    assert_eq!(check_equivalent(&a, &b), Err(Mismatch::RequiredOnlyInSecond(1)));
}

#[test]
fn required_groups_compared_as_sets() {
    let a = rule(vec![], vec![vec![CharClass::Upper], vec![CharClass::Upper]]);
    let b = rule(vec![], vec![vec![CharClass::Upper]]);
    assert!(are_equivalent(&a, &b));
}
