use nativelink_scheduler::platform_properties::{PlatformProperties, PlatformPropertyValue};

fn exact(value: &str) -> PlatformPropertyValue {
    PlatformPropertyValue::Exact(value.to_string())
}

fn set(pairs: Vec<(&str, PlatformPropertyValue)>) -> PlatformProperties {
    let mut properties = PlatformProperties::new();
    for (name, value) in pairs {
        properties.insert(name.to_string(), value);
    }
    properties
}

#[test]
fn empty_requirement_is_met_by_any_worker() {
    let required = PlatformProperties::new();
    assert!(required.is_satisfied_by(&PlatformProperties::new()));
    assert!(required.is_satisfied_by(&set(vec![("arch", exact("x86"))])));
}

#[test]
fn exact_property_needs_the_same_text() {
    let required = set(vec![("arch", exact("x86"))]);
    assert!(required.is_satisfied_by(&set(vec![("arch", exact("x86"))])));
    assert!(!required.is_satisfied_by(&set(vec![("arch", exact("arm"))])));
    assert!(!required.is_satisfied_by(&set(vec![("arch", exact("x86_64"))])));
    assert!(!required.is_satisfied_by(&set(vec![("arch", exact(""))])));
}

#[test]
fn missing_property_fails_the_match() {
    let required = set(vec![("arch", exact("x86")), ("os", exact("linux"))]);
    assert!(!required.is_satisfied_by(&set(vec![("arch", exact("x86"))])));
    assert!(!required.is_satisfied_by(&PlatformProperties::new()));
    assert!(required.is_satisfied_by(&set(vec![("os", exact("linux")), ("arch", exact("x86"))])));
}

#[test]
fn what_is_not_required_plays_no_part() {
    let required = set(vec![("arch", exact("x86"))]);
    let advertised = set(vec![
        ("gpu", exact("none")),
        ("arch", exact("x86")),
        ("cores", PlatformPropertyValue::Minimum(2)),
    ]);
    assert!(required.is_satisfied_by(&advertised));
}

#[test]
fn minimum_property_needs_at_least_as_much() {
    let required = set(vec![("cores", PlatformPropertyValue::Minimum(4))]);
    assert!(required.is_satisfied_by(&set(vec![("cores", PlatformPropertyValue::Minimum(4))])));
    assert!(required.is_satisfied_by(&set(vec![("cores", PlatformPropertyValue::Minimum(64))])));
    assert!(!required.is_satisfied_by(&set(vec![("cores", PlatformPropertyValue::Minimum(3))])));
    assert!(!required.is_satisfied_by(&set(vec![("cores", PlatformPropertyValue::Minimum(0))])));
}

#[test]
fn kinds_do_not_mix() {
    let wants_number = set(vec![("cores", PlatformPropertyValue::Minimum(4))]);
    assert!(!wants_number.is_satisfied_by(&set(vec![("cores", exact("4"))])));
    let wants_text = set(vec![("cores", exact("4"))]);
    assert!(!wants_text.is_satisfied_by(&set(vec![("cores", PlatformPropertyValue::Minimum(4))])));
}

#[test]
fn value_test_agrees_with_the_set_test() {
    assert!(exact("a").is_satisfied_by(&exact("a")));
    assert!(!exact("a").is_satisfied_by(&exact("b")));
    assert!(PlatformPropertyValue::Minimum(0).is_satisfied_by(&PlatformPropertyValue::Minimum(0)));
    assert!(PlatformPropertyValue::Minimum(u64::MAX)
        .is_satisfied_by(&PlatformPropertyValue::Minimum(u64::MAX)));
    assert!(!PlatformPropertyValue::Minimum(u64::MAX)
        .is_satisfied_by(&PlatformPropertyValue::Minimum(u64::MAX - 1)));
}

#[test]
fn insert_replaces_the_value_under_a_name() {
    let mut properties = PlatformProperties::new();
    assert_eq!(properties.len(), 0);
    properties.insert("arch".to_string(), exact("arm"));
    properties.insert("os".to_string(), exact("linux"));
    properties.insert("arch".to_string(), exact("x86"));
    assert_eq!(properties.len(), 2);
    match properties.get(&"arch".to_string()) {
        Some(PlatformPropertyValue::Exact(text)) => assert_eq!(text, "x86"),
        _ => panic!("the value under arch is gone"),
    }
    assert!(properties.get(&"gpu".to_string()).is_none());
    let required = set(vec![("arch", exact("x86"))]);
    assert!(required.is_satisfied_by(&properties));
    let stale = set(vec![("arch", exact("arm"))]);
    assert!(!stale.is_satisfied_by(&properties));
}

#[test]
fn copy_matches_as_the_set_it_was_made_from() {
    let first = set(vec![("arch", exact("x86")), ("cores", PlatformPropertyValue::Minimum(8))]);
    let copy = first.clone();
    assert_eq!(copy.len(), 2);
    assert!(first.is_satisfied_by(&copy));
    assert!(copy.is_satisfied_by(&first));
    let more = set(vec![("cores", PlatformPropertyValue::Minimum(9))]);
    assert!(!more.is_satisfied_by(&copy));
}

#[test]
fn same_inputs_give_the_same_answer() {
    let required = set(vec![("arch", exact("x86"))]);
    let advertised = set(vec![("arch", exact("x86"))]);
    let first = required.is_satisfied_by(&advertised);
    let second = required.is_satisfied_by(&advertised);
    assert_eq!(first, second);
    assert!(first);
}

#[test]
fn set_with_a_repeated_name_is_not_well_formed() {
    assert!(PlatformProperties::new().is_well_formed());
    let good = set(vec![("arch", exact("x86")), ("os", exact("linux")), ("arch", exact("arm"))]);
    assert!(good.is_well_formed());
    let mut bad = PlatformProperties::new();
    bad.entries.push(("arch".to_string(), exact("x86")));
    bad.entries.push(("os".to_string(), exact("linux")));
    assert!(bad.is_well_formed());
    bad.entries.push(("arch".to_string(), exact("arm")));
    assert!(!bad.is_well_formed());
}
