use sports_day::{ApplicabilityRules, Configuration, Event, Form, Year};

fn ids(xs: &[&str]) -> Vec<String> {
    xs.iter().map(|x| x.to_string()).collect()
}

#[test]
fn all_accepts_everything() {
    assert!(ApplicabilityRules::All.evaluate("anything"));
    assert!(ApplicabilityRules::All.evaluate(""));
}

#[test]
fn disabled_accepts_nothing() {
    assert!(!ApplicabilityRules::Disabled.evaluate("anything"));
    assert!(!ApplicabilityRules::Disabled.evaluate(""));
}

#[test]
fn include_is_membership() {
    let r = ApplicabilityRules::Include { ids: ids(&["a", "b"]) };
    assert!(r.evaluate("a"));
    assert!(r.evaluate("b"));
    assert!(!r.evaluate("c"));
    assert!(!r.evaluate("ab"));
}

#[test]
fn exclude_is_negated_membership() {
    let r = ApplicabilityRules::Exclude { ids: ids(&["a", "b"]) };
    assert!(!r.evaluate("a"));
    assert!(!r.evaluate("b"));
    assert!(r.evaluate("c"));
}

#[test]
fn empty_include_and_exclude() {
    assert!(!ApplicabilityRules::Include { ids: vec![] }.evaluate("a"));
    assert!(ApplicabilityRules::Exclude { ids: vec![] }.evaluate("a"));
}

#[test]
fn configuration_checks_each_dimension_with_its_rule() {
    let config = Configuration {
        version: "v1".to_string(),
        genders: ids(&["M", "F"]),
        scores: vec![],
        years: vec![Year { id: "y1".to_string(), name: "Y1".to_string() }],
        forms: vec![Form { id: "f1".to_string(), name: "F1".to_string(), colour: "red".to_string() }],
        events: vec![],
    };
    let e = Event {
        id: "e".to_string(),
        name: "E".to_string(),
        applicable_years: ApplicabilityRules::Include { ids: ids(&["y1"]) },
        applicable_forms: ApplicabilityRules::Exclude { ids: ids(&["f1"]) },
        applicable_genders: ApplicabilityRules::Include { ids: ids(&["F"]) },
    };
    assert!(config.is_event_applicable_to_year(&e, "y1"));
    assert!(!config.is_event_applicable_to_year(&e, "y2"));
    assert!(!config.is_event_applicable_to_form(&e, "f1".to_string()));
    assert!(config.is_event_applicable_to_form(&e, "f2".to_string()));
    assert!(config.is_event_applicable_to_gender(&e, "F"));
    assert!(!config.is_event_applicable_to_gender(&e, "M"));
    assert_eq!(config.get_version(), "v1");
}
