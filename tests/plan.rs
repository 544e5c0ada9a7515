use sports_day::{build_plan, ApplicabilityRules, Configuration, Event, Form, Plan, Score, Year};

fn s(x: &str) -> String {
    x.to_string()
}

fn ids(xs: &[&str]) -> Vec<String> {
    xs.iter().map(|x| x.to_string()).collect()
}

fn year(id: &str) -> Year {
    Year { id: s(id), name: format!("Year {}", id) }
}

fn form(id: &str) -> Form {
    Form { id: s(id), name: format!("Form {}", id), colour: s("lightgreen") }
}

fn event(id: &str, years: ApplicabilityRules, forms: ApplicabilityRules, genders: ApplicabilityRules) -> Event {
    Event {
        id: s(id),
        name: format!("Event {}", id),
        applicable_years: years,
        applicable_forms: forms,
        applicable_genders: genders,
    }
}

fn example(forms_rule: ApplicabilityRules) -> Configuration {
    Configuration {
        version: s("v1"),
        genders: ids(&["M", "F"]),
        scores: vec![],
        years: vec![year("y1")],
        forms: vec![form("f1"), form("f2")],
        events: vec![event("e1", ApplicabilityRules::All, forms_rule, ApplicabilityRules::All)],
    }
}

fn event_ids(plan: &Plan, year_index: usize) -> Vec<String> {
    plan.year_plans[year_index].events.iter().map(|e| e.id.clone()).collect()
}

#[test]
fn example_include_form_compiles_two_event_plans() {
    let plan = build_plan(example(ApplicabilityRules::Include { ids: ids(&["f1"]) }));
    assert_eq!(plan.year_plans.len(), 1);
    assert_eq!(plan.year_plans[0].id, "y1");
    assert_eq!(event_ids(&plan, 0), vec![s("y1-M-e1"), s("y1-F-e1")]);
    for e in plan.year_plans[0].events.iter() {
        assert_eq!(e.name, "Event e1");
        let ledger: Vec<(String, i64)> = e.scores.iter().map(|l| (l.form_id.clone(), l.points)).collect();
        assert_eq!(ledger, vec![(s("f1"), 0), (s("f2"), 0)]);
        assert_eq!(e.scores_text(), r#"{"f1":0,"f2":0}"#);
    }
    assert_eq!(plan.year_plans[0].events[0].gender_id, "M");
    assert_eq!(plan.year_plans[0].events[1].gender_id, "F");
}

#[test]
fn example_no_forms_rule_compiles_no_event_plans() {
    let plan = build_plan(example(ApplicabilityRules::Disabled));
    assert_eq!(plan.year_plans.len(), 1);
    assert_eq!(plan.year_plans[0].id, "y1");
    assert!(plan.year_plans[0].events.is_empty());
}

#[test]
fn disabled_gender_rule_yields_no_event_plans_in_any_year() {
    let config = Configuration {
        version: s("v1"),
        genders: ids(&["M", "F"]),
        scores: vec![],
        years: vec![year("y1"), year("y2")],
        forms: vec![form("f1")],
        events: vec![
            event("e1", ApplicabilityRules::All, ApplicabilityRules::All, ApplicabilityRules::Disabled),
            event("e2", ApplicabilityRules::All, ApplicabilityRules::All, ApplicabilityRules::All),
        ],
    };
    let plan = build_plan(config);
    assert_eq!(event_ids(&plan, 0), vec![s("y1-M-e2"), s("y1-F-e2")]);
    assert_eq!(event_ids(&plan, 1), vec![s("y2-M-e2"), s("y2-F-e2")]);
}

#[test]
fn event_offered_to_no_form_is_left_out_of_the_year() {
    let config = Configuration {
        version: s("v1"),
        genders: ids(&["M"]),
        scores: vec![],
        years: vec![year("y1")],
        forms: vec![form("f1"), form("f2")],
        events: vec![
            event(
                "e1",
                ApplicabilityRules::Include { ids: ids(&["y1"]) },
                ApplicabilityRules::Exclude { ids: ids(&["f1", "f2"]) },
                ApplicabilityRules::All,
            ),
            event("e2", ApplicabilityRules::All, ApplicabilityRules::Include { ids: ids(&["f2"]) }, ApplicabilityRules::All),
        ],
    };
    let plan = build_plan(config);
    assert_eq!(event_ids(&plan, 0), vec![s("y1-M-e2")]);
}

#[test]
fn compiling_twice_gives_identical_plans() {
    let make = || Configuration {
        version: s("v3"),
        genders: ids(&["M", "F", "X"]),
        scores: vec![Score { name: s("1st"), value: 10 }, Score { name: s("2nd"), value: 5 }],
        years: vec![year("y7"), year("y8")],
        forms: vec![form("a"), form("b"), form("c")],
        events: vec![
            event("run", ApplicabilityRules::Exclude { ids: ids(&["y8"]) }, ApplicabilityRules::All, ApplicabilityRules::Include { ids: ids(&["F", "X"]) }),
            event("jump", ApplicabilityRules::All, ApplicabilityRules::Include { ids: ids(&["c"]) }, ApplicabilityRules::All),
        ],
    };
    let first = build_plan(make());
    let second = build_plan(make());
    assert_eq!(first.year_plans.len(), second.year_plans.len());
    for (a, b) in first.year_plans.iter().zip(second.year_plans.iter()) {
        assert_eq!(a.id, b.id);
        assert_eq!(a.name, b.name);
        assert_eq!(a.events.len(), b.events.len());
        for (x, y) in a.events.iter().zip(b.events.iter()) {
            assert_eq!(x.id, y.id);
            assert_eq!(x.name, y.name);
            assert_eq!(x.gender_id, y.gender_id);
            assert_eq!(x.scores_text(), y.scores_text());
        }
    }
    assert_eq!(event_ids(&first, 0), vec![s("y7-F-run"), s("y7-X-run"), s("y7-M-jump"), s("y7-F-jump"), s("y7-X-jump")]);
    assert_eq!(event_ids(&first, 1), vec![s("y8-M-jump"), s("y8-F-jump"), s("y8-X-jump")]);
}

#[test]
fn form_plan_keeps_declaration_order() {
    let plan = build_plan(example(ApplicabilityRules::All));
    let forms: Vec<(String, String)> = plan.form_plan.iter().map(|f| (f.id.clone(), f.name.clone())).collect();
    assert_eq!(forms, vec![(s("f1"), s("Form f1")), (s("f2"), s("Form f2"))]);
}

#[test]
fn score_plan_is_sorted_by_ascending_value() {
    let mut config = example(ApplicabilityRules::All);
    config.scores = vec![
        Score { name: s("first"), value: 10 },
        Score { name: s("last"), value: 1 },
        Score { name: s("second"), value: 5 },
        Score { name: s("also last"), value: 1 },
    ];
    let plan = build_plan(config);
    let tiers: Vec<(String, i64)> = plan.score_plan.iter().map(|t| (t.name.clone(), t.value)).collect();
    assert_eq!(tiers, vec![(s("last"), 1), (s("also last"), 1), (s("second"), 5), (s("first"), 10)]);
}

#[test]
fn empty_configuration_compiles_to_empty_plan() {
    let config = Configuration {
        version: s("v0"),
        genders: vec![],
        scores: vec![],
        years: vec![],
        forms: vec![],
        events: vec![],
    };
    let plan = build_plan(config);
    assert!(plan.year_plans.is_empty());
    assert!(plan.form_plan.is_empty());
    assert!(plan.score_plan.is_empty());
}

#[test]
fn year_without_events_is_still_planned() {
    let mut config = example(ApplicabilityRules::All);
    config.events[0].applicable_years = ApplicabilityRules::Exclude { ids: ids(&["y1"]) };
    config.years.push(year("y2"));
    let plan = build_plan(config);
    assert!(plan.year_plans[0].events.is_empty());
    assert_eq!(event_ids(&plan, 1), vec![s("y2-M-e1"), s("y2-F-e1")]);
}

#[test]
fn ledger_text_of_empty_ledger_is_empty_object() {
    let mut config = example(ApplicabilityRules::All);
    config.forms.clear();
    config.events[0].applicable_forms = ApplicabilityRules::All;
    let plan = build_plan(config);
    // without forms no event is offered to any form
    assert!(plan.year_plans[0].events.is_empty());
    let e = sports_day::EventPlan { id: s("x"), name: s("x"), gender_id: s("M"), scores: vec![] };
    assert_eq!(e.scores_text(), "{}");
}

#[test]
fn ledger_text_holds_points() {
    let e = sports_day::EventPlan {
        id: s("y1-M-e1"),
        name: s("e1"),
        gender_id: s("M"),
        scores: vec![
            sports_day::LedgerEntry { form_id: s("f1"), points: 7 },
            sports_day::LedgerEntry { form_id: s("f2"), points: -2 },
        ],
    };
    assert_eq!(e.scores_text(), r#"{"f1":7,"f2":-2}"#);
}

#[test]
fn dashes_in_ids_can_make_event_plan_ids_collide() {
    let config = Configuration {
        version: s("v1"),
        genders: ids(&["c", "b-c"]),
        scores: vec![],
        years: vec![year("a-b"), year("a")],
        forms: vec![form("f1")],
        events: vec![event("e", ApplicabilityRules::All, ApplicabilityRules::All, ApplicabilityRules::All)],
    };
    let plan = build_plan(config);
    assert_eq!(event_ids(&plan, 0), vec![s("a-b-c-e"), s("a-b-b-c-e")]);
    assert_eq!(event_ids(&plan, 1), vec![s("a-c-e"), s("a-b-c-e")]);
}
