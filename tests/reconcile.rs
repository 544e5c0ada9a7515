use sports_day::{
    build_plan, plan_reconciliation, ApplicabilityRules, Configuration, Event, Form, MemoryStore,
    Plan, ReconcileOutcome, Score, StoreOp, Year,
};

fn s(x: &str) -> String {
    x.to_string()
}

fn plan_of(version: &str, years: &[&str], forms: &[&str], genders: &[&str], events: &[&str]) -> (String, Plan) {
    let config = Configuration {
        version: s(version),
        genders: genders.iter().map(|g| s(g)).collect(),
        scores: vec![Score { name: s("win"), value: 3 }],
        years: years.iter().map(|y| Year { id: s(y), name: s(y) }).collect(),
        forms: forms.iter().map(|f| Form { id: s(f), name: s(f), colour: s("red") }).collect(),
        events: events
            .iter()
            .map(|e| Event {
                id: s(e),
                name: s(e),
                applicable_years: ApplicabilityRules::All,
                applicable_forms: ApplicabilityRules::All,
                applicable_genders: ApplicabilityRules::All,
            })
            .collect(),
    };
    let version = config.get_version();
    (version, build_plan(config))
}

fn event_ids(store: &MemoryStore) -> Vec<String> {
    store.events.iter().map(|e| e.id.clone()).collect()
}

fn year_ids(store: &MemoryStore) -> Vec<String> {
    store.years.iter().map(|y| y.id.clone()).collect()
}

#[test]
fn first_run_applies_plan() {
    let (version, plan) = plan_of("v1", &["y1"], &["f1", "f2"], &["M", "F"], &["e1"]);
    let mut store = MemoryStore::new();
    assert_eq!(store.reconcile(&plan, &version), ReconcileOutcome::Applied);
    assert_eq!(year_ids(&store), vec![s("y1")]);
    assert_eq!(event_ids(&store), vec![s("y1-M-e1"), s("y1-F-e1")]);
    assert_eq!(store.events[0].year_id, "y1");
    assert_eq!(store.events[0].scores, r#"{"f1":0,"f2":0}"#);
    let forms: Vec<String> = store.forms.iter().map(|f| f.id.clone()).collect();
    assert_eq!(forms, vec![s("f1"), s("f2")]);
    assert_eq!(store.scores.len(), 1);
    assert_eq!(store.scores[0].value, 3);
    assert_eq!(store.version, Some(s("v1")));
}

#[test]
fn unchanged_version_is_skipped_without_writes() {
    let (version, plan) = plan_of("v1", &["y1"], &["f1"], &["M"], &["e1"]);
    let mut store = MemoryStore::new();
    assert_eq!(store.reconcile(&plan, &version), ReconcileOutcome::Applied);
    // a different plan under the same version is not applied
    let (_, other) = plan_of("v1", &["y9"], &["f9"], &["X"], &["e9"]);
    let decision = plan_reconciliation(&other, &version, &store.version);
    assert_eq!(decision.outcome, ReconcileOutcome::Skipped);
    assert!(decision.operations.is_empty());
    assert!(decision.version_to_write.is_none());
    assert_eq!(store.reconcile(&other, &version), ReconcileOutcome::Skipped);
    assert_eq!(year_ids(&store), vec![s("y1")]);
    assert_eq!(event_ids(&store), vec![s("y1-M-e1")]);
    assert_eq!(store.version, Some(s("v1")));
}

#[test]
fn changed_version_replaces_everything() {
    let (v1, plan1) = plan_of("v1", &["y1", "y2"], &["f1"], &["M", "F"], &["e1", "e2"]);
    let mut store = MemoryStore::new();
    assert_eq!(store.reconcile(&plan1, &v1), ReconcileOutcome::Applied);
    assert_eq!(store.events.len(), 8);
    let (v2, plan2) = plan_of("v2", &["y3"], &["g1", "g2"], &["X"], &["e3"]);
    assert_eq!(store.reconcile(&plan2, &v2), ReconcileOutcome::Applied);
    assert_eq!(year_ids(&store), vec![s("y3")]);
    assert_eq!(event_ids(&store), vec![s("y3-X-e3")]);
    assert_eq!(store.events[0].scores, r#"{"g1":0,"g2":0}"#);
    let forms: Vec<String> = store.forms.iter().map(|f| f.id.clone()).collect();
    assert_eq!(forms, vec![s("g1"), s("g2")]);
    assert_eq!(store.version, Some(s("v2")));
}

#[test]
fn rebuild_writes_years_before_forms_before_events() {
    let (version, plan) = plan_of("v1", &["y1"], &["f1"], &["M"], &["e1"]);
    let decision = plan_reconciliation(&plan, &version, &None);
    assert_eq!(decision.outcome, ReconcileOutcome::Applied);
    assert_eq!(decision.version_to_write, Some(s("v1")));
    let kinds: Vec<&str> = decision
        .operations
        .iter()
        .map(|op| match op {
            StoreOp::ClearEvents => "clear events",
            StoreOp::ClearForms => "clear forms",
            StoreOp::ClearYears => "clear years",
            StoreOp::ClearScores => "clear scores",
            StoreOp::InsertYear(_) => "year",
            StoreOp::InsertForm(_) => "form",
            StoreOp::InsertEvent(_) => "event",
            StoreOp::InsertScore(_) => "score",
        })
        .collect();
    assert_eq!(
        kinds,
        vec!["clear events", "clear forms", "clear years", "clear scores", "year", "form", "event", "score"]
    );
}

#[test]
fn different_stored_version_rebuilds() {
    let (version, plan) = plan_of("v2", &["y1"], &["f1"], &["M"], &["e1"]);
    let decision = plan_reconciliation(&plan, &version, &Some(s("v1")));
    assert_eq!(decision.outcome, ReconcileOutcome::Applied);
    assert_eq!(decision.operations.len(), 8);
}

#[test]
fn empty_plan_clears_the_store() {
    let (v1, plan1) = plan_of("v1", &["y1"], &["f1"], &["M"], &["e1"]);
    let mut store = MemoryStore::new();
    store.reconcile(&plan1, &v1);
    let (v2, plan2) = plan_of("v2", &[], &[], &[], &[]);
    assert_eq!(store.reconcile(&plan2, &v2), ReconcileOutcome::Applied);
    assert!(store.years.is_empty());
    assert!(store.forms.is_empty());
    assert!(store.events.is_empty());
    assert_eq!(store.scores.len(), 1);
}
