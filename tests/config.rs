use sports_day::{ApplicabilityRules, ConfigError, Configuration, Event, Form, IdKind, Score, Year};

fn s(x: &str) -> String {
    x.to_string()
}

fn year(id: &str) -> Year {
    Year { id: s(id), name: format!("Year {}", id) }
}

fn form(id: &str) -> Form {
    Form { id: s(id), name: format!("Form {}", id), colour: s("blue") }
}

fn event(id: &str) -> Event {
    Event {
        id: s(id),
        name: format!("Event {}", id),
        applicable_years: ApplicabilityRules::All,
        applicable_forms: ApplicabilityRules::All,
        applicable_genders: ApplicabilityRules::All,
    }
}

fn config(years: &[&str], forms: &[&str], events: &[&str]) -> Configuration {
    Configuration {
        version: s("v1"),
        genders: vec![s("M")],
        scores: vec![],
        years: years.iter().map(|y| year(y)).collect(),
        forms: forms.iter().map(|f| form(f)).collect(),
        events: events.iter().map(|e| event(e)).collect(),
    }
}

fn duplicate(r: Result<(), ConfigError>) -> (String, String) {
    match r {
        Err(ConfigError::DuplicateId { kind, id }) => {
            let k = match kind {
                IdKind::Year => "year",
                IdKind::Form => "form",
                IdKind::Event => "event",
            };
            (s(k), id)
        }
        Err(ConfigError::Parse { .. }) => panic!("unexpected parse error"),
        Ok(()) => panic!("expected a duplicate id"),
    }
}

#[test]
fn unique_ids_validate() {
    assert!(config(&["y1", "y2"], &["f1", "f2"], &["e1", "e2"]).validate().is_ok());
    assert!(config(&[], &[], &[]).validate().is_ok());
}

#[test]
fn duplicate_year_is_refused() {
    let r = config(&["y1", "y2", "y1"], &["f1", "f1"], &["e1"]).validate();
    assert_eq!(duplicate(r), (s("year"), s("y1")));
}

#[test]
fn duplicate_form_is_refused() {
    let r = config(&["y1"], &["f1", "f2", "f2"], &["e1", "e1"]).validate();
    assert_eq!(duplicate(r), (s("form"), s("f2")));
}

#[test]
fn duplicate_event_is_refused() {
    let r = config(&["y1"], &["f1"], &["e1", "e2", "e3", "e2", "e1"]).validate();
    assert_eq!(duplicate(r), (s("event"), s("e2")));
}

#[test]
fn find_returns_first_match() {
    let mut c = config(&["y1", "y2"], &["f1"], &["e1", "e2"]);
    c.years.push(Year { id: s("y1"), name: s("second y1") });
    assert_eq!(c.find_year("y1").map(|y| y.name.clone()), Some(s("Year y1")));
    assert_eq!(c.find_year("y2").map(|y| y.id.clone()), Some(s("y2")));
    assert!(c.find_year("y3").is_none());
    assert_eq!(c.find_form("f1").map(|f| f.colour.clone()), Some(s("blue")));
    assert!(c.find_form("f9").is_none());
    assert_eq!(c.find_event("e2").map(|e| e.name.clone()), Some(s("Event e2")));
    assert!(c.find_event("").is_none());
}

#[test]
fn scores_come_sorted_by_value() {
    let mut c = config(&[], &[], &[]);
    c.scores = vec![
        Score { name: s("gold"), value: 10 },
        Score { name: s("bronze"), value: 2 },
        Score { name: s("silver"), value: 5 },
        Score { name: s("entry"), value: 2 },
        Score { name: s("penalty"), value: -3 },
    ];
    let sorted: Vec<(String, i64)> = c.get_scores().into_iter().map(|t| (t.name, t.value)).collect();
    assert_eq!(
        sorted,
        vec![(s("penalty"), -3), (s("bronze"), 2), (s("entry"), 2), (s("silver"), 5), (s("gold"), 10)]
    );
    assert_eq!(c.scores[0].name, "gold");
}

#[test]
fn applicable_events_filters_by_year_and_form() {
    let mut c = config(&["y1", "y2"], &["f1", "f2"], &["e1", "e2", "e3"]);
    c.events[0].applicable_years = ApplicabilityRules::Include { ids: vec![s("y2")] };
    c.events[1].applicable_forms = ApplicabilityRules::Exclude { ids: vec![s("f1")] };
    let names = |year: &str, form: &str| -> Vec<String> {
        c.applicable_events(year, s(form)).iter().map(|e| e.id.clone()).collect()
    };
    assert_eq!(names("y1", "f1"), vec![s("e3")]);
    assert_eq!(names("y1", "f2"), vec![s("e2"), s("e3")]);
    assert_eq!(names("y2", "f1"), vec![s("e1"), s("e3")]);
}
