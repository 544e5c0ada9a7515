use sports_day::{scoreboard, Events};

fn s(x: &str) -> String {
    x.to_string()
}

fn ev(id: &str, year: &str, scores: &str) -> Events {
    Events::new(s(id), s(id), s(year), s("M"), s(scores))
}

#[test]
fn sums_points_by_year_and_form() {
    let events = vec![
        ev("a", "y1", r#"{"f1":"10","f2":"5"}"#),
        ev("b", "y1", r#"{"f1":"3"}"#),
        ev("c", "y2", r#"{"f2":"7","f3":"100"}"#),
    ];
    let t = scoreboard(&events, &vec![s("y1"), s("y2")], &vec![s("f1"), s("f2")]).unwrap();
    assert_eq!(t.cells, vec![vec![13, 5], vec![0, 7]]);
    // a year's total counts every form named in its ledgers
    assert_eq!(t.year_totals, vec![18, 107]);
    assert_eq!(t.form_totals, vec![13, 12]);
    assert_eq!(t.grand_total, 25);
}

#[test]
fn initial_ledgers_count_nothing() {
    // a ledger of numbers, as the plan stores it, is not an object of strings
    let events = vec![ev("a", "y1", r#"{"f1":0,"f2":0}"#), ev("b", "y1", "not json")];
    let t = scoreboard(&events, &vec![s("y1")], &vec![s("f1"), s("f2")]).unwrap();
    assert_eq!(t.cells, vec![vec![0, 0]]);
    assert_eq!(t.year_totals, vec![0]);
    assert_eq!(t.grand_total, 0);
}

#[test]
fn members_that_are_not_integers_are_skipped() {
    let events = vec![ev("a", "y1", r#"{"f1":"+4","f2":"x","f3":" 5","f4":"-2"}"#)];
    let forms = vec![s("f1"), s("f2"), s("f3"), s("f4")];
    let t = scoreboard(&events, &vec![s("y1")], &forms).unwrap();
    assert_eq!(t.cells, vec![vec![4, 0, 0, -2]]);
    assert_eq!(t.year_totals, vec![2]);
    assert_eq!(t.grand_total, 2);
}

#[test]
fn overflowing_sum_gives_none() {
    let big = format!(r#"{{"f1":"{}"}}"#, i64::MAX);
    let events = vec![ev("a", "y1", &big), ev("b", "y1", r#"{"f1":"1"}"#)];
    assert!(scoreboard(&events, &vec![s("y1")], &vec![s("f1")]).is_none());
    let events = vec![ev("a", "y1", &big)];
    let t = scoreboard(&events, &vec![s("y1")], &vec![s("f1")]).unwrap();
    assert_eq!(t.grand_total, i64::MAX);
}

#[test]
fn empty_scoreboard() {
    let t = scoreboard(&vec![], &vec![], &vec![]).unwrap();
    assert!(t.cells.is_empty());
    assert!(t.year_totals.is_empty());
    assert!(t.form_totals.is_empty());
    assert_eq!(t.grand_total, 0);
}
