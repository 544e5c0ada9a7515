//! The scoreboard: points per year and form read from the stored ledgers,
//! with year, form and grand totals.
use vstd::prelude::*;
use crate::reconcile::{EventRowModel, Events};
use crate::rules::id_views;

verus! {

/// The members of a stored ledger text read as a JSON object whose members
/// all hold strings, by ascending member name; `None` where the text is not
/// such an object.
pub uninterp spec fn ledger_members(text: Seq<char>) -> Option<Seq<(Seq<char>, Seq<char>)>>;

/// Relies on serde_json::from_str into a `BTreeMap<String, String>`, whose
/// entries come out by ascending name; `Err` becomes `None`.
#[verifier::external_body]
fn read_ledger_members(text: &str) -> (r: Option<Vec<(String, String)>>)
    ensures
        match r {
            Some(v) => ledger_members(text@) == Some(pair_views(v@)),
            None => ledger_members(text@) is None,
        },
{
    serde_json::from_str::<std::collections::BTreeMap<String, String>>(text).ok().map(
        |m| m.into_iter().collect(),
    )
}

pub open spec fn pair_views(v: Seq<(String, String)>) -> Seq<(Seq<char>, Seq<char>)> {
    v.map_values(|p: (String, String)| (p.0@, p.1@))
}

pub open spec fn is_digit(c: char) -> bool {
    '0' <= c <= '9'
}

/// One or more decimal digits.
pub open spec fn all_digits(s: Seq<char>) -> bool {
    s.len() > 0 && forall|i: int| 0 <= i < s.len() ==> is_digit(#[trigger] s[i])
}

/// The number that a string of decimal digits writes.
pub open spec fn digits_value(s: Seq<char>) -> int
    decreases s.len(),
{
    if s.len() == 0 {
        0
    } else {
        10 * digits_value(s.drop_last()) + (s.last() as u32 - '0' as u32)
    }
}

/// The integer an optional sign followed by decimal digits writes.
pub open spec fn decimal_value(s: Seq<char>) -> Option<int> {
    if s.len() > 0 && (s[0] == '-' || s[0] == '+') {
        if all_digits(s.skip(1)) {
            if s[0] == '-' {
                Some(-digits_value(s.skip(1)))
            } else {
                Some(digits_value(s.skip(1)))
            }
        } else {
            None
        }
    } else if all_digits(s) {
        Some(digits_value(s))
    } else {
        None
    }
}

/// The `i64` a string writes in decimal, if it writes one in range.
pub open spec fn decimal_i64(s: Seq<char>) -> Option<i64> {
    match decimal_value(s) {
        Some(v) => if i64::MIN <= v <= i64::MAX {
            Some(v as i64)
        } else {
            None
        },
        None => None,
    }
}

/// Relies on `str::parse::<i64>` (i64's `FromStr`): an optional `+` or `-`
/// followed by one or more ASCII digits, whose value fits; `Err` otherwise.
#[verifier::external_body]
fn parse_points(text: &str) -> (r: Option<i64>)
    ensures
        r == decimal_i64(text@),
{
    text.parse::<i64>().ok()
}

/// A stored event's ledger as the scoreboard reads it: its year, and the
/// points of each member, `None` for one that is not an integer; no members
/// at all when the ledger is not an object of strings.
pub struct ParsedLedger {
    pub year_id: String,
    pub entries: Option<Vec<(String, Option<i64>)>>,
}

pub open spec fn entry_views(v: Seq<(String, Option<i64>)>) -> Seq<(Seq<char>, Option<i64>)> {
    v.map_values(|p: (String, Option<i64>)| (p.0@, p.1))
}

impl View for ParsedLedger {
    type V = (Seq<char>, Option<Seq<(Seq<char>, Option<i64>)>>);

    open spec fn view(&self) -> (Seq<char>, Option<Seq<(Seq<char>, Option<i64>)>>) {
        (
            self.year_id@,
            match self.entries {
                Some(v) => Some(entry_views(v@)),
                None => None,
            },
        )
    }
}

pub open spec fn parsed_views(v: Seq<ParsedLedger>) -> Seq<(Seq<char>, Option<Seq<(Seq<char>, Option<i64>)>>)> {
    v.map_values(|p: ParsedLedger| p@)
}

/// How the scoreboard reads one stored event.
pub open spec fn parsed_row(row: EventRowModel) -> (Seq<char>, Option<Seq<(Seq<char>, Option<i64>)>>) {
    (
        row.year_id,
        match ledger_members(row.scores) {
            Some(m) => Some(
                m.map_values(|p: (Seq<char>, Seq<char>)| (p.0, decimal_i64(p.1))),
            ),
            None => None,
        },
    )
}

/// Reads the ledgers of stored events.
pub fn parse_ledgers(events: &Vec<Events>) -> (r: Vec<ParsedLedger>)
    ensures
        r@.len() == events@.len(),
        forall|i: int| 0 <= i < events@.len() ==> (#[trigger] r@[i])@ == parsed_row(events@[i]@),
{
    let mut r: Vec<ParsedLedger> = Vec::new();
    let mut i: usize = 0;
    while i < events.len()
        invariant
            i <= events.len(),
            r@.len() == i,
            forall|k: int| 0 <= k < i ==> (#[trigger] r@[k])@ == parsed_row(events@[k]@),
        decreases events.len() - i,
    {
        let e = &events[i];
        let entries = match read_ledger_members(e.scores.as_str()) {
            None => None,
            Some(members) => {
                let ghost m = pair_views(members@);
                let mut out: Vec<(String, Option<i64>)> = Vec::new();
                let mut j: usize = 0;
                while j < members.len()
                    invariant
                        j <= members.len(),
                        m == pair_views(members@),
                        out@.len() == j,
                        forall|k: int|
                            0 <= k < j ==> (#[trigger] out@[k]).0@ == m[k].0 && out@[k].1
                                == decimal_i64(m[k].1),
                    decreases members.len() - j,
                {
                    let points = parse_points(members[j].1.as_str());
                    assert(m[j as int] == (members@[j as int].0@, members@[j as int].1@));
                    out.push((members[j].0.clone(), points));
                    j = j + 1;
                }
                assert(entry_views(out@) =~= m.map_values(
                    |p: (Seq<char>, Seq<char>)| (p.0, decimal_i64(p.1)),
                ));
                Some(out)
            },
        };
        let parsed = ParsedLedger { year_id: e.year_id.clone(), entries };
        assert(parsed@ == parsed_row(e@));
        r.push(parsed);
        i = i + 1;
    }
    r
}

/// The points, in order, of the parsed members named `form`, or of every
/// parsed member when `form` is `None`.
pub open spec fn entry_points(entries: Seq<(Seq<char>, Option<i64>)>, form: Option<Seq<char>>) -> Seq<i64>
    decreases entries.len(),
{
    if entries.len() == 0 {
        seq![]
    } else {
        let e = entries.last();
        let earlier = entry_points(entries.drop_last(), form);
        if e.1 is Some && (form is None || Some(e.0) == form) {
            earlier.push(e.1->0)
        } else {
            earlier
        }
    }
}

/// The points the scoreboard counts, ledger by ledger, for the year `year`
/// and the form `form`; `None` stands for every year or every form.
pub open spec fn points(
    ledgers: Seq<(Seq<char>, Option<Seq<(Seq<char>, Option<i64>)>>)>,
    year: Option<Seq<char>>,
    form: Option<Seq<char>>,
) -> Seq<i64>
    decreases ledgers.len(),
{
    if ledgers.len() == 0 {
        seq![]
    } else {
        let l = ledgers.last();
        let earlier = points(ledgers.drop_last(), year, form);
        if l.1 is Some && (year is None || Some(l.0) == year) {
            earlier + entry_points(l.1->0, form)
        } else {
            earlier
        }
    }
}

/// The sum of `xs`.
pub open spec fn total(xs: Seq<i64>) -> int
    decreases xs.len(),
{
    if xs.len() == 0 {
        0
    } else {
        total(xs.drop_last()) + xs.last()
    }
}

/// Every running sum of `xs`, from the left, fits in an `i64`.
pub open spec fn running_fits(xs: Seq<i64>) -> bool {
    forall|k: int| 0 <= k <= xs.len() ==> i64::MIN <= #[trigger] total(xs.take(k)) <= i64::MAX
}

/// The sum of `xs`, if every running sum fits in an `i64`.
pub open spec fn checked_total(xs: Seq<i64>) -> Option<i64> {
    if running_fits(xs) {
        Some(total(xs) as i64)
    } else {
        None
    }
}

pub open spec fn is_prefix(a: Seq<i64>, b: Seq<i64>) -> bool {
    a.len() <= b.len() && b.take(a.len() as int) == a
}

pub open spec fn opt_view(s: Option<&String>) -> Option<Seq<char>> {
    match s {
        Some(v) => Some(v@),
        None => None,
    }
}

proof fn lemma_prefix_trans(a: Seq<i64>, b: Seq<i64>, c: Seq<i64>)
    requires
        is_prefix(a, b),
        is_prefix(b, c),
    ensures
        is_prefix(a, c),
{
    assert(c.take(a.len() as int) =~= b.take(a.len() as int));
}

proof fn lemma_entry_points_prefix(entries: Seq<(Seq<char>, Option<i64>)>, j: int, form: Option<Seq<char>>)
    requires
        0 <= j <= entries.len(),
    ensures
        is_prefix(entry_points(entries.take(j), form), entry_points(entries, form)),
    decreases entries.len(),
{
    let whole = entry_points(entries, form);
    if j == entries.len() {
        assert(entries.take(j) =~= entries);
        assert(whole.take(whole.len() as int) =~= whole);
    } else {
        assert(entries.drop_last().take(j) =~= entries.take(j));
        lemma_entry_points_prefix(entries.drop_last(), j, form);
        let earlier = entry_points(entries.drop_last(), form);
        assert(is_prefix(earlier, whole)) by {
            assert(whole.take(earlier.len() as int) =~= earlier);
        }
        lemma_prefix_trans(entry_points(entries.take(j), form), earlier, whole);
    }
}

proof fn lemma_points_prefix(
    ledgers: Seq<(Seq<char>, Option<Seq<(Seq<char>, Option<i64>)>>)>,
    i: int,
    year: Option<Seq<char>>,
    form: Option<Seq<char>>,
)
    requires
        0 <= i <= ledgers.len(),
    ensures
        is_prefix(points(ledgers.take(i), year, form), points(ledgers, year, form)),
    decreases ledgers.len(),
{
    let whole = points(ledgers, year, form);
    if i == ledgers.len() {
        assert(ledgers.take(i) =~= ledgers);
        assert(whole.take(whole.len() as int) =~= whole);
    } else {
        assert(ledgers.drop_last().take(i) =~= ledgers.take(i));
        lemma_points_prefix(ledgers.drop_last(), i, year, form);
        let earlier = points(ledgers.drop_last(), year, form);
        assert(is_prefix(earlier, whole)) by {
            assert(whole.take(earlier.len() as int) =~= earlier);
        }
        lemma_prefix_trans(points(ledgers.take(i), year, form), earlier, whole);
    }
}

proof fn lemma_running_fits_push(xs: Seq<i64>, v: i64)
    requires
        running_fits(xs),
        i64::MIN <= total(xs) + v <= i64::MAX,
    ensures
        running_fits(xs.push(v)),
{
    let ys = xs.push(v);
    assert forall|k: int| 0 <= k <= ys.len() implies i64::MIN <= #[trigger] total(ys.take(k)) <= i64::MAX by {
        if k == ys.len() {
            assert(ys.take(k) =~= ys);
            assert(ys.drop_last() =~= xs);
        } else {
            assert(ys.take(k) =~= xs.take(k));
        }
    }
}

proof fn lemma_prefix_fits(a: Seq<i64>, b: Seq<i64>)
    requires
        is_prefix(a, b),
        running_fits(b),
    ensures
        running_fits(a),
{
    assert forall|k: int| 0 <= k <= a.len() implies i64::MIN <= #[trigger] total(a.take(k)) <= i64::MAX by {
        assert(b.take(k) =~= a.take(k));
        assert(i64::MIN <= total(b.take(k)) <= i64::MAX);
    }
}

/// The sum of the points counted for `year` and `form` (every year or form
/// where `None`), if every running sum fits in an `i64`.
pub fn sum_points(ledgers: &Vec<ParsedLedger>, year: Option<&String>, form: Option<&String>) -> (r: Option<i64>)
    ensures
        r == checked_total(points(parsed_views(ledgers@), opt_view(year), opt_view(form))),
{
    let ghost p = parsed_views(ledgers@);
    let ghost y = opt_view(year);
    let ghost f = opt_view(form);
    let ghost all = points(p, y, f);
    let mut acc: i64 = 0;
    let mut i: usize = 0;
    assert(total(Seq::<i64>::empty().take(0)) == 0);
    while i < ledgers.len()
        invariant
            i <= ledgers.len(),
            p == parsed_views(ledgers@),
            y == opt_view(year),
            f == opt_view(form),
            all == points(p, y, f),
            acc == total(points(p.take(i as int), y, f)),
            running_fits(points(p.take(i as int), y, f)),
        decreases ledgers.len() - i,
    {
        let ledger = &ledgers[i];
        let ghost before = points(p.take(i as int), y, f);
        proof {
            assert(p.take(i as int + 1).drop_last() =~= p.take(i as int));
            assert(p.take(i as int + 1).last() == ledger@);
            lemma_points_prefix(p, i as int + 1, y, f);
        }
        let year_matches = match year {
            None => true,
            Some(wanted) => ledger.year_id == *wanted,
        };
        if year_matches {
            if let Some(entries) = &ledger.entries {
                let ghost es = entry_views(entries@);
                assert(ledger@.1 == Some(es));
                let mut j: usize = 0;
                assert(entry_points(es.take(0), f) =~= Seq::<i64>::empty());
                assert(before + Seq::<i64>::empty() =~= before);
                while j < entries.len()
                    invariant
                        j <= entries.len(),
                        es == entry_views(entries@),
                        p == parsed_views(ledgers@),
                        y == opt_view(year),
                        f == opt_view(form),
                        all == points(p, y, f),
                        is_prefix(before + entry_points(es, f), all),
                        acc == total(before + entry_points(es.take(j as int), f)),
                        running_fits(before + entry_points(es.take(j as int), f)),
                    decreases entries.len() - j,
                {
                    let ghost current = before + entry_points(es.take(j as int), f);
                    proof {
                        assert(es.take(j as int + 1).drop_last() =~= es.take(j as int));
                        assert(es.take(j as int + 1).last() == es[j as int]);
                        assert(es[j as int] == (entries@[j as int].0@, entries@[j as int].1));
                    }
                    let form_matches = match form {
                        None => true,
                        Some(wanted) => entries[j].0 == *wanted,
                    };
                    if form_matches {
                        if let Some(v) = entries[j].1 {
                            let ghost next = before + entry_points(es.take(j as int + 1), f);
                            proof {
                                assert(next =~= current.push(v));
                                assert(next.drop_last() =~= current);
                                lemma_entry_points_prefix(es, j as int + 1, f);
                                let rest = entry_points(es, f);
                                assert(is_prefix(next, before + rest)) by {
                                    assert((before + rest).take(next.len() as int) =~= next);
                                }
                                lemma_prefix_trans(next, before + rest, all);
                            }
                            match acc.checked_add(v) {
                                Some(sum) => {
                                    proof {
                                        lemma_running_fits_push(current, v);
                                    }
                                    acc = sum;
                                },
                                None => {
                                    proof {
                                        assert(all.take(next.len() as int) == next);
                                        assert(total(all.take(next.len() as int)) == total(next));
                                        assert(!running_fits(all));
                                    }
                                    return None;
                                },
                            }
                        } else {
                            assert(before + entry_points(es.take(j as int + 1), f) =~= current);
                        }
                    } else {
                        assert(before + entry_points(es.take(j as int + 1), f) =~= current);
                    }
                    j = j + 1;
                }
                assert(es.take(entries.len() as int) =~= es);
            } else {
                assert(points(p.take(i as int + 1), y, f) == before);
            }
        } else {
            assert(points(p.take(i as int + 1), y, f) == before);
        }
        i = i + 1;
    }
    assert(p.take(ledgers.len() as int) =~= p);
    Some(acc)
}

proof fn lemma_fits_total(xs: Seq<i64>)
    requires
        running_fits(xs),
    ensures
        i64::MIN <= total(xs) <= i64::MAX,
{
    assert(xs.take(xs.len() as int) =~= xs);
}

/// The sum of `xs`, if every running sum fits in an `i64`.
pub fn checked_sum(xs: &Vec<i64>) -> (r: Option<i64>)
    ensures
        r == checked_total(xs@),
{
    let mut acc: i64 = 0;
    let mut i: usize = 0;
    assert(xs@.take(0).take(0) =~= xs@.take(0));
    while i < xs.len()
        invariant
            i <= xs.len(),
            acc == total(xs@.take(i as int)),
            running_fits(xs@.take(i as int)),
        decreases xs.len() - i,
    {
        let ghost current = xs@.take(i as int);
        let ghost next = xs@.take(i as int + 1);
        assert(next =~= current.push(xs@[i as int]));
        assert(next.drop_last() =~= current);
        match acc.checked_add(xs[i]) {
            Some(sum) => {
                proof {
                    lemma_running_fits_push(current, xs@[i as int]);
                }
                acc = sum;
            },
            None => {
                assert(xs@.take(next.len() as int) == next);
                assert(total(xs@.take(next.len() as int)) == total(next));
                return None;
            },
        }
        i = i + 1;
    }
    assert(xs@.take(xs.len() as int) =~= xs@);
    Some(acc)
}

/// The numbers of the scoreboard: for each year row and each form the
/// points, each year's total over all forms, each form's total over all
/// years, and the grand total of the form totals.
pub struct ScoreboardTotals {
    /// `cells[i][j]`: the points of year `i` in form `j`.
    pub cells: Vec<Vec<i64>>,
    pub year_totals: Vec<i64>,
    pub form_totals: Vec<i64>,
    pub grand_total: i64,
}

/// The form totals, one for each form.
pub open spec fn form_total_values(
    p: Seq<(Seq<char>, Option<Seq<(Seq<char>, Option<i64>)>>)>,
    forms: Seq<Seq<char>>,
) -> Seq<i64> {
    forms.map_values(|f: Seq<char>| total(points(p, None, Some(f))) as i64)
}

/// Every sum the scoreboard makes fits in an `i64` as it runs.
pub open spec fn totals_fit(
    p: Seq<(Seq<char>, Option<Seq<(Seq<char>, Option<i64>)>>)>,
    years: Seq<Seq<char>>,
    forms: Seq<Seq<char>>,
) -> bool {
    &&& forall|i: int, j: int|
        0 <= i < years.len() && 0 <= j < forms.len() ==> running_fits(
            #[trigger] points(p, Some(years[i]), Some(forms[j])),
        )
    &&& forall|i: int| 0 <= i < years.len() ==> running_fits(#[trigger] points(p, Some(years[i]), None))
    &&& forall|j: int| 0 <= j < forms.len() ==> running_fits(#[trigger] points(p, None, Some(forms[j])))
    &&& running_fits(form_total_values(p, forms))
}

/// `r` is the scoreboard of the ledgers `p` for the year rows `years` and
/// the forms `forms`: `None` exactly when one of its sums overflows.
pub open spec fn is_tally(
    p: Seq<(Seq<char>, Option<Seq<(Seq<char>, Option<i64>)>>)>,
    years: Seq<Seq<char>>,
    forms: Seq<Seq<char>>,
    r: Option<ScoreboardTotals>,
) -> bool {
    match r {
        None => !totals_fit(p, years, forms),
        Some(t) => {
            &&& totals_fit(p, years, forms)
            &&& t.cells@.len() == years.len()
            &&& forall|i: int| 0 <= i < years.len() ==> (#[trigger] t.cells@[i])@.len() == forms.len()
            &&& forall|i: int, j: int|
                0 <= i < years.len() && 0 <= j < forms.len() ==> (#[trigger] t.cells@[i]@[j]) == total(
                    points(p, Some(years[i]), Some(forms[j])),
                )
            &&& t.year_totals@.len() == years.len()
            &&& forall|i: int|
                0 <= i < years.len() ==> (#[trigger] t.year_totals@[i]) == total(points(p, Some(years[i]), None))
            &&& t.form_totals@ == form_total_values(p, forms)
            &&& t.grand_total == total(form_total_values(p, forms))
        },
    }
}

/// Tallies parsed ledgers for the given year rows and forms.
pub fn tally(ledgers: &Vec<ParsedLedger>, year_ids: &Vec<String>, form_ids: &Vec<String>) -> (r: Option<
    ScoreboardTotals,
>)
    ensures
        is_tally(parsed_views(ledgers@), id_views(year_ids@), id_views(form_ids@), r),
{
    let ghost p = parsed_views(ledgers@);
    let ghost years = id_views(year_ids@);
    let ghost forms = id_views(form_ids@);

    let mut cells: Vec<Vec<i64>> = Vec::new();
    let mut i: usize = 0;
    while i < year_ids.len()
        invariant
            i <= year_ids.len(),
            p == parsed_views(ledgers@),
            years == id_views(year_ids@),
            forms == id_views(form_ids@),
            cells@.len() == i,
            forall|a: int| 0 <= a < i ==> (#[trigger] cells@[a])@.len() == forms.len(),
            forall|a: int, b: int|
                0 <= a < i && 0 <= b < forms.len() ==> running_fits(
                    #[trigger] points(p, Some(years[a]), Some(forms[b])),
                ) && cells@[a]@[b] == total(points(p, Some(years[a]), Some(forms[b]))),
        decreases year_ids.len() - i,
    {
        assert(years[i as int] == year_ids@[i as int]@);
        let mut row: Vec<i64> = Vec::new();
        let mut j: usize = 0;
        while j < form_ids.len()
            invariant
                i < year_ids.len(),
                j <= form_ids.len(),
                p == parsed_views(ledgers@),
                years == id_views(year_ids@),
                forms == id_views(form_ids@),
                years[i as int] == year_ids@[i as int]@,
                row@.len() == j,
                forall|b: int|
                    0 <= b < j ==> running_fits(#[trigger] points(p, Some(years[i as int]), Some(forms[b])))
                        && row@[b] == total(points(p, Some(years[i as int]), Some(forms[b]))),
            decreases form_ids.len() - j,
        {
            assert(forms[j as int] == form_ids@[j as int]@);
            let year_id = &year_ids[i];
            let form_id = &form_ids[j];
            assert(opt_view(Some(year_id)) == Some(years[i as int]));
            assert(opt_view(Some(form_id)) == Some(forms[j as int]));
            match sum_points(ledgers, Some(year_id), Some(form_id)) {
                Some(v) => {
                    proof {
                        lemma_fits_total(points(p, Some(years[i as int]), Some(forms[j as int])));
                    }
                    row.push(v);
                },
                None => {
                    assert(!running_fits(points(p, Some(years[i as int]), Some(forms[j as int]))));
                    return None;
                },
            }
            j = j + 1;
        }
        cells.push(row);
        i = i + 1;
    }

    let mut year_totals: Vec<i64> = Vec::new();
    let mut i: usize = 0;
    while i < year_ids.len()
        invariant
            i <= year_ids.len(),
            p == parsed_views(ledgers@),
            years == id_views(year_ids@),
            forms == id_views(form_ids@),
            cells@.len() == year_ids.len(),
            forall|a: int| 0 <= a < year_ids.len() ==> (#[trigger] cells@[a])@.len() == forms.len(),
            forall|a: int, b: int|
                0 <= a < year_ids.len() && 0 <= b < forms.len() ==> running_fits(
                    #[trigger] points(p, Some(years[a]), Some(forms[b])),
                ) && cells@[a]@[b] == total(points(p, Some(years[a]), Some(forms[b]))),
            year_totals@.len() == i,
            forall|a: int|
                0 <= a < i ==> running_fits(#[trigger] points(p, Some(years[a]), None))
                    && year_totals@[a] == total(points(p, Some(years[a]), None)),
        decreases year_ids.len() - i,
    {
        assert(years[i as int] == year_ids@[i as int]@);
        let year_id = &year_ids[i];
        assert(opt_view(Some(year_id)) == Some(years[i as int]));
        match sum_points(ledgers, Some(year_id), None) {
            Some(v) => {
                proof {
                    lemma_fits_total(points(p, Some(years[i as int]), None));
                }
                year_totals.push(v);
            },
            None => {
                assert(!running_fits(points(p, Some(years[i as int]), None)));
                return None;
            },
        }
        i = i + 1;
    }

    let mut form_totals: Vec<i64> = Vec::new();
    let mut j: usize = 0;
    while j < form_ids.len()
        invariant
            j <= form_ids.len(),
            p == parsed_views(ledgers@),
            forms == id_views(form_ids@),
            years == id_views(year_ids@),
            cells@.len() == year_ids.len(),
            forall|a: int| 0 <= a < year_ids.len() ==> (#[trigger] cells@[a])@.len() == forms.len(),
            forall|a: int, b: int|
                0 <= a < year_ids.len() && 0 <= b < forms.len() ==> running_fits(
                    #[trigger] points(p, Some(years[a]), Some(forms[b])),
                ) && cells@[a]@[b] == total(points(p, Some(years[a]), Some(forms[b]))),
            year_totals@.len() == year_ids.len(),
            forall|a: int|
                0 <= a < year_ids.len() ==> running_fits(#[trigger] points(p, Some(years[a]), None))
                    && year_totals@[a] == total(points(p, Some(years[a]), None)),
            form_totals@.len() == j,
            forall|b: int|
                0 <= b < j ==> running_fits(#[trigger] points(p, None, Some(forms[b])))
                    && form_totals@[b] == total(points(p, None, Some(forms[b]))),
        decreases form_ids.len() - j,
    {
        assert(forms[j as int] == form_ids@[j as int]@);
        let form_id = &form_ids[j];
        assert(opt_view(Some(form_id)) == Some(forms[j as int]));
        match sum_points(ledgers, None, Some(form_id)) {
            Some(v) => {
                proof {
                    lemma_fits_total(points(p, None, Some(forms[j as int])));
                }
                form_totals.push(v);
            },
            None => {
                assert(!running_fits(points(p, None, Some(forms[j as int]))));
                return None;
            },
        }
        j = j + 1;
    }
    assert(form_totals@ =~= form_total_values(p, forms));

    match checked_sum(&form_totals) {
        Some(grand_total) => {
            proof {
                lemma_fits_total(form_total_values(p, forms));
            }
            Some(ScoreboardTotals { cells, year_totals, form_totals, grand_total })
        },
        None => None,
    }
}

/// How the scoreboard reads a list of stored events.
pub open spec fn read_rows(events: Seq<Events>) -> Seq<(Seq<char>, Option<Seq<(Seq<char>, Option<i64>)>>)> {
    events.map_values(|e: Events| parsed_row(e@))
}

/// The scoreboard of the stored events for the given year rows and forms.
/// An event counts toward its year when its ledger reads as a JSON object
/// of strings, and each member that writes an integer counts toward the
/// form it names. `None` when one of the sums overflows.
pub fn scoreboard(events: &Vec<Events>, year_ids: &Vec<String>, form_ids: &Vec<String>) -> (r: Option<
    ScoreboardTotals,
>)
    ensures
        is_tally(read_rows(events@), id_views(year_ids@), id_views(form_ids@), r),
{
    let parsed = parse_ledgers(events);
    assert(parsed_views(parsed@) =~= read_rows(events@));
    tally(&parsed, year_ids, form_ids)
}

} // verus!
