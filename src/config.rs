//! The configuration model: years, forms, events, scoring tiers, their
//! validation and the queries the rest of the system makes of them.
use vstd::prelude::*;
use crate::rules::{id_views, ApplicabilityRules};

verus! {

/// A competition year (a cohort group).
pub struct Year {
    /// Unique identifier of the year.
    pub id: String,
    /// Human-readable name.
    pub name: String,
}

/// A form: the cohort that scores are kept for.
pub struct Form {
    /// Unique identifier of the form.
    pub id: String,
    /// Display name.
    pub name: String,
    /// Colour the form is shown in.
    pub colour: String,
}

/// An event, with the rules that say which years, forms and genders it is
/// offered to.
pub struct Event {
    /// Unique identifier of the event.
    pub id: String,
    /// Display name.
    pub name: String,
    /// Which years the event is offered to.
    pub applicable_years: ApplicabilityRules,
    /// Which forms the event is offered to.
    pub applicable_forms: ApplicabilityRules,
    /// Which genders the event is offered to.
    pub applicable_genders: ApplicabilityRules,
}

/// A scoring tier: a named point value.
pub struct Score {
    pub name: String,
    pub value: i64,
}

/// The declarative description of a competition.
pub struct Configuration {
    /// Version tag of the configuration.
    pub version: String,
    /// Gender tokens events are split by.
    pub genders: Vec<String>,
    /// The scoring tiers.
    pub scores: Vec<Score>,
    /// All years.
    pub years: Vec<Year>,
    /// All forms.
    pub forms: Vec<Form>,
    /// All events.
    pub events: Vec<Event>,
}

/// The identifiers of a list of years.
pub open spec fn year_ids(years: Seq<Year>) -> Seq<Seq<char>> {
    years.map_values(|y: Year| y.id@)
}

/// The identifiers of a list of forms.
pub open spec fn form_ids(forms: Seq<Form>) -> Seq<Seq<char>> {
    forms.map_values(|f: Form| f.id@)
}

/// The identifiers of a list of events.
pub open spec fn event_ids(events: Seq<Event>) -> Seq<Seq<char>> {
    events.map_values(|e: Event| e.id@)
}

/// `i` is the first position of `id` in `ids`.
pub open spec fn is_first_index(ids: Seq<Seq<char>>, id: Seq<char>, i: int) -> bool {
    &&& 0 <= i < ids.len()
    &&& ids[i] == id
    &&& forall|j: int| 0 <= j < i ==> ids[j] != id
}

/// The result of looking `id` up in `items`, whose identifiers are `ids`:
/// the first item with that identifier, if there is one.
pub open spec fn is_lookup<T>(items: Seq<T>, ids: Seq<Seq<char>>, id: Seq<char>, r: Option<&T>) -> bool {
    match r {
        Some(x) => exists|i: int| is_first_index(ids, id, i) && items[i] == *x,
        None => !ids.contains(id),
    }
}

/// Which list of a configuration an identifier belongs to.
pub enum IdKind {
    Year,
    Form,
    Event,
}

/// Why a configuration was refused.
pub enum ConfigError {
    /// The configuration document is malformed or does not fit the schema.
    Parse { message: String },
    /// Two years, two forms or two events share the identifier `id`.
    DuplicateId { kind: IdKind, id: String },
}

/// No identifier occurs twice in `ids`.
pub open spec fn unique_ids(ids: Seq<Seq<char>>) -> bool {
    forall|i: int, j: int| 0 <= i < j < ids.len() ==> ids[i] != ids[j]
}

/// The identifier at `j` occurred before.
pub open spec fn repeats_at(ids: Seq<Seq<char>>, j: int) -> bool {
    exists|i: int| 0 <= i < j && ids[i] == ids[j]
}

/// `j` is the first position whose identifier occurred before.
pub open spec fn is_first_repeat(ids: Seq<Seq<char>>, j: int) -> bool {
    &&& 0 <= j < ids.len()
    &&& repeats_at(ids, j)
    &&& forall|k: int| 0 <= k < j ==> !repeats_at(ids, k)
}

/// `id` is the first identifier of `ids` to occur a second time.
pub open spec fn is_first_duplicate(ids: Seq<Seq<char>>, id: Seq<char>) -> bool {
    exists|j: int| is_first_repeat(ids, j) && ids[j] == id
}

/// The position of the first identifier that occurs a second time.
pub fn first_repeat_index(ids: &Vec<String>) -> (r: Option<usize>)
    ensures
        match r {
            Some(j) => is_first_repeat(id_views(ids@), j as int),
            None => unique_ids(id_views(ids@)),
        },
{
    let ghost v = id_views(ids@);
    assert forall|k: int| 0 <= k < ids.len() implies v[k] == ids@[k]@ by {}
    let mut j: usize = 0;
    while j < ids.len()
        invariant
            j <= ids.len(),
            v == id_views(ids@),
            forall|k: int| 0 <= k < ids.len() ==> v[k] == ids@[k]@,
            forall|k: int| 0 <= k < j ==> !repeats_at(v, k),
        decreases ids.len() - j,
    {
        assert forall|k: int| 0 <= k < ids.len() implies v[k] == ids@[k]@ by {}
        let mut i: usize = 0;
        while i < j
            invariant
                i <= j < ids.len(),
                v == id_views(ids@),
                forall|k: int| 0 <= k < ids.len() ==> v[k] == ids@[k]@,
                forall|k: int| 0 <= k < i ==> v[k] != v[j as int],
                forall|k: int| 0 <= k < j ==> !repeats_at(v, k),
            decreases j - i,
        {
            if ids[i] == ids[j] {
                assert(v[i as int] == v[j as int]);
                assert(repeats_at(v, j as int));
                return Some(j);
            }
            i = i + 1;
        }
        assert(!repeats_at(v, j as int));
        j = j + 1;
    }
    assert forall|a: int, b: int| 0 <= a < b < v.len() implies v[a] != v[b] by {
        assert(!repeats_at(v, b));
    }
    None
}

/// The identifiers of `years`, in order.
fn year_id_list(years: &Vec<Year>) -> (r: Vec<String>)
    ensures
        id_views(r@) == year_ids(years@),
{
    let mut r: Vec<String> = Vec::new();
    let mut i: usize = 0;
    while i < years.len()
        invariant
            i <= years.len(),
            r@.len() == i,
            forall|k: int| 0 <= k < i ==> r@[k]@ == years@[k].id@,
        decreases years.len() - i,
    {
        r.push(years[i].id.clone());
        i = i + 1;
    }
    assert(id_views(r@) =~= year_ids(years@));
    r
}

/// The identifiers of `forms`, in order.
fn form_id_list(forms: &Vec<Form>) -> (r: Vec<String>)
    ensures
        id_views(r@) == form_ids(forms@),
{
    let mut r: Vec<String> = Vec::new();
    let mut i: usize = 0;
    while i < forms.len()
        invariant
            i <= forms.len(),
            r@.len() == i,
            forall|k: int| 0 <= k < i ==> r@[k]@ == forms@[k].id@,
        decreases forms.len() - i,
    {
        r.push(forms[i].id.clone());
        i = i + 1;
    }
    assert(id_views(r@) =~= form_ids(forms@));
    r
}

/// The identifiers of `events`, in order.
fn event_id_list(events: &Vec<Event>) -> (r: Vec<String>)
    ensures
        id_views(r@) == event_ids(events@),
{
    let mut r: Vec<String> = Vec::new();
    let mut i: usize = 0;
    while i < events.len()
        invariant
            i <= events.len(),
            r@.len() == i,
            forall|k: int| 0 <= k < i ==> r@[k]@ == events@[k].id@,
        decreases events.len() - i,
    {
        r.push(events[i].id.clone());
        i = i + 1;
    }
    assert(id_views(r@) =~= event_ids(events@));
    r
}

/// `x` placed into `t` after every tier whose value is at most `x`'s.
pub open spec fn insert_by_value(x: Score, t: Seq<Score>) -> Seq<Score>
    decreases t.len(),
{
    if t.len() == 0 {
        seq![x]
    } else if t.last().value <= x.value {
        t.push(x)
    } else {
        insert_by_value(x, t.drop_last()).push(t.last())
    }
}

/// The tiers ordered by ascending value; tiers of equal value keep their
/// order of declaration.
pub open spec fn sorted_by_value(s: Seq<Score>) -> Seq<Score>
    decreases s.len(),
{
    if s.len() == 0 {
        s
    } else {
        insert_by_value(s.last(), sorted_by_value(s.drop_last()))
    }
}

/// The values of `s` never decrease.
pub open spec fn ascending(s: Seq<Score>) -> bool {
    forall|i: int, j: int| 0 <= i < j < s.len() ==> s[i].value <= s[j].value
}

/// Inserting before the first of a run of larger values at the end of `t`
/// is `insert_by_value`.
proof fn lemma_insert_at(x: Score, t: Seq<Score>, p: int)
    requires
        0 <= p <= t.len(),
        forall|k: int| p <= k < t.len() ==> t[k].value > x.value,
        p == 0 || t[p - 1].value <= x.value,
    ensures
        insert_by_value(x, t) == t.insert(p, x),
    decreases t.len(),
{
    if t.len() == p {
        assert(t.insert(p, x) =~= t.push(x));
        if p == 0 {
            assert(t.push(x) =~= seq![x]);
        }
    } else {
        lemma_insert_at(x, t.drop_last(), p);
        assert(t.drop_last().insert(p, x).push(t.last()) =~= t.insert(p, x));
    }
}

/// The events a list of references points to.
pub open spec fn deref_events(s: Seq<&Event>) -> Seq<Event> {
    s.map_values(|e: &Event| *e)
}

/// Whether an event is offered to the year `year_id` and the form `form_id`.
pub open spec fn offered_to(year_id: Seq<char>, form_id: Seq<char>) -> spec_fn(Event) -> bool {
    |e: Event| e.applicable_years.accepts(year_id) && e.applicable_forms.accepts(form_id)
}

impl Configuration {
    /// Every year, form and event identifier is unique within its list.
    pub open spec fn is_valid(&self) -> bool {
        &&& unique_ids(year_ids(self.years@))
        &&& unique_ids(form_ids(self.forms@))
        &&& unique_ids(event_ids(self.events@))
    }

    /// Checks that no two years, no two forms and no two events share an
    /// identifier. Years are checked first, then forms, then events; the
    /// error names the first identifier of that list to occur twice.
    pub fn validate(&self) -> (r: Result<(), ConfigError>)
        ensures
            r is Ok <==> self.is_valid(),
            r matches Err(e) ==> match e {
                ConfigError::DuplicateId { kind: IdKind::Year, id } =>
                    is_first_duplicate(year_ids(self.years@), id@),
                ConfigError::DuplicateId { kind: IdKind::Form, id } =>
                    unique_ids(year_ids(self.years@))
                    && is_first_duplicate(form_ids(self.forms@), id@),
                ConfigError::DuplicateId { kind: IdKind::Event, id } =>
                    unique_ids(year_ids(self.years@))
                    && unique_ids(form_ids(self.forms@))
                    && is_first_duplicate(event_ids(self.events@), id@),
                ConfigError::Parse { .. } => false,
            },
    {
        let ids = year_id_list(&self.years);
        if let Some(j) = first_repeat_index(&ids) {
            let id = ids[j].clone();
            assert(is_first_repeat(year_ids(self.years@), j as int));
            return Err(ConfigError::DuplicateId { kind: IdKind::Year, id });
        }
        let ids = form_id_list(&self.forms);
        if let Some(j) = first_repeat_index(&ids) {
            let id = ids[j].clone();
            assert(is_first_repeat(form_ids(self.forms@), j as int));
            return Err(ConfigError::DuplicateId { kind: IdKind::Form, id });
        }
        let ids = event_id_list(&self.events);
        if let Some(j) = first_repeat_index(&ids) {
            let id = ids[j].clone();
            assert(is_first_repeat(event_ids(self.events@), j as int));
            return Err(ConfigError::DuplicateId { kind: IdKind::Event, id });
        }
        Ok(())
    }

    /// The scoring tiers, ordered by ascending value; tiers of equal value
    /// keep their order of declaration.
    pub fn get_scores(&self) -> (r: Vec<Score>)
        ensures
            r@ == sorted_by_value(self.scores@),
            ascending(r@),
    {
        let mut out: Vec<Score> = Vec::new();
        let mut i: usize = 0;
        while i < self.scores.len()
            invariant
                i <= self.scores.len(),
                out@ == sorted_by_value(self.scores@.take(i as int)),
                ascending(out@),
            decreases self.scores.len() - i,
        {
            let x = Score { name: self.scores[i].name.clone(), value: self.scores[i].value };
            let mut p: usize = out.len();
            while p > 0 && out[p - 1].value > x.value
                invariant
                    p <= out.len(),
                    forall|k: int| p <= k < out.len() ==> out@[k].value > x.value,
                decreases p,
            {
                p = p - 1;
            }
            proof {
                lemma_insert_at(x, out@, p as int);
                let s = self.scores@.take(i as int + 1);
                assert(s.drop_last() =~= self.scores@.take(i as int));
                assert(x == self.scores@[i as int]);
            }
            out.insert(p, x);
            i = i + 1;
        }
        assert(self.scores@.take(self.scores.len() as int) =~= self.scores@);
        out
    }

    /// Whether `event` is offered to the year `year_id`.
    pub fn is_event_applicable_to_year(&self, event: &Event, year_id: &str) -> (r: bool)
        ensures
            r == event.applicable_years.accepts(year_id@),
    {
        event.applicable_years.evaluate(year_id)
    }

    /// Whether `event` is offered to the form `form_id`.
    pub fn is_event_applicable_to_form(&self, event: &Event, form_id: String) -> (r: bool)
        ensures
            r == event.applicable_forms.accepts(form_id@),
    {
        event.applicable_forms.evaluate(form_id.as_str())
    }

    /// Whether `event` is offered to the gender `gender_id`.
    pub fn is_event_applicable_to_gender(&self, event: &Event, gender_id: &str) -> (r: bool)
        ensures
            r == event.applicable_genders.accepts(gender_id@),
    {
        event.applicable_genders.evaluate(gender_id)
    }

    /// The configuration's version tag.
    pub fn get_version(&self) -> (r: String)
        ensures
            r@ == self.version@,
    {
        self.version.clone()
    }

    /// The events offered to the year `year_id` and to the form `form_id`,
    /// in declaration order.
    pub fn applicable_events(&self, year_id: &str, form_id: String) -> (r: Vec<&Event>)
        ensures
            deref_events(r@) == self.events@.filter(offered_to(year_id@, form_id@)),
    {
        let ghost keep = offered_to(year_id@, form_id@);
        let mut r: Vec<&Event> = Vec::new();
        let mut i: usize = 0;
        while i < self.events.len()
            invariant
                i <= self.events.len(),
                keep == offered_to(year_id@, form_id@),
                deref_events(r@) == self.events@.take(i as int).filter(keep),
            decreases self.events.len() - i,
        {
            let event = &self.events[i];
            proof {
                reveal(Seq::filter);
                assert(self.events@.take(i as int + 1).drop_last() =~= self.events@.take(i as int));
            }
            if self.is_event_applicable_to_year(event, year_id)
                && self.is_event_applicable_to_form(event, form_id.clone()) {
                r.push(event);
                assert(deref_events(r@) =~= deref_events(r@.drop_last()).push(*event));
            }
            i = i + 1;
        }
        assert(self.events@.take(self.events.len() as int) =~= self.events@);
        r
    }

    /// The first year with identifier `id`.
    pub fn find_year(&self, id: &str) -> (r: Option<&Year>)
        ensures
            is_lookup(self.years@, year_ids(self.years@), id@, r),
    {
        let key = id.to_owned();
        let mut i: usize = 0;
        while i < self.years.len()
            invariant
                i <= self.years.len(),
                key@ == id@,
                forall|j: int| 0 <= j < i ==> self.years@[j].id@ != id@,
            decreases self.years.len() - i,
        {
            if self.years[i].id == key {
                assert(is_first_index(year_ids(self.years@), id@, i as int));
                return Some(&self.years[i]);
            }
            i = i + 1;
        }
        assert(!year_ids(self.years@).contains(id@));
        None
    }

    /// The first form with identifier `id`.
    pub fn find_form(&self, id: &str) -> (r: Option<&Form>)
        ensures
            is_lookup(self.forms@, form_ids(self.forms@), id@, r),
    {
        let key = id.to_owned();
        let mut i: usize = 0;
        while i < self.forms.len()
            invariant
                i <= self.forms.len(),
                key@ == id@,
                forall|j: int| 0 <= j < i ==> self.forms@[j].id@ != id@,
            decreases self.forms.len() - i,
        {
            if self.forms[i].id == key {
                assert(is_first_index(form_ids(self.forms@), id@, i as int));
                return Some(&self.forms[i]);
            }
            i = i + 1;
        }
        assert(!form_ids(self.forms@).contains(id@));
        None
    }

    /// The first event with identifier `id`.
    pub fn find_event(&self, id: &str) -> (r: Option<&Event>)
        ensures
            is_lookup(self.events@, event_ids(self.events@), id@, r),
    {
        let key = id.to_owned();
        let mut i: usize = 0;
        while i < self.events.len()
            invariant
                i <= self.events.len(),
                key@ == id@,
                forall|j: int| 0 <= j < i ==> self.events@[j].id@ != id@,
            decreases self.events.len() - i,
        {
            if self.events[i].id == key {
                assert(is_first_index(event_ids(self.events@), id@, i as int));
                return Some(&self.events[i]);
            }
            i = i + 1;
        }
        assert(!event_ids(self.events@).contains(id@));
        None
    }
}

} // verus!
