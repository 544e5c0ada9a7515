//! The plan compiler: from a configuration to every active (year, gender,
//! event) combination with its initial score ledger.
use vstd::prelude::*;
use crate::config::{event_ids, sorted_by_value, unique_ids, year_ids, Configuration, Event, Form, Score, Year};
use crate::rules::id_views;

verus! {

/// One entry of a score ledger: the points a form holds in one event.
pub struct LedgerEntry {
    pub form_id: String,
    pub points: i64,
}

/// A form as the plan lists it.
pub struct FormPlan {
    pub id: String,
    pub name: String,
}

/// One active (year, gender, event) combination and its initial ledger.
pub struct EventPlan {
    /// `{year_id}-{gender_id}-{event_id}`.
    pub id: String,
    pub name: String,
    pub gender_id: String,
    /// The ledger the event starts with: every form at zero points.
    pub scores: Vec<LedgerEntry>,
}

/// A year and the event plans that are active in it.
pub struct YearPlan {
    pub id: String,
    pub name: String,
    pub events: Vec<EventPlan>,
}

/// A scoring tier as the plan lists it.
pub struct ScorePlan {
    pub name: String,
    pub value: i64,
}

/// The compiled form of a configuration.
pub struct Plan {
    pub year_plans: Vec<YearPlan>,
    pub form_plan: Vec<FormPlan>,
    /// The scoring tiers, by ascending value.
    pub score_plan: Vec<ScorePlan>,
}

/// The abstract value of an [`EventPlan`].
pub struct EventPlanModel {
    pub id: Seq<char>,
    pub name: Seq<char>,
    pub gender_id: Seq<char>,
    pub scores: Seq<(Seq<char>, i64)>,
}

/// The abstract value of a [`YearPlan`].
pub struct YearPlanModel {
    pub id: Seq<char>,
    pub name: Seq<char>,
    pub events: Seq<EventPlanModel>,
}

/// The abstract value of a [`FormPlan`].
pub struct FormPlanModel {
    pub id: Seq<char>,
    pub name: Seq<char>,
}

/// The abstract value of a [`Plan`].
pub struct PlanModel {
    pub year_plans: Seq<YearPlanModel>,
    pub form_plan: Seq<FormPlanModel>,
    pub score_plan: Seq<(Seq<char>, i64)>,
}

/// The JSON text of a ledger: an object with one member per entry, named by
/// the form identifier and holding its points.
pub uninterp spec fn ledger_json(entries: Seq<(Seq<char>, i64)>) -> Seq<char>;

/// Relies on serde_json: a `Map` built from the entries and the `Display`
/// of `Value::Object`, which writes the object as compact JSON text.
#[verifier::external_body]
fn ledger_text(ledger: &Vec<LedgerEntry>) -> (r: String)
    ensures
        r@ == ledger_json(ledger_view(ledger@)),
{
    let map: serde_json::Map<String, serde_json::Value> = ledger
        .iter()
        .map(|e| (e.form_id.clone(), serde_json::Value::from(e.points)))
        .collect();
    serde_json::Value::Object(map).to_string()
}

impl EventPlan {
    /// The event's ledger as the JSON text that is stored with it.
    pub fn scores_text(&self) -> (r: String)
        ensures
            r@ == ledger_json(ledger_view(self.scores@)),
    {
        ledger_text(&self.scores)
    }
}

/// A ledger as pairs of form identifier and points.
pub open spec fn ledger_view(s: Seq<LedgerEntry>) -> Seq<(Seq<char>, i64)> {
    s.map_values(|e: LedgerEntry| (e.form_id@, e.points))
}

pub open spec fn event_plan_views(s: Seq<EventPlan>) -> Seq<EventPlanModel> {
    s.map_values(|e: EventPlan| e@)
}

pub open spec fn year_plan_views(s: Seq<YearPlan>) -> Seq<YearPlanModel> {
    s.map_values(|y: YearPlan| y@)
}

pub open spec fn form_plan_views(s: Seq<FormPlan>) -> Seq<FormPlanModel> {
    s.map_values(|f: FormPlan| f@)
}

pub open spec fn score_plan_views(s: Seq<ScorePlan>) -> Seq<(Seq<char>, i64)> {
    s.map_values(|t: ScorePlan| t@)
}

impl View for EventPlan {
    type V = EventPlanModel;

    open spec fn view(&self) -> EventPlanModel {
        EventPlanModel {
            id: self.id@,
            name: self.name@,
            gender_id: self.gender_id@,
            scores: ledger_view(self.scores@),
        }
    }
}

impl View for YearPlan {
    type V = YearPlanModel;

    open spec fn view(&self) -> YearPlanModel {
        YearPlanModel { id: self.id@, name: self.name@, events: event_plan_views(self.events@) }
    }
}

impl View for FormPlan {
    type V = FormPlanModel;

    open spec fn view(&self) -> FormPlanModel {
        FormPlanModel { id: self.id@, name: self.name@ }
    }
}

impl View for ScorePlan {
    type V = (Seq<char>, i64);

    open spec fn view(&self) -> (Seq<char>, i64) {
        (self.name@, self.value)
    }
}

impl View for Plan {
    type V = PlanModel;

    open spec fn view(&self) -> PlanModel {
        PlanModel {
            year_plans: year_plan_views(self.year_plans@),
            form_plan: form_plan_views(self.form_plan@),
            score_plan: score_plan_views(self.score_plan@),
        }
    }
}

/// The ledger every event plan starts with: each form, in order, at zero.
pub open spec fn empty_ledger(forms: Seq<Form>) -> Seq<(Seq<char>, i64)> {
    forms.map_values(|f: Form| (f.id@, 0i64))
}

/// The identifier of the event plan of one year, gender and event.
pub open spec fn event_plan_id(year_id: Seq<char>, gender_id: Seq<char>, event_id: Seq<char>) -> Seq<char> {
    year_id + seq!['-'] + gender_id + seq!['-'] + event_id
}

/// The event is offered to at least one of the forms.
pub open spec fn offered_to_some_form(event: Event, forms: Seq<Form>) -> bool {
    exists|k: int| 0 <= k < forms.len() && event.applicable_forms.accepts(#[trigger] forms[k].id@)
}

/// The event plans of one event in one year, one for each gender, in order,
/// that the event's gender rule accepts.
pub open spec fn gender_plans(
    year_id: Seq<char>,
    event: Event,
    genders: Seq<Seq<char>>,
    ledger: Seq<(Seq<char>, i64)>,
) -> Seq<EventPlanModel>
    decreases genders.len(),
{
    if genders.len() == 0 {
        seq![]
    } else {
        let earlier = gender_plans(year_id, event, genders.drop_last(), ledger);
        let g = genders.last();
        if event.applicable_genders.accepts(g) {
            earlier.push(
                EventPlanModel {
                    id: event_plan_id(year_id, g, event.id@),
                    name: event.name@,
                    gender_id: g,
                    scores: ledger,
                },
            )
        } else {
            earlier
        }
    }
}

/// The event plans that one event contributes to one year: none unless the
/// event is offered to the year and to at least one form.
pub open spec fn event_plans_for(
    year_id: Seq<char>,
    event: Event,
    genders: Seq<Seq<char>>,
    forms: Seq<Form>,
) -> Seq<EventPlanModel> {
    if event.applicable_years.accepts(year_id) && offered_to_some_form(event, forms) {
        gender_plans(year_id, event, genders, empty_ledger(forms))
    } else {
        seq![]
    }
}

/// The event plans of one year: those of each event, in order.
pub open spec fn year_event_plans(
    year_id: Seq<char>,
    genders: Seq<Seq<char>>,
    forms: Seq<Form>,
    events: Seq<Event>,
) -> Seq<EventPlanModel>
    decreases events.len(),
{
    if events.len() == 0 {
        seq![]
    } else {
        year_event_plans(year_id, genders, forms, events.drop_last())
            + event_plans_for(year_id, events.last(), genders, forms)
    }
}

/// The plan of one year.
pub open spec fn compile_year(
    year: Year,
    genders: Seq<Seq<char>>,
    forms: Seq<Form>,
    events: Seq<Event>,
) -> YearPlanModel {
    YearPlanModel {
        id: year.id@,
        name: year.name@,
        events: year_event_plans(year.id@, genders, forms, events),
    }
}

/// The plan of a configuration, given by its lists.
pub open spec fn compile(
    genders: Seq<Seq<char>>,
    scores: Seq<Score>,
    years: Seq<Year>,
    forms: Seq<Form>,
    events: Seq<Event>,
) -> PlanModel {
    PlanModel {
        year_plans: years.map_values(|y: Year| compile_year(y, genders, forms, events)),
        form_plan: forms.map_values(|f: Form| FormPlanModel { id: f.id@, name: f.name@ }),
        score_plan: sorted_by_value(scores).map_values(|s: Score| (s.name@, s.value)),
    }
}

/// The plan of a configuration.
pub open spec fn compiled(c: Configuration) -> PlanModel {
    compile(id_views(c.genders@), c.scores@, c.years@, c.forms@, c.events@)
}

proof fn lemma_event_plan_views_push(s: Seq<EventPlan>, x: EventPlan)
    ensures
        event_plan_views(s.push(x)) == event_plan_views(s).push(x@),
{
    assert(event_plan_views(s.push(x)) =~= event_plan_views(s).push(x@));
}

/// The identifier `{year_id}-{gender_id}-{event_id}`.
fn make_event_plan_id(year_id: &String, gender_id: &String, event_id: &String) -> (r: String)
    ensures
        r@ == event_plan_id(year_id@, gender_id@, event_id@),
{
    proof {
        reveal_strlit("-");
    }
    let mut id = year_id.clone();
    id.append("-");
    id.append(gender_id.as_str());
    id.append("-");
    id.append(event_id.as_str());
    id
}

/// The initial ledger: every form, in order, at zero points.
fn make_empty_ledger(forms: &Vec<Form>) -> (r: Vec<LedgerEntry>)
    ensures
        ledger_view(r@) == empty_ledger(forms@),
{
    let mut r: Vec<LedgerEntry> = Vec::new();
    let mut i: usize = 0;
    while i < forms.len()
        invariant
            i <= forms.len(),
            r@.len() == i,
            forall|k: int| 0 <= k < i ==> r@[k].form_id@ == forms@[k].id@ && r@[k].points == 0,
        decreases forms.len() - i,
    {
        r.push(LedgerEntry { form_id: forms[i].id.clone(), points: 0 });
        i = i + 1;
    }
    assert(ledger_view(r@) =~= empty_ledger(forms@));
    r
}

/// A copy of a ledger.
fn copy_ledger(ledger: &Vec<LedgerEntry>) -> (r: Vec<LedgerEntry>)
    ensures
        ledger_view(r@) == ledger_view(ledger@),
{
    let mut r: Vec<LedgerEntry> = Vec::new();
    let mut i: usize = 0;
    while i < ledger.len()
        invariant
            i <= ledger.len(),
            r@.len() == i,
            forall|k: int|
                0 <= k < i ==> r@[k].form_id@ == ledger@[k].form_id@ && r@[k].points == ledger@[k].points,
        decreases ledger.len() - i,
    {
        r.push(LedgerEntry { form_id: ledger[i].form_id.clone(), points: ledger[i].points });
        i = i + 1;
    }
    assert(ledger_view(r@) =~= ledger_view(ledger@));
    r
}

/// Whether the event is offered to at least one form. Stops at the first
/// form that matches.
fn offered_to_any_form(configuration: &Configuration, event: &Event) -> (r: bool)
    ensures
        r == offered_to_some_form(*event, configuration.forms@),
{
    let mut i: usize = 0;
    while i < configuration.forms.len()
        invariant
            i <= configuration.forms.len(),
            forall|k: int|
                0 <= k < i ==> !event.applicable_forms.accepts(#[trigger] configuration.forms@[k].id@),
        decreases configuration.forms.len() - i,
    {
        if configuration.is_event_applicable_to_form(event, configuration.forms[i].id.clone()) {
            return true;
        }
        i = i + 1;
    }
    false
}

/// Appends to `out` the event plans of `event` in the year `year_id`, one
/// for each gender that the event's gender rule accepts.
fn plan_genders(
    configuration: &Configuration,
    year_id: &String,
    event: &Event,
    ledger: &Vec<LedgerEntry>,
    out: &mut Vec<EventPlan>,
)
    ensures
        event_plan_views(final(out)@) == event_plan_views(old(out)@) + gender_plans(
            year_id@,
            *event,
            id_views(configuration.genders@),
            ledger_view(ledger@),
        ),
{
    let ghost start = event_plan_views(out@);
    let ghost genders = id_views(configuration.genders@);
    let ghost l = ledger_view(ledger@);
    let mut i: usize = 0;
    while i < configuration.genders.len()
        invariant
            i <= configuration.genders.len(),
            genders == id_views(configuration.genders@),
            l == ledger_view(ledger@),
            event_plan_views(out@) == start + gender_plans(
                year_id@,
                *event,
                genders.take(i as int),
                l,
            ),
        decreases configuration.genders.len() - i,
    {
        let gender = &configuration.genders[i];
        let ghost before = event_plan_views(out@);
        proof {
            assert(genders.take(i as int + 1).drop_last() =~= genders.take(i as int));
            assert(genders.take(i as int + 1).last() == gender@);
        }
        if configuration.is_event_applicable_to_gender(event, gender.as_str()) {
            let plan = EventPlan {
                id: make_event_plan_id(year_id, gender, &event.id),
                name: event.name.clone(),
                gender_id: gender.clone(),
                scores: copy_ledger(ledger),
            };
            proof {
                lemma_event_plan_views_push(out@, plan);
            }
            out.push(plan);
            proof {
                let earlier = gender_plans(year_id@, *event, genders.take(i as int), l);
                assert(before.push(plan@) =~= start + earlier.push(plan@));
            }
        }
        i = i + 1;
    }
    assert(genders.take(configuration.genders.len() as int) =~= genders);
}

/// The plan of one year: for each event offered to the year and to at
/// least one form, the event plans of the genders it accepts.
fn plan_year(configuration: &Configuration, year: &Year, ledger: &Vec<LedgerEntry>) -> (r: YearPlan)
    requires
        ledger_view(ledger@) == empty_ledger(configuration.forms@),
    ensures
        r@ == compile_year(
            *year,
            id_views(configuration.genders@),
            configuration.forms@,
            configuration.events@,
        ),
{
    let ghost genders = id_views(configuration.genders@);
    let ghost forms = configuration.forms@;
    let ghost events = configuration.events@;
    let mut out: Vec<EventPlan> = Vec::new();
    let mut j: usize = 0;
    while j < configuration.events.len()
        invariant
            j <= configuration.events.len(),
            genders == id_views(configuration.genders@),
            forms == configuration.forms@,
            events == configuration.events@,
            ledger_view(ledger@) == empty_ledger(forms),
            event_plan_views(out@) == year_event_plans(year.id@, genders, forms, events.take(j as int)),
        decreases configuration.events.len() - j,
    {
        let event = &configuration.events[j];
        proof {
            assert(events.take(j as int + 1).drop_last() =~= events.take(j as int));
            assert(events.take(j as int + 1).last() == *event);
        }
        if !configuration.is_event_applicable_to_year(event, year.id.as_str()) {
            assert(event_plan_views(out@) =~= event_plan_views(out@) + seq![]);
        } else if !offered_to_any_form(configuration, event) {
            assert(event_plan_views(out@) =~= event_plan_views(out@) + seq![]);
        } else {
            plan_genders(configuration, &year.id, event, ledger, &mut out);
        }
        j = j + 1;
    }
    assert(events.take(configuration.events.len() as int) =~= events);
    YearPlan { id: year.id.clone(), name: year.name.clone(), events: out }
}

/// Compiles a configuration into its plan: the forms in order, for each year
/// in order the event plans that are active in it, and the scoring tiers by
/// ascending value.
pub fn build_plan(configuration: Configuration) -> (plan: Plan)
    ensures
        plan@ == compiled(configuration),
{
    let ghost target = compiled(configuration);

    let mut form_plan: Vec<FormPlan> = Vec::new();
    let mut i: usize = 0;
    while i < configuration.forms.len()
        invariant
            i <= configuration.forms.len(),
            form_plan@.len() == i,
            forall|k: int|
                0 <= k < i ==> (#[trigger] form_plan@[k]).id@ == configuration.forms@[k].id@
                    && form_plan@[k].name@ == configuration.forms@[k].name@,
        decreases configuration.forms.len() - i,
    {
        form_plan.push(FormPlan { id: configuration.forms[i].id.clone(), name: configuration.forms[i].name.clone() });
        i = i + 1;
    }
    assert(form_plan_views(form_plan@) =~= target.form_plan);

    let ledger = make_empty_ledger(&configuration.forms);
    let mut year_plans: Vec<YearPlan> = Vec::new();
    let mut i: usize = 0;
    while i < configuration.years.len()
        invariant
            i <= configuration.years.len(),
            ledger_view(ledger@) == empty_ledger(configuration.forms@),
            target == compiled(configuration),
            year_plans@.len() == i,
            forall|k: int| 0 <= k < i ==> (#[trigger] year_plans@[k])@ == target.year_plans[k],
        decreases configuration.years.len() - i,
    {
        let year_plan = plan_year(&configuration, &configuration.years[i], &ledger);
        assert(target.year_plans[i as int] == compile_year(
            configuration.years@[i as int],
            id_views(configuration.genders@),
            configuration.forms@,
            configuration.events@,
        ));
        year_plans.push(year_plan);
        i = i + 1;
    }
    assert(year_plan_views(year_plans@) =~= target.year_plans);

    let tiers = configuration.get_scores();
    let mut score_plan: Vec<ScorePlan> = Vec::new();
    let mut i: usize = 0;
    while i < tiers.len()
        invariant
            i <= tiers.len(),
            tiers@ == sorted_by_value(configuration.scores@),
            score_plan@.len() == i,
            forall|k: int| 0 <= k < i ==> (#[trigger] score_plan@[k])@ == (tiers@[k].name@, tiers@[k].value),
        decreases tiers.len() - i,
    {
        score_plan.push(ScorePlan { name: tiers[i].name.clone(), value: tiers[i].value });
        i = i + 1;
    }
    assert(score_plan_views(score_plan@) =~= target.score_plan);

    Plan { year_plans, form_plan, score_plan }
}

/// The plans of a list of events are those of its two parts, one after the
/// other.
proof fn lemma_year_event_plans_append(
    year_id: Seq<char>,
    genders: Seq<Seq<char>>,
    forms: Seq<Form>,
    a: Seq<Event>,
    b: Seq<Event>,
)
    ensures
        year_event_plans(year_id, genders, forms, a + b) == year_event_plans(year_id, genders, forms, a)
            + year_event_plans(year_id, genders, forms, b),
    decreases b.len(),
{
    if b.len() == 0 {
        assert(a + b =~= a);
        assert(year_event_plans(year_id, genders, forms, a) + seq![] =~= year_event_plans(
            year_id,
            genders,
            forms,
            a,
        ));
    } else {
        assert((a + b).drop_last() =~= a + b.drop_last());
        assert((a + b).last() == b.last());
        lemma_year_event_plans_append(year_id, genders, forms, a, b.drop_last());
        let pa = year_event_plans(year_id, genders, forms, a);
        let pb = year_event_plans(year_id, genders, forms, b.drop_last());
        let pe = event_plans_for(year_id, b.last(), genders, forms);
        assert(pa + pb + pe =~= pa + (pb + pe));
    }
}

/// An event whose plans in a year are empty can be left out of that year.
proof fn lemma_remove_silent_event(
    year_id: Seq<char>,
    genders: Seq<Seq<char>>,
    forms: Seq<Form>,
    events: Seq<Event>,
    k: int,
)
    requires
        0 <= k < events.len(),
        event_plans_for(year_id, events[k], genders, forms) == Seq::<EventPlanModel>::empty(),
    ensures
        year_event_plans(year_id, genders, forms, events) == year_event_plans(
            year_id,
            genders,
            forms,
            events.remove(k),
        ),
{
    let front = events.take(k);
    let back = events.skip(k + 1);
    let one = seq![events[k]];
    assert(events =~= front + one + back);
    assert(events.remove(k) =~= front + back);
    lemma_year_event_plans_append(year_id, genders, forms, front + one, back);
    lemma_year_event_plans_append(year_id, genders, forms, front, one);
    lemma_year_event_plans_append(year_id, genders, forms, front, back);
    assert(one.drop_last() =~= Seq::<Event>::empty());
    assert(one.last() == events[k]);
    let empty = Seq::<EventPlanModel>::empty();
    assert(year_event_plans(year_id, genders, forms, one.drop_last()) =~= empty);
    assert(year_event_plans(year_id, genders, forms, one) =~= empty + empty);
    let pf = year_event_plans(year_id, genders, forms, front);
    assert(pf + (empty + empty) =~= pf);
}

/// A gender rule that is `Disabled` yields no event plan.
proof fn lemma_disabled_genders_plan_nothing(
    year_id: Seq<char>,
    event: Event,
    genders: Seq<Seq<char>>,
    ledger: Seq<(Seq<char>, i64)>,
)
    requires
        event.applicable_genders is Disabled,
    ensures
        gender_plans(year_id, event, genders, ledger) == Seq::<EventPlanModel>::empty(),
    decreases genders.len(),
{
    if genders.len() > 0 {
        lemma_disabled_genders_plan_nothing(year_id, event, genders.drop_last(), ledger);
    }
}

/// An event whose gender rule is `Disabled` has no event plan in any year:
/// the configuration compiles to the same plan as the one without that
/// event.
pub proof fn lemma_disabled_genders_disable_event(
    genders: Seq<Seq<char>>,
    scores: Seq<Score>,
    years: Seq<Year>,
    forms: Seq<Form>,
    events: Seq<Event>,
    k: int,
)
    requires
        0 <= k < events.len(),
        events[k].applicable_genders is Disabled,
    ensures
        forall|y: Year|
            #[trigger] event_plans_for(y.id@, events[k], genders, forms) == Seq::<EventPlanModel>::empty(),
        compile(genders, scores, years, forms, events) == compile(
            genders,
            scores,
            years,
            forms,
            events.remove(k),
        ),
{
    assert forall|y: Year|
        #[trigger] event_plans_for(y.id@, events[k], genders, forms) == Seq::<EventPlanModel>::empty() by {
        lemma_disabled_genders_plan_nothing(y.id@, events[k], genders, empty_ledger(forms));
    }
    let a = compile(genders, scores, years, forms, events);
    let b = compile(genders, scores, years, forms, events.remove(k));
    assert forall|i: int| 0 <= i < years.len() implies a.year_plans[i] == b.year_plans[i] by {
        let y = years[i];
        assert(event_plans_for(y.id@, events[k], genders, forms) == Seq::<EventPlanModel>::empty());
        lemma_remove_silent_event(y.id@, genders, forms, events, k);
    }
    assert(a.year_plans =~= b.year_plans);
}

/// An event offered to a year but to none of the forms has no event plan in
/// that year: the year compiles to the same plan as without that event.
pub proof fn lemma_event_without_forms_absent(
    year: Year,
    genders: Seq<Seq<char>>,
    forms: Seq<Form>,
    events: Seq<Event>,
    k: int,
)
    requires
        0 <= k < events.len(),
        events[k].applicable_years.accepts(year.id@),
        forall|i: int| 0 <= i < forms.len() ==> !events[k].applicable_forms.accepts(#[trigger] forms[i].id@),
    ensures
        event_plans_for(year.id@, events[k], genders, forms) == Seq::<EventPlanModel>::empty(),
        compile_year(year, genders, forms, events) == compile_year(year, genders, forms, events.remove(k)),
{
    lemma_remove_silent_event(year.id@, genders, forms, events, k);
}

/// Compilation is a function of the configuration: two plans compiled from
/// the same configuration agree in every identifier, name, order and ledger.
pub proof fn lemma_compile_deterministic(c: Configuration, first: Plan, second: Plan)
    requires
        first@ == compiled(c),
        second@ == compiled(c),
    ensures
        first@ == second@,
{
}

/// Every event plan of a list of genders carries the ledger it was given.
proof fn lemma_gender_plans_ledger(
    year_id: Seq<char>,
    event: Event,
    genders: Seq<Seq<char>>,
    ledger: Seq<(Seq<char>, i64)>,
)
    ensures
        forall|i: int| 0 <= i < gender_plans(year_id, event, genders, ledger).len() ==>
            (#[trigger] gender_plans(year_id, event, genders, ledger)[i]).scores == ledger,
    decreases genders.len(),
{
    if genders.len() > 0 {
        lemma_gender_plans_ledger(year_id, event, genders.drop_last(), ledger);
        let earlier = gender_plans(year_id, event, genders.drop_last(), ledger);
        let all = gender_plans(year_id, event, genders, ledger);
        assert forall|i: int| 0 <= i < all.len() implies (#[trigger] all[i]).scores == ledger by {
            if i < earlier.len() {
                assert(all[i] == earlier[i]);
            }
        }
    }
}

/// Every event plan of a year starts with one zero entry for each declared
/// form, in the order of declaration.
pub proof fn lemma_ledgers_start_empty(
    year_id: Seq<char>,
    genders: Seq<Seq<char>>,
    forms: Seq<Form>,
    events: Seq<Event>,
)
    ensures
        forall|i: int| 0 <= i < year_event_plans(year_id, genders, forms, events).len() ==>
            (#[trigger] year_event_plans(year_id, genders, forms, events)[i]).scores == empty_ledger(forms),
    decreases events.len(),
{
    if events.len() > 0 {
        lemma_ledgers_start_empty(year_id, genders, forms, events.drop_last());
        let e = events.last();
        if e.applicable_years.accepts(year_id) && offered_to_some_form(e, forms) {
            lemma_gender_plans_ledger(year_id, e, genders, empty_ledger(forms));
        }
        let a = year_event_plans(year_id, genders, forms, events.drop_last());
        let b = event_plans_for(year_id, e, genders, forms);
        assert forall|i: int| 0 <= i < (a + b).len() implies (#[trigger] (a + b)[i]).scores == empty_ledger(forms) by {
            if i >= a.len() {
                assert((a + b)[i] == b[i - a.len()]);
            }
        }
    }
}

/// `s` holds no `-`, the separator of event plan identifiers.
pub open spec fn no_dash(s: Seq<char>) -> bool {
    !s.contains('-')
}

proof fn lemma_split_at_dash(a: Seq<char>, b: Seq<char>, c: Seq<char>, d: Seq<char>)
    requires
        no_dash(a),
        no_dash(c),
        a + seq!['-'] + b == c + seq!['-'] + d,
    ensures
        a == c,
        b == d,
{
    let s = a + seq!['-'] + b;
    if a.len() < c.len() {
        assert(s[a.len() as int] == '-');
        assert(s[a.len() as int] == c[a.len() as int]);
        assert(c.contains('-'));
    } else if c.len() < a.len() {
        assert(s[c.len() as int] == '-');
        assert(s[c.len() as int] == a[c.len() as int]);
        assert(a.contains('-'));
    }
    assert(a =~= s.take(a.len() as int));
    assert(c =~= s.take(a.len() as int));
    assert(b =~= s.skip(a.len() as int + 1));
    assert(d =~= s.skip(a.len() as int + 1));
}

/// Identifiers without `-` are recovered from the event plan identifier they
/// make.
proof fn lemma_event_plan_id_injective(
    y1: Seq<char>,
    g1: Seq<char>,
    e1: Seq<char>,
    y2: Seq<char>,
    g2: Seq<char>,
    e2: Seq<char>,
)
    requires
        no_dash(y1),
        no_dash(g1),
        no_dash(y2),
        no_dash(g2),
        event_plan_id(y1, g1, e1) == event_plan_id(y2, g2, e2),
    ensures
        y1 == y2,
        g1 == g2,
        e1 == e2,
{
    let dash = seq!['-'];
    assert(event_plan_id(y1, g1, e1) =~= y1 + dash + (g1 + dash + e1));
    assert(event_plan_id(y2, g2, e2) =~= y2 + dash + (g2 + dash + e2));
    lemma_split_at_dash(y1, g1 + dash + e1, y2, g2 + dash + e2);
    lemma_split_at_dash(g1, e1, g2, e2);
}

/// Each event plan of one event in one year carries the identifier of its
/// gender, and no two carry the same gender when the genders are unique.
proof fn lemma_gender_plans_ids(
    year_id: Seq<char>,
    event: Event,
    genders: Seq<Seq<char>>,
    ledger: Seq<(Seq<char>, i64)>,
)
    requires
        unique_ids(genders),
    ensures
        forall|i: int| 0 <= i < gender_plans(year_id, event, genders, ledger).len() ==> {
            let x = #[trigger] gender_plans(year_id, event, genders, ledger)[i];
            &&& genders.contains(x.gender_id)
            &&& x.id == event_plan_id(year_id, x.gender_id, event.id@)
        },
        forall|i: int, j: int|
            0 <= i < j < gender_plans(year_id, event, genders, ledger).len() ==> (#[trigger] gender_plans(
                year_id,
                event,
                genders,
                ledger,
            )[i]).gender_id != (#[trigger] gender_plans(year_id, event, genders, ledger)[j]).gender_id,
    decreases genders.len(),
{
    if genders.len() > 0 {
        let rest = genders.drop_last();
        assert(unique_ids(rest));
        lemma_gender_plans_ids(year_id, event, rest, ledger);
        let earlier = gender_plans(year_id, event, rest, ledger);
        let all = gender_plans(year_id, event, genders, ledger);
        assert forall|i: int| 0 <= i < all.len() implies {
            let x = #[trigger] all[i];
            &&& genders.contains(x.gender_id)
            &&& x.id == event_plan_id(year_id, x.gender_id, event.id@)
        } by {
            if i < earlier.len() {
                assert(all[i] == earlier[i]);
                let k = choose|k: int| 0 <= k < rest.len() && rest[k] == earlier[i].gender_id;
                assert(genders[k] == rest[k]);
            } else {
                assert(genders[genders.len() - 1] == genders.last());
            }
        }
        assert forall|i: int, j: int| 0 <= i < j < all.len() implies (#[trigger] all[i]).gender_id
            != (#[trigger] all[j]).gender_id by {
            if j < earlier.len() {
                assert(all[i] == earlier[i]);
                assert(all[j] == earlier[j]);
            } else {
                assert(all[i] == earlier[i]);
                let k = choose|k: int| 0 <= k < rest.len() && rest[k] == earlier[i].gender_id;
                assert(genders[k] == rest[k]);
                assert(all[j].gender_id == genders.last());
                assert(genders[genders.len() - 1] == genders.last());
            }
        }
    }
}

/// Each event plan of a year carries the identifier of one of its genders
/// and of one of its events, and no two share an identifier.
proof fn lemma_year_event_plan_ids(
    year_id: Seq<char>,
    genders: Seq<Seq<char>>,
    forms: Seq<Form>,
    events: Seq<Event>,
)
    requires
        no_dash(year_id),
        unique_ids(genders),
        forall|m: int| 0 <= m < genders.len() ==> no_dash(#[trigger] genders[m]),
        unique_ids(event_ids(events)),
    ensures
        forall|i: int| 0 <= i < year_event_plans(year_id, genders, forms, events).len() ==> {
            let x = #[trigger] year_event_plans(year_id, genders, forms, events)[i];
            &&& genders.contains(x.gender_id)
            &&& exists|k: int|
                0 <= k < events.len() && x.id == event_plan_id(year_id, x.gender_id, #[trigger] events[k].id@)
        },
        forall|i: int, j: int|
            0 <= i < j < year_event_plans(year_id, genders, forms, events).len() ==> (#[trigger] year_event_plans(
                year_id,
                genders,
                forms,
                events,
            )[i]).id != (#[trigger] year_event_plans(year_id, genders, forms, events)[j]).id,
    decreases events.len(),
{
    if events.len() > 0 {
        let rest = events.drop_last();
        let last = events.last();
        let n = events.len() - 1;
        assert(events[n] == last);
        assert forall|a: int, b: int| 0 <= a < b < event_ids(rest).len() implies event_ids(rest)[a]
            != event_ids(rest)[b] by {
            assert(event_ids(rest)[a] == event_ids(events)[a]);
            assert(event_ids(rest)[b] == event_ids(events)[b]);
        }
        lemma_year_event_plan_ids(year_id, genders, forms, rest);
        let earlier = year_event_plans(year_id, genders, forms, rest);
        let chunk = event_plans_for(year_id, last, genders, forms);
        let all = year_event_plans(year_id, genders, forms, events);
        assert(all == earlier + chunk);
        let offered = last.applicable_years.accepts(year_id) && offered_to_some_form(last, forms);
        if offered {
            lemma_gender_plans_ids(year_id, last, genders, empty_ledger(forms));
        }
        assert forall|i: int| 0 <= i < all.len() implies {
            let x = #[trigger] all[i];
            &&& genders.contains(x.gender_id)
            &&& exists|k: int|
                0 <= k < events.len() && x.id == event_plan_id(year_id, x.gender_id, #[trigger] events[k].id@)
        } by {
            if i < earlier.len() {
                assert(all[i] == earlier[i]);
                let k = choose|k: int|
                    0 <= k < rest.len() && earlier[i].id == event_plan_id(
                        year_id,
                        earlier[i].gender_id,
                        #[trigger] rest[k].id@,
                    );
                assert(events[k] == rest[k]);
            } else {
                assert(all[i] == chunk[i - earlier.len()]);
                assert(events[n].id@ == last.id@);
            }
        }
        assert forall|i: int, j: int| 0 <= i < j < all.len() implies (#[trigger] all[i]).id
            != (#[trigger] all[j]).id by {
            let x = all[i];
            let z = all[j];
            if j < earlier.len() {
                assert(x == earlier[i]);
                assert(z == earlier[j]);
            } else if i >= earlier.len() {
                assert(x == chunk[i - earlier.len()]);
                assert(z == chunk[j - earlier.len()]);
                let mx = choose|m: int| 0 <= m < genders.len() && genders[m] == x.gender_id;
                let mz = choose|m: int| 0 <= m < genders.len() && genders[m] == z.gender_id;
                if x.id == z.id {
                    lemma_event_plan_id_injective(year_id, x.gender_id, last.id@, year_id, z.gender_id, last.id@);
                }
            } else {
                assert(x == earlier[i]);
                assert(z == chunk[j - earlier.len()]);
                let k = choose|k: int|
                    0 <= k < rest.len() && x.id == event_plan_id(year_id, x.gender_id, #[trigger] rest[k].id@);
                let mx = choose|m: int| 0 <= m < genders.len() && genders[m] == x.gender_id;
                let mz = choose|m: int| 0 <= m < genders.len() && genders[m] == z.gender_id;
                if x.id == z.id {
                    lemma_event_plan_id_injective(year_id, x.gender_id, rest[k].id@, year_id, z.gender_id, last.id@);
                    assert(event_ids(events)[k] == rest[k].id@);
                    assert(event_ids(events)[n] == last.id@);
                }
            }
        }
    }
}

/// With unique year, gender and event identifiers, and no `-` in a year or
/// gender identifier, no two event plans of a compiled plan share an
/// identifier.
pub proof fn lemma_event_plan_ids_unique(
    genders: Seq<Seq<char>>,
    scores: Seq<Score>,
    years: Seq<Year>,
    forms: Seq<Form>,
    events: Seq<Event>,
)
    requires
        unique_ids(year_ids(years)),
        unique_ids(genders),
        unique_ids(event_ids(events)),
        forall|a: int| 0 <= a < years.len() ==> no_dash(#[trigger] years[a].id@),
        forall|m: int| 0 <= m < genders.len() ==> no_dash(#[trigger] genders[m]),
    ensures
        ({
            let yp = compile(genders, scores, years, forms, events).year_plans;
            forall|a: int, b: int, i: int, j: int|
                0 <= a < yp.len() && 0 <= b < yp.len() && 0 <= i < yp[a].events.len() && 0 <= j
                    < yp[b].events.len() && (a != b || i != j) ==> (#[trigger] yp[a].events[i]).id
                    != (#[trigger] yp[b].events[j]).id
        }),
{
    let yp = compile(genders, scores, years, forms, events).year_plans;
    assert forall|a: int, b: int, i: int, j: int|
        0 <= a < yp.len() && 0 <= b < yp.len() && 0 <= i < yp[a].events.len() && 0 <= j
            < yp[b].events.len() && (a != b || i != j) implies (#[trigger] yp[a].events[i]).id
            != (#[trigger] yp[b].events[j]).id by {
        let ya = years[a];
        let yb = years[b];
        assert(no_dash(ya.id@));
        assert(no_dash(yb.id@));
        lemma_year_event_plan_ids(ya.id@, genders, forms, events);
        lemma_year_event_plan_ids(yb.id@, genders, forms, events);
        let pa = year_event_plans(ya.id@, genders, forms, events);
        let pb = year_event_plans(yb.id@, genders, forms, events);
        assert(yp[a].events == pa);
        assert(yp[b].events == pb);
        if a == b {
            if i < j {
                assert(pa[i].id != pa[j].id);
            } else {
                assert(pa[j].id != pa[i].id);
            }
        } else {
            let x = pa[i];
            let z = pb[j];
            let ka = choose|k: int| 0 <= k < events.len() && x.id == event_plan_id(ya.id@, x.gender_id, #[trigger] events[k].id@);
            let kb = choose|k: int| 0 <= k < events.len() && z.id == event_plan_id(yb.id@, z.gender_id, #[trigger] events[k].id@);
            let mx = choose|m: int| 0 <= m < genders.len() && genders[m] == x.gender_id;
            let mz = choose|m: int| 0 <= m < genders.len() && genders[m] == z.gender_id;
            if x.id == z.id {
                lemma_event_plan_id_injective(
                    ya.id@,
                    x.gender_id,
                    events[ka].id@,
                    yb.id@,
                    z.gender_id,
                    events[kb].id@,
                );
                if a < b {
                    assert(year_ids(years)[a] != year_ids(years)[b]);
                } else {
                    assert(year_ids(years)[b] != year_ids(years)[a]);
                }
            }
        }
    }
}

} // verus!
