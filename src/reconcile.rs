//! Version-gated reconciliation of a compiled plan with the store: the
//! decision, the writes of a full replace, and a store held in memory.
use vstd::prelude::*;
use crate::plan::{
    event_plan_views, ledger_json, EventPlan, EventPlanModel, FormPlanModel, Plan, PlanModel,
    YearPlanModel,
};

verus! {

/// A stored year.
pub struct Years {
    pub id: String,
    pub name: String,
}

/// A stored form.
pub struct Forms {
    pub id: String,
    pub name: String,
}

/// A stored event, with its ledger as JSON text.
pub struct Events {
    pub id: String,
    pub name: String,
    /// The year the event belongs to.
    pub year_id: String,
    pub gender_id: String,
    pub scores: String,
}

/// A stored scoring tier.
pub struct Scores {
    pub name: String,
    pub value: i64,
}

impl Years {
    pub fn new(id: String, name: String) -> (r: Self)
        ensures
            r.id == id,
            r.name == name,
    {
        Years { id, name }
    }
}

impl Forms {
    pub fn new(id: String, name: String) -> (r: Self)
        ensures
            r.id == id,
            r.name == name,
    {
        Forms { id, name }
    }
}

impl Events {
    pub fn new(id: String, name: String, year_id: String, gender_id: String, scores: String) -> (r: Self)
        ensures
            r.id == id,
            r.name == name,
            r.year_id == year_id,
            r.gender_id == gender_id,
            r.scores == scores,
    {
        Events { id, name, year_id, gender_id, scores }
    }
}

impl Scores {
    pub fn new(name: String, value: i64) -> (r: Self)
        ensures
            r.name == name,
            r.value == value,
    {
        Scores { name, value }
    }
}

/// The abstract value of a stored event.
pub struct EventRowModel {
    pub id: Seq<char>,
    pub name: Seq<char>,
    pub year_id: Seq<char>,
    pub gender_id: Seq<char>,
    pub scores: Seq<char>,
}

impl View for Years {
    type V = (Seq<char>, Seq<char>);

    open spec fn view(&self) -> (Seq<char>, Seq<char>) {
        (self.id@, self.name@)
    }
}

impl View for Forms {
    type V = (Seq<char>, Seq<char>);

    open spec fn view(&self) -> (Seq<char>, Seq<char>) {
        (self.id@, self.name@)
    }
}

impl View for Events {
    type V = EventRowModel;

    open spec fn view(&self) -> EventRowModel {
        EventRowModel {
            id: self.id@,
            name: self.name@,
            year_id: self.year_id@,
            gender_id: self.gender_id@,
            scores: self.scores@,
        }
    }
}

impl View for Scores {
    type V = (Seq<char>, i64);

    open spec fn view(&self) -> (Seq<char>, i64) {
        (self.name@, self.value)
    }
}

/// One write to the store.
pub enum StoreOp {
    /// Delete every event.
    ClearEvents,
    /// Delete every form.
    ClearForms,
    /// Delete every year.
    ClearYears,
    /// Delete every scoring tier.
    ClearScores,
    InsertYear(Years),
    InsertForm(Forms),
    InsertEvent(Events),
    InsertScore(Scores),
}

/// The abstract value of a [`StoreOp`].
pub enum StoreOpModel {
    ClearEvents,
    ClearForms,
    ClearYears,
    ClearScores,
    InsertYear((Seq<char>, Seq<char>)),
    InsertForm((Seq<char>, Seq<char>)),
    InsertEvent(EventRowModel),
    InsertScore((Seq<char>, i64)),
}

impl View for StoreOp {
    type V = StoreOpModel;

    open spec fn view(&self) -> StoreOpModel {
        match self {
            StoreOp::ClearEvents => StoreOpModel::ClearEvents,
            StoreOp::ClearForms => StoreOpModel::ClearForms,
            StoreOp::ClearYears => StoreOpModel::ClearYears,
            StoreOp::ClearScores => StoreOpModel::ClearScores,
            StoreOp::InsertYear(r) => StoreOpModel::InsertYear(r@),
            StoreOp::InsertForm(r) => StoreOpModel::InsertForm(r@),
            StoreOp::InsertEvent(r) => StoreOpModel::InsertEvent(r@),
            StoreOp::InsertScore(r) => StoreOpModel::InsertScore(r@),
        }
    }
}

pub open spec fn op_views(s: Seq<StoreOp>) -> Seq<StoreOpModel> {
    s.map_values(|o: StoreOp| o@)
}

/// The contents of the store: its rows and the version marker.
pub struct StoreModel {
    pub years: Seq<(Seq<char>, Seq<char>)>,
    pub forms: Seq<(Seq<char>, Seq<char>)>,
    pub events: Seq<EventRowModel>,
    pub scores: Seq<(Seq<char>, i64)>,
    /// The last version that was applied in full, if any.
    pub version: Option<Seq<char>>,
}

/// The store after one write.
pub open spec fn apply_op(s: StoreModel, op: StoreOpModel) -> StoreModel {
    match op {
        StoreOpModel::ClearEvents => StoreModel { events: seq![], ..s },
        StoreOpModel::ClearForms => StoreModel { forms: seq![], ..s },
        StoreOpModel::ClearYears => StoreModel { years: seq![], ..s },
        StoreOpModel::ClearScores => StoreModel { scores: seq![], ..s },
        StoreOpModel::InsertYear(r) => StoreModel { years: s.years.push(r), ..s },
        StoreOpModel::InsertForm(r) => StoreModel { forms: s.forms.push(r), ..s },
        StoreOpModel::InsertEvent(r) => StoreModel { events: s.events.push(r), ..s },
        StoreOpModel::InsertScore(r) => StoreModel { scores: s.scores.push(r), ..s },
    }
}

/// The store after a sequence of writes, in order.
pub open spec fn apply_ops(s: StoreModel, ops: Seq<StoreOpModel>) -> StoreModel
    decreases ops.len(),
{
    if ops.len() == 0 {
        s
    } else {
        apply_op(apply_ops(s, ops.drop_last()), ops.last())
    }
}

/// The year rows of a plan.
pub open spec fn year_rows(p: PlanModel) -> Seq<(Seq<char>, Seq<char>)> {
    p.year_plans.map_values(|y: YearPlanModel| (y.id, y.name))
}

/// The form rows of a plan.
pub open spec fn form_rows(p: PlanModel) -> Seq<(Seq<char>, Seq<char>)> {
    p.form_plan.map_values(|f: FormPlanModel| (f.id, f.name))
}

/// The row of one event plan of the year `year_id`.
pub open spec fn event_row(year_id: Seq<char>, e: EventPlanModel) -> EventRowModel {
    EventRowModel {
        id: e.id,
        name: e.name,
        year_id: year_id,
        gender_id: e.gender_id,
        scores: ledger_json(e.scores),
    }
}

/// The event rows of one year plan.
pub open spec fn year_event_rows(y: YearPlanModel) -> Seq<EventRowModel> {
    y.events.map_values(|e: EventPlanModel| event_row(y.id, e))
}

/// The event rows of a list of year plans: year by year, in order.
pub open spec fn event_rows(years: Seq<YearPlanModel>) -> Seq<EventRowModel>
    decreases years.len(),
{
    if years.len() == 0 {
        seq![]
    } else {
        event_rows(years.drop_last()) + year_event_rows(years.last())
    }
}

pub open spec fn insert_years(rows: Seq<(Seq<char>, Seq<char>)>) -> Seq<StoreOpModel> {
    rows.map_values(|r: (Seq<char>, Seq<char>)| StoreOpModel::InsertYear(r))
}

pub open spec fn insert_forms(rows: Seq<(Seq<char>, Seq<char>)>) -> Seq<StoreOpModel> {
    rows.map_values(|r: (Seq<char>, Seq<char>)| StoreOpModel::InsertForm(r))
}

pub open spec fn insert_events(rows: Seq<EventRowModel>) -> Seq<StoreOpModel> {
    rows.map_values(|r: EventRowModel| StoreOpModel::InsertEvent(r))
}

pub open spec fn insert_scores(rows: Seq<(Seq<char>, i64)>) -> Seq<StoreOpModel> {
    rows.map_values(|r: (Seq<char>, i64)| StoreOpModel::InsertScore(r))
}

/// Deletes everything: events first, since they refer to years.
pub open spec fn clear_ops() -> Seq<StoreOpModel> {
    seq![
        StoreOpModel::ClearEvents,
        StoreOpModel::ClearForms,
        StoreOpModel::ClearYears,
        StoreOpModel::ClearScores,
    ]
}

/// The writes of a full replace: delete everything, then insert years,
/// forms, events and scoring tiers of the plan, each in plan order.
pub open spec fn rebuild_ops(p: PlanModel) -> Seq<StoreOpModel> {
    clear_ops() + insert_years(year_rows(p)) + insert_forms(form_rows(p)) + insert_events(
        event_rows(p.year_plans),
    ) + insert_scores(p.score_plan)
}

/// The store holding exactly the rows of the plan, with the marker `version`.
pub open spec fn store_of_plan(p: PlanModel, version: Option<Seq<char>>) -> StoreModel {
    StoreModel {
        years: year_rows(p),
        forms: form_rows(p),
        events: event_rows(p.year_plans),
        scores: p.score_plan,
        version: version,
    }
}

/// Reconciliation must rebuild unless the stored marker is `version`.
pub open spec fn needs_rebuild(stored: Option<Seq<char>>, version: Seq<char>) -> bool {
    stored != Some(version)
}

/// Whether a reconciliation pass left the store alone or rebuilt it.
#[derive(PartialEq, Eq, Structural, Debug, Clone, Copy)]
pub enum ReconcileOutcome {
    Skipped,
    Applied,
}

/// The outcome and the resulting store of reconciling store `s` with plan
/// `p` of configuration version `version`.
pub open spec fn reconcile_model(s: StoreModel, p: PlanModel, version: Seq<char>) -> (
    ReconcileOutcome,
    StoreModel,
) {
    if needs_rebuild(s.version, version) {
        let rebuilt = apply_ops(s, rebuild_ops(p));
        (ReconcileOutcome::Applied, StoreModel { version: Some(version), ..rebuilt })
    } else {
        (ReconcileOutcome::Skipped, s)
    }
}

proof fn lemma_apply_ops_append(s: StoreModel, a: Seq<StoreOpModel>, b: Seq<StoreOpModel>)
    ensures
        apply_ops(s, a + b) == apply_ops(apply_ops(s, a), b),
    decreases b.len(),
{
    if b.len() == 0 {
        assert(a + b =~= a);
    } else {
        assert((a + b).drop_last() =~= a + b.drop_last());
        assert((a + b).last() == b.last());
        lemma_apply_ops_append(s, a, b.drop_last());
    }
}

proof fn lemma_insert_years(s: StoreModel, rows: Seq<(Seq<char>, Seq<char>)>)
    ensures
        apply_ops(s, insert_years(rows)) == (StoreModel { years: s.years + rows, ..s }),
    decreases rows.len(),
{
    if rows.len() == 0 {
        assert(s.years + rows =~= s.years);
    } else {
        assert(insert_years(rows).drop_last() =~= insert_years(rows.drop_last()));
        lemma_insert_years(s, rows.drop_last());
        assert(insert_years(rows).last() == StoreOpModel::InsertYear(rows.last()));
        assert((s.years + rows.drop_last()).push(rows.last()) =~= s.years + rows);
    }
}

proof fn lemma_insert_forms(s: StoreModel, rows: Seq<(Seq<char>, Seq<char>)>)
    ensures
        apply_ops(s, insert_forms(rows)) == (StoreModel { forms: s.forms + rows, ..s }),
    decreases rows.len(),
{
    if rows.len() == 0 {
        assert(s.forms + rows =~= s.forms);
    } else {
        assert(insert_forms(rows).drop_last() =~= insert_forms(rows.drop_last()));
        lemma_insert_forms(s, rows.drop_last());
        assert(insert_forms(rows).last() == StoreOpModel::InsertForm(rows.last()));
        assert((s.forms + rows.drop_last()).push(rows.last()) =~= s.forms + rows);
    }
}

proof fn lemma_insert_events(s: StoreModel, rows: Seq<EventRowModel>)
    ensures
        apply_ops(s, insert_events(rows)) == (StoreModel { events: s.events + rows, ..s }),
    decreases rows.len(),
{
    if rows.len() == 0 {
        assert(s.events + rows =~= s.events);
    } else {
        assert(insert_events(rows).drop_last() =~= insert_events(rows.drop_last()));
        lemma_insert_events(s, rows.drop_last());
        assert(insert_events(rows).last() == StoreOpModel::InsertEvent(rows.last()));
        assert((s.events + rows.drop_last()).push(rows.last()) =~= s.events + rows);
    }
}

proof fn lemma_insert_scores(s: StoreModel, rows: Seq<(Seq<char>, i64)>)
    ensures
        apply_ops(s, insert_scores(rows)) == (StoreModel { scores: s.scores + rows, ..s }),
    decreases rows.len(),
{
    if rows.len() == 0 {
        assert(s.scores + rows =~= s.scores);
    } else {
        assert(insert_scores(rows).drop_last() =~= insert_scores(rows.drop_last()));
        lemma_insert_scores(s, rows.drop_last());
        assert(insert_scores(rows).last() == StoreOpModel::InsertScore(rows.last()));
        assert((s.scores + rows.drop_last()).push(rows.last()) =~= s.scores + rows);
    }
}

proof fn lemma_clear_all(s: StoreModel)
    ensures
        apply_ops(s, clear_ops()) == store_of_plan(
            PlanModel { year_plans: seq![], form_plan: seq![], score_plan: seq![] },
            s.version,
        ),
{
    let o1 = seq![StoreOpModel::ClearEvents];
    let o2 = o1.push(StoreOpModel::ClearForms);
    let o3 = o2.push(StoreOpModel::ClearYears);
    let o4 = o3.push(StoreOpModel::ClearScores);
    assert(o4 =~= clear_ops());
    assert(o1.drop_last() =~= Seq::<StoreOpModel>::empty());
    assert(o2.drop_last() =~= o1);
    assert(o3.drop_last() =~= o2);
    assert(o4.drop_last() =~= o3);
    assert(apply_ops(s, o1.drop_last()) == s);
    assert(apply_ops(s, o1) == apply_op(s, StoreOpModel::ClearEvents));
    assert(apply_ops(s, o2) == apply_op(apply_ops(s, o1), StoreOpModel::ClearForms));
    assert(apply_ops(s, o3) == apply_op(apply_ops(s, o2), StoreOpModel::ClearYears));
    assert(apply_ops(s, o4) == apply_op(apply_ops(s, o3), StoreOpModel::ClearScores));
    let empty_plan = PlanModel { year_plans: seq![], form_plan: seq![], score_plan: seq![] };
    assert(year_rows(empty_plan) =~= seq![]);
    assert(form_rows(empty_plan) =~= seq![]);
    assert(event_rows(empty_plan.year_plans) =~= seq![]);
}

/// A full replace leaves exactly the rows of the plan, whatever the store
/// held before; it does not touch the marker.
proof fn lemma_rebuild(s: StoreModel, p: PlanModel)
    ensures
        apply_ops(s, rebuild_ops(p)) == store_of_plan(p, s.version),
{
    let c = clear_ops();
    let y = insert_years(year_rows(p));
    let f = insert_forms(form_rows(p));
    let e = insert_events(event_rows(p.year_plans));
    let t = insert_scores(p.score_plan);
    lemma_apply_ops_append(s, c + y + f + e, t);
    lemma_apply_ops_append(s, c + y + f, e);
    lemma_apply_ops_append(s, c + y, f);
    lemma_apply_ops_append(s, c, y);
    lemma_clear_all(s);
    let s0 = apply_ops(s, c);
    lemma_insert_years(s0, year_rows(p));
    let s1 = apply_ops(s0, y);
    lemma_insert_forms(s1, form_rows(p));
    let s2 = apply_ops(s1, f);
    lemma_insert_events(s2, event_rows(p.year_plans));
    let s3 = apply_ops(s2, e);
    lemma_insert_scores(s3, p.score_plan);
    assert(Seq::<(Seq<char>, Seq<char>)>::empty() + year_rows(p) =~= year_rows(p));
    assert(Seq::<(Seq<char>, Seq<char>)>::empty() + form_rows(p) =~= form_rows(p));
    assert(Seq::<EventRowModel>::empty() + event_rows(p.year_plans) =~= event_rows(p.year_plans));
    assert(Seq::<(Seq<char>, i64)>::empty() + p.score_plan =~= p.score_plan);
}

/// Reconciling twice with an unchanged version: the second pass is skipped,
/// needs no write, and leaves the store as the first pass left it, whatever
/// plan it is given.
pub proof fn lemma_unchanged_version_skips(
    s: StoreModel,
    first: PlanModel,
    second: PlanModel,
    version: Seq<char>,
)
    ensures
        ({
            let after = reconcile_model(s, first, version).1;
            &&& !needs_rebuild(after.version, version)
            &&& reconcile_model(after, second, version).0 == ReconcileOutcome::Skipped
            &&& reconcile_model(after, second, version).1 == after
        }),
{
}

/// Reconciling with a changed version rebuilds the store: afterwards it
/// holds exactly the rows of the new plan, none of what it held before, and
/// the new version as its marker.
pub proof fn lemma_changed_version_replaces(s: StoreModel, p: PlanModel, version: Seq<char>)
    requires
        s.version != Some(version),
    ensures
        reconcile_model(s, p, version).0 == ReconcileOutcome::Applied,
        reconcile_model(s, p, version).1 == store_of_plan(p, Some(version)),
{
    lemma_rebuild(s, p);
}

/// A version marker as a sequence, if there is one.
pub open spec fn marker_view(m: Option<String>) -> Option<Seq<char>> {
    match m {
        Some(v) => Some(v@),
        None => None,
    }
}

proof fn lemma_op_views_push(s: Seq<StoreOp>, x: StoreOp)
    ensures
        op_views(s.push(x)) == op_views(s).push(x@),
{
    assert(op_views(s.push(x)) =~= op_views(s).push(x@));
}

proof fn lemma_op_views_append(a: Seq<StoreOp>, b: Seq<StoreOp>)
    ensures
        op_views(a + b) == op_views(a) + op_views(b),
{
    assert(op_views(a + b) =~= op_views(a) + op_views(b));
}

/// Inserts of the plan's years, in order.
fn year_inserts(plan: &Plan) -> (r: Vec<StoreOp>)
    ensures
        op_views(r@) == insert_years(year_rows(plan@)),
{
    let mut r: Vec<StoreOp> = Vec::new();
    let mut i: usize = 0;
    while i < plan.year_plans.len()
        invariant
            i <= plan.year_plans.len(),
            r@.len() == i,
            forall|k: int| 0 <= k < i ==> (#[trigger] r@[k])@ == StoreOpModel::InsertYear(
                (plan.year_plans@[k].id@, plan.year_plans@[k].name@),
            ),
        decreases plan.year_plans.len() - i,
    {
        let y = &plan.year_plans[i];
        r.push(StoreOp::InsertYear(Years::new(y.id.clone(), y.name.clone())));
        i = i + 1;
    }
    assert(op_views(r@) =~= insert_years(year_rows(plan@)));
    r
}

/// Inserts of the plan's forms, in order.
fn form_inserts(plan: &Plan) -> (r: Vec<StoreOp>)
    ensures
        op_views(r@) == insert_forms(form_rows(plan@)),
{
    let mut r: Vec<StoreOp> = Vec::new();
    let mut i: usize = 0;
    while i < plan.form_plan.len()
        invariant
            i <= plan.form_plan.len(),
            r@.len() == i,
            forall|k: int| 0 <= k < i ==> (#[trigger] r@[k])@ == StoreOpModel::InsertForm(
                (plan.form_plan@[k].id@, plan.form_plan@[k].name@),
            ),
        decreases plan.form_plan.len() - i,
    {
        let f = &plan.form_plan[i];
        r.push(StoreOp::InsertForm(Forms::new(f.id.clone(), f.name.clone())));
        i = i + 1;
    }
    assert(op_views(r@) =~= insert_forms(form_rows(plan@)));
    r
}

/// Inserts of the plan's scoring tiers, in order.
fn score_inserts(plan: &Plan) -> (r: Vec<StoreOp>)
    ensures
        op_views(r@) == insert_scores(plan@.score_plan),
{
    let mut r: Vec<StoreOp> = Vec::new();
    let mut i: usize = 0;
    while i < plan.score_plan.len()
        invariant
            i <= plan.score_plan.len(),
            r@.len() == i,
            forall|k: int| 0 <= k < i ==> (#[trigger] r@[k])@ == StoreOpModel::InsertScore(
                (plan.score_plan@[k].name@, plan.score_plan@[k].value),
            ),
        decreases plan.score_plan.len() - i,
    {
        let t = &plan.score_plan[i];
        r.push(StoreOp::InsertScore(Scores::new(t.name.clone(), t.value)));
        i = i + 1;
    }
    assert(op_views(r@) =~= insert_scores(plan@.score_plan));
    r
}

/// The stored row of one event plan of the year `year_id`.
fn event_row_of(year_id: &String, e: &EventPlan) -> (r: Events)
    ensures
        r@ == event_row(year_id@, e@),
{
    Events::new(e.id.clone(), e.name.clone(), year_id.clone(), e.gender_id.clone(), e.scores_text())
}

/// Inserts of the plan's events, year by year, each year's in order.
fn event_inserts(plan: &Plan) -> (r: Vec<StoreOp>)
    ensures
        op_views(r@) == insert_events(event_rows(plan@.year_plans)),
{
    let ghost yps = plan@.year_plans;
    let mut r: Vec<StoreOp> = Vec::new();
    let mut i: usize = 0;
    while i < plan.year_plans.len()
        invariant
            i <= plan.year_plans.len(),
            yps == plan@.year_plans,
            op_views(r@) == insert_events(event_rows(yps.take(i as int))),
        decreases plan.year_plans.len() - i,
    {
        let y = &plan.year_plans[i];
        let ghost base = op_views(r@);
        let ghost rows = year_event_rows(yps[i as int]);
        assert(yps[i as int] == y@);
        let mut j: usize = 0;
        while j < y.events.len()
            invariant
                j <= y.events.len(),
                rows == year_event_rows(y@),
                op_views(r@) == base + insert_events(rows.take(j as int)),
            decreases y.events.len() - j,
        {
            let row = event_row_of(&y.id, &y.events[j]);
            assert(rows[j as int] == event_row(y.id@, y.events@[j as int]@));
            proof {
                lemma_op_views_push(r@, StoreOp::InsertEvent(row));
            }
            r.push(StoreOp::InsertEvent(row));
            assert(op_views(r@) =~= base + insert_events(rows.take(j as int + 1)));
            j = j + 1;
        }
        proof {
            assert(rows.take(y.events.len() as int) =~= rows);
            assert(yps.take(i as int + 1).drop_last() =~= yps.take(i as int));
            assert(yps.take(i as int + 1).last() == yps[i as int]);
            let earlier = event_rows(yps.take(i as int));
            assert(insert_events(earlier + rows) =~= insert_events(earlier) + insert_events(rows));
        }
        i = i + 1;
    }
    assert(yps.take(plan.year_plans.len() as int) =~= yps);
    r
}

/// The writes of a full replace of the store by the plan: delete all
/// events, forms, years and scoring tiers, then insert the plan's years,
/// forms, events and scoring tiers, in that order.
pub fn rebuild_operations(plan: &Plan) -> (r: Vec<StoreOp>)
    ensures
        op_views(r@) == rebuild_ops(plan@),
{
    let mut r: Vec<StoreOp> = Vec::new();
    r.push(StoreOp::ClearEvents);
    r.push(StoreOp::ClearForms);
    r.push(StoreOp::ClearYears);
    r.push(StoreOp::ClearScores);
    assert(op_views(r@) =~= clear_ops());
    let mut years = year_inserts(plan);
    let mut forms = form_inserts(plan);
    let mut events = event_inserts(plan);
    let mut scores = score_inserts(plan);
    proof {
        lemma_op_views_append(r@, years@);
        lemma_op_views_append(r@ + years@, forms@);
        lemma_op_views_append(r@ + years@ + forms@, events@);
        lemma_op_views_append(r@ + years@ + forms@ + events@, scores@);
    }
    r.append(&mut years);
    r.append(&mut forms);
    r.append(&mut events);
    r.append(&mut scores);
    r
}

/// What a reconciliation pass is to do: its outcome, the writes to make,
/// and the version marker to record once every write has succeeded.
pub struct Reconciliation {
    pub outcome: ReconcileOutcome,
    pub operations: Vec<StoreOp>,
    pub version_to_write: Option<String>,
}

/// Decides a reconciliation pass. If the stored marker equals
/// `config_version` nothing is to be done; otherwise the store is to be
/// replaced by the plan and the marker set to `config_version` afterwards.
pub fn plan_reconciliation(plan: &Plan, config_version: &str, stored_version: &Option<String>) -> (r:
    Reconciliation)
    ensures
        if needs_rebuild(marker_view(*stored_version), config_version@) {
            &&& r.outcome == ReconcileOutcome::Applied
            &&& op_views(r.operations@) == rebuild_ops(plan@)
            &&& marker_view(r.version_to_write) == Some(config_version@)
        } else {
            &&& r.outcome == ReconcileOutcome::Skipped
            &&& r.operations@.len() == 0
            &&& r.version_to_write is None
        },
{
    let version = config_version.to_owned();
    let unchanged = match stored_version {
        Some(v) => *v == version,
        None => false,
    };
    if unchanged {
        Reconciliation { outcome: ReconcileOutcome::Skipped, operations: Vec::new(), version_to_write: None }
    } else {
        Reconciliation {
            outcome: ReconcileOutcome::Applied,
            operations: rebuild_operations(plan),
            version_to_write: Some(version),
        }
    }
}

/// A store held in memory, with its version marker.
pub struct MemoryStore {
    pub years: Vec<Years>,
    pub forms: Vec<Forms>,
    pub events: Vec<Events>,
    pub scores: Vec<Scores>,
    pub version: Option<String>,
}

impl View for MemoryStore {
    type V = StoreModel;

    open spec fn view(&self) -> StoreModel {
        StoreModel {
            years: self.years@.map_values(|r: Years| r@),
            forms: self.forms@.map_values(|r: Forms| r@),
            events: self.events@.map_values(|r: Events| r@),
            scores: self.scores@.map_values(|r: Scores| r@),
            version: marker_view(self.version),
        }
    }
}

impl MemoryStore {
    /// An empty store that has never been reconciled.
    pub fn new() -> (r: Self)
        ensures
            r@ == store_of_plan(
                PlanModel { year_plans: seq![], form_plan: seq![], score_plan: seq![] },
                None,
            ),
    {
        let r = MemoryStore {
            years: Vec::new(),
            forms: Vec::new(),
            events: Vec::new(),
            scores: Vec::new(),
            version: None,
        };
        let ghost empty_plan = PlanModel { year_plans: seq![], form_plan: seq![], score_plan: seq![] };
        assert(r@.years =~= year_rows(empty_plan));
        assert(r@.forms =~= form_rows(empty_plan));
        assert(r@.events =~= event_rows(empty_plan.year_plans));
        assert(r@.scores =~= empty_plan.score_plan);
        r
    }

    /// Makes one write.
    pub fn apply(&mut self, op: &StoreOp)
        ensures
            final(self)@ == apply_op(old(self)@, op@),
    {
        match op {
            StoreOp::ClearEvents => {
                self.events = Vec::new();
                assert(self@.events =~= Seq::<EventRowModel>::empty());
            },
            StoreOp::ClearForms => {
                self.forms = Vec::new();
                assert(self@.forms =~= Seq::<(Seq<char>, Seq<char>)>::empty());
            },
            StoreOp::ClearYears => {
                self.years = Vec::new();
                assert(self@.years =~= Seq::<(Seq<char>, Seq<char>)>::empty());
            },
            StoreOp::ClearScores => {
                self.scores = Vec::new();
                assert(self@.scores =~= Seq::<(Seq<char>, i64)>::empty());
            },
            StoreOp::InsertYear(row) => {
                self.years.push(Years::new(row.id.clone(), row.name.clone()));
                assert(self@.years =~= old(self)@.years.push(row@));
            },
            StoreOp::InsertForm(row) => {
                self.forms.push(Forms::new(row.id.clone(), row.name.clone()));
                assert(self@.forms =~= old(self)@.forms.push(row@));
            },
            StoreOp::InsertEvent(row) => {
                self.events.push(
                    Events::new(
                        row.id.clone(),
                        row.name.clone(),
                        row.year_id.clone(),
                        row.gender_id.clone(),
                        row.scores.clone(),
                    ),
                );
                assert(self@.events =~= old(self)@.events.push(row@));
            },
            StoreOp::InsertScore(row) => {
                self.scores.push(Scores::new(row.name.clone(), row.value));
                assert(self@.scores =~= old(self)@.scores.push(row@));
            },
        }
    }

    /// Reconciles the store with `plan` of configuration version
    /// `config_version`: skipped, with no write, if the store's marker is
    /// that version; otherwise every row is replaced by the plan's and the
    /// marker is set once all of them are written.
    pub fn reconcile(&mut self, plan: &Plan, config_version: &str) -> (r: ReconcileOutcome)
        ensures
            (r, final(self)@) == reconcile_model(old(self)@, plan@, config_version@),
    {
        let decision = plan_reconciliation(plan, config_version, &self.version);
        let ghost start = self@;
        let ghost ops = op_views(decision.operations@);
        let mut i: usize = 0;
        while i < decision.operations.len()
            invariant
                i <= decision.operations.len(),
                ops == op_views(decision.operations@),
                self@ == apply_ops(start, ops.take(i as int)),
            decreases decision.operations.len() - i,
        {
            self.apply(&decision.operations[i]);
            assert(ops.take(i as int + 1).drop_last() =~= ops.take(i as int));
            assert(ops.take(i as int + 1).last() == decision.operations@[i as int]@);
            i = i + 1;
        }
        assert(ops.take(decision.operations.len() as int) =~= ops);
        if let Some(v) = decision.version_to_write {
            self.version = Some(v);
        }
        decision.outcome
    }
}

} // verus!
