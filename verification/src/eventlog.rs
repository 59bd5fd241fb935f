//! Consistency of the decision log with the entities it describes.

use vstd::prelude::*;
use crate::models::{
    CritiqueStatus, Event, EventType, MilestoneStatus, ProblemStatus, SolutionStatus,
};
use crate::store::MetadataStore;
use crate::formats::{rfc3339_instant, rfc3339_instant_of};
use crate::models::event_type_label;
use crate::parsing::{date_filter_spec, parse_date_filter};
use crate::text::{copy_str, chars_of, contains, has_sub, str_eq, string_of, to_lowercase, unicode_lowercase};

verus! {

/// One inconsistency between the log and the entities.
#[derive(Debug, PartialEq)]
pub enum LogIssue {
    /// An event is timestamped before the event logged just ahead of it.
    OutOfOrder { entity: String, when: i64, after_entity: String, after_when: i64 },
    /// An event names an entity that does not exist.
    UnknownEntity { entity: String, event_type: EventType },
    /// An entity has no event recording its creation.
    NoCreationEvent { id: String },
    /// An entity's status says something happened that the log never
    /// recorded; `expected` is the event that should be there.
    MissingStatusEvent { id: String, expected: EventType },
}

pub enum IssueView {
    OutOfOrder { entity: Seq<char>, when: i64, after_entity: Seq<char>, after_when: i64 },
    UnknownEntity { entity: Seq<char>, event_type: EventType },
    NoCreationEvent { id: Seq<char> },
    MissingStatusEvent { id: Seq<char>, expected: EventType },
}

impl View for LogIssue {
    type V = IssueView;

    open spec fn view(&self) -> IssueView {
        match self {
            LogIssue::OutOfOrder { entity, when, after_entity, after_when } => IssueView::OutOfOrder {
                entity: entity@,
                when: *when,
                after_entity: after_entity@,
                after_when: *after_when,
            },
            LogIssue::UnknownEntity { entity, event_type } => IssueView::UnknownEntity {
                entity: entity@,
                event_type: *event_type,
            },
            LogIssue::NoCreationEvent { id } => IssueView::NoCreationEvent { id: id@ },
            LogIssue::MissingStatusEvent { id, expected } => IssueView::MissingStatusEvent {
                id: id@,
                expected: *expected,
            },
        }
    }
}

pub open spec fn issues_view(v: Seq<LogIssue>) -> Seq<IssueView> {
    v.map_values(|i: LogIssue| i@)
}

// ───────────────────────── the checks ─────────────────────────

/// Out-of-order neighbours among the first `n` events.
pub open spec fn order_issues(evs: Seq<Event>, n: int) -> Seq<IssueView>
    decreases n,
{
    if n <= 1 || n > evs.len() {
        Seq::empty()
    } else {
        let rest = order_issues(evs, n - 1);
        let (a, b) = (evs[n - 2], evs[n - 1]);
        if b.when < a.when {
            rest.push(
                IssueView::OutOfOrder {
                    entity: b.entity@,
                    when: b.when,
                    after_entity: a.entity@,
                    after_when: a.when,
                },
            )
        } else {
            rest
        }
    }
}

/// Events naming an entity outside `ids`.
pub open spec fn unknown_issues(evs: Seq<Event>, ids: Seq<Seq<char>>) -> Seq<IssueView> {
    evs.filter(|e: Event| !ids.contains(e.entity@)).map_values(
        |e: Event| IssueView::UnknownEntity { entity: e.entity@, event_type: e.event_type },
    )
}

pub open spec fn is_creation(t: EventType) -> bool {
    t == EventType::ProblemCreated || t == EventType::SolutionCreated || t == EventType::CritiqueRaised
        || t == EventType::MilestoneCreated
}

pub open spec fn created(evs: Seq<Event>, id: Seq<char>) -> bool {
    exists|j: int| 0 <= j < evs.len() && evs[j].entity@ == id && is_creation(evs[j].event_type)
}

pub open spec fn has_event(evs: Seq<Event>, id: Seq<char>, t: EventType) -> bool {
    exists|j: int| 0 <= j < evs.len() && evs[j].entity@ == id && evs[j].event_type == t
}

/// Entry `k` is the last one with its key (duplicates count once).
pub open spec fn last_of<A>(xs: Seq<(Seq<char>, A)>, k: int) -> bool {
    forall|j: int| k < j < xs.len() ==> xs[j].0 != xs[k].0
}

/// Ids among the first `n` (each counted once) with no creation event.
pub open spec fn creation_issues(evs: Seq<Event>, ids: Seq<(Seq<char>, Option<EventType>)>, n: int) -> Seq<IssueView>
    decreases n,
{
    if n <= 0 || n > ids.len() {
        Seq::empty()
    } else {
        let rest = creation_issues(evs, ids, n - 1);
        let id = ids[n - 1].0;
        if last_of(ids, n - 1) && !created(evs, id) {
            rest.push(IssueView::NoCreationEvent { id })
        } else {
            rest
        }
    }
}

/// Among the first `n` `(id, expected event)` entries (the last of each id
/// standing for it), those whose expected event is missing.
pub open spec fn status_issues(evs: Seq<Event>, xs: Seq<(Seq<char>, Option<EventType>)>, n: int) -> Seq<
    IssueView,
>
    decreases n,
{
    if n <= 0 || n > xs.len() {
        Seq::empty()
    } else {
        let rest = status_issues(evs, xs, n - 1);
        let (id, exp) = xs[n - 1];
        if last_of(xs, n - 1) && exp is Some && !has_event(evs, id, exp->0) {
            rest.push(IssueView::MissingStatusEvent { id, expected: exp->0 })
        } else {
            rest
        }
    }
}

pub open spec fn problem_expect(s: ProblemStatus) -> Option<EventType> {
    match s {
        ProblemStatus::Solved => Some(EventType::ProblemSolved),
        ProblemStatus::Dissolved => Some(EventType::ProblemDissolved),
        _ => None,
    }
}

pub open spec fn solution_expect(s: SolutionStatus) -> Option<EventType> {
    match s {
        SolutionStatus::Approved => Some(EventType::SolutionApproved),
        SolutionStatus::Withdrawn => Some(EventType::SolutionWithdrawn),
        _ => None,
    }
}

pub open spec fn critique_expect(s: CritiqueStatus) -> Option<EventType> {
    match s {
        CritiqueStatus::Addressed => Some(EventType::CritiqueAddressed),
        CritiqueStatus::Valid => Some(EventType::CritiqueValidated),
        CritiqueStatus::Dismissed => Some(EventType::CritiqueDismissed),
        _ => None,
    }
}

pub open spec fn milestone_expect(s: MilestoneStatus) -> Option<EventType> {
    match s {
        MilestoneStatus::Completed => Some(EventType::MilestoneCompleted),
        _ => None,
    }
}

pub open spec fn problem_expectations(s: MetadataStore) -> Seq<(Seq<char>, Option<EventType>)> {
    s.problems@.map_values(|p: crate::models::Problem| (p.id@, problem_expect(p.status)))
}

pub open spec fn solution_expectations(s: MetadataStore) -> Seq<(Seq<char>, Option<EventType>)> {
    s.solutions@.map_values(|x: crate::models::Solution| (x.id@, solution_expect(x.status)))
}

pub open spec fn critique_expectations(s: MetadataStore) -> Seq<(Seq<char>, Option<EventType>)> {
    s.critiques@.map_values(|c: crate::models::Critique| (c.id@, critique_expect(c.status)))
}

pub open spec fn milestone_expectations(s: MetadataStore) -> Seq<(Seq<char>, Option<EventType>)> {
    s.milestones@.map_values(|m: crate::models::Milestone| (m.id@, milestone_expect(m.status)))
}

/// Every entity: problems, solutions, critiques, then milestones.
pub open spec fn all_ids(s: MetadataStore) -> Seq<(Seq<char>, Option<EventType>)> {
    problem_expectations(s) + solution_expectations(s) + critique_expectations(s)
        + milestone_expectations(s)
}

pub open spec fn id_keys(xs: Seq<(Seq<char>, Option<EventType>)>) -> Seq<Seq<char>> {
    xs.map_values(|x: (Seq<char>, Option<EventType>)| x.0)
}

/// Everything wrong with the log: events out of time order, events about
/// unknown entities, entities never created, then statuses whose event is
/// missing (problems, solutions, critiques, milestones).
pub open spec fn log_issues_spec(s: MetadataStore) -> Seq<IssueView> {
    let evs = s.events@;
    let ids = all_ids(s);
    order_issues(evs, evs.len() as int) + unknown_issues(evs, id_keys(ids)) + creation_issues(
        evs,
        ids,
        ids.len() as int,
    ) + status_issues(evs, problem_expectations(s), s.problems@.len() as int) + status_issues(
        evs,
        solution_expectations(s),
        s.solutions@.len() as int,
    ) + status_issues(evs, critique_expectations(s), s.critiques@.len() as int) + status_issues(
        evs,
        milestone_expectations(s),
        s.milestones@.len() as int,
    )
}

// ───────────────────────── running the checks ─────────────────────────

pub open spec fn keyed_view(v: Seq<(String, Option<EventType>)>) -> Seq<(Seq<char>, Option<EventType>)> {
    v.map_values(|x: (String, Option<EventType>)| (x.0@, x.1))
}

fn expectations(store: &MetadataStore) -> (r: (
    Vec<(String, Option<EventType>)>,
    Vec<(String, Option<EventType>)>,
    Vec<(String, Option<EventType>)>,
    Vec<(String, Option<EventType>)>,
))
    ensures
        keyed_view(r.0@) == problem_expectations(*store),
        keyed_view(r.1@) == solution_expectations(*store),
        keyed_view(r.2@) == critique_expectations(*store),
        keyed_view(r.3@) == milestone_expectations(*store),
{
    let mut a: Vec<(String, Option<EventType>)> = Vec::new();
    let mut i: usize = 0;
    while i < store.problems.len()
        invariant
            i <= store.problems.len(),
            keyed_view(a@) == problem_expectations(*store).take(i as int),
        decreases store.problems.len() - i,
    {
        let p = &store.problems[i];
        let e = match p.status {
            ProblemStatus::Solved => Some(EventType::ProblemSolved),
            ProblemStatus::Dissolved => Some(EventType::ProblemDissolved),
            _ => None,
        };
        let ghost before = keyed_view(a@);
        a.push((copy_str(p.id.as_str()), e));
        assert(keyed_view(a@) =~= before.push((p.id@, e)));
        assert(keyed_view(a@) =~= problem_expectations(*store).take(i + 1));
        i += 1;
    }
    assert(problem_expectations(*store).take(i as int) =~= problem_expectations(*store));
    let mut b: Vec<(String, Option<EventType>)> = Vec::new();
    let mut i: usize = 0;
    while i < store.solutions.len()
        invariant
            i <= store.solutions.len(),
            keyed_view(b@) == solution_expectations(*store).take(i as int),
        decreases store.solutions.len() - i,
    {
        let x = &store.solutions[i];
        let e = match x.status {
            SolutionStatus::Approved => Some(EventType::SolutionApproved),
            SolutionStatus::Withdrawn => Some(EventType::SolutionWithdrawn),
            _ => None,
        };
        let ghost before = keyed_view(b@);
        b.push((copy_str(x.id.as_str()), e));
        assert(keyed_view(b@) =~= before.push((x.id@, e)));
        assert(keyed_view(b@) =~= solution_expectations(*store).take(i + 1));
        i += 1;
    }
    assert(solution_expectations(*store).take(i as int) =~= solution_expectations(*store));
    let mut c: Vec<(String, Option<EventType>)> = Vec::new();
    let mut i: usize = 0;
    while i < store.critiques.len()
        invariant
            i <= store.critiques.len(),
            keyed_view(c@) == critique_expectations(*store).take(i as int),
        decreases store.critiques.len() - i,
    {
        let x = &store.critiques[i];
        let e = match x.status {
            CritiqueStatus::Addressed => Some(EventType::CritiqueAddressed),
            CritiqueStatus::Valid => Some(EventType::CritiqueValidated),
            CritiqueStatus::Dismissed => Some(EventType::CritiqueDismissed),
            _ => None,
        };
        let ghost before = keyed_view(c@);
        c.push((copy_str(x.id.as_str()), e));
        assert(keyed_view(c@) =~= before.push((x.id@, e)));
        assert(keyed_view(c@) =~= critique_expectations(*store).take(i + 1));
        i += 1;
    }
    assert(critique_expectations(*store).take(i as int) =~= critique_expectations(*store));
    let mut d: Vec<(String, Option<EventType>)> = Vec::new();
    let mut i: usize = 0;
    while i < store.milestones.len()
        invariant
            i <= store.milestones.len(),
            keyed_view(d@) == milestone_expectations(*store).take(i as int),
        decreases store.milestones.len() - i,
    {
        let x = &store.milestones[i];
        let e = match x.status {
            MilestoneStatus::Completed => Some(EventType::MilestoneCompleted),
            _ => None,
        };
        let ghost before = keyed_view(d@);
        d.push((copy_str(x.id.as_str()), e));
        assert(keyed_view(d@) =~= before.push((x.id@, e)));
        assert(keyed_view(d@) =~= milestone_expectations(*store).take(i + 1));
        i += 1;
    }
    assert(milestone_expectations(*store).take(i as int) =~= milestone_expectations(*store));
    (a, b, c, d)
}

fn append_keyed(out: &mut Vec<(String, Option<EventType>)>, xs: &Vec<(String, Option<EventType>)>)
    ensures
        keyed_view(final(out)@) == keyed_view(old(out)@) + keyed_view(xs@),
{
    let ghost start = keyed_view(out@);
    let mut i: usize = 0;
    while i < xs.len()
        invariant
            i <= xs.len(),
            keyed_view(out@) == start + keyed_view(xs@).take(i as int),
        decreases xs.len() - i,
    {
        let ghost before = keyed_view(out@);
        out.push((copy_str(xs[i].0.as_str()), xs[i].1));
        assert(keyed_view(out@) =~= before.push((xs@[i as int].0@, xs@[i as int].1)));
        assert(keyed_view(out@) =~= start + keyed_view(xs@).take(i + 1));
        i += 1;
    }
    assert(keyed_view(xs@).take(i as int) =~= keyed_view(xs@));
}

fn is_last(xs: &Vec<(String, Option<EventType>)>, k: usize) -> (b: bool)
    requires
        k < xs.len(),
    ensures
        b == last_of(keyed_view(xs@), k as int),
{
    let ghost kv = keyed_view(xs@);
    let mut j: usize = k + 1;
    while j < xs.len()
        invariant
            k < j <= xs.len(),
            kv == keyed_view(xs@),
            forall|m: int| k < m < j ==> kv[m].0 != kv[k as int].0,
        decreases xs.len() - j,
    {
        assert(kv[j as int].0 == xs@[j as int].0@);
        assert(kv[k as int].0 == xs@[k as int].0@);
        if str_eq(xs[j].0.as_str(), xs[k].0.as_str()) {
            return false;
        }
        j += 1;
    }
    true
}

fn has_event_exec(evs: &Vec<Event>, id: &str, t: EventType) -> (b: bool)
    ensures
        b == has_event(evs@, id@, t),
{
    let mut j: usize = 0;
    while j < evs.len()
        invariant
            j <= evs.len(),
            forall|m: int| 0 <= m < j ==> !(evs@[m].entity@ == id@ && evs@[m].event_type == t),
        decreases evs.len() - j,
    {
        if evs[j].event_type == t && str_eq(evs[j].entity.as_str(), id) {
            return true;
        }
        j += 1;
    }
    false
}

fn created_exec(evs: &Vec<Event>, id: &str) -> (b: bool)
    ensures
        b == created(evs@, id@),
{
    let mut j: usize = 0;
    while j < evs.len()
        invariant
            j <= evs.len(),
            forall|m: int| 0 <= m < j ==> !(evs@[m].entity@ == id@ && is_creation(evs@[m].event_type)),
        decreases evs.len() - j,
    {
        let t = evs[j].event_type;
        let creation = t == EventType::ProblemCreated || t == EventType::SolutionCreated || t
            == EventType::CritiqueRaised || t == EventType::MilestoneCreated;
        if creation && str_eq(evs[j].entity.as_str(), id) {
            return true;
        }
        j += 1;
    }
    false
}

fn key_known(xs: &Vec<(String, Option<EventType>)>, id: &str) -> (b: bool)
    ensures
        b == id_keys(keyed_view(xs@)).contains(id@),
{
    let ghost ks = id_keys(keyed_view(xs@));
    let mut j: usize = 0;
    while j < xs.len()
        invariant
            j <= xs.len(),
            ks == id_keys(keyed_view(xs@)),
            forall|m: int| 0 <= m < j ==> ks[m] != id@,
        decreases xs.len() - j,
    {
        assert(ks[j as int] == xs@[j as int].0@);
        if str_eq(xs[j].0.as_str(), id) {
            return true;
        }
        j += 1;
    }
    false
}

fn push_status_issues(out: &mut Vec<LogIssue>, evs: &Vec<Event>, xs: &Vec<(String, Option<EventType>)>)
    ensures
        issues_view(final(out)@) == issues_view(old(out)@) + status_issues(
            evs@,
            keyed_view(xs@),
            xs@.len() as int,
        ),
{
    let ghost start = issues_view(out@);
    let ghost kv = keyed_view(xs@);
    let mut k: usize = 0;
    while k < xs.len()
        invariant
            k <= xs.len(),
            kv == keyed_view(xs@),
            issues_view(out@) == start + status_issues(evs@, kv, k as int),
        decreases xs.len() - k,
    {
        assert(kv[k as int] == (xs@[k as int].0@, xs@[k as int].1));
        let ghost before = issues_view(out@);
        match xs[k].1 {
            Some(t) => {
                if is_last(xs, k) && !has_event_exec(evs, xs[k].0.as_str(), t) {
                    out.push(LogIssue::MissingStatusEvent { id: copy_str(xs[k].0.as_str()), expected: t });
                    assert(issues_view(out@) =~= before.push(IssueView::MissingStatusEvent { id: kv[k as int].0, expected: t }));
                }
            },
            None => {},
        }
        k += 1;
    }
}

/// Every inconsistency between the log and the entities (see
/// `log_issues_spec`).
pub fn log_issues(store: &MetadataStore) -> (r: Vec<LogIssue>)
    ensures
        issues_view(r@) == log_issues_spec(*store),
{
    let evs = &store.events;
    let mut out: Vec<LogIssue> = Vec::new();

    // Time order of neighbouring events.
    let mut n: usize = 1;
    if evs.len() > 0 {
        while n < evs.len()
            invariant
                1 <= n <= evs.len(),
                evs == &store.events,
                issues_view(out@) == order_issues(evs@, n as int),
            decreases evs.len() - n,
        {
            let a = &evs[n - 1];
            let b = &evs[n];
            if b.when < a.when {
                let ghost before = issues_view(out@);
                out.push(
                    LogIssue::OutOfOrder {
                        entity: copy_str(b.entity.as_str()),
                        when: b.when,
                        after_entity: copy_str(a.entity.as_str()),
                        after_when: a.when,
                    },
                );
                assert(issues_view(out@) =~= before.push(IssueView::OutOfOrder { entity: b.entity@, when: b.when, after_entity: a.entity@, after_when: a.when }));
            }
            n += 1;
        }
    } else {
        assert(issues_view(out@) =~= order_issues(evs@, evs@.len() as int));
    }

    let (pe, se, ce, me) = expectations(store);
    let mut ids: Vec<(String, Option<EventType>)> = Vec::new();
    append_keyed(&mut ids, &pe);
    append_keyed(&mut ids, &se);
    append_keyed(&mut ids, &ce);
    append_keyed(&mut ids, &me);
    assert(keyed_view(ids@) =~= all_ids(*store));

    // Events about unknown entities.
    let ghost start = issues_view(out@);
    let ghost keys = id_keys(keyed_view(ids@));
    let ghost pred = |e: Event| !keys.contains(e.entity@);
    let ghost f = |e: Event| IssueView::UnknownEntity { entity: e.entity@, event_type: e.event_type };
    let mut i: usize = 0;
    while i < evs.len()
        invariant
            i <= evs.len(),
            evs == &store.events,
            keys == id_keys(keyed_view(ids@)),
            pred == (|e: Event| !keys.contains(e.entity@)),
            f == (|e: Event| IssueView::UnknownEntity { entity: e.entity@, event_type: e.event_type }),
            issues_view(out@) == start + evs@.take(i as int).filter(pred).map_values(f),
        decreases evs.len() - i,
    {
        proof {
            reveal(Seq::filter);
            assert(evs@.take(i + 1).drop_last() =~= evs@.take(i as int));
        }
        let ghost before = issues_view(out@);
        if !key_known(&ids, evs[i].entity.as_str()) {
            out.push(LogIssue::UnknownEntity { entity: copy_str(evs[i].entity.as_str()), event_type: evs[i].event_type });
            assert(issues_view(out@) =~= before.push(f(evs@[i as int])));
        }
        assert(issues_view(out@) =~= start + evs@.take(i + 1).filter(pred).map_values(f));
        i += 1;
    }
    assert(evs@.take(i as int) =~= evs@);

    // Entities never created.
    let ghost start2 = issues_view(out@);
    let ghost kv = keyed_view(ids@);
    let mut k: usize = 0;
    while k < ids.len()
        invariant
            k <= ids.len(),
            evs == &store.events,
            kv == keyed_view(ids@),
            issues_view(out@) == start2 + creation_issues(evs@, kv, k as int),
        decreases ids.len() - k,
    {
        assert(kv[k as int].0 == ids@[k as int].0@);
        let ghost before = issues_view(out@);
        if is_last(&ids, k) && !created_exec(evs, ids[k].0.as_str()) {
            out.push(LogIssue::NoCreationEvent { id: copy_str(ids[k].0.as_str()) });
            assert(issues_view(out@) =~= before.push(IssueView::NoCreationEvent { id: kv[k as int].0 }));
        }
        k += 1;
    }

    // Statuses whose event is missing.
    push_status_issues(&mut out, evs, &pe);
    push_status_issues(&mut out, evs, &se);
    push_status_issues(&mut out, evs, &ce);
    push_status_issues(&mut out, evs, &me);
    proof {
        assert(pe@.len() == store.problems@.len()) by {
            assert(keyed_view(pe@).len() == pe@.len());
        }
        assert(se@.len() == store.solutions@.len()) by {
            assert(keyed_view(se@).len() == se@.len());
        }
        assert(ce@.len() == store.critiques@.len()) by {
            assert(keyed_view(ce@).len() == ce@.len());
        }
        assert(me@.len() == store.milestones@.len()) by {
            assert(keyed_view(me@).len() == me@.len());
        }
    }
    assert(issues_view(out@) =~= log_issues_spec(*store));
    out
}

// ───────────────────────── listing the log ─────────────────────────

/// What `jjj events` narrows the log to. Dates are as typed; one that does
/// not parse filters nothing.
#[derive(Debug)]
pub struct EventFilter {
    /// An RFC 3339 instant: only events strictly after it.
    pub since: Option<String>,
    /// `YYYY-MM-DD` or `YYYY-MM`: only events at or after its midnight.
    pub from: Option<String>,
    /// `YYYY-MM-DD` or `YYYY-MM`: only events at or before its midnight.
    pub to: Option<String>,
    /// Only events about, or referring to, this problem id.
    pub problem: Option<String>,
    /// Only events about, or referring to, this solution id.
    pub solution: Option<String>,
    /// Only events whose type name contains this text.
    pub event_type: Option<String>,
    /// Only events whose rationale contains this text, ignoring case.
    pub search: Option<String>,
    /// At most this many events.
    pub limit: usize,
}

pub open spec fn opt_str(o: Option<String>) -> Option<Seq<char>> {
    match o {
        Some(s) => Some(s@),
        None => None,
    }
}

pub open spec fn mentions(e: Event, id: Seq<char>) -> bool {
    e.entity@ == id || exists|k: int| 0 <= k < e.refs@.len() && e.refs@[k]@ == id
}

/// Event `e` passes the filter.
pub open spec fn passes(e: Event, f: EventFilter) -> bool {
    &&& (match opt_str(f.since) {
        Some(s) => match rfc3339_instant_of(s) {
            Some(t) => e.when > t.0,
            None => true,
        },
        None => true,
    })
    &&& (match opt_str(f.from) {
        Some(s) => match date_filter_spec(s) {
            Some(t) => e.when >= t,
            None => true,
        },
        None => true,
    })
    &&& (match opt_str(f.to) {
        Some(s) => match date_filter_spec(s) {
            Some(t) => e.when <= t,
            None => true,
        },
        None => true,
    })
    &&& (match opt_str(f.problem) {
        Some(p) => mentions(e, p),
        None => true,
    })
    &&& (match opt_str(f.solution) {
        Some(x) => mentions(e, x),
        None => true,
    })
    &&& (match opt_str(f.event_type) {
        Some(t) => has_sub(event_type_label(e.event_type), t),
        None => true,
    })
    &&& (match opt_str(f.search) {
        Some(q) => match opt_str(e.rationale) {
            Some(r) => has_sub(unicode_lowercase(r), unicode_lowercase(q)),
            None => false,
        },
        None => true,
    })
}

/// Positions of the events that pass, most recent first, at most `limit`.
pub open spec fn listed_positions(evs: Seq<Event>, f: EventFilter) -> Seq<int> {
    let kept = Seq::new(evs.len(), |i: int| i).filter(|i: int| passes(evs[i], f));
    let rev = kept.reverse();
    rev.take(if rev.len() < f.limit { rev.len() as int } else { f.limit as int })
}

fn mentions_exec(e: &Event, id: &str) -> (b: bool)
    ensures
        b == mentions(*e, id@),
{
    if str_eq(e.entity.as_str(), id) {
        return true;
    }
    let mut k: usize = 0;
    while k < e.refs.len()
        invariant
            k <= e.refs.len(),
            e.entity@ != id@,
            forall|m: int| 0 <= m < k ==> e.refs@[m]@ != id@,
        decreases e.refs.len() - k,
    {
        if str_eq(e.refs[k].as_str(), id) {
            return true;
        }
        k += 1;
    }
    false
}

/// The resolved bounds of a filter: `(since, from, to)` in seconds.
fn bounds(f: &EventFilter) -> (r: (Option<i64>, Option<i64>, Option<i64>))
    ensures
        r.0 == (match opt_str(f.since) {
            Some(s) => match rfc3339_instant_of(s) {
                Some(t) => Some(t.0),
                None => None,
            },
            None => None,
        }),
        r.1 == (match opt_str(f.from) {
            Some(s) => date_filter_spec(s),
            None => None,
        }),
        r.2 == (match opt_str(f.to) {
            Some(s) => date_filter_spec(s),
            None => None,
        }),
{
    let since = match &f.since {
        Some(s) => match rfc3339_instant(s.as_str()) {
            Some(t) => Some(t.0),
            None => None,
        },
        None => None,
    };
    let from = match &f.from {
        Some(s) => parse_date_filter(s.as_str()),
        None => None,
    };
    let to = match &f.to {
        Some(s) => parse_date_filter(s.as_str()),
        None => None,
    };
    (since, from, to)
}

fn passes_exec(
    e: &Event,
    f: &EventFilter,
    b: (Option<i64>, Option<i64>, Option<i64>),
    q: &Option<Vec<char>>,
) -> (r: bool)
    requires
        b == bounds_spec(*f),
        match opt_str(f.search) {
            Some(s) => q matches Some(v) && v@ == unicode_lowercase(s),
            None => q is None,
        },
    ensures
        r == passes(*e, *f),
{
    let ok_since = match b.0 {
        Some(t) => e.when > t,
        None => true,
    };
    let ok_from = match b.1 {
        Some(t) => e.when >= t,
        None => true,
    };
    let ok_to = match b.2 {
        Some(t) => e.when <= t,
        None => true,
    };
    let ok_p = match &f.problem {
        Some(p) => mentions_exec(e, p.as_str()),
        None => true,
    };
    let ok_s = match &f.solution {
        Some(x) => mentions_exec(e, x.as_str()),
        None => true,
    };
    let ok_t = match &f.event_type {
        Some(t) => {
            let label = e.event_type.label();
            let lv = chars_of(label.as_str());
            let tv = chars_of(t.as_str());
            contains(&lv, &tv)
        },
        None => true,
    };
    let ok_q = match q {
        Some(qv) => match &e.rationale {
            Some(r) => {
                let rl = to_lowercase(r.as_str());
                let rv = chars_of(rl.as_str());
                contains(&rv, qv)
            },
            None => false,
        },
        None => true,
    };
    ok_since && ok_from && ok_to && ok_p && ok_s && ok_t && ok_q
}

pub open spec fn bounds_spec(f: EventFilter) -> (Option<i64>, Option<i64>, Option<i64>) {
    (
        match opt_str(f.since) {
            Some(s) => match rfc3339_instant_of(s) {
                Some(t) => Some(t.0),
                None => None,
            },
            None => None,
        },
        match opt_str(f.from) {
            Some(s) => date_filter_spec(s),
            None => None,
        },
        match opt_str(f.to) {
            Some(s) => date_filter_spec(s),
            None => None,
        },
    )
}

/// The positions of the events `jjj events` lists, most recent first.
pub fn list_positions(events: &Vec<Event>, f: &EventFilter) -> (r: Vec<usize>)
    ensures
        r@.map_values(|i: usize| i as int) == listed_positions(events@, *f),
{
    let b = bounds(f);
    let q: Option<Vec<char>> = match &f.search {
        Some(s) => {
            let l = to_lowercase(s.as_str());
            Some(chars_of(l.as_str()))
        },
        None => None,
    };
    let ghost all = Seq::new(events@.len(), |i: int| i);
    let ghost pred = |i: int| passes(events@[i], *f);
    let ghost kept = all.filter(pred);
    let mut r: Vec<usize> = Vec::new();
    let mut n: usize = events.len();
    // Walk the log backwards, most recent first, until the limit is reached.
    proof {
        reveal(Seq::filter);
        assert(all.take(all.len() as int) =~= all);
    }
    while n > 0 && r.len() < f.limit
        invariant
            n <= events.len(),
            all == Seq::new(events@.len(), |i: int| i),
            pred == (|i: int| passes(events@[i], *f)),
            kept == all.filter(pred),
            b == bounds_spec(*f),
            match opt_str(f.search) {
                Some(s) => q matches Some(v) && v@ == unicode_lowercase(s),
                None => q is None,
            },
            r@.len() <= f.limit,
            r@.map_values(|i: usize| i as int) + all.take(n as int).filter(pred).reverse() == kept.reverse(),
        decreases n,
    {
        proof {
            reveal(Seq::filter);
            assert(all.take(n as int).drop_last() =~= all.take(n - 1));
            assert(all.take(n as int).last() == n - 1);
        }
        let ghost before = r@.map_values(|i: usize| i as int);
        let ghost rest = all.take(n - 1).filter(pred);
        if passes_exec(&events[n - 1], f, b, &q) {
            r.push(n - 1);
            proof {
                assert(all.take(n as int).filter(pred) == rest.push(n - 1));
                assert(rest.push(n - 1).reverse() =~= seq![n - 1] + rest.reverse());
                assert(r@.map_values(|i: usize| i as int) =~= before.push(n - 1));
                assert(before.push(n - 1) + rest.reverse() =~= before + (seq![n - 1] + rest.reverse()));
            }
        } else {
            proof {
                assert(all.take(n as int).filter(pred) == rest);
            }
        }
        n -= 1;
    }
    proof {
        let rv = r@.map_values(|i: usize| i as int);
        let tail = all.take(n as int).filter(pred).reverse();
        let lim = if kept.reverse().len() < f.limit { kept.reverse().len() as int } else { f.limit as int };
        if n == 0 {
            assert(all.take(0).filter(pred) =~= Seq::<int>::empty());
            assert(tail =~= Seq::<int>::empty());
            assert(rv + tail =~= rv);
        }
        assert(kept.reverse().take(lim) =~= rv);
    }
    r
}

} // verus!
