//! What to work on next: blocked and ready solutions, reviews asked of the
//! user, reviews the user waits on, and problems nobody has proposed for.

use vstd::prelude::*;
use crate::models::{
    opt_view, problem_is_open, solution_is_active, Critique, CritiqueStatus, Priority, Problem,
    Severity, Solution, SolutionStatus,
};
use crate::store::{has_problem, has_solution, problem_idx, solution_idx, MetadataStore};
use crate::text::{copy_str, append_chars, chars_of, contains, decimal, has_sub, push_decimal, str_eq, string_of};

verus! {

/// The sort rank of a priority: higher is more urgent.
pub open spec fn priority_rank(p: Priority) -> int {
    match p {
        Priority::Critical => 3,
        Priority::High => 2,
        Priority::Medium => 1,
        Priority::Low => 0,
    }
}

pub fn priority_sort_value(priority: &Priority) -> (v: i32)
    ensures
        v == priority_rank(*priority),
{
    match priority {
        Priority::Critical => 3,
        Priority::High => 2,
        Priority::Medium => 1,
        Priority::Low => 0,
    }
}

pub open spec fn severity_rank(s: Severity) -> int {
    match s {
        Severity::Low => 0,
        Severity::Medium => 1,
        Severity::High => 2,
        Severity::Critical => 3,
    }
}

/// Kinds of next action, in the order they are listed.
#[derive(Debug, Clone, Copy, PartialEq, Eq, Structural)]
pub enum ActionCategory {
    /// A live solution with open critiques.
    Blocked,
    /// A live solution whose critiques are all resolved.
    Ready,
    /// An open critique the user was asked to review.
    Review,
    /// The user's solution waiting on reviews by others.
    Waiting,
    /// An open problem with no live solution.
    Todo,
}

#[derive(Debug, Clone, Copy, PartialEq, Eq, Structural)]
pub enum ActionSubject {
    Problem,
    Solution,
    Critique,
}

/// One open critique listed under a blocked solution.
#[derive(Debug, PartialEq)]
pub struct ActionDetail {
    pub id: String,
    pub text: String,
    pub severity: Severity,
}

/// One suggested next step.
#[derive(Debug, PartialEq)]
pub struct NextAction {
    pub category: ActionCategory,
    pub entity_type: ActionSubject,
    pub entity_id: String,
    pub title: String,
    pub summary: String,
    /// The command to run next (empty when there is none to suggest).
    pub suggested_command: String,
    pub priority: Priority,
    pub details: Vec<ActionDetail>,
}

pub struct ActionView {
    pub category: ActionCategory,
    pub entity_type: ActionSubject,
    pub entity_id: Seq<char>,
    pub title: Seq<char>,
    pub summary: Seq<char>,
    pub suggested_command: Seq<char>,
    pub priority: Priority,
    pub details: Seq<(Seq<char>, Seq<char>, Severity)>,
}

pub open spec fn details_view(d: Seq<ActionDetail>) -> Seq<(Seq<char>, Seq<char>, Severity)> {
    d.map_values(|x: ActionDetail| (x.id@, x.text@, x.severity))
}

impl View for NextAction {
    type V = ActionView;

    open spec fn view(&self) -> ActionView {
        ActionView {
            category: self.category,
            entity_type: self.entity_type,
            entity_id: self.entity_id@,
            title: self.title@,
            summary: self.summary@,
            suggested_command: self.suggested_command@,
            priority: self.priority,
            details: details_view(self.details@),
        }
    }
}

pub open spec fn actions_view(v: Seq<NextAction>) -> Seq<ActionView> {
    v.map_values(|a: NextAction| a@)
}

// ───────────────────────── what each action says ─────────────────────────

/// The priority of the problem `pid`; a missing problem counts as medium.
pub open spec fn problem_priority(ps: Seq<Problem>, pid: Seq<char>) -> Priority {
    if has_problem(ps, pid) {
        ps[problem_idx(ps, pid)].priority
    } else {
        Priority::Medium
    }
}

/// The open critiques of solution `sid`, in list order.
pub open spec fn open_on(cs: Seq<Critique>, sid: Seq<char>) -> Seq<Critique> {
    cs.filter(|c: Critique| c.solution_id@ == sid && c.status == CritiqueStatus::Open)
}

/// Among the first `n` critiques, the last one of highest severity.
pub open spec fn top_upto(cs: Seq<Critique>, n: int) -> Critique
    decreases n,
{
    if n <= 1 {
        cs[0]
    } else {
        let t = top_upto(cs, n - 1);
        if severity_rank(cs[n - 1].severity) >= severity_rank(t.severity) {
            cs[n - 1]
        } else {
            t
        }
    }
}

pub open spec fn blocked_item(s: Solution, ps: Seq<Problem>, cs: Seq<Critique>) -> ActionView {
    let oc = open_on(cs, s.id@);
    ActionView {
        category: ActionCategory::Blocked,
        entity_type: ActionSubject::Solution,
        entity_id: s.id@,
        title: s.title@,
        summary: decimal(oc.len()) + " open critique(s)"@,
        suggested_command: "jjj critique show "@ + top_upto(oc, oc.len() as int).id@,
        priority: problem_priority(ps, s.problem_id@),
        details: oc.map_values(|c: Critique| (c.id@, c.title@, c.severity)),
    }
}

pub open spec fn ready_item(s: Solution, ps: Seq<Problem>) -> ActionView {
    ActionView {
        category: ActionCategory::Ready,
        entity_type: ActionSubject::Solution,
        entity_id: s.id@,
        title: s.title@,
        summary: "All critiques resolved"@,
        suggested_command: "jjj solution accept "@ + s.id@,
        priority: problem_priority(ps, s.problem_id@),
        details: Seq::empty(),
    }
}

/// The priority of the problem behind critique `c`'s solution.
pub open spec fn critique_priority(c: Critique, ss: Seq<Solution>, ps: Seq<Problem>) -> Priority {
    if has_solution(ss, c.solution_id@) {
        problem_priority(ps, ss[solution_idx(ss, c.solution_id@)].problem_id@)
    } else {
        Priority::Medium
    }
}

pub open spec fn review_item(c: Critique, ss: Seq<Solution>, ps: Seq<Problem>) -> ActionView {
    ActionView {
        category: ActionCategory::Review,
        entity_type: ActionSubject::Critique,
        entity_id: c.id@,
        title: c.title@,
        summary: "Review requested on "@ + c.solution_id@,
        suggested_command: "jjj critique show "@ + c.id@,
        priority: critique_priority(c, ss, ps),
        details: Seq::empty(),
    }
}

/// Open critiques of `s` assigned to someone other than `user`.
pub open spec fn pending_reviews(cs: Seq<Critique>, sid: Seq<char>, user: Seq<char>) -> Seq<Critique> {
    cs.filter(
        |c: Critique|
            c.solution_id@ == sid && c.status == CritiqueStatus::Open && c.reviewer is Some
                && !has_sub(user, opt_view(c.reviewer)->0),
    )
}

/// Pieces joined with `sep` between consecutive ones.
pub open spec fn join_with(ps: Seq<Seq<char>>, sep: Seq<char>) -> Seq<char>
    decreases ps.len(),
{
    if ps.len() == 0 {
        Seq::empty()
    } else if ps.len() == 1 {
        ps[0]
    } else {
        join_with(ps.drop_last(), sep) + sep + ps.last()
    }
}

pub open spec fn mention(c: Critique) -> Seq<char> {
    "@"@ + opt_view(c.reviewer)->0
}

pub open spec fn waiting_item(s: Solution, ps: Seq<Problem>, cs: Seq<Critique>, user: Seq<char>) -> ActionView {
    ActionView {
        category: ActionCategory::Waiting,
        entity_type: ActionSubject::Solution,
        entity_id: s.id@,
        title: s.title@,
        summary: "Awaiting review from "@ + join_with(
            pending_reviews(cs, s.id@, user).map_values(|c: Critique| mention(c)),
            ", "@,
        ),
        suggested_command: Seq::empty(),
        priority: problem_priority(ps, s.problem_id@),
        details: Seq::empty(),
    }
}

pub open spec fn todo_item(p: Problem) -> ActionView {
    ActionView {
        category: ActionCategory::Todo,
        entity_type: ActionSubject::Problem,
        entity_id: p.id@,
        title: p.title@,
        summary: "No solutions proposed"@,
        suggested_command: "jjj solution new \"title\" --problem "@ + p.id@,
        priority: p.priority,
        details: Seq::empty(),
    }
}

// ───────────────────────── who gets an action ─────────────────────────

pub open spec fn is_blocked(s: Solution, cs: Seq<Critique>) -> bool {
    solution_is_active(s.status) && open_on(cs, s.id@).len() > 0
}

pub open spec fn is_ready(s: Solution, cs: Seq<Critique>) -> bool {
    solution_is_active(s.status) && open_on(cs, s.id@).len() == 0 && s.critique_ids@.len() > 0
}

/// `user` and the assigned critic name each other (either contains the other).
pub open spec fn asks_user(c: Critique, user: Seq<char>) -> bool {
    &&& c.status == CritiqueStatus::Open
    &&& c.reviewer is Some
    &&& (has_sub(user, opt_view(c.reviewer)->0) || has_sub(opt_view(c.reviewer)->0, user))
}

pub open spec fn is_waiting(s: Solution, cs: Seq<Critique>, user: Seq<char>) -> bool {
    &&& solution_is_active(s.status)
    &&& opt_view(s.assignee) == Some(user)
    &&& pending_reviews(cs, s.id@, user).len() > 0
}

pub open spec fn has_live_solution(ss: Seq<Solution>, pid: Seq<char>) -> bool {
    exists|j: int| 0 <= j < ss.len() && ss[j].problem_id@ == pid && solution_is_active(ss[j].status)
}

pub open spec fn is_todo(p: Problem, ss: Seq<Solution>) -> bool {
    problem_is_open(p.status) && !has_live_solution(ss, p.id@)
}

/// Items of one priority, in list order.
pub open spec fn at_priority(xs: Seq<ActionView>, p: Priority) -> Seq<ActionView> {
    xs.filter(|a: ActionView| a.priority == p)
}

/// A stable sort by priority, most urgent first.
pub open spec fn by_priority(xs: Seq<ActionView>) -> Seq<ActionView> {
    at_priority(xs, Priority::Critical) + at_priority(xs, Priority::High) + at_priority(
        xs,
        Priority::Medium,
    ) + at_priority(xs, Priority::Low)
}

/// Every next action for `user`: blocked, ready, review (unless only the
/// user's own work is wanted), waiting and to-do items, each kind sorted by
/// priority, most urgent first, ties in list order.
pub open spec fn next_actions_spec(
    ps: Seq<Problem>,
    ss: Seq<Solution>,
    cs: Seq<Critique>,
    user: Seq<char>,
    mine: bool,
) -> Seq<ActionView> {
    let blocked = ss.filter(|s: Solution| is_blocked(s, cs)).map_values(
        |s: Solution| blocked_item(s, ps, cs),
    );
    let ready = ss.filter(|s: Solution| is_ready(s, cs)).map_values(|s: Solution| ready_item(s, ps));
    let review = if mine {
        Seq::empty()
    } else {
        cs.filter(|c: Critique| asks_user(c, user)).map_values(|c: Critique| review_item(c, ss, ps))
    };
    let waiting = ss.filter(|s: Solution| is_waiting(s, cs, user)).map_values(
        |s: Solution| waiting_item(s, ps, cs, user),
    );
    let todo = ps.filter(|p: Problem| is_todo(p, ss)).map_values(|p: Problem| todo_item(p));
    by_priority(blocked) + by_priority(ready) + by_priority(review) + by_priority(waiting)
        + by_priority(todo)
}

// ───────────────────────── building the list ─────────────────────────

fn is_live(st: SolutionStatus) -> (b: bool)
    ensures
        b == solution_is_active(st),
{
    st == SolutionStatus::Proposed || st == SolutionStatus::Submitted
}

fn problem_priority_exec(store: &MetadataStore, pid: &str) -> (p: Priority)
    ensures
        p == problem_priority(store.problems@, pid@),
{
    match store.find_problem(pid) {
        Some(k) => store.problems[k].priority,
        None => Priority::Medium,
    }
}

/// Indices of the open critiques of solution `sid`.
fn open_indices(cs: &Vec<Critique>, sid: &str) -> (r: Vec<usize>)
    ensures
        forall|j: int| 0 <= j < r@.len() ==> r@[j] < cs@.len(),
        r@.map_values(|k: usize| cs@[k as int]) == open_on(cs@, sid@),
{
    let ghost pred = |c: Critique| c.solution_id@ == sid@ && c.status == CritiqueStatus::Open;
    let mut r: Vec<usize> = Vec::new();
    let mut i: usize = 0;
    while i < cs.len()
        invariant
            i <= cs.len(),
            pred == (|c: Critique| c.solution_id@ == sid@ && c.status == CritiqueStatus::Open),
            forall|j: int| 0 <= j < r@.len() ==> r@[j] < i,
            r@.map_values(|k: usize| cs@[k as int]) == cs@.take(i as int).filter(pred),
        decreases cs.len() - i,
    {
        proof {
            reveal(Seq::filter);
            assert(cs@.take(i + 1).drop_last() =~= cs@.take(i as int));
        }
        let ghost before = r@;
        if cs[i].status == CritiqueStatus::Open && str_eq(cs[i].solution_id.as_str(), sid) {
            r.push(i);
            assert(r@.map_values(|k: usize| cs@[k as int]) =~= before.map_values(
                |k: usize| cs@[k as int],
            ).push(cs@[i as int]));
        }
        i += 1;
    }
    assert(cs@.take(i as int) =~= cs@);
    r
}

fn count_open(cs: &Vec<Critique>, sid: &str) -> (n: usize)
    ensures
        n == open_on(cs@, sid@).len(),
{
    let r = open_indices(cs, sid);
    assert(r@.map_values(|k: usize| cs@[k as int]).len() == r@.len());
    r.len()
}

fn blocked_action(store: &MetadataStore, s: &Solution, oc: &Vec<usize>) -> (a: NextAction)
    requires
        oc@.len() > 0,
        forall|j: int| 0 <= j < oc@.len() ==> oc@[j] < store.critiques@.len(),
        oc@.map_values(|k: usize| store.critiques@[k as int]) == open_on(store.critiques@, s.id@),
    ensures
        a@ == blocked_item(*s, store.problems@, store.critiques@),
{
    let cs = &store.critiques;
    let ghost open = open_on(cs@, s.id@);
    assert(open.len() == oc@.len());
    let mut summary: Vec<char> = Vec::new();
    push_decimal(&mut summary, oc.len() as u64);
    let tail = chars_of(" open critique(s)");
    append_chars(&mut summary, &tail);
    let mut top: usize = oc[0];
    assert(open[0] == cs@[oc@[0] as int]);
    let mut details: Vec<ActionDetail> = Vec::new();
    let mut i: usize = 0;
    while i < oc.len()
        invariant
            i <= oc.len(),
            oc@.len() > 0,
            open == open_on(cs@, s.id@),
            open.len() == oc@.len(),
            forall|j: int| 0 <= j < oc@.len() ==> oc@[j] < cs@.len(),
            oc@.map_values(|k: usize| cs@[k as int]) == open,
            top < cs@.len(),
            i == 0 ==> top == oc@[0],
            i > 0 ==> cs@[top as int] == top_upto(open, i as int),
            details_view(details@) == open.take(i as int).map_values(
                |c: Critique| (c.id@, c.title@, c.severity),
            ),
        decreases oc.len() - i,
    {
        let c = &cs[oc[i]];
        assert(open[i as int] == cs@[oc@[i as int] as int]);
        if i > 0 {
            let t = &cs[top];
            let rank_c: u8 = match c.severity {
                Severity::Low => 0,
                Severity::Medium => 1,
                Severity::High => 2,
                Severity::Critical => 3,
            };
            let rank_t: u8 = match t.severity {
                Severity::Low => 0,
                Severity::Medium => 1,
                Severity::High => 2,
                Severity::Critical => 3,
            };
            if rank_c >= rank_t {
                top = oc[i];
            }
        }
        let ghost before = details_view(details@);
        details.push(
            ActionDetail { id: copy_str(c.id.as_str()), text: copy_str(c.title.as_str()), severity: c.severity },
        );
        assert(details_view(details@) =~= before.push((c.id@, c.title@, c.severity)));
        assert(open.take(i + 1) =~= open.take(i as int).push(open[i as int]));
        assert(details_view(details@) =~= open.take(i + 1).map_values(
            |c: Critique| (c.id@, c.title@, c.severity),
        ));
        i += 1;
    }
    assert(open.take(i as int) =~= open);
    let mut cmd = chars_of("jjj critique show ");
    let tid = chars_of(cs[top].id.as_str());
    append_chars(&mut cmd, &tid);
    NextAction {
        category: ActionCategory::Blocked,
        entity_type: ActionSubject::Solution,
        entity_id: copy_str(s.id.as_str()),
        title: copy_str(s.title.as_str()),
        summary: string_of(&summary),
        suggested_command: string_of(&cmd),
        priority: problem_priority_exec(store, s.problem_id.as_str()),
        details,
    }
}

fn ready_action(store: &MetadataStore, s: &Solution) -> (a: NextAction)
    ensures
        a@ == ready_item(*s, store.problems@),
{
    let mut cmd = chars_of("jjj solution accept ");
    let sid = chars_of(s.id.as_str());
    append_chars(&mut cmd, &sid);
    let details: Vec<ActionDetail> = Vec::new();
    assert(details_view(details@) =~= Seq::empty());
    NextAction {
        category: ActionCategory::Ready,
        entity_type: ActionSubject::Solution,
        entity_id: copy_str(s.id.as_str()),
        title: copy_str(s.title.as_str()),
        summary: copy_str("All critiques resolved"),
        suggested_command: string_of(&cmd),
        priority: problem_priority_exec(store, s.problem_id.as_str()),
        details,
    }
}

fn review_action(store: &MetadataStore, c: &Critique) -> (a: NextAction)
    ensures
        a@ == review_item(*c, store.solutions@, store.problems@),
{
    let mut summary = chars_of("Review requested on ");
    let sid = chars_of(c.solution_id.as_str());
    append_chars(&mut summary, &sid);
    let mut cmd = chars_of("jjj critique show ");
    let cid = chars_of(c.id.as_str());
    append_chars(&mut cmd, &cid);
    let priority = match store.find_solution(c.solution_id.as_str()) {
        Some(k) => problem_priority_exec(store, store.solutions[k].problem_id.as_str()),
        None => Priority::Medium,
    };
    let details: Vec<ActionDetail> = Vec::new();
    assert(details_view(details@) =~= Seq::empty());
    NextAction {
        category: ActionCategory::Review,
        entity_type: ActionSubject::Critique,
        entity_id: copy_str(c.id.as_str()),
        title: copy_str(c.title.as_str()),
        summary: string_of(&summary),
        suggested_command: string_of(&cmd),
        priority,
        details,
    }
}

/// Joining one more piece appends a separator and the piece.
/// Joining one more piece appends the separator and the piece.
pub proof fn lemma_join_with_push(ps: Seq<Seq<char>>, x: Seq<char>, sep: Seq<char>)
    ensures
        join_with(ps.push(x), sep) == (if ps.len() == 0 {
            x
        } else {
            join_with(ps, sep) + sep + x
        }),
{
    assert(ps.push(x).drop_last() =~= ps);
}

/// The `@name` mentions of the critics `user` waits on for `sid`, joined
/// with commas; and whether there is any.
fn pending_mentions(cs: &Vec<Critique>, sid: &str, user: &Vec<char>) -> (r: (Vec<char>, usize))
    ensures
        r.0@ == join_with(
            pending_reviews(cs@, sid@, user@).map_values(|c: Critique| mention(c)),
            ", "@,
        ),
        r.1 == pending_reviews(cs@, sid@, user@).len(),
{
    let ghost pred = |c: Critique|
        c.solution_id@ == sid@ && c.status == CritiqueStatus::Open && c.reviewer is Some
            && !has_sub(user@, opt_view(c.reviewer)->0);
    let mut out: Vec<char> = Vec::new();
    let mut n: usize = 0;
    let mut i: usize = 0;
    while i < cs.len()
        invariant
            i <= cs.len(),
            pred == (|c: Critique|
                c.solution_id@ == sid@ && c.status == CritiqueStatus::Open && c.reviewer is Some
                    && !has_sub(user@, opt_view(c.reviewer)->0)),
            n == cs@.take(i as int).filter(pred).len(),
            n <= i,
            out@ == join_with(cs@.take(i as int).filter(pred).map_values(|c: Critique| mention(c)), ", "@),
        decreases cs.len() - i,
    {
        proof {
            reveal(Seq::filter);
            assert(cs@.take(i + 1).drop_last() =~= cs@.take(i as int));
        }
        let ghost prev = cs@.take(i as int).filter(pred);
        let c = &cs[i];
        if c.status == CritiqueStatus::Open && str_eq(c.solution_id.as_str(), sid) {
            match &c.reviewer {
                Some(r) => {
                    let rv = chars_of(r.as_str());
                    if !contains(user, &rv) {
                        proof {
                            lemma_join_with_push(prev.map_values(|c: Critique| mention(c)), mention(*c), ", "@);
                            assert(prev.push(*c).map_values(|c: Critique| mention(c)) =~= prev.map_values(
                                |c: Critique| mention(c),
                            ).push(mention(*c)));
                        }
                        if n > 0 {
                            let sep = chars_of(", ");
                            append_chars(&mut out, &sep);
                        }
                        let at = chars_of("@");
                        append_chars(&mut out, &at);
                        append_chars(&mut out, &rv);
                        n += 1;
                    }
                },
                None => {},
            }
        }
        i += 1;
    }
    assert(cs@.take(i as int) =~= cs@);
    (out, n)
}

fn waiting_action(store: &MetadataStore, s: &Solution, mentions: Vec<char>) -> (a: NextAction)
    requires
        mentions@ == join_with(
            pending_reviews(store.critiques@, s.id@, opt_view(s.assignee)->0).map_values(
                |c: Critique| mention(c),
            ),
            ", "@,
        ),
    ensures
        a@ == waiting_item(*s, store.problems@, store.critiques@, opt_view(s.assignee)->0),
{
    let mut summary = chars_of("Awaiting review from ");
    append_chars(&mut summary, &mentions);
    let details: Vec<ActionDetail> = Vec::new();
    assert(details_view(details@) =~= Seq::empty());
    NextAction {
        category: ActionCategory::Waiting,
        entity_type: ActionSubject::Solution,
        entity_id: copy_str(s.id.as_str()),
        title: copy_str(s.title.as_str()),
        summary: string_of(&summary),
        suggested_command: String::new(),
        priority: problem_priority_exec(store, s.problem_id.as_str()),
        details,
    }
}

fn todo_action(p: &Problem) -> (a: NextAction)
    ensures
        a@ == todo_item(*p),
{
    let mut cmd = chars_of("jjj solution new \"title\" --problem ");
    let pid = chars_of(p.id.as_str());
    append_chars(&mut cmd, &pid);
    let details: Vec<ActionDetail> = Vec::new();
    assert(details_view(details@) =~= Seq::empty());
    NextAction {
        category: ActionCategory::Todo,
        entity_type: ActionSubject::Problem,
        entity_id: copy_str(p.id.as_str()),
        title: copy_str(p.title.as_str()),
        summary: copy_str("No solutions proposed"),
        suggested_command: string_of(&cmd),
        priority: p.priority,
        details,
    }
}

fn clone_action(a: &NextAction) -> (r: NextAction)
    ensures
        r@ == a@,
{
    let mut details: Vec<ActionDetail> = Vec::new();
    let mut i: usize = 0;
    while i < a.details.len()
        invariant
            i <= a.details.len(),
            details_view(details@) == details_view(a.details@).take(i as int),
        decreases a.details.len() - i,
    {
        let d = &a.details[i];
        let ghost before = details_view(details@);
        details.push(ActionDetail { id: copy_str(d.id.as_str()), text: copy_str(d.text.as_str()), severity: d.severity });
        assert(details_view(details@) =~= before.push((d.id@, d.text@, d.severity)));
        assert(details_view(a.details@)[i as int] == (d.id@, d.text@, d.severity));
        assert(details_view(details@) =~= details_view(a.details@).take(i + 1));
        i += 1;
    }
    assert(details_view(a.details@).take(i as int) =~= details_view(a.details@));
    NextAction {
        category: a.category,
        entity_type: a.entity_type,
        entity_id: copy_str(a.entity_id.as_str()),
        title: copy_str(a.title.as_str()),
        summary: copy_str(a.summary.as_str()),
        suggested_command: copy_str(a.suggested_command.as_str()),
        priority: a.priority,
        details,
    }
}

/// Append the items of `items` with priority `p` to `out`, in list order.
fn append_at_priority(out: &mut Vec<NextAction>, items: &Vec<NextAction>, p: Priority)
    ensures
        actions_view(final(out)@) == actions_view(old(out)@) + at_priority(actions_view(items@), p),
{
    let ghost xs = actions_view(items@);
    let ghost start = actions_view(out@);
    let ghost pred = |a: ActionView| a.priority == p;
    let mut i: usize = 0;
    while i < items.len()
        invariant
            i <= items.len(),
            xs == actions_view(items@),
            pred == (|a: ActionView| a.priority == p),
            actions_view(out@) == start + xs.take(i as int).filter(pred),
        decreases items.len() - i,
    {
        proof {
            reveal(Seq::filter);
            assert(xs.take(i + 1).drop_last() =~= xs.take(i as int));
            assert(xs[i as int] == items@[i as int]@);
        }
        if items[i].priority == p {
            let ghost before = actions_view(out@);
            out.push(clone_action(&items[i]));
            assert(actions_view(out@) =~= before.push(xs[i as int]));
        }
        i += 1;
    }
    assert(xs.take(i as int) =~= xs);
}

fn append_by_priority(out: &mut Vec<NextAction>, items: &Vec<NextAction>)
    ensures
        actions_view(final(out)@) == actions_view(old(out)@) + by_priority(actions_view(items@)),
{
    append_at_priority(out, items, Priority::Critical);
    append_at_priority(out, items, Priority::High);
    append_at_priority(out, items, Priority::Medium);
    append_at_priority(out, items, Priority::Low);
    let ghost xs = actions_view(items@);
    assert(actions_view(out@) =~= actions_view(old(out)@) + by_priority(xs));
}

fn live_solution_for(ss: &Vec<Solution>, pid: &str) -> (b: bool)
    ensures
        b == has_live_solution(ss@, pid@),
{
    let mut i: usize = 0;
    while i < ss.len()
        invariant
            i <= ss.len(),
            forall|j: int| 0 <= j < i ==> !(ss@[j].problem_id@ == pid@ && solution_is_active(ss@[j].status)),
        decreases ss.len() - i,
    {
        if is_live(ss[i].status) && str_eq(ss[i].problem_id.as_str(), pid) {
            return true;
        }
        i += 1;
    }
    false
}

/// Every next action for `user` (see `next_actions_spec`).
pub fn build_next_actions(store: &MetadataStore, user: &str, mine: bool) -> (r: Vec<NextAction>)
    ensures
        actions_view(r@) == next_actions_spec(
            store.problems@,
            store.solutions@,
            store.critiques@,
            user@,
            mine,
        ),
{
    let ps = &store.problems;
    let ss = &store.solutions;
    let cs = &store.critiques;
    let uv = chars_of(user);

    // Blocked: live solutions with open critiques.
    let ghost pb = |s: Solution| is_blocked(s, cs@);
    let ghost fb = |s: Solution| blocked_item(s, ps@, cs@);
    let mut blocked: Vec<NextAction> = Vec::new();
    let mut i: usize = 0;
    while i < ss.len()
        invariant
            i <= ss.len(),
            ss == &store.solutions,
            cs == &store.critiques,
            ps == &store.problems,
            pb == (|s: Solution| is_blocked(s, cs@)),
            fb == (|s: Solution| blocked_item(s, ps@, cs@)),
            actions_view(blocked@) == ss@.take(i as int).filter(pb).map_values(fb),
        decreases ss.len() - i,
    {
        proof {
            reveal(Seq::filter);
            assert(ss@.take(i + 1).drop_last() =~= ss@.take(i as int));
        }
        let s = &ss[i];
        let ghost before = actions_view(blocked@);
        if is_live(s.status) {
            let oc = open_indices(cs, s.id.as_str());
            assert(oc@.map_values(|k: usize| cs@[k as int]).len() == oc@.len());
            if oc.len() > 0 {
                blocked.push(blocked_action(store, s, &oc));
                assert(actions_view(blocked@) =~= before.push(fb(*s)));
            }
        }
        assert(actions_view(blocked@) =~= ss@.take(i + 1).filter(pb).map_values(fb));
        i += 1;
    }
    assert(ss@.take(i as int) =~= ss@);

    // Ready: live solutions with critiques, none of them open.
    let ghost pr = |s: Solution| is_ready(s, cs@);
    let ghost fr = |s: Solution| ready_item(s, ps@);
    let mut ready: Vec<NextAction> = Vec::new();
    let mut i: usize = 0;
    while i < ss.len()
        invariant
            i <= ss.len(),
            ss == &store.solutions,
            cs == &store.critiques,
            ps == &store.problems,
            pr == (|s: Solution| is_ready(s, cs@)),
            fr == (|s: Solution| ready_item(s, ps@)),
            actions_view(ready@) == ss@.take(i as int).filter(pr).map_values(fr),
        decreases ss.len() - i,
    {
        proof {
            reveal(Seq::filter);
            assert(ss@.take(i + 1).drop_last() =~= ss@.take(i as int));
        }
        let s = &ss[i];
        let ghost before = actions_view(ready@);
        if is_live(s.status) && s.critique_ids.len() > 0 && count_open(cs, s.id.as_str()) == 0 {
            ready.push(ready_action(store, s));
            assert(actions_view(ready@) =~= before.push(fr(*s)));
        }
        assert(actions_view(ready@) =~= ss@.take(i + 1).filter(pr).map_values(fr));
        i += 1;
    }
    assert(ss@.take(i as int) =~= ss@);

    // Open critiques whose assigned critic and the user name each other.
    let ghost pv = |c: Critique| asks_user(c, user@);
    let ghost fv = |c: Critique| review_item(c, ss@, ps@);
    let mut review: Vec<NextAction> = Vec::new();
    if !mine {
        let mut i: usize = 0;
        while i < cs.len()
            invariant
                i <= cs.len(),
                ss == &store.solutions,
                cs == &store.critiques,
                ps == &store.problems,
                uv@ == user@,
                pv == (|c: Critique| asks_user(c, user@)),
                fv == (|c: Critique| review_item(c, ss@, ps@)),
                actions_view(review@) == cs@.take(i as int).filter(pv).map_values(fv),
            decreases cs.len() - i,
        {
            proof {
                reveal(Seq::filter);
                assert(cs@.take(i + 1).drop_last() =~= cs@.take(i as int));
            }
            let c = &cs[i];
            let ghost before = actions_view(review@);
            if c.status == CritiqueStatus::Open {
                match &c.reviewer {
                    Some(r) => {
                        let rv = chars_of(r.as_str());
                        if contains(&uv, &rv) || contains(&rv, &uv) {
                            review.push(review_action(store, c));
                            assert(actions_view(review@) =~= before.push(fv(*c)));
                        }
                    },
                    None => {},
                }
            }
            assert(actions_view(review@) =~= cs@.take(i + 1).filter(pv).map_values(fv));
            i += 1;
        }
        assert(cs@.take(i as int) =~= cs@);
    } else {
        assert(actions_view(review@) =~= Seq::empty());
    }

    // Waiting: the user's live solutions with reviews pending from others.
    let ghost pw = |s: Solution| is_waiting(s, cs@, user@);
    let ghost fw = |s: Solution| waiting_item(s, ps@, cs@, user@);
    let mut waiting: Vec<NextAction> = Vec::new();
    let mut i: usize = 0;
    while i < ss.len()
        invariant
            i <= ss.len(),
            ss == &store.solutions,
            cs == &store.critiques,
            ps == &store.problems,
            uv@ == user@,
            pw == (|s: Solution| is_waiting(s, cs@, user@)),
            fw == (|s: Solution| waiting_item(s, ps@, cs@, user@)),
            actions_view(waiting@) == ss@.take(i as int).filter(pw).map_values(fw),
        decreases ss.len() - i,
    {
        proof {
            reveal(Seq::filter);
            assert(ss@.take(i + 1).drop_last() =~= ss@.take(i as int));
        }
        let s = &ss[i];
        let ghost before = actions_view(waiting@);
        if is_live(s.status) && crate::models::opt_str_eq(&s.assignee, user) {
            let (mentions, n) = pending_mentions(cs, s.id.as_str(), &uv);
            if n > 0 {
                waiting.push(waiting_action(store, s, mentions));
                assert(actions_view(waiting@) =~= before.push(fw(*s)));
            }
        }
        assert(actions_view(waiting@) =~= ss@.take(i + 1).filter(pw).map_values(fw));
        i += 1;
    }
    assert(ss@.take(i as int) =~= ss@);

    // To do: open problems without a live solution.
    let ghost pt = |p: Problem| is_todo(p, ss@);
    let ghost ft = |p: Problem| todo_item(p);
    let mut todo: Vec<NextAction> = Vec::new();
    let mut i: usize = 0;
    while i < ps.len()
        invariant
            i <= ps.len(),
            ss == &store.solutions,
            ps == &store.problems,
            pt == (|p: Problem| is_todo(p, ss@)),
            ft == (|p: Problem| todo_item(p)),
            actions_view(todo@) == ps@.take(i as int).filter(pt).map_values(ft),
        decreases ps.len() - i,
    {
        proof {
            reveal(Seq::filter);
            assert(ps@.take(i + 1).drop_last() =~= ps@.take(i as int));
        }
        let p = &ps[i];
        let ghost before = actions_view(todo@);
        let open = p.status == crate::models::ProblemStatus::Open || p.status
            == crate::models::ProblemStatus::InProgress;
        if open && !live_solution_for(ss, p.id.as_str()) {
            todo.push(todo_action(p));
            assert(actions_view(todo@) =~= before.push(ft(*p)));
        }
        assert(actions_view(todo@) =~= ps@.take(i + 1).filter(pt).map_values(ft));
        i += 1;
    }
    assert(ps@.take(i as int) =~= ps@);

    let mut out: Vec<NextAction> = Vec::new();
    append_by_priority(&mut out, &blocked);
    append_by_priority(&mut out, &ready);
    append_by_priority(&mut out, &review);
    append_by_priority(&mut out, &waiting);
    append_by_priority(&mut out, &todo);
    assert(actions_view(out@) =~= next_actions_spec(ps@, ss@, cs@, user@, mine));
    out
}

// ───────────────────────── the order of the list ─────────────────────────

pub open spec fn category_rank(c: ActionCategory) -> int {
    match c {
        ActionCategory::Blocked => 0,
        ActionCategory::Ready => 1,
        ActionCategory::Review => 2,
        ActionCategory::Waiting => 3,
        ActionCategory::Todo => 4,
    }
}

/// `x` comes no later than `y` in the listing order: by kind, then by
/// priority, most urgent first.
pub open spec fn ranked_before(x: ActionView, y: ActionView) -> bool {
    category_rank(x.category) < category_rank(y.category) || (x.category == y.category
        && priority_rank(x.priority) >= priority_rank(y.priority))
}

pub open spec fn all_of_kind(xs: Seq<ActionView>, c: ActionCategory) -> bool {
    forall|i: int| 0 <= i < xs.len() ==> (#[trigger] xs[i]).category == c
}

proof fn lemma_filter_keeps_kind(xs: Seq<ActionView>, c: ActionCategory, p: Priority)
    requires
        all_of_kind(xs, c),
    ensures
        all_of_kind(at_priority(xs, p), c),
    decreases xs.len(),
{
    reveal(Seq::filter);
    if xs.len() > 0 {
        let d = xs.drop_last();
        assert forall|i: int| 0 <= i < d.len() implies (#[trigger] d[i]).category == c by {
            assert(d[i] == xs[i]);
        }
        lemma_filter_keeps_kind(d, c, p);
    }
}

proof fn lemma_at_priority(xs: Seq<ActionView>, p: Priority)
    ensures
        forall|i: int| 0 <= i < at_priority(xs, p).len() ==> (#[trigger] at_priority(xs, p)[i]).priority == p,
{
    assert forall|i: int| 0 <= i < at_priority(xs, p).len() implies (#[trigger] at_priority(xs, p)[i]).priority == p by {
        xs.lemma_filter_pred(|a: ActionView| a.priority == p, i);
    }
}

/// One kind's items, sorted by priority, are in listing order.
proof fn lemma_by_priority_sorted(xs: Seq<ActionView>, c: ActionCategory)
    requires
        all_of_kind(xs, c),
    ensures
        all_of_kind(by_priority(xs), c),
        forall|i: int, j: int|
            0 <= i < j < by_priority(xs).len() ==> ranked_before(
                #[trigger] by_priority(xs)[i],
                #[trigger] by_priority(xs)[j],
            ),
{
    let a = at_priority(xs, Priority::Critical);
    let b = at_priority(xs, Priority::High);
    let m = at_priority(xs, Priority::Medium);
    let l = at_priority(xs, Priority::Low);
    lemma_at_priority(xs, Priority::Critical);
    lemma_at_priority(xs, Priority::High);
    lemma_at_priority(xs, Priority::Medium);
    lemma_at_priority(xs, Priority::Low);
    lemma_filter_keeps_kind(xs, c, Priority::Critical);
    lemma_filter_keeps_kind(xs, c, Priority::High);
    lemma_filter_keeps_kind(xs, c, Priority::Medium);
    lemma_filter_keeps_kind(xs, c, Priority::Low);
    let r = by_priority(xs);
    assert(r == a + b + m + l);
    let n1 = a.len() as int;
    let n2 = n1 + b.len();
    let n3 = n2 + m.len();
    assert forall|i: int| 0 <= i < r.len() implies (#[trigger] r[i]).category == c
        && priority_rank(r[i].priority) == (if i < n1 {
        3int
    } else if i < n2 {
        2int
    } else if i < n3 {
        1int
    } else {
        0int
    }) by {
        if i < n1 {
            assert(r[i] == a[i]);
        } else if i < n2 {
            assert(r[i] == b[i - n1]);
        } else if i < n3 {
            assert(r[i] == m[i - n2]);
        } else {
            assert(r[i] == l[i - n3]);
        }
    }
    assert forall|i: int, j: int| 0 <= i < j < r.len() implies ranked_before(
        #[trigger] r[i],
        #[trigger] r[j],
    ) by {
        assert(r[i].category == c);
        assert(r[j].category == c);
    }
}

proof fn lemma_concat_sorted(x: Seq<ActionView>, cx: ActionCategory, y: Seq<ActionView>, cy: ActionCategory)
    requires
        category_rank(cx) < category_rank(cy),
        forall|i: int| 0 <= i < x.len() ==> category_rank((#[trigger] x[i]).category) <= category_rank(cx),
        forall|i: int, j: int| 0 <= i < j < x.len() ==> ranked_before(#[trigger] x[i], #[trigger] x[j]),
        all_of_kind(y, cy),
        forall|i: int, j: int| 0 <= i < j < y.len() ==> ranked_before(#[trigger] y[i], #[trigger] y[j]),
    ensures
        forall|i: int| 0 <= i < (x + y).len() ==> category_rank((#[trigger] (x + y)[i]).category) <= category_rank(cy),
        forall|i: int, j: int|
            0 <= i < j < (x + y).len() ==> ranked_before(#[trigger] (x + y)[i], #[trigger] (x + y)[j]),
{
    let z = x + y;
    assert forall|i: int| 0 <= i < z.len() implies category_rank((#[trigger] z[i]).category) <= category_rank(cy) by {
        if i < x.len() {
            assert(z[i] == x[i]);
        } else {
            assert(z[i] == y[i - x.len()]);
        }
    }
    assert forall|i: int, j: int| 0 <= i < j < z.len() implies ranked_before(#[trigger] z[i], #[trigger] z[j]) by {
        if j < x.len() {
            assert(z[i] == x[i]);
            assert(z[j] == x[j]);
        } else if i < x.len() {
            assert(z[i] == x[i]);
            assert(z[j] == y[j - x.len()]);
        } else {
            assert(z[i] == y[i - x.len()]);
            assert(z[j] == y[j - x.len()]);
        }
    }
}

proof fn lemma_items_of_kind<A>(xs: Seq<A>, f: spec_fn(A) -> ActionView, c: ActionCategory)
    requires
        forall|a: A| (#[trigger] f(a)).category == c,
    ensures
        all_of_kind(xs.map_values(f), c),
{
    assert forall|i: int| 0 <= i < xs.map_values(f).len() implies (#[trigger] xs.map_values(f)[i]).category == c by {
        assert(xs.map_values(f)[i] == f(xs[i]));
    }
}

/// Every open or in-progress problem with no proposed or submitted solution
/// is on the list as a to-do item saying so and suggesting how to propose one.
pub proof fn law_unaddressed_problem_is_todo(
    ps: Seq<Problem>,
    ss: Seq<Solution>,
    cs: Seq<Critique>,
    user: Seq<char>,
    mine: bool,
    i: int,
)
    requires
        0 <= i < ps.len(),
        ps[i].status == crate::models::ProblemStatus::Open || ps[i].status == crate::models::ProblemStatus::InProgress,
        forall|j: int| 0 <= j < ss.len() && ss[j].problem_id@ == ps[i].id@
            ==> ss[j].status != SolutionStatus::Proposed && ss[j].status != SolutionStatus::Submitted,
    ensures
        next_actions_spec(ps, ss, cs, user, mine).contains(todo_item(ps[i])),
        todo_item(ps[i]).category == ActionCategory::Todo,
        todo_item(ps[i]).entity_id == ps[i].id@,
{
    let pred = |p: Problem| is_todo(p, ss);
    assert(pred(ps[i]));
    ps.lemma_filter_contains(pred, i);
    let f = ps.filter(pred);
    let w = choose|w: int| 0 <= w < f.len() && f[w] == ps[i];
    let todo = f.map_values(|p: Problem| todo_item(p));
    assert(todo[w] == todo_item(ps[i]));
    let x = todo_item(ps[i]);
    let pr = |a: ActionView| a.priority == x.priority;
    todo.lemma_filter_contains(pr, w);
    let blocked = ss.filter(|s: Solution| is_blocked(s, cs)).map_values(
        |s: Solution| blocked_item(s, ps, cs),
    );
    let ready = ss.filter(|s: Solution| is_ready(s, cs)).map_values(|s: Solution| ready_item(s, ps));
    let review = if mine {
        Seq::empty()
    } else {
        cs.filter(|c: Critique| asks_user(c, user)).map_values(|c: Critique| review_item(c, ss, ps))
    };
    let waiting = ss.filter(|s: Solution| is_waiting(s, cs, user)).map_values(
        |s: Solution| waiting_item(s, ps, cs, user),
    );
    let head = by_priority(blocked) + by_priority(ready) + by_priority(review) + by_priority(waiting);
    let a = at_priority(todo, Priority::Critical);
    let b = at_priority(todo, Priority::High);
    let c = at_priority(todo, Priority::Medium);
    let d = at_priority(todo, Priority::Low);
    let bp = by_priority(todo);
    assert(bp == a + b + c + d);
    let q = choose|q: int| 0 <= q < todo.filter(pr).len() && todo.filter(pr)[q] == x;
    let pos: int = match x.priority {
        Priority::Critical => {
            assert(a =~= todo.filter(pr));
            q
        },
        Priority::High => {
            assert(b =~= todo.filter(pr));
            a.len() + q
        },
        Priority::Medium => {
            assert(c =~= todo.filter(pr));
            a.len() + b.len() + q
        },
        Priority::Low => {
            assert(d =~= todo.filter(pr));
            a.len() + b.len() + c.len() + q
        },
    };
    assert(bp[pos] == x);
    let all = head + bp;
    assert(all == next_actions_spec(ps, ss, cs, user, mine));
    assert(all[head.len() + pos] == x);
}

/// The next actions come in listing order: blocked, ready, review, waiting,
/// then to-do items, and within each kind the most urgent first.
pub proof fn law_next_actions_sorted(
    ps: Seq<Problem>,
    ss: Seq<Solution>,
    cs: Seq<Critique>,
    user: Seq<char>,
    mine: bool,
)
    ensures
        forall|i: int, j: int|
            0 <= i < j < next_actions_spec(ps, ss, cs, user, mine).len() ==> ranked_before(
                #[trigger] next_actions_spec(ps, ss, cs, user, mine)[i],
                #[trigger] next_actions_spec(ps, ss, cs, user, mine)[j],
            ),
{
    let blocked = ss.filter(|s: Solution| is_blocked(s, cs)).map_values(
        |s: Solution| blocked_item(s, ps, cs),
    );
    let ready = ss.filter(|s: Solution| is_ready(s, cs)).map_values(|s: Solution| ready_item(s, ps));
    let review = if mine {
        Seq::empty()
    } else {
        cs.filter(|c: Critique| asks_user(c, user)).map_values(|c: Critique| review_item(c, ss, ps))
    };
    let waiting = ss.filter(|s: Solution| is_waiting(s, cs, user)).map_values(
        |s: Solution| waiting_item(s, ps, cs, user),
    );
    let todo = ps.filter(|p: Problem| is_todo(p, ss)).map_values(|p: Problem| todo_item(p));
    lemma_items_of_kind(ss.filter(|s: Solution| is_blocked(s, cs)), |s: Solution| blocked_item(s, ps, cs), ActionCategory::Blocked);
    lemma_items_of_kind(ss.filter(|s: Solution| is_ready(s, cs)), |s: Solution| ready_item(s, ps), ActionCategory::Ready);
    if !mine {
        lemma_items_of_kind(cs.filter(|c: Critique| asks_user(c, user)), |c: Critique| review_item(c, ss, ps), ActionCategory::Review);
    }
    lemma_items_of_kind(ss.filter(|s: Solution| is_waiting(s, cs, user)), |s: Solution| waiting_item(s, ps, cs, user), ActionCategory::Waiting);
    lemma_items_of_kind(ps.filter(|p: Problem| is_todo(p, ss)), |p: Problem| todo_item(p), ActionCategory::Todo);
    lemma_by_priority_sorted(blocked, ActionCategory::Blocked);
    lemma_by_priority_sorted(ready, ActionCategory::Ready);
    lemma_by_priority_sorted(review, ActionCategory::Review);
    lemma_by_priority_sorted(waiting, ActionCategory::Waiting);
    lemma_by_priority_sorted(todo, ActionCategory::Todo);
    let b = by_priority(blocked);
    assert forall|i: int| 0 <= i < b.len() implies category_rank((#[trigger] b[i]).category) <= 0 by {}
    lemma_concat_sorted(b, ActionCategory::Blocked, by_priority(ready), ActionCategory::Ready);
    let br = b + by_priority(ready);
    lemma_concat_sorted(br, ActionCategory::Ready, by_priority(review), ActionCategory::Review);
    let brv = br + by_priority(review);
    lemma_concat_sorted(brv, ActionCategory::Review, by_priority(waiting), ActionCategory::Waiting);
    let brvw = brv + by_priority(waiting);
    lemma_concat_sorted(brvw, ActionCategory::Waiting, by_priority(todo), ActionCategory::Todo);
    assert(next_actions_spec(ps, ss, cs, user, mine) == brvw + by_priority(todo));
}

// ───────────────────────── the rest of the status view ─────────────────────────

/// How many next actions to show: all of them, or the given limit (five by
/// default).
pub fn effective_limit(all: bool, limit: Option<usize>) -> (n: usize)
    ensures
        n == (if all {
            usize::MAX as int
        } else {
            match limit {
                Some(l) => l as int,
                None => 5,
            }
        }),
{
    if all {
        usize::MAX
    } else {
        match limit {
            Some(l) => l,
            None => 5,
        }
    }
}

pub open spec fn has_change(s: Solution, change: Seq<char>) -> bool {
    exists|k: int| 0 <= k < s.change_ids@.len() && s.change_ids@[k]@ == change
}

/// The solution being worked on in change `change`: the first whose
/// changes include it.
pub fn active_solution(solutions: &Vec<Solution>, change: &str) -> (r: Option<usize>)
    ensures
        match r {
            Some(k) => k < solutions@.len() && has_change(solutions@[k as int], change@)
                && forall|j: int| 0 <= j < k ==> !has_change(solutions@[j], change@),
            None => forall|j: int| 0 <= j < solutions@.len() ==> !has_change(solutions@[j], change@),
        },
{
    let mut i: usize = 0;
    while i < solutions.len()
        invariant
            i <= solutions.len(),
            forall|j: int| 0 <= j < i ==> !has_change(solutions@[j], change@),
        decreases solutions.len() - i,
    {
        let cids = &solutions[i].change_ids;
        let mut k: usize = 0;
        while k < cids.len()
            invariant
                k <= cids.len(),
                i < solutions.len(),
                forall|j: int| 0 <= j < i ==> !has_change(solutions@[j], change@),
                cids == &solutions@[i as int].change_ids,
                forall|m: int| 0 <= m < k ==> cids@[m]@ != change@,
            decreases cids.len() - k,
        {
            if str_eq(cids[k].as_str(), change) {
                assert(solutions@[i as int].change_ids@[k as int]@ == change@);
                return Some(i);
            }
            k += 1;
        }
        i += 1;
    }
    None
}

/// Open problems, solutions under review, and open critiques.
pub open spec fn status_counts_spec(ps: Seq<Problem>, ss: Seq<Solution>, cs: Seq<Critique>) -> (nat, nat, nat) {
    (
        ps.filter(|p: Problem| problem_is_open(p.status)).len(),
        ss.filter(|s: Solution| s.status == SolutionStatus::Submitted).len(),
        cs.filter(|c: Critique| c.status == CritiqueStatus::Open).len(),
    )
}

pub fn status_counts(store: &MetadataStore) -> (r: (usize, usize, usize))
    ensures
        (r.0 as nat, r.1 as nat, r.2 as nat) == status_counts_spec(store.problems@, store.solutions@, store.critiques@),
{
    let ps = &store.problems;
    let ss = &store.solutions;
    let cs = &store.critiques;
    let ghost pp = |p: Problem| problem_is_open(p.status);
    let ghost sp = |s: Solution| s.status == SolutionStatus::Submitted;
    let ghost cp = |c: Critique| c.status == CritiqueStatus::Open;
    let mut a: usize = 0;
    let mut i: usize = 0;
    while i < ps.len()
        invariant
            i <= ps.len(),
            pp == (|p: Problem| problem_is_open(p.status)),
            a == ps@.take(i as int).filter(pp).len(),
            a <= i,
        decreases ps.len() - i,
    {
        proof {
            reveal(Seq::filter);
            assert(ps@.take(i + 1).drop_last() =~= ps@.take(i as int));
        }
        if ps[i].status == crate::models::ProblemStatus::Open || ps[i].status == crate::models::ProblemStatus::InProgress {
            a += 1;
        }
        i += 1;
    }
    assert(ps@.take(i as int) =~= ps@);
    let mut b: usize = 0;
    let mut i: usize = 0;
    while i < ss.len()
        invariant
            i <= ss.len(),
            sp == (|s: Solution| s.status == SolutionStatus::Submitted),
            b == ss@.take(i as int).filter(sp).len(),
            b <= i,
        decreases ss.len() - i,
    {
        proof {
            reveal(Seq::filter);
            assert(ss@.take(i + 1).drop_last() =~= ss@.take(i as int));
        }
        if ss[i].status == SolutionStatus::Submitted {
            b += 1;
        }
        i += 1;
    }
    assert(ss@.take(i as int) =~= ss@);
    let mut c: usize = 0;
    let mut i: usize = 0;
    while i < cs.len()
        invariant
            i <= cs.len(),
            cp == (|c: Critique| c.status == CritiqueStatus::Open),
            c == cs@.take(i as int).filter(cp).len(),
            c <= i,
        decreases cs.len() - i,
    {
        proof {
            reveal(Seq::filter);
            assert(cs@.take(i + 1).drop_last() =~= cs@.take(i as int));
        }
        if cs[i].status == CritiqueStatus::Open {
            c += 1;
        }
        i += 1;
    }
    assert(cs@.take(i as int) =~= cs@);
    (a, b, c)
}

// ───────────────────────── next ─────────────────────────

/// How many next actions to show: one by default, all for zero, else at
/// most the number asked for.
pub fn shown_count(top: Option<usize>, available: usize) -> (n: usize)
    ensures
        n == (match top {
            None => if available > 0 { 1 } else { 0 },
            Some(t) => if t == 0 || t > available { available as int } else { t as int },
        }),
{
    match top {
        None => if available > 0 {
            1
        } else {
            0
        },
        Some(t) => if t == 0 || t > available {
            available
        } else {
            t
        },
    }
}

/// Claim a problem for `user` at `now`: the assignment and its stamp are
/// always refreshed. Returns the reclaim notice when it was someone else's.
pub fn claim_problem(p: &mut Problem, user: &str, now: i64) -> (notice: Option<String>)
    requires
        opt_view(old(p).assignee) matches Some(prev) && !crate::claim::actor_matches(prev, user@)
            ==> crate::display::short_id_ok(old(p).id@),
    ensures
        opt_view(final(p).assignee) == Some(user@),
        final(p).claimed_at == Some(now),
        final(p).id == old(p).id,
        final(p).title == old(p).title,
        final(p).status == old(p).status,
        final(p).priority == old(p).priority,
        final(p).parent_id == old(p).parent_id,
        final(p).milestone_id == old(p).milestone_id,
        match opt_view(old(p).assignee) {
            Some(prev) => if crate::claim::actor_matches(prev, user@) {
                notice is None
            } else {
                notice matches Some(m) && m@ == crate::parsing::reclaim_msg(old(p).id@, prev)
            },
            None => notice is None,
        },
{
    let previous = p.assignee.take();
    let notice = match &previous {
        Some(prev) => crate::parsing::reclaim_notice(p.id.as_str(), Some(prev.as_str()), user),
        None => crate::parsing::reclaim_notice(p.id.as_str(), None, user),
    };
    p.assignee = Some(copy_str(user));
    p.claimed_at = Some(now);
    notice
}

/// Claim a solution for `user` at `now` (as for a problem).
pub fn claim_solution(s: &mut Solution, user: &str, now: i64) -> (notice: Option<String>)
    requires
        opt_view(old(s).assignee) matches Some(prev) && !crate::claim::actor_matches(prev, user@)
            ==> crate::display::short_id_ok(old(s).id@),
    ensures
        opt_view(final(s).assignee) == Some(user@),
        final(s).claimed_at == Some(now),
        final(s).id == old(s).id,
        final(s).title == old(s).title,
        final(s).status == old(s).status,
        final(s).problem_id == old(s).problem_id,
        match opt_view(old(s).assignee) {
            Some(prev) => if crate::claim::actor_matches(prev, user@) {
                notice is None
            } else {
                notice matches Some(m) && m@ == crate::parsing::reclaim_msg(old(s).id@, prev)
            },
            None => notice is None,
        },
{
    let previous = s.assignee.take();
    let notice = match &previous {
        Some(prev) => crate::parsing::reclaim_notice(s.id.as_str(), Some(prev.as_str()), user),
        None => crate::parsing::reclaim_notice(s.id.as_str(), None, user),
    };
    s.assignee = Some(copy_str(user));
    s.claimed_at = Some(now);
    notice
}

} // verus!
