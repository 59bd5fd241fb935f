//! Creating problems, solutions, critiques and milestones in the store.

use vstd::prelude::*;
use crate::contention::strictly_sorted;
use crate::creation::{checked_title, duplicate_title, empty_title_msg, normalize_tags, tag_set};
use crate::domain::opt_str_view;
use crate::milestones::lists;
use crate::creation::solution_created_event;
use crate::models::{
    opt_str_to_string, opt_view, plain_event, Critique, CritiqueStatus, Event, EventType, Milestone,
    Priority, Problem, ProblemStatus, Severity, Solution, SolutionStatus,
};
use crate::parsing::{parse_reviewer_spec, reviewer_spec, strip_leading, strip_leading_exec};
use crate::store::solution_idx;
use crate::text::copy_strings;
use crate::store::{has_solution, problem_idx, problem_ids, solution_ids, lemma_first_index_push};
use crate::text::{append_chars, chars_of, string_of};
use crate::rank::is_validation;
use crate::store::{has_milestone, has_problem, milestone_idx, JjjError, MetadataStore};
use crate::text::{copy_str, strs, trim, unicode_lowercase};

verus! {

// ───────────────────────── shared pieces ─────────────────────────

/// The parts of the store that creating an entity does not touch.
pub open spec fn config_same(s0: MetadataStore, s1: MetadataStore) -> bool {
    &&& s1.user == s0.user
    &&& s1.automation == s0.automation
    &&& s1.local_automation == s0.local_automation
    &&& s1.settings == s0.settings
}

/// The log gained one event at its end, and nothing else changed in it.
pub open spec fn one_more_event(s0: MetadataStore, s1: MetadataStore) -> bool {
    &&& s1.events@.len() == s0.events@.len() + 1
    &&& s1.events@.drop_last() == s0.events@
}

/// Milestone `m` (when one is given) lists problem `id` last, unless it
/// already listed it; every other milestone, and every other field of `m`,
/// is as it was.
pub open spec fn milestone_gains(s0: MetadataStore, s1: MetadataStore, milestone: Option<Seq<char>>, id: Seq<char>) -> bool {
    match milestone {
        None => s1.milestones == s0.milestones,
        Some(m) => {
            let mi = milestone_idx(s0.milestones@, m);
            let m0 = s0.milestones@[mi];
            let m1 = s1.milestones@[mi];
            &&& s1.milestones@.len() == s0.milestones@.len()
            &&& forall|j: int| 0 <= j < s0.milestones@.len() && j != mi ==> s1.milestones@[j] == s0.milestones@[j]
            &&& m1.id == m0.id && m1.title == m0.title && m1.status == m0.status && m1.target_date == m0.target_date
            &&& strs(m1.problem_ids@) == (if strs(m0.problem_ids@).contains(id) {
                strs(m0.problem_ids@)
            } else {
                strs(m0.problem_ids@).push(id)
            })
        },
    }
}

// ───────────────────────── problems ─────────────────────────

pub open spec fn duplicate_msg() -> Seq<char> {
    "Duplicate title. Use --force to create anyway."@
}

/// Some problem already has title `t`, ignoring case.
pub open spec fn title_taken(ps: Seq<Problem>, t: Seq<char>) -> bool {
    exists|j: int| 0 <= j < ps.len() && unicode_lowercase(ps[j].title@) == unicode_lowercase(t)
}

/// The problem `create_problem` makes.
pub open spec fn fresh_problem(
    p: Problem,
    id: Seq<char>,
    t: Seq<char>,
    priority: Priority,
    context: Option<Seq<char>>,
    tags: Seq<Seq<char>>,
    parent: Option<Seq<char>>,
    milestone: Option<Seq<char>>,
    now: i64,
) -> bool {
    &&& p.id@ == id
    &&& p.title@ == t
    &&& p.description@ == (match context {
        Some(c) => c,
        None => Seq::empty(),
    })
    &&& p.status == ProblemStatus::Open
    &&& p.priority == priority
    &&& opt_view(p.parent_id) == parent
    &&& opt_view(p.milestone_id) == milestone
    &&& p.assignee is None
    &&& p.claimed_at is None
    &&& p.github_issue is None
    &&& p.dissolved_reason is None
    &&& strictly_sorted(strs(p.tags@))
    &&& strs(p.tags@).to_set() == tag_set(tags)
    &&& p.solution_ids@.len() == 0
    &&& p.created_at == now
}

/// What `create_problem` does. The title is trimmed; an empty title, or
/// (unless `force`d) one that an existing problem already has ignoring case,
/// is refused; so is a parent or milestone that does not exist. Otherwise
/// the problem is appended, the milestone lists it, and one ProblemCreated
/// event is logged and returned. A refusal changes nothing.
pub open spec fn create_problem_post(
    s0: MetadataStore,
    id: Seq<char>,
    title: Seq<char>,
    priority: Priority,
    context: Option<Seq<char>>,
    tags: Seq<Seq<char>>,
    parent: Option<Seq<char>>,
    milestone: Option<Seq<char>>,
    force: bool,
    user: Seq<char>,
    now: i64,
    r: Result<Event, JjjError>,
    s1: MetadataStore,
) -> bool {
    let t = trim(title);
    if t.len() == 0 {
        r matches Err(e) && is_validation(e, empty_title_msg()) && s1 == s0
    } else if !force && title_taken(s0.problems@, t) {
        r matches Err(e) && is_validation(e, duplicate_msg()) && s1 == s0
    } else if parent matches Some(pid) && !has_problem(s0.problems@, pid) {
        r matches Err(JjjError::ProblemNotFound(x)) && Some(x@) == parent && s1 == s0
    } else if milestone matches Some(mid) && !has_milestone(s0.milestones@, mid) {
        r matches Err(JjjError::MilestoneNotFound(x)) && Some(x@) == milestone && s1 == s0
    } else {
        &&& s1.problems@.len() == s0.problems@.len() + 1
        &&& s1.problems@.drop_last() == s0.problems@
        &&& fresh_problem(s1.problems@.last(), id, t, priority, context, tags, parent, milestone, now)
        &&& milestone_gains(s0, s1, milestone, id)
        &&& s1.solutions == s0.solutions
        &&& s1.critiques == s0.critiques
        &&& config_same(s0, s1)
        &&& one_more_event(s0, s1)
        &&& plain_event(s1.events@.last(), EventType::ProblemCreated, id, user, now)
        &&& s1.events@.last().rationale is None
        &&& r matches Ok(e) && plain_event(e, EventType::ProblemCreated, id, user, now) && e.rationale is None
    }
}

/// List problem `id` last on milestone `mi` unless it is already there.
fn list_on_milestone(store: &mut MetadataStore, mi: usize, id: &str)
    requires
        mi < old(store).milestones@.len(),
    ensures
        final(store).problems == old(store).problems,
        final(store).solutions == old(store).solutions,
        final(store).critiques == old(store).critiques,
        final(store).events == old(store).events,
        config_same(*old(store), *final(store)),
        final(store).milestones@.len() == old(store).milestones@.len(),
        forall|j: int| 0 <= j < old(store).milestones@.len() && j != mi ==> final(store).milestones@[j] == old(store).milestones@[j],
        ({
            let m0 = old(store).milestones@[mi as int];
            let m1 = final(store).milestones@[mi as int];
            &&& m1.id == m0.id && m1.title == m0.title && m1.status == m0.status && m1.target_date == m0.target_date
            &&& strs(m1.problem_ids@) == (if strs(m0.problem_ids@).contains(id@) {
                strs(m0.problem_ids@)
            } else {
                strs(m0.problem_ids@).push(id@)
            })
        }),
{
    if lists(&store.milestones[mi].problem_ids, id) {
        return;
    }
    let ghost s0 = *store;
    let mut m: Milestone = store.milestones.remove(mi);
    let ghost ids0 = strs(m.problem_ids@);
    m.problem_ids.push(copy_str(id));
    assert(strs(m.problem_ids@) =~= ids0.push(id@));
    store.milestones.insert(mi, m);
    proof {
        assert forall|j: int| 0 <= j < s0.milestones@.len() && j != mi implies store.milestones@[j] == s0.milestones@[j] by {
            if j < mi {
            } else {
            }
        }
    }
}

/// Create a problem (see `create_problem_post`). `id` is the new problem's
/// id, `user` who creates it, `now` the time; `parent` and `milestone` are
/// ids already resolved from what the user typed.
pub fn create_problem(
    store: &mut MetadataStore,
    id: &str,
    title: &str,
    priority: Priority,
    context: Option<&str>,
    tags: &Vec<String>,
    parent: Option<&str>,
    milestone: Option<&str>,
    force: bool,
    user: &str,
    now: i64,
) -> (r: Result<Event, JjjError>)
    ensures
        create_problem_post(
            *old(store),
            id@,
            title@,
            priority,
            opt_str_view(context),
            strs(tags@),
            opt_str_view(parent),
            opt_str_view(milestone),
            force,
            user@,
            now,
            r,
            *final(store),
        ),
{
    let ghost s0 = *store;
    let t = match checked_title(title) {
        Ok(t) => t,
        Err(e) => return Err(e),
    };
    if !force {
        match duplicate_title(&store.problems, t.as_str()) {
            Some(_) => {
                return Err(JjjError::Validation(copy_str("Duplicate title. Use --force to create anyway.")));
            },
            None => {},
        }
    }
    match parent {
        Some(pid) => {
            if store.find_problem(pid).is_none() {
                return Err(JjjError::ProblemNotFound(copy_str(pid)));
            }
        },
        None => {},
    }
    let mi: Option<usize> = match milestone {
        Some(m) => match store.find_milestone(m) {
            Some(k) => Some(k),
            None => return Err(JjjError::MilestoneNotFound(copy_str(m))),
        },
        None => None,
    };
    let mut p = Problem::new(id, t.as_str());
    p.priority = priority;
    match context {
        Some(c) => p.description = copy_str(c),
        None => {},
    }
    p.tags = normalize_tags(tags);
    p.parent_id = opt_str_to_string(parent);
    p.milestone_id = opt_str_to_string(milestone);
    p.created_at = now;
    assert(p.description@ == (match opt_str_view(context) {
        Some(c) => c,
        None => Seq::<char>::empty(),
    }));
    store.problems.push(p);
    match mi {
        Some(k) => list_on_milestone(store, k, id),
        None => {},
    }
    let e = Event::new(EventType::ProblemCreated, id, user, now);
    let logged_e = Event::new(EventType::ProblemCreated, id, user, now);
    store.events.push(logged_e);
    proof {
        assert(store.problems@.drop_last() =~= s0.problems@);
        assert(store.events@.drop_last() =~= s0.events@);
    }
    Ok(e)
}


// ───────────────────────── solutions ─────────────────────────

pub open spec fn awaiting_title(name: Seq<char>) -> Seq<char> {
    "Awaiting review from @"@ + name
}

/// The critique opened for the `k`-th person asked to review new solution `sid`,
/// whose assignee is `assignee`.
pub open spec fn review_request(c: Critique, cid: Seq<char>, spec: Seq<char>, sid: Seq<char>, assignee: Option<Seq<char>>) -> bool {
    &&& c.id@ == cid
    &&& c.title@ == awaiting_title(reviewer_spec(spec).0)
    &&& c.solution_id@ == sid
    &&& c.status == CritiqueStatus::Open
    &&& c.severity == reviewer_spec(spec).1
    &&& opt_view(c.author) == assignee
    &&& opt_view(c.reviewer) == Some(reviewer_spec(spec).0)
    &&& c.file_path is None
    &&& c.line_start is None
    &&& c.code_context@.len() == 0
    &&& c.github_review_id is None
    &&& c.replies@.len() == 0
}

/// The solution `create_solution` makes.
pub open spec fn fresh_solution(
    sol: Solution,
    id: Seq<char>,
    t: Seq<char>,
    problem_id: Seq<char>,
    supersedes: Option<Seq<char>>,
    change_id: Seq<char>,
    critique_ids: Seq<Seq<char>>,
    now: i64,
) -> bool {
    &&& sol.id@ == id
    &&& sol.title@ == t
    &&& sol.problem_id@ == problem_id
    &&& sol.status == SolutionStatus::Proposed
    &&& opt_view(sol.supersedes) == supersedes
    &&& sol.assignee is None
    &&& !sol.force_approved
    &&& sol.github_pr is None
    &&& sol.claimed_at is None
    &&& strs(sol.change_ids@) == seq![change_id]
    &&& strs(sol.critique_ids@) == critique_ids
    &&& sol.created_at == now
}

/// The SolutionCreated event for solution `id` of `problem_id`.
pub open spec fn solution_event(e: Event, id: Seq<char>, problem_id: Seq<char>, supersedes: Option<Seq<char>>, user: Seq<char>, now: i64) -> bool {
    &&& e.event_type == EventType::SolutionCreated
    &&& e.entity@ == id
    &&& e.by@ == user
    &&& e.when == now
    &&& e.rationale is None
    &&& e.refs@.len() == 0
    &&& opt_view(e.extra.problem) == Some(problem_id)
    &&& opt_view(e.extra.supersedes) == supersedes
    &&& e.extra.title is None
    &&& e.extra.github_number is None
    &&& e.extra.target is None
    &&& e.extra.severity is None
}

/// What `create_solution` does. The title is trimmed and must not be empty;
/// the problem, and the superseded solution when one is named, must exist.
/// Then the solution is appended with the change attached; one critique
/// "Awaiting review from @name" is appended per name asked (severity from
/// `name:severity`, Low by default), their ids listed on the
/// solution; the problem lists the solution and, if it was Open, is now
/// InProgress; one SolutionCreated event is logged and returned. A refusal
/// changes nothing.
pub open spec fn create_solution_post(
    s0: MetadataStore,
    id: Seq<char>,
    title: Seq<char>,
    problem_id: Seq<char>,
    supersedes: Option<Seq<char>>,
    change_id: Seq<char>,
    reviewers: Seq<Seq<char>>,
    critique_ids: Seq<Seq<char>>,
    user: Seq<char>,
    now: i64,
    r: Result<Event, JjjError>,
    s1: MetadataStore,
) -> bool {
    let t = trim(title);
    if t.len() == 0 {
        r matches Err(e) && is_validation(e, empty_title_msg()) && s1 == s0
    } else if !has_problem(s0.problems@, problem_id) {
        r matches Err(JjjError::ProblemNotFound(x)) && x@ == problem_id && s1 == s0
    } else if supersedes matches Some(sup) && !has_solution(s0.solutions@, sup) {
        r matches Err(JjjError::SolutionNotFound(x)) && Some(x@) == supersedes && s1 == s0
    } else {
        let pi = problem_idx(s0.problems@, problem_id);
        let p0 = s0.problems@[pi];
        let p1 = s1.problems@[pi];
        let n0 = s0.critiques@.len();
        &&& s1.solutions@.len() == s0.solutions@.len() + 1
        &&& s1.solutions@.drop_last() == s0.solutions@
        &&& fresh_solution(s1.solutions@.last(), id, t, problem_id, supersedes, change_id, critique_ids, now)
        &&& s1.critiques@.len() == n0 + reviewers.len()
        &&& s1.critiques@.take(n0 as int) == s0.critiques@
        &&& forall|k: int| 0 <= k < reviewers.len() ==> review_request(
            #[trigger] s1.critiques@[n0 + k],
            critique_ids[k],
            reviewers[k],
            id,
            opt_view(s1.solutions@.last().assignee),
        )
        &&& s1.problems@.len() == s0.problems@.len()
        &&& forall|j: int| 0 <= j < s0.problems@.len() && j != pi ==> s1.problems@[j] == s0.problems@[j]
        &&& p1 == (Problem {
            status: if p0.status == ProblemStatus::Open { ProblemStatus::InProgress } else { p0.status },
            solution_ids: p1.solution_ids,
            ..p0
        })
        &&& strs(p1.solution_ids@) == strs(p0.solution_ids@).push(id)
        &&& s1.milestones == s0.milestones
        &&& config_same(s0, s1)
        &&& one_more_event(s0, s1)
        &&& solution_event(s1.events@.last(), id, problem_id, supersedes, user, now)
        &&& r matches Ok(e) && solution_event(e, id, problem_id, supersedes, user, now)
    }
}

/// Create a solution of problem `problem_id` (see `create_solution_post`).
/// `change_id` is the change made for it; `critique_ids` are the ids for
/// the critiques opened for the people asked to review, one each, in order.
pub fn create_solution(
    store: &mut MetadataStore,
    id: &str,
    title: &str,
    problem_id: &str,
    supersedes: Option<&str>,
    change_id: &str,
    reviewers: &Vec<String>,
    critique_ids: &Vec<String>,
    user: &str,
    now: i64,
) -> (r: Result<Event, JjjError>)
    requires
        critique_ids@.len() == reviewers@.len(),
    ensures
        create_solution_post(
            *old(store),
            id@,
            title@,
            problem_id@,
            opt_str_view(supersedes),
            change_id@,
            strs(reviewers@),
            strs(critique_ids@),
            user@,
            now,
            r,
            *final(store),
        ),
{
    let ghost s0 = *store;
    let t = match checked_title(title) {
        Ok(t) => t,
        Err(e) => return Err(e),
    };
    let pi = match store.find_problem(problem_id) {
        Some(k) => k,
        None => return Err(JjjError::ProblemNotFound(copy_str(problem_id))),
    };
    match supersedes {
        Some(sup) => {
            if store.find_solution(sup).is_none() {
                return Err(JjjError::SolutionNotFound(copy_str(sup)));
            }
        },
        None => {},
    }
    let mut sol = Solution::new(id, t.as_str(), problem_id);
    sol.supersedes = opt_str_to_string(supersedes);
    sol.created_at = now;
    sol.change_ids.push(copy_str(change_id));
    assert(strs(sol.change_ids@) =~= seq![change_id@]);
    let ghost n0 = store.critiques@.len();
    let ghost rv = strs(reviewers@);
    let ghost cv = strs(critique_ids@);
    let mut k: usize = 0;
    assert(store.critiques@.take(n0 as int) =~= s0.critiques@);
    while k < reviewers.len()
        invariant
            k <= reviewers@.len(),
            critique_ids@.len() == reviewers@.len(),
            rv == strs(reviewers@),
            cv == strs(critique_ids@),
            n0 == s0.critiques@.len(),
            store.critiques@.len() == n0 + k,
            store.critiques@.take(n0 as int) == s0.critiques@,
            forall|q: int| 0 <= q < k ==> review_request(#[trigger] store.critiques@[n0 + q], cv[q], rv[q], id@, opt_view(sol.assignee)),
            strs(sol.critique_ids@) == cv.take(k as int),
            sol.id@ == id@,
            sol.title@ == t@,
            t@ == trim(title@),
            sol.problem_id@ == problem_id@,
            sol.status == SolutionStatus::Proposed,
            opt_view(sol.supersedes) == opt_str_view(supersedes),
            sol.assignee is None,
            !sol.force_approved,
            sol.github_pr is None,
            sol.claimed_at is None,
            strs(sol.change_ids@) == seq![change_id@],
            sol.created_at == now,
            store.problems == s0.problems,
            store.solutions == s0.solutions,
            store.milestones == s0.milestones,
            store.events == s0.events,
            config_same(s0, *store),
            pi < s0.problems@.len(),
            pi as int == problem_idx(s0.problems@, problem_id@),
        decreases reviewers@.len() - k,
    {
        let spec = parse_reviewer_spec(reviewers[k].as_str());
        let mut tv = chars_of("Awaiting review from @");
        append_chars(&mut tv, &chars_of(spec.0.as_str()));
        let ttl = string_of(&tv);
        let mut c = Critique::new(critique_ids[k].as_str(), ttl.as_str(), id, spec.1);
        c.reviewer = Some(spec.0);
        c.author = None;
        assert(rv[k as int] == reviewers@[k as int]@);
        assert(cv[k as int] == critique_ids@[k as int]@);
        assert(review_request(c, cv[k as int], rv[k as int], id@, opt_view(sol.assignee)));
        let ghost before = store.critiques@;
        store.critiques.push(c);
        let ghost sids = strs(sol.critique_ids@);
        sol.critique_ids.push(copy_str(critique_ids[k].as_str()));
        proof {
            assert(strs(sol.critique_ids@) =~= sids.push(cv[k as int]));
            assert(cv.take(k + 1) =~= cv.take(k as int).push(cv[k as int]));
            assert(store.critiques@.take(n0 as int) =~= before.take(n0 as int));
            assert forall|q: int| 0 <= q < k + 1 implies review_request(#[trigger] store.critiques@[n0 + q], cv[q], rv[q], id@, opt_view(sol.assignee)) by {
                if q < k {
                    assert(store.critiques@[n0 + q] == before[n0 + q]);
                }
            }
        }
        k += 1;
    }
    assert(cv.take(k as int) =~= cv);
    let ghost sol_ghost = sol;
    store.solutions.push(sol);
    let p0_status = store.problems[pi].status;
    store.problems[pi].solution_ids.push(copy_str(id));
    if p0_status == ProblemStatus::Open {
        store.problems[pi].status = ProblemStatus::InProgress;
    }
    let e = solution_created_event(id, problem_id, supersedes, user, now);
    let logged_e = solution_created_event(id, problem_id, supersedes, user, now);
    store.events.push(logged_e);
    proof {
        let p0 = s0.problems@[pi as int];
        let p1 = store.problems@[pi as int];
        assert(strs(p1.solution_ids@) =~= strs(p0.solution_ids@).push(id@));
        assert(store.solutions@.drop_last() =~= s0.solutions@);
        assert(store.events@.drop_last() =~= s0.events@);
        assert(store.solutions@.last() == sol_ghost);
        assert(p1 == (Problem {
            status: if p0.status == ProblemStatus::Open { ProblemStatus::InProgress } else { p0.status },
            solution_ids: p1.solution_ids,
            ..p0
        }));
        assert forall|j: int| 0 <= j < s0.problems@.len() && j != pi implies store.problems@[j] == s0.problems@[j] by {}
        assert(fresh_solution(store.solutions@.last(), id@, trim(title@), problem_id@, opt_str_view(supersedes), change_id@, strs(critique_ids@), now));
        assert(solution_event(store.events@.last(), id@, problem_id@, opt_str_view(supersedes), user@, now));
        assert(solution_event(e, id@, problem_id@, opt_str_view(supersedes), user@, now));
    }
    Ok(e)
}


// ───────────────────────── critiques ─────────────────────────

/// The lines shown around line `line`: from two before it (or the start) to
/// two after it (or the end).
pub open spec fn window(lines: Seq<Seq<char>>, line: usize) -> Seq<Seq<char>> {
    let start = if line >= 2 { line - 2 } else { 0 };
    let end = if line + 2 <= lines.len() { line + 2 } else { lines.len() as int };
    lines.subrange(start, end)
}

/// The window can be taken: it does not start after it ends.
pub open spec fn window_ok(lines: Seq<Seq<char>>, line: usize) -> bool {
    &&& line + 2 <= usize::MAX
    &&& (if line >= 2 { line - 2 } else { 0 }) <= lines.len()
}

/// The critique `create_critique` makes.
pub open spec fn fresh_critique(
    c: Critique,
    id: Seq<char>,
    sid: Seq<char>,
    title: Seq<char>,
    severity: Severity,
    file: Option<Seq<char>>,
    line: Option<usize>,
    lines: Option<Seq<Seq<char>>>,
    reviewer: Option<Seq<char>>,
    author: Seq<char>,
) -> bool {
    &&& c.id@ == id
    &&& c.title@ == title
    &&& c.solution_id@ == sid
    &&& c.status == CritiqueStatus::Open
    &&& c.severity == severity
    &&& opt_view(c.author) == Some(author)
    &&& opt_view(c.reviewer) == (match reviewer {
        Some(r) => Some(strip_leading(r, '@')),
        None => None,
    })
    &&& (if file is Some && line is Some {
        &&& opt_view(c.file_path) == file
        &&& c.line_start == line
        &&& strs(c.code_context@) == (match lines {
            Some(ls) => window(ls, line.unwrap()),
            None => Seq::empty(),
        })
    } else {
        &&& c.file_path is None
        &&& c.line_start is None
        &&& c.code_context@.len() == 0
    })
    &&& c.github_review_id is None
    &&& c.replies@.len() == 0
}

/// The CritiqueRaised event for critique `id` on solution `sid`.
pub open spec fn critique_event(e: Event, id: Seq<char>, sid: Seq<char>, title: Seq<char>, severity: Severity, user: Seq<char>, now: i64) -> bool {
    &&& e.event_type == EventType::CritiqueRaised
    &&& e.entity@ == id
    &&& e.by@ == user
    &&& e.when == now
    &&& e.rationale is None
    &&& e.refs@.len() == 0
    &&& e.extra.problem is None
    &&& e.extra.supersedes is None
    &&& opt_view(e.extra.title) == Some(title)
    &&& e.extra.github_number is None
    &&& opt_view(e.extra.target) == Some(sid)
    &&& e.extra.severity == Some(severity)
}

/// What `create_critique` does. The solution must exist. Then the critique
/// is appended (raised by `author`, the person asked to review without a
/// leading `@`, and,
/// when a file and line are given, that place and the lines around it read
/// from the file, if it could be read), the solution lists it, and one
/// CritiqueRaised event is logged and returned. A refusal changes nothing.
pub open spec fn create_critique_post(
    s0: MetadataStore,
    id: Seq<char>,
    sid: Seq<char>,
    title: Seq<char>,
    severity: Severity,
    file: Option<Seq<char>>,
    line: Option<usize>,
    lines: Option<Seq<Seq<char>>>,
    reviewer: Option<Seq<char>>,
    author: Seq<char>,
    user: Seq<char>,
    now: i64,
    r: Result<Event, JjjError>,
    s1: MetadataStore,
) -> bool {
    if !has_solution(s0.solutions@, sid) {
        r matches Err(JjjError::SolutionNotFound(x)) && x@ == sid && s1 == s0
    } else {
        let si = solution_idx(s0.solutions@, sid);
        let q0 = s0.solutions@[si];
        let q1 = s1.solutions@[si];
        &&& s1.critiques@.len() == s0.critiques@.len() + 1
        &&& s1.critiques@.drop_last() == s0.critiques@
        &&& fresh_critique(s1.critiques@.last(), id, sid, title, severity, file, line, lines, reviewer, author)
        &&& s1.solutions@.len() == s0.solutions@.len()
        &&& forall|j: int| 0 <= j < s0.solutions@.len() && j != si ==> s1.solutions@[j] == s0.solutions@[j]
        &&& q1 == (Solution { critique_ids: q1.critique_ids, ..q0 })
        &&& strs(q1.critique_ids@) == strs(q0.critique_ids@).push(id)
        &&& s1.problems == s0.problems
        &&& s1.milestones == s0.milestones
        &&& config_same(s0, s1)
        &&& one_more_event(s0, s1)
        &&& critique_event(s1.events@.last(), id, sid, title, severity, user, now)
        &&& r matches Ok(e) && critique_event(e, id, sid, title, severity, user, now)
    }
}

fn critique_raised_event(id: &str, sid: &str, title: &str, severity: Severity, user: &str, now: i64) -> (e: Event)
    ensures
        critique_event(e, id@, sid@, title@, severity, user@, now),
{
    let mut e = Event::new(EventType::CritiqueRaised, id, user, now);
    e.extra.title = Some(copy_str(title));
    e.extra.target = Some(copy_str(sid));
    e.extra.severity = Some(severity);
    e
}

fn context_window(lines: &Vec<String>, line: usize) -> (r: Vec<String>)
    requires
        window_ok(strs(lines@), line),
    ensures
        strs(r@) == window(strs(lines@), line),
{
    let start: usize = if line >= 2 { line - 2 } else { 0 };
    let end: usize = if line + 2 <= lines.len() { line + 2 } else { lines.len() };
    let ghost lv = strs(lines@);
    let mut r: Vec<String> = Vec::new();
    let mut k: usize = start;
    while k < end
        invariant
            start <= k <= end || (k == start && end < start),
            end <= lines@.len(),
            start <= lines@.len(),
            lv == strs(lines@),
            strs(r@) == lv.subrange(start as int, k as int),
        decreases end - k,
    {
        let ghost before = strs(r@);
        r.push(copy_str(lines[k].as_str()));
        assert(strs(r@) =~= before.push(lv[k as int]));
        assert(lv.subrange(start as int, k + 1) =~= lv.subrange(start as int, k as int).push(lv[k as int]));
        k += 1;
    }
    assert(start <= end) by {
        assert(window_ok(lv, line));
    }
    r
}

/// Raise critique `id` on solution `solution_id` (see
/// `create_critique_post`). `lines` are the lines of `file` as it reads
/// now, when it could be read; `author` is who raises it and `user` who is
/// recorded in the log.
pub fn create_critique(
    store: &mut MetadataStore,
    id: &str,
    solution_id: &str,
    title: &str,
    severity: Severity,
    file: Option<&str>,
    line: Option<usize>,
    lines: Option<&Vec<String>>,
    reviewer: Option<&str>,
    author: &str,
    user: &str,
    now: i64,
) -> (r: Result<Event, JjjError>)
    requires
        file is Some && line is Some && lines is Some ==> window_ok(strs(lines.unwrap()@), line.unwrap()),
    ensures
        create_critique_post(
            *old(store),
            id@,
            solution_id@,
            title@,
            severity,
            opt_str_view(file),
            line,
            match lines {
                Some(ls) => Some(strs(ls@)),
                None => None,
            },
            opt_str_view(reviewer),
            author@,
            user@,
            now,
            r,
            *final(store),
        ),
{
    let ghost s0 = *store;
    let si = match store.find_solution(solution_id) {
        Some(k) => k,
        None => return Err(JjjError::SolutionNotFound(copy_str(solution_id))),
    };
    let mut c = Critique::new(id, title, solution_id, severity);
    c.author = Some(copy_str(author));
    c.reviewer = match reviewer {
        Some(rv) => Some(string_of(&strip_leading_exec(&chars_of(rv), '@'))),
        None => None,
    };
    match (file, line) {
        (Some(f), Some(n)) => {
            c.file_path = Some(copy_str(f));
            c.line_start = Some(n);
            match lines {
                Some(ls) => c.code_context = context_window(ls, n),
                None => {},
            }
        },
        _ => {},
    }
    store.critiques.push(c);
    store.solutions[si].critique_ids.push(copy_str(id));
    let e = critique_raised_event(id, solution_id, title, severity, user, now);
    let logged_e = critique_raised_event(id, solution_id, title, severity, user, now);
    store.events.push(logged_e);
    proof {
        let q0 = s0.solutions@[si as int];
        let q1 = store.solutions@[si as int];
        assert(strs(q1.critique_ids@) =~= strs(q0.critique_ids@).push(id@));
        assert(store.critiques@.drop_last() =~= s0.critiques@);
        assert(store.events@.drop_last() =~= s0.events@);
        if file is Some && line is Some && lines is None {
            assert(strs(store.critiques@.last().code_context@) =~= Seq::<Seq<char>>::empty());
        }
    }
    Ok(e)
}

// ───────────────────────── milestones ─────────────────────────

pub open spec fn bad_date_msg(date: Seq<char>) -> Seq<char> {
    "Invalid date format: "@ + date + ". Use YYYY-MM-DD"@
}

/// What `create_milestone` does: a date that is not YYYY-MM-DD is refused
/// and nothing changes; otherwise milestone `id` is appended, in planning,
/// with no problems and the date's midnight (UTC) as its target.
pub open spec fn create_milestone_post(
    s0: MetadataStore,
    id: Seq<char>,
    title: Seq<char>,
    date: Option<Seq<char>>,
    r: Result<(), JjjError>,
    s1: MetadataStore,
) -> bool {
    if date is Some && crate::formats::date_midnight_of(date.unwrap()) is None {
        r matches Err(e) && is_validation(e, bad_date_msg(date.unwrap())) && s1 == s0
    } else {
        let m = s1.milestones@.last();
        &&& r is Ok
        &&& s1.milestones@.len() == s0.milestones@.len() + 1
        &&& s1.milestones@.drop_last() == s0.milestones@
        &&& m.id@ == id
        &&& m.title@ == title
        &&& m.status == crate::models::MilestoneStatus::Planning
        &&& m.problem_ids@.len() == 0
        &&& m.target_date == (match date {
            Some(d) => crate::formats::date_midnight_of(d),
            None => None,
        })
        &&& s1.problems == s0.problems
        &&& s1.solutions == s0.solutions
        &&& s1.critiques == s0.critiques
        &&& s1.events == s0.events
        &&& config_same(s0, s1)
    }
}

/// Create milestone `id` (see `create_milestone_post`).
pub fn create_milestone(store: &mut MetadataStore, id: &str, title: &str, date: Option<&str>) -> (r: Result<(), JjjError>)
    ensures
        create_milestone_post(*old(store), id@, title@, opt_str_view(date), r, *final(store)),
{
    let ghost s0 = *store;
    let target = match date {
        Some(d) => match crate::formats::date_midnight(d) {
            Some(t) => Some(t),
            None => {
                let mut m = chars_of("Invalid date format: ");
                append_chars(&mut m, &chars_of(d));
                append_chars(&mut m, &chars_of(". Use YYYY-MM-DD"));
                assert(m@ =~= bad_date_msg(d@));
                return Err(JjjError::Validation(string_of(&m)));
            },
        },
        None => None,
    };
    let mut m = Milestone::new(id, title);
    m.target_date = target;
    store.milestones.push(m);
    assert(store.milestones@.drop_last() =~= s0.milestones@);
    Ok(())
}


// ───────────────────────── laws ─────────────────────────

/// A problem created under an id no problem had is then what that id finds,
/// with the trimmed title it was given.
pub proof fn law_created_problem_found(
    s0: MetadataStore,
    id: Seq<char>,
    title: Seq<char>,
    priority: Priority,
    context: Option<Seq<char>>,
    tags: Seq<Seq<char>>,
    parent: Option<Seq<char>>,
    milestone: Option<Seq<char>>,
    force: bool,
    user: Seq<char>,
    now: i64,
    r: Result<Event, JjjError>,
    s1: MetadataStore,
)
    requires
        create_problem_post(s0, id, title, priority, context, tags, parent, milestone, force, user, now, r, s1),
        r is Ok,
        !has_problem(s0.problems@, id),
    ensures
        problem_idx(s1.problems@, id) == s0.problems@.len(),
        s1.problems@[problem_idx(s1.problems@, id)].title@ == trim(title),
{
    let t = trim(title);
    let p = s1.problems@.last();
    assert(s1.problems@ =~= s0.problems@.push(p));
    assert(problem_ids(s1.problems@) =~= problem_ids(s0.problems@).push(p.id@));
    lemma_first_index_push(problem_ids(s0.problems@), id, p.id@);
}

/// A solution created under an id no solution had is then what that id
/// finds, and its problem lists it.
pub proof fn law_created_solution_found(
    s0: MetadataStore,
    id: Seq<char>,
    title: Seq<char>,
    problem_id: Seq<char>,
    supersedes: Option<Seq<char>>,
    change_id: Seq<char>,
    reviewers: Seq<Seq<char>>,
    critique_ids: Seq<Seq<char>>,
    user: Seq<char>,
    now: i64,
    r: Result<Event, JjjError>,
    s1: MetadataStore,
)
    requires
        create_solution_post(s0, id, title, problem_id, supersedes, change_id, reviewers, critique_ids, user, now, r, s1),
        r is Ok,
        !has_solution(s0.solutions@, id),
    ensures
        crate::store::solution_idx(s1.solutions@, id) == s0.solutions@.len(),
        strs(s1.problems@[problem_idx(s0.problems@, problem_id)].solution_ids@).contains(id),
{
    let q = s1.solutions@.last();
    assert(s1.solutions@ =~= s0.solutions@.push(q));
    assert(solution_ids(s1.solutions@) =~= solution_ids(s0.solutions@).push(q.id@));
    lemma_first_index_push(solution_ids(s0.solutions@), id, q.id@);
    let pi = problem_idx(s0.problems@, problem_id);
    let ids = strs(s1.problems@[pi].solution_ids@);
    assert(ids[ids.len() - 1] == id);
}

} // verus!
