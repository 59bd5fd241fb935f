//! Lifecycle operations on problems, solutions and critiques.
//!
//! Each operation either refuses (and leaves the store exactly as it was) or
//! applies its status changes, appends its events to the decision log, and
//! returns the events whose automation rules should fire afterwards.

use vstd::prelude::*;
use crate::models::{
    approve_target, critique_next, critique_target, opt_str_to_string, opt_view, plain_event,
    problem_is_open, problem_transition_allowed, problem_transition_ok, submit_target,
    withdraw_target, Critique, CritiqueOp, CritiqueStatus, Event, EventType, Problem, ProblemStatus,
    Solution, SolutionStatus,
};
use crate::store::{
    actor_or_empty, blocking_count, critique_idx, has_critique, has_problem, has_solution,
    problem_idx, solution_idx, solve_check, JjjError, MetadataStore, SolveCheck,
};
use crate::text::{copy_str, chars_of, str_eq, string_of};

verus! {

// ───────────────────────── shared predicates ─────────────────────────

pub open spec fn opt_str_view(o: Option<&str>) -> Option<Seq<char>> {
    match o {
        Some(s) => Some(s@),
        None => None,
    }
}

/// Everything but the problems, solutions and event log is untouched.
pub open spec fn rest_same(s0: MetadataStore, s1: MetadataStore) -> bool {
    &&& s1.critiques == s0.critiques
    &&& s1.milestones == s0.milestones
    &&& s1.user == s0.user
    &&& s1.automation == s0.automation
    &&& s1.local_automation == s0.local_automation
    &&& s1.settings == s0.settings
}

/// The log grew by exactly `n` events, keeping every earlier one.
pub open spec fn log_grew(s0: MetadataStore, s1: MetadataStore, n: nat) -> bool {
    &&& s1.events@.len() == s0.events@.len() + n
    &&& forall|k: int| 0 <= k < s0.events@.len() ==> s1.events@[k] == s0.events@[k]
}

/// The `k`-th event appended after the old log.
pub open spec fn new_event(s0: MetadataStore, s1: MetadataStore, k: int) -> Event {
    s1.events@[s0.events@.len() + k]
}

pub open spec fn with_solution_status(sol: Solution, st: SolutionStatus) -> Solution {
    Solution { status: st, ..sol }
}

pub open spec fn approved(sol: Solution, force: bool) -> Solution {
    Solution { status: SolutionStatus::Approved, force_approved: sol.force_approved || force, ..sol }
}

pub open spec fn with_problem_status(p: Problem, st: ProblemStatus) -> Problem {
    Problem { status: st, ..p }
}

pub open spec fn id_matches(e: &JjjError, id: Seq<char>) -> bool {
    match e {
        JjjError::ProblemNotFound(x) => x@ == id,
        JjjError::SolutionNotFound(x) => x@ == id,
        JjjError::CritiqueNotFound(x) => x@ == id,
        JjjError::MilestoneNotFound(x) => x@ == id,
        JjjError::InvalidTransition(x) => x@ == id,
        JjjError::NotSubmitted { id: x, .. } => x@ == id,
        _ => false,
    }
}

// ───────────────────────── approve ─────────────────────────

/// What approving solution `id` does to store `s0`, yielding `r` and `s1`.
pub open spec fn approve_post(
    s0: MetadataStore,
    id: Seq<char>,
    force: bool,
    rationale: Option<Seq<char>>,
    now: i64,
    r: Result<Vec<Event>, JjjError>,
    s1: MetadataStore,
) -> bool {
    let ss = s0.solutions@;
    if !has_solution(ss, id) {
        r matches Err(e) && e is SolutionNotFound && id_matches(&e, id) && s1 == s0
    } else {
        let i = solution_idx(ss, id);
        let sol = ss[i];
        let pid = sol.problem_id@;
        if sol.status == SolutionStatus::Approved {
            r matches Ok(v) && v@.len() == 0 && s1 == s0
        } else if sol.status != SolutionStatus::Submitted && !force {
            r matches Err(JjjError::NotSubmitted { id: x, title: t, status: st }) && x@ == id && t@ == sol.title@
                && st == sol.status && s1 == s0
        } else if !force && blocking_count(s0.critiques@, id) > 0 {
            r matches Err(JjjError::CannotApproveSolution(n)) && n == blocking_count(
                s0.critiques@,
                id,
            ) && s1 == s0
        } else if approve_target(sol.status, force) is None {
            r matches Err(e) && e is InvalidTransition && id_matches(&e, id) && s1 == s0
        } else if !has_problem(s0.problems@, pid) {
            r matches Err(e) && e is ProblemNotFound && id_matches(&e, pid) && s1 == s0
        } else {
            let ss1 = ss.update(i, approved(sol, force));
            let pi = problem_idx(s0.problems@, pid);
            let p = s0.problems@[pi];
            let solves = solve_check(p.status, ss1, pid) == SolveCheck::Solvable;
            let user = actor_or_empty(s0.user);
            &&& s1.solutions@ == ss1
            &&& s1.problems@ == (if solves {
                s0.problems@.update(pi, with_problem_status(p, ProblemStatus::Solved))
            } else {
                s0.problems@
            })
            &&& rest_same(s0, s1)
            &&& log_grew(s0, s1, if solves { 2 } else { 1 })
            &&& plain_event(new_event(s0, s1, 0), EventType::SolutionApproved, id, user, now)
            &&& opt_view(new_event(s0, s1, 0).rationale) == rationale
            &&& solves ==> plain_event(new_event(s0, s1, 1), EventType::ProblemSolved, pid, user, now)
                && new_event(s0, s1, 1).rationale is None
            &&& r matches Ok(autos) && {
                &&& autos@.len() == (if solves || p.status == ProblemStatus::Solved {
                    2int
                } else {
                    1int
                })
                &&& plain_event(autos@[0], EventType::SolutionApproved, id, user, now)
                &&& autos@.len() == 2 ==> plain_event(
                    autos@[1],
                    EventType::ProblemSolved,
                    pid,
                    user,
                    now,
                )
            }
        }
    }
}

/// Approve a solution: it must be submitted (or `force`d) and free of open or
/// validated critiques (unless `force`d). Approving an approved solution does
/// nothing. If the approval makes its problem solvable, the problem is solved
/// too. Returns the events whose automation should run.
pub fn approve_solution(
    store: &mut MetadataStore,
    solution_id: &str,
    force: bool,
    rationale: Option<&str>,
    now: i64,
) -> (r: Result<Vec<Event>, JjjError>)
    ensures
        approve_post(*old(store), solution_id@, force, opt_str_view(rationale), now, r, *final(store)),
{
    let ghost s0 = *store;
    let i = match store.find_solution(solution_id) {
        Some(i) => i,
        None => return Err(JjjError::SolutionNotFound(copy_str(solution_id))),
    };
    let status = store.solutions[i].status;
    if status == SolutionStatus::Approved {
        return Ok(Vec::new());
    }
    if status != SolutionStatus::Submitted && !force {
        return Err(JjjError::NotSubmitted {
            id: copy_str(solution_id),
            title: copy_str(store.solutions[i].title.as_str()),
            status,
        });
    }
    if !force {
        let n = store.count_blocking_critiques(solution_id);
        if n > 0 {
            return Err(JjjError::CannotApproveSolution(n));
        }
    }
    if !(status == SolutionStatus::Submitted || (force && status == SolutionStatus::Proposed)) {
        return Err(JjjError::InvalidTransition(copy_str(solution_id)));
    }
    let pid = store.solutions[i].problem_id.clone();
    let pi = match store.find_problem(pid.as_str()) {
        Some(p) => p,
        None => return Err(JjjError::ProblemNotFound(pid)),
    };
    let user = store.current_user_or_default();
    let ghost sol = s0.solutions@[i as int];
    store.solutions[i].status = SolutionStatus::Approved;
    if force {
        store.solutions[i].force_approved = true;
    }
    assert(store.solutions@ =~= s0.solutions@.update(i as int, approved(sol, force)));
    let mut ev = Event::new(EventType::SolutionApproved, solution_id, user.as_str(), now);
    ev.rationale = opt_str_to_string(rationale);
    store.events.push(ev);
    let mut autos: Vec<Event> = Vec::new();
    autos.push(Event::new(EventType::SolutionApproved, solution_id, user.as_str(), now));
    let check = store.solve_check_at(pi);
    if check == SolveCheck::Solvable {
        store.problems[pi].status = ProblemStatus::Solved;
        store.events.push(Event::new(EventType::ProblemSolved, pid.as_str(), user.as_str(), now));
    }
    if store.problems[pi].status == ProblemStatus::Solved {
        autos.push(Event::new(EventType::ProblemSolved, pid.as_str(), user.as_str(), now));
    }
    proof {
        let p = s0.problems@[pi as int];
        if check == SolveCheck::Solvable {
            assert(store.problems@ =~= s0.problems@.update(
                pi as int,
                with_problem_status(p, ProblemStatus::Solved),
            ));
        } else {
            assert(store.problems@ =~= s0.problems@);
        }
    }
    Ok(autos)
}

// ───────────────────────── submit ─────────────────────────

pub open spec fn submit_post(
    s0: MetadataStore,
    id: Seq<char>,
    now: i64,
    r: Result<Vec<Event>, JjjError>,
    s1: MetadataStore,
) -> bool {
    let ss = s0.solutions@;
    if !has_solution(ss, id) {
        r matches Err(e) && e is SolutionNotFound && id_matches(&e, id) && s1 == s0
    } else {
        let i = solution_idx(ss, id);
        let sol = ss[i];
        let pid = sol.problem_id@;
        if submit_target(sol.status) is None {
            r matches Err(e) && e is InvalidTransition && id_matches(&e, id) && s1 == s0
        } else if !has_problem(s0.problems@, pid) {
            r matches Err(e) && e is ProblemNotFound && id_matches(&e, pid) && s1 == s0
        } else {
            let pi = problem_idx(s0.problems@, pid);
            let p = s0.problems@[pi];
            let user = actor_or_empty(s0.user);
            let ev = new_event(s0, s1, 0);
            &&& s1.solutions@ == ss.update(i, with_solution_status(sol, SolutionStatus::Submitted))
            &&& s1.problems@ == (if p.status == ProblemStatus::Open {
                s0.problems@.update(pi, with_problem_status(p, ProblemStatus::InProgress))
            } else {
                s0.problems@
            })
            &&& rest_same(s0, s1)
            &&& log_grew(s0, s1, 1)
            &&& ev.event_type == EventType::SolutionSubmitted && ev.entity@ == id && ev.by@ == user
                && ev.when == now && ev.rationale is None && ev.refs@.len() == 0
            &&& opt_view(ev.extra.problem) == Some(pid) && ev.extra.supersedes is None
                && ev.extra.title is None && ev.extra.github_number is None && ev.extra.target is None
            &&& r matches Ok(autos) && autos@.len() == 1 && plain_event(
                autos@[0],
                EventType::SolutionSubmitted,
                id,
                user,
                now,
            )
        }
    }
}

/// Submit a proposed solution for review; an open problem it addresses moves
/// to in-progress.
pub fn submit_solution(store: &mut MetadataStore, solution_id: &str, now: i64) -> (r: Result<
    Vec<Event>,
    JjjError,
>)
    ensures
        submit_post(*old(store), solution_id@, now, r, *final(store)),
{
    let ghost s0 = *store;
    let user = store.current_user_or_default();
    let i = match store.find_solution(solution_id) {
        Some(i) => i,
        None => return Err(JjjError::SolutionNotFound(copy_str(solution_id))),
    };
    if store.solutions[i].status != SolutionStatus::Proposed {
        return Err(JjjError::InvalidTransition(copy_str(solution_id)));
    }
    let pid = store.solutions[i].problem_id.clone();
    let pi = match store.find_problem(pid.as_str()) {
        Some(p) => p,
        None => return Err(JjjError::ProblemNotFound(pid)),
    };
    store.solutions[i].status = SolutionStatus::Submitted;
    assert(store.solutions@ =~= s0.solutions@.update(
        i as int,
        with_solution_status(s0.solutions@[i as int], SolutionStatus::Submitted),
    ));
    let mut ev = Event::new(EventType::SolutionSubmitted, solution_id, user.as_str(), now);
    ev.extra.problem = Some(pid.clone());
    store.events.push(ev);
    if store.problems[pi].status == ProblemStatus::Open {
        store.problems[pi].status = ProblemStatus::InProgress;
        assert(store.problems@ =~= s0.problems@.update(
            pi as int,
            with_problem_status(s0.problems@[pi as int], ProblemStatus::InProgress),
        ));
    }
    let mut autos: Vec<Event> = Vec::new();
    autos.push(Event::new(EventType::SolutionSubmitted, solution_id, user.as_str(), now));
    Ok(autos)
}

// ───────────────────────── withdraw ─────────────────────────

pub open spec fn withdraw_post(
    s0: MetadataStore,
    id: Seq<char>,
    rationale: Option<Seq<char>>,
    now: i64,
    r: Result<Vec<Event>, JjjError>,
    s1: MetadataStore,
) -> bool {
    let ss = s0.solutions@;
    if !has_solution(ss, id) {
        r matches Err(e) && e is SolutionNotFound && id_matches(&e, id) && s1 == s0
    } else {
        let i = solution_idx(ss, id);
        let sol = ss[i];
        if withdraw_target(sol.status) is None {
            r matches Err(e) && e is InvalidTransition && id_matches(&e, id) && s1 == s0
        } else {
            let user = actor_or_empty(s0.user);
            &&& s1.solutions@ == ss.update(i, with_solution_status(sol, SolutionStatus::Withdrawn))
            &&& s1.problems == s0.problems
            &&& rest_same(s0, s1)
            &&& log_grew(s0, s1, 1)
            &&& plain_event(new_event(s0, s1, 0), EventType::SolutionWithdrawn, id, user, now)
            &&& opt_view(new_event(s0, s1, 0).rationale) == rationale
            &&& r matches Ok(autos) && autos@.len() == 1 && plain_event(
                autos@[0],
                EventType::SolutionWithdrawn,
                id,
                user,
                now,
            )
        }
    }
}

/// Withdraw a solution that is still proposed or under review.
pub fn withdraw_solution(
    store: &mut MetadataStore,
    solution_id: &str,
    rationale: Option<&str>,
    now: i64,
) -> (r: Result<Vec<Event>, JjjError>)
    ensures
        withdraw_post(*old(store), solution_id@, opt_str_view(rationale), now, r, *final(store)),
{
    let ghost s0 = *store;
    let user = store.current_user_or_default();
    let i = match store.find_solution(solution_id) {
        Some(i) => i,
        None => return Err(JjjError::SolutionNotFound(copy_str(solution_id))),
    };
    let st = store.solutions[i].status;
    if !(st == SolutionStatus::Proposed || st == SolutionStatus::Submitted) {
        return Err(JjjError::InvalidTransition(copy_str(solution_id)));
    }
    store.solutions[i].status = SolutionStatus::Withdrawn;
    assert(store.solutions@ =~= s0.solutions@.update(
        i as int,
        with_solution_status(s0.solutions@[i as int], SolutionStatus::Withdrawn),
    ));
    let mut ev = Event::new(EventType::SolutionWithdrawn, solution_id, user.as_str(), now);
    ev.rationale = opt_str_to_string(rationale);
    store.events.push(ev);
    let mut autos: Vec<Event> = Vec::new();
    autos.push(Event::new(EventType::SolutionWithdrawn, solution_id, user.as_str(), now));
    Ok(autos)
}

// ───────────────────────── problems ─────────────────────────

pub open spec fn solve_post(
    s0: MetadataStore,
    id: Seq<char>,
    now: i64,
    r: Result<Vec<Event>, JjjError>,
    s1: MetadataStore,
) -> bool {
    let ps = s0.problems@;
    if !has_problem(ps, id) {
        r matches Err(e) && e is ProblemNotFound && id_matches(&e, id) && s1 == s0
    } else {
        let pi = problem_idx(ps, id);
        let p = ps[pi];
        let check = solve_check(p.status, s0.solutions@, id);
        if check == SolveCheck::AlreadySolved {
            r matches Ok(v) && v@.len() == 0 && s1 == s0
        } else if check != SolveCheck::Solvable {
            r matches Err(JjjError::CannotSolveProblem(c)) && c == check && s1 == s0
        } else if s0.user is None {
            r matches Err(JjjError::UnknownUser) && s1 == s0
        } else {
            let user = actor_or_empty(s0.user);
            &&& s1.problems@ == ps.update(pi, with_problem_status(p, ProblemStatus::Solved))
            &&& s1.solutions == s0.solutions
            &&& rest_same(s0, s1)
            &&& log_grew(s0, s1, 1)
            &&& plain_event(new_event(s0, s1, 0), EventType::ProblemSolved, id, user, now)
            &&& new_event(s0, s1, 0).rationale is None
            &&& r matches Ok(autos) && autos@.len() == 1 && plain_event(
                autos@[0],
                EventType::ProblemSolved,
                id,
                user,
                now,
            )
        }
    }
}

/// Mark a problem solved; it needs an approved solution. Solving a solved
/// problem does nothing.
pub fn solve_problem(store: &mut MetadataStore, problem_id: &str, now: i64) -> (r: Result<
    Vec<Event>,
    JjjError,
>)
    ensures
        solve_post(*old(store), problem_id@, now, r, *final(store)),
{
    let ghost s0 = *store;
    let pi = match store.find_problem(problem_id) {
        Some(p) => p,
        None => return Err(JjjError::ProblemNotFound(copy_str(problem_id))),
    };
    let check = store.solve_check_at(pi);
    if check == SolveCheck::AlreadySolved {
        return Ok(Vec::new());
    }
    if check != SolveCheck::Solvable {
        return Err(JjjError::CannotSolveProblem(check));
    }
    let user = match &store.user {
        Some(u) => u.clone(),
        None => return Err(JjjError::UnknownUser),
    };
    store.problems[pi].status = ProblemStatus::Solved;
    assert(store.problems@ =~= s0.problems@.update(
        pi as int,
        with_problem_status(s0.problems@[pi as int], ProblemStatus::Solved),
    ));
    store.events.push(Event::new(EventType::ProblemSolved, problem_id, user.as_str(), now));
    let mut autos: Vec<Event> = Vec::new();
    autos.push(Event::new(EventType::ProblemSolved, problem_id, user.as_str(), now));
    Ok(autos)
}

pub open spec fn dissolve_post(
    s0: MetadataStore,
    id: Seq<char>,
    reason: Option<Seq<char>>,
    now: i64,
    r: Result<Vec<Event>, JjjError>,
    s1: MetadataStore,
) -> bool {
    let ps = s0.problems@;
    if s0.user is None {
        r matches Err(JjjError::UnknownUser) && s1 == s0
    } else if !has_problem(ps, id) {
        r matches Err(e) && e is ProblemNotFound && id_matches(&e, id) && s1 == s0
    } else {
        let pi = problem_idx(ps, id);
        let p = ps[pi];
        if reason is None && !problem_transition_ok(p.status, ProblemStatus::Dissolved) {
            r matches Err(e) && e is InvalidTransition && id_matches(&e, id) && s1 == s0
        } else {
            let user = actor_or_empty(s0.user);
            let q = s1.problems@[pi];
            &&& s1.problems@.len() == ps.len()
            &&& forall|k: int| 0 <= k < ps.len() && k != pi ==> s1.problems@[k] == ps[k]
            &&& q.status == ProblemStatus::Dissolved
            &&& (if reason is Some {
                opt_view(q.dissolved_reason) == reason
            } else {
                q.dissolved_reason == p.dissolved_reason
            })
            &&& q == (Problem {
                status: ProblemStatus::Dissolved,
                dissolved_reason: q.dissolved_reason,
                ..p
            })
            &&& s1.solutions == s0.solutions
            &&& rest_same(s0, s1)
            &&& log_grew(s0, s1, 1)
            &&& plain_event(new_event(s0, s1, 0), EventType::ProblemDissolved, id, user, now)
            &&& opt_view(new_event(s0, s1, 0).rationale) == reason
            &&& r matches Ok(autos) && autos@.len() == 1 && plain_event(
                autos@[0],
                EventType::ProblemDissolved,
                id,
                user,
                now,
            )
        }
    }
}

/// Dissolve a problem (it rested on a false premise). Given a reason, the
/// reason is recorded and the problem dissolves from any status; without one,
/// only an open or in-progress problem may be dissolved.
pub fn dissolve_problem(
    store: &mut MetadataStore,
    problem_id: &str,
    reason: Option<&str>,
    now: i64,
) -> (r: Result<Vec<Event>, JjjError>)
    ensures
        dissolve_post(*old(store), problem_id@, opt_str_view(reason), now, r, *final(store)),
{
    let ghost s0 = *store;
    let user = match &store.user {
        Some(u) => u.clone(),
        None => return Err(JjjError::UnknownUser),
    };
    let pi = match store.find_problem(problem_id) {
        Some(p) => p,
        None => return Err(JjjError::ProblemNotFound(copy_str(problem_id))),
    };
    match reason {
        Some(text) => {
            store.problems[pi].status = ProblemStatus::Dissolved;
            store.problems[pi].dissolved_reason = Some(copy_str(text));
        },
        None => {
            if !problem_transition_allowed(store.problems[pi].status, ProblemStatus::Dissolved) {
                return Err(JjjError::InvalidTransition(copy_str(problem_id)));
            }
            store.problems[pi].status = ProblemStatus::Dissolved;
        },
    }
    let mut ev = Event::new(EventType::ProblemDissolved, problem_id, user.as_str(), now);
    ev.rationale = opt_str_to_string(reason);
    store.events.push(ev);
    let mut autos: Vec<Event> = Vec::new();
    autos.push(Event::new(EventType::ProblemDissolved, problem_id, user.as_str(), now));
    Ok(autos)
}

pub open spec fn reopen_post(
    s0: MetadataStore,
    id: Seq<char>,
    now: i64,
    r: Result<Vec<Event>, JjjError>,
    s1: MetadataStore,
) -> bool {
    let ps = s0.problems@;
    if s0.user is None {
        r matches Err(JjjError::UnknownUser) && s1 == s0
    } else if !has_problem(ps, id) {
        r matches Err(e) && e is ProblemNotFound && id_matches(&e, id) && s1 == s0
    } else {
        let pi = problem_idx(ps, id);
        let p = ps[pi];
        if !problem_transition_ok(p.status, ProblemStatus::Open) {
            r matches Err(e) && e is InvalidTransition && id_matches(&e, id) && s1 == s0
        } else {
            let user = actor_or_empty(s0.user);
            &&& s1.problems@ == ps.update(pi, with_problem_status(p, ProblemStatus::Open))
            &&& s1.solutions == s0.solutions
            &&& rest_same(s0, s1)
            &&& log_grew(s0, s1, 1)
            &&& plain_event(new_event(s0, s1, 0), EventType::ProblemReopened, id, user, now)
            &&& new_event(s0, s1, 0).rationale is None
            &&& r matches Ok(autos) && autos@.len() == 1 && plain_event(
                autos@[0],
                EventType::ProblemReopened,
                id,
                user,
                now,
            )
        }
    }
}

/// Reopen a problem that is no longer open (solved, dissolved, or in progress).
pub fn reopen_problem(store: &mut MetadataStore, problem_id: &str, now: i64) -> (r: Result<
    Vec<Event>,
    JjjError,
>)
    ensures
        reopen_post(*old(store), problem_id@, now, r, *final(store)),
{
    let ghost s0 = *store;
    let user = match &store.user {
        Some(u) => u.clone(),
        None => return Err(JjjError::UnknownUser),
    };
    let pi = match store.find_problem(problem_id) {
        Some(p) => p,
        None => return Err(JjjError::ProblemNotFound(copy_str(problem_id))),
    };
    if !problem_transition_allowed(store.problems[pi].status, ProblemStatus::Open) {
        return Err(JjjError::InvalidTransition(copy_str(problem_id)));
    }
    store.problems[pi].status = ProblemStatus::Open;
    assert(store.problems@ =~= s0.problems@.update(
        pi as int,
        with_problem_status(s0.problems@[pi as int], ProblemStatus::Open),
    ));
    store.events.push(Event::new(EventType::ProblemReopened, problem_id, user.as_str(), now));
    let mut autos: Vec<Event> = Vec::new();
    autos.push(Event::new(EventType::ProblemReopened, problem_id, user.as_str(), now));
    Ok(autos)
}

// ───────────────────────── critiques ─────────────────────────

pub open spec fn critique_event(op: CritiqueOp) -> EventType {
    match op {
        CritiqueOp::Address => EventType::CritiqueAddressed,
        CritiqueOp::Validate => EventType::CritiqueValidated,
        CritiqueOp::Dismiss => EventType::CritiqueDismissed,
    }
}

pub open spec fn critique_post(
    s0: MetadataStore,
    id: Seq<char>,
    op: CritiqueOp,
    now: i64,
    r: Result<(), JjjError>,
    s1: MetadataStore,
) -> bool {
    let cs = s0.critiques@;
    if !has_critique(cs, id) {
        r matches Err(e) && e is CritiqueNotFound && id_matches(&e, id) && s1 == s0
    } else {
        let ci = critique_idx(cs, id);
        let c = cs[ci];
        match critique_target(c.status, op) {
            None => r matches Err(e) && e is InvalidTransition && id_matches(&e, id) && s1 == s0,
            Some(st) => {
                &&& r is Ok
                &&& s1.critiques@ == cs.update(ci, Critique { status: st, ..c })
                &&& s1.problems == s0.problems
                &&& s1.solutions == s0.solutions
                &&& s1.milestones == s0.milestones
                &&& s1.user == s0.user
                &&& s1.automation == s0.automation
                &&& s1.local_automation == s0.local_automation
                &&& s1.settings == s0.settings
                &&& log_grew(s0, s1, 1)
                &&& plain_event(
                    new_event(s0, s1, 0),
                    critique_event(op),
                    id,
                    actor_or_empty(s0.user),
                    now,
                )
                &&& new_event(s0, s1, 0).rationale is None
            },
        }
    }
}

fn apply_critique_op(store: &mut MetadataStore, critique_id: &str, op: CritiqueOp, now: i64) -> (r:
    Result<(), JjjError>)
    ensures
        critique_post(*old(store), critique_id@, op, now, r, *final(store)),
{
    let ghost s0 = *store;
    let user = store.current_user_or_default();
    let ci = match store.find_critique(critique_id) {
        Some(c) => c,
        None => return Err(JjjError::CritiqueNotFound(copy_str(critique_id))),
    };
    let st = match critique_next(store.critiques[ci].status, op) {
        Some(st) => st,
        None => return Err(JjjError::InvalidTransition(copy_str(critique_id))),
    };
    store.critiques[ci].status = st;
    assert(store.critiques@ =~= s0.critiques@.update(
        ci as int,
        Critique { status: st, ..s0.critiques@[ci as int] },
    ));
    let t = match op {
        CritiqueOp::Address => EventType::CritiqueAddressed,
        CritiqueOp::Validate => EventType::CritiqueValidated,
        CritiqueOp::Dismiss => EventType::CritiqueDismissed,
    };
    store.events.push(Event::new(t, critique_id, user.as_str(), now));
    Ok(())
}

/// Mark an open or validated critique as addressed.
pub fn address_critique(store: &mut MetadataStore, critique_id: &str, now: i64) -> (r: Result<
    (),
    JjjError,
>)
    ensures
        critique_post(*old(store), critique_id@, CritiqueOp::Address, now, r, *final(store)),
{
    apply_critique_op(store, critique_id, CritiqueOp::Address, now)
}

/// Confirm that an open critique is correct.
pub fn validate_critique(store: &mut MetadataStore, critique_id: &str, now: i64) -> (r: Result<
    (),
    JjjError,
>)
    ensures
        critique_post(*old(store), critique_id@, CritiqueOp::Validate, now, r, *final(store)),
{
    apply_critique_op(store, critique_id, CritiqueOp::Validate, now)
}

/// Dismiss an open or validated critique as incorrect or irrelevant.
pub fn dismiss_critique(store: &mut MetadataStore, critique_id: &str, now: i64) -> (r: Result<
    (),
    JjjError,
>)
    ensures
        critique_post(*old(store), critique_id@, CritiqueOp::Dismiss, now, r, *final(store)),
{
    apply_critique_op(store, critique_id, CritiqueOp::Dismiss, now)
}

} // verus!

verus! {

// ───────────────────────── laws ─────────────────────────

proof fn lemma_ids_update_solution(ss: Seq<Solution>, i: int, x: Solution)
    requires
        0 <= i < ss.len(),
        x.id@ == ss[i].id@,
    ensures
        crate::store::solution_ids(ss.update(i, x)) == crate::store::solution_ids(ss),
{
    assert(crate::store::solution_ids(ss.update(i, x)) =~= crate::store::solution_ids(ss));
}

proof fn lemma_ids_update_problem(ps: Seq<Problem>, i: int, x: Problem)
    requires
        0 <= i < ps.len(),
        x.id@ == ps[i].id@,
    ensures
        crate::store::problem_ids(ps.update(i, x)) == crate::store::problem_ids(ps),
{
    assert(crate::store::problem_ids(ps.update(i, x)) =~= crate::store::problem_ids(ps));
}

/// Approval is idempotent: once a solution has been approved, approving it
/// again (forced or not) succeeds with no effect and fires no automation.
pub proof fn law_approve_idempotent(
    s0: MetadataStore,
    s1: MetadataStore,
    s2: MetadataStore,
    id: Seq<char>,
    force1: bool,
    force2: bool,
    rat1: Option<Seq<char>>,
    rat2: Option<Seq<char>>,
    now1: i64,
    now2: i64,
    r1: Result<Vec<Event>, JjjError>,
    r2: Result<Vec<Event>, JjjError>,
)
    requires
        approve_post(s0, id, force1, rat1, now1, r1, s1),
        r1 is Ok,
        approve_post(s1, id, force2, rat2, now2, r2, s2),
    ensures
        s2 == s1,
        r2 matches Ok(v) && v@.len() == 0,
{
    crate::store::lemma_first_index(crate::store::solution_ids(s0.solutions@), id);
    let i = solution_idx(s0.solutions@, id);
    if s1 != s0 {
        let sol = s0.solutions@[i];
        lemma_ids_update_solution(s0.solutions@, i, approved(sol, force1));
        assert(s1.solutions@[i] == approved(sol, force1));
    }
}

/// Without `force`, a solution is never approved while an open or validated
/// critique stands against it.
pub proof fn law_no_approval_over_open_critiques(
    s0: MetadataStore,
    s1: MetadataStore,
    id: Seq<char>,
    rat: Option<Seq<char>>,
    now: i64,
    r: Result<Vec<Event>, JjjError>,
)
    requires
        approve_post(s0, id, false, rat, now, r, s1),
        blocking_count(s0.critiques@, id) > 0,
    ensures
        s1.solutions == s0.solutions,
        s1 == s0,
{
}

/// An open or a validated critique of a submitted solution blocks its
/// approval: without `force` the approval is refused, naming at least one
/// blocking critique, and nothing changes.
pub proof fn law_open_or_valid_critique_blocks(
    s0: MetadataStore,
    s1: MetadataStore,
    id: Seq<char>,
    rat: Option<Seq<char>>,
    now: i64,
    r: Result<Vec<Event>, JjjError>,
    k: int,
)
    requires
        approve_post(s0, id, false, rat, now, r, s1),
        has_solution(s0.solutions@, id),
        s0.solutions@[solution_idx(s0.solutions@, id)].status == SolutionStatus::Submitted,
        0 <= k < s0.critiques@.len(),
        s0.critiques@[k].solution_id@ == id,
        s0.critiques@[k].status == CritiqueStatus::Open || s0.critiques@[k].status == CritiqueStatus::Valid,
    ensures
        r matches Err(JjjError::CannotApproveSolution(n)) && n >= 1,
        s1 == s0,
{
    crate::store::lemma_standing_critique_counted(s0.critiques@, id, k);
}

/// Approving a submitted solution of an open or in-progress problem, with no
/// critique standing against it, approves the solution and solves the problem.
pub proof fn law_approval_solves_problem(
    s0: MetadataStore,
    s1: MetadataStore,
    id: Seq<char>,
    force: bool,
    rat: Option<Seq<char>>,
    now: i64,
    r: Result<Vec<Event>, JjjError>,
)
    requires
        approve_post(s0, id, force, rat, now, r, s1),
        has_solution(s0.solutions@, id),
        s0.solutions@[solution_idx(s0.solutions@, id)].status == SolutionStatus::Submitted,
        blocking_count(s0.critiques@, id) == 0,
        has_problem(
            s0.problems@,
            s0.solutions@[solution_idx(s0.solutions@, id)].problem_id@,
        ),
        problem_is_open(
            s0.problems@[problem_idx(
                s0.problems@,
                s0.solutions@[solution_idx(s0.solutions@, id)].problem_id@,
            )].status,
        ),
    ensures
        r is Ok,
        s1.solutions@[solution_idx(s0.solutions@, id)].status == SolutionStatus::Approved,
        s1.problems@[problem_idx(
            s0.problems@,
            s0.solutions@[solution_idx(s0.solutions@, id)].problem_id@,
        )].status == ProblemStatus::Solved,
{
    let ss = s0.solutions@;
    crate::store::lemma_first_index(crate::store::solution_ids(ss), id);
    let i = solution_idx(ss, id);
    let sol = ss[i];
    let pid = sol.problem_id@;
    let ss1 = ss.update(i, approved(sol, force));
    crate::store::lemma_first_index(crate::store::problem_ids(s0.problems@), pid);
    assert(ss1[i].problem_id@ == pid && ss1[i].status == SolutionStatus::Approved);
    assert(crate::store::has_approved_solution(ss1, pid));
}

/// A solved problem can always be reopened: after a successful solve, reopen
/// (by a known user) succeeds and the problem is open again.
pub proof fn law_solve_then_reopen(
    s0: MetadataStore,
    s1: MetadataStore,
    s2: MetadataStore,
    id: Seq<char>,
    now1: i64,
    now2: i64,
    r1: Result<Vec<Event>, JjjError>,
    r2: Result<Vec<Event>, JjjError>,
)
    requires
        solve_post(s0, id, now1, r1, s1),
        r1 is Ok,
        reopen_post(s1, id, now2, r2, s2),
        s1.user is Some,
    ensures
        r2 is Ok,
        s2.problems@[problem_idx(s0.problems@, id)].status == ProblemStatus::Open,
{
    crate::store::lemma_first_index(crate::store::problem_ids(s0.problems@), id);
    let pi = problem_idx(s0.problems@, id);
    let p = s0.problems@[pi];
    if s1 != s0 {
        lemma_ids_update_problem(s0.problems@, pi, with_problem_status(p, ProblemStatus::Solved));
    }
}

/// The decision log only grows: any lifecycle operation keeps every event
/// that was already recorded, whether it succeeds or is refused.
pub proof fn law_log_is_append_only(
    s0: MetadataStore,
    s1: MetadataStore,
    id: Seq<char>,
    force: bool,
    rat: Option<Seq<char>>,
    now: i64,
    r: Result<Vec<Event>, JjjError>,
    rc: Result<(), JjjError>,
    op: CritiqueOp,
)
    requires
        approve_post(s0, id, force, rat, now, r, s1) || submit_post(s0, id, now, r, s1)
            || withdraw_post(s0, id, rat, now, r, s1) || solve_post(s0, id, now, r, s1)
            || dissolve_post(s0, id, rat, now, r, s1) || reopen_post(s0, id, now, r, s1)
            || critique_post(s0, id, op, now, rc, s1),
    ensures
        s1.events@.len() >= s0.events@.len(),
        forall|k: int| 0 <= k < s0.events@.len() ==> s1.events@[k] == s0.events@[k],
{
}

/// A refused operation changes nothing.
pub proof fn law_refusal_changes_nothing(
    s0: MetadataStore,
    s1: MetadataStore,
    id: Seq<char>,
    force: bool,
    rat: Option<Seq<char>>,
    now: i64,
    r: Result<Vec<Event>, JjjError>,
    rc: Result<(), JjjError>,
    op: CritiqueOp,
)
    requires
        (r is Err && (approve_post(s0, id, force, rat, now, r, s1) || submit_post(
            s0,
            id,
            now,
            r,
            s1,
        ) || withdraw_post(s0, id, rat, now, r, s1) || solve_post(s0, id, now, r, s1)
            || dissolve_post(s0, id, rat, now, r, s1) || reopen_post(s0, id, now, r, s1))) || (
        rc is Err && critique_post(s0, id, op, now, rc, s1)),
    ensures
        s1 == s0,
{
}

// ───────────────────────── ready to approve ─────────────────────────

/// Critiques of solution `sid`, and those of them still open.
pub open spec fn critiques_of(cs: Seq<Critique>, sid: Seq<char>) -> nat {
    cs.filter(|c: Critique| c.solution_id@ == sid).len()
}

pub open spec fn open_critiques_of(cs: Seq<Critique>, sid: Seq<char>) -> nat {
    cs.filter(|c: Critique| c.solution_id@ == sid && c.status == CritiqueStatus::Open).len()
}

/// A submitted solution of `user` whose critiques (there is at least one)
/// are all dealt with is offered for approval after a push.
pub open spec fn approval_candidate(s: Solution, cs: Seq<Critique>, user: Seq<char>) -> bool {
    &&& s.status == SolutionStatus::Submitted
    &&& opt_view(s.assignee) == Some(user)
    &&& critiques_of(cs, s.id@) > 0
    &&& open_critiques_of(cs, s.id@) == 0
}

fn critique_counts(cs: &Vec<Critique>, sid: &str) -> (r: (usize, usize))
    ensures
        r.0 == critiques_of(cs@, sid@),
        r.1 == open_critiques_of(cs@, sid@),
{
    let ghost pa = |c: Critique| c.solution_id@ == sid@;
    let ghost po = |c: Critique| c.solution_id@ == sid@ && c.status == CritiqueStatus::Open;
    let mut all: usize = 0;
    let mut open: usize = 0;
    let mut i: usize = 0;
    while i < cs.len()
        invariant
            i <= cs.len(),
            pa == (|c: Critique| c.solution_id@ == sid@),
            po == (|c: Critique| c.solution_id@ == sid@ && c.status == CritiqueStatus::Open),
            all == cs@.take(i as int).filter(pa).len(),
            open == cs@.take(i as int).filter(po).len(),
            open <= all <= i,
        decreases cs.len() - i,
    {
        proof {
            reveal(Seq::filter);
            assert(cs@.take(i + 1).drop_last() =~= cs@.take(i as int));
        }
        if str_eq(cs[i].solution_id.as_str(), sid) {
            all += 1;
            if cs[i].status == CritiqueStatus::Open {
                open += 1;
            }
        }
        i += 1;
    }
    assert(cs@.take(i as int) =~= cs@);
    (all, open)
}

/// The solutions to offer `user` for approval (see `approval_candidate`),
/// as positions in list order.
pub fn approval_candidates(store: &MetadataStore, user: &str) -> (r: Vec<usize>)
    ensures
        r@.map_values(|k: usize| k as int) == Seq::new(store.solutions@.len(), |i: int| i).filter(
            |i: int| approval_candidate(store.solutions@[i], store.critiques@, user@),
        ),
{
    let ghost ss = store.solutions@;
    let ghost pred = |i: int| approval_candidate(ss[i], store.critiques@, user@);
    let mut r: Vec<usize> = Vec::new();
    let mut i: usize = 0;
    while i < store.solutions.len()
        invariant
            i <= store.solutions.len(),
            ss == store.solutions@,
            pred == (|i: int| approval_candidate(ss[i], store.critiques@, user@)),
            r@.map_values(|k: usize| k as int) == Seq::new(i as nat, |j: int| j).filter(pred),
        decreases store.solutions.len() - i,
    {
        let ghost prev = Seq::new(i as nat, |j: int| j).filter(pred);
        proof {
            reveal(Seq::filter);
            assert(Seq::new((i + 1) as nat, |j: int| j).drop_last() =~= Seq::new(i as nat, |j: int| j));
        }
        let s = &store.solutions[i];
        let mine = match &s.assignee {
            Some(a) => str_eq(a.as_str(), user),
            None => false,
        };
        let mut take = false;
        if s.status == SolutionStatus::Submitted && mine {
            let (all, open) = critique_counts(&store.critiques, s.id.as_str());
            take = all > 0 && open == 0;
        }
        if take {
            r.push(i);
            assert(r@.map_values(|k: usize| k as int) =~= prev.push(i as int));
            assert(Seq::new((i + 1) as nat, |j: int| j).filter(pred) =~= prev.push(i as int));
        } else {
            assert(Seq::new((i + 1) as nat, |j: int| j).filter(pred) =~= prev);
        }
        i += 1;
    }
    assert(Seq::new(i as nat, |j: int| j) =~= Seq::new(ss.len(), |i: int| i));
    r
}

} // verus!
