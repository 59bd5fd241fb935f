//! The decisions of a GitHub sync: which reviews and inline comments become
//! critiques, how an issue's open/closed state follows its problem, and the
//! events a sync records. Talking to GitHub itself is left to the caller.

use vstd::prelude::*;
use crate::models::{opt_view, Critique, Event, EventType, Problem, ProblemStatus, Solution};
use crate::display::short_id;
use crate::parsing::{parse_issue_number, strip_leading};
use crate::store::JjjError;
use crate::text::{
    append_chars, chars_eq, chars_of, decimal, parse_u64_spec, push_decimal, string_of, trim,
    trim_chars,
};

verus! {

// ───────────────────────── reviews ─────────────────────────

/// The state of a pull-request review, as GitHub reports it.
#[derive(Debug, Clone, Copy, PartialEq, Eq, Structural)]
pub enum ReviewState {
    Approved,
    ChangesRequested,
    Commented,
    Dismissed,
}

/// The GitHub ids already imported as critiques of solution `sid`.
pub open spec fn imported_ids(cs: Seq<Critique>, sid: Seq<char>) -> Seq<u64> {
    cs.filter(|c: Critique| c.solution_id@ == sid && c.github_review_id is Some).map_values(
        |c: Critique| c.github_review_id->0,
    )
}

/// The ids of the GitHub reviews and comments already imported as critiques
/// of solution `sid`, in list order.
pub fn imported_review_ids(critiques: &Vec<Critique>, sid: &str) -> (r: Vec<u64>)
    ensures
        r@ == imported_ids(critiques@, sid@),
{
    let ghost pred = |c: Critique| c.solution_id@ == sid@ && c.github_review_id is Some;
    let mut r: Vec<u64> = Vec::new();
    let mut i: usize = 0;
    while i < critiques.len()
        invariant
            i <= critiques.len(),
            pred == (|c: Critique| c.solution_id@ == sid@ && c.github_review_id is Some),
            r@ == critiques@.take(i as int).filter(pred).map_values(|c: Critique| c.github_review_id->0),
        decreases critiques.len() - i,
    {
        proof {
            reveal(Seq::filter);
            assert(critiques@.take(i + 1).drop_last() =~= critiques@.take(i as int));
        }
        let c = &critiques[i];
        if crate::text::str_eq(c.solution_id.as_str(), sid) {
            if let Some(id) = c.github_review_id {
                let ghost before = r@;
                r.push(id);
                assert(r@ =~= critiques@.take(i + 1).filter(pred).map_values(
                    |c: Critique| c.github_review_id->0,
                )) by {
                    assert(critiques@.take(i + 1).filter(pred) =~= critiques@.take(i as int).filter(
                        pred,
                    ).push(critiques@[i as int]));
                }
            }
        }
        i += 1;
    }
    assert(critiques@.take(i as int) =~= critiques@);
    r
}

/// A top-level review is imported unless it already was, it is an approval
/// while approvals are not synced, or it is a comment with an empty body.
pub open spec fn review_wanted_spec(
    id: u64,
    state: ReviewState,
    body: Seq<char>,
    existing: Seq<u64>,
    sync_lgtm: bool,
) -> bool {
    &&& !existing.contains(id)
    &&& !(state == ReviewState::Approved && !sync_lgtm)
    &&& !(state == ReviewState::Commented && body.len() == 0)
}

fn contains_id(v: &Vec<u64>, id: u64) -> (b: bool)
    ensures
        b == v@.contains(id),
{
    let mut i: usize = 0;
    while i < v.len()
        invariant
            i <= v.len(),
            forall|j: int| 0 <= j < i ==> v@[j] != id,
        decreases v.len() - i,
    {
        if v[i] == id {
            assert(v@[i as int] == id);
            return true;
        }
        i += 1;
    }
    false
}

/// Whether a pull-request review should become a critique.
pub fn review_wanted(id: u64, state: ReviewState, body: &str, existing: &Vec<u64>, sync_lgtm: bool) -> (b:
    bool)
    ensures
        b == review_wanted_spec(id, state, body@, existing@, sync_lgtm),
{
    if contains_id(existing, id) {
        return false;
    }
    if state == ReviewState::Approved && !sync_lgtm {
        return false;
    }
    let bv = chars_of(body);
    if state == ReviewState::Commented && bv.len() == 0 {
        return false;
    }
    true
}

/// An inline comment thread is imported while it is unresolved and not yet
/// imported.
pub fn thread_wanted(comment_id: u64, resolved: bool, existing: &Vec<u64>) -> (b: bool)
    ensures
        b == (!resolved && !existing@.contains(comment_id)),
{
    !resolved && !contains_id(existing, comment_id)
}

/// Where an inline comment sits: `path:line`, or the path alone.
pub open spec fn location_spec(path: Seq<char>, line: Option<u64>) -> Seq<char> {
    match line {
        Some(l) => path + ":"@ + decimal(l as nat),
        None => path,
    }
}

pub fn thread_location(path: &str, line: Option<u64>) -> (r: String)
    ensures
        r@ == location_spec(path@, line),
{
    let mut v = chars_of(path);
    match line {
        Some(l) => {
            let colon = chars_of(":");
            append_chars(&mut v, &colon);
            push_decimal(&mut v, l);
        },
        None => {},
    }
    string_of(&v)
}

// ───────────────────────── events ─────────────────────────

/// The event a sync records about `entity`: by `by`, carrying the GitHub
/// number and, where given, the problem concerned and the entity attached to.
pub fn github_event(
    t: EventType,
    entity: &str,
    by: &str,
    number: u64,
    problem: Option<&str>,
    target: Option<&str>,
    now: i64,
) -> (e: Event)
    ensures
        e.event_type == t,
        e.entity@ == entity@,
        e.by@ == by@,
        e.when == now,
        e.rationale is None,
        e.refs@.len() == 0,
        e.extra.github_number == Some(number),
        opt_view(e.extra.problem) == (match problem {
            Some(p) => Some(p@),
            None => None,
        }),
        opt_view(e.extra.target) == (match target {
            Some(x) => Some(x@),
            None => None,
        }),
        e.extra.supersedes is None,
        e.extra.title is None,
{
    let mut e = Event::new(t, entity, by, now);
    e.extra.github_number = Some(number);
    e.extra.problem = crate::models::opt_str_to_string(problem);
    e.extra.target = crate::models::opt_str_to_string(target);
    e
}

// ───────────────────────── issues ─────────────────────────

/// What to do to a linked issue so that it matches its problem.
#[derive(Debug, Clone, Copy, PartialEq, Eq, Structural)]
pub enum IssueAction {
    Close,
    Reopen,
    Keep,
}

/// A solved or dissolved problem's issue should be closed; any other
/// problem's issue should be open.
pub open spec fn should_be_closed(s: ProblemStatus) -> bool {
    s == ProblemStatus::Solved || s == ProblemStatus::Dissolved
}

pub open spec fn issue_action_spec(s: ProblemStatus, issue_open: bool) -> IssueAction {
    if should_be_closed(s) && issue_open {
        IssueAction::Close
    } else if !should_be_closed(s) && !issue_open {
        IssueAction::Reopen
    } else {
        IssueAction::Keep
    }
}

/// How to reconcile a linked issue (open or not) with its problem's status.
pub fn issue_action(status: ProblemStatus, issue_open: bool) -> (a: IssueAction)
    ensures
        a == issue_action_spec(status, issue_open),
{
    let closed = status == ProblemStatus::Solved || status == ProblemStatus::Dissolved;
    if closed && issue_open {
        IssueAction::Close
    } else if !closed && !issue_open {
        IssueAction::Reopen
    } else {
        IssueAction::Keep
    }
}

/// Whether an issue is open after the action is carried out.
pub open spec fn open_after(a: IssueAction, issue_open: bool) -> bool {
    match a {
        IssueAction::Close => false,
        IssueAction::Reopen => true,
        IssueAction::Keep => issue_open,
    }
}

/// Reconciling is settled by one pass: once the action is carried out, a
/// second reconcile of the same problem finds nothing to do.
pub proof fn law_reconcile_settles(s: ProblemStatus, issue_open: bool)
    ensures
        issue_action_spec(s, open_after(issue_action_spec(s, issue_open), issue_open)) == IssueAction::Keep,
        open_after(issue_action_spec(s, issue_open), issue_open) == !should_be_closed(s),
{
}

/// The problem already linked to GitHub issue `number`, if any (the first).
pub fn linked_problem(problems: &Vec<Problem>, number: u64) -> (r: Option<usize>)
    ensures
        match r {
            Some(k) => k < problems@.len() && problems@[k as int].github_issue == Some(number)
                && forall|j: int| 0 <= j < k ==> problems@[j].github_issue != Some(number),
            None => forall|j: int| 0 <= j < problems@.len() ==> problems@[j].github_issue != Some(number),
        },
{
    let mut i: usize = 0;
    while i < problems.len()
        invariant
            i <= problems.len(),
            forall|j: int| 0 <= j < i ==> problems@[j].github_issue != Some(number),
        decreases problems.len() - i,
    {
        if problems[i].github_issue == Some(number) {
            return Some(i);
        }
        i += 1;
    }
    None
}

pub open spec fn links_spec(ps: Seq<Problem>) -> Seq<(Seq<char>, u64)> {
    ps.filter(|p: Problem| p.github_issue is Some).map_values(|p: Problem| (p.id@, p.github_issue->0))
}

/// Every problem linked to an issue, as `(problem id, issue number)`.
pub fn issue_links(problems: &Vec<Problem>) -> (r: Vec<(String, u64)>)
    ensures
        r@.map_values(|x: (String, u64)| (x.0@, x.1)) == links_spec(problems@),
{
    let ghost pred = |p: Problem| p.github_issue is Some;
    let ghost f = |p: Problem| (p.id@, p.github_issue->0);
    let mut r: Vec<(String, u64)> = Vec::new();
    let mut i: usize = 0;
    while i < problems.len()
        invariant
            i <= problems.len(),
            pred == (|p: Problem| p.github_issue is Some),
            f == (|p: Problem| (p.id@, p.github_issue->0)),
            r@.map_values(|x: (String, u64)| (x.0@, x.1)) == problems@.take(i as int).filter(pred).map_values(f),
        decreases problems.len() - i,
    {
        proof {
            reveal(Seq::filter);
            assert(problems@.take(i + 1).drop_last() =~= problems@.take(i as int));
        }
        let p = &problems[i];
        if let Some(n) = p.github_issue {
            let ghost before = r@.map_values(|x: (String, u64)| (x.0@, x.1));
            let id = string_of(&chars_of(p.id.as_str()));
            r.push((id, n));
            assert(r@.map_values(|x: (String, u64)| (x.0@, x.1)) =~= before.push((p.id@, n)));
            assert(problems@.take(i + 1).filter(pred) =~= problems@.take(i as int).filter(pred).push(
                problems@[i as int],
            ));
        }
        i += 1;
    }
    assert(problems@.take(i as int) =~= problems@);
    r
}

// ───────────────────────── refusals ─────────────────────────

fn quoted(before: &str, subject: &str, after: &str) -> (r: String)
    ensures
        r@ == before@ + subject@ + after@,
{
    let mut m = chars_of(before);
    let s = chars_of(subject);
    append_chars(&mut m, &s);
    let a = chars_of(after);
    append_chars(&mut m, &a);
    string_of(&m)
}

pub open spec fn no_pr_msg(title: Seq<char>) -> Seq<char> {
    "Solution '"@ + title + "' is not linked to a GitHub PR"@
}

pub open spec fn no_issue_msg(title: Seq<char>) -> Seq<char> {
    "Problem '"@ + title + "' is not linked to a GitHub issue"@
}

/// The pull request a solution is linked to; merging needs one.
pub fn linked_pr(s: &Solution) -> (r: Result<u64, JjjError>)
    ensures
        match s.github_pr {
            Some(n) => r == Ok::<u64, JjjError>(n),
            None => r matches Err(JjjError::Validation(m)) && m@ == no_pr_msg(s.title@),
        },
{
    match s.github_pr {
        Some(n) => Ok(n),
        None => Err(JjjError::Validation(quoted("Solution '", s.title.as_str(), "' is not linked to a GitHub PR"))),
    }
}

/// The issue a problem is linked to; closing or reopening needs one.
pub fn linked_issue(p: &Problem) -> (r: Result<u64, JjjError>)
    ensures
        match p.github_issue {
            Some(n) => r == Ok::<u64, JjjError>(n),
            None => r matches Err(JjjError::Validation(m)) && m@ == no_issue_msg(p.title@),
        },
{
    match p.github_issue {
        Some(n) => Ok(n),
        None => Err(JjjError::Validation(quoted("Problem '", p.title.as_str(), "' is not linked to a GitHub issue"))),
    }
}

pub open spec fn no_issue_given_msg() -> Seq<char> {
    "Please specify an issue number (e.g., '#123' or '123'), or use --all"@
}

/// The issue to import when `--all` is not given: the one named, which must
/// be a number (`#123` or `123`).
pub fn import_target(issue: Option<&str>) -> (r: Result<u64, JjjError>)
    ensures
        match issue {
            None => r matches Err(JjjError::Validation(m)) && m@ == no_issue_given_msg(),
            Some(s) => match parse_u64_spec(strip_leading(trim(s@), '#')) {
                Some(n) => r == Ok::<u64, JjjError>(n),
                None => r matches Err(JjjError::Validation(m)) && m@ == crate::parsing::invalid_issue_msg(s@),
            },
        },
{
    match issue {
        None => Err(JjjError::Validation(string_of(&chars_of(
            "Please specify an issue number (e.g., '#123' or '123'), or use --all",
        )))),
        Some(s) => parse_issue_number(s),
    }
}

// ───────────────────────── pull requests ─────────────────────────

/// The branch a solution's pull request is pushed from.
pub fn pr_branch(solution_id: &str) -> (r: String)
    requires
        crate::display::short_id_ok(solution_id@),
    ensures
        r@ == "jjj/s-"@ + crate::display::short_of(solution_id@),
{
    let mut v = chars_of("jjj/s-");
    let sid = short_id(solution_id);
    let w = chars_of(sid.as_str());
    append_chars(&mut v, &w);
    string_of(&v)
}

pub open spec fn no_changes_msg() -> Seq<char> {
    "Solution has no attached changes. Attach changes first with 'jjj solution attach'."@
}

/// The change a new pull request is built from: the solution's first.
pub fn pr_change(s: &Solution) -> (r: Result<String, JjjError>)
    ensures
        s.change_ids@.len() > 0 ==> (r matches Ok(c) && c@ == s.change_ids@[0]@),
        s.change_ids@.len() == 0 ==> (r matches Err(JjjError::Validation(m)) && m@ == no_changes_msg()),
{
    if s.change_ids.len() == 0 {
        return Err(JjjError::Validation(string_of(&chars_of(
            "Solution has no attached changes. Attach changes first with 'jjj solution attach'.",
        ))));
    }
    Ok(string_of(&chars_of(s.change_ids[0].as_str())))
}

pub open spec fn unattached_msg() -> Seq<char> {
    "No solution specified and current change is not attached to any solution.\nUse 'jjj sync github pr <solution>' to specify."@
}

/// The solution a pull request is for when none is named: the first one the
/// current change (surrounding whitespace ignored) is attached to.
pub fn solution_for_change(solutions: &Vec<Solution>, change: &str) -> (r: Result<usize, JjjError>)
    ensures
        match r {
            Ok(k) => k < solutions@.len() && crate::status::has_change(solutions@[k as int], trim(change@))
                && forall|j: int| 0 <= j < k ==> !crate::status::has_change(solutions@[j], trim(change@)),
            Err(e) => e matches JjjError::Validation(m) && m@ == unattached_msg() && forall|j: int|
                0 <= j < solutions@.len() ==> !crate::status::has_change(solutions@[j], trim(change@)),
        },
{
    let t = trim_chars(&chars_of(change));
    let ts = string_of(&t);
    match crate::status::active_solution(solutions, ts.as_str()) {
        Some(k) => Ok(k),
        None => Err(JjjError::Validation(string_of(&chars_of(
            "No solution specified and current change is not attached to any solution.\nUse 'jjj sync github pr <solution>' to specify.",
        )))),
    }
}

/// A pull request's body needs rewriting unless it already reads the same
/// (surrounding whitespace ignored).
pub fn pr_body_current(current: &str, wanted: &str) -> (b: bool)
    ensures
        b == (trim(current@) == trim(wanted@)),
{
    let a = trim_chars(&chars_of(current));
    let w = trim_chars(&chars_of(wanted));
    chars_eq(&a, &w)
}

// ───────────────────────── the push summary ─────────────────────────

pub open spec fn push_failed_msg(failed: nat, total: nat) -> Seq<char> {
    decimal(failed) + " of "@ + decimal(total) + " operation(s) failed during push — see errors above"@
}

/// How a push ends, from how many operations succeeded and failed: with
/// nothing done (`Ok(true)`), done (`Ok(false)`), or an error when any
/// failed.
pub fn push_outcome(succeeded: u64, failed: u64) -> (r: Result<bool, JjjError>)
    requires
        succeeded + failed <= u64::MAX,
    ensures
        failed > 0 ==> (r matches Err(JjjError::Validation(m)) && m@ == push_failed_msg(
            failed as nat,
            (succeeded + failed) as nat,
        )),
        failed == 0 ==> r == Ok::<bool, JjjError>(succeeded == 0),
{
    if failed == 0 {
        return Ok(succeeded == 0);
    }
    let mut m: Vec<char> = Vec::new();
    push_decimal(&mut m, failed);
    let of = chars_of(" of ");
    append_chars(&mut m, &of);
    push_decimal(&mut m, succeeded + failed);
    let tail = chars_of(" operation(s) failed during push — see errors above");
    append_chars(&mut m, &tail);
    Err(JjjError::Validation(string_of(&m)))
}


pub open spec fn github_disabled_msg() -> Seq<char> {
    "GitHub integration is disabled. Set github.enabled = true in config.toml to enable."@
}

/// GitHub commands run unless the configuration turns the integration off
/// explicitly (`github.enabled = false`); unset counts as on.
pub fn github_allowed(enabled: Option<bool>) -> (r: Result<(), JjjError>)
    ensures
        enabled == Some(false) ==> (r matches Err(JjjError::Config(m)) && m@ == github_disabled_msg()),
        enabled != Some(false) ==> r is Ok,
{
    match enabled {
        Some(false) => Err(JjjError::Config(string_of(&chars_of(
            "GitHub integration is disabled. Set github.enabled = true in config.toml to enable.",
        )))),
        _ => Ok(()),
    }
}

} // verus!
