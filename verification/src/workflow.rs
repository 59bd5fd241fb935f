//! `submit` and `approve`: which solution lands, whether it may, and how
//! its code is integrated; and what `escalate` is asked to do.

use vstd::prelude::*;
use crate::models::SolutionStatus;
use crate::status::{active_solution, has_change};
use crate::store::{JjjError, MetadataStore};
use crate::text::{append_chars, chars_of, string_of, trim, trim_chars};

verus! {

/// The first of `main`, `master` and `trunk` that exists as a bookmark,
/// given whether each does.
pub open spec fn trunk_spec(main: bool, master: bool, trunk: bool) -> Option<Seq<char>> {
    if main {
        Some("main"@)
    } else if master {
        Some("master"@)
    } else if trunk {
        Some("trunk"@)
    } else {
        None
    }
}

pub fn detect_trunk(main: bool, master: bool, trunk: bool) -> (r: Option<&'static str>)
    ensures
        match r {
            Some(s) => trunk_spec(main, master, trunk) == Some(s@),
            None => trunk_spec(main, master, trunk) is None,
        },
{
    if main {
        Some("main")
    } else if master {
        Some("master")
    } else if trunk {
        Some("trunk")
    } else {
        None
    }
}

/// What `submit` does.
#[derive(Debug, PartialEq, Eq)]
pub enum SubmitPlan {
    /// No solution holds the current change: rebase it onto trunk and squash.
    SquashOnly,
    /// Approve solution `solution`, then merge its pull request `pr`.
    MergePr { solution: usize, pr: u64 },
    /// Approve solution `solution`, then rebase onto trunk and squash.
    Squash { solution: usize },
}

pub open spec fn not_in_review_msg(title: Seq<char>, id: Seq<char>) -> Seq<char> {
    "Solution '"@ + title + "' is proposed but hasn't been opened for review yet.\nMove it to review first:\n  jjj solution review "@ + id
}

/// Decide `submit`. A proposed solution is refused (it has not been opened
/// for review); any other is approved next (`approve_solution`, whose own
/// checks still apply) and its code integrated: through its pull request
/// when it has one, else by rebasing onto trunk and squashing. With no
/// solution named and none holding the current change, the change is only
/// squashed.
pub fn plan_submit(store: &MetadataStore, named: Option<usize>, change: &str) -> (r: Result<SubmitPlan, JjjError>)
    requires
        named matches Some(i) ==> i < store.solutions@.len(),
    ensures
        match named {
            Some(i) => submit_decision(store, i as int, r),
            None => match active_first(*store, change@) {
                Some(k) => submit_decision(store, k, r),
                None => r == Ok::<SubmitPlan, JjjError>(SubmitPlan::SquashOnly),
            },
        },
{
    let k = match named {
        Some(i) => i,
        None => match active_solution(&store.solutions, change) {
            Some(k) => {
                proof {
                    lemma_active_first(store, change@, k as int);
                }
                k
            },
            None => {
                proof {
                    assert(active_first(*store, change@) is None);
                }
                return Ok(SubmitPlan::SquashOnly);
            },
        },
    };
    let s = &store.solutions[k];
    if s.status == SolutionStatus::Proposed {
        let mut m = chars_of("Solution '");
        append_chars(&mut m, &chars_of(s.title.as_str()));
        append_chars(&mut m, &chars_of("' is proposed but hasn't been opened for review yet.\nMove it to review first:\n  jjj solution review "));
        append_chars(&mut m, &chars_of(s.id.as_str()));
        assert(m@ =~= not_in_review_msg(s.title@, s.id@));
        return Err(JjjError::Validation(string_of(&m)));
    }
    match s.github_pr {
        Some(pr) => Ok(SubmitPlan::MergePr { solution: k, pr }),
        None => Ok(SubmitPlan::Squash { solution: k }),
    }
}

/// The first solution holding `change`, if any.
pub open spec fn active_first(store: MetadataStore, change: Seq<char>) -> Option<int> {
    if exists|j: int| 0 <= j < store.solutions@.len() && has_change(store.solutions@[j], change) {
        Some(choose|j: int| 0 <= j < store.solutions@.len() && has_change(store.solutions@[j], change)
            && forall|q: int| 0 <= q < j ==> !has_change(store.solutions@[q], change))
    } else {
        None
    }
}

proof fn lemma_active_first(store: &MetadataStore, change: Seq<char>, k: int)
    requires
        0 <= k < store.solutions@.len(),
        has_change(store.solutions@[k], change),
        forall|j: int| 0 <= j < k ==> !has_change(store.solutions@[j], change),
    ensures
        active_first(*store, change) == Some(k),
{
    let ss = store.solutions@;
    assert(0 <= k < ss.len() && has_change(ss[k], change) && forall|q: int| 0 <= q < k ==> !has_change(ss[q], change));
    let c = choose|j: int| 0 <= j < ss.len() && has_change(ss[j], change)
        && forall|q: int| 0 <= q < j ==> !has_change(ss[q], change);
    if c < k {
    } else if c > k {
        assert(!has_change(ss[k], change));
    }
}

/// What `submit` decides for solution `k`.
pub open spec fn submit_decision(store: &MetadataStore, k: int, r: Result<SubmitPlan, JjjError>) -> bool {
    let s = store.solutions@[k];
    if s.status == SolutionStatus::Proposed {
        r matches Err(JjjError::Validation(m)) && m@ == not_in_review_msg(s.title@, s.id@)
    } else {
        match s.github_pr {
            Some(pr) => r == Ok::<SubmitPlan, JjjError>(SubmitPlan::MergePr { solution: k as usize, pr }),
            None => r == Ok::<SubmitPlan, JjjError>(SubmitPlan::Squash { solution: k as usize }),
        }
    }
}


// ───────────────────────── approve ─────────────────────────

pub open spec fn approve_unattached_msg() -> Seq<char> {
    "No solution found for current change. Specify a solution: jjj solution approve <title-or-id>"@
}

pub open spec fn already_approved_msg(title: Seq<char>) -> Seq<char> {
    "Solution '"@ + title + "' is already approved."@
}

pub open spec fn approve_proposed_msg(title: Seq<char>, id: Seq<char>) -> Seq<char> {
    "Solution '"@ + title + "' is proposed — submit it for review first:\n  jjj solution submit "@ + id
}

/// What the approve command decides for solution `k`: an approved or a
/// proposed solution is refused, any other goes on to `approve_solution`.
pub open spec fn approve_decision(store: &MetadataStore, k: int, r: Result<usize, JjjError>) -> bool {
    let s = store.solutions@[k];
    if s.status == SolutionStatus::Approved {
        r matches Err(JjjError::Validation(m)) && m@ == already_approved_msg(s.title@)
    } else if s.status == SolutionStatus::Proposed {
        r matches Err(JjjError::Validation(m)) && m@ == approve_proposed_msg(s.title@, s.id@)
    } else {
        r == Ok::<usize, JjjError>(k as usize)
    }
}

/// The solution the approve command is about: the one named (resolved to
/// its index), or else the first that holds the current change; refused
/// when none does, or when it is already approved or still only proposed.
pub fn plan_approve(store: &MetadataStore, named: Option<usize>, change: &str) -> (r: Result<usize, JjjError>)
    requires
        named matches Some(i) ==> i < store.solutions@.len(),
    ensures
        match named {
            Some(i) => approve_decision(store, i as int, r),
            None => match active_first(*store, change@) {
                Some(k) => approve_decision(store, k, r),
                None => r matches Err(JjjError::Validation(m)) && m@ == approve_unattached_msg(),
            },
        },
{
    let k = match named {
        Some(i) => i,
        None => match active_solution(&store.solutions, change) {
            Some(k) => {
                proof {
                    lemma_active_first(store, change@, k as int);
                }
                k
            },
            None => {
                proof {
                    assert(active_first(*store, change@) is None);
                }
                return Err(JjjError::Validation(string_of(&chars_of(
                    "No solution found for current change. Specify a solution: jjj solution approve <title-or-id>",
                ))));
            },
        },
    };
    let s = &store.solutions[k];
    if s.status == SolutionStatus::Approved {
        let mut m = chars_of("Solution '");
        append_chars(&mut m, &chars_of(s.title.as_str()));
        append_chars(&mut m, &chars_of("' is already approved."));
        assert(m@ =~= already_approved_msg(s.title@));
        return Err(JjjError::Validation(string_of(&m)));
    }
    if s.status == SolutionStatus::Proposed {
        let mut m = chars_of("Solution '");
        append_chars(&mut m, &chars_of(s.title.as_str()));
        append_chars(&mut m, &chars_of("' is proposed — submit it for review first:\n  jjj solution submit "));
        append_chars(&mut m, &chars_of(s.id.as_str()));
        assert(m@ =~= approve_proposed_msg(s.title@, s.id@));
        return Err(JjjError::Validation(string_of(&m)));
    }
    Ok(k)
}

// ───────────────────────── escalate ─────────────────────────

/// What `escalate` does with its arguments.
#[derive(Debug, PartialEq, Eq)]
pub enum EscalateMode {
    /// Clear the escalation named by `--clear`.
    Clear,
    /// Raise a new escalation with the reason given.
    Raise,
    /// Show the open escalations.
    Show,
}

/// `--clear` wins; a reason raises unless `--list` is asked for; anything
/// else shows what is open.
pub fn escalate_mode(clear: bool, reason: bool, list: bool) -> (m: EscalateMode)
    ensures
        clear ==> m == EscalateMode::Clear,
        !clear && reason && !list ==> m == EscalateMode::Raise,
        !clear && !(reason && !list) ==> m == EscalateMode::Show,
{
    if clear {
        EscalateMode::Clear
    } else if reason && !list {
        EscalateMode::Raise
    } else {
        EscalateMode::Show
    }
}

pub open spec fn no_reason_msg() -> Seq<char> {
    "an escalation needs a reason — say what a person has to do"@
}

/// The reason of an escalation, without surrounding whitespace; it must not
/// be empty.
pub fn escalation_reason(reason: &str) -> (r: Result<String, JjjError>)
    ensures
        trim(reason@).len() > 0 ==> (r matches Ok(t) && t@ == trim(reason@)),
        trim(reason@).len() == 0 ==> (r matches Err(JjjError::Validation(m)) && m@ == no_reason_msg()),
{
    let t = trim_chars(&chars_of(reason));
    if t.len() == 0 {
        Err(JjjError::Validation(string_of(&chars_of("an escalation needs a reason — say what a person has to do"))))
    } else {
        Ok(string_of(&t))
    }
}

} // verus!
