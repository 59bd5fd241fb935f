//! Attaching version-control changes to solutions and detaching them.

use vstd::prelude::*;
use crate::models::{Solution, SolutionStatus};
use crate::store::{has_solution, solution_idx, JjjError, MetadataStore};
use crate::text::{strs, append_chars, chars_of, str_eq, string_of, without};

verus! {

/// Solution `s` holds change `c`.
pub open spec fn holds(s: Solution, c: Seq<char>) -> bool {
    strs(s.change_ids@).contains(c)
}

/// The first solution other than `sid` that holds change `c` (-1 if none).
pub open spec fn other_holder(ss: Seq<Solution>, sid: Seq<char>, c: Seq<char>, n: int) -> int
    decreases n,
{
    if n <= 0 || n > ss.len() {
        -1
    } else {
        let k = other_holder(ss, sid, c, n - 1);
        if k >= 0 {
            k
        } else if ss[n - 1].id@ != sid && holds(ss[n - 1], c) {
            n - 1
        } else {
            -1
        }
    }
}

pub open spec fn unknown_change_msg(c: Seq<char>) -> Seq<char> {
    "Change '"@ + c + "' not found in repository. Use --force to skip validation."@
}

pub open spec fn taken_msg(c: Seq<char>, other: Seq<char>) -> Seq<char> {
    "Change '"@ + c + "' is already attached to solution "@ + other + ". Use --force to attach anyway."@
}

/// Everything but solution `i`'s change list stays as it was.
pub open spec fn only_changes_moved(s0: MetadataStore, s1: MetadataStore, i: int) -> bool {
    &&& s1.solutions@.len() == s0.solutions@.len()
    &&& forall|j: int| 0 <= j < s0.solutions@.len() && j != i ==> s1.solutions@[j] == s0.solutions@[j]
    &&& s1.solutions@[i].id == s0.solutions@[i].id
    &&& s1.solutions@[i].title == s0.solutions@[i].title
    &&& s1.solutions@[i].problem_id == s0.solutions@[i].problem_id
    &&& s1.solutions@[i].status == s0.solutions@[i].status
    &&& s1.solutions@[i].supersedes == s0.solutions@[i].supersedes
    &&& s1.solutions@[i].assignee == s0.solutions@[i].assignee
    &&& s1.solutions@[i].force_approved == s0.solutions@[i].force_approved
    &&& s1.solutions@[i].github_pr == s0.solutions@[i].github_pr
    &&& s1.solutions@[i].claimed_at == s0.solutions@[i].claimed_at
    &&& s1.solutions@[i].critique_ids == s0.solutions@[i].critique_ids
    &&& s1.solutions@[i].created_at == s0.solutions@[i].created_at
    &&& s1.problems == s0.problems && s1.critiques == s0.critiques && s1.milestones == s0.milestones
    &&& s1.events == s0.events && s1.user == s0.user && s1.automation == s0.automation
    &&& s1.local_automation == s0.local_automation && s1.settings == s0.settings
}

/// What attaching change `c` (which the repository has, or not) to solution
/// `sid` does. Unless forced, the change must exist and belong to no other
/// solution. A change already attached is not listed twice.
pub open spec fn attach_post(
    s0: MetadataStore,
    sid: Seq<char>,
    c: Seq<char>,
    exists: bool,
    force: bool,
    r: Result<(), JjjError>,
    s1: MetadataStore,
) -> bool {
    let ss = s0.solutions@;
    if !has_solution(ss, sid) {
        r matches Err(JjjError::SolutionNotFound(x)) && x@ == sid && s1 == s0
    } else if !force && !exists {
        r matches Err(JjjError::Validation(m)) && m@ == unknown_change_msg(c) && s1 == s0
    } else if !force && other_holder(ss, sid, c, ss.len() as int) >= 0 {
        r matches Err(JjjError::Validation(m)) && m@ == taken_msg(c, ss[other_holder(ss, sid, c, ss.len() as int)].id@)
            && s1 == s0
    } else {
        let i = solution_idx(ss, sid);
        &&& r is Ok
        &&& only_changes_moved(s0, s1, i)
        &&& strs(s1.solutions@[i].change_ids@) == (if holds(ss[i], c) {
            strs(ss[i].change_ids@)
        } else {
            strs(ss[i].change_ids@).push(c)
        })
    }
}

fn holds_exec(ids: &Vec<String>, c: &str) -> (b: bool)
    ensures
        b == strs(ids@).contains(c@),
{
    let mut k: usize = 0;
    while k < ids.len()
        invariant
            k <= ids.len(),
            forall|j: int| 0 <= j < k ==> ids@[j]@ != c@,
        decreases ids.len() - k,
    {
        if str_eq(ids[k].as_str(), c) {
            assert(strs(ids@)[k as int] == c@);
            return true;
        }
        k += 1;
    }
    proof {
        if strs(ids@).contains(c@) {
            let j = choose|j: int| 0 <= j < strs(ids@).len() && strs(ids@)[j] == c@;
            assert(strs(ids@)[j] == ids@[j]@);
        }
    }
    false
}

fn concat3(a: &str, b: &str, c: &str) -> (r: String)
    ensures
        r@ == a@ + b@ + c@,
{
    let mut v = chars_of(a);
    append_chars(&mut v, &chars_of(b));
    append_chars(&mut v, &chars_of(c));
    string_of(&v)
}

fn concat5(a: &str, b: &str, c: &str, d: &str, e: &str) -> (r: String)
    ensures
        r@ == a@ + b@ + c@ + d@ + e@,
{
    let mut v = chars_of(a);
    append_chars(&mut v, &chars_of(b));
    append_chars(&mut v, &chars_of(c));
    append_chars(&mut v, &chars_of(d));
    append_chars(&mut v, &chars_of(e));
    string_of(&v)
}

/// Attach change `change` to solution `solution_id` (see `attach_post`);
/// `exists` says whether the repository has the change.
pub fn attach_change(store: &mut MetadataStore, solution_id: &str, change: &str, exists: bool, force: bool) -> (r:
    Result<(), JjjError>)
    ensures
        attach_post(*old(store), solution_id@, change@, exists, force, r, *final(store)),
{
    let ghost s0 = *store;
    let si = match store.find_solution(solution_id) {
        Some(k) => k,
        None => return Err(JjjError::SolutionNotFound(string_of(&chars_of(solution_id)))),
    };
    if !force {
        if !exists {
            return Err(JjjError::Validation(concat3("Change '", change, "' not found in repository. Use --force to skip validation.")));
        }
        let ghost ss = store.solutions@;
        let mut k: usize = 0;
        while k < store.solutions.len()
            invariant
                k <= store.solutions.len(),
                ss == store.solutions@,
                s0 == *store,
                has_solution(ss, solution_id@),
                !force,
                exists,
                other_holder(ss, solution_id@, change@, k as int) < 0,
            decreases store.solutions.len() - k,
        {
            let other = &store.solutions[k];
            if !str_eq(other.id.as_str(), solution_id) && holds_exec(&other.change_ids, change) {
                proof {
                    assert(other_holder(ss, solution_id@, change@, k + 1) == k);
                    lemma_holder_stays(ss, solution_id@, change@, k as int, ss.len() as int);
                }
                return Err(JjjError::Validation(concat5(
                    "Change '",
                    change,
                    "' is already attached to solution ",
                    other.id.as_str(),
                    ". Use --force to attach anyway.",
                )));
            }
            k += 1;
        }
    }
    let mut s = store.solutions.remove(si);
    let ghost ids0 = strs(s.change_ids@);
    if !holds_exec(&s.change_ids, change) {
        s.change_ids.push(string_of(&chars_of(change)));
        assert(strs(s.change_ids@) =~= ids0.push(change@));
    }
    store.solutions.insert(si, s);
    proof {
        assert forall|j: int| 0 <= j < s0.solutions@.len() && j != si implies store.solutions@[j]
            == s0.solutions@[j] by {
            if j < si {
            } else {
            }
        }
    }
    Ok(())
}

proof fn lemma_holder_stays(ss: Seq<Solution>, sid: Seq<char>, c: Seq<char>, k: int, n: int)
    requires
        0 <= k < n <= ss.len(),
        other_holder(ss, sid, c, k + 1) == k,
    ensures
        other_holder(ss, sid, c, n) == k,
    decreases n,
{
    if n > k + 1 {
        lemma_holder_stays(ss, sid, c, k, n - 1);
    }
}

pub open spec fn submitted_msg(sid: Seq<char>) -> Seq<char> {
    "Cannot detach change from solution "@ + sid + " while in Submitted state. Use --force to override."@
}

pub open spec fn last_change_msg(sid: Seq<char>) -> Seq<char> {
    "Cannot detach the last change from solution "@ + sid + ". Use --force to override."@
}

/// What detaching change `c` from solution `sid` does. Unless forced, a
/// submitted solution keeps its changes and no solution loses its last
/// change. The result says whether the change was attached.
pub open spec fn detach_post(
    s0: MetadataStore,
    sid: Seq<char>,
    c: Seq<char>,
    force: bool,
    r: Result<bool, JjjError>,
    s1: MetadataStore,
) -> bool {
    let ss = s0.solutions@;
    if !has_solution(ss, sid) {
        r matches Err(JjjError::SolutionNotFound(x)) && x@ == sid && s1 == s0
    } else {
        let i = solution_idx(ss, sid);
        let s = ss[i];
        if !force && s.status == SolutionStatus::Submitted {
            r matches Err(JjjError::Validation(m)) && m@ == submitted_msg(sid) && s1 == s0
        } else if !force && s.change_ids@.len() <= 1 && holds(s, c) {
            r matches Err(JjjError::Validation(m)) && m@ == last_change_msg(sid) && s1 == s0
        } else {
            &&& r == Ok::<bool, JjjError>(holds(s, c))
            &&& only_changes_moved(s0, s1, i)
            &&& strs(s1.solutions@[i].change_ids@) == without(strs(s.change_ids@), c)
        }
    }
}

/// Detach change `change` from solution `solution_id` (see `detach_post`).
pub fn detach_change(store: &mut MetadataStore, solution_id: &str, change: &str, force: bool) -> (r: Result<
    bool,
    JjjError,
>)
    ensures
        detach_post(*old(store), solution_id@, change@, force, r, *final(store)),
{
    let ghost s0 = *store;
    let si = match store.find_solution(solution_id) {
        Some(k) => k,
        None => return Err(JjjError::SolutionNotFound(string_of(&chars_of(solution_id)))),
    };
    let had = holds_exec(&store.solutions[si].change_ids, change);
    if !force {
        if store.solutions[si].status == SolutionStatus::Submitted {
            return Err(JjjError::Validation(concat3(
                "Cannot detach change from solution ",
                solution_id,
                " while in Submitted state. Use --force to override.")));
        }
        if store.solutions[si].change_ids.len() <= 1 && had {
            return Err(JjjError::Validation(concat3(
                "Cannot detach the last change from solution ",
                solution_id,
                ". Use --force to override.")));
        }
    }
    let mut s = store.solutions.remove(si);
    let ghost ids0 = strs(s.change_ids@);
    let ghost pred = |y: Seq<char>| y != change@;
    let mut kept: Vec<String> = Vec::new();
    let mut k: usize = 0;
    while k < s.change_ids.len()
        invariant
            k <= s.change_ids.len(),
            ids0 == strs(s.change_ids@),
            pred == (|y: Seq<char>| y != change@),
            strs(kept@) == ids0.take(k as int).filter(pred),
        decreases s.change_ids.len() - k,
    {
        proof {
            reveal(Seq::filter);
            assert(ids0.take(k + 1).drop_last() =~= ids0.take(k as int));
            assert(ids0[k as int] == s.change_ids@[k as int]@);
        }
        if !str_eq(s.change_ids[k].as_str(), change) {
            let ghost before = strs(kept@);
            kept.push(string_of(&chars_of(s.change_ids[k].as_str())));
            assert(strs(kept@) =~= before.push(ids0[k as int]));
        }
        k += 1;
    }
    assert(ids0.take(k as int) =~= ids0);
    s.change_ids = kept;
    store.solutions.insert(si, s);
    proof {
        assert forall|j: int| 0 <= j < s0.solutions@.len() && j != si implies store.solutions@[j]
            == s0.solutions@[j] by {
            if j < si {
            } else {
            }
        }
    }
    Ok(had)
}

// ───────────────────────── laws ─────────────────────────

proof fn lemma_keep_all_but(v: Seq<Seq<char>>, c: Seq<char>)
    requires
        !v.contains(c),
    ensures
        without(v, c) == v,
    decreases v.len(),
{
    reveal(Seq::filter);
    if v.len() > 0 {
        assert(!v.drop_last().contains(c)) by {
            if v.drop_last().contains(c) {
                let j = choose|j: int| 0 <= j < v.drop_last().len() && v.drop_last()[j] == c;
                assert(v[j] == c);
            }
        }
        lemma_keep_all_but(v.drop_last(), c);
        assert(v.last() != c) by {
            assert(v[v.len() - 1] == v.last());
        }
        assert(v.drop_last().push(v.last()) =~= v);
    }
}

/// Attaching a change a solution did not hold and detaching it again leaves
/// the solution's changes as they were.
pub proof fn law_attach_then_detach_restores(
    s0: MetadataStore,
    s1: MetadataStore,
    s2: MetadataStore,
    sid: Seq<char>,
    c: Seq<char>,
    exists: bool,
    force: bool,
    r2: Result<bool, JjjError>,
)
    requires
        has_solution(s0.solutions@, sid),
        !holds(s0.solutions@[solution_idx(s0.solutions@, sid)], c),
        attach_post(s0, sid, c, exists, force, Ok(()), s1),
        detach_post(s1, sid, c, true, r2, s2),
    ensures
        strs(s2.solutions@[solution_idx(s0.solutions@, sid)].change_ids@) == strs(
            s0.solutions@[solution_idx(s0.solutions@, sid)].change_ids@,
        ),
        r2 == Ok::<bool, JjjError>(true),
{
    let i = solution_idx(s0.solutions@, sid);
    crate::store::lemma_first_index(crate::store::solution_ids(s0.solutions@), sid);
    assert(crate::store::solution_ids(s1.solutions@) =~= crate::store::solution_ids(s0.solutions@)) by {
        assert forall|j: int| 0 <= j < s0.solutions@.len() implies crate::store::solution_ids(
            s1.solutions@,
        )[j] == crate::store::solution_ids(s0.solutions@)[j] by {
            if j == i {
            } else {
            }
        }
    }
    let v = strs(s0.solutions@[i].change_ids@);
    reveal(Seq::filter);
    assert(v.push(c).drop_last() =~= v);
    lemma_keep_all_but(v, c);
    assert(v.push(c)[v.len() as int] == c);
    assert(v.push(c).contains(c));
}

} // verus!
