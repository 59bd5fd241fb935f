//! Referential integrity of the metadata: every reference names an existing
//! entity, and no problem is its own ancestor.

use vstd::prelude::*;
use crate::store::first_index;
use crate::text::{append_chars, chars_of, chars_eq, string_of, views};

verus! {

/// A broken reference, by the entity that holds it.
#[derive(Debug, PartialEq)]
pub struct ValidationError {
    pub entity_id: String,
    pub message: String,
}

/// The references one problem row holds.
#[derive(Debug)]
pub struct ProblemRefs {
    pub id: String,
    pub parent_id: Option<String>,
    pub milestone_id: Option<String>,
}

/// The references one solution row holds.
#[derive(Debug)]
pub struct SolutionRefs {
    pub id: String,
    pub problem_id: String,
    pub supersedes: Option<String>,
}

/// The reference one critique row holds.
#[derive(Debug)]
pub struct CritiqueRefs {
    pub id: String,
    pub solution_id: String,
}

pub open spec fn err_view(e: ValidationError) -> (Seq<char>, Seq<char>) {
    (e.entity_id@, e.message@)
}

pub open spec fn errs_view(v: Seq<ValidationError>) -> Seq<(Seq<char>, Seq<char>)> {
    v.map_values(|e: ValidationError| err_view(e))
}

pub open spec fn ids_contain(ids: Seq<Seq<char>>, x: Seq<char>) -> bool {
    first_index(ids, x) >= 0
}

/// `<prefix>'<id>'`.
pub open spec fn quoted_msg(prefix: Seq<char>, id: Seq<char>) -> Seq<char> {
    prefix + "'"@ + id + "'"@
}

/// One error for each optional reference (in row order) that is present but
/// names nothing in `targets`.
pub open spec fn dangling(
    owners: Seq<Seq<char>>,
    refs: Seq<Option<Seq<char>>>,
    targets: Seq<Seq<char>>,
    prefix: Seq<char>,
) -> Seq<(Seq<char>, Seq<char>)>
    decreases refs.len(),
{
    if refs.len() == 0 || owners.len() != refs.len() {
        seq![]
    } else {
        let earlier = dangling(owners.drop_last(), refs.drop_last(), targets, prefix);
        match refs.last() {
            Some(x) => if ids_contain(targets, x) {
                earlier
            } else {
                earlier.push((owners.last(), quoted_msg(prefix, x)))
            },
            None => earlier,
        }
    }
}

fn contains_id(ids: &Vec<Vec<char>>, x: &Vec<char>) -> (b: bool)
    ensures
        b == ids_contain(views(ids@), x@),
{
    let ghost vs = views(ids@);
    let mut i: usize = 0;
    while i < ids.len()
        invariant
            i <= ids.len(),
            vs == views(ids@),
            first_index(vs.take(i as int), x@) == -1,
        decreases ids.len() - i,
    {
        proof {
            crate::store::lemma_first_index_push(vs.take(i as int), x@, vs[i as int]);
            assert(vs.take(i as int).push(vs[i as int]) =~= vs.take(i + 1));
        }
        if chars_eq(&ids[i], x) {
            proof {
                crate::store::lemma_first_index_prefix(vs, x@, i + 1);
            }
            return true;
        }
        i += 1;
    }
    assert(vs.take(i as int) =~= vs);
    false
}

fn message(prefix: &str, id: &Vec<char>) -> (m: Vec<char>)
    ensures
        m@ == quoted_msg(prefix@, id@),
{
    let mut m = chars_of(prefix);
    m.push('\'');
    append_chars(&mut m, id);
    m.push('\'');
    proof {
        reveal_strlit("'");
    }
    assert(m@ =~= quoted_msg(prefix@, id@));
    m
}

pub open spec fn ov(o: Option<Vec<char>>) -> Option<Seq<char>> {
    match o {
        Some(x) => Some(x@),
        None => None,
    }
}

pub open spec fn opt_views(v: Seq<Option<Vec<char>>>) -> Seq<Option<Seq<char>>> {
    v.map_values(|o: Option<Vec<char>>| ov(o))
}

/// Append an error for every dangling reference.
fn check_refs(
    out: &mut Vec<ValidationError>,
    owners: &Vec<Vec<char>>,
    refs: &Vec<Option<Vec<char>>>,
    targets: &Vec<Vec<char>>,
    prefix: &str,
)
    requires
        owners.len() == refs.len(),
    ensures
        errs_view(final(out)@) == errs_view(old(out)@) + dangling(
            views(owners@),
            opt_views(refs@),
            views(targets@),
            prefix@,
        ),
{
    let ghost start = errs_view(out@);
    let mut i: usize = 0;
    assert(views(owners@).take(0) =~= Seq::<Seq<char>>::empty());
    while i < refs.len()
        invariant
            i <= refs.len(),
            owners.len() == refs.len(),
            errs_view(out@) == start + dangling(
                views(owners@).take(i as int),
                opt_views(refs@).take(i as int),
                views(targets@),
                prefix@,
            ),
        decreases refs.len() - i,
    {
        let ghost os = views(owners@);
        let ghost rs = opt_views(refs@);
        assert(os.take(i + 1).drop_last() =~= os.take(i as int));
        assert(rs.take(i + 1).drop_last() =~= rs.take(i as int));
        assert(os.take(i + 1).last() == owners@[i as int]@);
        match &refs[i] {
            Some(x) => {
                assert(rs.take(i + 1).last() == Some(x@));
                if !contains_id(targets, x) {
                    let m = message(prefix, x);
                    let ghost before = errs_view(out@);
                    out.push(ValidationError { entity_id: string_of(&owners[i]), message: string_of(&m) });
                    assert(errs_view(out@) =~= before.push((owners@[i as int]@, m@)));
                }
            },
            None => {
                assert(rs.take(i + 1).last() == None::<Seq<char>>);
            },
        }
        i += 1;
    }
    assert(views(owners@).take(i as int) =~= views(owners@));
    assert(opt_views(refs@).take(i as int) =~= opt_views(refs@));
}

// ───────────────────────── parent cycles ─────────────────────────

/// The `k`-th ancestor of problem `i` following parent indices (`-1` once a
/// problem has no parent, or its parent does not exist).
pub open spec fn ancestor(parent: Seq<int>, i: int, k: nat) -> int
    decreases k,
{
    if k == 0 {
        i
    } else {
        let a = ancestor(parent, i, (k - 1) as nat);
        if 0 <= a < parent.len() {
            parent[a]
        } else {
            -1
        }
    }
}

/// Problem `i`'s parent chain never ends: after as many steps as there are
/// problems it is still going, so it must revisit a problem.
pub open spec fn on_cycle(parent: Seq<int>, i: int) -> bool {
    ancestor(parent, i, parent.len()) != -1
}

pub open spec fn wf_parents(parent: Seq<int>) -> bool {
    forall|j: int| 0 <= j < parent.len() ==> -1 <= #[trigger] parent[j] < parent.len()
}

proof fn lemma_ancestor_range(parent: Seq<int>, i: int, k: nat)
    requires
        wf_parents(parent),
        -1 <= i < parent.len(),
    ensures
        -1 <= ancestor(parent, i, k) < parent.len(),
    decreases k,
{
    if k > 0 {
        lemma_ancestor_range(parent, i, (k - 1) as nat);
    }
}

/// Whether problem `i`'s parent chain never ends.
fn has_parent_cycle(parent: &Vec<i64>, i: usize) -> (b: bool)
    requires
        i < parent.len(),
        parent.len() < i64::MAX,
        forall|j: int| 0 <= j < parent@.len() ==> -1 <= #[trigger] parent@[j] < parent@.len(),
    ensures
        b == on_cycle(parent@.map_values(|p: i64| p as int), i as int),
{
    let ghost ps = parent@.map_values(|p: i64| p as int);
    let mut cur: i64 = i as i64;
    let mut k: usize = 0;
    while k < parent.len()
        invariant
            k <= parent.len(),
            i < parent.len(),
            parent.len() < i64::MAX,
            ps == parent@.map_values(|p: i64| p as int),
            forall|j: int| 0 <= j < parent@.len() ==> -1 <= #[trigger] parent@[j] < parent@.len(),
            cur as int == ancestor(ps, i as int, k as nat),
            -1 <= cur < parent.len(),
        decreases parent.len() - k,
    {
        if cur < 0 {
            proof {
                lemma_ancestor_stays_ended(ps, i as int, k as nat, ps.len());
            }
            return false;
        }
        assert(ps[cur as int] == parent@[cur as int] as int);
        cur = parent[cur as usize];
        k += 1;
    }
    cur >= 0
}

proof fn lemma_ancestor_stays_ended(parent: Seq<int>, i: int, k: nat, n: nat)
    requires
        ancestor(parent, i, k) == -1,
        k <= n,
    ensures
        ancestor(parent, i, n) == -1,
    decreases n - k,
{
    if k < n {
        lemma_ancestor_stays_ended(parent, i, k + 1, n);
    }
}

/// A problem on a parent cycle has a parent on that cycle too.
pub proof fn law_cycle_reaches_parent(parent: Seq<int>, i: int)
    requires
        wf_parents(parent),
        0 <= i < parent.len(),
        on_cycle(parent, i),
    ensures
        0 <= parent[i] < parent.len(),
{
    lemma_ancestor_shift(parent, i, parent.len());
    if parent[i] == -1 {
        lemma_ancestor_stays_ended(parent, -1, 0, (parent.len() - 1) as nat);
    }
}

proof fn lemma_ancestor_shift(parent: Seq<int>, i: int, k: nat)
    requires
        wf_parents(parent),
        0 <= i < parent.len(),
        k >= 1,
    ensures
        ancestor(parent, i, k) == ancestor(parent, parent[i], (k - 1) as nat),
    decreases k,
{
    if k > 1 {
        lemma_ancestor_shift(parent, i, (k - 1) as nat);
        let a = ancestor(parent, i, (k - 1) as nat);
        assert(ancestor(parent, i, k) == (if 0 <= a < parent.len() {
            parent[a]
        } else {
            -1
        }));
        assert(ancestor(parent, parent[i], (k - 1) as nat) == (if 0 <= a < parent.len() {
            parent[a]
        } else {
            -1
        }));
    } else {
        assert(ancestor(parent, i, 0) == i);
    }
}

/// A problem whose parent chain ends is never reported as cyclic, and one
/// that is its own parent always is.
pub proof fn law_self_parent_is_cycle(parent: Seq<int>, i: int)
    requires
        wf_parents(parent),
        0 <= i < parent.len(),
        parent[i] == i,
    ensures
        on_cycle(parent, i),
{
    lemma_self_loop(parent, i, parent.len());
}

proof fn lemma_self_loop(parent: Seq<int>, i: int, k: nat)
    requires
        0 <= i < parent.len(),
        parent[i] == i,
    ensures
        ancestor(parent, i, k) == i,
    decreases k,
{
    if k > 0 {
        lemma_self_loop(parent, i, (k - 1) as nat);
    }
}

// ───────────────────────── the whole check ─────────────────────────

/// Index of each problem's parent among the problem ids: `-1` when it has no
/// parent or names one that does not exist.
pub open spec fn parent_index(ids: Seq<Seq<char>>, parents: Seq<Option<Seq<char>>>) -> Seq<int> {
    Seq::new(
        parents.len(),
        |j: int|
            match parents[j] {
                Some(p) => first_index(ids, p),
                None => -1,
            },
    )
}

/// One error for each problem whose parent chain is cyclic, in row order.
pub open spec fn cycle_errors(ids: Seq<Seq<char>>, parent: Seq<int>, n: int) -> Seq<
    (Seq<char>, Seq<char>),
>
    decreases n,
{
    if n <= 0 {
        seq![]
    } else {
        let earlier = cycle_errors(ids, parent, n - 1);
        if on_cycle(parent, n - 1) {
            earlier.push((ids[n - 1], "has a cycle in its parent chain"@))
        } else {
            earlier
        }
    }
}

fn ids_of(v: &Vec<String>) -> (r: Vec<Vec<char>>)
    ensures
        r@.len() == v@.len(),
        views(r@) == v@.map_values(|s: String| s@),
{
    let mut r: Vec<Vec<char>> = Vec::new();
    let mut i: usize = 0;
    while i < v.len()
        invariant
            i <= v.len(),
            r@.len() == i,
            views(r@) == v@.take(i as int).map_values(|s: String| s@),
        decreases v.len() - i,
    {
        let x = chars_of(v[i].as_str());
        let ghost before = views(r@);
        r.push(x);
        assert(views(r@) =~= before.push(x@));
        assert(v@.take(i + 1).map_values(|s: String| s@) =~= v@.take(i as int).map_values(
            |s: String| s@,
        ).push(v@[i as int]@));
        i += 1;
    }
    assert(v@.take(i as int) =~= v@);
    r
}

fn index_of_id(ids: &Vec<Vec<char>>, x: &Vec<char>) -> (r: i64)
    requires
        ids.len() < i64::MAX,
    ensures
        r as int == first_index(views(ids@), x@),
{
    let ghost vs = views(ids@);
    let mut i: usize = 0;
    while i < ids.len()
        invariant
            i <= ids.len(),
            ids.len() < i64::MAX,
            vs == views(ids@),
            first_index(vs.take(i as int), x@) == -1,
        decreases ids.len() - i,
    {
        proof {
            crate::store::lemma_first_index_push(vs.take(i as int), x@, vs[i as int]);
            assert(vs.take(i as int).push(vs[i as int]) =~= vs.take(i + 1));
        }
        if chars_eq(&ids[i], x) {
            proof {
                crate::store::lemma_first_index_prefix(vs, x@, i + 1);
            }
            return i as i64;
        }
        i += 1;
    }
    assert(vs.take(i as int) =~= vs);
    -1
}

fn problem_ids_of(v: &Vec<ProblemRefs>) -> (r: Vec<Vec<char>>)
    ensures
        r@.len() == v@.len(),
        views(r@) == v@.map_values(|x: ProblemRefs| x.id@),
{
    let mut r: Vec<Vec<char>> = Vec::new();
    let mut i: usize = 0;
    while i < v.len()
        invariant
            i <= v.len(),
            r@.len() == i,
            views(r@) == v@.take(i as int).map_values(|x: ProblemRefs| x.id@),
        decreases v.len() - i,
    {
        let x = chars_of(v[i].id.as_str());
        let ghost before = views(r@);
        r.push(x);
        assert(views(r@) =~= before.push(x@));
        assert(v@.take(i + 1).map_values(|x: ProblemRefs| x.id@) =~= v@.take(i as int).map_values(|x: ProblemRefs| x.id@).push(x@));
        i += 1;
    }
    assert(v@.take(i as int) =~= v@);
    r
}

fn problem_parents_of(v: &Vec<ProblemRefs>) -> (r: Vec<Option<Vec<char>>>)
    ensures
        r@.len() == v@.len(),
        opt_views(r@) == v@.map_values(|x: ProblemRefs| crate::models::opt_view(x.parent_id)),
{
    let mut r: Vec<Option<Vec<char>>> = Vec::new();
    let mut i: usize = 0;
    while i < v.len()
        invariant
            i <= v.len(),
            r@.len() == i,
            opt_views(r@) == v@.take(i as int).map_values(|x: ProblemRefs| crate::models::opt_view(x.parent_id)),
        decreases v.len() - i,
    {
        let x = match &v[i].parent_id { Some(t) => Some(chars_of(t.as_str())), None => None };
        let ghost xv = ov(x);
        let ghost before = opt_views(r@);
        r.push(x);
        assert(opt_views(r@) =~= before.push(xv));
        assert(v@.take(i + 1).map_values(|x: ProblemRefs| crate::models::opt_view(x.parent_id)) =~= v@.take(i as int).map_values(|x: ProblemRefs| crate::models::opt_view(x.parent_id)).push(xv));
        i += 1;
    }
    assert(v@.take(i as int) =~= v@);
    r
}

fn problem_milestones_of(v: &Vec<ProblemRefs>) -> (r: Vec<Option<Vec<char>>>)
    ensures
        r@.len() == v@.len(),
        opt_views(r@) == v@.map_values(|x: ProblemRefs| crate::models::opt_view(x.milestone_id)),
{
    let mut r: Vec<Option<Vec<char>>> = Vec::new();
    let mut i: usize = 0;
    while i < v.len()
        invariant
            i <= v.len(),
            r@.len() == i,
            opt_views(r@) == v@.take(i as int).map_values(|x: ProblemRefs| crate::models::opt_view(x.milestone_id)),
        decreases v.len() - i,
    {
        let x = match &v[i].milestone_id { Some(t) => Some(chars_of(t.as_str())), None => None };
        let ghost xv = ov(x);
        let ghost before = opt_views(r@);
        r.push(x);
        assert(opt_views(r@) =~= before.push(xv));
        assert(v@.take(i + 1).map_values(|x: ProblemRefs| crate::models::opt_view(x.milestone_id)) =~= v@.take(i as int).map_values(|x: ProblemRefs| crate::models::opt_view(x.milestone_id)).push(xv));
        i += 1;
    }
    assert(v@.take(i as int) =~= v@);
    r
}

fn solution_ids_of(v: &Vec<SolutionRefs>) -> (r: Vec<Vec<char>>)
    ensures
        r@.len() == v@.len(),
        views(r@) == v@.map_values(|x: SolutionRefs| x.id@),
{
    let mut r: Vec<Vec<char>> = Vec::new();
    let mut i: usize = 0;
    while i < v.len()
        invariant
            i <= v.len(),
            r@.len() == i,
            views(r@) == v@.take(i as int).map_values(|x: SolutionRefs| x.id@),
        decreases v.len() - i,
    {
        let x = chars_of(v[i].id.as_str());
        let ghost before = views(r@);
        r.push(x);
        assert(views(r@) =~= before.push(x@));
        assert(v@.take(i + 1).map_values(|x: SolutionRefs| x.id@) =~= v@.take(i as int).map_values(|x: SolutionRefs| x.id@).push(x@));
        i += 1;
    }
    assert(v@.take(i as int) =~= v@);
    r
}

fn solution_problems_of(v: &Vec<SolutionRefs>) -> (r: Vec<Option<Vec<char>>>)
    ensures
        r@.len() == v@.len(),
        opt_views(r@) == v@.map_values(|x: SolutionRefs| Some(x.problem_id@)),
{
    let mut r: Vec<Option<Vec<char>>> = Vec::new();
    let mut i: usize = 0;
    while i < v.len()
        invariant
            i <= v.len(),
            r@.len() == i,
            opt_views(r@) == v@.take(i as int).map_values(|x: SolutionRefs| Some(x.problem_id@)),
        decreases v.len() - i,
    {
        let x = Some(chars_of(v[i].problem_id.as_str()));
        let ghost xv = ov(x);
        let ghost before = opt_views(r@);
        r.push(x);
        assert(opt_views(r@) =~= before.push(xv));
        assert(v@.take(i + 1).map_values(|x: SolutionRefs| Some(x.problem_id@)) =~= v@.take(i as int).map_values(|x: SolutionRefs| Some(x.problem_id@)).push(xv));
        i += 1;
    }
    assert(v@.take(i as int) =~= v@);
    r
}

fn solution_supersedes_of(v: &Vec<SolutionRefs>) -> (r: Vec<Option<Vec<char>>>)
    ensures
        r@.len() == v@.len(),
        opt_views(r@) == v@.map_values(|x: SolutionRefs| crate::models::opt_view(x.supersedes)),
{
    let mut r: Vec<Option<Vec<char>>> = Vec::new();
    let mut i: usize = 0;
    while i < v.len()
        invariant
            i <= v.len(),
            r@.len() == i,
            opt_views(r@) == v@.take(i as int).map_values(|x: SolutionRefs| crate::models::opt_view(x.supersedes)),
        decreases v.len() - i,
    {
        let x = match &v[i].supersedes { Some(t) => Some(chars_of(t.as_str())), None => None };
        let ghost xv = ov(x);
        let ghost before = opt_views(r@);
        r.push(x);
        assert(opt_views(r@) =~= before.push(xv));
        assert(v@.take(i + 1).map_values(|x: SolutionRefs| crate::models::opt_view(x.supersedes)) =~= v@.take(i as int).map_values(|x: SolutionRefs| crate::models::opt_view(x.supersedes)).push(xv));
        i += 1;
    }
    assert(v@.take(i as int) =~= v@);
    r
}

fn critique_ids_of(v: &Vec<CritiqueRefs>) -> (r: Vec<Vec<char>>)
    ensures
        r@.len() == v@.len(),
        views(r@) == v@.map_values(|x: CritiqueRefs| x.id@),
{
    let mut r: Vec<Vec<char>> = Vec::new();
    let mut i: usize = 0;
    while i < v.len()
        invariant
            i <= v.len(),
            r@.len() == i,
            views(r@) == v@.take(i as int).map_values(|x: CritiqueRefs| x.id@),
        decreases v.len() - i,
    {
        let x = chars_of(v[i].id.as_str());
        let ghost before = views(r@);
        r.push(x);
        assert(views(r@) =~= before.push(x@));
        assert(v@.take(i + 1).map_values(|x: CritiqueRefs| x.id@) =~= v@.take(i as int).map_values(|x: CritiqueRefs| x.id@).push(x@));
        i += 1;
    }
    assert(v@.take(i as int) =~= v@);
    r
}

fn critique_solutions_of(v: &Vec<CritiqueRefs>) -> (r: Vec<Option<Vec<char>>>)
    ensures
        r@.len() == v@.len(),
        opt_views(r@) == v@.map_values(|x: CritiqueRefs| Some(x.solution_id@)),
{
    let mut r: Vec<Option<Vec<char>>> = Vec::new();
    let mut i: usize = 0;
    while i < v.len()
        invariant
            i <= v.len(),
            r@.len() == i,
            opt_views(r@) == v@.take(i as int).map_values(|x: CritiqueRefs| Some(x.solution_id@)),
        decreases v.len() - i,
    {
        let x = Some(chars_of(v[i].solution_id.as_str()));
        let ghost xv = ov(x);
        let ghost before = opt_views(r@);
        r.push(x);
        assert(opt_views(r@) =~= before.push(xv));
        assert(v@.take(i + 1).map_values(|x: CritiqueRefs| Some(x.solution_id@)) =~= v@.take(i as int).map_values(|x: CritiqueRefs| Some(x.solution_id@)).push(xv));
        i += 1;
    }
    assert(v@.take(i as int) =~= v@);
    r
}

/// Every broken reference, in this order: parents, milestones, solutions'
/// problems, superseded solutions, critiques' solutions, parent cycles.
pub open spec fn validation_errors(
    problems: Seq<ProblemRefs>,
    solutions: Seq<SolutionRefs>,
    critiques: Seq<CritiqueRefs>,
    milestone_ids: Seq<Seq<char>>,
) -> Seq<(Seq<char>, Seq<char>)> {
    let pids = problems.map_values(|p: ProblemRefs| p.id@);
    let sids = solutions.map_values(|s: SolutionRefs| s.id@);
    let cids = critiques.map_values(|c: CritiqueRefs| c.id@);
    let parents = problems.map_values(|p: ProblemRefs| crate::models::opt_view(p.parent_id));
    dangling(pids, parents, pids, "references non-existent parent problem "@) + dangling(
        pids,
        problems.map_values(|p: ProblemRefs| crate::models::opt_view(p.milestone_id)),
        milestone_ids,
        "references non-existent milestone "@,
    ) + dangling(
        sids,
        solutions.map_values(|s: SolutionRefs| Some(s.problem_id@)),
        pids,
        "references non-existent problem "@,
    ) + dangling(
        sids,
        solutions.map_values(|s: SolutionRefs| crate::models::opt_view(s.supersedes)),
        sids,
        "supersedes non-existent solution "@,
    ) + dangling(
        cids,
        critiques.map_values(|c: CritiqueRefs| Some(c.solution_id@)),
        sids,
        "references non-existent solution "@,
    ) + cycle_errors(pids, parent_index(pids, parents), pids.len() as int)
}

/// Check referential integrity: every parent, milestone, problem, superseded
/// solution and critiqued solution that is referenced must exist, and no
/// problem may be its own ancestor.
pub fn validate(
    problems: &Vec<ProblemRefs>,
    solutions: &Vec<SolutionRefs>,
    critiques: &Vec<CritiqueRefs>,
    milestone_ids: &Vec<String>,
) -> (r: Vec<ValidationError>)
    requires
        problems.len() < i64::MAX,
    ensures
        errs_view(r@) == validation_errors(
            problems@,
            solutions@,
            critiques@,
            milestone_ids@.map_values(|s: String| s@),
        ),
{
    // Gather ids and references as character vectors.
    let pv = problem_ids_of(problems);
    let parents_v = problem_parents_of(problems);
    let pms_v = problem_milestones_of(problems);
    let sv = solution_ids_of(solutions);
    let sps_v = solution_problems_of(solutions);
    let sups_v = solution_supersedes_of(solutions);
    let cv = critique_ids_of(critiques);
    let css_v = critique_solutions_of(critiques);
    let mv = ids_of(milestone_ids);

    let mut out: Vec<ValidationError> = Vec::new();
    assert(errs_view(out@) =~= Seq::<(Seq<char>, Seq<char>)>::empty());
    check_refs(&mut out, &pv, &parents_v, &pv, "references non-existent parent problem ");
    check_refs(&mut out, &pv, &pms_v, &mv, "references non-existent milestone ");
    check_refs(&mut out, &sv, &sps_v, &pv, "references non-existent problem ");
    check_refs(&mut out, &sv, &sups_v, &sv, "supersedes non-existent solution ");
    check_refs(&mut out, &cv, &css_v, &sv, "references non-existent solution ");

    // Parent indices, then cycles.
    let ghost pidv = views(pv@);
    let ghost pspec = parent_index(pidv, opt_views(parents_v@));
    let mut pidx: Vec<i64> = Vec::new();
    let mut m: usize = 0;
    while m < parents_v.len()
        invariant
            m <= parents_v.len(),
            parents_v.len() == pv.len(),
            pv.len() < i64::MAX,
            pidv == views(pv@),
            pspec == parent_index(pidv, opt_views(parents_v@)),
            pidx@.len() == m,
            forall|q: int| 0 <= q < m ==> pidx@[q] as int == #[trigger] pspec[q],
        decreases parents_v.len() - m,
    {
        let x = match &parents_v[m] {
            Some(p) => index_of_id(&pv, p),
            None => -1,
        };
        pidx.push(x);
        m += 1;
    }
    assert(pidx@.map_values(|p: i64| p as int) =~= pspec);
    proof {
        assert forall|q: int| 0 <= q < pidx@.len() implies -1 <= #[trigger] pidx@[q] < pidx@.len() by {
            crate::store::lemma_first_index(pidv, opt_views(parents_v@)[q]->0);
            assert(pidx@[q] as int == pspec[q]);
        }
    }
    let ghost base = errs_view(out@);
    let mut c: usize = 0;
    while c < pv.len()
        invariant
            c <= pv.len(),
            pidx@.len() == pv.len(),
            pv.len() < i64::MAX,
            pidv == views(pv@),
            forall|q: int| 0 <= q < pidx@.len() ==> -1 <= #[trigger] pidx@[q] < pidx@.len(),
            pidx@.map_values(|p: i64| p as int) == pspec,
            errs_view(out@) == base + cycle_errors(pidv, pspec, c as int),
        decreases pv.len() - c,
    {
        if has_parent_cycle(&pidx, c) {
            let ghost before = errs_view(out@);
            let msg = chars_of("has a cycle in its parent chain");
            out.push(ValidationError { entity_id: string_of(&pv[c]), message: string_of(&msg) });
            assert(errs_view(out@) =~= before.push((pidv[c as int], "has a cycle in its parent chain"@)));
        }
        c += 1;
    }
    proof {
        assert(pidv.len() == pv@.len());
    }
    out
}

} // verus!
