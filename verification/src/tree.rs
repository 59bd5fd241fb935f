//! The problem hierarchy drawn as a tree: the walk from the roots down
//! through sub-problems, the graph of open work, and the indented tree
//! with solution counts.

use vstd::prelude::*;
use crate::milestones::{count_for, count_solutions, problem_icon, problem_icon_spec};
use crate::models::{opt_str_eq, opt_view, Problem, ProblemStatus, Solution, SolutionStatus};
use crate::text::{append_chars, chars_of, decimal, push_decimal, string_of};

verus! {

// ───────────────────────── the walk ─────────────────────────

/// One problem reached by the walk: its index, for each level above it
/// whether the ancestor there was the last of its siblings, and whether it
/// is itself the last of its siblings.
#[derive(Debug)]
pub struct Step {
    pub problem: usize,
    pub above: Vec<bool>,
    pub last: bool,
}

pub open spec fn step_view(s: Step) -> (usize, Seq<bool>, bool) {
    (s.problem, s.above@, s.last)
}

pub open spec fn steps_view(v: Seq<Step>) -> Seq<(usize, Seq<bool>, bool)> {
    v.map_values(|s: Step| step_view(s))
}

/// Whether `p` names `id` as its parent.
pub open spec fn child_of(p: Problem, id: Seq<char>) -> bool {
    opt_view(p.parent_id) == Some(id)
}

/// The entries of `sel` whose problem has `id` as parent, in the order of `sel`.
pub open spec fn kids_in(ps: Seq<Problem>, sel: Seq<usize>, id: Seq<char>) -> Seq<usize>
    decreases sel.len(),
{
    if sel.len() == 0 {
        Seq::empty()
    } else {
        kids_in(ps, sel.drop_last(), id) + (if child_of(ps[sel.last() as int], id) {
            seq![sel.last()]
        } else {
            Seq::empty()
        })
    }
}

/// The walk below problem `i`, depth first, children in the order of `sel`.
/// A chain of more than `fuel` levels below `i` is cut there: with no more
/// than `fuel` problems to choose from such a chain would have to come back
/// to a problem already on it, and follow the same circle without end.
pub open spec fn walk_node(
    ps: Seq<Problem>,
    sel: Seq<usize>,
    i: usize,
    above: Seq<bool>,
    last: bool,
    fuel: nat,
) -> Seq<(usize, Seq<bool>, bool)>
    decreases fuel, 0nat, 0nat,
{
    let me = seq![(i, above, last)];
    if fuel == 0 {
        me
    } else {
        me + walk_list(ps, sel, kids_in(ps, sel, ps[i as int].id@), above.push(last), (fuel - 1) as nat)
    }
}

/// The walks below each of `ks`, one after the other; the last of them is
/// marked last.
pub open spec fn walk_list(
    ps: Seq<Problem>,
    sel: Seq<usize>,
    ks: Seq<usize>,
    above: Seq<bool>,
    fuel: nat,
) -> Seq<(usize, Seq<bool>, bool)>
    decreases fuel, 1nat, ks.len(),
{
    if ks.len() == 0 {
        Seq::empty()
    } else {
        walk_node(ps, sel, ks[0], above, ks.len() == 1, fuel) + walk_list(ps, sel, ks.drop_first(), above, fuel)
    }
}

pub open spec fn all_below(v: Seq<usize>, n: int) -> bool {
    forall|k: int| 0 <= k < v.len() ==> (v[k] as int) < n
}

proof fn lemma_steps_view_push(v: Seq<Step>, s: Step)
    ensures
        steps_view(v.push(s)) == steps_view(v).push(step_view(s)),
{
    assert(steps_view(v.push(s)) =~= steps_view(v).push(step_view(s)));
}

/// The entries of `sel` whose problem is a child of `id`.
fn kids_exec(ps: &Vec<Problem>, sel: &Vec<usize>, id: &str) -> (r: Vec<usize>)
    requires
        all_below(sel@, ps@.len() as int),
    ensures
        r@ == kids_in(ps@, sel@, id@),
        all_below(r@, ps@.len() as int),
{
    let mut r: Vec<usize> = Vec::new();
    let mut j: usize = 0;
    while j < sel.len()
        invariant
            j <= sel@.len(),
            all_below(sel@, ps@.len() as int),
            r@ == kids_in(ps@, sel@.take(j as int), id@),
            all_below(r@, ps@.len() as int),
        decreases sel@.len() - j,
    {
        let k = sel[j];
        assert(sel@.take(j as int + 1).drop_last() =~= sel@.take(j as int));
        if opt_str_eq(&ps[k].parent_id, id) {
            r.push(k);
        }
        j += 1;
    }
    assert(sel@.take(sel@.len() as int) =~= sel@);
    r
}

fn walk_node_exec(
    ps: &Vec<Problem>,
    sel: &Vec<usize>,
    i: usize,
    above: &Vec<bool>,
    last: bool,
    fuel: usize,
    out: &mut Vec<Step>,
)
    requires
        all_below(sel@, ps@.len() as int),
        i < ps@.len(),
    ensures
        steps_view(final(out)@) == steps_view(old(out)@) + walk_node(ps@, sel@, i, above@, last, fuel as nat),
    decreases fuel, 0nat, 0nat,
{
    let ghost before = steps_view(out@);
    let mut mine: Vec<bool> = Vec::new();
    let mut j: usize = 0;
    while j < above.len()
        invariant
            j <= above@.len(),
            mine@ == above@.take(j as int),
        decreases above@.len() - j,
    {
        mine.push(above[j]);
        j += 1;
    }
    assert(above@.take(above@.len() as int) =~= above@);
    let step = Step { problem: i, above: mine, last };
    proof {
        lemma_steps_view_push(out@, step);
    }
    out.push(step);
    assert(steps_view(out@) == before + seq![(i, above@, last)]);
    if fuel > 0 {
        let kids = kids_exec(ps, sel, ps[i].id.as_str());
        let mut deeper: Vec<bool> = Vec::new();
        let mut j: usize = 0;
        while j < above.len()
            invariant
                j <= above@.len(),
                deeper@ == above@.take(j as int),
            decreases above@.len() - j,
        {
            deeper.push(above[j]);
            j += 1;
        }
        deeper.push(last);
        assert(deeper@ =~= above@.push(last));
        walk_list_exec(ps, sel, &kids, 0, &deeper, fuel - 1, out);
        assert(kids@.skip(0) =~= kids@);
    }
}

fn walk_list_exec(
    ps: &Vec<Problem>,
    sel: &Vec<usize>,
    ks: &Vec<usize>,
    from: usize,
    above: &Vec<bool>,
    fuel: usize,
    out: &mut Vec<Step>,
)
    requires
        all_below(sel@, ps@.len() as int),
        all_below(ks@, ps@.len() as int),
        from <= ks@.len(),
    ensures
        steps_view(final(out)@) == steps_view(old(out)@) + walk_list(ps@, sel@, ks@.skip(from as int), above@, fuel as nat),
    decreases fuel, 1nat, ks@.len() - from,
{
    if from < ks.len() {
        let ghost rest = ks@.skip(from as int);
        assert(rest[0] == ks@[from as int]);
        assert(rest.drop_first() =~= ks@.skip(from as int + 1));
        walk_node_exec(ps, sel, ks[from], above, from + 1 == ks.len(), fuel, out);
        walk_list_exec(ps, sel, ks, from + 1, above, fuel, out);
    } else {
        assert(ks@.skip(from as int).len() == 0);
        assert(steps_view(out@) =~= steps_view(out@) + Seq::<(usize, Seq<bool>, bool)>::empty());
    }
}

pub open spec fn walk_from(
    ps: Seq<Problem>,
    sel: Seq<usize>,
    starts: Seq<usize>,
    fuel: nat,
) -> Seq<(usize, Seq<bool>, bool)>
    decreases starts.len(),
{
    if starts.len() == 0 {
        Seq::empty()
    } else {
        walk_from(ps, sel, starts.drop_last(), fuel) + walk_node(ps, sel, starts.last(), Seq::empty(), true, fuel)
    }
}

/// The walks from each of `starts` in turn, each start drawn as a root
/// (nothing above it), children taken from `sel`, chains cut below
/// `ps.len()` levels.
pub fn walk(ps: &Vec<Problem>, sel: &Vec<usize>, starts: &Vec<usize>) -> (r: Vec<Step>)
    requires
        all_below(sel@, ps@.len() as int),
        all_below(starts@, ps@.len() as int),
    ensures
        steps_view(r@) == walk_from(ps@, sel@, starts@, ps@.len() as nat),
{
    let mut out: Vec<Step> = Vec::new();
    let none: Vec<bool> = Vec::new();
    let mut j: usize = 0;
    assert(steps_view(out@) =~= Seq::<(usize, Seq<bool>, bool)>::empty());
    while j < starts.len()
        invariant
            j <= starts@.len(),
            none@ == Seq::<bool>::empty(),
            all_below(sel@, ps@.len() as int),
            all_below(starts@, ps@.len() as int),
            steps_view(out@) == walk_from(ps@, sel@, starts@.take(j as int), ps@.len() as nat),
        decreases starts@.len() - j,
    {
        assert(starts@.take(j as int + 1).drop_last() =~= starts@.take(j as int));
        walk_node_exec(ps, sel, starts[j], &none, true, ps.len(), &mut out);
        j += 1;
    }
    assert(starts@.take(starts@.len() as int) =~= starts@);
    out
}

// ───────────────────────── the graph of open work ─────────────────────────

/// Whether the graph shows `p`: open or in progress unless all are asked
/// for, and in the milestone when one is given.
pub open spec fn shown(p: Problem, milestone: Option<Seq<char>>, all: bool) -> bool {
    &&& (all || p.status == ProblemStatus::Open || p.status == ProblemStatus::InProgress)
    &&& match milestone {
        None => true,
        Some(m) => opt_view(p.milestone_id) == Some(m),
    }
}

/// The indices below `k` of the problems the graph shows, in stored order.
pub open spec fn shown_upto(ps: Seq<Problem>, milestone: Option<Seq<char>>, all: bool, k: int) -> Seq<usize>
    decreases k,
{
    if k <= 0 {
        Seq::empty()
    } else {
        shown_upto(ps, milestone, all, k - 1) + (if shown(ps[k - 1], milestone, all) {
            seq![(k - 1) as usize]
        } else {
            Seq::empty()
        })
    }
}

/// Whether some problem of `sel` has the id `id`.
pub open spec fn id_in(ps: Seq<Problem>, sel: Seq<usize>, id: Seq<char>) -> bool {
    exists|k: int| 0 <= k < sel.len() && ps[sel[k] as int].id@ == id
}

/// A root of the graph: no parent, or a parent the graph does not show.
pub open spec fn graph_root(ps: Seq<Problem>, sel: Seq<usize>, i: usize) -> bool {
    match ps[i as int].parent_id {
        None => true,
        Some(pid) => !id_in(ps, sel, pid@),
    }
}

/// The roots among the first `k` entries of `sel`, in order.
pub open spec fn roots_upto(ps: Seq<Problem>, sel: Seq<usize>, k: int) -> Seq<usize>
    decreases k,
{
    if k <= 0 {
        Seq::empty()
    } else {
        roots_upto(ps, sel, k - 1) + (if graph_root(ps, sel, sel[k - 1]) {
            seq![sel[k - 1]]
        } else {
            Seq::empty()
        })
    }
}

/// The steps of the graph: the shown problems, from their roots down.
pub open spec fn graph_steps(ps: Seq<Problem>, milestone: Option<Seq<char>>, all: bool) -> Seq<(usize, Seq<bool>, bool)> {
    let sel = shown_upto(ps, milestone, all, ps.len() as int);
    walk_from(ps, sel, roots_upto(ps, sel, sel.len() as int), ps.len() as nat)
}

proof fn lemma_shown_below(ps: Seq<Problem>, milestone: Option<Seq<char>>, all: bool, k: int)
    requires
        k <= ps.len(),
    ensures
        all_below(shown_upto(ps, milestone, all, k), ps.len() as int),
        all_below(shown_upto(ps, milestone, all, k), k),
    decreases k,
{
    if k > 0 {
        lemma_shown_below(ps, milestone, all, k - 1);
    }
}

fn shown_exec(ps: &Vec<Problem>, milestone: Option<&str>, all: bool) -> (r: Vec<usize>)
    ensures
        r@ == shown_upto(ps@, match milestone { Some(m) => Some(m@), None => None }, all, ps@.len() as int),
        all_below(r@, ps@.len() as int),
{
    let ghost mv = match milestone { Some(m) => Some(m@), None => None };
    let mut r: Vec<usize> = Vec::new();
    let mut k: usize = 0;
    while k < ps.len()
        invariant
            k <= ps@.len(),
            mv == (match milestone { Some(m) => Some(m@), None => None::<Seq<char>> }),
            r@ == shown_upto(ps@, mv, all, k as int),
        decreases ps@.len() - k,
    {
        let p = &ps[k];
        let status_ok = all || match p.status {
            ProblemStatus::Open | ProblemStatus::InProgress => true,
            _ => false,
        };
        let milestone_ok = match milestone {
            None => true,
            Some(m) => opt_str_eq(&p.milestone_id, m),
        };
        if status_ok && milestone_ok {
            r.push(k);
        }
        k += 1;
    }
    proof {
        lemma_shown_below(ps@, mv, all, ps@.len() as int);
    }
    r
}

fn id_in_exec(ps: &Vec<Problem>, sel: &Vec<usize>, id: &str) -> (b: bool)
    requires
        all_below(sel@, ps@.len() as int),
    ensures
        b == id_in(ps@, sel@, id@),
{
    let mut j: usize = 0;
    while j < sel.len()
        invariant
            j <= sel@.len(),
            all_below(sel@, ps@.len() as int),
            forall|k: int| 0 <= k < j ==> ps@[sel@[k] as int].id@ != id@,
        decreases sel@.len() - j,
    {
        if crate::text::str_eq(ps[sel[j]].id.as_str(), id) {
            return true;
        }
        j += 1;
    }
    false
}

proof fn lemma_roots_below(ps: Seq<Problem>, sel: Seq<usize>, k: int)
    requires
        all_below(sel, ps.len() as int),
        k <= sel.len(),
    ensures
        all_below(roots_upto(ps, sel, k), ps.len() as int),
    decreases k,
{
    if k > 0 {
        lemma_roots_below(ps, sel, k - 1);
    }
}

/// The problem graph: the shown problems (open and in progress, or all),
/// within `milestone` when one is given, each root with the sub-problems it
/// shows below it; a sub-problem whose parent is not shown is a root.
pub fn graph_problems(ps: &Vec<Problem>, milestone: Option<&str>, all: bool) -> (r: Vec<Step>)
    ensures
        steps_view(r@) == graph_steps(ps@, match milestone { Some(m) => Some(m@), None => None }, all),
{
    let sel = shown_exec(ps, milestone, all);
    let mut roots: Vec<usize> = Vec::new();
    let mut j: usize = 0;
    while j < sel.len()
        invariant
            j <= sel@.len(),
            all_below(sel@, ps@.len() as int),
            roots@ == roots_upto(ps@, sel@, j as int),
        decreases sel@.len() - j,
    {
        let i = sel[j];
        let is_root = match &ps[i].parent_id {
            None => true,
            Some(pid) => !id_in_exec(ps, &sel, pid.as_str()),
        };
        if is_root {
            roots.push(i);
        }
        j += 1;
    }
    proof {
        lemma_roots_below(ps@, sel@, sel@.len() as int);
    }
    walk(ps, &sel, &roots)
}

/// How a problem's status shows in the graph.
pub open spec fn graph_icon_spec(s: ProblemStatus) -> Seq<char> {
    match s {
        ProblemStatus::Open | ProblemStatus::InProgress => "○"@,
        ProblemStatus::Solved => "◉"@,
        ProblemStatus::Dissolved => "×"@,
    }
}

pub fn graph_icon(s: ProblemStatus) -> (r: &'static str)
    ensures
        r@ == graph_icon_spec(s),
{
    match s {
        ProblemStatus::Open | ProblemStatus::InProgress => "○",
        ProblemStatus::Solved => "◉",
        ProblemStatus::Dissolved => "×",
    }
}

/// The rails drawn for the levels above a line: blank below a last
/// sibling, a bar below any other.
pub open spec fn rails(above: Seq<bool>) -> Seq<char>
    decreases above.len(),
{
    if above.len() == 0 {
        Seq::empty()
    } else {
        rails(above.drop_last()) + (if above.last() { seq![' ', ' ', ' '] } else { seq!['│', ' ', ' '] })
    }
}

/// What stands before the icon on a line of the graph: nothing for a root,
/// else the rails and the branch to the line.
pub open spec fn graph_lead_spec(above: Seq<bool>, last: bool) -> Seq<char> {
    if above.len() == 0 {
        Seq::empty()
    } else {
        rails(above) + (if last { seq!['└', '─', ' '] } else { seq!['├', '─', ' '] })
    }
}

pub fn graph_lead(step: &Step) -> (r: String)
    ensures
        r@ == graph_lead_spec(step.above@, step.last),
{
    let mut v: Vec<char> = Vec::new();
    if step.above.len() > 0 {
        let mut j: usize = 0;
        while j < step.above.len()
            invariant
                j <= step.above@.len(),
                v@ == rails(step.above@.take(j as int)),
            decreases step.above@.len() - j,
        {
            assert(step.above@.take(j as int + 1).drop_last() =~= step.above@.take(j as int));
            if step.above[j] {
                v.push(' ');
                v.push(' ');
                v.push(' ');
            } else {
                v.push('│');
                v.push(' ');
                v.push(' ');
            }
            j += 1;
        }
        assert(step.above@.take(step.above@.len() as int) =~= step.above@);
        if step.last {
            v.push('└');
        } else {
            v.push('├');
        }
        v.push('─');
        v.push(' ');
    }
    let r = string_of(&v);
    proof {
        if step.above@.len() == 0 {
            assert(v@ =~= Seq::<char>::empty());
        }
    }
    assert(r@ =~= graph_lead_spec(step.above@, step.last));
    r
}

// ───────────────────────── the indented tree ─────────────────────────

/// One line of the indented tree: the problem, how deep it stands, and how
/// many solutions it has, approved among them.
#[derive(Debug, PartialEq)]
pub struct TreeLine {
    pub problem: usize,
    pub depth: usize,
    pub solutions: usize,
    pub approved: usize,
}

pub open spec fn tree_lines_view(v: Seq<TreeLine>) -> Seq<(usize, nat, nat, nat)> {
    v.map_values(|l: TreeLine| (l.problem, l.depth as nat, l.solutions as nat, l.approved as nat))
}

pub open spec fn every_index(n: int) -> Seq<usize> {
    Seq::new(n as nat, |k: int| k as usize)
}

/// The problems below index `k` without a parent, in stored order.
pub open spec fn top_level_upto(ps: Seq<Problem>, k: int) -> Seq<usize>
    decreases k,
{
    if k <= 0 {
        Seq::empty()
    } else {
        top_level_upto(ps, k - 1) + (if ps[k - 1].parent_id is None {
            seq![(k - 1) as usize]
        } else {
            Seq::empty()
        })
    }
}

/// The steps of the tree: from the given problem, or else from every
/// problem without a parent, down through all sub-problems.
pub open spec fn tree_steps(ps: Seq<Problem>, start: Option<usize>) -> Seq<(usize, Seq<bool>, bool)> {
    let starts = match start {
        Some(i) => seq![i],
        None => top_level_upto(ps, ps.len() as int),
    };
    walk_from(ps, every_index(ps.len() as int), starts, ps.len() as nat)
}

/// The line the tree draws for a step.
pub open spec fn tree_line_of(ps: Seq<Problem>, ss: Seq<Solution>, st: (usize, Seq<bool>, bool)) -> (usize, nat, nat, nat) {
    let id = ps[st.0 as int].id@;
    (st.0, st.1.len(), count_solutions(ss, id, None), count_solutions(ss, id, Some(SolutionStatus::Approved)))
}

proof fn lemma_top_level_below(ps: Seq<Problem>, k: int)
    requires
        k <= ps.len(),
    ensures
        all_below(top_level_upto(ps, k), ps.len() as int),
    decreases k,
{
    if k > 0 {
        lemma_top_level_below(ps, k - 1);
    }
}

pub open spec fn tree_lines_of(ps: Seq<Problem>, ss: Seq<Solution>, steps: Seq<(usize, Seq<bool>, bool)>) -> Seq<(usize, nat, nat, nat)> {
    steps.map_values(|st: (usize, Seq<bool>, bool)| tree_line_of(ps, ss, st))
}

/// Every step of a walk stands on a problem that exists, no deeper than the
/// levels the walk was given.
pub open spec fn steps_fit(v: Seq<(usize, Seq<bool>, bool)>, n: int, depth: int) -> bool {
    forall|k: int| 0 <= k < v.len() ==> (#[trigger] v[k]).0 < n && v[k].1.len() <= depth
}

proof fn lemma_fit_concat(a: Seq<(usize, Seq<bool>, bool)>, b: Seq<(usize, Seq<bool>, bool)>, n: int, depth: int)
    requires
        steps_fit(a, n, depth),
        steps_fit(b, n, depth),
    ensures
        steps_fit(a + b, n, depth),
{
    assert forall|k: int| 0 <= k < (a + b).len() implies (#[trigger] (a + b)[k]).0 < n && (a + b)[k].1.len() <= depth by {
        if k < a.len() {
            assert((a + b)[k] == a[k]);
        } else {
            assert((a + b)[k] == b[k - a.len()]);
        }
    }
}

proof fn lemma_kids_below(ps: Seq<Problem>, sel: Seq<usize>, id: Seq<char>, n: int)
    requires
        all_below(sel, n),
    ensures
        all_below(kids_in(ps, sel, id), n),
    decreases sel.len(),
{
    if sel.len() > 0 {
        lemma_kids_below(ps, sel.drop_last(), id, n);
    }
}

proof fn lemma_walk_node_fit(ps: Seq<Problem>, sel: Seq<usize>, i: usize, above: Seq<bool>, last: bool, fuel: nat)
    requires
        all_below(sel, ps.len() as int),
        i < ps.len(),
    ensures
        steps_fit(walk_node(ps, sel, i, above, last, fuel), ps.len() as int, (above.len() + fuel) as int),
    decreases fuel, 0nat, 0nat,
{
    let me = seq![(i, above, last)];
    assert(steps_fit(me, ps.len() as int, (above.len() + fuel) as int));
    if fuel > 0 {
        let ks = kids_in(ps, sel, ps[i as int].id@);
        lemma_kids_below(ps, sel, ps[i as int].id@, ps.len() as int);
        lemma_walk_list_fit(ps, sel, ks, above.push(last), (fuel - 1) as nat);
        lemma_fit_concat(me, walk_list(ps, sel, ks, above.push(last), (fuel - 1) as nat), ps.len() as int, (above.len() + fuel) as int);
    }
}

proof fn lemma_walk_list_fit(ps: Seq<Problem>, sel: Seq<usize>, ks: Seq<usize>, above: Seq<bool>, fuel: nat)
    requires
        all_below(sel, ps.len() as int),
        all_below(ks, ps.len() as int),
    ensures
        steps_fit(walk_list(ps, sel, ks, above, fuel), ps.len() as int, (above.len() + fuel) as int),
    decreases fuel, 1nat, ks.len(),
{
    if ks.len() > 0 {
        lemma_walk_node_fit(ps, sel, ks[0], above, ks.len() == 1, fuel);
        lemma_walk_list_fit(ps, sel, ks.drop_first(), above, fuel);
        lemma_fit_concat(
            walk_node(ps, sel, ks[0], above, ks.len() == 1, fuel),
            walk_list(ps, sel, ks.drop_first(), above, fuel),
            ps.len() as int,
            (above.len() + fuel) as int,
        );
    }
}

proof fn lemma_walk_from_fit(ps: Seq<Problem>, sel: Seq<usize>, starts: Seq<usize>, fuel: nat)
    requires
        all_below(sel, ps.len() as int),
        all_below(starts, ps.len() as int),
    ensures
        steps_fit(walk_from(ps, sel, starts, fuel), ps.len() as int, fuel as int),
    decreases starts.len(),
{
    if starts.len() > 0 {
        lemma_walk_from_fit(ps, sel, starts.drop_last(), fuel);
        lemma_walk_node_fit(ps, sel, starts.last(), Seq::empty(), true, fuel);
        lemma_fit_concat(
            walk_from(ps, sel, starts.drop_last(), fuel),
            walk_node(ps, sel, starts.last(), Seq::empty(), true, fuel),
            ps.len() as int,
            fuel as int,
        );
    }
}

/// The indented tree of `show tree`: from problem `start` when one is
/// given, else from every problem without a parent, each line with its
/// depth and its problem's solution counts.
pub fn problem_tree(ps: &Vec<Problem>, ss: &Vec<Solution>, start: Option<usize>) -> (r: Vec<TreeLine>)
    requires
        start matches Some(i) ==> i < ps@.len(),
    ensures
        tree_lines_view(r@) == tree_lines_of(ps@, ss@, tree_steps(ps@, start)),
{
    let mut all: Vec<usize> = Vec::new();
    let mut k: usize = 0;
    while k < ps.len()
        invariant
            k <= ps@.len(),
            all@ == every_index(k as int),
        decreases ps@.len() - k,
    {
        all.push(k);
        k += 1;
        assert(all@ =~= every_index(k as int));
    }
    let mut starts: Vec<usize> = Vec::new();
    match start {
        Some(i) => {
            starts.push(i);
            assert(starts@ =~= seq![i]);
        },
        None => {
            let mut k: usize = 0;
            while k < ps.len()
                invariant
                    k <= ps@.len(),
                    starts@ == top_level_upto(ps@, k as int),
                decreases ps@.len() - k,
            {
                if ps[k].parent_id.is_none() {
                    starts.push(k);
                }
                k += 1;
            }
            proof {
                lemma_top_level_below(ps@, ps@.len() as int);
            }
        },
    }
    let steps = walk(ps, &all, &starts);
    let ghost sv = tree_steps(ps@, start);
    assert(steps_view(steps@) == sv);
    proof {
        assert(all_below(all@, ps@.len() as int));
        assert(all_below(starts@, ps@.len() as int));
        lemma_walk_from_fit(ps@, all@, starts@, ps@.len() as nat);
    }
    let mut r: Vec<TreeLine> = Vec::new();
    let mut j: usize = 0;
    while j < steps.len()
        invariant
            j <= steps@.len(),
            sv == steps_view(steps@),
            sv == tree_steps(ps@, start),
            steps_fit(sv, ps@.len() as int, ps@.len() as int),
            tree_lines_view(r@) == tree_lines_of(ps@, ss@, sv.take(j as int)),
        decreases steps@.len() - j,
    {
        let st = &steps[j];
        assert(sv[j as int] == step_view(*st));
        let id = ps[st.problem].id.as_str();
        let n = count_for(ss, id, None);
        let a = count_for(ss, id, Some(SolutionStatus::Approved));
        let line = TreeLine { problem: st.problem, depth: st.above.len(), solutions: n, approved: a };
        let ghost before = r@;
        r.push(line);
        proof {
            assert(sv.take(j as int + 1) =~= sv.take(j as int).push(sv[j as int]));
            assert(tree_lines_of(ps@, ss@, sv.take(j as int + 1)) =~= tree_lines_of(ps@, ss@, sv.take(j as int)).push(tree_line_of(ps@, ss@, sv[j as int])));
            assert(tree_lines_view(r@) =~= tree_lines_view(before).push(tree_line_of(ps@, ss@, sv[j as int])));
        }
        j += 1;
    }
    assert(sv.take(sv.len() as int) =~= sv);
    r
}

/// Two spaces for each level of depth.
pub open spec fn indent(depth: nat) -> Seq<char>
    decreases depth,
{
    if depth == 0 {
        Seq::empty()
    } else {
        indent((depth - 1) as nat) + seq![' ', ' ']
    }
}

/// The text of a tree line: indent, status icon, id, title, and, when the
/// problem has solutions, how many and how many of them are approved.
pub open spec fn tree_text_spec(p: Problem, depth: nat, solutions: nat, approved: nat) -> Seq<char> {
    indent(depth) + problem_icon_spec(p.status) + seq![' '] + p.id@ + seq![' '] + p.title@ + (if solutions == 0 {
        Seq::empty()
    } else {
        " ("@ + decimal(solutions) + " solutions, "@ + decimal(approved) + " approved)"@
    })
}

pub fn tree_text(p: &Problem, line: &TreeLine) -> (r: String)
    ensures
        r@ == tree_text_spec(*p, line.depth as nat, line.solutions as nat, line.approved as nat),
{
    let mut v: Vec<char> = Vec::new();
    let mut d: usize = 0;
    while d < line.depth
        invariant
            d <= line.depth,
            v@ == indent(d as nat),
        decreases line.depth - d,
    {
        v.push(' ');
        v.push(' ');
        d += 1;
        assert(v@ =~= indent(d as nat));
    }
    let icon = chars_of(problem_icon(p.status));
    append_chars(&mut v, &icon);
    v.push(' ');
    append_chars(&mut v, &chars_of(p.id.as_str()));
    v.push(' ');
    append_chars(&mut v, &chars_of(p.title.as_str()));
    let ghost head = v@;
    if line.solutions > 0 {
        append_chars(&mut v, &chars_of(" ("));
        push_decimal(&mut v, line.solutions as u64);
        append_chars(&mut v, &chars_of(" solutions, "));
        push_decimal(&mut v, line.approved as u64);
        append_chars(&mut v, &chars_of(" approved)"));
        assert(v@ =~= head + (" ("@ + decimal(line.solutions as nat) + " solutions, "@ + decimal(line.approved as nat) + " approved)"@));
    } else {
        assert(v@ =~= head + Seq::<char>::empty());
    }
    let r = string_of(&v);
    assert(r@ =~= tree_text_spec(*p, line.depth as nat, line.solutions as nat, line.approved as nat));
    r
}

/// Every step of `v` stands on a problem listed in `sel`.
pub open spec fn steps_in(v: Seq<(usize, Seq<bool>, bool)>, sel: Seq<usize>) -> bool {
    forall|k: int| 0 <= k < v.len() ==> sel.contains((#[trigger] v[k]).0)
}

proof fn lemma_in_concat(a: Seq<(usize, Seq<bool>, bool)>, b: Seq<(usize, Seq<bool>, bool)>, sel: Seq<usize>)
    requires
        steps_in(a, sel),
        steps_in(b, sel),
    ensures
        steps_in(a + b, sel),
{
    assert forall|k: int| 0 <= k < (a + b).len() implies sel.contains((#[trigger] (a + b)[k]).0) by {
        if k < a.len() {
            assert((a + b)[k] == a[k]);
        } else {
            assert((a + b)[k] == b[k - a.len()]);
        }
    }
}

proof fn lemma_kids_within(ps: Seq<Problem>, sel: Seq<usize>, id: Seq<char>)
    ensures
        forall|k: int| 0 <= k < kids_in(ps, sel, id).len() ==> sel.contains(#[trigger] kids_in(ps, sel, id)[k]),
    decreases sel.len(),
{
    if sel.len() > 0 {
        lemma_kids_within(ps, sel.drop_last(), id);
        let a = kids_in(ps, sel.drop_last(), id);
        assert forall|k: int| 0 <= k < kids_in(ps, sel, id).len() implies sel.contains(#[trigger] kids_in(ps, sel, id)[k]) by {
            if k < a.len() {
                assert(kids_in(ps, sel, id)[k] == a[k]);
                assert(sel.drop_last().contains(a[k]));
                let w = choose|w: int| 0 <= w < sel.drop_last().len() && sel.drop_last()[w] == a[k];
                assert(sel[w] == a[k]);
            } else {
                assert(kids_in(ps, sel, id)[k] == sel.last());
                assert(sel[sel.len() - 1] == sel.last());
            }
        }
    }
}

proof fn lemma_walk_node_in(ps: Seq<Problem>, sel: Seq<usize>, i: usize, above: Seq<bool>, last: bool, fuel: nat)
    requires
        sel.contains(i),
    ensures
        steps_in(walk_node(ps, sel, i, above, last, fuel), sel),
    decreases fuel, 0nat, 0nat,
{
    let me = seq![(i, above, last)];
    assert(steps_in(me, sel));
    if fuel > 0 {
        let ks = kids_in(ps, sel, ps[i as int].id@);
        lemma_kids_within(ps, sel, ps[i as int].id@);
        lemma_walk_list_in(ps, sel, ks, above.push(last), (fuel - 1) as nat);
        lemma_in_concat(me, walk_list(ps, sel, ks, above.push(last), (fuel - 1) as nat), sel);
    }
}

proof fn lemma_walk_list_in(ps: Seq<Problem>, sel: Seq<usize>, ks: Seq<usize>, above: Seq<bool>, fuel: nat)
    requires
        forall|k: int| 0 <= k < ks.len() ==> sel.contains(#[trigger] ks[k]),
    ensures
        steps_in(walk_list(ps, sel, ks, above, fuel), sel),
    decreases fuel, 1nat, ks.len(),
{
    if ks.len() > 0 {
        assert(sel.contains(ks[0]));
        lemma_walk_node_in(ps, sel, ks[0], above, ks.len() == 1, fuel);
        let rest = ks.drop_first();
        assert forall|k: int| 0 <= k < rest.len() implies sel.contains(#[trigger] rest[k]) by {
            assert(rest[k] == ks[k + 1]);
        }
        lemma_walk_list_in(ps, sel, rest, above, fuel);
        lemma_in_concat(walk_node(ps, sel, ks[0], above, ks.len() == 1, fuel), walk_list(ps, sel, rest, above, fuel), sel);
    }
}

proof fn lemma_walk_from_in(ps: Seq<Problem>, sel: Seq<usize>, starts: Seq<usize>, fuel: nat)
    requires
        forall|k: int| 0 <= k < starts.len() ==> sel.contains(#[trigger] starts[k]),
    ensures
        steps_in(walk_from(ps, sel, starts, fuel), sel),
    decreases starts.len(),
{
    if starts.len() > 0 {
        let front = starts.drop_last();
        assert forall|k: int| 0 <= k < front.len() implies sel.contains(#[trigger] front[k]) by {
            assert(front[k] == starts[k]);
        }
        lemma_walk_from_in(ps, sel, front, fuel);
        assert(sel.contains(starts[starts.len() - 1]));
        lemma_walk_node_in(ps, sel, starts.last(), Seq::empty(), true, fuel);
        lemma_in_concat(walk_from(ps, sel, front, fuel), walk_node(ps, sel, starts.last(), Seq::empty(), true, fuel), sel);
    }
}

proof fn lemma_roots_within(ps: Seq<Problem>, sel: Seq<usize>, k: int)
    requires
        0 <= k <= sel.len(),
    ensures
        forall|q: int| 0 <= q < roots_upto(ps, sel, k).len() ==> sel.contains(#[trigger] roots_upto(ps, sel, k)[q]),
    decreases k,
{
    if k > 0 {
        lemma_roots_within(ps, sel, k - 1);
        let a = roots_upto(ps, sel, k - 1);
        assert forall|q: int| 0 <= q < roots_upto(ps, sel, k).len() implies sel.contains(#[trigger] roots_upto(ps, sel, k)[q]) by {
            if q < a.len() {
                assert(roots_upto(ps, sel, k)[q] == a[q]);
            } else {
                assert(roots_upto(ps, sel, k)[q] == sel[k - 1]);
            }
        }
    }
}

proof fn lemma_shown_means_shown(ps: Seq<Problem>, milestone: Option<Seq<char>>, all: bool, k: int, i: usize)
    requires
        0 <= k <= ps.len(),
        ps.len() <= usize::MAX,
        shown_upto(ps, milestone, all, k).contains(i),
    ensures
        i < k,
        shown(ps[i as int], milestone, all),
    decreases k,
{
    let a = shown_upto(ps, milestone, all, k - 1);
    let w = choose|w: int| 0 <= w < shown_upto(ps, milestone, all, k).len() && shown_upto(ps, milestone, all, k)[w] == i;
    if w < a.len() {
        assert(shown_upto(ps, milestone, all, k)[w] == a[w]);
        assert(a.contains(i));
        lemma_shown_means_shown(ps, milestone, all, k - 1, i);
    } else {
        assert(shown(ps[k - 1], milestone, all));
        assert(i == (k - 1) as usize);
        assert(i as int == k - 1);
    }
}

/// Every line of the graph is a problem the graph shows: open or in
/// progress unless all are asked for, and in the milestone when one is given.
pub proof fn law_graph_shows_only_shown(ps: Seq<Problem>, milestone: Option<Seq<char>>, all: bool, k: int)
    requires
        ps.len() <= usize::MAX,
        0 <= k < graph_steps(ps, milestone, all).len(),
    ensures
        graph_steps(ps, milestone, all)[k].0 < ps.len(),
        shown(ps[graph_steps(ps, milestone, all)[k].0 as int], milestone, all),
{
    let sel = shown_upto(ps, milestone, all, ps.len() as int);
    let roots = roots_upto(ps, sel, sel.len() as int);
    lemma_roots_within(ps, sel, sel.len() as int);
    lemma_walk_from_in(ps, sel, roots, ps.len() as nat);
    let i = graph_steps(ps, milestone, all)[k].0;
    assert(sel.contains(i));
    lemma_shown_means_shown(ps, milestone, all, ps.len() as int, i);
}


// ───────────────────────── no chain is cut ─────────────────────────

/// No two problems share an id.
pub open spec fn ids_distinct(ps: Seq<Problem>) -> bool {
    forall|a: int, b: int| 0 <= a < b < ps.len() ==> ps[a].id@ != ps[b].id@
}

/// `anc` followed by `i` is a chain down from a root of the graph: each
/// entry a child of the one before, none repeated, all shown.
/// Entry `k` of `full` is a child of the entry before it.
pub open spec fn linked(ps: Seq<Problem>, full: Seq<usize>, k: int) -> bool {
    child_of(ps[full[k] as int], ps[full[k - 1] as int].id@)
}

#[verifier::opaque]
pub open spec fn chain_ok(ps: Seq<Problem>, sel: Seq<usize>, anc: Seq<usize>, i: usize) -> bool {
    let full = anc.push(i);
    &&& full.no_duplicates()
    &&& forall|k: int| 0 <= k < full.len() ==> sel.contains(#[trigger] full[k])
    &&& graph_root(ps, sel, full[0])
    &&& forall|k: int| 0 < k < full.len() ==> #[trigger] linked(ps, full, k)
}

proof fn lemma_distinct_below(s: Seq<usize>, n: int)
    requires
        s.no_duplicates(),
        forall|k: int| 0 <= k < s.len() ==> (#[trigger] s[k] as int) < n,
        0 <= n,
    ensures
        s.len() <= n,
{
    broadcast use vstd::set::group_set_axioms;
    let t = s.map_values(|x: usize| x as int);
    assert forall|a: int, b: int| 0 <= a < t.len() && 0 <= b < t.len() && a != b implies t[a] != t[b] by {
        assert(s[a] != s[b]);
    }
    assert(t.no_duplicates());
    t.unique_seq_to_set();
    vstd::set_lib::lemma_int_range(0, n);
    assert forall|x: int| t.to_set().contains(x) implies vstd::set_lib::set_int_range(0, n).contains(x) by {
        assert(t.contains(x));
        let k = choose|k: int| 0 <= k < t.len() && t[k] == x;
        assert(s[k] < n);
    }
    vstd::set_lib::lemma_len_subset(t.to_set(), vstd::set_lib::set_int_range(0, n));
}

proof fn lemma_kids_are_children(ps: Seq<Problem>, sel: Seq<usize>, id: Seq<char>)
    ensures
        forall|k: int| 0 <= k < kids_in(ps, sel, id).len() ==> child_of(ps[#[trigger] kids_in(ps, sel, id)[k] as int], id),
    decreases sel.len(),
{
    if sel.len() > 0 {
        lemma_kids_are_children(ps, sel.drop_last(), id);
        let a = kids_in(ps, sel.drop_last(), id);
        assert forall|k: int| 0 <= k < kids_in(ps, sel, id).len() implies child_of(ps[#[trigger] kids_in(ps, sel, id)[k] as int], id) by {
            if k < a.len() {
                assert(kids_in(ps, sel, id)[k] == a[k]);
            }
        }
    }
}

proof fn lemma_same_id_same_problem(ps: Seq<Problem>, sel: Seq<usize>, a: usize, b: usize)
    requires
        ids_distinct(ps),
        all_below(sel, ps.len() as int),
        sel.contains(a),
        sel.contains(b),
        ps[a as int].id@ == ps[b as int].id@,
    ensures
        a == b,
{
    let wa = choose|w: int| 0 <= w < sel.len() && sel[w] == a;
    let wb = choose|w: int| 0 <= w < sel.len() && sel[w] == b;
    assert((a as int) < ps.len() && (b as int) < ps.len());
    if (a as int) < (b as int) {
        assert(ps[a as int].id@ != ps[b as int].id@);
    } else if (b as int) < (a as int) {
        assert(ps[b as int].id@ != ps[a as int].id@);
    }
}

/// A child of the last problem of a chain is not on the chain.
proof fn lemma_not_on_chain(ps: Seq<Problem>, sel: Seq<usize>, full: Seq<usize>, c: usize, j: int)
    requires
        ids_distinct(ps),
        all_below(sel, ps.len() as int),
        full.len() > 0,
        full.no_duplicates(),
        forall|k: int| 0 <= k < full.len() ==> sel.contains(#[trigger] full[k]),
        graph_root(ps, sel, full[0]),
        forall|k: int| 0 < k < full.len() ==> #[trigger] linked(ps, full, k),
        sel.contains(c),
        child_of(ps[c as int], ps[full.last() as int].id@),
        0 <= j < full.len(),
    ensures
        full[j] != c,
{
    let i = full.last();
    assert(sel.contains(full[full.len() - 1]));
    if full[j] == c {
        if j == 0 {
            let w = choose|w: int| 0 <= w < sel.len() && sel[w] == i;
            assert(ps[sel[w] as int].id@ == ps[i as int].id@);
            assert(id_in(ps, sel, ps[i as int].id@));
        } else {
            assert(linked(ps, full, j));
            assert(sel.contains(full[j - 1]));
            lemma_same_id_same_problem(ps, sel, full[j - 1], i);
            assert(full[j - 1] == full[full.len() - 1]);
        }
    }
}

/// A child of the last problem of a chain extends the chain.
proof fn lemma_chain_extends(ps: Seq<Problem>, sel: Seq<usize>, anc: Seq<usize>, i: usize, c: usize)
    requires
        ids_distinct(ps),
        all_below(sel, ps.len() as int),
        chain_ok(ps, sel, anc, i),
        sel.contains(c),
        child_of(ps[c as int], ps[i as int].id@),
    ensures
        chain_ok(ps, sel, anc.push(i), c),
{
    reveal(chain_ok);
    let full = anc.push(i);
    let next = full.push(c);
    assert(full.last() == i);
    assert forall|j: int| 0 <= j < full.len() implies full[j] != c by {
        lemma_not_on_chain(ps, sel, full, c, j);
    }
    assert forall|a: int, b: int| 0 <= a < next.len() && 0 <= b < next.len() && a != b implies next[a] != next[b] by {
        if a < full.len() && b < full.len() {
            assert(next[a] == full[a] && next[b] == full[b]);
        } else if a < full.len() {
            assert(next[a] == full[a]);
        } else {
            assert(next[b] == full[b]);
        }
    }
    assert forall|k: int| 0 <= k < next.len() implies sel.contains(#[trigger] next[k]) by {
        if k < full.len() {
            assert(next[k] == full[k]);
        }
    }
    assert(next[0] == full[0]);
    assert forall|k: int| 0 < k < next.len() implies #[trigger] linked(ps, next, k) by {
        if k < full.len() {
            assert(next[k] == full[k] && next[k - 1] == full[k - 1]);
            assert(linked(ps, full, k));
        } else {
            assert(next[k - 1] == i);
        }
    }
}

proof fn lemma_chain_short(ps: Seq<Problem>, sel: Seq<usize>, anc: Seq<usize>, i: usize)
    requires
        all_below(sel, ps.len() as int),
        chain_ok(ps, sel, anc, i),
    ensures
        anc.len() < ps.len(),
{
    reveal(chain_ok);
    let full = anc.push(i);
    assert forall|k: int| 0 <= k < full.len() implies (#[trigger] full[k] as int) < ps.len() by {
        assert(sel.contains(full[k]));
        let w = choose|w: int| 0 <= w < sel.len() && sel[w] == full[k];
    }
    lemma_distinct_below(full, ps.len() as int);
}

proof fn lemma_node_uncut(ps: Seq<Problem>, sel: Seq<usize>, anc: Seq<usize>, i: usize, above: Seq<bool>, last: bool, fuel: nat)
    requires
        ids_distinct(ps),
        all_below(sel, ps.len() as int),
        chain_ok(ps, sel, anc, i),
        above.len() == anc.len(),
    ensures
        forall|k: int| 0 <= k < walk_node(ps, sel, i, above, last, fuel).len()
            ==> (#[trigger] walk_node(ps, sel, i, above, last, fuel)[k]).1.len() < ps.len(),
    decreases fuel, 0nat, 0nat,
{
    lemma_chain_short(ps, sel, anc, i);
    let me = seq![(i, above, last)];
    if fuel > 0 {
        let ks = kids_in(ps, sel, ps[i as int].id@);
        lemma_kids_within(ps, sel, ps[i as int].id@);
        lemma_kids_are_children(ps, sel, ps[i as int].id@);
        assert forall|k: int| 0 <= k < ks.len() implies chain_ok(ps, sel, anc.push(i), #[trigger] ks[k]) by {
            lemma_chain_extends(ps, sel, anc, i, ks[k]);
        }
        lemma_list_uncut(ps, sel, anc.push(i), ks, above.push(last), (fuel - 1) as nat);
        let rest = walk_list(ps, sel, ks, above.push(last), (fuel - 1) as nat);
        assert forall|k: int| 0 <= k < (me + rest).len() implies (#[trigger] (me + rest)[k]).1.len() < ps.len() by {
            if k >= 1 {
                assert((me + rest)[k] == rest[k - 1]);
            }
        }
    }
}

proof fn lemma_list_uncut(ps: Seq<Problem>, sel: Seq<usize>, anc: Seq<usize>, ks: Seq<usize>, above: Seq<bool>, fuel: nat)
    requires
        ids_distinct(ps),
        all_below(sel, ps.len() as int),
        forall|k: int| 0 <= k < ks.len() ==> chain_ok(ps, sel, anc, #[trigger] ks[k]),
        above.len() == anc.len(),
    ensures
        forall|k: int| 0 <= k < walk_list(ps, sel, ks, above, fuel).len()
            ==> (#[trigger] walk_list(ps, sel, ks, above, fuel)[k]).1.len() < ps.len(),
    decreases fuel, 1nat, ks.len(),
{
    if ks.len() > 0 {
        assert(chain_ok(ps, sel, anc, ks[0]));
        lemma_node_uncut(ps, sel, anc, ks[0], above, ks.len() == 1, fuel);
        let rest = ks.drop_first();
        assert forall|k: int| 0 <= k < rest.len() implies chain_ok(ps, sel, anc, #[trigger] rest[k]) by {
            assert(rest[k] == ks[k + 1]);
        }
        lemma_list_uncut(ps, sel, anc, rest, above, fuel);
        let a = walk_node(ps, sel, ks[0], above, ks.len() == 1, fuel);
        let b = walk_list(ps, sel, rest, above, fuel);
        assert forall|k: int| 0 <= k < (a + b).len() implies (#[trigger] (a + b)[k]).1.len() < ps.len() by {
            if k < a.len() {
                assert((a + b)[k] == a[k]);
            } else {
                assert((a + b)[k] == b[k - a.len()]);
            }
        }
    }
}

proof fn lemma_from_uncut(ps: Seq<Problem>, sel: Seq<usize>, starts: Seq<usize>, fuel: nat)
    requires
        ids_distinct(ps),
        all_below(sel, ps.len() as int),
        forall|k: int| 0 <= k < starts.len() ==> chain_ok(ps, sel, Seq::empty(), #[trigger] starts[k]),
    ensures
        forall|k: int| 0 <= k < walk_from(ps, sel, starts, fuel).len()
            ==> (#[trigger] walk_from(ps, sel, starts, fuel)[k]).1.len() < ps.len(),
    decreases starts.len(),
{
    if starts.len() > 0 {
        let front = starts.drop_last();
        assert forall|k: int| 0 <= k < front.len() implies chain_ok(ps, sel, Seq::empty(), #[trigger] front[k]) by {
            assert(front[k] == starts[k]);
        }
        lemma_from_uncut(ps, sel, front, fuel);
        assert(chain_ok(ps, sel, Seq::empty(), starts[starts.len() - 1]));
        lemma_node_uncut(ps, sel, Seq::empty(), starts.last(), Seq::empty(), true, fuel);
        let a = walk_from(ps, sel, front, fuel);
        let b = walk_node(ps, sel, starts.last(), Seq::empty(), true, fuel);
        assert forall|k: int| 0 <= k < (a + b).len() implies (#[trigger] (a + b)[k]).1.len() < ps.len() by {
            if k < a.len() {
                assert((a + b)[k] == a[k]);
            } else {
                assert((a + b)[k] == b[k - a.len()]);
            }
        }
    }
}

proof fn lemma_shown_increasing(ps: Seq<Problem>, milestone: Option<Seq<char>>, all: bool, k: int)
    requires
        0 <= k <= ps.len(),
        ps.len() <= usize::MAX,
    ensures
        forall|a: int, b: int| 0 <= a < b < shown_upto(ps, milestone, all, k).len()
            ==> (#[trigger] shown_upto(ps, milestone, all, k)[a]) < (#[trigger] shown_upto(ps, milestone, all, k)[b]),
    decreases k,
{
    if k > 0 {
        lemma_shown_increasing(ps, milestone, all, k - 1);
        lemma_shown_below(ps, milestone, all, k - 1);
        let prev = shown_upto(ps, milestone, all, k - 1);
        let cur = shown_upto(ps, milestone, all, k);
        assert forall|a: int, b: int| 0 <= a < b < cur.len() implies (#[trigger] cur[a]) < (#[trigger] cur[b]) by {
            if b < prev.len() {
                assert(cur[a] == prev[a] && cur[b] == prev[b]);
            } else {
                assert(cur[a] == prev[a]);
                assert(cur[b] == (k - 1) as usize);
                assert((prev[a] as int) < k - 1);
            }
        }
    }
}

/// With no two problems sharing an id, the graph is never cut short: every
/// line stands fewer levels deep than there are problems, so every shown
/// problem below a root is drawn with all of its shown sub-problems.
pub proof fn law_graph_uncut(ps: Seq<Problem>, milestone: Option<Seq<char>>, all: bool)
    requires
        ps.len() <= usize::MAX,
        ids_distinct(ps),
    ensures
        forall|k: int| 0 <= k < graph_steps(ps, milestone, all).len()
            ==> (#[trigger] graph_steps(ps, milestone, all)[k]).1.len() < ps.len(),
{
    let sel = shown_upto(ps, milestone, all, ps.len() as int);
    let roots = roots_upto(ps, sel, sel.len() as int);
    lemma_shown_below(ps, milestone, all, ps.len() as int);
    lemma_shown_increasing(ps, milestone, all, ps.len() as int);
    lemma_roots_within(ps, sel, sel.len() as int);
    lemma_roots_are_roots(ps, sel, sel.len() as int);
    assert forall|k: int| 0 <= k < roots.len() implies chain_ok(ps, sel, Seq::empty(), #[trigger] roots[k]) by {
        reveal(chain_ok);
        let full = Seq::<usize>::empty().push(roots[k]);
        assert(full[0] == roots[k]);
        assert(full.no_duplicates());
    }
    lemma_from_uncut(ps, sel, roots, ps.len() as nat);
}

proof fn lemma_roots_are_roots(ps: Seq<Problem>, sel: Seq<usize>, k: int)
    requires
        0 <= k <= sel.len(),
    ensures
        forall|q: int| 0 <= q < roots_upto(ps, sel, k).len() ==> graph_root(ps, sel, #[trigger] roots_upto(ps, sel, k)[q]),
    decreases k,
{
    if k > 0 {
        lemma_roots_are_roots(ps, sel, k - 1);
        let a = roots_upto(ps, sel, k - 1);
        assert forall|q: int| 0 <= q < roots_upto(ps, sel, k).len() implies graph_root(ps, sel, #[trigger] roots_upto(ps, sel, k)[q]) by {
            if q < a.len() {
                assert(roots_upto(ps, sel, k)[q] == a[q]);
            }
        }
    }
}


proof fn lemma_top_level_roots(ps: Seq<Problem>, k: int)
    requires
        0 <= k <= ps.len(),
        ps.len() <= usize::MAX,
    ensures
        forall|q: int| 0 <= q < top_level_upto(ps, k).len() ==> {
            let i = #[trigger] top_level_upto(ps, k)[q];
            &&& (i as int) < k
            &&& ps[i as int].parent_id is None
        },
    decreases k,
{
    if k > 0 {
        lemma_top_level_roots(ps, k - 1);
        let a = top_level_upto(ps, k - 1);
        assert forall|q: int| 0 <= q < top_level_upto(ps, k).len() implies {
            let i = #[trigger] top_level_upto(ps, k)[q];
            &&& (i as int) < k
            &&& ps[i as int].parent_id is None
        } by {
            if q < a.len() {
                assert(top_level_upto(ps, k)[q] == a[q]);
            } else {
                assert(top_level_upto(ps, k)[q] == (k - 1) as usize);
            }
        }
    }
}

/// With no two problems sharing an id, the tree of all top-level problems
/// is never cut short: every line stands fewer levels deep than there are
/// problems.
pub proof fn law_tree_uncut(ps: Seq<Problem>)
    requires
        ps.len() <= usize::MAX,
        ids_distinct(ps),
    ensures
        forall|k: int| 0 <= k < tree_steps(ps, None).len() ==> (#[trigger] tree_steps(ps, None)[k]).1.len() < ps.len(),
{
    let sel = every_index(ps.len() as int);
    let starts = top_level_upto(ps, ps.len() as int);
    lemma_top_level_roots(ps, ps.len() as int);
    assert forall|k: int| 0 <= k < starts.len() implies chain_ok(ps, sel, Seq::empty(), #[trigger] starts[k]) by {
        reveal(chain_ok);
        let i = starts[k];
        let full = Seq::<usize>::empty().push(i);
        assert(full[0] == i);
        assert(full.no_duplicates());
        assert(sel[i as int] == i);
        assert(sel.contains(i));
    }
    lemma_from_uncut(ps, sel, starts, ps.len() as nat);
}


/// The graph shows in-progress problems just as it shows open ones, and
/// solved or dissolved ones only when all are asked for.
pub proof fn law_graph_status_rule(p: Problem, milestone: Option<Seq<char>>, all: bool)
    ensures
        shown(Problem { status: ProblemStatus::InProgress, ..p }, milestone, all)
            == shown(Problem { status: ProblemStatus::Open, ..p }, milestone, all),
        shown(Problem { status: ProblemStatus::Solved, ..p }, milestone, all)
            == (all && shown(Problem { status: ProblemStatus::Open, ..p }, milestone, all)),
        shown(Problem { status: ProblemStatus::Dissolved, ..p }, milestone, all)
            == (all && shown(Problem { status: ProblemStatus::Open, ..p }, milestone, all)),
{
}

} // verus!
