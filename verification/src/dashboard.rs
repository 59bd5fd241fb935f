//! A user's dashboard: their open problems, their live solutions, the open
//! critiques on those solutions, and project-wide counts.

use vstd::prelude::*;
use crate::models::{
    opt_view, problem_is_open, solution_is_active, Critique, CritiqueStatus, Problem, ProblemStatus,
    Solution, SolutionStatus,
};
use crate::store::MetadataStore;
use crate::text::{chars_of, str_eq, string_of, append_chars};

verus! {

/// An assignee `a` is the user with identity `who` when `@a` is `who`.
pub open spec fn assigned_to(assignee: Option<String>, who: Seq<char>) -> bool {
    match opt_view(assignee) {
        Some(a) => "@"@ + a == who,
        None => false,
    }
}

pub open spec fn usize_view(v: Seq<usize>) -> Seq<int> {
    v.map_values(|k: usize| k as int)
}

/// What the dashboard shows, as positions in the store's lists and counts.
#[derive(Debug, PartialEq)]
pub struct Dashboard {
    pub my_problems: Vec<usize>,
    pub my_solutions: Vec<usize>,
    pub my_open_critiques: Vec<usize>,
    pub open_problems: usize,
    pub in_progress_problems: usize,
    pub solutions_in_review: usize,
    pub open_critiques: usize,
}

fn assigned_exec(a: &Option<String>, who: &str) -> (b: bool)
    ensures
        b == assigned_to(*a, who@),
{
    match a {
        Some(x) => {
            let mut v = chars_of("@");
            let xv = chars_of(x.as_str());
            append_chars(&mut v, &xv);
            let s = string_of(&v);
            str_eq(s.as_str(), who)
        },
        None => false,
    }
}

fn is_mine_solution(sols: &Vec<usize>, ss: &Vec<Solution>, sid: &str) -> (b: bool)
    requires
        forall|j: int| 0 <= j < sols@.len() ==> sols@[j] < ss@.len(),
    ensures
        b == exists|j: int| 0 <= j < sols@.len() && ss@[sols@[j] as int].id@ == sid@,
{
    let mut j: usize = 0;
    while j < sols.len()
        invariant
            j <= sols.len(),
            forall|m: int| 0 <= m < sols@.len() ==> sols@[m] < ss@.len(),
            forall|m: int| 0 <= m < j ==> ss@[sols@[m] as int].id@ != sid@,
        decreases sols.len() - j,
    {
        if str_eq(ss[sols[j]].id.as_str(), sid) {
            return true;
        }
        j += 1;
    }
    false
}

/// The dashboard for the user with identity `who`.
pub fn dashboard(store: &MetadataStore, who: &str) -> (d: Dashboard)
    ensures
        usize_view(d.my_problems@) == Seq::new(store.problems@.len(), |i: int| i).filter(
            |i: int| assigned_to(store.problems@[i].assignee, who@) && problem_is_open(store.problems@[i].status),
        ),
        usize_view(d.my_solutions@) == Seq::new(store.solutions@.len(), |i: int| i).filter(
            |i: int| assigned_to(store.solutions@[i].assignee, who@) && solution_is_active(store.solutions@[i].status),
        ),
        forall|j: int| 0 <= j < d.my_solutions@.len() ==> d.my_solutions@[j] < store.solutions@.len(),
        usize_view(d.my_open_critiques@) == Seq::new(store.critiques@.len(), |i: int| i).filter(
            |i: int|
                store.critiques@[i].status == CritiqueStatus::Open && exists|j: int|
                    0 <= j < d.my_solutions@.len() && store.solutions@[d.my_solutions@[j] as int].id@
                        == store.critiques@[i].solution_id@,
        ),
        d.open_problems == store.problems@.filter(|p: Problem| p.status == ProblemStatus::Open).len(),
        d.in_progress_problems == store.problems@.filter(
            |p: Problem| p.status == ProblemStatus::InProgress,
        ).len(),
        d.solutions_in_review == store.solutions@.filter(
            |s: Solution| s.status == SolutionStatus::Submitted,
        ).len(),
        d.open_critiques == store.critiques@.filter(|c: Critique| c.status == CritiqueStatus::Open).len(),
{
    let ps = &store.problems;
    let ss = &store.solutions;
    let cs = &store.critiques;

    let ghost pall = Seq::new(ps@.len(), |i: int| i);
    let ghost pp = |i: int| assigned_to(ps@[i].assignee, who@) && problem_is_open(ps@[i].status);
    let ghost po = |p: Problem| p.status == ProblemStatus::Open;
    let ghost pi = |p: Problem| p.status == ProblemStatus::InProgress;
    let mut mine_p: Vec<usize> = Vec::new();
    let mut n_open: usize = 0;
    let mut n_prog: usize = 0;
    let mut i: usize = 0;
    while i < ps.len()
        invariant
            i <= ps.len(),
            ps == &store.problems,
            pall == Seq::new(ps@.len(), |i: int| i),
            pp == (|i: int| assigned_to(ps@[i].assignee, who@) && problem_is_open(ps@[i].status)),
            po == (|p: Problem| p.status == ProblemStatus::Open),
            pi == (|p: Problem| p.status == ProblemStatus::InProgress),
            usize_view(mine_p@) == pall.take(i as int).filter(pp),
            n_open == ps@.take(i as int).filter(po).len(),
            n_prog == ps@.take(i as int).filter(pi).len(),
            n_open <= i,
            n_prog <= i,
        decreases ps.len() - i,
    {
        proof {
            reveal(Seq::filter);
            assert(pall.take(i + 1).drop_last() =~= pall.take(i as int));
            assert(pall.take(i + 1).last() == i as int);
            assert(ps@.take(i + 1).drop_last() =~= ps@.take(i as int));
        }
        let p = &ps[i];
        let open = p.status == ProblemStatus::Open || p.status == ProblemStatus::InProgress;
        if open && assigned_exec(&p.assignee, who) {
            let ghost before = usize_view(mine_p@);
            mine_p.push(i);
            assert(usize_view(mine_p@) =~= before.push(i as int));
        }
        if p.status == ProblemStatus::Open {
            n_open += 1;
        }
        if p.status == ProblemStatus::InProgress {
            n_prog += 1;
        }
        i += 1;
    }
    assert(pall.take(i as int) =~= pall);
    assert(ps@.take(i as int) =~= ps@);

    let ghost sall = Seq::new(ss@.len(), |i: int| i);
    let ghost sp = |i: int| assigned_to(ss@[i].assignee, who@) && solution_is_active(ss@[i].status);
    let ghost sr = |s: Solution| s.status == SolutionStatus::Submitted;
    let mut mine_s: Vec<usize> = Vec::new();
    let mut n_rev: usize = 0;
    let mut i: usize = 0;
    while i < ss.len()
        invariant
            i <= ss.len(),
            ss == &store.solutions,
            sall == Seq::new(ss@.len(), |i: int| i),
            sp == (|i: int| assigned_to(ss@[i].assignee, who@) && solution_is_active(ss@[i].status)),
            sr == (|s: Solution| s.status == SolutionStatus::Submitted),
            usize_view(mine_s@) == sall.take(i as int).filter(sp),
            forall|j: int| 0 <= j < mine_s@.len() ==> mine_s@[j] < i,
            n_rev == ss@.take(i as int).filter(sr).len(),
            n_rev <= i,
        decreases ss.len() - i,
    {
        proof {
            reveal(Seq::filter);
            assert(sall.take(i + 1).drop_last() =~= sall.take(i as int));
            assert(sall.take(i + 1).last() == i as int);
            assert(ss@.take(i + 1).drop_last() =~= ss@.take(i as int));
        }
        let s = &ss[i];
        let live = s.status == SolutionStatus::Proposed || s.status == SolutionStatus::Submitted;
        if live && assigned_exec(&s.assignee, who) {
            let ghost before = usize_view(mine_s@);
            mine_s.push(i);
            assert(usize_view(mine_s@) =~= before.push(i as int));
        }
        if s.status == SolutionStatus::Submitted {
            n_rev += 1;
        }
        i += 1;
    }
    assert(sall.take(i as int) =~= sall);
    assert(ss@.take(i as int) =~= ss@);

    let ghost call = Seq::new(cs@.len(), |i: int| i);
    let ghost cp = |i: int|
        cs@[i].status == CritiqueStatus::Open && exists|j: int|
            0 <= j < mine_s@.len() && ss@[mine_s@[j] as int].id@ == cs@[i].solution_id@;
    let ghost co = |c: Critique| c.status == CritiqueStatus::Open;
    let mut mine_c: Vec<usize> = Vec::new();
    let mut n_crit: usize = 0;
    let mut i: usize = 0;
    while i < cs.len()
        invariant
            i <= cs.len(),
            cs == &store.critiques,
            ss == &store.solutions,
            forall|j: int| 0 <= j < mine_s@.len() ==> mine_s@[j] < ss@.len(),
            call == Seq::new(cs@.len(), |i: int| i),
            cp == (|i: int|
                cs@[i].status == CritiqueStatus::Open && exists|j: int|
                    0 <= j < mine_s@.len() && ss@[mine_s@[j] as int].id@ == cs@[i].solution_id@),
            co == (|c: Critique| c.status == CritiqueStatus::Open),
            usize_view(mine_c@) == call.take(i as int).filter(cp),
            n_crit == cs@.take(i as int).filter(co).len(),
            n_crit <= i,
        decreases cs.len() - i,
    {
        proof {
            reveal(Seq::filter);
            assert(call.take(i + 1).drop_last() =~= call.take(i as int));
            assert(call.take(i + 1).last() == i as int);
            assert(cs@.take(i + 1).drop_last() =~= cs@.take(i as int));
        }
        let c = &cs[i];
        if c.status == CritiqueStatus::Open {
            n_crit += 1;
            if is_mine_solution(&mine_s, ss, c.solution_id.as_str()) {
                let ghost before = usize_view(mine_c@);
                mine_c.push(i);
                assert(usize_view(mine_c@) =~= before.push(i as int));
            }
        }
        i += 1;
    }
    assert(call.take(i as int) =~= call);
    assert(cs@.take(i as int) =~= cs@);
    Dashboard {
        my_problems: mine_p,
        my_solutions: mine_s,
        my_open_critiques: mine_c,
        open_problems: n_open,
        in_progress_problems: n_prog,
        solutions_in_review: n_rev,
        open_critiques: n_crit,
    }
}


// ───────────────────────── laws ─────────────────────────

/// Every open or in-progress problem assigned to `who` is on their dashboard.
pub proof fn law_my_open_problems_listed(ps: Seq<Problem>, who: Seq<char>, i: int)
    requires
        0 <= i < ps.len(),
        assigned_to(ps[i].assignee, who),
        ps[i].status == ProblemStatus::Open || ps[i].status == ProblemStatus::InProgress,
    ensures
        Seq::new(ps.len(), |i: int| i).filter(
            |i: int| assigned_to(ps[i].assignee, who) && problem_is_open(ps[i].status),
        ).contains(i),
{
    let all = Seq::new(ps.len(), |i: int| i);
    assert(all[i] == i);
    all.lemma_filter_contains(|i: int| assigned_to(ps[i].assignee, who) && problem_is_open(ps[i].status), i);
}

} // verus!
