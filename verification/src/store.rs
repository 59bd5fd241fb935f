//! The loaded metadata: every entity and the event log, with lookups by id.

use vstd::prelude::*;
use crate::models::{critique_blocks, Critique, Event, Milestone, Problem, ProblemStatus, Solution, SolutionStatus, CritiqueStatus};
use crate::automation::AutomationRule;
use crate::text::str_eq;

verus! {

/// Why a lifecycle operation was refused.
#[derive(Debug, PartialEq)]
pub enum JjjError {
    ProblemNotFound(String),
    SolutionNotFound(String),
    CritiqueNotFound(String),
    MilestoneNotFound(String),
    /// The entity's current status does not allow the requested change.
    InvalidTransition(String),
    /// The solution must be submitted for review before it can be approved.
    NotSubmitted { id: String, title: String, status: SolutionStatus },
    /// The configuration turns off what was asked for.
    Config(String),
    /// This many open or validated critiques still stand against the solution.
    CannotApproveSolution(usize),
    /// The problem cannot be marked solved, for the reason given.
    CannotSolveProblem(SolveCheck),
    /// No current user could be determined.
    UnknownUser,
    Validation(String),
}

/// Whether a problem may be marked solved.
#[derive(Debug, Clone, Copy, PartialEq, Eq, Structural)]
pub enum SolveCheck {
    Solvable,
    AlreadySolved,
    Dissolved,
    NoApprovedSolution,
}

/// The loaded metadata of one repository.
#[derive(Debug)]
pub struct MetadataStore {
    pub problems: Vec<Problem>,
    pub solutions: Vec<Solution>,
    pub critiques: Vec<Critique>,
    pub milestones: Vec<Milestone>,
    /// The decision log, oldest first.
    pub events: Vec<Event>,
    /// The current actor, when one could be determined.
    pub user: Option<String>,
    /// The automation rules in force.
    pub automation: Vec<AutomationRule>,
    /// The rules of the machine-local automation file, when there is one.
    pub local_automation: Option<Vec<AutomationRule>>,
    /// The `[settings]` table of the configuration, in file order.
    pub settings: Vec<(String, String)>,
}

// ───────────────────────── lookups (spec) ─────────────────────────

/// Index of the first entry of `ids` equal to `id`, or -1 when there is none.
pub open spec fn first_index(ids: Seq<Seq<char>>, id: Seq<char>) -> int
    decreases ids.len(),
{
    if ids.len() == 0 {
        -1
    } else {
        let k = first_index(ids.drop_last(), id);
        if k >= 0 {
            k
        } else if ids.last() == id {
            ids.len() - 1
        } else {
            -1
        }
    }
}

pub proof fn lemma_first_index(ids: Seq<Seq<char>>, id: Seq<char>)
    ensures
        -1 <= first_index(ids, id) < ids.len(),
        first_index(ids, id) >= 0 ==> ids[first_index(ids, id)] == id,
        forall|j: int|
            0 <= j < ids.len() && (first_index(ids, id) < 0 || j < first_index(ids, id))
                ==> #[trigger] ids[j] != id,
    decreases ids.len(),
{
    if ids.len() > 0 {
        let d = ids.drop_last();
        lemma_first_index(d, id);
        assert forall|j: int|
            0 <= j < ids.len() && (first_index(ids, id) < 0 || j < first_index(ids, id))
                implies #[trigger] ids[j] != id by {
            if j < d.len() {
                assert(ids[j] == d[j]);
            }
        }
    }
}

/// The first index of `id` in `ids`, extended by one more entry.
pub proof fn lemma_first_index_push(ids: Seq<Seq<char>>, id: Seq<char>, x: Seq<char>)
    ensures
        first_index(ids.push(x), id) == (if first_index(ids, id) >= 0 {
            first_index(ids, id)
        } else if x == id {
            ids.len() as int
        } else {
            -1
        }),
{
    assert(ids.push(x).drop_last() =~= ids);
}

pub open spec fn problem_ids(ps: Seq<Problem>) -> Seq<Seq<char>> {
    ps.map_values(|p: Problem| p.id@)
}

pub open spec fn solution_ids(ss: Seq<Solution>) -> Seq<Seq<char>> {
    ss.map_values(|s: Solution| s.id@)
}

pub open spec fn milestone_ids(ms: Seq<Milestone>) -> Seq<Seq<char>> {
    ms.map_values(|m: Milestone| m.id@)
}

pub open spec fn milestone_idx(ms: Seq<Milestone>, id: Seq<char>) -> int {
    first_index(milestone_ids(ms), id)
}

pub open spec fn has_milestone(ms: Seq<Milestone>, id: Seq<char>) -> bool {
    milestone_idx(ms, id) >= 0
}

pub open spec fn critique_ids(cs: Seq<Critique>) -> Seq<Seq<char>> {
    cs.map_values(|c: Critique| c.id@)
}

/// Index of the first problem with this id (-1 when there is none).
pub open spec fn problem_idx(ps: Seq<Problem>, id: Seq<char>) -> int {
    first_index(problem_ids(ps), id)
}

pub open spec fn has_problem(ps: Seq<Problem>, id: Seq<char>) -> bool {
    problem_idx(ps, id) >= 0
}

pub open spec fn solution_idx(ss: Seq<Solution>, id: Seq<char>) -> int {
    first_index(solution_ids(ss), id)
}

pub open spec fn has_solution(ss: Seq<Solution>, id: Seq<char>) -> bool {
    solution_idx(ss, id) >= 0
}

pub open spec fn critique_idx(cs: Seq<Critique>, id: Seq<char>) -> int {
    first_index(critique_ids(cs), id)
}

pub open spec fn has_critique(cs: Seq<Critique>, id: Seq<char>) -> bool {
    critique_idx(cs, id) >= 0
}

/// Some approved solution addresses problem `pid`.
pub open spec fn has_approved_solution(ss: Seq<Solution>, pid: Seq<char>) -> bool {
    exists|j: int|
        0 <= j < ss.len() && (#[trigger] ss[j]).problem_id@ == pid && ss[j].status
            == SolutionStatus::Approved
}

/// Whether a problem with this status, among these solutions, may be solved.
pub open spec fn solve_check(status: ProblemStatus, ss: Seq<Solution>, pid: Seq<char>) -> SolveCheck {
    if status == ProblemStatus::Solved {
        SolveCheck::AlreadySolved
    } else if status == ProblemStatus::Dissolved {
        SolveCheck::Dissolved
    } else if !has_approved_solution(ss, pid) {
        SolveCheck::NoApprovedSolution
    } else {
        SolveCheck::Solvable
    }
}

/// Number of critiques against solution `sid` that still block approval.
pub open spec fn blocking_count(cs: Seq<Critique>, sid: Seq<char>) -> nat
    decreases cs.len(),
{
    if cs.len() == 0 {
        0
    } else {
        blocking_count(cs.drop_last(), sid) + (if cs.last().solution_id@ == sid && critique_blocks(
            cs.last().status,
        ) {
            1nat
        } else {
            0nat
        })
    }
}

pub proof fn lemma_blocking_count_le(cs: Seq<Critique>, sid: Seq<char>)
    ensures
        blocking_count(cs, sid) <= cs.len(),
    decreases cs.len(),
{
    if cs.len() > 0 {
        lemma_blocking_count_le(cs.drop_last(), sid);
    }
}

/// A critique of `sid` that is open or validated is counted as blocking.
pub proof fn lemma_standing_critique_counted(cs: Seq<Critique>, sid: Seq<char>, k: int)
    requires
        0 <= k < cs.len(),
        cs[k].solution_id@ == sid,
        cs[k].status == CritiqueStatus::Open || cs[k].status == CritiqueStatus::Valid,
    ensures
        blocking_count(cs, sid) >= 1,
    decreases cs.len(),
{
    if k < cs.len() - 1 {
        assert(cs.drop_last()[k] == cs[k]);
        lemma_standing_critique_counted(cs.drop_last(), sid, k);
    }
}

/// The name events are attributed to: the current user, or empty.
pub open spec fn actor_or_empty(u: Option<String>) -> Seq<char> {
    match u {
        Some(s) => s@,
        None => Seq::empty(),
    }
}

/// A match found within a prefix is the first match of the whole sequence.
pub proof fn lemma_first_index_prefix(ids: Seq<Seq<char>>, id: Seq<char>, n: int)
    requires
        0 <= n <= ids.len(),
        first_index(ids.take(n), id) >= 0,
    ensures
        first_index(ids, id) == first_index(ids.take(n), id),
    decreases ids.len() - n,
{
    if n < ids.len() {
        lemma_first_index_push(ids.take(n), id, ids[n]);
        assert(ids.take(n).push(ids[n]) =~= ids.take(n + 1));
        lemma_first_index_prefix(ids, id, n + 1);
    } else {
        assert(ids.take(n) =~= ids);
    }
}

// ───────────────────────── lookups (exec) ─────────────────────────

impl MetadataStore {
    pub fn find_problem(&self, id: &str) -> (r: Option<usize>)
        ensures
            match r {
                Some(i) => has_problem(self.problems@, id@) && i as int == problem_idx(self.problems@, id@) && i < self.problems.len()
                    && self.problems@[i as int].id@ == id@,
                None => !has_problem(self.problems@, id@) && problem_idx(self.problems@, id@) == -1,
            },
    {
        let mut i: usize = 0;
        while i < self.problems.len()
            invariant
                i <= self.problems.len(),
                first_index(problem_ids(self.problems@).take(i as int), id@) == -1,
            decreases self.problems.len() - i,
        {
            let ghost ids = problem_ids(self.problems@);
            proof {
                lemma_first_index_push(ids.take(i as int), id@, ids[i as int]);
                assert(ids.take(i as int).push(ids[i as int]) =~= ids.take(i + 1));
            }
            if str_eq(self.problems[i].id.as_str(), id) {
                proof {
                    lemma_first_index_prefix(ids, id@, i + 1);
                }
                return Some(i);
            }
            i += 1;
        }
        assert(problem_ids(self.problems@).take(i as int) =~= problem_ids(self.problems@));
        None
    }

    pub fn find_solution(&self, id: &str) -> (r: Option<usize>)
        ensures
            match r {
                Some(i) => has_solution(self.solutions@, id@) && i as int == solution_idx(self.solutions@, id@) && i < self.solutions.len()
                    && self.solutions@[i as int].id@ == id@,
                None => !has_solution(self.solutions@, id@) && solution_idx(self.solutions@, id@) == -1,
            },
    {
        let mut i: usize = 0;
        while i < self.solutions.len()
            invariant
                i <= self.solutions.len(),
                first_index(solution_ids(self.solutions@).take(i as int), id@) == -1,
            decreases self.solutions.len() - i,
        {
            let ghost ids = solution_ids(self.solutions@);
            proof {
                lemma_first_index_push(ids.take(i as int), id@, ids[i as int]);
                assert(ids.take(i as int).push(ids[i as int]) =~= ids.take(i + 1));
            }
            if str_eq(self.solutions[i].id.as_str(), id) {
                proof {
                    lemma_first_index_prefix(ids, id@, i + 1);
                }
                return Some(i);
            }
            i += 1;
        }
        assert(solution_ids(self.solutions@).take(i as int) =~= solution_ids(self.solutions@));
        None
    }

    pub fn find_milestone(&self, id: &str) -> (r: Option<usize>)
        ensures
            match r {
                Some(i) => has_milestone(self.milestones@, id@) && i as int == milestone_idx(self.milestones@, id@) && i < self.milestones.len()
                    && self.milestones@[i as int].id@ == id@,
                None => !has_milestone(self.milestones@, id@) && milestone_idx(self.milestones@, id@) == -1,
            },
    {
        let mut i: usize = 0;
        while i < self.milestones.len()
            invariant
                i <= self.milestones.len(),
                first_index(milestone_ids(self.milestones@).take(i as int), id@) == -1,
            decreases self.milestones.len() - i,
        {
            let ghost ids = milestone_ids(self.milestones@);
            proof {
                lemma_first_index_push(ids.take(i as int), id@, ids[i as int]);
                assert(ids.take(i as int).push(ids[i as int]) =~= ids.take(i + 1));
            }
            if str_eq(self.milestones[i].id.as_str(), id) {
                proof {
                    lemma_first_index_prefix(ids, id@, i + 1);
                }
                return Some(i);
            }
            i += 1;
        }
        assert(milestone_ids(self.milestones@).take(i as int) =~= milestone_ids(self.milestones@));
        None
    }

    pub fn find_critique(&self, id: &str) -> (r: Option<usize>)
        ensures
            match r {
                Some(i) => has_critique(self.critiques@, id@) && i as int == critique_idx(self.critiques@, id@) && i < self.critiques.len()
                    && self.critiques@[i as int].id@ == id@,
                None => !has_critique(self.critiques@, id@) && critique_idx(self.critiques@, id@) == -1,
            },
    {
        let mut i: usize = 0;
        while i < self.critiques.len()
            invariant
                i <= self.critiques.len(),
                first_index(critique_ids(self.critiques@).take(i as int), id@) == -1,
            decreases self.critiques.len() - i,
        {
            let ghost ids = critique_ids(self.critiques@);
            proof {
                lemma_first_index_push(ids.take(i as int), id@, ids[i as int]);
                assert(ids.take(i as int).push(ids[i as int]) =~= ids.take(i + 1));
            }
            if str_eq(self.critiques[i].id.as_str(), id) {
                proof {
                    lemma_first_index_prefix(ids, id@, i + 1);
                }
                return Some(i);
            }
            i += 1;
        }
        assert(critique_ids(self.critiques@).take(i as int) =~= critique_ids(self.critiques@));
        None
    }

    pub fn any_approved_solution(&self, pid: &str) -> (r: bool)
        ensures
            r == has_approved_solution(self.solutions@, pid@),
    {
        let mut i: usize = 0;
        while i < self.solutions.len()
            invariant
                i <= self.solutions.len(),
                forall|j: int|
                    0 <= j < i ==> !((#[trigger] self.solutions@[j]).problem_id@ == pid@
                        && self.solutions@[j].status == SolutionStatus::Approved),
            decreases self.solutions.len() - i,
        {
            if self.solutions[i].status == SolutionStatus::Approved && str_eq(
                self.solutions[i].problem_id.as_str(),
                pid,
            ) {
                assert(self.solutions@[i as int].problem_id@ == pid@);
                return true;
            }
            i += 1;
        }
        false
    }

    /// `can_solve_problem` for the problem at index `pi`.
    pub fn solve_check_at(&self, pi: usize) -> (r: SolveCheck)
        requires
            pi < self.problems.len(),
        ensures
            r == solve_check(
                self.problems@[pi as int].status,
                self.solutions@,
                self.problems@[pi as int].id@,
            ),
    {
        let st = self.problems[pi].status;
        if st == ProblemStatus::Solved {
            SolveCheck::AlreadySolved
        } else if st == ProblemStatus::Dissolved {
            SolveCheck::Dissolved
        } else if !self.any_approved_solution(self.problems[pi].id.as_str()) {
            SolveCheck::NoApprovedSolution
        } else {
            SolveCheck::Solvable
        }
    }

    /// The number of critiques against solution `sid` that still block it.
    pub fn count_blocking_critiques(&self, sid: &str) -> (n: usize)
        ensures
            n == blocking_count(self.critiques@, sid@),
    {
        let mut n: usize = 0;
        let mut i: usize = 0;
        while i < self.critiques.len()
            invariant
                i <= self.critiques.len(),
                n == blocking_count(self.critiques@.take(i as int), sid@),
                n <= i,
            decreases self.critiques.len() - i,
        {
            let ghost pre = self.critiques@.take(i as int);
            assert(self.critiques@.take(i + 1).drop_last() =~= pre);
            let c = &self.critiques[i];
            if (c.status == CritiqueStatus::Open || c.status == CritiqueStatus::Valid) && str_eq(
                c.solution_id.as_str(),
                sid,
            ) {
                n += 1;
            }
            i += 1;
        }
        assert(self.critiques@.take(i as int) =~= self.critiques@);
        n
    }

    /// The current actor, or an empty name when none is known.
    pub fn current_user_or_default(&self) -> (r: String)
        ensures
            r@ == actor_or_empty(self.user),
    {
        match &self.user {
            Some(u) => u.clone(),
            None => String::new(),
        }
    }
}

} // verus!
