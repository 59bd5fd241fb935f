//! Milestones: which problems they hold, how far along they are, and the
//! order of the roadmap.

use vstd::prelude::*;
use crate::listing::{ints, lemma_map_multiset, sort_positions, sorted_positions};
use crate::models::{opt_view, Milestone, MilestoneStatus, Problem, ProblemStatus, Solution, SolutionStatus};
use crate::store::{has_milestone, has_problem, milestone_idx, problem_idx, JjjError, MetadataStore};
use crate::text::{strs, append_chars, chars_of, decimal, push_decimal, str_eq, string_of, views, without};

verus! {

// ───────────────────────── progress ─────────────────────────

/// How a problem's status shows in a milestone.
pub open spec fn problem_icon_spec(s: ProblemStatus) -> Seq<char> {
    match s {
        ProblemStatus::Open => "[ ]"@,
        ProblemStatus::InProgress => "[>]"@,
        ProblemStatus::Solved => "[+]"@,
        ProblemStatus::Dissolved => "[~]"@,
    }
}

pub fn problem_icon(s: ProblemStatus) -> (r: &'static str)
    ensures
        r@ == problem_icon_spec(s),
{
    match s {
        ProblemStatus::Open => "[ ]",
        ProblemStatus::InProgress => "[>]",
        ProblemStatus::Solved => "[+]",
        ProblemStatus::Dissolved => "[~]",
    }
}

/// How a milestone's status shows on the roadmap.
pub open spec fn milestone_icon_spec(s: MilestoneStatus) -> Seq<char> {
    match s {
        MilestoneStatus::Planning => " "@,
        MilestoneStatus::Active => ">"@,
        MilestoneStatus::Completed => "+"@,
        MilestoneStatus::Cancelled => "x"@,
    }
}

pub fn milestone_icon(s: MilestoneStatus) -> (r: &'static str)
    ensures
        r@ == milestone_icon_spec(s),
{
    match s {
        MilestoneStatus::Planning => " ",
        MilestoneStatus::Active => ">",
        MilestoneStatus::Completed => "+",
        MilestoneStatus::Cancelled => "x",
    }
}

/// One problem of a milestone: where it is, and how many solutions it has,
/// approved and submitted.
#[derive(Debug, PartialEq)]
pub struct ProblemLine {
    pub position: usize,
    pub solutions: usize,
    pub approved: usize,
    pub submitted: usize,
}

/// A milestone's problems (those that exist, in its list order) and how many
/// are done (solved or dissolved), in progress, and open.
#[derive(Debug, PartialEq)]
pub struct MilestoneProgress {
    pub lines: Vec<ProblemLine>,
    pub done: usize,
    pub in_progress: usize,
    pub open: usize,
}

pub open spec fn count_solutions(ss: Seq<Solution>, pid: Seq<char>, st: Option<SolutionStatus>) -> nat {
    ss.filter(|s: Solution| s.problem_id@ == pid && (st is None || Some(s.status) == st)).len()
}

pub open spec fn line_of(ps: Seq<Problem>, ss: Seq<Solution>, pid: Seq<char>) -> (int, nat, nat, nat) {
    (
        problem_idx(ps, pid),
        count_solutions(ss, pid, None),
        count_solutions(ss, pid, Some(SolutionStatus::Approved)),
        count_solutions(ss, pid, Some(SolutionStatus::Submitted)),
    )
}

/// The milestone's problem ids that name an existing problem.
pub open spec fn known(ps: Seq<Problem>, pids: Seq<Seq<char>>) -> Seq<Seq<char>> {
    pids.filter(|pid: Seq<char>| has_problem(ps, pid))
}

pub open spec fn lines_view(v: Seq<ProblemLine>) -> Seq<(int, nat, nat, nat)> {
    v.map_values(|l: ProblemLine| (l.position as int, l.solutions as nat, l.approved as nat, l.submitted as nat))
}

pub open spec fn done_ids(ps: Seq<Problem>, pids: Seq<Seq<char>>) -> Seq<Seq<char>> {
    known(ps, pids).filter(|pid: Seq<char>| is_done(ps[problem_idx(ps, pid)].status))
}

pub open spec fn ids_at(ps: Seq<Problem>, pids: Seq<Seq<char>>, st: ProblemStatus) -> Seq<Seq<char>> {
    known(ps, pids).filter(|pid: Seq<char>| ps[problem_idx(ps, pid)].status == st)
}

pub open spec fn is_done(s: ProblemStatus) -> bool {
    s == ProblemStatus::Solved || s == ProblemStatus::Dissolved
}

pub(crate) fn count_for(ss: &Vec<Solution>, pid: &str, st: Option<SolutionStatus>) -> (n: usize)
    ensures
        n == count_solutions(ss@, pid@, st),
{
    let ghost pred = |s: Solution| s.problem_id@ == pid@ && (st is None || Some(s.status) == st);
    let mut n: usize = 0;
    let mut i: usize = 0;
    while i < ss.len()
        invariant
            i <= ss.len(),
            pred == (|s: Solution| s.problem_id@ == pid@ && (st is None || Some(s.status) == st)),
            n == ss@.take(i as int).filter(pred).len(),
            n <= i,
        decreases ss.len() - i,
    {
        proof {
            reveal(Seq::filter);
            assert(ss@.take(i + 1).drop_last() =~= ss@.take(i as int));
        }
        let s = &ss[i];
        let status_ok = match st {
            None => true,
            Some(x) => s.status == x,
        };
        if status_ok && str_eq(s.problem_id.as_str(), pid) {
            n += 1;
        }
        i += 1;
    }
    assert(ss@.take(i as int) =~= ss@);
    n
}

/// The problems of milestone `m` with their solution counts, and the tally
/// of their statuses.
pub fn milestone_progress(store: &MetadataStore, m: &Milestone) -> (r: MilestoneProgress)
    ensures
        lines_view(r.lines@) == known(store.problems@, strs(m.problem_ids@)).map_values(
            |pid: Seq<char>| line_of(store.problems@, store.solutions@, pid),
        ),
        r.done == done_ids(store.problems@, strs(m.problem_ids@)).len(),
        r.in_progress == ids_at(store.problems@, strs(m.problem_ids@), ProblemStatus::InProgress).len(),
        r.open == ids_at(store.problems@, strs(m.problem_ids@), ProblemStatus::Open).len(),
{
    let ghost ps = store.problems@;
    let ghost pids = strs(m.problem_ids@);
    let ghost kp = |pid: Seq<char>| has_problem(ps, pid);
    let ghost lf = |pid: Seq<char>| line_of(ps, store.solutions@, pid);
    let ghost dp = |pid: Seq<char>| is_done(ps[problem_idx(ps, pid)].status);
    let ghost ip = |pid: Seq<char>| ps[problem_idx(ps, pid)].status == ProblemStatus::InProgress;
    let ghost op = |pid: Seq<char>| ps[problem_idx(ps, pid)].status == ProblemStatus::Open;
    let mut lines: Vec<ProblemLine> = Vec::new();
    let mut done: usize = 0;
    let mut in_progress: usize = 0;
    let mut open: usize = 0;
    let mut j: usize = 0;
    while j < m.problem_ids.len()
        invariant
            j <= m.problem_ids.len(),
            ps == store.problems@,
            pids == strs(m.problem_ids@),
            kp == (|pid: Seq<char>| has_problem(ps, pid)),
            lf == (|pid: Seq<char>| line_of(ps, store.solutions@, pid)),
            dp == (|pid: Seq<char>| is_done(ps[problem_idx(ps, pid)].status)),
            ip == (|pid: Seq<char>| ps[problem_idx(ps, pid)].status == ProblemStatus::InProgress),
            op == (|pid: Seq<char>| ps[problem_idx(ps, pid)].status == ProblemStatus::Open),
            lines_view(lines@) == pids.take(j as int).filter(kp).map_values(lf),
            done == pids.take(j as int).filter(kp).filter(dp).len(),
            in_progress == pids.take(j as int).filter(kp).filter(ip).len(),
            open == pids.take(j as int).filter(kp).filter(op).len(),
            done + in_progress + open <= j,
            lines@.len() <= j,
        decreases m.problem_ids.len() - j,
    {
        let ghost prev = pids.take(j as int).filter(kp);
        proof {
            reveal(Seq::filter);
            assert(pids.take(j + 1).drop_last() =~= pids.take(j as int));
            assert(pids[j as int] == m.problem_ids@[j as int]@);
        }
        let pid = m.problem_ids[j].as_str();
        match store.find_problem(pid) {
            Some(k) => {
                let p = &store.problems[k];
                let line = ProblemLine {
                    position: k,
                    solutions: count_for(&store.solutions, pid, None),
                    approved: count_for(&store.solutions, pid, Some(SolutionStatus::Approved)),
                    submitted: count_for(&store.solutions, pid, Some(SolutionStatus::Submitted)),
                };
                let ghost lv = lines_view(lines@);
                lines.push(line);
                proof {
                    assert(pids.take(j + 1).filter(kp) =~= prev.push(pid@));
                    assert(prev.push(pid@).drop_last() =~= prev);
                    assert(lines_view(lines@) =~= lv.push(lf(pid@)));
                    assert(prev.push(pid@).map_values(lf) =~= prev.map_values(lf).push(lf(pid@)));
                    assert(prev.push(pid@).filter(dp) =~= if dp(pid@) { prev.filter(dp).push(pid@) } else { prev.filter(dp) });
                    assert(prev.push(pid@).filter(ip) =~= if ip(pid@) { prev.filter(ip).push(pid@) } else { prev.filter(ip) });
                    assert(prev.push(pid@).filter(op) =~= if op(pid@) { prev.filter(op).push(pid@) } else { prev.filter(op) });
                }
                match p.status {
                    ProblemStatus::Open => open += 1,
                    ProblemStatus::InProgress => in_progress += 1,
                    _ => done += 1,
                }
            },
            None => {
                assert(pids.take(j + 1).filter(kp) =~= prev);
            },
        }
        j += 1;
    }
    assert(pids.take(j as int) =~= pids);
    MilestoneProgress { lines, done, in_progress, open }
}

// ───────────────────────── the roadmap ─────────────────────────

/// A milestone's place on the roadmap: by target date, undated ones last
/// and among themselves by id (equal dates keep list order).
pub open spec fn date_key(m: Milestone) -> int {
    match m.target_date {
        Some(d) => d as int,
        None => i64::MAX as int + 1,
    }
}

pub open spec fn undated_key(m: Milestone) -> Seq<char> {
    match m.target_date {
        Some(_) => Seq::empty(),
        None => m.id@,
    }
}

pub open spec fn roadmap_keys(ms: Seq<Milestone>) -> (Seq<int>, Seq<Seq<char>>) {
    (ms.map_values(|m: Milestone| date_key(m)), ms.map_values(|m: Milestone| undated_key(m)))
}

/// Every milestone (its position), in roadmap order.
pub fn roadmap_order(milestones: &Vec<Milestone>) -> (r: Vec<usize>)
    ensures
        r@.map_values(|k: usize| k as int).to_multiset() == Seq::new(milestones@.len(), |i: int| i).to_multiset(),
        sorted_positions(roadmap_keys(milestones@).0, roadmap_keys(milestones@).1, r@),
{
    let ghost ms = milestones@;
    let mut pos: Vec<usize> = Vec::new();
    let mut kn: Vec<i128> = Vec::new();
    let mut kt: Vec<Vec<char>> = Vec::new();
    let mut i: usize = 0;
    while i < milestones.len()
        invariant
            i <= milestones.len(),
            ms == milestones@,
            kn@.len() == i,
            kt@.len() == i,
            pos@.len() == i,
            ints(kn@) == roadmap_keys(ms).0.take(i as int),
            views(kt@) == roadmap_keys(ms).1.take(i as int),
            forall|j: int| 0 <= j < i ==> pos@[j] == j,
        decreases milestones.len() - i,
    {
        let m = &milestones[i];
        let ghost kn0 = ints(kn@);
        let ghost kt0 = views(kt@);
        match m.target_date {
            Some(d) => {
                kn.push(d as i128);
                kt.push(Vec::new());
            },
            None => {
                kn.push(i64::MAX as i128 + 1);
                kt.push(chars_of(m.id.as_str()));
            },
        }
        assert(ints(kn@) =~= roadmap_keys(ms).0.take(i + 1)) by {
            assert(ints(kn@) =~= kn0.push(date_key(*m)));
        }
        assert(views(kt@) =~= roadmap_keys(ms).1.take(i + 1)) by {
            assert(views(kt@) =~= kt0.push(undated_key(*m)));
        }
        pos.push(i);
        i += 1;
    }
    assert(ints(kn@) =~= roadmap_keys(ms).0);
    assert(views(kt@) =~= roadmap_keys(ms).1);
    let ghost before = pos@;
    assert(before.map_values(|k: usize| k as int) =~= Seq::new(ms.len(), |i: int| i));
    let r = sort_positions(pos, &kn, &kt);
    proof {
        lemma_map_multiset(r@, before);
    }
    r
}

/// How many of a milestone's listed problems exist and are done.
pub open spec fn done_count(ps: Seq<Problem>, pids: Seq<Seq<char>>) -> nat {
    pids.filter(|pid: Seq<char>| has_problem(ps, pid) && is_done(ps[problem_idx(ps, pid)].status)).len()
}

/// Listing one more problem adds one to the done count exactly when it
/// exists and is solved or dissolved.
pub proof fn law_done_count_push(ps: Seq<Problem>, pids: Seq<Seq<char>>, pid: Seq<char>)
    ensures
        done_count(ps, pids.push(pid)) == done_count(ps, pids) + (if has_problem(ps, pid) && (
            ps[problem_idx(ps, pid)].status == ProblemStatus::Solved
                || ps[problem_idx(ps, pid)].status == ProblemStatus::Dissolved) {
            1int
        } else {
            0int
        }),
{
    let pred = |q: Seq<char>| has_problem(ps, q) && is_done(ps[problem_idx(ps, q)].status);
    pids.lemma_filter_push(pid, pred);
}

/// When every listed problem exists and is solved or dissolved, the roadmap
/// counts all of them as done.
pub proof fn law_all_settled_all_done(ps: Seq<Problem>, pids: Seq<Seq<char>>)
    requires
        forall|k: int| 0 <= k < pids.len() ==> has_problem(ps, #[trigger] pids[k]) && (
            ps[problem_idx(ps, pids[k])].status == ProblemStatus::Solved
                || ps[problem_idx(ps, pids[k])].status == ProblemStatus::Dissolved),
    ensures
        done_count(ps, pids) == pids.len(),
    decreases pids.len(),
{
    if pids.len() > 0 {
        let front = pids.drop_last();
        assert forall|k: int| 0 <= k < front.len() implies has_problem(ps, #[trigger] front[k]) && (
            ps[problem_idx(ps, front[k])].status == ProblemStatus::Solved
                || ps[problem_idx(ps, front[k])].status == ProblemStatus::Dissolved) by {
            assert(front[k] == pids[k]);
        }
        law_all_settled_all_done(ps, front);
        law_done_count_push(ps, front, pids.last());
        assert(front.push(pids.last()) =~= pids);
        assert(pids[pids.len() - 1] == pids.last());
    }
}

proof fn lemma_tally_partition(ps: Seq<Problem>, ks: Seq<Seq<char>>)
    requires
        forall|k: int| 0 <= k < ks.len() ==> has_problem(ps, #[trigger] ks[k]),
    ensures
        ks.filter(|pid: Seq<char>| is_done(ps[problem_idx(ps, pid)].status)).len()
            + ks.filter(|pid: Seq<char>| ps[problem_idx(ps, pid)].status == ProblemStatus::InProgress).len()
            + ks.filter(|pid: Seq<char>| ps[problem_idx(ps, pid)].status == ProblemStatus::Open).len()
            == ks.len(),
    decreases ks.len(),
{
    if ks.len() > 0 {
        let front = ks.drop_last();
        assert forall|k: int| 0 <= k < front.len() implies has_problem(ps, #[trigger] front[k]) by {
            assert(front[k] == ks[k]);
        }
        lemma_tally_partition(ps, front);
        assert(front.push(ks.last()) =~= ks);
        front.lemma_filter_push(ks.last(), |pid: Seq<char>| is_done(ps[problem_idx(ps, pid)].status));
        front.lemma_filter_push(ks.last(), |pid: Seq<char>| ps[problem_idx(ps, pid)].status == ProblemStatus::InProgress);
        front.lemma_filter_push(ks.last(), |pid: Seq<char>| ps[problem_idx(ps, pid)].status == ProblemStatus::Open);
    }
}

/// Every listed problem that exists is counted exactly once: solved and
/// dissolved ones as done, the others as in progress or open.
pub proof fn law_progress_counts_every_problem(ps: Seq<Problem>, pids: Seq<Seq<char>>)
    ensures
        done_ids(ps, pids).len() + ids_at(ps, pids, ProblemStatus::InProgress).len()
            + ids_at(ps, pids, ProblemStatus::Open).len() == known(ps, pids).len(),
        forall|k: int| 0 <= k < known(ps, pids).len() ==> {
            let st = ps[problem_idx(ps, #[trigger] known(ps, pids)[k])].status;
            (st == ProblemStatus::Solved || st == ProblemStatus::Dissolved) ==> done_ids(ps, pids).contains(known(ps, pids)[k])
        },
{
    let ks = known(ps, pids);
    assert forall|k: int| 0 <= k < ks.len() implies has_problem(ps, #[trigger] ks[k]) by {
        pids.lemma_filter_pred(|pid: Seq<char>| has_problem(ps, pid), k);
    }
    lemma_tally_partition(ps, ks);
    assert forall|k: int| 0 <= k < ks.len() implies {
        let st = ps[problem_idx(ps, #[trigger] ks[k])].status;
        (st == ProblemStatus::Solved || st == ProblemStatus::Dissolved) ==> done_ids(ps, pids).contains(ks[k])
    } by {
        let st = ps[problem_idx(ps, ks[k])].status;
        if st == ProblemStatus::Solved || st == ProblemStatus::Dissolved {
            ks.lemma_filter_contains(|pid: Seq<char>| is_done(ps[problem_idx(ps, pid)].status), k);
        }
    }
}

pub open spec fn roadmap_progress_text(done: nat, total: nat) -> Seq<char> {
    if total > 0 {
        decimal(done) + "/"@ + decimal(total) + " problems solved"@
    } else {
        "No problems"@
    }
}

/// A milestone's progress line on the roadmap.
pub fn roadmap_progress(store: &MetadataStore, m: &Milestone) -> (r: String)
    ensures
        r@ == roadmap_progress_text(done_count(store.problems@, strs(m.problem_ids@)), m.problem_ids@.len()),
{
    let ghost ps = store.problems@;
    let ghost pids = strs(m.problem_ids@);
    let ghost pred = |pid: Seq<char>| has_problem(ps, pid) && is_done(ps[problem_idx(ps, pid)].status);
    let mut done: usize = 0;
    let mut j: usize = 0;
    while j < m.problem_ids.len()
        invariant
            j <= m.problem_ids.len(),
            ps == store.problems@,
            pids == strs(m.problem_ids@),
            pred == (|pid: Seq<char>| has_problem(ps, pid) && is_done(ps[problem_idx(ps, pid)].status)),
            done == pids.take(j as int).filter(pred).len(),
            done <= j,
        decreases m.problem_ids.len() - j,
    {
        proof {
            reveal(Seq::filter);
            assert(pids.take(j + 1).drop_last() =~= pids.take(j as int));
            assert(pids[j as int] == m.problem_ids@[j as int]@);
        }
        match store.find_problem(m.problem_ids[j].as_str()) {
            Some(k) => {
                let st = store.problems[k].status;
                if st == ProblemStatus::Solved || st == ProblemStatus::Dissolved {
                    done += 1;
                }
            },
            None => {},
        }
        j += 1;
    }
    assert(pids.take(j as int) =~= pids);
    let total = m.problem_ids.len();
    if total > 0 {
        let mut v: Vec<char> = Vec::new();
        push_decimal(&mut v, done as u64);
        let slash = chars_of("/");
        append_chars(&mut v, &slash);
        push_decimal(&mut v, total as u64);
        let tail = chars_of(" problems solved");
        append_chars(&mut v, &tail);
        string_of(&v)
    } else {
        string_of(&chars_of("No problems"))
    }
}

// ───────────────────────── membership ─────────────────────────

/// What adding problem `pid` to milestone `mid` does: nothing when it is
/// already listed (`Ok(false)`); otherwise the milestone lists it last and
/// the problem names the milestone (`Ok(true)`).
pub open spec fn add_post(s0: MetadataStore, mid: Seq<char>, pid: Seq<char>, r: Result<bool, JjjError>, s1: MetadataStore) -> bool {
    if !has_milestone(s0.milestones@, mid) {
        r matches Err(JjjError::MilestoneNotFound(x)) && x@ == mid && s1 == s0
    } else if !has_problem(s0.problems@, pid) {
        r matches Err(JjjError::ProblemNotFound(x)) && x@ == pid && s1 == s0
    } else {
        let mi = milestone_idx(s0.milestones@, mid);
        let pi = problem_idx(s0.problems@, pid);
        let m0 = s0.milestones@[mi];
        if strs(m0.problem_ids@).contains(pid) {
            r == Ok::<bool, JjjError>(false) && s1 == s0
        } else {
            &&& r == Ok::<bool, JjjError>(true)
            &&& s1.milestones@.len() == s0.milestones@.len()
            &&& forall|j: int| 0 <= j < s0.milestones@.len() && j != mi ==> s1.milestones@[j] == s0.milestones@[j]
            &&& s1.milestones@[mi].id == m0.id && s1.milestones@[mi].title == m0.title
            &&& s1.milestones@[mi].status == m0.status && s1.milestones@[mi].target_date == m0.target_date
            &&& strs(s1.milestones@[mi].problem_ids@) == strs(m0.problem_ids@).push(pid)
            &&& s1.problems@ == s0.problems@.update(pi, Problem { milestone_id: s1.problems@[pi].milestone_id, ..s0.problems@[pi] })
            &&& opt_view(s1.problems@[pi].milestone_id) == Some(mid)
            &&& s1.solutions == s0.solutions && s1.critiques == s0.critiques && s1.events == s0.events
            &&& s1.user == s0.user && s1.automation == s0.automation
            &&& s1.local_automation == s0.local_automation && s1.settings == s0.settings
        }
    }
}

pub(crate) fn lists(ids: &Vec<String>, id: &str) -> (b: bool)
    ensures
        b == strs(ids@).contains(id@),
{
    let mut k: usize = 0;
    while k < ids.len()
        invariant
            k <= ids.len(),
            forall|j: int| 0 <= j < k ==> ids@[j]@ != id@,
        decreases ids.len() - k,
    {
        if str_eq(ids[k].as_str(), id) {
            assert(strs(ids@)[k as int] == id@);
            return true;
        }
        k += 1;
    }
    proof {
        if strs(ids@).contains(id@) {
            let j = choose|j: int| 0 <= j < strs(ids@).len() && strs(ids@)[j] == id@;
            assert(strs(ids@)[j] == ids@[j]@);
        }
    }
    false
}

/// Put problem `problem_id` on milestone `milestone_id`.
pub fn add_to_milestone(store: &mut MetadataStore, milestone_id: &str, problem_id: &str) -> (r: Result<bool, JjjError>)
    ensures
        add_post(*old(store), milestone_id@, problem_id@, r, *final(store)),
{
    let ghost s0 = *store;
    let mi = match store.find_milestone(milestone_id) {
        Some(k) => k,
        None => return Err(JjjError::MilestoneNotFound(string_of(&chars_of(milestone_id)))),
    };
    let pi = match store.find_problem(problem_id) {
        Some(k) => k,
        None => return Err(JjjError::ProblemNotFound(string_of(&chars_of(problem_id)))),
    };
    if lists(&store.milestones[mi].problem_ids, problem_id) {
        return Ok(false);
    }
    let mut m = store.milestones.remove(mi);
    let ghost ids0 = strs(m.problem_ids@);
    m.problem_ids.push(string_of(&chars_of(problem_id)));
    assert(strs(m.problem_ids@) =~= ids0.push(problem_id@));
    store.milestones.insert(mi, m);
    store.problems[pi].milestone_id = Some(string_of(&chars_of(milestone_id)));
    proof {
        assert forall|j: int| 0 <= j < s0.milestones@.len() && j != mi implies store.milestones@[j]
            == s0.milestones@[j] by {
            if j < mi {
            } else {
            }
        }
        assert(store.problems@ =~= s0.problems@.update(
            pi as int,
            Problem { milestone_id: store.problems@[pi as int].milestone_id, ..s0.problems@[pi as int] },
        ));
    }
    Ok(true)
}

/// What taking problem `pid` off milestone `mid` does: the milestone no
/// longer lists it, and the problem stops naming the milestone if it did.
pub open spec fn remove_post(s0: MetadataStore, mid: Seq<char>, pid: Seq<char>, r: Result<(), JjjError>, s1: MetadataStore) -> bool {
    if !has_milestone(s0.milestones@, mid) {
        r matches Err(JjjError::MilestoneNotFound(x)) && x@ == mid && s1 == s0
    } else if !has_problem(s0.problems@, pid) {
        r matches Err(JjjError::ProblemNotFound(x)) && x@ == pid && s1 == s0
    } else {
        let mi = milestone_idx(s0.milestones@, mid);
        let pi = problem_idx(s0.problems@, pid);
        let m0 = s0.milestones@[mi];
        let p0 = s0.problems@[pi];
        &&& r is Ok
        &&& s1.milestones@.len() == s0.milestones@.len()
        &&& forall|j: int| 0 <= j < s0.milestones@.len() && j != mi ==> s1.milestones@[j] == s0.milestones@[j]
        &&& s1.milestones@[mi].id == m0.id && s1.milestones@[mi].title == m0.title
        &&& s1.milestones@[mi].status == m0.status && s1.milestones@[mi].target_date == m0.target_date
        &&& strs(s1.milestones@[mi].problem_ids@) == without(strs(m0.problem_ids@), pid)
        &&& s1.problems@ == (if opt_view(p0.milestone_id) == Some(mid) {
            s0.problems@.update(pi, Problem { milestone_id: None, ..p0 })
        } else {
            s0.problems@
        })
        &&& s1.solutions == s0.solutions && s1.critiques == s0.critiques && s1.events == s0.events
        &&& s1.user == s0.user && s1.automation == s0.automation
        &&& s1.local_automation == s0.local_automation && s1.settings == s0.settings
    }
}

/// Take problem `problem_id` off milestone `milestone_id`.
pub fn remove_from_milestone(store: &mut MetadataStore, milestone_id: &str, problem_id: &str) -> (r: Result<(), JjjError>)
    ensures
        remove_post(*old(store), milestone_id@, problem_id@, r, *final(store)),
{
    let ghost s0 = *store;
    let mi = match store.find_milestone(milestone_id) {
        Some(k) => k,
        None => return Err(JjjError::MilestoneNotFound(string_of(&chars_of(milestone_id)))),
    };
    let pi = match store.find_problem(problem_id) {
        Some(k) => k,
        None => return Err(JjjError::ProblemNotFound(string_of(&chars_of(problem_id)))),
    };
    let mut m = store.milestones.remove(mi);
    let ghost ids0 = strs(m.problem_ids@);
    let ghost pred = |y: Seq<char>| y != problem_id@;
    let mut kept: Vec<String> = Vec::new();
    let mut k: usize = 0;
    while k < m.problem_ids.len()
        invariant
            k <= m.problem_ids.len(),
            ids0 == strs(m.problem_ids@),
            pred == (|y: Seq<char>| y != problem_id@),
            strs(kept@) == ids0.take(k as int).filter(pred),
        decreases m.problem_ids.len() - k,
    {
        proof {
            reveal(Seq::filter);
            assert(ids0.take(k + 1).drop_last() =~= ids0.take(k as int));
            assert(ids0[k as int] == m.problem_ids@[k as int]@);
        }
        if !str_eq(m.problem_ids[k].as_str(), problem_id) {
            let ghost before = strs(kept@);
            kept.push(string_of(&chars_of(m.problem_ids[k].as_str())));
            assert(strs(kept@) =~= before.push(ids0[k as int]));
        }
        k += 1;
    }
    assert(ids0.take(k as int) =~= ids0);
    m.problem_ids = kept;
    store.milestones.insert(mi, m);
    let clear = match &store.problems[pi].milestone_id {
        Some(x) => str_eq(x.as_str(), milestone_id),
        None => false,
    };
    if clear {
        store.problems[pi].milestone_id = None;
        assert(store.problems@ =~= s0.problems@.update(pi as int, Problem { milestone_id: None, ..s0.problems@[pi as int] }));
    }
    proof {
        assert forall|j: int| 0 <= j < s0.milestones@.len() && j != mi implies store.milestones@[j]
            == s0.milestones@[j] by {
            if j < mi {
            } else {
            }
        }
    }
    Ok(())
}

// ───────────────────────── laws ─────────────────────────

proof fn lemma_filter_push_absent(v: Seq<Seq<char>>, pid: Seq<char>)
    requires
        !v.contains(pid),
    ensures
        without(v.push(pid), pid) == v,
    decreases v.len(),
{
    reveal(Seq::filter);
    assert(v.push(pid).drop_last() =~= v);
    lemma_filter_none_removed(v, pid);
}

proof fn lemma_filter_none_removed(v: Seq<Seq<char>>, pid: Seq<char>)
    requires
        !v.contains(pid),
    ensures
        without(v, pid) == v,
    decreases v.len(),
{
    reveal(Seq::filter);
    if v.len() > 0 {
        assert(!v.drop_last().contains(pid)) by {
            if v.drop_last().contains(pid) {
                let j = choose|j: int| 0 <= j < v.drop_last().len() && v.drop_last()[j] == pid;
                assert(v[j] == pid);
            }
        }
        lemma_filter_none_removed(v.drop_last(), pid);
        assert(v.last() != pid) by {
            assert(v[v.len() - 1] == v.last());
        }
        assert(v.drop_last().push(v.last()) =~= v);
    }
}

/// Putting a problem on a milestone that did not list it and taking it off
/// again leaves the milestone's list as it was.
pub proof fn law_add_then_remove_restores_list(
    s0: MetadataStore,
    s1: MetadataStore,
    s2: MetadataStore,
    mid: Seq<char>,
    pid: Seq<char>,
    r2: Result<(), JjjError>,
)
    requires
        add_post(s0, mid, pid, Ok(true), s1),
        remove_post(s1, mid, pid, r2, s2),
    ensures
        strs(s2.milestones@[milestone_idx(s0.milestones@, mid)].problem_ids@) == strs(
            s0.milestones@[milestone_idx(s0.milestones@, mid)].problem_ids@,
        ),
{
    let mi = milestone_idx(s0.milestones@, mid);
    crate::store::lemma_first_index(crate::store::milestone_ids(s0.milestones@), mid);
    assert(crate::store::milestone_ids(s1.milestones@) =~= crate::store::milestone_ids(s0.milestones@)) by {
        assert forall|j: int| 0 <= j < s0.milestones@.len() implies crate::store::milestone_ids(
            s1.milestones@,
        )[j] == crate::store::milestone_ids(s0.milestones@)[j] by {
            if j == mi {
            } else {
            }
        }
    }
    crate::store::lemma_first_index(crate::store::problem_ids(s0.problems@), pid);
    assert(crate::store::problem_ids(s1.problems@) =~= crate::store::problem_ids(s0.problems@));
    lemma_filter_push_absent(strs(s0.milestones@[mi].problem_ids@), pid);
}

} // verus!
