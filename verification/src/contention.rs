//! Where the fleet is piled up and where nobody is: who is engaged on each
//! open problem.

use vstd::prelude::*;
use crate::claim::{classify, classify_spec, ClaimState};
use crate::models::{opt_view, Event, EventType, Problem, ProblemStatus, Solution, SolutionStatus};
use crate::text::{pairs_view, strs, copy_str, chars_of, lemma_lex_antisym, lemma_lex_total, lemma_lex_trans, lex_le, lex_le_exec, str_eq, string_of};

verus! {

/// One problem's engagement: who is on it, and how.
#[derive(Debug, PartialEq)]
pub struct Engagement {
    pub problem_id: String,
    pub title: String,
    /// Distinct actors with a live claim or a standing solution, sorted.
    pub actors: Vec<String>,
    /// Solutions not withdrawn.
    pub live_solutions: usize,
    /// Whether someone holds a claim whose lease has not lapsed.
    pub claimed: bool,
}

pub struct EngagementView {
    pub problem_id: Seq<char>,
    pub title: Seq<char>,
    pub actors: Seq<Seq<char>>,
    pub live_solutions: nat,
    pub claimed: bool,
}

impl View for Engagement {
    type V = EngagementView;

    open spec fn view(&self) -> EngagementView {
        EngagementView {
            problem_id: self.problem_id@,
            title: self.title@,
            actors: strs(self.actors@),
            live_solutions: self.live_solutions as nat,
            claimed: self.claimed,
        }
    }
}

pub open spec fn engagements_view(v: Seq<Engagement>) -> Seq<EngagementView> {
    v.map_values(|e: Engagement| e@)
}

// ───────────────────────── authors ─────────────────────────

/// `(solution, author)` for every solution-creation event with an actor, in
/// log order.
pub open spec fn authorship(evs: Seq<Event>) -> Seq<(Seq<char>, Seq<char>)> {
    evs.filter(|e: Event| e.event_type == EventType::SolutionCreated && e.by@.len() > 0).map_values(
        |e: Event| (e.entity@, e.by@),
    )
}

/// Who proposed each solution, recovered from the creation events (a
/// solution carries an assignee but not an author).
pub fn solution_authors(events: &Vec<Event>) -> (r: Vec<(String, String)>)
    ensures
        pairs_view(r@) == authorship(events@),
{
    let ghost pred = |e: Event| e.event_type == EventType::SolutionCreated && e.by@.len() > 0;
    let ghost f = |e: Event| (e.entity@, e.by@);
    let mut r: Vec<(String, String)> = Vec::new();
    let mut i: usize = 0;
    while i < events.len()
        invariant
            i <= events.len(),
            pred == (|e: Event| e.event_type == EventType::SolutionCreated && e.by@.len() > 0),
            f == (|e: Event| (e.entity@, e.by@)),
            pairs_view(r@) == events@.take(i as int).filter(pred).map_values(f),
        decreases events.len() - i,
    {
        proof {
            reveal(Seq::filter);
            assert(events@.take(i + 1).drop_last() =~= events@.take(i as int));
        }
        let e = &events[i];
        let ghost before = pairs_view(r@);
        if e.event_type == EventType::SolutionCreated && chars_of(e.by.as_str()).len() > 0 {
            r.push((copy_str(e.entity.as_str()), copy_str(e.by.as_str())));
            assert(pairs_view(r@) =~= before.push(f(*e)));
        }
        assert(pairs_view(r@) =~= events@.take(i + 1).filter(pred).map_values(f));
        i += 1;
    }
    assert(events@.take(i as int) =~= events@);
    r
}

/// The author recorded for solution `sid`: the latest entry for it.
pub open spec fn author_lookup(authors: Seq<(Seq<char>, Seq<char>)>, sid: Seq<char>) -> Option<Seq<char>>
    decreases authors.len(),
{
    if authors.len() == 0 {
        None
    } else if authors.last().0 == sid {
        Some(authors.last().1)
    } else {
        author_lookup(authors.drop_last(), sid)
    }
}

/// Who is behind a solution: its author, else its assignee.
pub open spec fn who(s: Solution, authors: Seq<(Seq<char>, Seq<char>)>) -> Option<Seq<char>> {
    match author_lookup(authors, s.id@) {
        Some(a) => Some(a),
        None => opt_view(s.assignee),
    }
}

fn author_of(authors: &Vec<(String, String)>, sid: &str) -> (r: Option<usize>)
    ensures
        match r {
            Some(k) => k < authors@.len() && author_lookup(pairs_view(authors@), sid@) == Some(
                authors@[k as int].1@,
            ),
            None => author_lookup(pairs_view(authors@), sid@) is None,
        },
{
    let ghost av = pairs_view(authors@);
    let mut n: usize = authors.len();
    assert(av.take(n as int) =~= av);
    while n > 0
        invariant
            n <= authors.len(),
            av == pairs_view(authors@),
            author_lookup(av.take(n as int), sid@) == author_lookup(av, sid@),
        decreases n,
    {
        assert(av.take(n as int).last() == (authors@[n - 1].0@, authors@[n - 1].1@));
        assert(av.take(n as int).drop_last() =~= av.take(n - 1));
        if str_eq(authors[n - 1].0.as_str(), sid) {
            return Some(n - 1);
        }
        n -= 1;
    }
    assert(av.take(0) =~= Seq::<(Seq<char>, Seq<char>)>::empty());
    None
}

// ───────────────────────── one problem ─────────────────────────

pub open spec fn live(s: Solution) -> bool {
    s.status != SolutionStatus::Withdrawn
}

pub open spec fn in_play(p: Problem) -> bool {
    p.status == ProblemStatus::Open || p.status == ProblemStatus::InProgress
}

/// A live claim by anyone: the problem is held by someone other than a
/// name no actor can have.
pub open spec fn live_claim(p: Problem, ttl: i64, now: i64) -> bool {
    classify_spec(opt_view(p.assignee), p.claimed_at, "\u{0}none"@, ttl, now) == ClaimState::HeldByOther
}

/// The solutions standing on problem `pid`.
pub open spec fn standing(ss: Seq<Solution>, pid: Seq<char>) -> Seq<Solution> {
    ss.filter(|s: Solution| live(s) && s.problem_id@ == pid)
}

/// Everyone engaged on `p`: whoever is behind each standing solution, and
/// the claimant when the claim is live.
pub open spec fn engaged(p: Problem, ss: Seq<Solution>, authors: Seq<(Seq<char>, Seq<char>)>, ttl: i64, now: i64) -> Set<
    Seq<char>,
> {
    Set::new(
        |a: Seq<char>|
            (exists|j: int|
                0 <= j < standing(ss, p.id@).len() && who(standing(ss, p.id@)[j], authors) == Some(a))
                || (live_claim(p, ttl, now) && opt_view(p.assignee) == Some(a)),
    )
}

/// `a` sorts strictly before `b`.
pub open spec fn lex_lt(a: Seq<char>, b: Seq<char>) -> bool {
    lex_le(a, b) && a != b
}

pub open spec fn strictly_sorted(v: Seq<Seq<char>>) -> bool {
    forall|i: int, j: int| 0 <= i < j < v.len() ==> lex_lt(v[i], v[j])
}

/// Add `x` to a strictly sorted list of names (no-op when present).
pub fn insert_name(v: &mut Vec<String>, x: &str)
    requires
        strictly_sorted(strs(old(v)@)),
    ensures
        strictly_sorted(strs(final(v)@)),
        strs(final(v)@).to_set() == strs(old(v)@).to_set().insert(x@),
{
    let ghost ov = strs(v@);
    let xv = chars_of(x);
    let mut k: usize = 0;
    while k < v.len() && !lex_le_exec(&xv, &chars_of(v[k].as_str()))
        invariant
            k <= v.len(),
            ov == strs(v@),
            xv@ == x@,
            forall|j: int| 0 <= j < k ==> !lex_le(x@, #[trigger] ov[j]),
        decreases v.len() - k,
    {
        assert(ov[k as int] == v@[k as int]@);
        k += 1;
    }
    if k < v.len() && str_eq(v[k].as_str(), x) {
        assert(ov[k as int] == x@);
        assert(ov.to_set() =~= ov.to_set().insert(x@)) by {
            assert(ov.contains(x@));
        }
        return;
    }
    proof {
        if k < v.len() {
            assert(ov[k as int] == v@[k as int]@);
        }
        assert forall|j: int| 0 <= j < k implies lex_lt(#[trigger] ov[j], x@) by {
            lemma_lex_total(x@, ov[j]);
        }
        assert forall|j: int| k <= j < ov.len() implies lex_lt(x@, #[trigger] ov[j]) by {
            if j > k {
                assert(strictly_sorted(ov));
                assert(lex_lt(ov[k as int], ov[j]));
                lemma_lex_trans(x@, ov[k as int], ov[j]);
                if x@ == ov[j] {
                    lemma_lex_antisym(ov[k as int], ov[j]);
                }
            }
        }
    }
    v.insert(k, copy_str(x));
    proof {
        let nv = strs(v@);
        assert(nv =~= ov.insert(k as int, x@));
        assert forall|i: int, j: int| 0 <= i < j < nv.len() implies lex_lt(nv[i], nv[j]) by {
            if j < k {
                assert(nv[i] == ov[i] && nv[j] == ov[j]);
            } else if j == k {
                assert(nv[i] == ov[i]);
            } else if i == k {
                assert(nv[j] == ov[j - 1]);
            } else if i < k {
                assert(nv[i] == ov[i] && nv[j] == ov[j - 1]);
                lemma_lex_trans(ov[i], x@, ov[j - 1]);
                if ov[i] == ov[j - 1] {
                    lemma_lex_antisym(ov[i], x@);
                }
            } else {
                assert(nv[i] == ov[i - 1] && nv[j] == ov[j - 1]);
            }
        }
        assert(nv.to_set() =~= ov.to_set().insert(x@)) by {
            assert forall|a: Seq<char>| nv.contains(a) <==> ov.to_set().insert(x@).contains(a) by {
                if nv.contains(a) {
                    let i = choose|i: int| 0 <= i < nv.len() && nv[i] == a;
                    if i < k {
                        assert(nv[i] == ov[i]);
                    } else if i > k {
                        assert(nv[i] == ov[i - 1]);
                    }
                }
                if ov.contains(a) {
                    let i = choose|i: int| 0 <= i < ov.len() && ov[i] == a;
                    if i < k {
                        assert(nv[i] == ov[i]);
                    } else {
                        assert(nv[i + 1] == ov[i]);
                    }
                }
                if a == x@ {
                    assert(nv[k as int] == x@);
                }
            }
        }
    }
}

/// The names of a finite set, in strictly increasing order.
pub open spec fn sorted_names(names: Set<Seq<char>>) -> Seq<Seq<char>> {
    choose|v: Seq<Seq<char>>| strictly_sorted(v) && v.to_set() == names
}

proof fn lemma_sorted_unique(a: Seq<Seq<char>>, b: Seq<Seq<char>>)
    requires
        strictly_sorted(a),
        strictly_sorted(b),
        a.to_set() == b.to_set(),
    ensures
        a == b,
    decreases a.len() + b.len(),
{
    if a.len() == 0 {
        if b.len() > 0 {
            assert(b.to_set().contains(b[0]));
        }
        assert(a =~= b);
    } else if b.len() == 0 {
        assert(a.to_set().contains(a[0]));
    } else {
        assert(a.to_set().contains(a[0]));
        assert(b.to_set().contains(b[0]));
        let j = choose|j: int| 0 <= j < b.len() && b[j] == a[0];
        let i = choose|i: int| 0 <= i < a.len() && a[i] == b[0];
        if j > 0 && i > 0 {
            assert(lex_lt(b[0], b[j]));
            assert(lex_lt(a[0], a[i]));
            lemma_lex_antisym(a[0], b[0]);
        }
        if j == 0 {
            assert(a[0] == b[0]);
        } else {
            assert(i == 0);
            assert(a[0] == b[0]);
        }
        let a1 = a.drop_first();
        let b1 = b.drop_first();
        assert(strictly_sorted(a1)) by {
            assert forall|x: int, y: int| 0 <= x < y < a1.len() implies lex_lt(a1[x], a1[y]) by {
                assert(a1[x] == a[x + 1] && a1[y] == a[y + 1]);
            }
        }
        assert(strictly_sorted(b1)) by {
            assert forall|x: int, y: int| 0 <= x < y < b1.len() implies lex_lt(b1[x], b1[y]) by {
                assert(b1[x] == b[x + 1] && b1[y] == b[y + 1]);
            }
        }
        assert(a1.to_set() =~= b1.to_set()) by {
            assert forall|n: Seq<char>| a1.contains(n) <==> b1.contains(n) by {
                if a1.contains(n) {
                    let x = choose|x: int| 0 <= x < a1.len() && a1[x] == n;
                    assert(a[x + 1] == n);
                    assert(lex_lt(a[0], a[x + 1]));
                    assert(b.to_set().contains(n));
                    let y = choose|y: int| 0 <= y < b.len() && b[y] == n;
                    assert(y != 0);
                    assert(b1[y - 1] == n);
                }
                if b1.contains(n) {
                    let x = choose|x: int| 0 <= x < b1.len() && b1[x] == n;
                    assert(b[x + 1] == n);
                    assert(lex_lt(b[0], b[x + 1]));
                    assert(a.to_set().contains(n));
                    let y = choose|y: int| 0 <= y < a.len() && a[y] == n;
                    assert(y != 0);
                    assert(a1[y - 1] == n);
                }
            }
        }
        lemma_sorted_unique(a1, b1);
        assert(a =~= seq![a[0]] + a1);
        assert(b =~= seq![b[0]] + b1);
    }
}

/// The engagement of problem `p`.
pub open spec fn engagement_spec(
    p: Problem,
    ss: Seq<Solution>,
    authors: Seq<(Seq<char>, Seq<char>)>,
    ttl: i64,
    now: i64,
) -> EngagementView {
    EngagementView {
        problem_id: p.id@,
        title: p.title@,
        actors: sorted_names(engaged(p, ss, authors, ttl, now)),
        live_solutions: standing(ss, p.id@).len(),
        claimed: live_claim(p, ttl, now),
    }
}

/// The names behind the standing solutions among the first `n` solutions.
pub open spec fn engaged_upto(ss: Seq<Solution>, n: int, pid: Seq<char>, authors: Seq<(Seq<char>, Seq<char>)>) -> Set<Seq<char>> {
    Set::new(
        |a: Seq<char>|
            exists|j: int|
                0 <= j < standing(ss.take(n), pid).len() && who(standing(ss.take(n), pid)[j], authors) == Some(a),
    )
}

fn engagement_for(p: &Problem, ss: &Vec<Solution>, authors: &Vec<(String, String)>, ttl: i64, now: i64) -> (e: Engagement)
    ensures
        e@ == engagement_spec(*p, ss@, pairs_view(authors@), ttl, now),
{
    let ghost av = pairs_view(authors@);
    let ghost pid = p.id@;
    let mut names: Vec<String> = Vec::new();
    let mut count: usize = 0;
    let mut i: usize = 0;
    proof {
        assert(standing(ss@.take(0), pid) =~= Seq::<Solution>::empty()) by {
            reveal(Seq::filter);
        }
        assert(strs(names@).to_set() =~= engaged_upto(ss@, 0, pid, av));
    }
    while i < ss.len()
        invariant
            i <= ss.len(),
            av == pairs_view(authors@),
            pid == p.id@,
            count == standing(ss@.take(i as int), pid).len(),
            count <= i,
            strictly_sorted(strs(names@)),
            strs(names@).to_set() == engaged_upto(ss@, i as int, pid, av),
        decreases ss.len() - i,
    {
        let ghost old_set = engaged_upto(ss@, i as int, pid, av);
        let ghost st0 = standing(ss@.take(i as int), pid);
        proof {
            reveal(Seq::filter);
            assert(ss@.take(i + 1).drop_last() =~= ss@.take(i as int));
        }
        let s = &ss[i];
        if s.status != SolutionStatus::Withdrawn && str_eq(s.problem_id.as_str(), p.id.as_str()) {
            let ghost st1 = st0.push(*s);
            assert(standing(ss@.take(i + 1), pid) == st1);
            count += 1;
            let name: Option<&str> = match author_of(authors, s.id.as_str()) {
                Some(k) => Some(authors[k].1.as_str()),
                None => match &s.assignee {
                    Some(a) => Some(a.as_str()),
                    None => None,
                },
            };
            assert(name matches Some(x) ==> who(*s, av) == Some(x@));
            assert(name is None ==> who(*s, av) is None);
            match name {
                Some(x) => {
                    insert_name(&mut names, x);
                    proof {
                        assert(engaged_upto(ss@, i + 1, pid, av) =~= old_set.insert(x@)) by {
                            assert forall|a: Seq<char>| engaged_upto(ss@, i + 1, pid, av).contains(a) <==> old_set.insert(x@).contains(a) by {
                                if engaged_upto(ss@, i + 1, pid, av).contains(a) {
                                    let j = choose|j: int| 0 <= j < st1.len() && who(st1[j], av) == Some(a);
                                    if j < st0.len() {
                                        assert(st1[j] == st0[j]);
                                    }
                                }
                                if old_set.contains(a) {
                                    let j = choose|j: int| 0 <= j < st0.len() && who(st0[j], av) == Some(a);
                                    assert(st1[j] == st0[j]);
                                }
                                if a == x@ {
                                    assert(st1[st0.len() as int] == *s);
                                }
                            }
                        }
                    }
                },
                None => {
                    proof {
                        assert(engaged_upto(ss@, i + 1, pid, av) =~= old_set) by {
                            assert forall|a: Seq<char>| engaged_upto(ss@, i + 1, pid, av).contains(a) <==> old_set.contains(a) by {
                                if engaged_upto(ss@, i + 1, pid, av).contains(a) {
                                    let j = choose|j: int| 0 <= j < st1.len() && who(st1[j], av) == Some(a);
                                    if j < st0.len() {
                                        assert(st1[j] == st0[j]);
                                    }
                                }
                                if old_set.contains(a) {
                                    let j = choose|j: int| 0 <= j < st0.len() && who(st0[j], av) == Some(a);
                                    assert(st1[j] == st0[j]);
                                }
                            }
                        }
                    }
                },
            }
        } else {
            assert(standing(ss@.take(i + 1), pid) == st0);
            assert(engaged_upto(ss@, i + 1, pid, av) =~= old_set);
        }
        i += 1;
    }
    assert(ss@.take(i as int) =~= ss@);
    let claimed = match p.assignee {
        Some(ref a) => classify(Some(a.as_str()), p.claimed_at, "\u{0}none", ttl, now) == ClaimState::HeldByOther,
        None => classify(None, p.claimed_at, "\u{0}none", ttl, now) == ClaimState::HeldByOther,
    };
    let ghost before = strs(names@).to_set();
    if claimed {
        match &p.assignee {
            Some(a) => {
                insert_name(&mut names, a.as_str());
            },
            None => {},
        }
    }
    proof {
        let full = engaged(*p, ss@, av, ttl, now);
        assert(strs(names@).to_set() =~= full) by {
            assert forall|a: Seq<char>| strs(names@).to_set().contains(a) <==> full.contains(a) by {
                assert(engaged_upto(ss@, ss@.len() as int, pid, av).contains(a) <==> (exists|j: int|
                    0 <= j < standing(ss@, pid).len() && who(standing(ss@, pid)[j], av) == Some(a)));
            }
        }
        let v = strs(names@);
        lemma_sorted_unique(v, sorted_names(full));
    }
    Engagement {
        problem_id: copy_str(p.id.as_str()),
        title: copy_str(p.title.as_str()),
        actors: names,
        live_solutions: count,
        claimed,
    }
}

// ───────────────────────── all problems ─────────────────────────

/// `a` may be listed before `b`: more actors first, then by problem id.
pub open spec fn ranked_before(a: EngagementView, b: EngagementView) -> bool {
    a.actors.len() > b.actors.len() || (a.actors.len() == b.actors.len() && lex_le(
        a.problem_id,
        b.problem_id,
    ))
}

proof fn lemma_ranked_total(a: EngagementView, b: EngagementView)
    ensures
        ranked_before(a, b) || ranked_before(b, a),
{
    lemma_lex_total(a.problem_id, b.problem_id);
}

proof fn lemma_ranked_trans(a: EngagementView, b: EngagementView, c: EngagementView)
    requires
        ranked_before(a, b),
        ranked_before(b, c),
    ensures
        ranked_before(a, c),
{
    if a.actors.len() == b.actors.len() && b.actors.len() == c.actors.len() {
        lemma_lex_trans(a.problem_id, b.problem_id, c.problem_id);
    }
}

pub open spec fn all_engagements(
    ps: Seq<Problem>,
    ss: Seq<Solution>,
    authors: Seq<(Seq<char>, Seq<char>)>,
    ttl: i64,
    now: i64,
) -> Seq<EngagementView> {
    ps.filter(|p: Problem| in_play(p)).map_values(|p: Problem| engagement_spec(p, ss, authors, ttl, now))
}

/// No two problems share an id.
pub open spec fn distinct_ids(ps: Seq<Problem>) -> bool {
    forall|a: int, b: int| 0 <= a < ps.len() && 0 <= b < ps.len() && a != b ==> ps[a].id@ != ps[b].id@
}

proof fn lemma_filter_keeps_distinct(ps: Seq<Problem>)
    requires
        distinct_ids(ps),
    ensures
        distinct_ids(ps.filter(|p: Problem| in_play(p))),
    decreases ps.len(),
{
    let pred = |p: Problem| in_play(p);
    if ps.len() > 0 {
        let front = ps.drop_last();
        assert(distinct_ids(front)) by {
            assert forall|a: int, b: int| 0 <= a < front.len() && 0 <= b < front.len() && a != b implies front[a].id@ != front[b].id@ by {
                assert(front[a] == ps[a] && front[b] == ps[b]);
            }
        }
        lemma_filter_keeps_distinct(front);
        front.lemma_filter_push(ps.last(), pred);
        assert(front.push(ps.last()) =~= ps);
        let ff = front.filter(pred);
        if pred(ps.last()) {
            let g = ff.push(ps.last());
            assert forall|a: int, b: int| 0 <= a < g.len() && 0 <= b < g.len() && a != b implies g[a].id@ != g[b].id@ by {
                if a < ff.len() && b < ff.len() {
                    assert(g[a] == ff[a] && g[b] == ff[b]);
                } else {
                    let x = if a < ff.len() { a } else { b };
                    assert(g[x] == ff[x]);
                    front.lemma_filter_contains_rev(pred, ff[x]);
                    let j = choose|j: int| 0 <= j < front.len() && front[j] == ff[x];
                    assert(ps[j] == front[j]);
                    assert(ps[ps.len() - 1] == ps.last());
                }
            }
        }
    }
}

/// Every open or in-progress problem is in the contention report; with no
/// two problems sharing an id, exactly one entry of the report is about it.
pub proof fn law_in_play_problem_reported_once(
    ps: Seq<Problem>,
    ss: Seq<Solution>,
    authors: Seq<(Seq<char>, Seq<char>)>,
    ttl: i64,
    now: i64,
    i: int,
)
    requires
        0 <= i < ps.len(),
        ps[i].status == ProblemStatus::Open || ps[i].status == ProblemStatus::InProgress,
    ensures
        all_engagements(ps, ss, authors, ttl, now).contains(engagement_spec(ps[i], ss, authors, ttl, now)),
        distinct_ids(ps) ==> exists|k: int| 0 <= k < all_engagements(ps, ss, authors, ttl, now).len()
            && all_engagements(ps, ss, authors, ttl, now)[k].problem_id == ps[i].id@
            && forall|q: int| 0 <= q < all_engagements(ps, ss, authors, ttl, now).len() && q != k
                ==> (#[trigger] all_engagements(ps, ss, authors, ttl, now)[q]).problem_id != ps[i].id@,
{
    let pred = |p: Problem| in_play(p);
    assert(pred(ps[i]));
    ps.lemma_filter_contains(pred, i);
    let f = ps.filter(pred);
    let w = choose|w: int| 0 <= w < f.len() && f[w] == ps[i];
    let all = all_engagements(ps, ss, authors, ttl, now);
    assert(all[w] == engagement_spec(ps[i], ss, authors, ttl, now));
    if distinct_ids(ps) {
        lemma_filter_keeps_distinct(ps);
        assert forall|q: int| 0 <= q < all.len() && q != w implies (#[trigger] all[q]).problem_id != ps[i].id@ by {
            assert(all[q].problem_id == f[q].id@);
            assert(f[q].id@ != f[w].id@);
        }
        assert(all[w].problem_id == ps[i].id@);
    }
}

/// Whatever order the report comes in, every open or in-progress problem
/// has its engagement in it (see `engagements`).
pub proof fn law_report_covers_in_play(
    ps: Seq<Problem>,
    ss: Seq<Solution>,
    authors: Seq<(Seq<char>, Seq<char>)>,
    ttl: i64,
    now: i64,
    report: Seq<EngagementView>,
    i: int,
)
    requires
        report.to_multiset() == all_engagements(ps, ss, authors, ttl, now).to_multiset(),
        0 <= i < ps.len(),
        ps[i].status == ProblemStatus::Open || ps[i].status == ProblemStatus::InProgress,
    ensures
        report.contains(engagement_spec(ps[i], ss, authors, ttl, now)),
{
    broadcast use vstd::seq_lib::group_to_multiset_ensures;
    law_in_play_problem_reported_once(ps, ss, authors, ttl, now, i);
    let x = engagement_spec(ps[i], ss, authors, ttl, now);
    assert(all_engagements(ps, ss, authors, ttl, now).to_multiset().count(x) > 0);
}

/// Who is engaged on each open problem, most contended first (ties by
/// problem id). `authors` pairs solutions with who proposed them (the
/// latest entry for a solution counts); `now` and `ttl` are in seconds.
pub fn engagements(
    problems: &Vec<Problem>,
    solutions: &Vec<Solution>,
    authors: &Vec<(String, String)>,
    ttl: i64,
    now: i64,
) -> (r: Vec<Engagement>)
    ensures
        engagements_view(r@).to_multiset() == all_engagements(
            problems@,
            solutions@,
            pairs_view(authors@),
            ttl,
            now,
        ).to_multiset(),
        forall|i: int, j: int|
            0 <= i < j < r@.len() ==> ranked_before(#[trigger] r@[i]@, #[trigger] r@[j]@),
{
    broadcast use vstd::multiset::group_multiset_axioms;
    let ghost av = pairs_view(authors@);
    let ghost f = |p: Problem| engagement_spec(p, solutions@, av, ttl, now);
    let ghost pred = |p: Problem| in_play(p);
    let mut raw: Vec<Engagement> = Vec::new();
    let mut i: usize = 0;
    while i < problems.len()
        invariant
            i <= problems.len(),
            av == pairs_view(authors@),
            f == (|p: Problem| engagement_spec(p, solutions@, av, ttl, now)),
            pred == (|p: Problem| in_play(p)),
            engagements_view(raw@) == problems@.take(i as int).filter(pred).map_values(f),
        decreases problems.len() - i,
    {
        proof {
            reveal(Seq::filter);
            assert(problems@.take(i + 1).drop_last() =~= problems@.take(i as int));
        }
        let p = &problems[i];
        let ghost before = engagements_view(raw@);
        if p.status == ProblemStatus::Open || p.status == ProblemStatus::InProgress {
            raw.push(engagement_for(p, solutions, authors, ttl, now));
            assert(engagements_view(raw@) =~= before.push(f(*p)));
        }
        assert(engagements_view(raw@) =~= problems@.take(i + 1).filter(pred).map_values(f));
        i += 1;
    }
    assert(problems@.take(i as int) =~= problems@);
    let ghost all = engagements_view(raw@);
    let mut out: Vec<Engagement> = Vec::new();
    let mut rest = raw;
    proof {
        assert(engagements_view(out@) =~= Seq::<EngagementView>::empty());
        engagements_view(out@).to_multiset_ensures();
        vstd::multiset::lemma_multiset_empty_len(engagements_view(out@).to_multiset());
        assert(engagements_view(out@).to_multiset().add(engagements_view(rest@).to_multiset()) =~= all.to_multiset());
    }
    while rest.len() > 0
        invariant
            forall|a: int, b: int|
                0 <= a < b < out@.len() ==> ranked_before(#[trigger] out@[a]@, #[trigger] out@[b]@),
            engagements_view(out@).to_multiset().add(engagements_view(rest@).to_multiset())
                == all.to_multiset(),
        decreases rest.len(),
    {
        let ghost rv = engagements_view(rest@);
        let ghost ov = engagements_view(out@);
        let x = rest.remove(0);
        proof {
            rv.to_multiset_ensures();
            assert(engagements_view(rest@) =~= rv.remove(0));
            assert(rv[0] == x@);
        }
        let xid = chars_of(x.problem_id.as_str());
        let mut k: usize = out.len();
        while k > 0 && !(out[k - 1].actors.len() > x.actors.len() || (out[k - 1].actors.len()
            == x.actors.len() && lex_le_exec(&chars_of(out[k - 1].problem_id.as_str()), &xid)))
            invariant
                k <= out.len(),
                ov == engagements_view(out@),
                xid@ == x.problem_id@,
                forall|j: int| k <= j < ov.len() ==> !ranked_before(#[trigger] ov[j], x@),
            decreases k,
        {
            assert(ov[k - 1] == out@[k - 1]@);
            k -= 1;
        }
        proof {
            if k > 0 {
                assert(ov[k - 1] == out@[k - 1]@);
            }
            assert forall|a: int, b: int| 0 <= a < b < ov.len() implies ranked_before(ov[a], ov[b]) by {
                assert(ov[a] == out@[a]@ && ov[b] == out@[b]@);
            }
        }
        out.insert(k, x);
        proof {
            let nv = engagements_view(out@);
            assert(nv =~= ov.insert(k as int, x@));
            assert forall|j: int| k <= j < ov.len() implies ranked_before(x@, #[trigger] ov[j]) by {
                lemma_ranked_total(x@, ov[j]);
            }
            assert forall|a: int| 0 <= a < k implies ranked_before(#[trigger] ov[a], x@) by {
                if a < k - 1 {
                    lemma_ranked_trans(ov[a], ov[k - 1], x@);
                }
            }
            assert forall|a: int, b: int| 0 <= a < b < out@.len() implies ranked_before(
                #[trigger] out@[a]@,
                #[trigger] out@[b]@,
            ) by {
                assert(out@[a]@ == nv[a] && out@[b]@ == nv[b]);
                if b < k {
                    assert(nv[a] == ov[a] && nv[b] == ov[b]);
                } else if b == k {
                    assert(nv[a] == ov[a]);
                } else if a == k {
                    assert(nv[b] == ov[b - 1]);
                } else if a < k {
                    assert(nv[a] == ov[a] && nv[b] == ov[b - 1]);
                    lemma_ranked_trans(ov[a], x@, ov[b - 1]);
                } else {
                    assert(nv[a] == ov[a - 1] && nv[b] == ov[b - 1]);
                }
            }
            vstd::seq_lib::to_multiset_insert(ov, k as int, x@);
            assert(nv.to_multiset().add(engagements_view(rest@).to_multiset()) =~= all.to_multiset());
        }
    }
    assert(engagements_view(rest@) =~= Seq::<EngagementView>::empty());
    proof {
        engagements_view(rest@).to_multiset_ensures();
        vstd::multiset::lemma_multiset_empty_len(engagements_view(rest@).to_multiset());
    }
    assert(engagements_view(out@).to_multiset() =~= all.to_multiset());
    out
}

// ───────────────────────── the report ─────────────────────────

/// Several actors are on the problem.
pub fn is_contended(e: &Engagement) -> (b: bool)
    ensures
        b == (e@.actors.len() > 1),
{
    e.actors.len() > 1
}

/// Nobody is on the problem: no actor and no standing solution.
pub fn is_untouched(e: &Engagement) -> (b: bool)
    ensures
        b == (e@.actors.len() == 0 && e@.live_solutions == 0),
{
    e.actors.len() == 0 && e.live_solutions == 0
}

/// Contention is waste only while other problems sit untouched: rebalance
/// when some problem is contended and some other is untouched.
pub fn should_rebalance(es: &Vec<Engagement>) -> (b: bool)
    ensures
        b == ((exists|i: int| 0 <= i < es@.len() && es@[i]@.actors.len() > 1) && (exists|i: int|
            0 <= i < es@.len() && es@[i]@.actors.len() == 0 && es@[i]@.live_solutions == 0)),
{
    let mut contended = false;
    let mut untouched = false;
    let mut i: usize = 0;
    while i < es.len()
        invariant
            i <= es.len(),
            contended == exists|j: int| 0 <= j < i && es@[j]@.actors.len() > 1,
            untouched == exists|j: int| 0 <= j < i && es@[j]@.actors.len() == 0 && es@[j]@.live_solutions == 0,
        decreases es.len() - i,
    {
        assert(es@[i as int]@.actors.len() == es@[i as int].actors@.len());
        if is_contended(&es[i]) {
            contended = true;
        }
        if is_untouched(&es[i]) {
            untouched = true;
        }
        i += 1;
    }
    contended && untouched
}

} // verus!
