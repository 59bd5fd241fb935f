//! Figures about how a project has gone, read off the decision log:
//! outcomes, how long things took, and who and what was most active.

use vstd::prelude::*;
use crate::automation::is_problem_event;
use crate::models::{Event, EventType};
use crate::text::{strs, copy_str, chars_of, str_eq, string_of};

verus! {

// ───────────────────────── counts ─────────────────────────

pub open spec fn count_of(evs: Seq<Event>, t: EventType) -> nat {
    evs.filter(|e: Event| e.event_type == t).len()
}

pub fn count_type(events: &Vec<Event>, t: EventType) -> (n: usize)
    ensures
        n == count_of(events@, t),
{
    let ghost pred = |e: Event| e.event_type == t;
    let mut n: usize = 0;
    let mut i: usize = 0;
    while i < events.len()
        invariant
            i <= events.len(),
            pred == (|e: Event| e.event_type == t),
            n == events@.take(i as int).filter(pred).len(),
            n <= i,
        decreases events.len() - i,
    {
        proof {
            reveal(Seq::filter);
            assert(events@.take(i + 1).drop_last() =~= events@.take(i as int));
        }
        if events[i].event_type == t {
            n += 1;
        }
        i += 1;
    }
    assert(events@.take(i as int) =~= events@);
    n
}

// ───────────────────────── durations ─────────────────────────

pub open spec fn opens_problem(t: EventType) -> bool {
    t == EventType::ProblemCreated
}

pub open spec fn closes_problem(t: EventType) -> bool {
    t == EventType::ProblemSolved
}

pub open spec fn opens_critique(t: EventType) -> bool {
    t == EventType::CritiqueRaised
}

pub open spec fn closes_critique(t: EventType) -> bool {
    t == EventType::CritiqueAddressed || t == EventType::CritiqueDismissed || t
        == EventType::CritiqueValidated
}

/// When `id` was last opened among the first `k` events.
pub open spec fn opened_at(evs: Seq<Event>, k: int, id: Seq<char>, critique: bool) -> Option<i64>
    decreases k,
{
    if k <= 0 || k > evs.len() {
        None
    } else {
        let e = evs[k - 1];
        let opens = if critique {
            opens_critique(e.event_type)
        } else {
            opens_problem(e.event_type)
        };
        if opens && e.entity@ == id {
            Some(e.when)
        } else {
            opened_at(evs, k - 1, id, critique)
        }
    }
}

/// Seconds from opening to closing, for each closing event among the first
/// `n` whose entity was opened before it (negative spans are dropped).
pub open spec fn durations(evs: Seq<Event>, n: int, critique: bool) -> Seq<int>
    decreases n,
{
    if n <= 0 || n > evs.len() {
        Seq::empty()
    } else {
        let rest = durations(evs, n - 1, critique);
        let e = evs[n - 1];
        let closes = if critique {
            closes_critique(e.event_type)
        } else {
            closes_problem(e.event_type)
        };
        if closes {
            match opened_at(evs, n - 1, e.entity@, critique) {
                Some(t) => if e.when - t >= 0 {
                    rest.push(e.when - t)
                } else {
                    rest
                },
                None => rest,
            }
        } else {
            rest
        }
    }
}

fn opened_at_exec(events: &Vec<Event>, k: usize, id: &str, critique: bool) -> (r: Option<i64>)
    requires
        k <= events.len(),
    ensures
        r == opened_at(events@, k as int, id@, critique),
{
    let mut j: usize = k;
    while j > 0
        invariant
            j <= k <= events.len(),
            opened_at(events@, j as int, id@, critique) == opened_at(events@, k as int, id@, critique),
        decreases j,
    {
        let t = events[j - 1].event_type;
        let opens = if critique {
            t == EventType::CritiqueRaised
        } else {
            t == EventType::ProblemCreated
        };
        if opens && str_eq(events[j - 1].entity.as_str(), id) {
            return Some(events[j - 1].when);
        }
        j -= 1;
    }
    None
}

pub open spec fn ints_view(v: Seq<i128>) -> Seq<int> {
    v.map_values(|x: i128| x as int)
}

/// How long problems took to solve (`critique == false`) or critiques to
/// resolve (`critique == true`), in seconds, in log order.
pub fn spans(events: &Vec<Event>, critique: bool) -> (r: Vec<i128>)
    ensures
        ints_view(r@) == durations(events@, events@.len() as int, critique),
{
    let mut r: Vec<i128> = Vec::new();
    let mut n: usize = 0;
    while n < events.len()
        invariant
            n <= events.len(),
            ints_view(r@) == durations(events@, n as int, critique),
        decreases events.len() - n,
    {
        let e = &events[n];
        let t = e.event_type;
        let closes = if critique {
            t == EventType::CritiqueAddressed || t == EventType::CritiqueDismissed || t
                == EventType::CritiqueValidated
        } else {
            t == EventType::ProblemSolved
        };
        if closes {
            match opened_at_exec(events, n, e.entity.as_str(), critique) {
                Some(at) => {
                    let d: i128 = (e.when as i128) - (at as i128);
                    if d >= 0 {
                        let ghost before = ints_view(r@);
                        r.push(d);
                        assert(ints_view(r@) =~= before.push(d as int));
                    }
                },
                None => {},
            }
        }
        n += 1;
    }
    r
}

// ───────────────────────── tallies ─────────────────────────

/// Everyone who did something, once per event (events with no actor skipped).
pub open spec fn actor_keys(evs: Seq<Event>) -> Seq<Seq<char>> {
    evs.filter(|e: Event| e.by@.len() > 0).map_values(|e: Event| e.by@)
}

/// What each of the first `n` events says about problems: a problem event
/// names its problem; any other event names what it refers to.
pub open spec fn problem_keys(evs: Seq<Event>, n: int) -> Seq<Seq<char>>
    decreases n,
{
    if n <= 0 || n > evs.len() {
        Seq::empty()
    } else {
        let e = evs[n - 1];
        problem_keys(evs, n - 1) + if is_problem_event(e.event_type) {
            seq![e.entity@]
        } else {
            strs(e.refs@)
        }
    }
}

/// Index of the entry for `k` in a tally (-1 when absent).
pub open spec fn entry_of(t: Seq<(Seq<char>, nat)>, k: Seq<char>) -> int
    decreases t.len(),
{
    if t.len() == 0 {
        -1
    } else if t.last().0 == k {
        t.len() - 1
    } else {
        entry_of(t.drop_last(), k)
    }
}

/// One more occurrence of `k`.
pub open spec fn tally_add(t: Seq<(Seq<char>, nat)>, k: Seq<char>) -> Seq<(Seq<char>, nat)> {
    let i = entry_of(t, k);
    if i >= 0 {
        t.update(i, (k, t[i].1 + 1))
    } else {
        t.push((k, 1))
    }
}

/// Occurrence counts of the first `n` keys, in order of first appearance.
pub open spec fn tally_spec(keys: Seq<Seq<char>>, n: int) -> Seq<(Seq<char>, nat)>
    decreases n,
{
    if n <= 0 || n > keys.len() {
        Seq::empty()
    } else {
        tally_add(tally_spec(keys, n - 1), keys[n - 1])
    }
}

pub open spec fn tally_view(v: Seq<(String, usize)>) -> Seq<(Seq<char>, nat)> {
    v.map_values(|p: (String, usize)| (p.0@, p.1 as nat))
}

pub fn actor_keys_exec(events: &Vec<Event>) -> (r: Vec<String>)
    ensures
        strs(r@) == actor_keys(events@),
{
    let ghost pred = |e: Event| e.by@.len() > 0;
    let ghost f = |e: Event| e.by@;
    let mut r: Vec<String> = Vec::new();
    let mut i: usize = 0;
    while i < events.len()
        invariant
            i <= events.len(),
            pred == (|e: Event| e.by@.len() > 0),
            f == (|e: Event| e.by@),
            strs(r@) == events@.take(i as int).filter(pred).map_values(f),
        decreases events.len() - i,
    {
        proof {
            reveal(Seq::filter);
            assert(events@.take(i + 1).drop_last() =~= events@.take(i as int));
        }
        let ghost before = strs(r@);
        if chars_of(events[i].by.as_str()).len() > 0 {
            r.push(copy_str(events[i].by.as_str()));
            assert(strs(r@) =~= before.push(events@[i as int].by@));
        }
        assert(strs(r@) =~= events@.take(i + 1).filter(pred).map_values(f));
        i += 1;
    }
    assert(events@.take(i as int) =~= events@);
    r
}

pub fn problem_keys_exec(events: &Vec<Event>) -> (r: Vec<String>)
    ensures
        strs(r@) == problem_keys(events@, events@.len() as int),
{
    let mut r: Vec<String> = Vec::new();
    let mut i: usize = 0;
    while i < events.len()
        invariant
            i <= events.len(),
            strs(r@) == problem_keys(events@, i as int),
        decreases events.len() - i,
    {
        let e = &events[i];
        let t = e.event_type;
        let ghost before = strs(r@);
        if t == EventType::ProblemCreated || t == EventType::ProblemSolved || t == EventType::ProblemDissolved
            || t == EventType::ProblemReopened {
            r.push(copy_str(e.entity.as_str()));
            assert(strs(r@) =~= before + seq![e.entity@]);
        } else {
            let mut k: usize = 0;
            while k < e.refs.len()
                invariant
                    k <= e.refs.len(),
                    strs(r@) == before + strs(e.refs@).take(k as int),
                decreases e.refs.len() - k,
            {
                let ghost b2 = strs(r@);
                r.push(copy_str(e.refs[k].as_str()));
                assert(strs(r@) =~= b2.push(e.refs@[k as int]@));
                assert(strs(r@) =~= before + strs(e.refs@).take(k + 1));
                k += 1;
            }
            assert(strs(e.refs@).take(k as int) =~= strs(e.refs@));
        }
        i += 1;
    }
    r
}

proof fn lemma_entry_of(t: Seq<(Seq<char>, nat)>, k: Seq<char>)
    ensures
        -1 <= entry_of(t, k) < t.len(),
        entry_of(t, k) >= 0 ==> t[entry_of(t, k)].0 == k,
        entry_of(t, k) < 0 ==> forall|j: int| 0 <= j < t.len() ==> t[j].0 != k,
    decreases t.len(),
{
    if t.len() > 0 && t.last().0 != k {
        lemma_entry_of(t.drop_last(), k);
        assert forall|j: int| 0 <= j < t.len() - 1 implies t.drop_last()[j] == t[j] by {}
    }
}

proof fn lemma_entry_unique(t: Seq<(Seq<char>, nat)>, k: Seq<char>, i: int)
    requires
        0 <= i < t.len(),
        t[i].0 == k,
        forall|a: int, b: int| 0 <= a < b < t.len() ==> t[a].0 != t[b].0,
    ensures
        entry_of(t, k) == i,
    decreases t.len(),
{
    if i < t.len() - 1 {
        assert(t.last().0 != k);
        let d = t.drop_last();
        assert(d[i] == t[i]);
        lemma_entry_unique(d, k, i);
    }
}

fn find_key(r: &Vec<(String, usize)>, k: &str) -> (f: Option<usize>)
    ensures
        match f {
            Some(i) => i < r@.len() && r@[i as int].0@ == k@,
            None => forall|j: int| 0 <= j < r@.len() ==> r@[j].0@ != k@,
        },
{
    let mut i: usize = 0;
    while i < r.len()
        invariant
            i <= r.len(),
            forall|j: int| 0 <= j < i ==> r@[j].0@ != k@,
        decreases r.len() - i,
    {
        if str_eq(r[i].0.as_str(), k) {
            return Some(i);
        }
        i += 1;
    }
    None
}

/// How often each key occurs, in order of first appearance.
pub fn tally(keys: &Vec<String>) -> (r: Vec<(String, usize)>)
    ensures
        tally_view(r@) == tally_spec(strs(keys@), keys@.len() as int),
        forall|a: int, b: int| 0 <= a < b < r@.len() ==> r@[a].0@ != r@[b].0@,
{
    let ghost kv = strs(keys@);
    let mut r: Vec<(String, usize)> = Vec::new();
    let mut n: usize = 0;
    while n < keys.len()
        invariant
            n <= keys.len(),
            kv == strs(keys@),
            tally_view(r@) == tally_spec(kv, n as int),
            forall|a: int, b: int| 0 <= a < b < r@.len() ==> r@[a].0@ != r@[b].0@,
            forall|a: int| 0 <= a < r@.len() ==> r@[a].1 <= n,
        decreases keys.len() - n,
    {
        let k = keys[n].as_str();
        assert(kv[n as int] == k@);
        let ghost tv = tally_view(r@);
        proof {
            assert forall|a: int, b: int| 0 <= a < b < tv.len() implies tv[a].0 != tv[b].0 by {
                assert(tv[a].0 == r@[a].0@ && tv[b].0 == r@[b].0@);
            }
        }
        match find_key(&r, k) {
            Some(i) => {
                proof {
                    assert(tv[i as int].0 == k@);
                    lemma_entry_unique(tv, k@, i as int);
                }
                let c = r[i].1;
                r.set(i, (copy_str(k), c + 1));
                assert(tally_view(r@) =~= tv.update(i as int, (k@, tv[i as int].1 + 1)));
                assert(tally_view(r@) =~= tally_spec(kv, n + 1));
            },
            None => {
                proof {
                    lemma_entry_of(tv, k@);
                    if entry_of(tv, k@) >= 0 {
                        assert(tv[entry_of(tv, k@)].0 == r@[entry_of(tv, k@)].0@);
                    }
                }
                r.push((copy_str(k), 1));
                assert(tally_view(r@) =~= tv.push((k@, 1)));
                assert(tally_view(r@) =~= tally_spec(kv, n + 1));
            },
        }
        n += 1;
    }
    r
}

// ───────────────────────── the top five ─────────────────────────

/// A tally's entries with their place in it.
pub open spec fn indexed(t: Seq<(Seq<char>, nat)>) -> Seq<(Seq<char>, nat, int)> {
    Seq::new(t.len(), |i: int| (t[i].0, t[i].1, i))
}

/// `a` ranks above `b`: a higher count, or the same count seen first.
pub open spec fn precedes(a: (Seq<char>, nat, int), b: (Seq<char>, nat, int)) -> bool {
    a.1 > b.1 || (a.1 == b.1 && a.2 < b.2)
}

pub open spec fn drop_index(s: Seq<(Seq<char>, nat, int)>) -> Seq<(Seq<char>, nat)> {
    s.map_values(|x: (Seq<char>, nat, int)| (x.0, x.1))
}

/// `r` is the first five of the tally ranked by count, ties in order of
/// first appearance.
pub open spec fn is_top_five(t: Seq<(Seq<char>, nat)>, r: Seq<(Seq<char>, nat)>) -> bool {
    exists|s: Seq<(Seq<char>, nat, int)>|
        #![trigger s.to_multiset()]
        s.to_multiset() == indexed(t).to_multiset() && (forall|i: int, j: int|
            0 <= i < j < s.len() ==> precedes(#[trigger] s[i], #[trigger] s[j])) && r == drop_index(
            s,
        ).take(if s.len() < 5 { s.len() as int } else { 5 })
}

pub open spec fn ranked_view(v: Seq<(String, usize, usize)>) -> Seq<(Seq<char>, nat, int)> {
    v.map_values(|x: (String, usize, usize)| (x.0@, x.1 as nat, x.2 as int))
}

/// The five most frequent keys of a tally, most frequent first.
pub fn top_five(t: &Vec<(String, usize)>) -> (r: Vec<(String, usize)>)
    ensures
        is_top_five(tally_view(t@), tally_view(r@)),
{
    broadcast use vstd::multiset::group_multiset_axioms;
    let ghost all = indexed(tally_view(t@));
    let mut out: Vec<(String, usize, usize)> = Vec::new();
    let mut m: usize = 0;
    proof {
        assert(ranked_view(out@) =~= Seq::<(Seq<char>, nat, int)>::empty());
        assert(all.take(0) =~= Seq::<(Seq<char>, nat, int)>::empty());
        ranked_view(out@).to_multiset_ensures();
        vstd::multiset::lemma_multiset_empty_len(ranked_view(out@).to_multiset());
        all.take(0).to_multiset_ensures();
        vstd::multiset::lemma_multiset_empty_len(all.take(0).to_multiset());
    }
    while m < t.len()
        invariant
            m <= t.len(),
            all == indexed(tally_view(t@)),
            ranked_view(out@).to_multiset() == all.take(m as int).to_multiset(),
            forall|a: int| 0 <= a < out@.len() ==> (#[trigger] out@[a]).2 < m,
            forall|a: int, b: int|
                0 <= a < b < out@.len() ==> precedes(
                    #[trigger] ranked_view(out@)[a],
                    #[trigger] ranked_view(out@)[b],
                ),
        decreases t.len() - m,
    {
        let ghost ov = ranked_view(out@);
        let c = t[m].1;
        let mut k: usize = out.len();
        while k > 0 && out[k - 1].1 < c
            invariant
                k <= out.len(),
                m < t.len(),
                ov == ranked_view(out@),
                c == t@[m as int].1,
                forall|j: int| k <= j < ov.len() ==> (#[trigger] ov[j]).1 < c,
            decreases k,
        {
            assert(ov[k - 1] == (out@[k - 1].0@, out@[k - 1].1 as nat, out@[k - 1].2 as int));
            k -= 1;
        }
        let x = (copy_str(t[m].0.as_str()), c, m);
        let ghost xv = (x.0@, x.1 as nat, x.2 as int);
        assert(xv == all[m as int]);
        proof {
            assert forall|a: int| 0 <= a < ov.len() implies (#[trigger] ov[a]).2 < m by {
                assert(ov[a].2 == out@[a].2);
            }
            if k > 0 {
                assert(ov[k - 1] == (out@[k - 1].0@, out@[k - 1].1 as nat, out@[k - 1].2 as int));
            }
        }
        out.insert(k, x);
        proof {
            let nv = ranked_view(out@);
            assert(nv =~= ov.insert(k as int, xv));
            assert forall|a: int| 0 <= a < k implies precedes(#[trigger] ov[a], xv) by {
                if a < k - 1 {
                    assert(precedes(ov[a], ov[k - 1]));
                }
            }
            assert forall|a: int, b: int| 0 <= a < b < nv.len() implies precedes(nv[a], nv[b]) by {
                if b < k {
                    assert(nv[a] == ov[a] && nv[b] == ov[b]);
                } else if b == k {
                    assert(nv[a] == ov[a]);
                } else if a == k {
                    assert(nv[b] == ov[b - 1]);
                } else if a < k {
                    assert(nv[a] == ov[a] && nv[b] == ov[b - 1]);
                    assert(precedes(xv, ov[b - 1]));
                } else {
                    assert(nv[a] == ov[a - 1] && nv[b] == ov[b - 1]);
                }
            }
            assert forall|a: int| 0 <= a < out@.len() implies (#[trigger] out@[a]).2 < m + 1 by {
                assert(nv[a].2 == out@[a].2);
                if a < k {
                    assert(nv[a] == ov[a]);
                } else if a > k {
                    assert(nv[a] == ov[a - 1]);
                }
            }
            vstd::seq_lib::to_multiset_insert(ov, k as int, xv);
            assert(all.take(m + 1) =~= all.take(m as int).push(all[m as int]));
            all.take(m as int).to_multiset_ensures();
        }
        m += 1;
    }
    proof {
        assert(all.take(m as int) =~= all);
    }
    let n = if out.len() < 5 {
        out.len()
    } else {
        5
    };
    let mut r: Vec<(String, usize)> = Vec::new();
    let mut i: usize = 0;
    while i < n
        invariant
            i <= n <= out.len(),
            tally_view(r@) == drop_index(ranked_view(out@)).take(i as int),
        decreases n - i,
    {
        let ghost before = tally_view(r@);
        r.push((copy_str(out[i].0.as_str()), out[i].1));
        assert(tally_view(r@) =~= before.push((out@[i as int].0@, out@[i as int].1 as nat)));
        assert(drop_index(ranked_view(out@))[i as int] == (out@[i as int].0@, out@[i as int].1 as nat));
        assert(tally_view(r@) =~= drop_index(ranked_view(out@)).take(i + 1));
        i += 1;
    }
    proof {
        let s = ranked_view(out@);
        assert(s.len() == out@.len());
        assert(forall|i: int, j: int| 0 <= i < j < s.len() ==> precedes(#[trigger] s[i], #[trigger] s[j]));
        assert(tally_view(r@) == drop_index(s).take(if s.len() < 5 { s.len() as int } else { 5 }));
    }
    r
}

// ───────────────────────── the whole report ─────────────────────────

/// The figures of an insights report (the rates and averages derived from
/// them are presentation).
#[derive(Debug, PartialEq)]
pub struct Insights {
    pub total_events: usize,
    pub approved: usize,
    pub withdrawn: usize,
    /// Seconds each solved problem took, in log order.
    pub solve_durations: Vec<i128>,
    /// Seconds each resolved critique took, in log order.
    pub critique_durations: Vec<i128>,
    pub total_critiques: usize,
    pub total_solutions: usize,
    /// The five actors with most events, with their counts.
    pub top_contributors: Vec<(String, usize)>,
    /// The five problems most events were about, with their counts.
    pub active_problems: Vec<(String, usize)>,
}

/// Read the report's figures off the decision log.
pub fn insights(events: &Vec<Event>) -> (r: Insights)
    ensures
        r.total_events == events@.len(),
        r.approved == count_of(events@, EventType::SolutionApproved),
        r.withdrawn == count_of(events@, EventType::SolutionWithdrawn),
        ints_view(r.solve_durations@) == durations(events@, events@.len() as int, false),
        ints_view(r.critique_durations@) == durations(events@, events@.len() as int, true),
        r.total_critiques == count_of(events@, EventType::CritiqueRaised),
        r.total_solutions == count_of(events@, EventType::SolutionCreated),
        is_top_five(
            tally_spec(actor_keys(events@), actor_keys(events@).len() as int),
            tally_view(r.top_contributors@),
        ),
        is_top_five(
            tally_spec(
                problem_keys(events@, events@.len() as int),
                problem_keys(events@, events@.len() as int).len() as int,
            ),
            tally_view(r.active_problems@),
        ),
{
    let actors = actor_keys_exec(events);
    let problems = problem_keys_exec(events);
    let actor_tally = tally(&actors);
    let problem_tally = tally(&problems);
    Insights {
        total_events: events.len(),
        approved: count_type(events, EventType::SolutionApproved),
        withdrawn: count_type(events, EventType::SolutionWithdrawn),
        solve_durations: spans(events, false),
        critique_durations: spans(events, true),
        total_critiques: count_type(events, EventType::CritiqueRaised),
        total_solutions: count_type(events, EventType::SolutionCreated),
        top_contributors: top_five(&actor_tally),
        active_problems: top_five(&problem_tally),
    }
}

} // verus!
