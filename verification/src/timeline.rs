//! A problem's history: the events about it and its solutions and
//! critiques, in time order, each described in a few words.

use vstd::prelude::*;
use crate::models::{opt_view, Critique, Event, EventType, Solution};
use crate::store::MetadataStore;
use crate::text::{append_chars, chars_of, decimal, push_decimal, str_eq, string_of, truncate, truncated};

verus! {

// ───────────────────────── descriptions ─────────────────────────

/// ` #N` for a GitHub number, or nothing.
pub open spec fn number_suffix(n: Option<u64>, lead: Seq<char>) -> Seq<char> {
    match n {
        Some(k) => lead + decimal(k as nat),
        None => Seq::empty(),
    }
}

/// The few words a timeline shows for an event.
pub open spec fn description(e: Event) -> Seq<char> {
    let id = e.entity@;
    let num = e.extra.github_number;
    match e.event_type {
        EventType::ProblemCreated => "problem created"@,
        EventType::ProblemSolved => "problem solved"@,
        EventType::ProblemDissolved => "problem dissolved"@,
        EventType::ProblemReopened => "problem reopened"@,
        EventType::SolutionCreated => id + " proposed"@ + match opt_view(e.extra.supersedes) {
            Some(s) => " (supersedes "@ + s + ")"@,
            None => Seq::empty(),
        },
        EventType::SolutionApproved => id + " accepted"@,
        EventType::SolutionWithdrawn => id + " refuted"@,
        EventType::CritiqueRaised => id + " raised"@ + match opt_view(e.extra.title) {
            Some(t) => ": \""@ + truncated(t, 25) + "\""@,
            None => Seq::empty(),
        },
        EventType::CritiqueAddressed => id + " addressed"@,
        EventType::CritiqueDismissed => id + " dismissed"@,
        EventType::CritiqueValidated => id + " validated"@,
        EventType::CritiqueReplied => id + " replied to"@,
        EventType::SolutionSubmitted => id + " moved to review"@,
        EventType::MilestoneCreated => id + " created"@,
        EventType::MilestoneCompleted => id + " completed"@,
        EventType::GithubIssueCreated => "GitHub issue"@ + number_suffix(num, " #"@) + " created"@,
        EventType::GithubIssueImported => "imported from GitHub issue"@ + number_suffix(num, " #"@),
        EventType::GithubIssueClosed => "GitHub issue"@ + number_suffix(num, " #"@) + " closed"@,
        EventType::GithubPrCreated => "GitHub PR"@ + number_suffix(num, " #"@) + " created"@,
        EventType::GithubPrMerged => "GitHub PR"@ + number_suffix(num, " #"@) + " merged"@,
        EventType::GithubReviewImported => "review imported from"@ + number_suffix(num, " PR #"@),
        EventType::ConflictResolved => id + " conflict resolved"@,
    }
}

fn push_str(out: &mut Vec<char>, s: &str)
    ensures
        final(out)@ == old(out)@ + s@,
{
    let v = chars_of(s);
    append_chars(out, &v);
}

fn push_number(out: &mut Vec<char>, n: Option<u64>, lead: &str)
    ensures
        final(out)@ == old(out)@ + number_suffix(n, lead@),
{
    match n {
        Some(k) => {
            push_str(out, lead);
            push_decimal(out, k);
            assert(final(out)@ =~= old(out)@ + (lead@ + decimal(k as nat)));
        },
        None => {
            assert(old(out)@ + Seq::<char>::empty() =~= old(out)@);
        },
    }
}

/// Describe an event for the timeline.
pub fn format_event_description(event: &Event) -> (r: String)
    ensures
        r@ == description(*event),
{
    let mut out: Vec<char> = Vec::new();
    let id = event.entity.as_str();
    let num = event.extra.github_number;
    match event.event_type {
        EventType::ProblemCreated => push_str(&mut out, "problem created"),
        EventType::ProblemSolved => push_str(&mut out, "problem solved"),
        EventType::ProblemDissolved => push_str(&mut out, "problem dissolved"),
        EventType::ProblemReopened => push_str(&mut out, "problem reopened"),
        EventType::SolutionCreated => {
            push_str(&mut out, id);
            push_str(&mut out, " proposed");
            match &event.extra.supersedes {
                Some(s) => {
                    push_str(&mut out, " (supersedes ");
                    push_str(&mut out, s.as_str());
                    push_str(&mut out, ")");
                },
                None => {},
            }
        },
        EventType::SolutionApproved => {
            push_str(&mut out, id);
            push_str(&mut out, " accepted");
        },
        EventType::SolutionWithdrawn => {
            push_str(&mut out, id);
            push_str(&mut out, " refuted");
        },
        EventType::CritiqueRaised => {
            push_str(&mut out, id);
            push_str(&mut out, " raised");
            match &event.extra.title {
                Some(t) => {
                    push_str(&mut out, ": \"");
                    let short = truncate(t.as_str(), 25);
                    push_str(&mut out, short.as_str());
                    push_str(&mut out, "\"");
                },
                None => {},
            }
        },
        EventType::CritiqueAddressed => {
            push_str(&mut out, id);
            push_str(&mut out, " addressed");
        },
        EventType::CritiqueDismissed => {
            push_str(&mut out, id);
            push_str(&mut out, " dismissed");
        },
        EventType::CritiqueValidated => {
            push_str(&mut out, id);
            push_str(&mut out, " validated");
        },
        EventType::CritiqueReplied => {
            push_str(&mut out, id);
            push_str(&mut out, " replied to");
        },
        EventType::SolutionSubmitted => {
            push_str(&mut out, id);
            push_str(&mut out, " moved to review");
        },
        EventType::MilestoneCreated => {
            push_str(&mut out, id);
            push_str(&mut out, " created");
        },
        EventType::MilestoneCompleted => {
            push_str(&mut out, id);
            push_str(&mut out, " completed");
        },
        EventType::GithubIssueCreated => {
            push_str(&mut out, "GitHub issue");
            push_number(&mut out, num, " #");
            push_str(&mut out, " created");
        },
        EventType::GithubIssueImported => {
            push_str(&mut out, "imported from GitHub issue");
            push_number(&mut out, num, " #");
        },
        EventType::GithubIssueClosed => {
            push_str(&mut out, "GitHub issue");
            push_number(&mut out, num, " #");
            push_str(&mut out, " closed");
        },
        EventType::GithubPrCreated => {
            push_str(&mut out, "GitHub PR");
            push_number(&mut out, num, " #");
            push_str(&mut out, " created");
        },
        EventType::GithubPrMerged => {
            push_str(&mut out, "GitHub PR");
            push_number(&mut out, num, " #");
            push_str(&mut out, " merged");
        },
        EventType::GithubReviewImported => {
            push_str(&mut out, "review imported from");
            push_number(&mut out, num, " PR #");
        },
        EventType::ConflictResolved => {
            push_str(&mut out, id);
            push_str(&mut out, " conflict resolved");
        },
    }
    assert(out@ =~= description(*event));
    string_of(&out)
}

// ───────────────────────── which events ─────────────────────────

/// A solution of problem `pid` is called `id`.
pub open spec fn solution_of(ss: Seq<Solution>, pid: Seq<char>, id: Seq<char>) -> bool {
    exists|j: int| 0 <= j < ss.len() && ss[j].problem_id@ == pid && ss[j].id@ == id
}

/// A critique of one of `pid`'s solutions is called `id`.
pub open spec fn critique_of(ss: Seq<Solution>, cs: Seq<Critique>, pid: Seq<char>, id: Seq<char>) -> bool {
    exists|k: int|
        0 <= k < cs.len() && cs[k].id@ == id && solution_of(ss, pid, cs[k].solution_id@)
}

/// An event belongs on `pid`'s timeline: it is about the problem, one of its
/// solutions or their critiques, or it refers to the problem.
pub open spec fn related(e: Event, pid: Seq<char>, ss: Seq<Solution>, cs: Seq<Critique>) -> bool {
    ||| e.entity@ == pid
    ||| solution_of(ss, pid, e.entity@)
    ||| critique_of(ss, cs, pid, e.entity@)
    ||| exists|k: int| 0 <= k < e.refs@.len() && e.refs@[k]@ == pid
}

fn solution_of_exec(ss: &Vec<Solution>, pid: &str, id: &str) -> (b: bool)
    ensures
        b == solution_of(ss@, pid@, id@),
{
    let mut j: usize = 0;
    while j < ss.len()
        invariant
            j <= ss.len(),
            forall|m: int| 0 <= m < j ==> !(ss@[m].problem_id@ == pid@ && ss@[m].id@ == id@),
        decreases ss.len() - j,
    {
        if str_eq(ss[j].problem_id.as_str(), pid) && str_eq(ss[j].id.as_str(), id) {
            return true;
        }
        j += 1;
    }
    false
}

fn related_exec(e: &Event, pid: &str, store: &MetadataStore) -> (b: bool)
    ensures
        b == related(*e, pid@, store.solutions@, store.critiques@),
{
    if str_eq(e.entity.as_str(), pid) {
        return true;
    }
    if solution_of_exec(&store.solutions, pid, e.entity.as_str()) {
        return true;
    }
    let cs = &store.critiques;
    let mut k: usize = 0;
    while k < cs.len()
        invariant
            k <= cs.len(),
            cs == &store.critiques,
            forall|m: int| 0 <= m < k ==> !(cs@[m].id@ == e.entity@ && solution_of(store.solutions@, pid@, cs@[m].solution_id@)),
        decreases cs.len() - k,
    {
        if str_eq(cs[k].id.as_str(), e.entity.as_str()) && solution_of_exec(&store.solutions, pid, cs[k].solution_id.as_str()) {
            return true;
        }
        k += 1;
    }
    let mut k: usize = 0;
    while k < e.refs.len()
        invariant
            k <= e.refs.len(),
            forall|m: int| 0 <= m < k ==> e.refs@[m]@ != pid@,
        decreases e.refs.len() - k,
    {
        if str_eq(e.refs[k].as_str(), pid) {
            return true;
        }
        k += 1;
    }
    false
}

/// Positions of the events on `pid`'s timeline, in log order.
pub open spec fn related_positions(evs: Seq<Event>, pid: Seq<char>, ss: Seq<Solution>, cs: Seq<Critique>) -> Seq<int> {
    Seq::new(evs.len(), |i: int| i).filter(|i: int| related(evs[i], pid, ss, cs))
}

/// Event `a` is shown before event `b`: earlier, or logged first.
pub open spec fn shown_before(evs: Seq<Event>, a: int, b: int) -> bool {
    evs[a].when < evs[b].when || (evs[a].when == evs[b].when && a < b)
}

pub open spec fn positions_view(v: Seq<usize>) -> Seq<int> {
    v.map_values(|i: usize| i as int)
}

/// The positions (in the log) of the events on problem `pid`'s timeline,
/// in time order, ties in log order.
pub fn timeline_events(store: &MetadataStore, pid: &str) -> (r: Vec<usize>)
    ensures
        positions_view(r@).to_multiset() == related_positions(
            store.events@,
            pid@,
            store.solutions@,
            store.critiques@,
        ).to_multiset(),
        forall|a: int, b: int|
            0 <= a < b < r@.len() ==> shown_before(store.events@, #[trigger] r@[a] as int, #[trigger] r@[b] as int),
        forall|a: int| 0 <= a < r@.len() ==> (#[trigger] r@[a]) < store.events@.len(),
{
    broadcast use vstd::multiset::group_multiset_axioms;
    let evs = &store.events;
    let ghost all = Seq::new(evs@.len(), |i: int| i);
    let ghost pred = |i: int| related(evs@[i], pid@, store.solutions@, store.critiques@);
    let mut out: Vec<usize> = Vec::new();
    let mut m: usize = 0;
    proof {
        reveal(Seq::filter);
        assert(all.take(0).filter(pred) =~= Seq::<int>::empty());
        assert(positions_view(out@) =~= Seq::<int>::empty());
    }
    while m < evs.len()
        invariant
            m <= evs.len(),
            evs == &store.events,
            all == Seq::new(evs@.len(), |i: int| i),
            pred == (|i: int| related(evs@[i], pid@, store.solutions@, store.critiques@)),
            positions_view(out@).to_multiset() == all.take(m as int).filter(pred).to_multiset(),
            forall|a: int| 0 <= a < out@.len() ==> (#[trigger] out@[a]) < m,
            forall|a: int, b: int|
                0 <= a < b < out@.len() ==> shown_before(evs@, #[trigger] out@[a] as int, #[trigger] out@[b] as int),
        decreases evs.len() - m,
    {
        proof {
            reveal(Seq::filter);
            assert(all.take(m + 1).drop_last() =~= all.take(m as int));
            assert(all.take(m + 1).last() == m as int);
        }
        let ghost ov = positions_view(out@);
        if related_exec(&evs[m], pid, store) {
            let w = evs[m].when;
            let mut k: usize = out.len();
            while k > 0 && evs[out[k - 1]].when > w
                invariant
                    k <= out.len(),
                    m < evs.len(),
                    evs == &store.events,
                    ov == positions_view(out@),
                    w == evs@[m as int].when,
                    forall|a: int| 0 <= a < out@.len() ==> (#[trigger] out@[a]) < m,
                    forall|j: int| k <= j < out@.len() ==> evs@[out@[j] as int].when > w,
                decreases k,
            {
                k -= 1;
            }
            out.insert(k, m);
            proof {
                let nv = positions_view(out@);
                assert(nv =~= ov.insert(k as int, m as int));
                assert forall|a: int, b: int| 0 <= a < b < out@.len() implies shown_before(evs@, out@[a] as int, out@[b] as int) by {
                    if b < k {
                    } else if b == k {
                        if a < k - 1 {
                            assert(shown_before(evs@, out@[a] as int, out@[k - 1] as int));
                        }
                    } else if a == k {
                    } else if a < k {
                        if a < k - 1 {
                            assert(shown_before(evs@, out@[a] as int, out@[k - 1] as int));
                        }
                    }
                }
                vstd::seq_lib::to_multiset_insert(ov, k as int, m as int);
                all.take(m as int).filter(pred).to_multiset_ensures();
            }
        }
        m += 1;
    }
    proof {
        assert(all.take(m as int) =~= all);
    }
    out
}

} // verus!
