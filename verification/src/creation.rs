//! Checks and normalisation applied when a problem or a solution is created.

use vstd::prelude::*;
use crate::contention::{insert_name, strictly_sorted};
use crate::models::{opt_view, problem_is_open, Event, EventType, Problem, ProblemStatus, plain_event};
use crate::rank::is_validation;
use crate::store::JjjError;
use crate::text::{strs, 
    append_chars, chars_eq, chars_of, lemma_lex_total, lemma_lex_trans, lex_le, lex_le_exec, parse_u64, parse_u64_spec,
    str_eq, string_of, to_lowercase, trim,
    trim_chars, unicode_lowercase,
};

verus! {

pub open spec fn empty_title_msg() -> Seq<char> {
    "Title cannot be empty."@
}

/// A title as given, with surrounding whitespace removed; it must not be
/// empty.
pub fn checked_title(title: &str) -> (r: Result<String, JjjError>)
    ensures
        trim(title@).len() > 0 ==> (r matches Ok(t) && t@ == trim(title@)),
        trim(title@).len() == 0 ==> (r matches Err(e) && is_validation(e, empty_title_msg())),
{
    let v = chars_of(title);
    let t = trim_chars(&v);
    if t.len() == 0 {
        let m = chars_of("Title cannot be empty.");
        Err(JjjError::Validation(string_of(&m)))
    } else {
        Ok(string_of(&t))
    }
}

/// The first problem whose title equals `title` ignoring case.
pub fn duplicate_title(problems: &Vec<Problem>, title: &str) -> (r: Option<usize>)
    ensures
        match r {
            Some(k) => k < problems@.len() && unicode_lowercase(problems@[k as int].title@)
                == unicode_lowercase(title@) && forall|j: int|
                0 <= j < k ==> unicode_lowercase(problems@[j].title@) != unicode_lowercase(title@),
            None => forall|j: int|
                0 <= j < problems@.len() ==> unicode_lowercase(problems@[j].title@)
                    != unicode_lowercase(title@),
        },
{
    let want = to_lowercase(title);
    let mut i: usize = 0;
    while i < problems.len()
        invariant
            i <= problems.len(),
            want@ == unicode_lowercase(title@),
            forall|j: int|
                0 <= j < i ==> unicode_lowercase(problems@[j].title@) != unicode_lowercase(title@),
        decreases problems.len() - i,
    {
        let l = to_lowercase(problems[i].title.as_str());
        if str_eq(l.as_str(), want.as_str()) {
            return Some(i);
        }
        i += 1;
    }
    None
}

/// The tags of a new problem: trimmed, blanks dropped, sorted, each once.
pub open spec fn tag_set(tags: Seq<Seq<char>>) -> Set<Seq<char>> {
    Set::new(|t: Seq<char>| exists|i: int| 0 <= i < tags.len() && trim(#[trigger] tags[i]) == t && t.len() > 0)
}

pub fn normalize_tags(tags: &Vec<String>) -> (r: Vec<String>)
    ensures
        strictly_sorted(strs(r@)),
        strs(r@).to_set() == tag_set(strs(tags@)),
{
    let ghost tv = strs(tags@);
    let mut out: Vec<String> = Vec::new();
    let mut i: usize = 0;
    proof {
        assert(strs(out@).to_set() =~= Set::<Seq<char>>::empty());
        assert(tag_set(tv.take(0)) =~= Set::<Seq<char>>::empty());
    }
    while i < tags.len()
        invariant
            i <= tags.len(),
            tv == strs(tags@),
            strictly_sorted(strs(out@)),
            strs(out@).to_set() == tag_set(tv.take(i as int)),
        decreases tags.len() - i,
    {
        let v = chars_of(tags[i].as_str());
        let t = trim_chars(&v);
        let ghost before = tag_set(tv.take(i as int));
        assert(tv[i as int] == tags@[i as int]@);
        if t.len() > 0 {
            let ts = string_of(&t);
            insert_name(&mut out, ts.as_str());
            proof {
                assert(tag_set(tv.take(i + 1)) =~= before.insert(t@)) by {
                    assert forall|x: Seq<char>| tag_set(tv.take(i + 1)).contains(x) <==> before.insert(t@).contains(x) by {
                        if tag_set(tv.take(i + 1)).contains(x) {
                            let j = choose|j: int| 0 <= j < i + 1 && trim(#[trigger] tv.take(i + 1)[j]) == x && x.len() > 0;
                            if j < i {
                                assert(tv.take(i + 1)[j] == tv.take(i as int)[j]);
                            }
                        }
                        if before.contains(x) {
                            let j = choose|j: int| 0 <= j < i && trim(#[trigger] tv.take(i as int)[j]) == x && x.len() > 0;
                            assert(tv.take(i + 1)[j] == tv.take(i as int)[j]);
                        }
                        if x == t@ {
                            assert(tv.take(i + 1)[i as int] == tv[i as int]);
                        }
                    }
                }
            }
        } else {
            proof {
                assert(tag_set(tv.take(i + 1)) =~= before) by {
                    assert forall|x: Seq<char>| tag_set(tv.take(i + 1)).contains(x) <==> before.contains(x) by {
                        if tag_set(tv.take(i + 1)).contains(x) {
                            let j = choose|j: int| 0 <= j < i + 1 && trim(#[trigger] tv.take(i + 1)[j]) == x && x.len() > 0;
                            if j < i {
                                assert(tv.take(i + 1)[j] == tv.take(i as int)[j]);
                            } else {
                                assert(tv.take(i + 1)[j] == tv[i as int]);
                            }
                        }
                        if before.contains(x) {
                            let j = choose|j: int| 0 <= j < i && trim(#[trigger] tv.take(i as int)[j]) == x && x.len() > 0;
                            assert(tv.take(i + 1)[j] == tv.take(i as int)[j]);
                        }
                    }
                }
            }
        }
        i += 1;
    }
    assert(tv.take(i as int) =~= tv);
    out
}

// ───────────────────────── choosing a problem ─────────────────────────

pub open spec fn no_open_problems_msg() -> Seq<char> {
    "No open problems found. Create a problem first with: jjj problem new \"title\""@
}

/// Positions of the open problems, offered when a new solution names none.
pub fn open_problem_choices(problems: &Vec<Problem>) -> (r: Result<Vec<usize>, JjjError>)
    ensures
        match r {
            Ok(v) => v@.len() > 0 && v@.map_values(|k: usize| k as int) == Seq::new(
                problems@.len(),
                |i: int| i,
            ).filter(|i: int| problem_is_open(problems@[i].status)),
            Err(e) => is_validation(e, no_open_problems_msg()) && forall|j: int|
                0 <= j < problems@.len() ==> !problem_is_open(problems@[j].status),
        },
{
    let ghost all = Seq::new(problems@.len(), |i: int| i);
    let ghost pred = |i: int| problem_is_open(problems@[i].status);
    let mut v: Vec<usize> = Vec::new();
    let mut i: usize = 0;
    while i < problems.len()
        invariant
            i <= problems.len(),
            all == Seq::new(problems@.len(), |i: int| i),
            pred == (|i: int| problem_is_open(problems@[i].status)),
            v@.map_values(|k: usize| k as int) == all.take(i as int).filter(pred),
            forall|j: int| 0 <= j < i && !pred(j) ==> !problem_is_open(problems@[j].status),
            v@.len() == 0 ==> forall|j: int| 0 <= j < i ==> !problem_is_open(problems@[j].status),
        decreases problems.len() - i,
    {
        proof {
            reveal(Seq::filter);
            assert(all.take(i + 1).drop_last() =~= all.take(i as int));
            assert(all.take(i + 1).last() == i as int);
        }
        let ghost before = v@.map_values(|k: usize| k as int);
        let st = problems[i].status;
        if st == ProblemStatus::Open || st == ProblemStatus::InProgress {
            v.push(i);
            assert(v@.map_values(|k: usize| k as int) =~= before.push(i as int));
        }
        i += 1;
    }
    assert(all.take(i as int) =~= all);
    if v.len() == 0 {
        let m = chars_of("No open problems found. Create a problem first with: jjj problem new \"title\"");
        return Err(JjjError::Validation(string_of(&m)));
    }
    Ok(v)
}

/// What `s.parse::<usize>()` yields.
pub open spec fn parse_usize_spec(s: Seq<char>) -> Option<usize> {
    match parse_u64_spec(s) {
        Some(n) => if n <= usize::MAX {
            Some(n as usize)
        } else {
            None
        },
        None => None,
    }
}

/// A 1-based menu choice among `count` entries, as typed; returns the
/// 0-based position.
pub fn parse_choice(input: &str, count: usize) -> (r: Result<usize, JjjError>)
    ensures
        match parse_usize_spec(trim(input@)) {
            None => r matches Err(e) && is_validation(e, "Invalid choice"@),
            Some(c) => if 1 <= c <= count {
                r == Ok::<usize, JjjError>((c - 1) as usize)
            } else {
                r matches Err(e) && is_validation(e, "Invalid selection"@)
            },
        },
{
    let v = chars_of(input);
    let t = trim_chars(&v);
    let n = match parse_u64(&t) {
        Some(n) => n,
        None => {
            let m = chars_of("Invalid choice");
            return Err(JjjError::Validation(string_of(&m)));
        },
    };
    if n > usize::MAX as u64 {
        let m = chars_of("Invalid choice");
        return Err(JjjError::Validation(string_of(&m)));
    }
    let c = n as usize;
    if c < 1 || c > count {
        let m = chars_of("Invalid selection");
        return Err(JjjError::Validation(string_of(&m)));
    }
    Ok(c - 1)
}

// ───────────────────────── recording a solution ─────────────────────────

pub open spec fn description_text(sid: Seq<char>, title: Seq<char>, pid: Seq<char>, ptitle: Seq<char>) -> Seq<char> {
    sid + ": "@ + title + "\n\nProblem: "@ + pid + " - "@ + ptitle
}

/// The description given to a new solution's change.
pub fn change_description(solution_id: &str, title: &str, problem_id: &str, problem_title: &str) -> (r: String)
    ensures
        r@ == description_text(solution_id@, title@, problem_id@, problem_title@),
{
    let mut d = chars_of(solution_id);
    let a = chars_of(": ");
    append_chars(&mut d, &a);
    let t = chars_of(title);
    append_chars(&mut d, &t);
    let b = chars_of("\n\nProblem: ");
    append_chars(&mut d, &b);
    let p = chars_of(problem_id);
    append_chars(&mut d, &p);
    let c = chars_of(" - ");
    append_chars(&mut d, &c);
    let q = chars_of(problem_title);
    append_chars(&mut d, &q);
    string_of(&d)
}

/// The event recording a new solution: who proposed it, for which problem,
/// and what it supersedes.
pub fn solution_created_event(
    solution_id: &str,
    problem_id: &str,
    supersedes: Option<&str>,
    by: &str,
    now: i64,
) -> (e: Event)
    ensures
        e.event_type == EventType::SolutionCreated,
        e.entity@ == solution_id@,
        e.by@ == by@,
        e.when == now,
        e.rationale is None,
        e.refs@.len() == 0,
        opt_view(e.extra.problem) == Some(problem_id@),
        opt_view(e.extra.supersedes) == (match supersedes {
            Some(s) => Some(s@),
            None => None,
        }),
        e.extra.title is None,
        e.extra.github_number is None,
        e.extra.target is None,
        e.extra.severity is None,
{
    let mut e = Event::new(EventType::SolutionCreated, solution_id, by, now);
    let p = chars_of(problem_id);
    e.extra.problem = Some(string_of(&p));
    e.extra.supersedes = match supersedes {
        Some(s) => {
            let v = chars_of(s);
            Some(string_of(&v))
        },
        None => None,
    };
    e
}

// ───────────────────────── editing tags ─────────────────────────

pub open spec fn sorted_texts(v: Seq<Seq<char>>) -> bool {
    forall|i: int, j: int| 0 <= i < j < v.len() ==> lex_le(#[trigger] v[i], #[trigger] v[j])
}

/// Sort texts (stable).
pub fn sort_strings(v: Vec<String>) -> (r: Vec<String>)
    ensures
        sorted_texts(strs(r@)),
        strs(r@).to_multiset() == strs(v@).to_multiset(),
{
    broadcast use vstd::multiset::group_multiset_axioms;
    let ghost all = strs(v@);
    let mut out: Vec<String> = Vec::new();
    let mut rest = v;
    proof {
        assert(strs(out@) =~= Seq::<Seq<char>>::empty());
        strs(out@).to_multiset_ensures();
        vstd::multiset::lemma_multiset_empty_len(strs(out@).to_multiset());
        assert(strs(out@).to_multiset().add(strs(rest@).to_multiset()) =~= all.to_multiset());
    }
    while rest.len() > 0
        invariant
            sorted_texts(strs(out@)),
            strs(out@).to_multiset().add(strs(rest@).to_multiset()) == all.to_multiset(),
        decreases rest.len(),
    {
        let ghost rv = strs(rest@);
        let ghost ov = strs(out@);
        let x = rest.remove(0);
        proof {
            rv.to_multiset_ensures();
            assert(strs(rest@) =~= rv.remove(0));
            assert(rv[0] == x@);
        }
        let xv = chars_of(x.as_str());
        let mut k: usize = out.len();
        while k > 0 && !lex_le_exec(&chars_of(out[k - 1].as_str()), &xv)
            invariant
                k <= out.len(),
                ov == strs(out@),
                xv@ == x@,
                forall|j: int| k <= j < ov.len() ==> !lex_le(#[trigger] ov[j], x@),
            decreases k,
        {
            assert(ov[k - 1] == out@[k - 1]@);
            k -= 1;
        }
        proof {
            if k > 0 {
                assert(ov[k - 1] == out@[k - 1]@);
            }
        }
        out.insert(k, x);
        proof {
            let nv = strs(out@);
            assert(nv =~= ov.insert(k as int, x@));
            assert forall|j: int| k <= j < ov.len() implies lex_le(x@, #[trigger] ov[j]) by {
                lemma_lex_total(x@, ov[j]);
            }
            assert forall|i: int| 0 <= i < k implies lex_le(#[trigger] ov[i], x@) by {
                if i < k - 1 {
                    lemma_lex_trans(ov[i], ov[k - 1], x@);
                }
            }
            assert forall|i: int, j: int| 0 <= i < j < nv.len() implies lex_le(#[trigger] nv[i], #[trigger] nv[j]) by {
                if j < k {
                    assert(nv[i] == ov[i] && nv[j] == ov[j]);
                } else if j == k {
                    assert(nv[i] == ov[i]);
                } else if i == k {
                    assert(nv[j] == ov[j - 1]);
                } else if i < k {
                    assert(nv[i] == ov[i] && nv[j] == ov[j - 1]);
                    lemma_lex_trans(ov[i], x@, ov[j - 1]);
                } else {
                    assert(nv[i] == ov[i - 1] && nv[j] == ov[j - 1]);
                }
            }
            vstd::seq_lib::to_multiset_insert(ov, k as int, x@);
            assert(nv.to_multiset().add(strs(rest@).to_multiset()) =~= all.to_multiset());
        }
    }
    assert(strs(rest@) =~= Seq::<Seq<char>>::empty());
    assert(strs(out@).to_multiset() =~= all.to_multiset());
    out
}

/// Some tag equals `t`, ignoring case.
pub open spec fn has_tag_ci(tags: Seq<Seq<char>>, t: Seq<char>) -> bool {
    exists|k: int| 0 <= k < tags.len() && unicode_lowercase(#[trigger] tags[k]) == unicode_lowercase(t)
}

/// Adding a tag: it is trimmed; an empty tag, or one already there in any
/// case, changes nothing; otherwise it joins and the tags are sorted.
pub fn add_tag(tags: &mut Vec<String>, tag: &str)
    ensures
        trim(tag@).len() == 0 || has_tag_ci(strs(old(tags)@), trim(tag@)) ==> final(tags)@ == old(tags)@,
        trim(tag@).len() > 0 && !has_tag_ci(strs(old(tags)@), trim(tag@)) ==> {
            &&& sorted_texts(strs(final(tags)@))
            &&& strs(final(tags)@).to_multiset() == strs(old(tags)@).push(trim(tag@)).to_multiset()
        },
{
    let t = trim_chars(&chars_of(tag));
    if t.len() == 0 {
        return;
    }
    let ts = string_of(&t);
    let tl = to_lowercase(ts.as_str());
    let tlv = chars_of(tl.as_str());
    let mut k: usize = 0;
    while k < tags.len()
        invariant
            k <= tags.len(),
            tlv@ == unicode_lowercase(trim(tag@)),
            forall|j: int| 0 <= j < k ==> unicode_lowercase(#[trigger] tags@[j]@) != unicode_lowercase(trim(tag@)),
        decreases tags.len() - k,
    {
        let l = to_lowercase(tags[k].as_str());
        if chars_eq(&chars_of(l.as_str()), &tlv) {
            assert(strs(tags@)[k as int] == tags@[k as int]@);
            return;
        }
        k += 1;
    }
    assert(!has_tag_ci(strs(tags@), trim(tag@))) by {
        if has_tag_ci(strs(tags@), trim(tag@)) {
            let j = choose|j: int| 0 <= j < strs(tags@).len() && unicode_lowercase(
                #[trigger] strs(tags@)[j],
            ) == unicode_lowercase(trim(tag@));
            assert(strs(tags@)[j] == tags@[j]@);
        }
    }
    let ghost before = strs(tags@);
    let mut all: Vec<String> = Vec::new();
    std::mem::swap(&mut all, tags);
    all.push(ts);
    assert(strs(all@) =~= before.push(trim(tag@)));
    let sorted = sort_strings(all);
    *tags = sorted;
}

/// Removing a tag: every tag equal to it (trimmed), ignoring case, goes.
pub fn remove_tag(tags: &mut Vec<String>, tag: &str)
    ensures
        strs(final(tags)@) == strs(old(tags)@).filter(
            |x: Seq<char>| unicode_lowercase(x) != unicode_lowercase(trim(tag@)),
        ),
{
    let t = trim_chars(&chars_of(tag));
    let ts = string_of(&t);
    let tl = to_lowercase(ts.as_str());
    let tlv = chars_of(tl.as_str());
    let ghost tv = strs(tags@);
    let ghost pred = |x: Seq<char>| unicode_lowercase(x) != unicode_lowercase(trim(tag@));
    let mut kept: Vec<String> = Vec::new();
    let mut k: usize = 0;
    while k < tags.len()
        invariant
            k <= tags.len(),
            tv == strs(tags@),
            tlv@ == unicode_lowercase(trim(tag@)),
            pred == (|x: Seq<char>| unicode_lowercase(x) != unicode_lowercase(trim(tag@))),
            strs(kept@) == tv.take(k as int).filter(pred),
        decreases tags.len() - k,
    {
        proof {
            reveal(Seq::filter);
            assert(tv.take(k + 1).drop_last() =~= tv.take(k as int));
            assert(tv[k as int] == tags@[k as int]@);
        }
        let l = to_lowercase(tags[k].as_str());
        if !chars_eq(&chars_of(l.as_str()), &tlv) {
            let ghost b = strs(kept@);
            kept.push(string_of(&chars_of(tags[k].as_str())));
            assert(strs(kept@) =~= b.push(tv[k as int]));
        }
        k += 1;
    }
    assert(tv.take(k as int) =~= tv);
    *tags = kept;
}


// ───────────────────────── laws ─────────────────────────

/// Every open or in-progress problem is offered as a choice for a new
/// solution.
pub proof fn law_open_problems_offered(ps: Seq<Problem>, i: int)
    requires
        0 <= i < ps.len(),
        ps[i].status == ProblemStatus::Open || ps[i].status == ProblemStatus::InProgress,
    ensures
        Seq::new(ps.len(), |i: int| i).filter(|i: int| problem_is_open(ps[i].status)).contains(i),
{
    let all = Seq::new(ps.len(), |i: int| i);
    assert(all[i] == i);
    all.lemma_filter_contains(|i: int| problem_is_open(ps[i].status), i);
}

} // verus!
