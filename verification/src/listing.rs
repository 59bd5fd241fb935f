//! Listing problems, solutions and critiques: which entities a listing shows
//! and in what order.

use vstd::prelude::*;
use crate::models::{
    opt_view, Critique, CritiqueStatus, Priority, Problem, ProblemStatus, Solution, SolutionStatus,
};
use crate::parsing::strip_leading;
use crate::status::priority_rank;
use crate::text::{strs, 
    chars_eq, chars_of, contains, has_sub, lemma_lex_antisym, lemma_lex_total, lemma_lex_trans,
    lex_le, lex_le_exec, str_eq, string_of, to_lowercase, unicode_lowercase, views,
};

verus! {

// ───────────────────────── orders ─────────────────────────

/// The order a listing is sorted in (stable: ties keep list order).
#[derive(Debug, Clone, Copy, PartialEq, Eq, Structural)]
pub enum ListOrder {
    /// As stored.
    Given,
    /// Most urgent first.
    Priority,
    /// By status, in lifecycle order.
    Status,
    /// Newest first.
    Created,
    /// By title, ignoring case.
    Title,
}

/// The order a `--sort` value names; anything else keeps the stored order.
pub open spec fn order_named(s: Seq<char>) -> ListOrder {
    if s == "priority"@ {
        ListOrder::Priority
    } else if s == "status"@ {
        ListOrder::Status
    } else if s == "created"@ {
        ListOrder::Created
    } else if s == "title"@ {
        ListOrder::Title
    } else {
        ListOrder::Given
    }
}

pub fn parse_order(sort: &str) -> (o: ListOrder)
    ensures
        o == order_named(sort@),
{
    if str_eq(sort, "priority") {
        ListOrder::Priority
    } else if str_eq(sort, "status") {
        ListOrder::Status
    } else if str_eq(sort, "created") {
        ListOrder::Created
    } else if str_eq(sort, "title") {
        ListOrder::Title
    } else {
        ListOrder::Given
    }
}

pub open spec fn problem_status_rank(s: ProblemStatus) -> int {
    match s {
        ProblemStatus::Open => 0,
        ProblemStatus::InProgress => 1,
        ProblemStatus::Solved => 2,
        ProblemStatus::Dissolved => 3,
    }
}

pub open spec fn solution_status_rank(s: SolutionStatus) -> int {
    match s {
        SolutionStatus::Proposed => 0,
        SolutionStatus::Submitted => 1,
        SolutionStatus::Approved => 2,
        SolutionStatus::Withdrawn => 3,
    }
}

/// `x` is listed before `y`, given each position's sort key (a number, then
/// a text), ties broken by position.
pub open spec fn listed_before(kn: Seq<int>, kt: Seq<Seq<char>>, x: int, y: int) -> bool {
    ||| kn[x] < kn[y]
    ||| kn[x] == kn[y] && kt[x] != kt[y] && lex_le(kt[x], kt[y])
    ||| kn[x] == kn[y] && kt[x] == kt[y] && x < y
}

pub open spec fn sorted_positions(kn: Seq<int>, kt: Seq<Seq<char>>, v: Seq<usize>) -> bool {
    forall|a: int, b: int| 0 <= a < b < v.len() ==> listed_before(kn, kt, #[trigger] v[a] as int, #[trigger] v[b] as int)
}

proof fn lemma_before_total(kn: Seq<int>, kt: Seq<Seq<char>>, x: int, y: int)
    requires
        x != y,
    ensures
        listed_before(kn, kt, x, y) || listed_before(kn, kt, y, x),
{
    lemma_lex_total(kt[x], kt[y]);
}

proof fn lemma_before_trans(kn: Seq<int>, kt: Seq<Seq<char>>, x: int, y: int, z: int)
    requires
        listed_before(kn, kt, x, y),
        listed_before(kn, kt, y, z),
    ensures
        listed_before(kn, kt, x, z),
{
    if kn[x] == kn[y] && kn[y] == kn[z] {
        if kt[x] != kt[y] && kt[y] != kt[z] {
            lemma_lex_trans(kt[x], kt[y], kt[z]);
            if kt[x] == kt[z] {
                lemma_lex_antisym(kt[x], kt[y]);
            }
        }
    }
}

pub open spec fn ints(v: Seq<i128>) -> Seq<int> {
    v.map_values(|x: i128| x as int)
}

fn before_exec(kn: &Vec<i128>, kt: &Vec<Vec<char>>, x: usize, y: usize) -> (b: bool)
    requires
        x < kn.len(),
        y < kn.len(),
        kn.len() == kt.len(),
    ensures
        b == listed_before(ints(kn@), views(kt@), x as int, y as int),
{
    if kn[x] < kn[y] {
        return true;
    }
    if kn[x] > kn[y] {
        return false;
    }
    if !chars_eq(&kt[x], &kt[y]) {
        return lex_le_exec(&kt[x], &kt[y]);
    }
    x < y
}

/// Sort positions by their keys (see `listed_before`).
pub fn sort_positions(pos: Vec<usize>, kn: &Vec<i128>, kt: &Vec<Vec<char>>) -> (r: Vec<usize>)
    requires
        kn.len() == kt.len(),
        forall|j: int| 0 <= j < pos@.len() ==> pos@[j] < kn.len(),
        forall|a: int, b: int| 0 <= a < b < pos@.len() ==> pos@[a] != pos@[b],
    ensures
        r@.to_multiset() == pos@.to_multiset(),
        sorted_positions(ints(kn@), views(kt@), r@),
        forall|j: int| 0 <= j < r@.len() ==> r@[j] < kn.len(),
{
    broadcast use vstd::multiset::group_multiset_axioms;
    let ghost n = ints(kn@);
    let ghost t = views(kt@);
    let ghost all = pos@;
    let mut out: Vec<usize> = Vec::new();
    let mut rest = pos;
    proof {
        out@.to_multiset_ensures();
        vstd::multiset::lemma_multiset_empty_len(out@.to_multiset());
        assert(out@.to_multiset().add(rest@.to_multiset()) =~= all.to_multiset());
    }
    while rest.len() > 0
        invariant
            kn.len() == kt.len(),
            n == ints(kn@),
            t == views(kt@),
            sorted_positions(n, t, out@),
            forall|j: int| 0 <= j < out@.len() ==> out@[j] < kn.len(),
            forall|j: int| 0 <= j < rest@.len() ==> rest@[j] < kn.len(),
            out@.to_multiset().add(rest@.to_multiset()) == all.to_multiset(),
            forall|a: int, b: int| 0 <= a < out@.len() && 0 <= b < rest@.len() ==> out@[a] != rest@[b],
            forall|a: int, b: int| 0 <= a < b < rest@.len() ==> rest@[a] != rest@[b],
        decreases rest.len(),
    {
        let ghost rv = rest@;
        let ghost ov = out@;
        let x = rest.remove(0);
        proof {
            rv.to_multiset_ensures();
            assert(rest@ =~= rv.remove(0));
        }
        let mut k: usize = out.len();
        while k > 0 && before_exec(kn, kt, x, out[k - 1])
            invariant
                k <= out.len(),
                ov == out@,
                kn.len() == kt.len(),
                x < kn.len(),
                forall|j: int| 0 <= j < out@.len() ==> out@[j] < kn.len(),
                n == ints(kn@),
                t == views(kt@),
                forall|j: int| k <= j < ov.len() ==> listed_before(n, t, x as int, #[trigger] ov[j] as int),
            decreases k,
        {
            k -= 1;
        }
        out.insert(k, x);
        proof {
            let nv = out@;
            assert(nv =~= ov.insert(k as int, x));
            if k > 0 {
                assert(ov[k - 1] != x);
                lemma_before_total(n, t, ov[k - 1] as int, x as int);
            }
            assert forall|a: int| 0 <= a < k implies listed_before(n, t, #[trigger] ov[a] as int, x as int) by {
                if a < k - 1 {
                    lemma_before_trans(n, t, ov[a] as int, ov[k - 1] as int, x as int);
                }
            }
            assert forall|a: int, b: int| 0 <= a < b < nv.len() implies listed_before(
                n,
                t,
                #[trigger] nv[a] as int,
                #[trigger] nv[b] as int,
            ) by {
                if b < k {
                } else if b == k {
                } else if a == k {
                    assert(nv[b] == ov[b - 1]);
                } else if a < k {
                    assert(nv[b] == ov[b - 1]);
                    lemma_before_trans(n, t, ov[a] as int, x as int, ov[b - 1] as int);
                } else {
                    assert(nv[a] == ov[a - 1] && nv[b] == ov[b - 1]);
                }
            }
            vstd::seq_lib::to_multiset_insert(ov, k as int, x);
            assert(nv.to_multiset().add(rest@.to_multiset()) =~= all.to_multiset());
            assert forall|a: int, b: int| 0 <= a < nv.len() && 0 <= b < rest@.len() implies nv[a]
                != rest@[b] by {
                assert(rest@[b] == rv[b + 1]);
                if a < k {
                    assert(nv[a] == ov[a]);
                } else if a > k {
                    assert(nv[a] == ov[a - 1]);
                }
            }
        }
    }
    proof {
        rest@.to_multiset_ensures();
        vstd::multiset::lemma_multiset_empty_len(rest@.to_multiset());
        assert(out@.to_multiset() =~= all.to_multiset());
    }
    out
}

/// Strictly increasing.
pub open spec fn increasing(v: Seq<int>) -> bool {
    forall|a: int, b: int| 0 <= a < b < v.len() ==> v[a] < v[b]
}

/// The positions `0..n`.
pub open spec fn upto(n: nat) -> Seq<int> {
    Seq::new(n, |i: int| i)
}

/// The positions of a list that pass a test, in list order, increase.
pub proof fn lemma_filter_increasing(n: nat, pred: spec_fn(int) -> bool)
    ensures
        increasing(upto(n).filter(pred)),
        forall|k: int| 0 <= k < upto(n).filter(pred).len() ==> 0 <= #[trigger] upto(n).filter(pred)[k] < n,
    decreases n,
{
    reveal(Seq::filter);
    if n > 0 {
        let m = (n - 1) as nat;
        lemma_filter_increasing(m, pred);
        assert(upto(n).drop_last() =~= upto(m));
    }
}

/// Two increasing lists holding the same elements are the same list.
pub proof fn lemma_increasing_unique(a: Seq<int>, b: Seq<int>)
    requires
        increasing(a),
        increasing(b),
        a.to_multiset() == b.to_multiset(),
    ensures
        a == b,
    decreases a.len(),
{
    broadcast use vstd::multiset::group_multiset_axioms;
    a.to_multiset_ensures();
    b.to_multiset_ensures();
    if a.len() == 0 {
        assert(b.len() == 0);
        assert(a =~= b);
    } else {
        assert(b.len() == a.len());
        let x = a.last();
        let y = b.last();
        assert(a.to_multiset().count(x) > 0);
        assert(b.contains(x));
        assert(b.to_multiset().count(y) > 0);
        assert(a.contains(y));
        let i = choose|i: int| 0 <= i < b.len() && b[i] == x;
        let j = choose|j: int| 0 <= j < a.len() && a[j] == y;
        assert(x <= y) by {
            if i < b.len() - 1 {
                assert(b[i] < b[b.len() - 1]);
            }
        }
        assert(y <= x) by {
            if j < a.len() - 1 {
                assert(a[j] < a[a.len() - 1]);
            }
        }
        let a2 = a.drop_last();
        let b2 = b.drop_last();
        assert(a =~= a2.push(x));
        assert(b =~= b2.push(x));
        a2.to_multiset_ensures();
        b2.to_multiset_ensures();
        assert(a2.push(x).to_multiset() =~= a2.to_multiset().insert(x));
        assert(b2.push(x).to_multiset() =~= b2.to_multiset().insert(x));
        assert(a.to_multiset() == a2.to_multiset().insert(x));
        assert(b.to_multiset() == b2.to_multiset().insert(x));
        assert forall|v: int| a2.to_multiset().count(v) == b2.to_multiset().count(v) by {
            assert(a.to_multiset().count(v) == b.to_multiset().count(v));
            if v == x {
                assert(a2.to_multiset().insert(x).count(v) == a2.to_multiset().count(v) + 1);
                assert(b2.to_multiset().insert(x).count(v) == b2.to_multiset().count(v) + 1);
            } else {
                assert(a2.to_multiset().insert(x).count(v) == a2.to_multiset().count(v));
                assert(b2.to_multiset().insert(x).count(v) == b2.to_multiset().count(v));
            }
        }
        assert(a2.to_multiset() =~= b2.to_multiset());
        lemma_increasing_unique(a2, b2);
    }
}

// ───────────────────────── problems ─────────────────────────

/// What a problem listing is narrowed to.
#[derive(Debug)]
pub struct ProblemFilter {
    /// Only this status (without one: only open and in-progress problems).
    pub status: Option<ProblemStatus>,
    /// Only problems of this milestone (its id).
    pub milestone: Option<String>,
    /// Only problems whose assignee contains this text, ignoring case.
    pub assignee: Option<String>,
    /// Only problems with this tag, ignoring case.
    pub tag: Option<String>,
    /// Only these problems (the ids a text search found).
    pub matching: Option<Vec<String>>,
}

pub open spec fn assignee_matches(assignee: Option<String>, pattern: Seq<char>) -> bool {
    match opt_view(assignee) {
        Some(a) => has_sub(unicode_lowercase(a), unicode_lowercase(pattern)),
        None => false,
    }
}

pub open spec fn in_matches(matching: Option<Vec<String>>, id: Seq<char>) -> bool {
    match matching {
        Some(v) => strs(v@).contains(id),
        None => true,
    }
}

/// Problem `p` passes filter `f`.
pub open spec fn problem_shown(p: Problem, f: ProblemFilter) -> bool {
    &&& (match f.status {
        Some(s) => p.status == s,
        None => p.status == ProblemStatus::Open || p.status == ProblemStatus::InProgress,
    })
    &&& (match opt_view(f.milestone) {
        Some(m) => opt_view(p.milestone_id) == Some(m),
        None => true,
    })
    &&& (match opt_view(f.assignee) {
        Some(a) => assignee_matches(p.assignee, a),
        None => true,
    })
    &&& (match opt_view(f.tag) {
        Some(t) => exists|k: int| 0 <= k < p.tags@.len() && unicode_lowercase(#[trigger] p.tags@[k]@) == unicode_lowercase(t),
        None => true,
    })
    &&& in_matches(f.matching, p.id@)
}

pub open spec fn problem_number_key(p: Problem, o: ListOrder) -> int {
    match o {
        ListOrder::Priority => 0 - priority_rank(p.priority),
        ListOrder::Status => problem_status_rank(p.status),
        ListOrder::Created => 0 - p.created_at,
        _ => 0,
    }
}

pub open spec fn title_key(title: Seq<char>, o: ListOrder) -> Seq<char> {
    if o == ListOrder::Title {
        unicode_lowercase(title)
    } else {
        Seq::empty()
    }
}

pub open spec fn problem_keys(ps: Seq<Problem>, o: ListOrder) -> (Seq<int>, Seq<Seq<char>>) {
    (
        ps.map_values(|p: Problem| problem_number_key(p, o)),
        ps.map_values(|p: Problem| title_key(p.title@, o)),
    )
}

/// Positions of the problems that pass, in list order.
pub open spec fn shown_problems(ps: Seq<Problem>, f: ProblemFilter) -> Seq<int> {
    Seq::new(ps.len(), |i: int| i).filter(|i: int| problem_shown(ps[i], f))
}

fn opt_lower(o: &Option<String>) -> (r: Option<Vec<char>>)
    ensures
        match opt_view(*o) {
            Some(s) => r matches Some(v) && v@ == unicode_lowercase(s),
            None => r is None,
        },
{
    match o {
        Some(s) => {
            let l = to_lowercase(s.as_str());
            Some(chars_of(l.as_str()))
        },
        None => None,
    }
}

fn assignee_matches_exec(assignee: &Option<String>, pattern: &Vec<char>, p: Ghost<Seq<char>>) -> (b: bool)
    requires
        pattern@ == unicode_lowercase(p@),
    ensures
        b == assignee_matches(*assignee, p@),
{
    match assignee {
        Some(a) => {
            let l = to_lowercase(a.as_str());
            let lv = chars_of(l.as_str());
            contains(&lv, pattern)
        },
        None => false,
    }
}

fn in_matches_exec(matching: &Option<Vec<String>>, id: &str) -> (b: bool)
    ensures
        b == in_matches(*matching, id@),
{
    match matching {
        Some(v) => {
            let mut k: usize = 0;
            while k < v.len()
                invariant
                    k <= v.len(),
                    in_matches(*matching, id@) == strs(v@).contains(id@),
                    forall|j: int| 0 <= j < k ==> v@[j]@ != id@,
                decreases v.len() - k,
            {
                if str_eq(v[k].as_str(), id) {
                    proof {
                        assert(strs(v@).len() == v@.len());
                        assert(strs(v@)[k as int] == id@);
                        assert(strs(v@).contains(id@));
                    }
                    return true;
                }
                k += 1;
            }
            proof {
                if strs(v@).contains(id@) {
                    let j = choose|j: int| 0 <= j < strs(v@).len() && strs(v@)[j] == id@;
                    assert(strs(v@)[j] == v@[j]@);
                }
            }
            false
        },
        None => true,
    }
}

fn has_tag_exec(tags: &Vec<String>, t: &Vec<char>, tg: Ghost<Seq<char>>) -> (b: bool)
    requires
        t@ == unicode_lowercase(tg@),
    ensures
        b == exists|k: int| 0 <= k < tags@.len() && unicode_lowercase(#[trigger] tags@[k]@) == unicode_lowercase(tg@),
{
    let mut k: usize = 0;
    while k < tags.len()
        invariant
            k <= tags.len(),
            t@ == unicode_lowercase(tg@),
            forall|j: int| 0 <= j < k ==> unicode_lowercase(#[trigger] tags@[j]@) != unicode_lowercase(tg@),
        decreases tags.len() - k,
    {
        let l = to_lowercase(tags[k].as_str());
        let lv = chars_of(l.as_str());
        if chars_eq(&lv, t) {
            return true;
        }
        k += 1;
    }
    false
}

fn problem_shown_exec(
    p: &Problem,
    f: &ProblemFilter,
    a: &Option<Vec<char>>,
    t: &Option<Vec<char>>,
) -> (b: bool)
    requires
        match opt_view(f.assignee) {
            Some(s) => *a matches Some(v) && v@ == unicode_lowercase(s),
            None => a is None,
        },
        match opt_view(f.tag) {
            Some(s) => *t matches Some(v) && v@ == unicode_lowercase(s),
            None => t is None,
        },
    ensures
        b == problem_shown(*p, *f),
{
    let status_ok = match f.status {
        Some(s) => p.status == s,
        None => p.status == ProblemStatus::Open || p.status == ProblemStatus::InProgress,
    };
    if !status_ok {
        return false;
    }
    match &f.milestone {
        Some(m) => match &p.milestone_id {
            Some(pm) => if !str_eq(pm.as_str(), m.as_str()) {
                return false;
            },
            None => return false,
        },
        None => {},
    }
    match a {
        Some(av) => if !assignee_matches_exec(&p.assignee, av, Ghost(opt_view(f.assignee)->0)) {
            return false;
        },
        None => {},
    }
    match t {
        Some(tv) => if !has_tag_exec(&p.tags, tv, Ghost(opt_view(f.tag)->0)) {
            return false;
        },
        None => {},
    }
    in_matches_exec(&f.matching, p.id.as_str())
}

fn title_key_exec(title: &str, o: ListOrder) -> (r: Vec<char>)
    ensures
        r@ == title_key(title@, o),
{
    if o == ListOrder::Title {
        let l = to_lowercase(title);
        chars_of(l.as_str())
    } else {
        Vec::new()
    }
}

fn priority_number(p: Priority) -> (n: i128)
    ensures
        n == 0 - priority_rank(p),
{
    match p {
        Priority::Critical => -3,
        Priority::High => -2,
        Priority::Medium => -1,
        Priority::Low => 0,
    }
}

fn problem_number(p: &Problem, o: ListOrder) -> (n: i128)
    ensures
        n == problem_number_key(*p, o),
{
    match o {
        ListOrder::Priority => priority_number(p.priority),
        ListOrder::Status => match p.status {
            ProblemStatus::Open => 0,
            ProblemStatus::InProgress => 1,
            ProblemStatus::Solved => 2,
            ProblemStatus::Dissolved => 3,
        },
        ListOrder::Created => 0 - (p.created_at as i128),
        _ => 0,
    }
}

/// The problems a listing shows (positions in `problems`), in order `o`.
pub fn list_problems(problems: &Vec<Problem>, f: &ProblemFilter, o: ListOrder) -> (r: Vec<usize>)
    ensures
        r@.map_values(|k: usize| k as int).to_multiset() == shown_problems(problems@, *f).to_multiset(),
        sorted_positions(problem_keys(problems@, o).0, problem_keys(problems@, o).1, r@),
        o == ListOrder::Given ==> r@.map_values(|k: usize| k as int) == shown_problems(problems@, *f),
{
    broadcast use vstd::multiset::group_multiset_axioms;
    let a = opt_lower(&f.assignee);
    let t = opt_lower(&f.tag);
    let ghost ps = problems@;
    let ghost pred = |i: int| problem_shown(ps[i], *f);
    let mut pos: Vec<usize> = Vec::new();
    let mut kn: Vec<i128> = Vec::new();
    let mut kt: Vec<Vec<char>> = Vec::new();
    let mut i: usize = 0;
    while i < problems.len()
        invariant
            i <= problems.len(),
            ps == problems@,
            pred == (|i: int| problem_shown(ps[i], *f)),
            match opt_view(f.assignee) {
                Some(s) => a matches Some(v) && v@ == unicode_lowercase(s),
                None => a is None,
            },
            match opt_view(f.tag) {
                Some(s) => t matches Some(v) && v@ == unicode_lowercase(s),
                None => t is None,
            },
            kn@.len() == i,
            kt@.len() == i,
            ints(kn@) == problem_keys(ps, o).0.take(i as int),
            views(kt@) == problem_keys(ps, o).1.take(i as int),
            pos@.map_values(|k: usize| k as int) == Seq::new(i as nat, |j: int| j).filter(pred),
            forall|j: int| 0 <= j < pos@.len() ==> pos@[j] < i,
            forall|a: int, b: int| 0 <= a < b < pos@.len() ==> pos@[a] < pos@[b],
        decreases problems.len() - i,
    {
        let ghost prev = Seq::new(i as nat, |j: int| j).filter(pred);
        proof {
            reveal(Seq::filter);
            assert(Seq::new((i + 1) as nat, |j: int| j).drop_last() =~= Seq::new(i as nat, |j: int| j));
        }
        let p = &problems[i];
        let ghost kn0 = ints(kn@);
        let ghost kt0 = views(kt@);
        kn.push(problem_number(p, o));
        kt.push(title_key_exec(p.title.as_str(), o));
        assert(ints(kn@) =~= problem_keys(ps, o).0.take(i + 1)) by {
            assert(ints(kn@) =~= kn0.push(problem_number_key(*p, o)));
        }
        assert(views(kt@) =~= problem_keys(ps, o).1.take(i + 1)) by {
            assert(views(kt@) =~= kt0.push(title_key(p.title@, o)));
        }
        if problem_shown_exec(p, f, &a, &t) {
            pos.push(i);
            assert(pos@.map_values(|k: usize| k as int) =~= prev.push(i as int));
            assert(Seq::new((i + 1) as nat, |j: int| j).filter(pred) =~= prev.push(i as int));
        } else {
            assert(Seq::new((i + 1) as nat, |j: int| j).filter(pred) =~= prev);
        }
        i += 1;
    }
    assert(Seq::new(i as nat, |j: int| j) =~= Seq::new(ps.len(), |i: int| i));
    assert(ints(kn@) =~= problem_keys(ps, o).0);
    assert(views(kt@) =~= problem_keys(ps, o).1);
    let ghost before = pos@;
    let r = sort_positions(pos, &kn, &kt);
    proof {
        lemma_map_multiset(r@, before);
        if o == ListOrder::Given {
            lemma_filter_increasing(ps.len(), |i: int| problem_shown(ps[i], *f));
            lemma_given_keeps_order(problem_keys(ps, o).0, problem_keys(ps, o).1, r@, shown_problems(ps, *f));
        }
    }
    r
}

/// Keys that all tie leave a sorted listing in list order.
proof fn lemma_given_keeps_order(kn: Seq<int>, kt: Seq<Seq<char>>, r: Seq<usize>, shown: Seq<int>)
    requires
        forall|i: int, j: int| 0 <= i < kn.len() && 0 <= j < kn.len() ==> kn[i] == kn[j] && kt[i] == kt[j],
        forall|k: int| 0 <= k < r.len() ==> r[k] < kn.len(),
        kn.len() == kt.len(),
        sorted_positions(kn, kt, r),
        increasing(shown),
        r.map_values(|k: usize| k as int).to_multiset() == shown.to_multiset(),
    ensures
        r.map_values(|k: usize| k as int) == shown,
{
    let ri = r.map_values(|k: usize| k as int);
    assert forall|a: int, b: int| 0 <= a < b < ri.len() implies ri[a] < ri[b] by {
        assert(listed_before(kn, kt, r[a] as int, r[b] as int));
    }
    lemma_increasing_unique(ri, shown);
}

/// Positions with equal multisets stay equal as integers.
pub proof fn lemma_map_multiset(a: Seq<usize>, b: Seq<usize>)
    requires
        a.to_multiset() == b.to_multiset(),
    ensures
        a.map_values(|k: usize| k as int).to_multiset() == b.map_values(|k: usize| k as int).to_multiset(),
    decreases a.len(),
{
    broadcast use vstd::multiset::group_multiset_axioms;
    a.to_multiset_ensures();
    b.to_multiset_ensures();
    if a.len() == 0 {
        vstd::multiset::lemma_multiset_empty_len(b.to_multiset());
        assert(b.len() == 0);
        assert(a.map_values(|k: usize| k as int) =~= b.map_values(|k: usize| k as int));
    } else {
        let x = a.last();
        let a2 = a.drop_last();
        assert(a =~= a2.push(x));
        a2.to_multiset_ensures();
        assert(a.to_multiset().count(x) > 0);
        assert(b.contains(x));
        let j = choose|j: int| 0 <= j < b.len() && b[j] == x;
        let b2 = b.remove(j);
        vstd::seq_lib::to_multiset_remove(b, j);
        assert(a2.to_multiset() =~= b2.to_multiset());
        lemma_map_multiset(a2, b2);
        let f = |k: usize| k as int;
        assert(a.map_values(f) =~= a2.map_values(f).push(x as int));
        a2.map_values(f).to_multiset_ensures();
        assert(b =~= b2.insert(j, x));
        assert(b.map_values(f) =~= b2.map_values(f).insert(j, x as int));
        vstd::seq_lib::to_multiset_insert(b2.map_values(f), j, x as int);
        b2.map_values(f).to_multiset_ensures();
    }
}

// ───────────────────────── solutions ─────────────────────────

/// What a solution listing is narrowed to.
#[derive(Debug)]
pub struct SolutionFilter {
    /// Only solutions of this problem (its id).
    pub problem: Option<String>,
    pub status: Option<SolutionStatus>,
    /// Only solutions whose assignee contains this text (a leading `@`
    /// dropped), ignoring case.
    pub assignee: Option<String>,
    /// Only these solutions (the ids a text search found).
    pub matching: Option<Vec<String>>,
}

pub open spec fn solution_shown(s: Solution, f: SolutionFilter) -> bool {
    &&& (match opt_view(f.problem) {
        Some(p) => s.problem_id@ == p,
        None => true,
    })
    &&& (match f.status {
        Some(st) => s.status == st,
        None => true,
    })
    &&& (match opt_view(f.assignee) {
        Some(a) => assignee_matches(s.assignee, strip_leading(a, '@')),
        None => true,
    })
    &&& in_matches(f.matching, s.id@)
}

/// Solutions sort by status, creation or title; `priority` keeps the stored
/// order.
pub open spec fn solution_number_key(s: Solution, o: ListOrder) -> int {
    match o {
        ListOrder::Status => solution_status_rank(s.status),
        ListOrder::Created => 0 - s.created_at,
        _ => 0,
    }
}

pub open spec fn solution_keys(ss: Seq<Solution>, o: ListOrder) -> (Seq<int>, Seq<Seq<char>>) {
    (
        ss.map_values(|s: Solution| solution_number_key(s, o)),
        ss.map_values(|s: Solution| title_key(s.title@, o)),
    )
}

pub open spec fn shown_solutions(ss: Seq<Solution>, f: SolutionFilter) -> Seq<int> {
    Seq::new(ss.len(), |i: int| i).filter(|i: int| solution_shown(ss[i], f))
}

fn strip_at_lower(o: &Option<String>) -> (r: Option<Vec<char>>)
    ensures
        match opt_view(*o) {
            Some(s) => r matches Some(v) && v@ == unicode_lowercase(strip_leading(s, '@')),
            None => r is None,
        },
{
    match o {
        Some(s) => {
            let v = chars_of(s.as_str());
            let t = crate::parsing::strip_leading_exec(&v, '@');
            let ts = string_of(&t);
            let l = to_lowercase(ts.as_str());
            Some(chars_of(l.as_str()))
        },
        None => None,
    }
}

fn solution_shown_exec(s: &Solution, f: &SolutionFilter, a: &Option<Vec<char>>) -> (b: bool)
    requires
        match opt_view(f.assignee) {
            Some(x) => *a matches Some(v) && v@ == unicode_lowercase(strip_leading(x, '@')),
            None => a is None,
        },
    ensures
        b == solution_shown(*s, *f),
{
    match &f.problem {
        Some(p) => if !str_eq(s.problem_id.as_str(), p.as_str()) {
            return false;
        },
        None => {},
    }
    match f.status {
        Some(st) => if s.status != st {
            return false;
        },
        None => {},
    }
    match a {
        Some(av) => if !assignee_matches_exec(&s.assignee, av, Ghost(strip_leading(opt_view(f.assignee)->0, '@'))) {
            return false;
        },
        None => {},
    }
    in_matches_exec(&f.matching, s.id.as_str())
}

fn solution_number(s: &Solution, o: ListOrder) -> (n: i128)
    ensures
        n == solution_number_key(*s, o),
{
    match o {
        ListOrder::Status => match s.status {
            SolutionStatus::Proposed => 0,
            SolutionStatus::Submitted => 1,
            SolutionStatus::Approved => 2,
            SolutionStatus::Withdrawn => 3,
        },
        ListOrder::Created => 0 - (s.created_at as i128),
        _ => 0,
    }
}

/// The solutions a listing shows (positions in `solutions`), in order `o`.
pub fn list_solutions(solutions: &Vec<Solution>, f: &SolutionFilter, o: ListOrder) -> (r: Vec<usize>)
    ensures
        r@.map_values(|k: usize| k as int).to_multiset() == shown_solutions(solutions@, *f).to_multiset(),
        sorted_positions(solution_keys(solutions@, o).0, solution_keys(solutions@, o).1, r@),
        o == ListOrder::Given || o == ListOrder::Priority ==> r@.map_values(|k: usize| k as int)
            == shown_solutions(solutions@, *f),
{
    broadcast use vstd::multiset::group_multiset_axioms;
    let a = strip_at_lower(&f.assignee);
    let ghost ss = solutions@;
    let ghost pred = |i: int| solution_shown(ss[i], *f);
    let mut pos: Vec<usize> = Vec::new();
    let mut kn: Vec<i128> = Vec::new();
    let mut kt: Vec<Vec<char>> = Vec::new();
    let mut i: usize = 0;
    while i < solutions.len()
        invariant
            i <= solutions.len(),
            ss == solutions@,
            pred == (|i: int| solution_shown(ss[i], *f)),
            match opt_view(f.assignee) {
                Some(x) => a matches Some(v) && v@ == unicode_lowercase(strip_leading(x, '@')),
                None => a is None,
            },
            kn@.len() == i,
            kt@.len() == i,
            ints(kn@) == solution_keys(ss, o).0.take(i as int),
            views(kt@) == solution_keys(ss, o).1.take(i as int),
            pos@.map_values(|k: usize| k as int) == Seq::new(i as nat, |j: int| j).filter(pred),
            forall|j: int| 0 <= j < pos@.len() ==> pos@[j] < i,
            forall|a: int, b: int| 0 <= a < b < pos@.len() ==> pos@[a] < pos@[b],
        decreases solutions.len() - i,
    {
        let ghost prev = Seq::new(i as nat, |j: int| j).filter(pred);
        proof {
            reveal(Seq::filter);
            assert(Seq::new((i + 1) as nat, |j: int| j).drop_last() =~= Seq::new(i as nat, |j: int| j));
        }
        let s = &solutions[i];
        let ghost kn0 = ints(kn@);
        let ghost kt0 = views(kt@);
        kn.push(solution_number(s, o));
        kt.push(title_key_exec(s.title.as_str(), o));
        assert(ints(kn@) =~= solution_keys(ss, o).0.take(i + 1)) by {
            assert(ints(kn@) =~= kn0.push(solution_number_key(*s, o)));
        }
        assert(views(kt@) =~= solution_keys(ss, o).1.take(i + 1)) by {
            assert(views(kt@) =~= kt0.push(title_key(s.title@, o)));
        }
        if solution_shown_exec(s, f, &a) {
            pos.push(i);
            assert(pos@.map_values(|k: usize| k as int) =~= prev.push(i as int));
            assert(Seq::new((i + 1) as nat, |j: int| j).filter(pred) =~= prev.push(i as int));
        } else {
            assert(Seq::new((i + 1) as nat, |j: int| j).filter(pred) =~= prev);
        }
        i += 1;
    }
    assert(Seq::new(i as nat, |j: int| j) =~= Seq::new(ss.len(), |i: int| i));
    assert(ints(kn@) =~= solution_keys(ss, o).0);
    assert(views(kt@) =~= solution_keys(ss, o).1);
    let ghost before = pos@;
    let r = sort_positions(pos, &kn, &kt);
    proof {
        lemma_map_multiset(r@, before);
        if o == ListOrder::Given || o == ListOrder::Priority {
            lemma_filter_increasing(ss.len(), |i: int| solution_shown(ss[i], *f));
            lemma_given_keeps_order(solution_keys(ss, o).0, solution_keys(ss, o).1, r@, shown_solutions(ss, *f));
        }
    }
    r
}

// ───────────────────────── critiques ─────────────────────────

/// What a critique listing is narrowed to (critiques keep their stored
/// order).
#[derive(Debug)]
pub struct CritiqueFilter {
    /// Only critiques of this solution (its id).
    pub solution: Option<String>,
    pub status: Option<CritiqueStatus>,
    /// Only critiques assigned to exactly this person (a leading `@`
    /// dropped).
    pub critic: Option<String>,
    /// Only these critiques (the ids a text search found).
    pub matching: Option<Vec<String>>,
}

pub open spec fn critique_shown(c: Critique, f: CritiqueFilter) -> bool {
    &&& (match opt_view(f.solution) {
        Some(s) => c.solution_id@ == s,
        None => true,
    })
    &&& (match f.status {
        Some(st) => c.status == st,
        None => true,
    })
    &&& (match opt_view(f.critic) {
        Some(r) => opt_view(c.reviewer) == Some(strip_leading(r, '@')),
        None => true,
    })
    &&& in_matches(f.matching, c.id@)
}

pub open spec fn shown_critiques(cs: Seq<Critique>, f: CritiqueFilter) -> Seq<int> {
    Seq::new(cs.len(), |i: int| i).filter(|i: int| critique_shown(cs[i], f))
}

fn critique_shown_exec(c: &Critique, f: &CritiqueFilter, r: &Option<Vec<char>>) -> (b: bool)
    requires
        match opt_view(f.critic) {
            Some(x) => *r matches Some(v) && v@ == strip_leading(x, '@'),
            None => r is None,
        },
    ensures
        b == critique_shown(*c, *f),
{
    match &f.solution {
        Some(s) => if !str_eq(c.solution_id.as_str(), s.as_str()) {
            return false;
        },
        None => {},
    }
    match f.status {
        Some(st) => if c.status != st {
            return false;
        },
        None => {},
    }
    match r {
        Some(rv) => match &c.reviewer {
            Some(cr) => {
                let cv = chars_of(cr.as_str());
                if !chars_eq(&cv, rv) {
                    return false;
                }
            },
            None => return false,
        },
        None => {},
    }
    in_matches_exec(&f.matching, c.id.as_str())
}

/// The critiques a listing shows (positions in `critiques`), in stored
/// order.
pub fn list_critiques(critiques: &Vec<Critique>, f: &CritiqueFilter) -> (r: Vec<usize>)
    ensures
        r@.map_values(|k: usize| k as int) == shown_critiques(critiques@, *f),
{
    let r = match &f.critic {
        Some(x) => {
            let v = chars_of(x.as_str());
            Some(crate::parsing::strip_leading_exec(&v, '@'))
        },
        None => None,
    };
    let ghost cs = critiques@;
    let ghost pred = |i: int| critique_shown(cs[i], *f);
    let mut pos: Vec<usize> = Vec::new();
    let mut i: usize = 0;
    while i < critiques.len()
        invariant
            i <= critiques.len(),
            cs == critiques@,
            pred == (|i: int| critique_shown(cs[i], *f)),
            match opt_view(f.critic) {
                Some(x) => r matches Some(v) && v@ == strip_leading(x, '@'),
                None => r is None,
            },
            pos@.map_values(|k: usize| k as int) == Seq::new(i as nat, |j: int| j).filter(pred),
        decreases critiques.len() - i,
    {
        let ghost prev = Seq::new(i as nat, |j: int| j).filter(pred);
        proof {
            reveal(Seq::filter);
            assert(Seq::new((i + 1) as nat, |j: int| j).drop_last() =~= Seq::new(i as nat, |j: int| j));
        }
        if critique_shown_exec(&critiques[i], f, &r) {
            pos.push(i);
            assert(pos@.map_values(|k: usize| k as int) =~= prev.push(i as int));
            assert(Seq::new((i + 1) as nat, |j: int| j).filter(pred) =~= prev.push(i as int));
        } else {
            assert(Seq::new((i + 1) as nat, |j: int| j).filter(pred) =~= prev);
        }
        i += 1;
    }
    assert(Seq::new(i as nat, |j: int| j) =~= Seq::new(cs.len(), |i: int| i));
    pos
}


// ───────────────────────── status defaults ─────────────────────────

/// Without a status filter, in-progress problems are listed just as open ones
/// are, and solved or dissolved ones are not listed.
pub proof fn law_default_lists_open_and_in_progress(p: Problem, f: ProblemFilter)
    requires
        f.status is None,
    ensures
        problem_shown(Problem { status: ProblemStatus::InProgress, ..p }, f)
            == problem_shown(Problem { status: ProblemStatus::Open, ..p }, f),
        !problem_shown(Problem { status: ProblemStatus::Solved, ..p }, f),
        !problem_shown(Problem { status: ProblemStatus::Dissolved, ..p }, f),
{
    let a = Problem { status: ProblemStatus::InProgress, ..p };
    let b = Problem { status: ProblemStatus::Open, ..p };
    assert(a.tags == b.tags && a.milestone_id == b.milestone_id && a.assignee == b.assignee && a.id == b.id);
    match opt_view(f.tag) {
        Some(t) => {
            if exists|k: int| 0 <= k < a.tags@.len() && unicode_lowercase(#[trigger] a.tags@[k]@) == unicode_lowercase(t) {
                let k = choose|k: int| 0 <= k < a.tags@.len() && unicode_lowercase(#[trigger] a.tags@[k]@) == unicode_lowercase(t);
                assert(b.tags@[k] == a.tags@[k]);
            }
            if exists|k: int| 0 <= k < b.tags@.len() && unicode_lowercase(#[trigger] b.tags@[k]@) == unicode_lowercase(t) {
                let k = choose|k: int| 0 <= k < b.tags@.len() && unicode_lowercase(#[trigger] b.tags@[k]@) == unicode_lowercase(t);
                assert(a.tags@[k] == b.tags@[k]);
            }
        },
        None => {},
    }
}

} // verus!
