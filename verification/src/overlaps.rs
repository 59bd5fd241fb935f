//! Files touched by more than one active solution: which changes to ask
//! about, and how the answers add up to a list of overlaps.

use vstd::prelude::*;
use crate::models::{solution_is_active, Solution};
use crate::text::{pairs_view, chars_of, copy_str, copy_strings, lemma_lex_antisym, lemma_lex_total, lemma_lex_trans, lex_le, lex_le_exec, str_eq, strs};

verus! {

// ───────────────────────── path order ─────────────────────────

/// Paths compare component by component, each component as text; a path
/// comes before every longer path that starts with it.
pub open spec fn path_le(a: Seq<Seq<char>>, b: Seq<Seq<char>>) -> bool
    decreases a.len(),
{
    if a.len() == 0 {
        true
    } else if b.len() == 0 {
        false
    } else if a[0] != b[0] {
        lex_le(a[0], b[0])
    } else {
        path_le(a.drop_first(), b.drop_first())
    }
}

pub open spec fn path_lt(a: Seq<Seq<char>>, b: Seq<Seq<char>>) -> bool {
    path_le(a, b) && a != b
}

pub proof fn lemma_path_total(a: Seq<Seq<char>>, b: Seq<Seq<char>>)
    ensures
        path_le(a, b) || path_le(b, a),
    decreases a.len(),
{
    if a.len() > 0 && b.len() > 0 {
        if a[0] == b[0] {
            lemma_path_total(a.drop_first(), b.drop_first());
        } else {
            lemma_lex_total(a[0], b[0]);
        }
    }
}

pub proof fn lemma_path_antisym(a: Seq<Seq<char>>, b: Seq<Seq<char>>)
    requires
        path_le(a, b),
        path_le(b, a),
    ensures
        a == b,
    decreases a.len(),
{
    if a.len() == 0 {
        assert(a =~= b);
    } else if b.len() > 0 {
        if a[0] == b[0] {
            lemma_path_antisym(a.drop_first(), b.drop_first());
            assert(a =~= seq![a[0]] + a.drop_first());
            assert(b =~= seq![b[0]] + b.drop_first());
        } else {
            lemma_lex_antisym(a[0], b[0]);
        }
    }
}

pub proof fn lemma_path_trans(a: Seq<Seq<char>>, b: Seq<Seq<char>>, c: Seq<Seq<char>>)
    requires
        path_le(a, b),
        path_le(b, c),
    ensures
        path_le(a, c),
    decreases a.len(),
{
    if a.len() > 0 && b.len() > 0 && c.len() > 0 {
        if a[0] == b[0] && b[0] == c[0] {
            lemma_path_trans(a.drop_first(), b.drop_first(), c.drop_first());
        } else if a[0] != b[0] && b[0] != c[0] {
            lemma_lex_trans(a[0], b[0], c[0]);
            if a[0] == c[0] {
                lemma_lex_antisym(a[0], b[0]);
            }
        }
    }
}

proof fn lemma_path_lt_trans(a: Seq<Seq<char>>, b: Seq<Seq<char>>, c: Seq<Seq<char>>)
    requires
        path_lt(a, b),
        path_le(b, c),
    ensures
        path_lt(a, c),
{
    lemma_path_trans(a, b, c);
    if a == c {
        lemma_path_antisym(a, b);
    }
}

fn path_le_exec(a: &Vec<String>, b: &Vec<String>) -> (r: bool)
    ensures
        r == path_le(strs(a@), strs(b@)),
{
    let ghost sa = strs(a@);
    let ghost sb = strs(b@);
    let mut i: usize = 0;
    assert(sa.skip(0) =~= sa);
    assert(sb.skip(0) =~= sb);
    while i < a.len() && i < b.len() && str_eq(a[i].as_str(), b[i].as_str())
        invariant
            i <= a@.len(),
            i <= b@.len(),
            sa == strs(a@),
            sb == strs(b@),
            path_le(sa.skip(i as int), sb.skip(i as int)) == path_le(sa, sb),
        decreases a@.len() - i,
    {
        assert(sa.skip(i as int).drop_first() =~= sa.skip(i + 1));
        assert(sb.skip(i as int).drop_first() =~= sb.skip(i + 1));
        i += 1;
    }
    if i == a.len() {
        true
    } else if i == b.len() {
        false
    } else {
        assert(sa.skip(i as int)[0] == a@[i as int]@);
        assert(sb.skip(i as int)[0] == b@[i as int]@);
        lex_le_exec(&chars_of(a[i].as_str()), &chars_of(b[i].as_str()))
    }
}

fn path_eq_exec(a: &Vec<String>, b: &Vec<String>) -> (r: bool)
    ensures
        r == (strs(a@) == strs(b@)),
{
    if a.len() != b.len() {
        assert(strs(a@).len() != strs(b@).len());
        return false;
    }
    let mut i: usize = 0;
    while i < a.len()
        invariant
            i <= a@.len(),
            a@.len() == b@.len(),
            forall|k: int| 0 <= k < i ==> a@[k]@ == b@[k]@,
        decreases a@.len() - i,
    {
        if !str_eq(a[i].as_str(), b[i].as_str()) {
            assert(strs(a@)[i as int] != strs(b@)[i as int]);
            return false;
        }
        i += 1;
    }
    assert(strs(a@) =~= strs(b@));
    true
}

// ───────────────────────── what to ask ─────────────────────────

/// The (solution, change) pairs to ask about: every change of every active
/// solution, solutions in stored order, changes in their order.
pub open spec fn asks_upto(ss: Seq<Solution>, n: int) -> Seq<(usize, Seq<char>)>
    decreases n,
{
    if n <= 0 {
        Seq::empty()
    } else {
        asks_upto(ss, n - 1) + (if solution_is_active(ss[n - 1].status) {
            strs(ss[n - 1].change_ids@).map_values(|c: Seq<char>| ((n - 1) as usize, c))
        } else {
            Seq::empty()
        })
    }
}

pub open spec fn asks_view(v: Seq<(usize, String)>) -> Seq<(usize, Seq<char>)> {
    v.map_values(|a: (usize, String)| (a.0, a.1@))
}

/// Which changes to ask for the files they touch.
pub fn changes_to_ask(ss: &Vec<Solution>) -> (r: Vec<(usize, String)>)
    ensures
        asks_view(r@) == asks_upto(ss@, ss@.len() as int),
{
    let mut r: Vec<(usize, String)> = Vec::new();
    let mut i: usize = 0;
    while i < ss.len()
        invariant
            i <= ss@.len(),
            asks_view(r@) == asks_upto(ss@, i as int),
        decreases ss@.len() - i,
    {
        let s = &ss[i];
        let active = match s.status {
            crate::models::SolutionStatus::Proposed | crate::models::SolutionStatus::Submitted => true,
            _ => false,
        };
        if active {
            let ghost base = asks_view(r@);
            let ghost cs = strs(s.change_ids@);
            let mut j: usize = 0;
            while j < s.change_ids.len()
                invariant
                    i < ss@.len(),
                    s == ss@[i as int],
                    j <= s.change_ids@.len(),
                    cs == strs(s.change_ids@),
                    asks_view(r@) == base + cs.take(j as int).map_values(|c: Seq<char>| (i, c)),
                decreases s.change_ids@.len() - j,
            {
                let ghost before = asks_view(r@);
                r.push((i, copy_str(s.change_ids[j].as_str())));
                assert(asks_view(r@) =~= before.push((i, cs[j as int])));
                assert(cs.take(j + 1).map_values(|c: Seq<char>| (i, c)) =~= cs.take(j as int).map_values(|c: Seq<char>| (i, c)).push((i, cs[j as int])));
                j += 1;
            }
            assert(cs.take(cs.len() as int) =~= cs);
        }
        i += 1;
        proof {
            if !active {
                assert(asks_upto(ss@, i as int) =~= asks_upto(ss@, i - 1));
            }
        }
    }
    r
}

// ───────────────────────── the answers ─────────────────────────

/// What was learnt: for each answer, the solution asked for and one file it
/// touches, as path components, in the order the answers came.
pub open spec fn touches_view(v: Seq<(usize, Vec<String>)>) -> Seq<(usize, Seq<Seq<char>>)> {
    v.map_values(|t: (usize, Vec<String>)| (t.0, strs(t.1@)))
}

/// Solution `id` touches file `f` in one of the first `n` answers.
pub open spec fn touched_upto(ss: Seq<Solution>, ts: Seq<(usize, Seq<Seq<char>>)>, f: Seq<Seq<char>>, id: Seq<char>, n: int) -> bool {
    exists|k: int| 0 <= k < n && k < ts.len() && ts[k].1 == f && ss[ts[k].0 as int].id@ == id
}

pub open spec fn touched_by(ss: Seq<Solution>, ts: Seq<(usize, Seq<Seq<char>>)>, f: Seq<Seq<char>>, id: Seq<char>) -> bool {
    touched_upto(ss, ts, f, id, ts.len() as int)
}

/// The title that solution `id` had at its first answer touching `f`
/// among the first `n` answers.
pub open spec fn first_title_upto(ss: Seq<Solution>, ts: Seq<(usize, Seq<Seq<char>>)>, f: Seq<Seq<char>>, id: Seq<char>, n: int) -> Seq<char>
    decreases n,
{
    if n <= 0 {
        Seq::empty()
    } else if touched_upto(ss, ts, f, id, n - 1) {
        first_title_upto(ss, ts, f, id, n - 1)
    } else if ts[n - 1].1 == f && ss[ts[n - 1].0 as int].id@ == id {
        ss[ts[n - 1].0 as int].title@
    } else {
        Seq::empty()
    }
}

pub open spec fn first_title(ss: Seq<Solution>, ts: Seq<(usize, Seq<Seq<char>>)>, f: Seq<Seq<char>>, id: Seq<char>) -> Seq<char> {
    first_title_upto(ss, ts, f, id, ts.len() as int)
}

/// At least two different solutions touch `f`.
pub open spec fn shared(ss: Seq<Solution>, ts: Seq<(usize, Seq<Seq<char>>)>, f: Seq<Seq<char>>) -> bool {
    exists|a: Seq<char>, b: Seq<char>| a != b && touched_by(ss, ts, f, a) && touched_by(ss, ts, f, b)
}

/// `sols` lists each solution touching `f` once, by id in increasing
/// order, with its title at its first answer touching `f`.
pub open spec fn lists_touchers(ss: Seq<Solution>, ts: Seq<(usize, Seq<Seq<char>>)>, f: Seq<Seq<char>>, sols: Seq<(Seq<char>, Seq<char>)>) -> bool {
    &&& forall|a: int, b: int| 0 <= a < b < sols.len() ==> lex_le(#[trigger] sols[a].0, #[trigger] sols[b].0) && sols[a].0 != sols[b].0
    &&& forall|q: int| 0 <= q < sols.len() ==> touched_by(ss, ts, f, (#[trigger] sols[q]).0) && sols[q].1 == first_title(ss, ts, f, sols[q].0)
    &&& forall|id: Seq<char>| touched_by(ss, ts, f, id) ==> exists|q: int| 0 <= q < sols.len() && (#[trigger] sols[q]).0 == id
}

/// A file touched by more than one active solution, and those solutions
/// (id, title).
#[derive(Debug, PartialEq)]
pub struct Overlap {
    pub file: Vec<String>,
    pub solutions: Vec<(String, String)>,
}

pub open spec fn touches_ok(ss: Seq<Solution>, ts: Seq<(usize, Seq<Seq<char>>)>) -> bool {
    forall|k: int| 0 <= k < ts.len() ==> ((#[trigger] ts[k]).0 as int) < ss.len()
}

// ───────────────────────── building the file list ─────────────────────────

pub open spec fn strictly_sorted_paths(v: Seq<Seq<Seq<char>>>) -> bool {
    forall|a: int, b: int| 0 <= a < b < v.len() ==> path_lt(#[trigger] v[a], #[trigger] v[b])
}

pub open spec fn paths_of(v: Seq<Vec<String>>) -> Seq<Seq<Seq<char>>> {
    v.map_values(|f: Vec<String>| strs(f@))
}

/// Put `f` into the strictly sorted list `files` unless it is there.
fn insert_path(files: &mut Vec<Vec<String>>, f: &Vec<String>)
    requires
        strictly_sorted_paths(paths_of(old(files)@)),
    ensures
        strictly_sorted_paths(paths_of(final(files)@)),
        forall|x: Seq<Seq<char>>| paths_of(final(files)@).contains(x) <==> (paths_of(old(files)@).contains(x) || x == strs(f@)),
{
    let ghost old_v = paths_of(files@);
    let ghost fv = strs(f@);
    let mut p: usize = 0;
    while p < files.len() && !path_le_exec(f, &files[p])
        invariant
            p <= files@.len(),
            old_v == paths_of(files@),
            fv == strs(f@),
            forall|j: int| 0 <= j < p ==> path_lt(#[trigger] old_v[j], fv),
        decreases files@.len() - p,
    {
        proof {
            lemma_path_total(fv, old_v[p as int]);
            assert(old_v[p as int] != fv);
        }
        p += 1;
    }
    if p < files.len() && path_eq_exec(&files[p], f) {
        assert(old_v[p as int] == fv);
        return;
    }
    let copy = copy_strings(f);
    files.insert(p, copy);
    proof {
        let nv = paths_of(files@);
        assert(nv =~= old_v.insert(p as int, fv));
        if p < old_v.len() {
            assert(path_le(fv, old_v[p as int]) && old_v[p as int] != fv);
        }
        assert forall|a: int, b: int| 0 <= a < b < nv.len() implies path_lt(#[trigger] nv[a], #[trigger] nv[b]) by {
            if b < p {
                assert(nv[a] == old_v[a] && nv[b] == old_v[b]);
            } else if b == p {
                assert(nv[b] == fv && nv[a] == old_v[a]);
            } else if a == p {
                assert(nv[a] == fv && nv[b] == old_v[b - 1]);
                if b - 1 > p {
                    assert(path_lt(old_v[p as int], old_v[b - 1]));
                    lemma_path_lt_trans(fv, old_v[p as int], old_v[b - 1]);
                }
            } else if a < p {
                assert(nv[a] == old_v[a] && nv[b] == old_v[b - 1]);
                assert(path_lt(old_v[a], fv));
                if b - 1 == p as int {
                    lemma_path_lt_trans(old_v[a], fv, old_v[p as int]);
                } else {
                    assert(path_lt(old_v[p as int], old_v[b - 1]));
                    lemma_path_lt_trans(fv, old_v[p as int], old_v[b - 1]);
                    lemma_path_lt_trans(old_v[a], fv, old_v[b - 1]);
                }
            } else {
                assert(nv[a] == old_v[a - 1] && nv[b] == old_v[b - 1]);
            }
        }
        assert forall|x: Seq<Seq<char>>| nv.contains(x) <==> (old_v.contains(x) || x == fv) by {
            if nv.contains(x) {
                let w = choose|w: int| 0 <= w < nv.len() && nv[w] == x;
                if w < p {
                    assert(old_v[w] == x);
                } else if w > p {
                    assert(old_v[w - 1] == x);
                }
            }
            if old_v.contains(x) {
                let w = choose|w: int| 0 <= w < old_v.len() && old_v[w] == x;
                if w < p {
                    assert(nv[w] == x);
                } else {
                    assert(nv[w + 1] == x);
                }
            }
            if x == fv {
                assert(nv[p as int] == x);
            }
        }
    }
}

// ───────────────────────── the solutions of one file ─────────────────────────

pub open spec fn strictly_sorted_ids(v: Seq<(Seq<char>, Seq<char>)>) -> bool {
    forall|a: int, b: int| 0 <= a < b < v.len() ==> lex_le(#[trigger] v[a].0, #[trigger] v[b].0) && v[a].0 != v[b].0
}

proof fn lemma_lex_lt_trans(a: Seq<char>, b: Seq<char>, c: Seq<char>)
    requires
        lex_le(a, b),
        a != b,
        lex_le(b, c),
    ensures
        lex_le(a, c),
        a != c,
{
    lemma_lex_trans(a, b, c);
    if a == c {
        lemma_lex_antisym(a, b);
    }
}

fn has_id(sols: &Vec<(String, String)>, id: &str) -> (r: bool)
    ensures
        r == exists|q: int| 0 <= q < sols@.len() && (#[trigger] pairs_view(sols@)[q]).0 == id@,
{
    let mut q: usize = 0;
    while q < sols.len()
        invariant
            q <= sols@.len(),
            forall|w: int| 0 <= w < q ==> (#[trigger] pairs_view(sols@)[w]).0 != id@,
        decreases sols@.len() - q,
    {
        if str_eq(sols[q].0.as_str(), id) {
            assert(pairs_view(sols@)[q as int].0 == id@);
            return true;
        }
        q += 1;
    }
    false
}

/// Put (id, title) into `sols`, kept in increasing order of id; the id is
/// not there yet.
fn insert_pair(sols: &mut Vec<(String, String)>, id: &str, title: &str)
    requires
        strictly_sorted_ids(pairs_view(old(sols)@)),
        forall|q: int| 0 <= q < old(sols)@.len() ==> (#[trigger] pairs_view(old(sols)@)[q]).0 != id@,
    ensures
        strictly_sorted_ids(pairs_view(final(sols)@)),
        forall|x: (Seq<char>, Seq<char>)| pairs_view(final(sols)@).contains(x) <==> (pairs_view(old(sols)@).contains(x) || x == (id@, title@)),
{
    let ghost old_v = pairs_view(sols@);
    let ghost x = (id@, title@);
    let cid = chars_of(id);
    let mut p: usize = 0;
    while p < sols.len() && !lex_le_exec(&cid, &chars_of(sols[p].0.as_str()))
        invariant
            p <= sols@.len(),
            old_v == pairs_view(sols@),
            cid@ == id@,
            forall|j: int| 0 <= j < p ==> lex_le(#[trigger] old_v[j].0, id@) && old_v[j].0 != id@,
        decreases sols@.len() - p,
    {
        proof {
            lemma_lex_total(id@, old_v[p as int].0);
        }
        p += 1;
    }
    sols.insert(p, (copy_str(id), copy_str(title)));
    proof {
        let nv = pairs_view(sols@);
        assert(nv =~= old_v.insert(p as int, x));
        assert forall|a: int, b: int| 0 <= a < b < nv.len() implies lex_le(#[trigger] nv[a].0, #[trigger] nv[b].0) && nv[a].0 != nv[b].0 by {
            if b < p {
                assert(nv[a] == old_v[a] && nv[b] == old_v[b]);
            } else if b == p {
                assert(nv[b] == x && nv[a] == old_v[a]);
            } else if a == p {
                assert(nv[a] == x && nv[b] == old_v[b - 1]);
                assert(lex_le(id@, old_v[p as int].0));
                if b - 1 > p {
                    lemma_lex_trans(id@, old_v[p as int].0, old_v[b - 1].0);
                }
            } else if a < p {
                assert(nv[a] == old_v[a] && nv[b] == old_v[b - 1]);
                assert(lex_le(id@, old_v[p as int].0));
                if b - 1 == p as int {
                    lemma_lex_lt_trans(old_v[a].0, id@, old_v[p as int].0);
                } else {
                    lemma_lex_trans(id@, old_v[p as int].0, old_v[b - 1].0);
                    lemma_lex_lt_trans(old_v[a].0, id@, old_v[b - 1].0);
                }
            } else {
                assert(nv[a] == old_v[a - 1] && nv[b] == old_v[b - 1]);
            }
        }
        assert forall|y: (Seq<char>, Seq<char>)| nv.contains(y) <==> (old_v.contains(y) || y == x) by {
            if nv.contains(y) {
                let w = choose|w: int| 0 <= w < nv.len() && nv[w] == y;
                if w < p {
                    assert(old_v[w] == y);
                } else if w > p {
                    assert(old_v[w - 1] == y);
                }
            }
            if old_v.contains(y) {
                let w = choose|w: int| 0 <= w < old_v.len() && old_v[w] == y;
                if w < p {
                    assert(nv[w] == y);
                } else {
                    assert(nv[w + 1] == y);
                }
            }
            if y == x {
                assert(nv[p as int] == y);
            }
        }
    }
}

/// The solutions touching `f`, each once, by id in increasing order, with
/// the title each had at its first answer touching `f`.
fn touchers(ss: &Vec<Solution>, touched: &Vec<(usize, Vec<String>)>, f: &Vec<String>) -> (r: Vec<(String, String)>)
    requires
        touches_ok(ss@, touches_view(touched@)),
    ensures
        lists_touchers(ss@, touches_view(touched@), strs(f@), pairs_view(r@)),
{
    let ghost ts = touches_view(touched@);
    let ghost fv = strs(f@);
    let mut sols: Vec<(String, String)> = Vec::new();
    let mut k: usize = 0;
    while k < touched.len()
        invariant
            k <= touched@.len(),
            ts == touches_view(touched@),
            fv == strs(f@),
            touches_ok(ss@, ts),
            strictly_sorted_ids(pairs_view(sols@)),
            forall|q: int| 0 <= q < sols@.len() ==> touched_upto(ss@, ts, fv, (#[trigger] pairs_view(sols@)[q]).0, k as int)
                && pairs_view(sols@)[q].1 == first_title_upto(ss@, ts, fv, pairs_view(sols@)[q].0, k as int),
            forall|id: Seq<char>| touched_upto(ss@, ts, fv, id, k as int)
                ==> exists|q: int| 0 <= q < sols@.len() && (#[trigger] pairs_view(sols@)[q]).0 == id,
        decreases touched@.len() - k,
    {
        let ghost before = pairs_view(sols@);
        assert(ts[k as int] == (touched@[k as int].0, strs(touched@[k as int].1@)));
        let si = touched[k].0;
        assert((si as int) < ss@.len());
        let here = path_eq_exec(&touched[k].1, f);
        let ghost cur = ss@[si as int].id@;
        if here {
            let s = &ss[si];
            if !has_id(&sols, s.id.as_str()) {
                proof {
                    if touched_upto(ss@, ts, fv, cur, k as int) {
                        let q = choose|q: int| 0 <= q < sols@.len() && (#[trigger] pairs_view(sols@)[q]).0 == cur;
                        assert(pairs_view(sols@)[q].0 == s.id@);
                    }
                }
                insert_pair(&mut sols, s.id.as_str(), s.title.as_str());
            }
        }
        proof {
            let after = pairs_view(sols@);
            let k1 = k as int + 1;
            assert forall|id: Seq<char>| touched_upto(ss@, ts, fv, id, k1) == (touched_upto(ss@, ts, fv, id, k as int) || (here && id == cur)) by {
                if touched_upto(ss@, ts, fv, id, k1) && !touched_upto(ss@, ts, fv, id, k as int) {
                    let w = choose|w: int| 0 <= w < k1 && w < ts.len() && ts[w].1 == fv && ss@[ts[w].0 as int].id@ == id;
                    assert(w == k as int);
                }
                if here && id == cur {
                    assert(ts[k as int].1 == fv && ss@[ts[k as int].0 as int].id@ == id);
                }
            }
            assert forall|q: int| 0 <= q < after.len() implies touched_upto(ss@, ts, fv, (#[trigger] after[q]).0, k1)
                && after[q].1 == first_title_upto(ss@, ts, fv, after[q].0, k1) by {
                let id = after[q].0;
                if before.contains(after[q]) {
                    let w = choose|w: int| 0 <= w < before.len() && before[w] == after[q];
                    assert(touched_upto(ss@, ts, fv, before[w].0, k as int));
                } else {
                    assert(here);
                    assert(after[q] == (ss@[si as int].id@, ss@[si as int].title@));
                    assert(!touched_upto(ss@, ts, fv, cur, k as int));
                }
            }
            assert forall|id: Seq<char>| touched_upto(ss@, ts, fv, id, k1)
                implies exists|q: int| 0 <= q < after.len() && (#[trigger] after[q]).0 == id by {
                if touched_upto(ss@, ts, fv, id, k as int) {
                    let q = choose|q: int| 0 <= q < before.len() && (#[trigger] before[q]).0 == id;
                    assert(after.contains(before[q]));
                    let w = choose|w: int| 0 <= w < after.len() && after[w] == before[q];
                    assert(after[w].0 == id);
                } else {
                    assert(here && id == cur);
                    if exists|q: int| 0 <= q < before.len() && (#[trigger] before[q]).0 == id {
                        let q = choose|q: int| 0 <= q < before.len() && (#[trigger] before[q]).0 == id;
                        assert(touched_upto(ss@, ts, fv, before[q].0, k as int));
                    }
                    let x = (ss@[si as int].id@, ss@[si as int].title@);
                    assert(after.contains(x));
                    let w = choose|w: int| 0 <= w < after.len() && after[w] == x;
                    assert(after[w].0 == id);
                }
            }
        }
        k += 1;
    }
    sols
}

// ───────────────────────── overlaps ─────────────────────────

pub open spec fn overlap_files(v: Seq<Overlap>) -> Seq<Seq<Seq<char>>> {
    v.map_values(|o: Overlap| strs(o.file@))
}

/// The files that more than one active solution touches, in path order,
/// each with the solutions touching it, given the answers: for each file
/// that a change of an active solution touches, the solution's index and
/// the file's path components (see `changes_to_ask`). A solution counts
/// once per file however many of its changes touch it.
pub fn find_overlaps(ss: &Vec<Solution>, touched: &Vec<(usize, Vec<String>)>) -> (r: Vec<Overlap>)
    requires
        touches_ok(ss@, touches_view(touched@)),
    ensures
        strictly_sorted_paths(overlap_files(r@)),
        forall|e: int| 0 <= e < r@.len() ==> shared(ss@, touches_view(touched@), #[trigger] overlap_files(r@)[e])
            && lists_touchers(ss@, touches_view(touched@), overlap_files(r@)[e], pairs_view(r@[e].solutions@)),
        forall|k: int| 0 <= k < touched@.len() && shared(ss@, touches_view(touched@), #[trigger] touches_view(touched@)[k].1)
            ==> overlap_files(r@).contains(touches_view(touched@)[k].1),
{
    let ghost ts = touches_view(touched@);
    let mut files: Vec<Vec<String>> = Vec::new();
    let mut k: usize = 0;
    while k < touched.len()
        invariant
            k <= touched@.len(),
            ts == touches_view(touched@),
            strictly_sorted_paths(paths_of(files@)),
            forall|x: Seq<Seq<char>>| paths_of(files@).contains(x) <==> exists|j: int| 0 <= j < k && (#[trigger] ts[j]).1 == x,
        decreases touched@.len() - k,
    {
        let ghost before = paths_of(files@);
        insert_path(&mut files, &touched[k].1);
        proof {
            assert(ts[k as int].1 == strs(touched@[k as int].1@));
            assert forall|x: Seq<Seq<char>>| paths_of(files@).contains(x) <==> exists|j: int| 0 <= j < k + 1 && (#[trigger] ts[j]).1 == x by {
                if exists|j: int| 0 <= j < k + 1 && (#[trigger] ts[j]).1 == x {
                    let j = choose|j: int| 0 <= j < k + 1 && (#[trigger] ts[j]).1 == x;
                    if j < k {
                        assert(before.contains(x));
                    }
                }
            }
        }
        k += 1;
    }
    let ghost fs = paths_of(files@);
    let mut r: Vec<Overlap> = Vec::new();
    let mut i: usize = 0;
    while i < files.len()
        invariant
            i <= files@.len(),
            ts == touches_view(touched@),
            fs == paths_of(files@),
            touches_ok(ss@, ts),
            strictly_sorted_paths(fs),
            forall|x: Seq<Seq<char>>| fs.contains(x) <==> exists|j: int| 0 <= j < touched@.len() && (#[trigger] ts[j]).1 == x,
            strictly_sorted_paths(overlap_files(r@)),
            forall|e: int| 0 <= e < r@.len() ==> exists|j: int| 0 <= j < i && fs[j] == #[trigger] overlap_files(r@)[e],
            forall|e: int| 0 <= e < r@.len() ==> shared(ss@, ts, #[trigger] overlap_files(r@)[e])
                && lists_touchers(ss@, ts, overlap_files(r@)[e], pairs_view(r@[e].solutions@)),
            forall|j: int| 0 <= j < i && shared(ss@, ts, #[trigger] fs[j]) ==> overlap_files(r@).contains(fs[j]),
        decreases files@.len() - i,
    {
        let f = &files[i];
        assert(fs[i as int] == strs(f@));
        let sols = touchers(ss, touched, f);
        let ghost sv = pairs_view(sols@);
        let ghost fv = strs(f@);
        proof {
            if shared(ss@, ts, fv) {
                let (a, b) = choose|a: Seq<char>, b: Seq<char>| a != b && touched_by(ss@, ts, fv, a) && touched_by(ss@, ts, fv, b);
                let qa = choose|q: int| 0 <= q < sv.len() && (#[trigger] sv[q]).0 == a;
                let qb = choose|q: int| 0 <= q < sv.len() && (#[trigger] sv[q]).0 == b;
                assert(qa != qb);
                assert(sv.len() >= 2);
            }
            if sv.len() >= 2 {
                assert(sv[0].0 != sv[1].0);
                assert(touched_by(ss@, ts, fv, sv[0].0));
                assert(touched_by(ss@, ts, fv, sv[1].0));
            }
        }
        let ghost rb = r@;
        if sols.len() >= 2 {
            let o = Overlap { file: copy_strings(f), solutions: sols };
            r.push(o);
            proof {
                let ov = overlap_files(r@);
                assert(ov =~= overlap_files(rb).push(fv));
                assert forall|a: int, b: int| 0 <= a < b < ov.len() implies path_lt(#[trigger] ov[a], #[trigger] ov[b]) by {
                    if b == ov.len() - 1 {
                        assert(ov[a] == overlap_files(rb)[a]);
                        let j = choose|j: int| 0 <= j < i && fs[j] == #[trigger] overlap_files(rb)[a];
                        assert(path_lt(fs[j], fs[i as int]));
                    } else {
                        assert(ov[a] == overlap_files(rb)[a] && ov[b] == overlap_files(rb)[b]);
                    }
                }
                assert forall|e: int| 0 <= e < r@.len() implies exists|j: int| 0 <= j < i + 1 && fs[j] == #[trigger] overlap_files(r@)[e] by {
                    if e < rb.len() {
                        assert(overlap_files(r@)[e] == overlap_files(rb)[e]);
                        let j = choose|j: int| 0 <= j < i && fs[j] == #[trigger] overlap_files(rb)[e];
                        assert(fs[j] == overlap_files(r@)[e]);
                    } else {
                        assert(fs[i as int] == overlap_files(r@)[e]);
                    }
                }
                assert forall|e: int| 0 <= e < r@.len() implies shared(ss@, ts, #[trigger] overlap_files(r@)[e])
                    && lists_touchers(ss@, ts, overlap_files(r@)[e], pairs_view(r@[e].solutions@)) by {
                    if e < rb.len() {
                        assert(overlap_files(r@)[e] == overlap_files(rb)[e]);
                        assert(r@[e] == rb[e]);
                    }
                }
                assert forall|j: int| 0 <= j < i + 1 && shared(ss@, ts, #[trigger] fs[j]) implies overlap_files(r@).contains(fs[j]) by {
                    if j < i {
                        let w = choose|w: int| 0 <= w < overlap_files(rb).len() && overlap_files(rb)[w] == fs[j];
                        assert(overlap_files(r@)[w] == fs[j]);
                    } else {
                        assert(overlap_files(r@)[rb.len() as int] == fs[j]);
                    }
                }
            }
        } else {
            proof {
                assert forall|e: int| 0 <= e < r@.len() implies exists|j: int| 0 <= j < i + 1 && fs[j] == #[trigger] overlap_files(r@)[e] by {
                    let j = choose|j: int| 0 <= j < i && fs[j] == #[trigger] overlap_files(r@)[e];
                }
            }
        }
        i += 1;
    }
    proof {
        assert forall|k: int| 0 <= k < touched@.len() && shared(ss@, ts, #[trigger] ts[k].1)
            implies overlap_files(r@).contains(ts[k].1) by {
            assert(fs.contains(ts[k].1));
            let j = choose|j: int| 0 <= j < fs.len() && fs[j] == ts[k].1;
        }
    }
    r
}

} // verus!
