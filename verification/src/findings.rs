//! Findings: what was measured or learnt about a problem, and which
//! entities it bears on.

use vstd::prelude::*;
use crate::models::{opt_view, Problem};
use crate::parsing::{strip_leading, strip_leading_exec};
use crate::store::{has_problem, JjjError};
use crate::text::{chars_of, contains, copy_str, copy_strings, has_sub, str_eq, string_of, strs, to_lowercase, unicode_lowercase};

verus! {

/// Whether a finding still stands or has been replaced by a later one.
#[derive(Debug, Clone, Copy, PartialEq, Eq, Structural)]
pub enum FindingStatus {
    Current,
    Superseded,
}

/// One finding on a problem.
#[derive(Debug)]
pub struct Finding {
    pub id: String,
    pub title: String,
    pub problem_id: String,
    /// What was observed.
    pub evidence: String,
    /// How it was measured, when said.
    pub method: Option<String>,
    /// The entities it bears on.
    pub refs: Vec<String>,
    pub tags: Vec<String>,
    pub author: Option<String>,
    pub status: FindingStatus,
    /// The finding that replaced it, once superseded.
    pub superseded_by: Option<String>,
    /// When it was recorded (seconds since the epoch).
    pub created_at: i64,
}

/// What recording a finding does: the problem must exist; then one current
/// finding is appended, with the author, evidence, method, references and
/// tags given. A refusal changes nothing.
pub open spec fn record_post(
    fs0: Seq<Finding>,
    ps: Seq<Problem>,
    id: Seq<char>,
    problem_id: Seq<char>,
    title: Seq<char>,
    evidence: Seq<char>,
    method: Option<Seq<char>>,
    refs: Seq<Seq<char>>,
    tags: Seq<Seq<char>>,
    author: Seq<char>,
    now: i64,
    r: Result<(), JjjError>,
    fs1: Seq<Finding>,
) -> bool {
    if !has_problem(ps, problem_id) {
        r matches Err(JjjError::ProblemNotFound(x)) && x@ == problem_id && fs1 == fs0
    } else {
        let f = fs1.last();
        &&& r is Ok
        &&& fs1.len() == fs0.len() + 1
        &&& fs1.drop_last() == fs0
        &&& f.id@ == id
        &&& f.title@ == title
        &&& f.problem_id@ == problem_id
        &&& f.evidence@ == evidence
        &&& opt_view(f.method) == method
        &&& strs(f.refs@) == refs
        &&& strs(f.tags@) == tags
        &&& opt_view(f.author) == Some(author)
        &&& f.status == FindingStatus::Current
        &&& f.superseded_by is None
        &&& f.created_at == now
    }
}

/// Record finding `id` on problem `problem_id` (already resolved), by
/// `author` at `now`; `refs` are the already resolved entities it bears on.
pub fn record_finding(
    findings: &mut Vec<Finding>,
    problems: &Vec<Problem>,
    id: &str,
    problem_id: &str,
    title: &str,
    evidence: &str,
    method: Option<&str>,
    refs: &Vec<String>,
    tags: &Vec<String>,
    author: &str,
    now: i64,
) -> (r: Result<(), JjjError>)
    ensures
        record_post(
            old(findings)@,
            problems@,
            id@,
            problem_id@,
            title@,
            evidence@,
            crate::domain::opt_str_view(method),
            strs(refs@),
            strs(tags@),
            author@,
            now,
            r,
            final(findings)@,
        ),
{
    let mut found = false;
    let mut k: usize = 0;
    while k < problems.len()
        invariant
            k <= problems@.len(),
            found == crate::store::has_problem(problems@.take(k as int), problem_id@),
        decreases problems@.len() - k,
    {
        proof {
            lemma_has_problem_step(problems@, k as int, problem_id@);
        }
        if str_eq(problems[k].id.as_str(), problem_id) {
            found = true;
        }
        k += 1;
    }
    assert(problems@.take(k as int) =~= problems@);
    if !found {
        return Err(JjjError::ProblemNotFound(copy_str(problem_id)));
    }
    let ghost before = findings@;
    let f = Finding {
        id: copy_str(id),
        title: copy_str(title),
        problem_id: copy_str(problem_id),
        evidence: copy_str(evidence),
        method: crate::models::opt_str_to_string(method),
        refs: copy_strings(refs),
        tags: copy_strings(tags),
        author: Some(copy_str(author)),
        status: FindingStatus::Current,
        superseded_by: None,
        created_at: now,
    };
    findings.push(f);
    assert(findings@.drop_last() =~= before);
    Ok(())
}

proof fn lemma_has_problem_step(ps: Seq<Problem>, k: int, id: Seq<char>)
    requires
        0 <= k < ps.len(),
    ensures
        has_problem(ps.take(k + 1), id) == (has_problem(ps.take(k), id) || ps[k].id@ == id),
{
    let a = ps.take(k);
    let b = ps.take(k + 1);
    assert(crate::store::problem_ids(b) =~= crate::store::problem_ids(a).push(ps[k].id@));
    crate::store::lemma_first_index_push(crate::store::problem_ids(a), id, ps[k].id@);
}

// ───────────────────────── listing ─────────────────────────

/// The filters of `finding list`: a problem, a status, an author pattern
/// (leading `@` ignored, matched case-insensitively as part of the author),
/// and the entities a finding must bear on one of (already resolved).
pub struct FindingFilter {
    pub problem: Option<String>,
    pub status: Option<FindingStatus>,
    pub author: Option<String>,
    pub about: Option<Vec<String>>,
}

pub open spec fn author_matches(author: Option<String>, pattern: Seq<char>) -> bool {
    match author {
        Some(a) => has_sub(unicode_lowercase(a@), unicode_lowercase(strip_leading(pattern, '@'))),
        None => false,
    }
}

pub open spec fn bears_on_any(refs: Seq<Seq<char>>, ids: Seq<Seq<char>>) -> bool {
    exists|k: int| 0 <= k < ids.len() && refs.contains(#[trigger] ids[k])
}

/// Finding `f` passes every filter that is set.
pub open spec fn finding_shown(f: Finding, flt: FindingFilter) -> bool {
    &&& (match flt.problem {
        Some(p) => f.problem_id@ == p@,
        None => true,
    })
    &&& (match flt.status {
        Some(st) => f.status == st,
        None => true,
    })
    &&& (match flt.author {
        Some(pat) => author_matches(f.author, pat@),
        None => true,
    })
    &&& (match flt.about {
        Some(ids) => bears_on_any(strs(f.refs@), strs(ids@)),
        None => true,
    })
}

/// The positions of the findings that pass the filter, in stored order.
pub open spec fn shown_findings(fs: Seq<Finding>, flt: FindingFilter, n: int) -> Seq<usize>
    decreases n,
{
    if n <= 0 {
        Seq::empty()
    } else {
        shown_findings(fs, flt, n - 1) + (if finding_shown(fs[n - 1], flt) {
            seq![(n - 1) as usize]
        } else {
            Seq::empty()
        })
    }
}

fn refs_contain(refs: &Vec<String>, id: &str) -> (b: bool)
    ensures
        b == strs(refs@).contains(id@),
{
    let mut k: usize = 0;
    while k < refs.len()
        invariant
            k <= refs@.len(),
            forall|j: int| 0 <= j < k ==> refs@[j]@ != id@,
        decreases refs@.len() - k,
    {
        if str_eq(refs[k].as_str(), id) {
            assert(strs(refs@)[k as int] == id@);
            return true;
        }
        k += 1;
    }
    proof {
        if strs(refs@).contains(id@) {
            let j = choose|j: int| 0 <= j < strs(refs@).len() && strs(refs@)[j] == id@;
            assert(strs(refs@)[j] == refs@[j]@);
        }
    }
    false
}

fn bears_on_any_exec(refs: &Vec<String>, ids: &Vec<String>) -> (b: bool)
    ensures
        b == bears_on_any(strs(refs@), strs(ids@)),
{
    let mut k: usize = 0;
    while k < ids.len()
        invariant
            k <= ids@.len(),
            forall|j: int| 0 <= j < k ==> !strs(refs@).contains(#[trigger] strs(ids@)[j]),
        decreases ids@.len() - k,
    {
        assert(strs(ids@)[k as int] == ids@[k as int]@);
        if refs_contain(refs, ids[k].as_str()) {
            return true;
        }
        k += 1;
    }
    false
}

fn finding_shown_exec(f: &Finding, flt: &FindingFilter) -> (b: bool)
    ensures
        b == finding_shown(*f, *flt),
{
    let p_ok = match &flt.problem {
        Some(p) => str_eq(f.problem_id.as_str(), p.as_str()),
        None => true,
    };
    let s_ok = match flt.status {
        Some(st) => f.status == st,
        None => true,
    };
    let a_ok = match &flt.author {
        Some(pat) => match &f.author {
            Some(a) => {
                let bare = string_of(&strip_leading_exec(&chars_of(pat.as_str()), '@'));
                let lp = to_lowercase(bare.as_str());
                let la = to_lowercase(a.as_str());
                contains(&chars_of(la.as_str()), &chars_of(lp.as_str()))
            },
            None => false,
        },
        None => true,
    };
    let r_ok = match &flt.about {
        Some(ids) => bears_on_any_exec(&f.refs, ids),
        None => true,
    };
    p_ok && s_ok && a_ok && r_ok
}

/// The findings `finding list` shows, as positions in stored order.
pub fn list_findings(findings: &Vec<Finding>, flt: &FindingFilter) -> (r: Vec<usize>)
    ensures
        r@ == shown_findings(findings@, *flt, findings@.len() as int),
{
    let mut r: Vec<usize> = Vec::new();
    let mut k: usize = 0;
    while k < findings.len()
        invariant
            k <= findings@.len(),
            r@ == shown_findings(findings@, *flt, k as int),
        decreases findings@.len() - k,
    {
        if finding_shown_exec(&findings[k], flt) {
            r.push(k);
        }
        k += 1;
    }
    r
}

// ───────────────────────── editing and deleting ─────────────────────────

pub open spec fn nothing_to_change_msg() -> Seq<char> {
    "nothing to change — pass --title, --method or --body"@
}

/// An edit must change at least one of title, method and evidence.
pub fn check_edit(title: bool, method: bool, body: bool) -> (r: Result<(), JjjError>)
    ensures
        (title || method || body) ==> r is Ok,
        !(title || method || body) ==> (r matches Err(JjjError::Validation(m)) && m@ == nothing_to_change_msg()),
{
    if title || method || body {
        Ok(())
    } else {
        Err(JjjError::Validation(string_of(&chars_of("nothing to change — pass --title, --method or --body"))))
    }
}

/// Deleting a finding needs `--force`; without it nothing is deleted.
pub fn check_delete(force: bool) -> (r: Result<(), JjjError>)
    ensures
        force ==> r is Ok,
        !force ==> (r matches Err(JjjError::Validation(m)) && m@ == "delete not confirmed"@),
{
    if force {
        Ok(())
    } else {
        Err(JjjError::Validation(string_of(&chars_of("delete not confirmed"))))
    }
}

} // verus!
