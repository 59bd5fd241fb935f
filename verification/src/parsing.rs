//! Reading the small values commands take on the command line: priorities,
//! severities, statuses, critic specs, issue numbers and dates.

use vstd::prelude::*;
use crate::claim::actor_matches;
use crate::display::short_id;
use crate::formats::{date_midnight, date_midnight_of};
use crate::models::{Priority, ProblemStatus, Severity};
use crate::rank::is_validation;
use crate::store::JjjError;
use crate::text::{
    after_last, after_last_exec, append_chars, chars_of, copy_range, parse_u64, parse_u64_spec,
    str_eq, string_of, to_lowercase, trim, trim_chars, unicode_lowercase,
};

verus! {

fn message(before: &str, subject: &str, after: &str) -> (r: String)
    ensures
        r@ == before@ + subject@ + after@,
{
    let mut m = chars_of(before);
    let s = chars_of(subject);
    append_chars(&mut m, &s);
    let a = chars_of(after);
    append_chars(&mut m, &a);
    string_of(&m)
}

// ───────────────────────── priorities and severities ─────────────────────────

pub open spec fn priority_named(l: Seq<char>) -> Option<Priority> {
    if l == "low"@ {
        Some(Priority::Low)
    } else if l == "medium"@ {
        Some(Priority::Medium)
    } else if l == "high"@ {
        Some(Priority::High)
    } else if l == "critical"@ {
        Some(Priority::Critical)
    } else {
        None
    }
}

pub open spec fn invalid_priority_msg(s: Seq<char>) -> Seq<char> {
    "Invalid priority: "@ + s + ". Use low, medium, high, or critical"@
}

/// A priority by name, in any case.
pub fn parse_priority(s: &str) -> (r: Result<Priority, JjjError>)
    ensures
        match priority_named(unicode_lowercase(s@)) {
            Some(p) => r == Ok::<Priority, JjjError>(p),
            None => r matches Err(e) && is_validation(e, invalid_priority_msg(s@)),
        },
{
    let l = to_lowercase(s);
    let t = l.as_str();
    if str_eq(t, "low") {
        Ok(Priority::Low)
    } else if str_eq(t, "medium") {
        Ok(Priority::Medium)
    } else if str_eq(t, "high") {
        Ok(Priority::High)
    } else if str_eq(t, "critical") {
        Ok(Priority::Critical)
    } else {
        Err(JjjError::Validation(message("Invalid priority: ", s, ". Use low, medium, high, or critical")))
    }
}

pub open spec fn severity_named(l: Seq<char>) -> Option<Severity> {
    if l == "low"@ {
        Some(Severity::Low)
    } else if l == "medium"@ {
        Some(Severity::Medium)
    } else if l == "high"@ {
        Some(Severity::High)
    } else if l == "critical"@ {
        Some(Severity::Critical)
    } else {
        None
    }
}

pub open spec fn invalid_severity_msg(s: Seq<char>) -> Seq<char> {
    "Invalid severity: "@ + s + ". Use low, medium, high, or critical"@
}

fn severity_of(l: &str) -> (r: Option<Severity>)
    ensures
        r == severity_named(l@),
{
    if str_eq(l, "low") {
        Some(Severity::Low)
    } else if str_eq(l, "medium") {
        Some(Severity::Medium)
    } else if str_eq(l, "high") {
        Some(Severity::High)
    } else if str_eq(l, "critical") {
        Some(Severity::Critical)
    } else {
        None
    }
}

/// A severity by name, in any case.
pub fn parse_severity(s: &str) -> (r: Result<Severity, JjjError>)
    ensures
        match severity_named(unicode_lowercase(s@)) {
            Some(v) => r == Ok::<Severity, JjjError>(v),
            None => r matches Err(e) && is_validation(e, invalid_severity_msg(s@)),
        },
{
    let l = to_lowercase(s);
    match severity_of(l.as_str()) {
        Some(v) => Ok(v),
        None => Err(JjjError::Validation(message("Invalid severity: ", s, ". Use low, medium, high, or critical"))),
    }
}

// ───────────────────────── statuses ─────────────────────────

#[derive(Debug, Clone, Copy, PartialEq, Eq, Structural)]
pub enum BugStatus {
    New,
    Confirmed,
    InProgress,
    Fixed,
    Closed,
    WontFix,
    Duplicate,
}

pub open spec fn bug_status_named(l: Seq<char>) -> Option<BugStatus> {
    if l == "new"@ {
        Some(BugStatus::New)
    } else if l == "confirmed"@ {
        Some(BugStatus::Confirmed)
    } else if l == "inprogress"@ || l == "in-progress"@ || l == "in_progress"@ {
        Some(BugStatus::InProgress)
    } else if l == "fixed"@ {
        Some(BugStatus::Fixed)
    } else if l == "closed"@ {
        Some(BugStatus::Closed)
    } else if l == "wontfix"@ || l == "wont-fix"@ || l == "wont_fix"@ {
        Some(BugStatus::WontFix)
    } else if l == "duplicate"@ {
        Some(BugStatus::Duplicate)
    } else {
        None
    }
}

pub open spec fn invalid_bug_status_msg(s: Seq<char>) -> Seq<char> {
    "Invalid status: "@ + s + ". Use new, confirmed, inprogress, fixed, closed, wontfix, or duplicate"@
}

/// A bug status by name, in any case (several spellings for the two-word ones).
pub fn parse_bug_status(s: &str) -> (r: Result<BugStatus, JjjError>)
    ensures
        match bug_status_named(unicode_lowercase(s@)) {
            Some(v) => r == Ok::<BugStatus, JjjError>(v),
            None => r matches Err(e) && is_validation(e, invalid_bug_status_msg(s@)),
        },
{
    let l = to_lowercase(s);
    let t = l.as_str();
    if str_eq(t, "new") {
        Ok(BugStatus::New)
    } else if str_eq(t, "confirmed") {
        Ok(BugStatus::Confirmed)
    } else if str_eq(t, "inprogress") || str_eq(t, "in-progress") || str_eq(t, "in_progress") {
        Ok(BugStatus::InProgress)
    } else if str_eq(t, "fixed") {
        Ok(BugStatus::Fixed)
    } else if str_eq(t, "closed") {
        Ok(BugStatus::Closed)
    } else if str_eq(t, "wontfix") || str_eq(t, "wont-fix") || str_eq(t, "wont_fix") {
        Ok(BugStatus::WontFix)
    } else if str_eq(t, "duplicate") {
        Ok(BugStatus::Duplicate)
    } else {
        Err(JjjError::Validation(message("Invalid status: ", s, ". Use new, confirmed, inprogress, fixed, closed, wontfix, or duplicate")))
    }
}

#[derive(Debug, Clone, Copy, PartialEq, Eq, Structural)]
pub enum FeatureStatus {
    Backlog,
    InProgress,
    Review,
    Done,
    Blocked,
}

pub open spec fn feature_status_named(l: Seq<char>) -> Option<FeatureStatus> {
    if l == "backlog"@ {
        Some(FeatureStatus::Backlog)
    } else if l == "inprogress"@ || l == "in-progress"@ || l == "in_progress"@ {
        Some(FeatureStatus::InProgress)
    } else if l == "review"@ {
        Some(FeatureStatus::Review)
    } else if l == "done"@ {
        Some(FeatureStatus::Done)
    } else if l == "blocked"@ {
        Some(FeatureStatus::Blocked)
    } else {
        None
    }
}

pub open spec fn invalid_feature_status_msg(s: Seq<char>) -> Seq<char> {
    "Invalid status: "@ + s + ". Use backlog, inprogress, review, done, or blocked"@
}

/// A feature status by name, in any case.
pub fn parse_feature_status(s: &str) -> (r: Result<FeatureStatus, JjjError>)
    ensures
        match feature_status_named(unicode_lowercase(s@)) {
            Some(v) => r == Ok::<FeatureStatus, JjjError>(v),
            None => r matches Err(e) && is_validation(e, invalid_feature_status_msg(s@)),
        },
{
    let l = to_lowercase(s);
    let t = l.as_str();
    if str_eq(t, "backlog") {
        Ok(FeatureStatus::Backlog)
    } else if str_eq(t, "inprogress") || str_eq(t, "in-progress") || str_eq(t, "in_progress") {
        Ok(FeatureStatus::InProgress)
    } else if str_eq(t, "review") {
        Ok(FeatureStatus::Review)
    } else if str_eq(t, "done") {
        Ok(FeatureStatus::Done)
    } else if str_eq(t, "blocked") {
        Ok(FeatureStatus::Blocked)
    } else {
        Err(JjjError::Validation(message("Invalid status: ", s, ". Use backlog, inprogress, review, done, or blocked")))
    }
}

pub open spec fn transitions_text(s: ProblemStatus) -> Seq<char> {
    match s {
        ProblemStatus::Open => "in_progress, solved, dissolved"@,
        ProblemStatus::InProgress => "open, solved, dissolved"@,
        ProblemStatus::Solved => "open"@,
        ProblemStatus::Dissolved => "open"@,
    }
}

/// The statuses a problem may move to, for error messages.
pub fn valid_transitions_for_problem(status: &ProblemStatus) -> (r: &'static str)
    ensures
        r@ == transitions_text(*status),
{
    match status {
        ProblemStatus::Open => "in_progress, solved, dissolved",
        ProblemStatus::InProgress => "open, solved, dissolved",
        ProblemStatus::Solved => "open",
        ProblemStatus::Dissolved => "open",
    }
}

// ───────────────────────── critics, issues, files ─────────────────────────

/// `s` without its leading `c`s (`str::trim_start_matches`).
pub open spec fn strip_leading(s: Seq<char>, c: char) -> Seq<char>
    decreases s.len(),
{
    if s.len() > 0 && s[0] == c {
        strip_leading(s.drop_first(), c)
    } else {
        s
    }
}

proof fn lemma_strip_leading(s: Seq<char>, c: char, k: int)
    requires
        0 <= k <= s.len(),
        forall|j: int| 0 <= j < k ==> s[j] == c,
        k == s.len() || s[k] != c,
    ensures
        strip_leading(s, c) == s.skip(k),
    decreases k,
{
    if k == 0 {
        assert(s.skip(0) =~= s);
    } else {
        let t = s.drop_first();
        assert forall|j: int| 0 <= j < k - 1 implies t[j] == c by {
            assert(t[j] == s[j + 1]);
        }
        if k - 1 < t.len() {
            assert(t[k - 1] == s[k]);
        }
        lemma_strip_leading(t, c, k - 1);
        assert(t.skip(k - 1) =~= s.skip(k));
    }
}

pub fn strip_leading_exec(v: &Vec<char>, c: char) -> (r: Vec<char>)
    ensures
        r@ == strip_leading(v@, c),
{
    let mut k: usize = 0;
    while k < v.len() && v[k] == c
        invariant
            k <= v.len(),
            forall|j: int| 0 <= j < k ==> v@[j] == c,
        decreases v.len() - k,
    {
        k += 1;
    }
    proof {
        lemma_strip_leading(v@, c, k as int);
    }
    let r = copy_range(v, k, v.len());
    assert(r@ =~= v@.skip(k as int));
    r
}

/// Index of the first `c` in `s` (its length when there is none).
pub open spec fn first_of(s: Seq<char>, c: char, i: int) -> int
    decreases s.len() - i,
{
    if 0 <= i < s.len() && s[i] != c {
        first_of(s, c, i + 1)
    } else {
        i
    }
}

proof fn lemma_first_of(s: Seq<char>, c: char, i: int)
    requires
        0 <= i <= s.len(),
    ensures
        i <= first_of(s, c, i) <= s.len(),
        first_of(s, c, i) < s.len() ==> s[first_of(s, c, i)] == c,
    decreases s.len() - i,
{
    if i < s.len() && s[i] != c {
        lemma_first_of(s, c, i + 1);
    }
}

/// A critic spec (`@bob` or `bob:high`) read as a name and the severity of
/// the review critique (low unless a known severity follows the colon).
pub open spec fn reviewer_spec(spec: Seq<char>) -> (Seq<char>, Severity) {
    let s = strip_leading(spec, '@');
    let k = first_of(s, ':', 0);
    if k < s.len() {
        (
            s.take(k),
            match severity_named(unicode_lowercase(s.skip(k + 1))) {
                Some(v) => v,
                None => Severity::Low,
            },
        )
    } else {
        (s, Severity::Low)
    }
}

pub fn parse_reviewer_spec(spec: &str) -> (r: (String, Severity))
    ensures
        (r.0@, r.1) == reviewer_spec(spec@),
{
    let v = chars_of(spec);
    let s = strip_leading_exec(&v, '@');
    let mut k: usize = 0;
    proof {
        lemma_first_of(s@, ':', 0);
    }
    while k < s.len() && s[k] != ':'
        invariant
            k <= s.len(),
            first_of(s@, ':', k as int) == first_of(s@, ':', 0),
        decreases s.len() - k,
    {
        k += 1;
    }
    if k < s.len() {
        let name = copy_range(&s, 0, k);
        let sev = copy_range(&s, k + 1, s.len());
        assert(name@ =~= s@.take(k as int));
        assert(sev@ =~= s@.skip(k + 1));
        let sevs = string_of(&sev);
        let l = to_lowercase(sevs.as_str());
        let level = match severity_of(l.as_str()) {
            Some(x) => x,
            None => Severity::Low,
        };
        (string_of(&name), level)
    } else {
        (string_of(&s), Severity::Low)
    }
}

pub open spec fn invalid_issue_msg(s: Seq<char>) -> Seq<char> {
    "Invalid issue number: '"@ + s + "'. Use a number like '#123' or '123'."@
}

/// An issue number typed as `#123` or `123` (surrounding spaces allowed).
pub fn parse_issue_number(input: &str) -> (r: Result<u64, JjjError>)
    ensures
        match parse_u64_spec(strip_leading(trim(input@), '#')) {
            Some(n) => r == Ok::<u64, JjjError>(n),
            None => r matches Err(e) && is_validation(e, invalid_issue_msg(input@)),
        },
{
    let v = chars_of(input);
    let t = trim_chars(&v);
    let s = strip_leading_exec(&t, '#');
    match parse_u64(&s) {
        Some(n) => Ok(n),
        None => Err(JjjError::Validation(message("Invalid issue number: '", input, "'. Use a number like '#123' or '123'."))),
    }
}

/// The extension of a path's last component (`Path::extension`): what
/// follows its last dot, when that dot is not the name's first character.
pub open spec fn extension_of(path: Seq<char>) -> Option<Seq<char>> {
    let name = path.skip(after_last(path, '/', path.len() as int));
    let k = after_last(name, '.', name.len() as int);
    if k <= 1 {
        None
    } else {
        Some(name.skip(k))
    }
}

/// Files the sync workspace owns: markdown files.
pub fn is_jjj_owned_file(path: &str) -> (b: bool)
    ensures
        b == (extension_of(path@) == Some("md"@)),
{
    let p = chars_of(path);
    let start = after_last_exec(&p, '/');
    let name = copy_range(&p, start, p.len());
    assert(name@ =~= p@.skip(start as int));
    let k = after_last_exec(&name, '.');
    if k <= 1 {
        return false;
    }
    let ext = copy_range(&name, k, name.len());
    assert(ext@ =~= name@.skip(k as int));
    let e = string_of(&ext);
    str_eq(e.as_str(), "md")
}

pub open spec fn reclaim_msg(id: Seq<char>, previous: Seq<char>) -> Seq<char> {
    "reclaimed "@ + crate::display::short_of(id) + " from "@ + previous
        + " — their claim had lapsed"@
}

/// The notice shown when a claim is taken over from someone else (none when
/// there was no previous holder or it was the actor).
pub fn reclaim_notice(entity_id: &str, previous: Option<&str>, actor: &str) -> (r: Option<String>)
    requires
        previous matches Some(p) && !actor_matches(p@, actor@) ==> crate::display::short_id_ok(entity_id@),
    ensures
        match previous {
            Some(p) => if actor_matches(p@, actor@) {
                r is None
            } else {
                r matches Some(m) && m@ == reclaim_msg(entity_id@, p@)
            },
            None => r is None,
        },
{
    match previous {
        Some(p) => {
            if str_eq(p, actor) {
                None
            } else {
                let short = short_id(entity_id);
                let mut m = chars_of("reclaimed ");
                let sv = chars_of(short.as_str());
                append_chars(&mut m, &sv);
                let f = chars_of(" from ");
                append_chars(&mut m, &f);
                let pv = chars_of(p);
                append_chars(&mut m, &pv);
                let t = chars_of(" — their claim had lapsed");
                append_chars(&mut m, &t);
                Some(string_of(&m))
            }
        },
        None => None,
    }
}

// ───────────────────────── dates ─────────────────────────

/// A date filter: `YYYY-MM-DD`, or `YYYY-MM` for the first of the month, at
/// midnight UTC (seconds since the epoch).
pub open spec fn date_filter_spec(s: Seq<char>) -> Option<i64> {
    match date_midnight_of(s) {
        Some(t) => Some(t),
        None => date_midnight_of(s + "-01"@),
    }
}

pub fn parse_date_filter(s: &str) -> (r: Option<i64>)
    ensures
        r == date_filter_spec(s@),
{
    match date_midnight(s) {
        Some(t) => Some(t),
        None => {
            let mut v = chars_of(s);
            let d = chars_of("-01");
            append_chars(&mut v, &d);
            let full = string_of(&v);
            date_midnight(full.as_str())
        },
    }
}

} // verus!
