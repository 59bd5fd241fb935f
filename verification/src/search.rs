//! Full-text search helpers: query sanitising for FTS5, snippet selection,
//! and decoding stored event types.

use vstd::prelude::*;
use crate::models::{event_type_label, EventType};
use crate::text::{
    append_chars, chars_of, contains, copy_range, has_sub, replace_all, replace_chars,
    split_words, str_eq, string_of, to_lowercase, unicode_lowercase, views, words,
};

verus! {

/// A search result from the full-text index.
#[derive(Debug, PartialEq)]
pub struct SearchResult {
    /// Entity type: "problem", "solution", "critique", or "milestone".
    pub entity_type: String,
    pub entity_id: String,
    pub title: String,
    /// Snippet with match context.
    pub snippet: String,
}

// ───────────────────────── query sanitising ─────────────────────────

/// A word as an FTS5 phrase token: double quotes doubled, then wrapped in
/// double quotes, so FTS5 reads it literally.
pub open spec fn quote_word(w: Seq<char>) -> Seq<char> {
    seq!['"'] + replace_all(w, seq!['"'], seq!['"', '"']) + seq!['"']
}

/// Words joined by single spaces.
pub open spec fn join_spaced(ws: Seq<Seq<char>>) -> Seq<char>
    decreases ws.len(),
{
    if ws.len() == 0 {
        Seq::empty()
    } else if ws.len() == 1 {
        ws[0]
    } else {
        join_spaced(ws.drop_last()) + seq![' '] + ws.last()
    }
}

/// The sanitised query: each whitespace-separated word quoted, joined by
/// spaces (FTS5 ANDs adjacent tokens); an empty query becomes `""`.
pub open spec fn sanitized_query(q: Seq<char>) -> Seq<char> {
    let ws = words(q);
    if ws.len() == 0 {
        seq!['"', '"']
    } else {
        join_spaced(ws.map_values(|w: Seq<char>| quote_word(w)))
    }
}

/// Make user input safe for an FTS5 MATCH: operators such as `AND`, `-x`
/// or `^x` inside it are read as literal words.
pub fn sanitize_fts_query(query: &str) -> (r: String)
    ensures
        r@ == sanitized_query(query@),
{
    let q = chars_of(query);
    let ws = split_words(&q);
    let ghost qs = words(query@).map_values(|w: Seq<char>| quote_word(w));
    if ws.len() == 0 {
        let mut e: Vec<char> = Vec::new();
        e.push('"');
        e.push('"');
        assert(e@ =~= seq!['"', '"']);
        return string_of(&e);
    }
    let dq = vec!['"'];
    let dq2 = vec!['"', '"'];
    let mut out: Vec<char> = Vec::new();
    let mut i: usize = 0;
    while i < ws.len()
        invariant
            i <= ws.len(),
            views(ws@) == words(query@),
            qs == words(query@).map_values(|w: Seq<char>| quote_word(w)),
            dq@ == seq!['"'],
            dq2@ == seq!['"', '"'],
            out@ == join_spaced(qs.take(i as int)),
        decreases ws.len() - i,
    {
        let ghost before = out@;
        assert(views(ws@)[i as int] == ws@[i as int]@);
        if i > 0 {
            out.push(' ');
        }
        out.push('"');
        let esc = replace_chars(&ws[i], &dq, &dq2);
        append_chars(&mut out, &esc);
        out.push('"');
        proof {
            let t = qs.take(i + 1);
            assert(t.drop_last() =~= qs.take(i as int));
            assert(t.last() == quote_word(ws@[i as int]@));
            if i == 0 {
                assert(out@ =~= quote_word(ws@[i as int]@));
                assert(t.len() == 1);
            } else {
                assert(out@ =~= before + seq![' '] + quote_word(ws@[i as int]@));
            }
        }
        i += 1;
    }
    assert(qs.take(i as int) =~= qs);
    string_of(&out)
}

// ───────────────────────── snippets ─────────────────────────

/// Bytes taken by a character in UTF-8.
pub open spec fn char_width(c: char) -> nat {
    let u = c as u32;
    if u < 0x80 {
        1
    } else if u < 0x800 {
        2
    } else if u < 0x10000 {
        3
    } else {
        4
    }
}

/// Length of a text in UTF-8 bytes (`str::len`).
pub open spec fn utf8_len(s: Seq<char>) -> nat
    decreases s.len(),
{
    if s.len() == 0 {
        0
    } else {
        utf8_len(s.drop_last()) + char_width(s.last())
    }
}

/// The word a snippet is chosen by: the query's first word (or the whole
/// query when it has none), lower-cased.
pub open spec fn probe_word(q: Seq<char>) -> Seq<char> {
    let ws = words(q);
    unicode_lowercase(if ws.len() > 0 { ws[0] } else { q })
}

/// The field a snippet is cut from: the first of primary, secondary and
/// fallback whose lower-cased text contains the probe word; failing that the
/// first non-empty of primary and secondary; failing that the fallback.
pub open spec fn snippet_source(p: Seq<char>, s: Seq<char>, f: Seq<char>, q: Seq<char>) -> Seq<char> {
    let w = probe_word(q);
    if has_sub(unicode_lowercase(p), w) {
        p
    } else if has_sub(unicode_lowercase(s), w) {
        s
    } else if has_sub(unicode_lowercase(f), w) {
        f
    } else if p.len() > 0 {
        p
    } else if s.len() > 0 {
        s
    } else {
        f
    }
}

/// Whether `n` bytes into `t` falls between two characters.
pub open spec fn is_char_boundary(t: Seq<char>, n: nat) -> bool {
    exists|k: int| 0 <= k <= t.len() && utf8_len(#[trigger] t.take(k)) == n
}

/// The snippet is defined: a text longer than 200 bytes is cut at byte
/// 197, which must fall between two characters.
pub open spec fn snippet_defined(p: Seq<char>, s: Seq<char>, f: Seq<char>, q: Seq<char>) -> bool {
    let t = snippet_source(p, s, f, q);
    utf8_len(t) <= 200 || is_char_boundary(t, 197)
}

/// The characters of `t` making up its first `n` bytes.
pub open spec fn byte_prefix(t: Seq<char>, n: nat) -> Seq<char> {
    t.take(choose|k: int| 0 <= k <= t.len() && utf8_len(#[trigger] t.take(k)) == n)
}

/// The snippet: the source field, cut to 197 bytes plus `...` when it is
/// longer than 200 bytes.
pub open spec fn snippet_spec(p: Seq<char>, s: Seq<char>, f: Seq<char>, q: Seq<char>) -> Seq<char> {
    let t = snippet_source(p, s, f, q);
    if utf8_len(t) > 200 {
        byte_prefix(t, 197) + "..."@
    } else {
        t
    }
}

fn width(c: char) -> (w: usize)
    ensures
        w == char_width(c),
{
    let u = c as u32;
    if u < 0x80 {
        1
    } else if u < 0x800 {
        2
    } else if u < 0x10000 {
        3
    } else {
        4
    }
}

proof fn lemma_utf8_take_step(t: Seq<char>, k: int)
    requires
        0 <= k < t.len(),
    ensures
        utf8_len(t.take(k + 1)) == utf8_len(t.take(k)) + char_width(t[k]),
{
    assert(t.take(k + 1).drop_last() =~= t.take(k));
}

proof fn lemma_utf8_take_monotone(t: Seq<char>, a: int, b: int)
    requires
        0 <= a <= b <= t.len(),
    ensures
        utf8_len(t.take(a)) + (b - a) <= utf8_len(t.take(b)),
    decreases b - a,
{
    if a < b {
        lemma_utf8_take_monotone(t, a, b - 1);
        lemma_utf8_take_step(t, b - 1);
    }
}

/// Whether `t` is longer than `cap` UTF-8 bytes, and the number of
/// characters in its first `n` bytes (`None` when byte `n` splits a character
/// or lies past the end).
fn measure(t: &Vec<char>, n: usize, cap: usize) -> (r: (bool, Option<usize>))
    requires
        n <= cap,
        cap < usize::MAX / 8,
    ensures
        r.0 == (utf8_len(t@) > cap),
        match r.1 {
            Some(k) => k <= t@.len() && utf8_len(t@.take(k as int)) == n,
            None => !is_char_boundary(t@, n as nat),
        },
{
    let mut bytes: usize = 0;
    let mut cut: Option<usize> = if n == 0 {
        Some(0)
    } else {
        None
    };
    assert(t@.take(0) =~= Seq::<char>::empty());
    let mut i: usize = 0;
    while i < t.len()
        invariant
            i <= t.len(),
            n <= cap,
            cap < usize::MAX / 8,
            bytes as nat == utf8_len(t@.take(i as int)),
            bytes <= cap,
            match cut {
                Some(k) => k <= i && utf8_len(t@.take(k as int)) == n,
                None => forall|k: int| 0 <= k <= i ==> utf8_len(#[trigger] t@.take(k)) != n,
            },
        decreases t.len() - i,
    {
        proof {
            lemma_utf8_take_step(t@, i as int);
        }
        let w = width(t[i]);
        if bytes + w > cap {
            let ghost i0 = i;
            proof {
                if cut is None {
                    assert forall|k: int| 0 <= k <= t@.len() implies utf8_len(
                        #[trigger] t@.take(k),
                    ) != n by {
                        if k > i0 {
                            lemma_utf8_take_monotone(t@, i0 + 1, k);
                        }
                    }
                }
                lemma_utf8_take_monotone(t@, i0 + 1, t@.len() as int);
                assert(t@.take(t@.len() as int) =~= t@);
            }
            return (true, cut);
        }
        bytes = bytes + w;
        i += 1;
        if bytes == n && cut.is_none() {
            cut = Some(i);
        }
    }
    assert(t@.take(i as int) =~= t@);
    (false, cut)
}

/// The UTF-8 length of a text (`str::len`).
pub fn byte_len(t: &Vec<char>) -> (n: usize)
    requires
        utf8_len(t@) <= usize::MAX,
    ensures
        n == utf8_len(t@),
{
    let mut bytes: usize = 0;
    let mut i: usize = 0;
    assert(t@.take(0) =~= Seq::<char>::empty());
    while i < t.len()
        invariant
            i <= t.len(),
            utf8_len(t@) <= usize::MAX,
            bytes as nat == utf8_len(t@.take(i as int)),
        decreases t.len() - i,
    {
        proof {
            lemma_utf8_take_step(t@, i as int);
            lemma_utf8_take_monotone(t@, i + 1, t@.len() as int);
            assert(t@.take(t@.len() as int) =~= t@);
        }
        bytes = bytes + width(t[i]);
        i += 1;
    }
    assert(t@.take(i as int) =~= t@);
    bytes
}

/// The number of characters making up the first `n` bytes of `t`, when byte
/// `n` falls between two characters.
pub fn chars_in_bytes(t: &Vec<char>, n: usize) -> (r: Option<usize>)
    requires
        utf8_len(t@) <= usize::MAX,
    ensures
        match r {
            Some(k) => k <= t@.len() && utf8_len(t@.take(k as int)) == n,
            None => !is_char_boundary(t@, n as nat),
        },
{
    let mut bytes: usize = 0;
    let mut i: usize = 0;
    assert(t@.take(0) =~= Seq::<char>::empty());
    while i < t.len() && bytes < n
        invariant
            i <= t.len(),
            utf8_len(t@) <= usize::MAX,
            bytes as nat == utf8_len(t@.take(i as int)),
            forall|k: int| 0 <= k < i ==> utf8_len(#[trigger] t@.take(k)) < n,
        decreases t.len() - i,
    {
        proof {
            lemma_utf8_take_step(t@, i as int);
            lemma_utf8_take_monotone(t@, i + 1, t@.len() as int);
            assert(t@.take(t@.len() as int) =~= t@);
        }
        bytes = bytes + width(t[i]);
        i += 1;
    }
    if bytes == n {
        return Some(i);
    }
    proof {
        assert forall|k: int| 0 <= k <= t@.len() implies utf8_len(#[trigger] t@.take(k)) != n by {
            if k > i {
                lemma_utf8_take_monotone(t@, i as int, k);
            } else if k == i {
            } else {
            }
        }
    }
    None
}

fn lower_chars(v: &Vec<char>) -> (r: Vec<char>)
    ensures
        r@ == unicode_lowercase(v@),
{
    let s = string_of(v);
    let l = to_lowercase(s.as_str());
    chars_of(l.as_str())
}

fn choose_source(primary: &str, secondary: &str, fallback: &str, query: &str) -> (r: Vec<char>)
    ensures
        r@ == snippet_source(primary@, secondary@, fallback@, query@),
{
    let qv = chars_of(query);
    let ws = split_words(&qv);
    let first = if ws.len() > 0 {
        assert(views(ws@)[0] == ws@[0]@);
        copy_range(&ws[0], 0, ws[0].len())
    } else {
        copy_range(&qv, 0, qv.len())
    };
    assert(first@ =~= (if words(query@).len() > 0 {
        words(query@)[0]
    } else {
        query@
    }));
    let w = lower_chars(&first);
    let p = chars_of(primary);
    let s = chars_of(secondary);
    let f = chars_of(fallback);
    if contains(&lower_chars(&p), &w) {
        p
    } else if contains(&lower_chars(&s), &w) {
        s
    } else if contains(&lower_chars(&f), &w) {
        f
    } else if p.len() > 0 {
        p
    } else if s.len() > 0 {
        s
    } else {
        f
    }
}

/// A snippet of the field that best matches the query, at most 200 bytes.
pub fn create_snippet(primary: &str, secondary: &str, fallback: &str, query: &str) -> (r: String)
    requires
        snippet_defined(primary@, secondary@, fallback@, query@),
    ensures
        r@ == snippet_spec(primary@, secondary@, fallback@, query@),
{
    match try_create_snippet(primary, secondary, fallback, query) {
        Some(s) => s,
        None => String::new(),
    }
}

/// `create_snippet` where it is defined; `None` when the 197-byte cut would
/// split a character.
pub fn try_create_snippet(primary: &str, secondary: &str, fallback: &str, query: &str) -> (r:
    Option<String>)
    ensures
        r is Some <==> snippet_defined(primary@, secondary@, fallback@, query@),
        r matches Some(s) ==> s@ == snippet_spec(primary@, secondary@, fallback@, query@),
{
    let t = choose_source(primary, secondary, fallback, query);
    let (long, cut) = measure(&t, 197, 200);
    if long {
        match cut {
            Some(k) => {
                let mut out = copy_range(&t, 0, k);
                let dots = chars_of("...");
                append_chars(&mut out, &dots);
                proof {
                    let c = choose|j: int| 0 <= j <= t@.len() && utf8_len(#[trigger] t@.take(j)) == 197;
                    lemma_take_width_unique(t@, c, k as int);
                    assert(out@ =~= t@.take(k as int) + "..."@);
                }
                Some(string_of(&out))
            },
            None => None,
        }
    } else {
        Some(string_of(&t))
    }
}

pub proof fn lemma_take_width_unique(t: Seq<char>, a: int, b: int)
    requires
        0 <= a <= t.len(),
        0 <= b <= t.len(),
        utf8_len(t.take(a)) == utf8_len(t.take(b)),
    ensures
        a == b,
{
    if a < b {
        lemma_utf8_take_monotone(t, a, b);
    } else if b < a {
        lemma_utf8_take_monotone(t, b, a);
    }
}

// ───────────────────────── event types ─────────────────────────

/// Decode a stored event type. Current names decode to their type; the
/// older names `solution_reviewed`, `solution_accepted` and
/// `solution_refuted` decode to submitted, approved and withdrawn; anything
/// else is read as `problem_created`.
pub open spec fn parse_event_type_spec(s: Seq<char>) -> EventType {
    if s == "problem_created"@ {
        EventType::ProblemCreated
    } else if s == "problem_solved"@ {
        EventType::ProblemSolved
    } else if s == "problem_dissolved"@ {
        EventType::ProblemDissolved
    } else if s == "problem_reopened"@ {
        EventType::ProblemReopened
    } else if s == "solution_created"@ {
        EventType::SolutionCreated
    } else if s == "solution_submitted"@ || s == "solution_reviewed"@ {
        EventType::SolutionSubmitted
    } else if s == "solution_approved"@ || s == "solution_accepted"@ {
        EventType::SolutionApproved
    } else if s == "solution_withdrawn"@ || s == "solution_refuted"@ {
        EventType::SolutionWithdrawn
    } else if s == "critique_raised"@ {
        EventType::CritiqueRaised
    } else if s == "critique_addressed"@ {
        EventType::CritiqueAddressed
    } else if s == "critique_dismissed"@ {
        EventType::CritiqueDismissed
    } else if s == "critique_validated"@ {
        EventType::CritiqueValidated
    } else if s == "critique_replied"@ {
        EventType::CritiqueReplied
    } else if s == "milestone_created"@ {
        EventType::MilestoneCreated
    } else if s == "milestone_completed"@ {
        EventType::MilestoneCompleted
    } else if s == "github_issue_created"@ {
        EventType::GithubIssueCreated
    } else if s == "github_issue_imported"@ {
        EventType::GithubIssueImported
    } else if s == "github_issue_closed"@ {
        EventType::GithubIssueClosed
    } else if s == "github_pr_created"@ {
        EventType::GithubPrCreated
    } else if s == "github_pr_merged"@ {
        EventType::GithubPrMerged
    } else if s == "github_review_imported"@ {
        EventType::GithubReviewImported
    } else if s == "conflict_resolved"@ {
        EventType::ConflictResolved
    } else {
        EventType::ProblemCreated
    }
}

/// Decode an event type as stored in the database.
pub fn parse_event_type(s: &str) -> (t: EventType)
    ensures
        t == parse_event_type_spec(s@),
{
    if str_eq(s, "problem_created") {
        EventType::ProblemCreated
    } else if str_eq(s, "problem_solved") {
        EventType::ProblemSolved
    } else if str_eq(s, "problem_dissolved") {
        EventType::ProblemDissolved
    } else if str_eq(s, "problem_reopened") {
        EventType::ProblemReopened
    } else if str_eq(s, "solution_created") {
        EventType::SolutionCreated
    } else if str_eq(s, "solution_submitted") || str_eq(s, "solution_reviewed") {
        EventType::SolutionSubmitted
    } else if str_eq(s, "solution_approved") || str_eq(s, "solution_accepted") {
        EventType::SolutionApproved
    } else if str_eq(s, "solution_withdrawn") || str_eq(s, "solution_refuted") {
        EventType::SolutionWithdrawn
    } else if str_eq(s, "critique_raised") {
        EventType::CritiqueRaised
    } else if str_eq(s, "critique_addressed") {
        EventType::CritiqueAddressed
    } else if str_eq(s, "critique_dismissed") {
        EventType::CritiqueDismissed
    } else if str_eq(s, "critique_validated") {
        EventType::CritiqueValidated
    } else if str_eq(s, "critique_replied") {
        EventType::CritiqueReplied
    } else if str_eq(s, "milestone_created") {
        EventType::MilestoneCreated
    } else if str_eq(s, "milestone_completed") {
        EventType::MilestoneCompleted
    } else if str_eq(s, "github_issue_created") {
        EventType::GithubIssueCreated
    } else if str_eq(s, "github_issue_imported") {
        EventType::GithubIssueImported
    } else if str_eq(s, "github_issue_closed") {
        EventType::GithubIssueClosed
    } else if str_eq(s, "github_pr_created") {
        EventType::GithubPrCreated
    } else if str_eq(s, "github_pr_merged") {
        EventType::GithubPrMerged
    } else if str_eq(s, "github_review_imported") {
        EventType::GithubReviewImported
    } else if str_eq(s, "conflict_resolved") {
        EventType::ConflictResolved
    } else {
        EventType::ProblemCreated
    }
}

/// Storing an event type and reading it back gives the same type.
pub proof fn law_event_type_roundtrip(t: EventType)
    ensures
        parse_event_type_spec(event_type_label(t)) == t,
{
    reveal_strlit("problem_created");
    assert("problem_created"@.len() == 15 && "problem_created"@[0] == 'p' && "problem_created"@[10] == 'e');
    reveal_strlit("problem_solved");
    assert("problem_solved"@.len() == 14 && "problem_solved"@[0] == 'p' && "problem_solved"@[10] == 'l');
    reveal_strlit("problem_dissolved");
    assert("problem_dissolved"@.len() == 17 && "problem_dissolved"@[0] == 'p' && "problem_dissolved"@[10] == 's');
    reveal_strlit("problem_reopened");
    assert("problem_reopened"@.len() == 16 && "problem_reopened"@[0] == 'p' && "problem_reopened"@[10] == 'o');
    reveal_strlit("solution_created");
    assert("solution_created"@.len() == 16 && "solution_created"@[0] == 's' && "solution_created"@[10] == 'r');
    reveal_strlit("solution_submitted");
    assert("solution_submitted"@.len() == 18 && "solution_submitted"@[0] == 's' && "solution_submitted"@[10] == 'u');
    reveal_strlit("solution_reviewed");
    assert("solution_reviewed"@.len() == 17 && "solution_reviewed"@[0] == 's' && "solution_reviewed"@[10] == 'e');
    reveal_strlit("solution_approved");
    assert("solution_approved"@.len() == 17 && "solution_approved"@[0] == 's' && "solution_approved"@[10] == 'p');
    reveal_strlit("solution_accepted");
    assert("solution_accepted"@.len() == 17 && "solution_accepted"@[0] == 's' && "solution_accepted"@[10] == 'c');
    reveal_strlit("solution_withdrawn");
    assert("solution_withdrawn"@.len() == 18 && "solution_withdrawn"@[0] == 's' && "solution_withdrawn"@[10] == 'i');
    reveal_strlit("solution_refuted");
    assert("solution_refuted"@.len() == 16 && "solution_refuted"@[0] == 's' && "solution_refuted"@[10] == 'e');
    reveal_strlit("critique_raised");
    assert("critique_raised"@.len() == 15 && "critique_raised"@[0] == 'c' && "critique_raised"@[10] == 'a');
    reveal_strlit("critique_addressed");
    assert("critique_addressed"@.len() == 18 && "critique_addressed"@[0] == 'c' && "critique_addressed"@[10] == 'd');
    reveal_strlit("critique_dismissed");
    assert("critique_dismissed"@.len() == 18 && "critique_dismissed"@[0] == 'c' && "critique_dismissed"@[10] == 'i');
    reveal_strlit("critique_validated");
    assert("critique_validated"@.len() == 18 && "critique_validated"@[0] == 'c' && "critique_validated"@[10] == 'a');
    reveal_strlit("critique_replied");
    assert("critique_replied"@.len() == 16 && "critique_replied"@[0] == 'c' && "critique_replied"@[10] == 'e');
    reveal_strlit("milestone_created");
    assert("milestone_created"@.len() == 17 && "milestone_created"@[0] == 'm' && "milestone_created"@[10] == 'c');
    reveal_strlit("milestone_completed");
    assert("milestone_completed"@.len() == 19 && "milestone_completed"@[0] == 'm' && "milestone_completed"@[10] == 'c');
    reveal_strlit("github_issue_created");
    assert("github_issue_created"@.len() == 20 && "github_issue_created"@[0] == 'g' && "github_issue_created"@[10] == 'u');
    reveal_strlit("github_issue_imported");
    assert("github_issue_imported"@.len() == 21 && "github_issue_imported"@[0] == 'g' && "github_issue_imported"@[10] == 'u');
    reveal_strlit("github_issue_closed");
    assert("github_issue_closed"@.len() == 19 && "github_issue_closed"@[0] == 'g' && "github_issue_closed"@[10] == 'u');
    reveal_strlit("github_pr_created");
    assert("github_pr_created"@.len() == 17 && "github_pr_created"@[0] == 'g' && "github_pr_created"@[10] == 'c');
    reveal_strlit("github_pr_merged");
    assert("github_pr_merged"@.len() == 16 && "github_pr_merged"@[0] == 'g' && "github_pr_merged"@[10] == 'm');
    reveal_strlit("github_review_imported");
    assert("github_review_imported"@.len() == 22 && "github_review_imported"@[0] == 'g' && "github_review_imported"@[10] == 'i');
    reveal_strlit("conflict_resolved");
    assert("conflict_resolved"@.len() == 17 && "conflict_resolved"@[0] == 'c' && "conflict_resolved"@[10] == 'e');
}

/// Whether a search restricted to `filter` covers entity type `t`.
pub fn should_search(filter: Option<&str>, t: &str) -> (b: bool)
    ensures
        b == (match filter {
            None => true,
            Some(f) => f@ == t@,
        }),
{
    match filter {
        None => true,
        Some(f) => str_eq(f, t),
    }
}

} // verus!
