//! Answering the critiques of a solution: replying to one (which solution
//! and critique a reply goes to, and the reply itself), and signing off on
//! a solution one was asked to look over.

use vstd::prelude::*;
use crate::models::{
    critique_blocks, solution_is_active, Critique, CritiqueStatus, Event, EventType, Reply,
    Solution,
};
use crate::status::{active_solution, asks_user, has_change, join_with, lemma_join_with_push};
use crate::store::{critique_idx, has_critique, has_solution, solution_idx, JjjError, MetadataStore};
use crate::text::{append_chars, chars_of, contains, str_eq, string_of, trim, trim_chars, parse_u64};
use crate::domain::{address_critique, critique_post};
use crate::models::CritiqueOp;
use crate::creation::parse_usize_spec;

verus! {

// ───────────────────────── which solution ─────────────────────────

/// Positions of the solutions still in play.
pub open spec fn active_positions(ss: Seq<Solution>) -> Seq<int> {
    Seq::new(ss.len(), |i: int| i).filter(|i: int| solution_is_active(ss[i].status))
}

pub open spec fn comment_hint(s: Solution) -> Seq<char> {
    "  jjj solution comment \""@ + s.title@ + "\""@
}

pub open spec fn no_active_msg() -> Seq<char> {
    "No active solution found. Specify a solution ID."@
}

pub open spec fn several_active_msg(ss: Seq<Solution>) -> Seq<char> {
    "Multiple active solutions. Specify one:\n"@ + join_with(
        active_positions(ss).map_values(|i: int| comment_hint(ss[i])),
        "\n"@,
    )
}

/// The solution a reply goes to when none is named: the first one attached
/// to the current change (surrounding whitespace ignored), else the only
/// solution still in play.
pub open spec fn comment_target_spec(ss: Seq<Solution>, change: Seq<char>) -> Result<int, Seq<char>> {
    if exists|j: int| 0 <= j < ss.len() && has_change(ss[j], trim(change)) {
        Ok(choose|j: int| 0 <= j < ss.len() && has_change(ss[j], trim(change)) && forall|m: int|
            0 <= m < j ==> !has_change(ss[m], trim(change)))
    } else {
        let act = active_positions(ss);
        if act.len() == 0 {
            Err(no_active_msg())
        } else if act.len() == 1 {
            Ok(act[0])
        } else {
            Err(several_active_msg(ss))
        }
    }
}

proof fn lemma_first_change_unique(ss: Seq<Solution>, c: Seq<char>, k: int)
    requires
        0 <= k < ss.len(),
        has_change(ss[k], c),
        forall|m: int| 0 <= m < k ==> !has_change(ss[m], c),
    ensures
        (choose|j: int| 0 <= j < ss.len() && has_change(ss[j], c) && forall|m: int|
            0 <= m < j ==> !has_change(ss[m], c)) == k,
{
    let j = choose|j: int| 0 <= j < ss.len() && has_change(ss[j], c) && forall|m: int|
        0 <= m < j ==> !has_change(ss[m], c);
    assert(0 <= j < ss.len() && has_change(ss[j], c) && forall|m: int|
        0 <= m < j ==> !has_change(ss[m], c));
    if j < k {
        assert(!has_change(ss[j], c));
    }
    if k < j {
        assert(!has_change(ss[k], c));
    }
}

/// The solution a reply goes to when none is named (see
/// `comment_target_spec`).
pub fn comment_target(solutions: &Vec<Solution>, change: &str) -> (r: Result<usize, JjjError>)
    ensures
        match comment_target_spec(solutions@, change@) {
            Ok(k) => r == Ok::<usize, JjjError>(k as usize),
            Err(m) => r matches Err(JjjError::Validation(x)) && x@ == m,
        },
{
    let t = trim_chars(&chars_of(change));
    let ts = string_of(&t);
    if let Some(k) = active_solution(solutions, ts.as_str()) {
        proof {
            lemma_first_change_unique(solutions@, trim(change@), k as int);
        }
        return Ok(k);
    }
    let ghost ss = solutions@;
    let ghost pred = |i: int| solution_is_active(ss[i].status);
    let ghost hint = |i: int| comment_hint(ss[i]);
    let mut count: usize = 0;
    let mut first: usize = 0;
    let mut hints: Vec<char> = Vec::new();
    let mut i: usize = 0;
    while i < solutions.len()
        invariant
            i <= solutions.len(),
            ss == solutions@,
            pred == (|i: int| solution_is_active(ss[i].status)),
            hint == (|i: int| comment_hint(ss[i])),
            count == Seq::new(i as nat, |j: int| j).filter(pred).len(),
            count <= i,
            count > 0 ==> first < i && first as int == Seq::new(i as nat, |j: int| j).filter(pred)[0],
            hints@ == join_with(Seq::new(i as nat, |j: int| j).filter(pred).map_values(hint), "\n"@),
        decreases solutions.len() - i,
    {
        let ghost prev = Seq::new(i as nat, |j: int| j).filter(pred);
        proof {
            reveal(Seq::filter);
            assert(Seq::new((i + 1) as nat, |j: int| j).drop_last() =~= Seq::new(i as nat, |j: int| j));
        }
        let st = solutions[i].status;
        let live = st == crate::models::SolutionStatus::Proposed || st == crate::models::SolutionStatus::Submitted;
        assert(live == solution_is_active(st));
        if live {
            proof {
                assert(Seq::new((i + 1) as nat, |j: int| j).filter(pred) =~= prev.push(i as int));
                assert(prev.push(i as int).map_values(hint) =~= prev.map_values(hint).push(hint(i as int)));
                lemma_join_with_push(prev.map_values(hint), hint(i as int), "\n"@);
            }
            if count > 0 {
                let nl = chars_of("\n");
                append_chars(&mut hints, &nl);
            } else {
                first = i;
            }
            let h = comment_hint_exec(&solutions[i]);
            append_chars(&mut hints, &h);
            count += 1;
        } else {
            assert(Seq::new((i + 1) as nat, |j: int| j).filter(pred) =~= prev);
        }
        i += 1;
    }
    assert(Seq::new(i as nat, |j: int| j) =~= Seq::new(ss.len(), |i: int| i));
    assert(!(exists|j: int| 0 <= j < ss.len() && has_change(ss[j], trim(change@))));
    if count == 0 {
        Err(JjjError::Validation(string_of(&chars_of("No active solution found. Specify a solution ID."))))
    } else if count == 1 {
        Ok(first)
    } else {
        let mut m = chars_of("Multiple active solutions. Specify one:\n");
        append_chars(&mut m, &hints);
        Err(JjjError::Validation(string_of(&m)))
    }
}

fn comment_hint_exec(s: &Solution) -> (r: Vec<char>)
    ensures
        r@ == comment_hint(*s),
{
    let mut v = chars_of("  jjj solution comment \"");
    let t = chars_of(s.title.as_str());
    append_chars(&mut v, &t);
    let q = chars_of("\"");
    append_chars(&mut v, &q);
    v
}

// ───────────────────────── which critique ─────────────────────────

/// Positions of the critiques of `sid` still open to a reply (open or
/// validated).
pub open spec fn replyable(cs: Seq<Critique>, sid: Seq<char>) -> Seq<int> {
    Seq::new(cs.len(), |i: int| i).filter(
        |i: int| cs[i].solution_id@ == sid && critique_blocks(cs[i].status),
    )
}

pub open spec fn nothing_to_reply_msg() -> Seq<char> {
    "No open critiques on this solution to reply to."@
}

/// The critiques of solution `sid` a reply may go to; there must be one.
pub fn replyable_critiques(critiques: &Vec<Critique>, sid: &str) -> (r: Result<Vec<usize>, JjjError>)
    ensures
        match r {
            Ok(v) => v@.len() > 0 && v@.map_values(|k: usize| k as int) == replyable(critiques@, sid@),
            Err(e) => e matches JjjError::Validation(m) && m@ == nothing_to_reply_msg() && replyable(
                critiques@,
                sid@,
            ).len() == 0,
        },
{
    let ghost cs = critiques@;
    let ghost pred = |i: int| cs[i].solution_id@ == sid@ && critique_blocks(cs[i].status);
    let mut out: Vec<usize> = Vec::new();
    let mut i: usize = 0;
    while i < critiques.len()
        invariant
            i <= critiques.len(),
            cs == critiques@,
            pred == (|i: int| cs[i].solution_id@ == sid@ && critique_blocks(cs[i].status)),
            out@.map_values(|k: usize| k as int) == Seq::new(i as nat, |j: int| j).filter(pred),
        decreases critiques.len() - i,
    {
        let ghost prev = Seq::new(i as nat, |j: int| j).filter(pred);
        proof {
            reveal(Seq::filter);
            assert(Seq::new((i + 1) as nat, |j: int| j).drop_last() =~= Seq::new(i as nat, |j: int| j));
        }
        let st = critiques[i].status;
        let open = st == CritiqueStatus::Open || st == CritiqueStatus::Valid;
        if open && str_eq(critiques[i].solution_id.as_str(), sid) {
            out.push(i);
            assert(out@.map_values(|k: usize| k as int) =~= prev.push(i as int));
            assert(Seq::new((i + 1) as nat, |j: int| j).filter(pred) =~= prev.push(i as int));
        } else {
            assert(Seq::new((i + 1) as nat, |j: int| j).filter(pred) =~= prev);
        }
        i += 1;
    }
    assert(Seq::new(i as nat, |j: int| j) =~= Seq::new(cs.len(), |i: int| i));
    if out.len() == 0 {
        return Err(JjjError::Validation(string_of(&chars_of("No open critiques on this solution to reply to."))));
    }
    Ok(out)
}

pub open spec fn not_replyable_msg(input: Seq<char>) -> Seq<char> {
    "Critique '"@ + input + "' is not an open critique for this solution."@
}

/// A critique named on the command line (resolved to `id`, typed as
/// `input`) must be among the replyable ones (`open`, positions in
/// `critiques`); the result is its position.
pub fn named_reply_target(critiques: &Vec<Critique>, open: &Vec<usize>, id: &str, input: &str) -> (r: Result<
    usize,
    JjjError,
>)
    requires
        forall|j: int| 0 <= j < open@.len() ==> open@[j] < critiques@.len(),
    ensures
        match r {
            Ok(k) => exists|j: int| 0 <= j < open@.len() && open@[j] == k && critiques@[k as int].id@ == id@
                && forall|m: int| 0 <= m < j ==> critiques@[open@[m] as int].id@ != id@,
            Err(e) => e matches JjjError::Validation(m) && m@ == not_replyable_msg(input@) && forall|j: int|
                0 <= j < open@.len() ==> critiques@[open@[j] as int].id@ != id@,
        },
{
    let mut j: usize = 0;
    while j < open.len()
        invariant
            j <= open.len(),
            forall|q: int| 0 <= q < open@.len() ==> open@[q] < critiques@.len(),
            forall|m: int| 0 <= m < j ==> critiques@[open@[m] as int].id@ != id@,
        decreases open.len() - j,
    {
        let k = open[j];
        if str_eq(critiques[k].id.as_str(), id) {
            return Ok(k);
        }
        j += 1;
    }
    let mut m = chars_of("Critique '");
    let iv = chars_of(input);
    append_chars(&mut m, &iv);
    let tail = chars_of("' is not an open critique for this solution.");
    append_chars(&mut m, &tail);
    Err(JjjError::Validation(string_of(&m)))
}

pub open spec fn invalid_selection_msg() -> Seq<char> {
    "Invalid selection."@
}

/// A picker answer: a number from 1 to `n` (surrounding whitespace
/// ignored) picks that entry; anything else is refused.
pub fn parse_selection(line: &str, n: usize) -> (r: Result<usize, JjjError>)
    ensures
        match parse_usize_spec(trim(line@)) {
            Some(i) => if 1 <= i <= n {
                r == Ok::<usize, JjjError>((i - 1) as usize)
            } else {
                r matches Err(JjjError::Validation(m)) && m@ == invalid_selection_msg()
            },
            None => r matches Err(JjjError::Validation(m)) && m@ == invalid_selection_msg(),
        },
{
    let t = trim_chars(&chars_of(line));
    let parsed = parse_u64(&t);
    let idx: usize = match parsed {
        Some(v) => if v <= usize::MAX as u64 {
            v as usize
        } else {
            0
        },
        None => 0,
    };
    if idx > 0 && idx <= n {
        Ok(idx - 1)
    } else {
        Err(JjjError::Validation(string_of(&chars_of("Invalid selection."))))
    }
}

pub open spec fn empty_reply_msg() -> Seq<char> {
    "Reply cannot be empty."@
}

/// A reply typed at the prompt, with surrounding whitespace removed; it
/// must not be empty.
pub fn prompted_reply(line: &str) -> (r: Result<String, JjjError>)
    ensures
        trim(line@).len() > 0 ==> (r matches Ok(s) && s@ == trim(line@)),
        trim(line@).len() == 0 ==> (r matches Err(JjjError::Validation(m)) && m@ == empty_reply_msg()),
{
    let t = trim_chars(&chars_of(line));
    if t.len() == 0 {
        return Err(JjjError::Validation(string_of(&chars_of("Reply cannot be empty."))));
    }
    Ok(string_of(&t))
}

// ───────────────────────── the reply ─────────────────────────

/// What replying `body` to critique `cid` (of solution `sid`) does: by the
/// current user, the reply joins the critique's discussion and the log
/// records it, with the solution as the target.
pub open spec fn reply_post(
    s0: MetadataStore,
    cid: Seq<char>,
    sid: Seq<char>,
    body: Seq<char>,
    now: i64,
    r: Result<(), JjjError>,
    s1: MetadataStore,
) -> bool {
    if s0.user is None {
        r matches Err(JjjError::UnknownUser) && s1 == s0
    } else if !has_critique(s0.critiques@, cid) {
        r matches Err(JjjError::CritiqueNotFound(x)) && x@ == cid && s1 == s0
    } else {
        let ci = critique_idx(s0.critiques@, cid);
        let c0 = s0.critiques@[ci];
        let c1 = s1.critiques@[ci];
        let user = crate::models::opt_view(s0.user)->0;
        let e = s1.events@.last();
        &&& r is Ok
        &&& s1.critiques@.len() == s0.critiques@.len()
        &&& forall|j: int| 0 <= j < s0.critiques@.len() && j != ci ==> s1.critiques@[j] == s0.critiques@[j]
        &&& c1.id == c0.id && c1.title == c0.title && c1.solution_id == c0.solution_id
        &&& c1.status == c0.status && c1.severity == c0.severity && c1.reviewer == c0.reviewer
        &&& c1.github_review_id == c0.github_review_id
        &&& c1.replies@.len() == c0.replies@.len() + 1
        &&& forall|j: int| 0 <= j < c0.replies@.len() ==> c1.replies@[j] == c0.replies@[j]
        &&& c1.replies@.last().author@ == user && c1.replies@.last().body@ == body
        &&& c1.replies@.last().when == now
        &&& s1.problems == s0.problems && s1.solutions == s0.solutions && s1.milestones == s0.milestones
        &&& s1.user == s0.user && s1.automation == s0.automation && s1.local_automation == s0.local_automation
        &&& s1.settings == s0.settings
        &&& crate::domain::log_grew(s0, s1, 1)
        &&& e.event_type == EventType::CritiqueReplied && e.entity@ == cid && e.by@ == user && e.when == now
        &&& e.rationale is None && e.refs@.len() == 0
        &&& crate::models::opt_view(e.extra.target) == Some(sid)
        &&& e.extra.problem is None && e.extra.supersedes is None && e.extra.title is None
        &&& e.extra.github_number is None
    }
}

/// Add a reply to a critique's discussion and log it.
pub fn reply_to_critique(
    store: &mut MetadataStore,
    critique_id: &str,
    solution_id: &str,
    body: &str,
    now: i64,
) -> (r: Result<(), JjjError>)
    ensures
        reply_post(*old(store), critique_id@, solution_id@, body@, now, r, *final(store)),
{
    let user = match &store.user {
        Some(u) => string_of(&chars_of(u.as_str())),
        None => return Err(JjjError::UnknownUser),
    };
    let ci = match store.find_critique(critique_id) {
        Some(k) => k,
        None => return Err(JjjError::CritiqueNotFound(string_of(&chars_of(critique_id)))),
    };
    let ghost s0 = *store;
    let mut c = store.critiques.remove(ci);
    c.replies.push(Reply { author: string_of(&chars_of(user.as_str())), body: string_of(&chars_of(body)), when: now });
    store.critiques.insert(ci, c);
    let mut e = Event::new(EventType::CritiqueReplied, critique_id, user.as_str(), now);
    e.extra.target = Some(string_of(&chars_of(solution_id)));
    store.events.push(e);
    proof {
        assert forall|j: int| 0 <= j < s0.critiques@.len() && j != ci implies store.critiques@[j]
            == s0.critiques@[j] by {
            if j < ci {
            } else {
            }
        }
    }
    Ok(())
}

// ───────────────────────── signing off ─────────────────────────

/// The first critique of `sid` that asks `user` to look the solution over
/// (-1 when there is none).
pub open spec fn first_ask(cs: Seq<Critique>, sid: Seq<char>, user: Seq<char>, n: int) -> int
    decreases n,
{
    if n <= 0 || n > cs.len() {
        -1
    } else {
        let k = first_ask(cs, sid, user, n - 1);
        if k >= 0 {
            k
        } else if cs[n - 1].solution_id@ == sid && asks_user(cs[n - 1], user) {
            n - 1
        } else {
            -1
        }
    }
}

/// Some critique of `sid` asks someone (anyone) to look it over.
pub open spec fn anyone_asked(cs: Seq<Critique>, sid: Seq<char>) -> bool {
    exists|j: int| 0 <= j < cs.len() && cs[j].solution_id@ == sid && cs[j].status == CritiqueStatus::Open
        && cs[j].reviewer is Some
}

pub open spec fn asked_others_msg(title: Seq<char>, input: Seq<char>, user: Seq<char>) -> Seq<char> {
    "No open review critique assigned to you on '"@ + title
        + "'.\n(There are review critiques assigned to others — are you the right critic?)\n\nTo add yourself: jjj critique new \""@
        + input + "\" \"Review\" --critic @"@ + user
}

pub open spec fn not_asked_msg(title: Seq<char>, input: Seq<char>, user: Seq<char>) -> Seq<char> {
    "No review critique assigned to you on '"@ + title
        + "'.\n\nTo request review from yourself: jjj critique new \""@ + input
        + "\" \"Review\" --critic @"@ + user + "\nOr use solution new --critic @"@ + user
        + " when creating solutions."@
}

/// How many critiques of `sid` still block it.
pub open spec fn still_blocking(cs: Seq<Critique>, sid: Seq<char>) -> nat {
    cs.filter(|c: Critique| c.solution_id@ == sid && critique_blocks(c.status)).len()
}

/// What signing off on solution `sid` (typed as `input`) does: the first
/// critique asking the current user to look it over is addressed; the
/// result is how many critiques still block the solution.
pub open spec fn sign_off_post(
    s0: MetadataStore,
    sid: Seq<char>,
    input: Seq<char>,
    now: i64,
    r: Result<usize, JjjError>,
    s1: MetadataStore,
) -> bool {
    if s0.user is None {
        r matches Err(JjjError::UnknownUser) && s1 == s0
    } else if !has_solution(s0.solutions@, sid) {
        r matches Err(JjjError::SolutionNotFound(x)) && x@ == sid && s1 == s0
    } else {
        let user = crate::models::opt_view(s0.user)->0;
        let title = s0.solutions@[solution_idx(s0.solutions@, sid)].title@;
        let cs = s0.critiques@;
        let k = first_ask(cs, sid, user, cs.len() as int);
        if k < 0 {
            &&& s1 == s0
            &&& r matches Err(JjjError::Validation(m))
            &&& m@ == (if anyone_asked(cs, sid) {
                asked_others_msg(title, input, user)
            } else {
                not_asked_msg(title, input, user)
            })
        } else {
            &&& critique_post(
                s0,
                cs[k].id@,
                CritiqueOp::Address,
                now,
                match r {
                    Ok(_) => Ok::<(), JjjError>(()),
                    Err(e) => Err(e),
                },
                s1,
            )
            &&& r matches Ok(n) ==> n == still_blocking(s1.critiques@, sid)
        }
    }
}

proof fn lemma_first_ask(cs: Seq<Critique>, sid: Seq<char>, user: Seq<char>, n: int)
    requires
        0 <= n <= cs.len(),
    ensures
        -1 <= first_ask(cs, sid, user, n) < n,
        first_ask(cs, sid, user, n) >= 0 ==> cs[first_ask(cs, sid, user, n)].solution_id@ == sid
            && asks_user(cs[first_ask(cs, sid, user, n)], user),
        first_ask(cs, sid, user, n) < 0 ==> forall|j: int|
            0 <= j < n ==> !(cs[j].solution_id@ == sid && asks_user(cs[j], user)),
    decreases n,
{
    if n > 0 {
        lemma_first_ask(cs, sid, user, n - 1);
    }
}

fn asks_exec(c: &Critique, uv: &Vec<char>) -> (b: bool)
    ensures
        b == asks_user(*c, uv@),
{
    if c.status != CritiqueStatus::Open {
        return false;
    }
    match &c.reviewer {
        Some(r) => {
            let rv = chars_of(r.as_str());
            contains(uv, &rv) || contains(&rv, uv)
        },
        None => false,
    }
}

fn count_blocking(cs: &Vec<Critique>, sid: &str) -> (n: usize)
    ensures
        n == still_blocking(cs@, sid@),
{
    let ghost pred = |c: Critique| c.solution_id@ == sid@ && critique_blocks(c.status);
    let mut n: usize = 0;
    let mut i: usize = 0;
    while i < cs.len()
        invariant
            i <= cs.len(),
            pred == (|c: Critique| c.solution_id@ == sid@ && critique_blocks(c.status)),
            n == cs@.take(i as int).filter(pred).len(),
            n <= i,
        decreases cs.len() - i,
    {
        proof {
            reveal(Seq::filter);
            assert(cs@.take(i + 1).drop_last() =~= cs@.take(i as int));
        }
        let st = cs[i].status;
        if (st == CritiqueStatus::Open || st == CritiqueStatus::Valid) && str_eq(cs[i].solution_id.as_str(), sid) {
            n += 1;
        }
        i += 1;
    }
    assert(cs@.take(i as int) =~= cs@);
    n
}

fn sign_off_message(asked_others: bool, title: &str, input: &str, user: &str) -> (r: String)
    ensures
        r@ == (if asked_others {
            asked_others_msg(title@, input@, user@)
        } else {
            not_asked_msg(title@, input@, user@)
        }),
{
    let t = chars_of(title);
    let i = chars_of(input);
    let u = chars_of(user);
    if asked_others {
        let mut m = chars_of("No open review critique assigned to you on '");
        append_chars(&mut m, &t);
        let a = chars_of(
            "'.\n(There are review critiques assigned to others — are you the right critic?)\n\nTo add yourself: jjj critique new \"",
        );
        append_chars(&mut m, &a);
        append_chars(&mut m, &i);
        let b = chars_of("\" \"Review\" --critic @");
        append_chars(&mut m, &b);
        append_chars(&mut m, &u);
        string_of(&m)
    } else {
        let mut m = chars_of("No review critique assigned to you on '");
        append_chars(&mut m, &t);
        let a = chars_of("'.\n\nTo request review from yourself: jjj critique new \"");
        append_chars(&mut m, &a);
        append_chars(&mut m, &i);
        let b = chars_of("\" \"Review\" --critic @");
        append_chars(&mut m, &b);
        append_chars(&mut m, &u);
        let c = chars_of("\nOr use solution new --critic @");
        append_chars(&mut m, &c);
        append_chars(&mut m, &u);
        let d = chars_of(" when creating solutions.");
        append_chars(&mut m, &d);
        string_of(&m)
    }
}

/// Sign off on solution `solution_id` (typed as `input`): address the first
/// critique that asks the current user to look it over, and report how many
/// critiques still block the solution.
pub fn sign_off(store: &mut MetadataStore, solution_id: &str, input: &str, now: i64) -> (r: Result<
    usize,
    JjjError,
>)
    ensures
        sign_off_post(*old(store), solution_id@, input@, now, r, *final(store)),
{
    let user = match &store.user {
        Some(u) => string_of(&chars_of(u.as_str())),
        None => return Err(JjjError::UnknownUser),
    };
    let si = match store.find_solution(solution_id) {
        Some(k) => k,
        None => return Err(JjjError::SolutionNotFound(string_of(&chars_of(solution_id)))),
    };
    let uv = chars_of(user.as_str());
    let ghost cs = store.critiques@;
    let mut k: usize = 0;
    let mut found = false;
    let mut any = false;
    while k < store.critiques.len()
        invariant_except_break
            !found,
        invariant
            k <= store.critiques.len(),
            cs == store.critiques@,
            uv@ == user@,
            first_ask(cs, solution_id@, user@, k as int) < 0,
            any == exists|j: int| 0 <= j < k && cs[j].solution_id@ == solution_id@
                && cs[j].status == CritiqueStatus::Open && cs[j].reviewer is Some,
        ensures
            found ==> k < cs.len() && first_ask(cs, solution_id@, user@, k + 1) == k,
            !found ==> k == cs.len() && first_ask(cs, solution_id@, user@, k as int) < 0 && any
                == anyone_asked(cs, solution_id@),
        decreases store.critiques.len() - k,
    {
        let c = &store.critiques[k];
        let mine = str_eq(c.solution_id.as_str(), solution_id);
        if mine && asks_exec(c, &uv) {
            found = true;
            break;
        }
        if mine && c.status == CritiqueStatus::Open && c.reviewer.is_some() {
            any = true;
        }
        k += 1;
    }
    proof {
        lemma_first_ask(cs, solution_id@, user@, cs.len() as int);
    }
    if !found {
        let title = string_of(&chars_of(store.solutions[si].title.as_str()));
        return Err(JjjError::Validation(sign_off_message(any, title.as_str(), input, user.as_str())));
    }
    proof {
        assert forall|n: int| k + 1 <= n <= cs.len() implies first_ask(cs, solution_id@, user@, n) == k by {
            lemma_first_ask_stays(cs, solution_id@, user@, k as int, n);
        }
    }
    let cid = string_of(&chars_of(store.critiques[k].id.as_str()));
    match address_critique(store, cid.as_str(), now) {
        Ok(()) => {
            let n = count_blocking(&store.critiques, solution_id);
            Ok(n)
        },
        Err(e) => Err(e),
    }
}

proof fn lemma_first_ask_stays(cs: Seq<Critique>, sid: Seq<char>, user: Seq<char>, k: int, n: int)
    requires
        0 <= k < n <= cs.len(),
        first_ask(cs, sid, user, k + 1) == k,
    ensures
        first_ask(cs, sid, user, n) == k,
    decreases n,
{
    if n > k + 1 {
        lemma_first_ask_stays(cs, sid, user, k, n - 1);
    }
}

} // verus!
