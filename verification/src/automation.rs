//! Config-driven automation: which rules fire for an event, the template
//! variables they see, and how a shell command is prepared so that entity
//! values never become part of the command text.

use vstd::prelude::*;
use crate::models::{event_type_label, Event, EventType, Problem, Solution, Critique, opt_view};
use crate::store::{
    has_critique, has_problem, has_solution, critique_idx, problem_idx, solution_idx,
    MetadataStore,
};
use crate::text::{pairs_view, copy_str, 
    append_chars, ascii_upper, chars_of, contains, decimal, has_sub, is_ascii_alnum,
    is_ascii_alphanumeric, push_decimal, replace_all, replace_chars, string_of, to_ascii_upper,
    chars_eq,
};

verus! {

/// What a rule does when it fires.
#[derive(Debug, Clone, Copy, PartialEq, Eq, Structural)]
pub enum AutomationAction {
    GithubIssue,
    GithubClose,
    GithubPr,
    GithubMerge,
    GithubSync,
    Shell,
}

/// One `[[automation]]` rule.
#[derive(Debug)]
pub struct AutomationRule {
    pub on: EventType,
    pub action: AutomationAction,
    /// The shell command template, for `Shell` rules.
    pub command: Option<String>,
    pub enabled: bool,
}

/// Result of executing a single automation rule.
#[derive(Debug, PartialEq)]
pub enum AutomationResult {
    /// Action succeeded.
    Success(String),
    /// Action failed (reported as a warning, never blocking).
    Failure(String),
    /// Action was skipped.
    Skipped(String),
}

/// A rule fires for event `t` when it is enabled and listens for `t`.
pub open spec fn fires_for(r: AutomationRule, t: EventType) -> bool {
    r.enabled && r.on == t
}

pub open spec fn deref_rules(v: Seq<&AutomationRule>) -> Seq<AutomationRule> {
    v.map_values(|r: &AutomationRule| *r)
}

/// The rules that fire for event type `event_type`, in their configured order.
pub fn matching_rules<'a>(rules: &'a Vec<AutomationRule>, event_type: &EventType) -> (out: Vec<
    &'a AutomationRule,
>)
    ensures
        out@.len() <= rules@.len(),
        deref_rules(out@) == rules@.filter(|r: AutomationRule| fires_for(r, *event_type)),
{
    let et = *event_type;
    let mut out: Vec<&'a AutomationRule> = Vec::new();
    let mut i: usize = 0;
    while i < rules.len()
        invariant
            i <= rules.len(),
            deref_rules(out@) == rules@.take(i as int).filter(|r: AutomationRule| fires_for(r, et)),
        decreases rules.len() - i,
    {
        proof {
            let f = |r: AutomationRule| fires_for(r, et);
            reveal(Seq::filter);
            assert(rules@.take(i + 1).drop_last() =~= rules@.take(i as int));
            assert(rules@.take(i + 1).last() == rules@[i as int]);
        }
        let r = &rules[i];
        if r.enabled && r.on == et {
            out.push(r);
        }
        assert(deref_rules(out@) =~= rules@.take(i + 1).filter(|r: AutomationRule| fires_for(r, et)));
        i += 1;
    }
    proof {
        assert(rules@.take(i as int) =~= rules@);
        rules@.lemma_filter_len(|r: AutomationRule| fires_for(r, et));
    }
    out
}

/// Whether any enabled rule exists for the event type (legacy hooks step
/// aside when one does).
pub fn has_explicit_rule(rules: &Vec<AutomationRule>, event_type: &EventType) -> (b: bool)
    ensures
        b == exists|i: int| 0 <= i < rules@.len() && fires_for(#[trigger] rules@[i], *event_type),
{
    let et = *event_type;
    let mut i: usize = 0;
    while i < rules.len()
        invariant
            i <= rules.len(),
            et == *event_type,
            forall|j: int| 0 <= j < i ==> !fires_for(#[trigger] rules@[j], et),
        decreases rules.len() - i,
    {
        if rules[i].enabled && rules[i].on == et {
            assert(fires_for(rules@[i as int], et));
            return true;
        }
        i += 1;
    }
    false
}

// ───────────────────────── template variables ─────────────────────────

pub open spec fn pair_view(p: (String, String)) -> (Seq<char>, Seq<char>) {
    (p.0@, p.1@)
}

pub open spec fn keys_of(v: Seq<(Seq<char>, Seq<char>)>) -> Seq<Seq<char>> {
    v.map_values(|p: (Seq<char>, Seq<char>)| p.0)
}

/// Template variables, in the order they were first set; no key twice.
#[derive(Debug)]
pub struct AutomationContext {
    vars: Vec<(String, String)>,
}

/// Setting `k` to `v`: an existing key keeps its place and takes the new
/// value; a new key is added at the end.
pub open spec fn set_var(vars: Seq<(Seq<char>, Seq<char>)>, k: Seq<char>, v: Seq<char>) -> Seq<
    (Seq<char>, Seq<char>),
> {
    if keys_of(vars).contains(k) {
        vars.update(keys_of(vars).index_of(k), (k, v))
    } else {
        vars.push((k, v))
    }
}

pub open spec fn keys_unique(vars: Seq<(Seq<char>, Seq<char>)>) -> bool {
    keys_of(vars).no_duplicates()
}

impl AutomationContext {
    /// The variables in the order they were set.
    pub closed spec fn vars(&self) -> Seq<(Seq<char>, Seq<char>)> {
        pairs_view(self.vars@)
    }

    pub closed spec fn wf(&self) -> bool {
        keys_unique(pairs_view(self.vars@))
    }

    /// A context holding only `event`.
    pub fn new(event_type: &str) -> (r: Self)
        ensures
            r.wf(),
            r.vars() == seq![("event"@, event_type@)],
    {
        let mut vars: Vec<(String, String)> = Vec::new();
        let k = chars_of("event");
        let v = chars_of(event_type);
        vars.push((string_of(&k), string_of(&v)));
        let r = AutomationContext { vars };
        assert(r.vars() =~= seq![("event"@, event_type@)]);
        proof {
            assert(keys_of(r.vars()) =~= seq!["event"@]);
        }
        r
    }

    /// Set `key` to `value`, replacing an earlier value of the same key.
    pub fn set(&mut self, key: &str, value: &str) -> (r: &mut Self)
        requires
            old(self).wf(),
        ensures
            r.wf(),
            r.vars() == set_var(old(self).vars(), key@, value@),
            *final(self) == *final(r),
    {
        let ghost before = self.vars();
        let kv = chars_of(key);
        let vv = chars_of(value);
        let mut i: usize = 0;
        while i < self.vars.len()
            invariant
                i <= self.vars.len(),
                self.vars() == before,
                before == old(self).vars(),
                kv@ == key@,
                vv@ == value@,
                keys_unique(before),
                forall|j: int| 0 <= j < i ==> (#[trigger] self.vars@[j]).0@ != key@,
            decreases self.vars.len() - i,
        {
            let kc = chars_of(self.vars[i].0.as_str());
            assert(before[i as int] == pair_view(self.vars@[i as int]));
            if chars_eq(&kc, &kv) {
                proof {
                    let ks = keys_of(before);
                    assert(ks[i as int] == before[i as int].0);
                    assert(kc@ == self.vars@[i as int].0@);
                    assert(ks[i as int] == key@);
                    assert(ks.contains(key@));
                    assert(ks.index_of(key@) == i) by {
                        let t = ks.index_of(key@);
                        assert(0 <= t < ks.len() && ks[t] == key@);
                        if t != i {
                            assert(ks.no_duplicates());
                        }
                    }
                }
                self.vars.set(i, (string_of(&kv), string_of(&vv)));
                proof {
                    assert(self.vars() =~= before.update(i as int, (key@, value@)));
                    assert(keys_of(self.vars()) =~= keys_of(before));
                    assert(keys_of(before).contains(key@));
                    assert(self.vars() == set_var(before, key@, value@));
                }
                return self;
            }
            i += 1;
        }
        self.vars.push((string_of(&kv), string_of(&vv)));
        proof {
            let ks = keys_of(before);
            assert(!ks.contains(key@)) by {
                if ks.contains(key@) {
                    let t = choose|t: int| 0 <= t < ks.len() && ks[t] == key@;
                    assert(ks[t] == self.vars@[t].0@);
                }
            }
            assert(self.vars() =~= before.push((key@, value@)));
            assert(keys_of(self.vars()) =~= ks.push(key@));
        }
        self
    }

    /// The variables as `(key, value)` pairs, in the order they were set.
    pub fn pairs(&self) -> (r: &Vec<(String, String)>)
        ensures
            pairs_view(r@) == self.vars(),
    {
        &self.vars
    }
}

// ───────────────────────── template expansion ─────────────────────────

/// The shell-safe variable name a template key travels under:
/// `JJJ_VAR_` then the key upper-cased, with anything not ASCII
/// alphanumeric turned into `_`.
pub open spec fn env_name(key: Seq<char>) -> Seq<char> {
    "JJJ_VAR_"@ + key.map_values(|c: char| if is_ascii_alnum(c) { ascii_upper(c) } else { '_' })
}

/// `{{key}}`.
pub open spec fn placeholder(key: Seq<char>) -> Seq<char> {
    "{{"@ + key + "}}"@
}

/// `"${NAME}"`: a double-quoted reference to environment variable `NAME`.
pub open spec fn quoted_ref(name: Seq<char>) -> Seq<char> {
    "\"${"@ + name + "}\""@
}

/// Expanding each variable in turn: where its placeholder occurs, every
/// occurrence becomes a quoted reference to its environment variable, and the
/// variable's name and raw value are added to the environment to export.
pub open spec fn expand_spec(t: Seq<char>, vars: Seq<(Seq<char>, Seq<char>)>) -> (
    Seq<char>,
    Seq<(Seq<char>, Seq<char>)>,
)
    decreases vars.len(),
{
    if vars.len() == 0 {
        (t, seq![])
    } else {
        let (res, env) = expand_spec(t, vars.drop_last());
        let k = vars.last().0;
        let v = vars.last().1;
        if has_sub(res, placeholder(k)) {
            (replace_all(res, placeholder(k), quoted_ref(env_name(k))), env.push((env_name(k), v)))
        } else {
            (res, env)
        }
    }
}

/// `JJJ_VAR_` + the key, made shell-safe.
pub fn env_var_name(key: &str) -> (r: String)
    ensures
        r@ == env_name(key@),
{
    let kv = chars_of(key);
    let mut out = chars_of("JJJ_VAR_");
    let ghost pre = out@;
    let mut i: usize = 0;
    while i < kv.len()
        invariant
            i <= kv.len(),
            out@ == pre + kv@.take(i as int).map_values(
                |c: char| if is_ascii_alnum(c) { ascii_upper(c) } else { '_' },
            ),
        decreases kv.len() - i,
    {
        let c = kv[i];
        if is_ascii_alphanumeric(c) {
            out.push(to_ascii_upper(c));
        } else {
            out.push('_');
        }
        assert(kv@.take(i + 1).map_values(
            |c: char| if is_ascii_alnum(c) { ascii_upper(c) } else { '_' },
        ) =~= kv@.take(i as int).map_values(
            |c: char| if is_ascii_alnum(c) { ascii_upper(c) } else { '_' },
        ).push(if is_ascii_alnum(c) { ascii_upper(c) } else { '_' }));
        i += 1;
    }
    assert(kv@.take(i as int) =~= kv@);
    string_of(&out)
}

fn placeholder_chars(key: &Vec<char>) -> (r: Vec<char>)
    ensures
        r@ == placeholder(key@),
        r@.len() >= 4,
{
    proof {
        reveal_strlit("{{");
        reveal_strlit("}}");
    }
    let mut p = chars_of("{{");
    append_chars(&mut p, key);
    let close = chars_of("}}");
    append_chars(&mut p, &close);
    p
}

fn quoted_ref_chars(name: &Vec<char>) -> (r: Vec<char>)
    ensures
        r@ == quoted_ref(name@),
{
    let mut p = chars_of("\"${");
    append_chars(&mut p, name);
    let close = chars_of("}\"");
    append_chars(&mut p, &close);
    p
}

/// Rewrite every `{{key}}` placeholder of `template` into a double-quoted
/// reference to an environment variable, returning the rewritten command and
/// the `(name, value)` pairs to export before running it. Values never enter
/// the command text; unknown placeholders stay as they are.
pub fn expand_template(template: &str, vars: &Vec<(String, String)>) -> (r: (
    String,
    Vec<(String, String)>,
))
    ensures
        (r.0@, pairs_view(r.1@)) == expand_spec(template@, pairs_view(vars@)),
{
    let mut result = chars_of(template);
    let mut env: Vec<(String, String)> = Vec::new();
    let mut i: usize = 0;
    assert(pairs_view(vars@).take(0) =~= Seq::<(Seq<char>, Seq<char>)>::empty());
    while i < vars.len()
        invariant
            i <= vars.len(),
            (result@, pairs_view(env@)) == expand_spec(template@, pairs_view(vars@).take(i as int)),
        decreases vars.len() - i,
    {
        let ghost pv = pairs_view(vars@);
        assert(pv.take(i + 1).drop_last() =~= pv.take(i as int));
        let key = chars_of(vars[i].0.as_str());
        let ph = placeholder_chars(&key);
        if contains(&result, &ph) {
            let name = env_var_name(vars[i].0.as_str());
            let nv = chars_of(name.as_str());
            let q = quoted_ref_chars(&nv);
            result = replace_chars(&result, &ph, &q);
            let ghost before = pairs_view(env@);
            env.push((name, vars[i].1.clone()));
            assert(pairs_view(env@) =~= before.push((env_name(key@), vars@[i as int].1@)));
        }
        i += 1;
    }
    assert(pairs_view(vars@).take(i as int) =~= pairs_view(vars@));
    (string_of(&result), env)
}

// ───────────────────────── laws ─────────────────────────

/// The expanded command depends on the template and the variable names only:
/// two variable sets with the same keys in the same order give the same
/// command text, whatever their values. Entity content therefore cannot
/// reach the shell as code.
pub proof fn law_command_independent_of_values(
    t: Seq<char>,
    a: Seq<(Seq<char>, Seq<char>)>,
    b: Seq<(Seq<char>, Seq<char>)>,
)
    requires
        keys_of(a) == keys_of(b),
    ensures
        expand_spec(t, a).0 == expand_spec(t, b).0,
        keys_of(expand_spec(t, a).1) == keys_of(expand_spec(t, b).1),
    decreases a.len(),
{
    assert(a.len() == keys_of(a).len());
    assert(b.len() == keys_of(b).len());
    if a.len() > 0 {
        assert(keys_of(a.drop_last()) =~= keys_of(a).drop_last());
        assert(keys_of(b.drop_last()) =~= keys_of(b).drop_last());
        assert(a.last().0 == keys_of(a)[a.len() - 1]);
        assert(b.last().0 == keys_of(b)[b.len() - 1]);
        law_command_independent_of_values(t, a.drop_last(), b.drop_last());
        let ea = expand_spec(t, a.drop_last()).1;
        let eb = expand_spec(t, b.drop_last()).1;
        let k = a.last().0;
        assert(keys_of(ea.push((env_name(k), a.last().1))) =~= keys_of(ea).push(env_name(k)));
        assert(keys_of(eb.push((env_name(k), b.last().1))) =~= keys_of(eb).push(env_name(k)));
    }
}

/// Every exported name is a shell-safe identifier: `JJJ_VAR_` followed by
/// upper-case ASCII letters, digits and underscores.
pub proof fn law_env_names_shell_safe(key: Seq<char>)
    ensures
        "JJJ_VAR_"@.is_prefix_of(env_name(key)),
        forall|i: int|
            8 <= i < env_name(key).len() ==> {
                let c = #[trigger] env_name(key)[i];
                ('A' <= c && c <= 'Z') || ('0' <= c && c <= '9') || c == '_'
            },
{
    reveal_strlit("JJJ_VAR_");
    let n = env_name(key);
    assert forall|i: int| 8 <= i < n.len() implies {
        let c = #[trigger] n[i];
        ('A' <= c && c <= 'Z') || ('0' <= c && c <= '9') || c == '_'
    } by {
        let c = key[i - 8];
        assert(n[i] == (if is_ascii_alnum(c) { ascii_upper(c) } else { '_' }));
        if 'a' <= c && c <= 'z' {
            assert(ascii_upper(c) == ((c as u32) - 32) as char);
        }
    }
}

/// A template without placeholders comes back unchanged, with nothing to
/// export.
pub proof fn law_no_placeholder_no_change(t: Seq<char>, vars: Seq<(Seq<char>, Seq<char>)>)
    requires
        forall|i: int| 0 <= i < vars.len() ==> !has_sub(t, placeholder(#[trigger] vars[i].0)),
    ensures
        expand_spec(t, vars) == (t, Seq::<(Seq<char>, Seq<char>)>::empty()),
    decreases vars.len(),
{
    if vars.len() > 0 {
        assert forall|i: int| 0 <= i < vars.drop_last().len() implies !has_sub(
            t,
            placeholder(#[trigger] vars.drop_last()[i].0),
        ) by {
            assert(vars.drop_last()[i] == vars[i]);
        }
        law_no_placeholder_no_change(t, vars.drop_last());
        assert(!has_sub(t, placeholder(vars[vars.len() - 1].0)));
    }
}

} // verus!

verus! {

// ───────────────────────── entity variables ─────────────────────────

/// Apply `updates` to `vars` in order, each as `set`.
pub open spec fn set_all(
    vars: Seq<(Seq<char>, Seq<char>)>,
    updates: Seq<(Seq<char>, Seq<char>)>,
) -> Seq<(Seq<char>, Seq<char>)>
    decreases updates.len(),
{
    if updates.len() == 0 {
        vars
    } else {
        set_var(set_all(vars, updates.drop_last()), updates.last().0, updates.last().1)
    }
}

pub open spec fn number_var(key: Seq<char>, n: Option<u64>) -> Seq<(Seq<char>, Seq<char>)> {
    match n {
        Some(k) => seq![(key, decimal(k as nat))],
        None => seq![],
    }
}

pub open spec fn problem_vars(p: Problem) -> Seq<(Seq<char>, Seq<char>)> {
    seq![("title"@, p.title@), ("type"@, "problem"@)] + number_var("issue_number"@, p.github_issue)
}

pub open spec fn solution_vars(s: Solution, ps: Seq<Problem>) -> Seq<(Seq<char>, Seq<char>)> {
    seq![("title"@, s.title@), ("type"@, "solution"@)] + number_var("pr_number"@, s.github_pr) + (
    if has_problem(ps, s.problem_id@) {
        let p = ps[problem_idx(ps, s.problem_id@)];
        seq![("problem.title"@, p.title@)] + number_var("issue_number"@, p.github_issue)
    } else {
        seq![]
    })
}

pub open spec fn critique_vars(c: Critique, ss: Seq<Solution>, ps: Seq<Problem>) -> Seq<
    (Seq<char>, Seq<char>),
> {
    seq![("title"@, c.title@), ("type"@, "critique"@)] + (if has_solution(ss, c.solution_id@) {
        let s = ss[solution_idx(ss, c.solution_id@)];
        seq![("solution.title"@, s.title@)] + number_var("pr_number"@, s.github_pr) + (
        if has_problem(ps, s.problem_id@) {
            seq![("problem.title"@, ps[problem_idx(ps, s.problem_id@)].title@)]
        } else {
            seq![]
        })
    } else {
        seq![]
    })
}

pub open spec fn is_problem_event(t: EventType) -> bool {
    t == EventType::ProblemCreated || t == EventType::ProblemSolved || t
        == EventType::ProblemDissolved || t == EventType::ProblemReopened
}

pub open spec fn is_solution_event(t: EventType) -> bool {
    t == EventType::SolutionCreated || t == EventType::SolutionSubmitted || t
        == EventType::SolutionApproved || t == EventType::SolutionWithdrawn
}

pub open spec fn is_critique_event(t: EventType) -> bool {
    t == EventType::CritiqueRaised || t == EventType::CritiqueAddressed || t
        == EventType::CritiqueDismissed || t == EventType::CritiqueValidated || t
        == EventType::CritiqueReplied
}

/// The variables an event's entity contributes, in the order they are set.
/// Milestone, GitHub and conflict events contribute none.
pub open spec fn entity_vars(s: MetadataStore, t: EventType, id: Seq<char>) -> Seq<
    (Seq<char>, Seq<char>),
> {
    if is_problem_event(t) && has_problem(s.problems@, id) {
        problem_vars(s.problems@[problem_idx(s.problems@, id)])
    } else if is_solution_event(t) && has_solution(s.solutions@, id) {
        solution_vars(s.solutions@[solution_idx(s.solutions@, id)], s.problems@)
    } else if is_critique_event(t) && has_critique(s.critiques@, id) {
        critique_vars(s.critiques@[critique_idx(s.critiques@, id)], s.solutions@, s.problems@)
    } else {
        seq![]
    }
}

fn set_number(ctx: &mut AutomationContext, key: &str, n: Option<u64>)
    requires
        old(ctx).wf(),
    ensures
        final(ctx).wf(),
        final(ctx).vars() == set_all(old(ctx).vars(), number_var(key@, n)),
{
    match n {
        Some(k) => {
            let ghost v0 = ctx.vars();
            let mut d: Vec<char> = Vec::new();
            push_decimal(&mut d, k);
            assert(d@ =~= decimal(k as nat));
            let ds = string_of(&d);
            ctx.set(key, ds.as_str());
            proof {
                lemma_set_all_two(v0, (key@, ds@), (key@, ds@));
                assert(number_var(key@, n) =~= seq![(key@, ds@)]);
            }
        },
        None => {},
    }
}

proof fn lemma_set_all_concat(
    v: Seq<(Seq<char>, Seq<char>)>,
    a: Seq<(Seq<char>, Seq<char>)>,
    b: Seq<(Seq<char>, Seq<char>)>,
)
    ensures
        set_all(v, a + b) == set_all(set_all(v, a), b),
    decreases b.len(),
{
    if b.len() == 0 {
        assert(a + b =~= a);
    } else {
        lemma_set_all_concat(v, a, b.drop_last());
        assert((a + b).drop_last() =~= a + b.drop_last());
        assert((a + b).last() == b.last());
    }
}

proof fn lemma_set_all_two(v: Seq<(Seq<char>, Seq<char>)>, p: (Seq<char>, Seq<char>), q: (Seq<char>, Seq<char>))
    ensures
        set_all(v, seq![p, q]) == set_var(set_var(v, p.0, p.1), q.0, q.1),
        set_all(v, seq![p]) == set_var(v, p.0, p.1),
{
    assert(seq![p, q].drop_last() =~= seq![p]);
    assert(seq![p].drop_last() =~= Seq::<(Seq<char>, Seq<char>)>::empty());
    assert(set_all(v, Seq::<(Seq<char>, Seq<char>)>::empty()) == v);
    assert(set_all(v, seq![p]) == set_var(
        set_all(v, Seq::<(Seq<char>, Seq<char>)>::empty()),
        p.0,
        p.1,
    ));
    assert(set_all(v, seq![p, q]) == set_var(set_all(v, seq![p]), q.0, q.1));
}

fn set_problem_vars(ctx: &mut AutomationContext, p: &Problem)
    requires
        old(ctx).wf(),
    ensures
        final(ctx).wf(),
        final(ctx).vars() == set_all(old(ctx).vars(), problem_vars(*p)),
{
    let ghost v0 = ctx.vars();
    ctx.set("title", p.title.as_str());
    ctx.set("type", "problem");
    let ghost v1 = ctx.vars();
    set_number(ctx, "issue_number", p.github_issue);
    proof {
        lemma_set_all_two(v0, ("title"@, p.title@), ("type"@, "problem"@));
        lemma_set_all_concat(
            v0,
            seq![("title"@, p.title@), ("type"@, "problem"@)],
            number_var("issue_number"@, p.github_issue),
        );
    }
}

/// Fill in the template variables of the entity an event is about: its title
/// and type, the related solution and problem titles, and GitHub numbers.
/// An entity that cannot be found contributes nothing.
pub fn populate_entity_vars(
    store: &MetadataStore,
    event_type: EventType,
    entity_id: &str,
    ctx: &mut AutomationContext,
)
    requires
        old(ctx).wf(),
    ensures
        final(ctx).wf(),
        final(ctx).vars() == set_all(old(ctx).vars(), entity_vars(*store, event_type, entity_id@)),
{
    let ghost v0 = ctx.vars();
    let ghost s = *store;
    let is_p = event_type == EventType::ProblemCreated || event_type == EventType::ProblemSolved
        || event_type == EventType::ProblemDissolved || event_type == EventType::ProblemReopened;
    let is_s = event_type == EventType::SolutionCreated || event_type
        == EventType::SolutionSubmitted || event_type == EventType::SolutionApproved || event_type
        == EventType::SolutionWithdrawn;
    let is_c = event_type == EventType::CritiqueRaised || event_type
        == EventType::CritiqueAddressed || event_type == EventType::CritiqueDismissed || event_type
        == EventType::CritiqueValidated || event_type == EventType::CritiqueReplied;
    if is_p {
        if let Some(pi) = store.find_problem(entity_id) {
            set_problem_vars(ctx, &store.problems[pi]);
        } else {
            assert(entity_vars(s, event_type, entity_id@) =~= Seq::<(Seq<char>, Seq<char>)>::empty());
        }
    } else if is_s {
        if let Some(si) = store.find_solution(entity_id) {
            let sol = &store.solutions[si];
            ctx.set("title", sol.title.as_str());
            ctx.set("type", "solution");
            proof {
                lemma_set_all_two(v0, ("title"@, sol.title@), ("type"@, "solution"@));
            }
            let ghost v1 = ctx.vars();
            set_number(ctx, "pr_number", sol.github_pr);
            let ghost v2 = ctx.vars();
            let ghost head = seq![("title"@, sol.title@), ("type"@, "solution"@)] + number_var(
                "pr_number"@,
                sol.github_pr,
            );
            proof {
                lemma_set_all_concat(
                    v0,
                    seq![("title"@, sol.title@), ("type"@, "solution"@)],
                    number_var("pr_number"@, sol.github_pr),
                );
            }
            if let Some(pi) = store.find_problem(sol.problem_id.as_str()) {
                let p = &store.problems[pi];
                ctx.set("problem.title", p.title.as_str());
                let ghost v3 = ctx.vars();
                set_number(ctx, "issue_number", p.github_issue);
                proof {
                    lemma_set_all_two(v2, ("problem.title"@, p.title@), ("problem.title"@, p.title@));
                    lemma_set_all_concat(
                        v2,
                        seq![("problem.title"@, p.title@)],
                        number_var("issue_number"@, p.github_issue),
                    );
                    lemma_set_all_concat(
                        v0,
                        head,
                        seq![("problem.title"@, p.title@)] + number_var(
                            "issue_number"@,
                            p.github_issue,
                        ),
                    );
                }
            } else {
                proof {
                    assert(head + Seq::<(Seq<char>, Seq<char>)>::empty() =~= head);
                }
            }
        } else {
            assert(entity_vars(s, event_type, entity_id@) =~= Seq::<(Seq<char>, Seq<char>)>::empty());
        }
    } else if is_c {
        if let Some(ci) = store.find_critique(entity_id) {
            let c = &store.critiques[ci];
            ctx.set("title", c.title.as_str());
            ctx.set("type", "critique");
            proof {
                lemma_set_all_two(v0, ("title"@, c.title@), ("type"@, "critique"@));
            }
            let ghost v1 = ctx.vars();
            let ghost head = seq![("title"@, c.title@), ("type"@, "critique"@)];
            if let Some(si) = store.find_solution(c.solution_id.as_str()) {
                let sol = &store.solutions[si];
                ctx.set("solution.title", sol.title.as_str());
                proof {
                    lemma_set_all_two(v1, ("solution.title"@, sol.title@), ("solution.title"@, sol.title@));
                }
                set_number(ctx, "pr_number", sol.github_pr);
                let ghost mid = seq![("solution.title"@, sol.title@)] + number_var(
                    "pr_number"@,
                    sol.github_pr,
                );
                proof {
                    lemma_set_all_concat(
                        v1,
                        seq![("solution.title"@, sol.title@)],
                        number_var("pr_number"@, sol.github_pr),
                    );
                }
                let ghost v2 = ctx.vars();
                if let Some(pi) = store.find_problem(sol.problem_id.as_str()) {
                    ctx.set("problem.title", store.problems[pi].title.as_str());
                    proof {
                        let tail = seq![("problem.title"@, s.problems@[pi as int].title@)];
                        lemma_set_all_two(v2, tail[0], tail[0]);
                        lemma_set_all_concat(v1, mid, tail);
                        lemma_set_all_concat(v0, head, mid + tail);
                    }
                } else {
                    proof {
                        assert(mid + Seq::<(Seq<char>, Seq<char>)>::empty() =~= mid);
                        lemma_set_all_concat(v0, head, mid);
                    }
                }
            } else {
                proof {
                    assert(head + Seq::<(Seq<char>, Seq<char>)>::empty() =~= head);
                }
            }
        } else {
            assert(entity_vars(s, event_type, entity_id@) =~= Seq::<(Seq<char>, Seq<char>)>::empty());
        }
    } else {
        assert(entity_vars(s, event_type, entity_id@) =~= Seq::<(Seq<char>, Seq<char>)>::empty());
    }
}

// ───────────────────────── dispatch ─────────────────────────

/// How one matching rule is carried out.
#[derive(Debug, PartialEq)]
pub enum RulePlan {
    /// Run `sh -c command` with these variables exported.
    Shell { command: String, env: Vec<(String, String)> },
    /// The rule cannot run; report this message.
    Failure(String),
    /// Hand the rule to its built-in handler.
    Builtin(AutomationAction),
}

/// Decide how a rule runs: a shell rule expands its command template with the
/// context's variables (or fails when it has no command); any other rule goes
/// to its built-in handler.
pub fn plan_rule(rule: &AutomationRule, ctx: &AutomationContext) -> (p: RulePlan)
    ensures
        rule.action != AutomationAction::Shell ==> (p matches RulePlan::Builtin(a) && a
            == rule.action),
        rule.action == AutomationAction::Shell && rule.command is None ==> (
        p matches RulePlan::Failure(m) && m@ == "Shell action requires a 'command' field"@),
        rule.action == AutomationAction::Shell && rule.command is Some ==> (
        p matches RulePlan::Shell { command, env } && (command@, pairs_view(env@)) == expand_spec(
            rule.command->0@,
            ctx.vars(),
        )),
{
    if rule.action != AutomationAction::Shell {
        return RulePlan::Builtin(rule.action);
    }
    match &rule.command {
        None => {
            let m = chars_of("Shell action requires a 'command' field");
            RulePlan::Failure(string_of(&m))
        },
        Some(cmd) => {
            let (command, env) = expand_template(cmd.as_str(), ctx.pairs());
            RulePlan::Shell { command, env }
        },
    }
}

/// What a built-in action needs done, once its entity is known.
#[derive(Debug, PartialEq)]
pub enum BuiltinPlan {
    /// Create a GitHub issue for the problem at this index.
    CreateIssue(usize),
    /// Close the GitHub issue of the problem at this index.
    CloseIssue(usize),
    /// Create or update the pull request of the solution at this index.
    CreateOrUpdatePr(usize),
    /// Merge the pull request of the solution at this index.
    MergePr(usize),
    /// The entity the action needs does not exist.
    Missing(crate::store::JjjError),
    /// Not available as an automation.
    Skipped(String),
    /// A shell rule reached the built-in path; it runs with an empty context.
    ShellWithEmptyContext,
}

/// Resolve a built-in action against the store: issue actions need the
/// problem, pull-request actions the solution.
pub fn plan_builtin(store: &MetadataStore, action: AutomationAction, entity_id: &str) -> (p:
    BuiltinPlan)
    ensures
        (action == AutomationAction::GithubIssue || action == AutomationAction::GithubClose) ==> (
        if has_problem(store.problems@, entity_id@) {
            let i = problem_idx(store.problems@, entity_id@);
            if action == AutomationAction::GithubIssue {
                p matches BuiltinPlan::CreateIssue(k) && k == i
            } else {
                p matches BuiltinPlan::CloseIssue(k) && k == i
            }
        } else {
            p matches BuiltinPlan::Missing(crate::store::JjjError::ProblemNotFound(x)) && x@
                == entity_id@
        }),
        (action == AutomationAction::GithubPr || action == AutomationAction::GithubMerge) ==> (
        if has_solution(store.solutions@, entity_id@) {
            let i = solution_idx(store.solutions@, entity_id@);
            if action == AutomationAction::GithubPr {
                p matches BuiltinPlan::CreateOrUpdatePr(k) && k == i
            } else {
                p matches BuiltinPlan::MergePr(k) && k == i
            }
        } else {
            p matches BuiltinPlan::Missing(crate::store::JjjError::SolutionNotFound(x)) && x@
                == entity_id@
        }),
        action == AutomationAction::GithubSync ==> (p matches BuiltinPlan::Skipped(m) && m@
            == "github_sync not yet implemented as automation"@),
        action == AutomationAction::Shell ==> p is ShellWithEmptyContext,
{
    match action {
        AutomationAction::GithubIssue | AutomationAction::GithubClose => {
            match store.find_problem(entity_id) {
                Some(i) => if action == AutomationAction::GithubIssue {
                    BuiltinPlan::CreateIssue(i)
                } else {
                    BuiltinPlan::CloseIssue(i)
                },
                None => {
                    let v = chars_of(entity_id);
                    BuiltinPlan::Missing(crate::store::JjjError::ProblemNotFound(string_of(&v)))
                },
            }
        },
        AutomationAction::GithubPr | AutomationAction::GithubMerge => {
            match store.find_solution(entity_id) {
                Some(i) => if action == AutomationAction::GithubPr {
                    BuiltinPlan::CreateOrUpdatePr(i)
                } else {
                    BuiltinPlan::MergePr(i)
                },
                None => {
                    let v = chars_of(entity_id);
                    BuiltinPlan::Missing(crate::store::JjjError::SolutionNotFound(string_of(&v)))
                },
            }
        },
        AutomationAction::GithubSync => {
            let m = chars_of("github_sync not yet implemented as automation");
            BuiltinPlan::Skipped(string_of(&m))
        },
        AutomationAction::Shell => BuiltinPlan::ShellWithEmptyContext,
    }
}

/// The `{:?}` name of an action.
pub open spec fn action_name(a: AutomationAction) -> Seq<char> {
    match a {
        AutomationAction::GithubIssue => "GithubIssue"@,
        AutomationAction::GithubClose => "GithubClose"@,
        AutomationAction::GithubPr => "GithubPr"@,
        AutomationAction::GithubMerge => "GithubMerge"@,
        AutomationAction::GithubSync => "GithubSync"@,
        AutomationAction::Shell => "Shell"@,
    }
}

/// One-line rendering of a rule: `  on <event> → <Action>[ [disabled]]`, and
/// for a rule with a command, a second line holding the command verbatim.
pub open spec fn describe_spec(r: AutomationRule) -> Seq<char> {
    "  on "@ + event_type_label(r.on) + " → "@ + action_name(r.action) + (if r.enabled {
        Seq::<char>::empty()
    } else {
        " [disabled]"@
    }) + match r.command {
        Some(c) => "\n      "@ + c@,
        None => Seq::<char>::empty(),
    }
}

/// Render a rule for review, showing its command verbatim.
pub fn describe(rule: &AutomationRule) -> (s: String)
    ensures
        s@ == describe_spec(*rule),
{
    let mut out = chars_of("  on ");
    let label = rule.on.label();
    let lv = chars_of(label.as_str());
    append_chars(&mut out, &lv);
    let arrow = chars_of(" → ");
    append_chars(&mut out, &arrow);
    let name: &str = match rule.action {
        AutomationAction::GithubIssue => "GithubIssue",
        AutomationAction::GithubClose => "GithubClose",
        AutomationAction::GithubPr => "GithubPr",
        AutomationAction::GithubMerge => "GithubMerge",
        AutomationAction::GithubSync => "GithubSync",
        AutomationAction::Shell => "Shell",
    };
    let nv = chars_of(name);
    append_chars(&mut out, &nv);
    let ghost head = out@;
    if !rule.enabled {
        let d = chars_of(" [disabled]");
        append_chars(&mut out, &d);
    }
    let ghost mid = out@;
    match &rule.command {
        Some(c) => {
            let sep = chars_of("\n      ");
            append_chars(&mut out, &sep);
            let cv = chars_of(c.as_str());
            append_chars(&mut out, &cv);
            assert(out@ =~= mid + ("\n      "@ + c@));
        },
        None => {
            assert(out@ =~= mid + Seq::<char>::empty());
        },
    }
    if rule.enabled {
        assert(mid =~= head + Seq::<char>::empty());
    }
    string_of(&out)
}

// ───────────────────────── the rules in force ─────────────────────────

/// A rule as plain values.
pub open spec fn rule_view(r: AutomationRule) -> (EventType, AutomationAction, Option<Seq<char>>, bool) {
    (r.on, r.action, opt_view(r.command), r.enabled)
}

pub open spec fn rules_view(v: Seq<AutomationRule>) -> Seq<(EventType, AutomationAction, Option<Seq<char>>, bool)> {
    v.map_values(|r: AutomationRule| rule_view(r))
}

pub fn clone_rule(r: &AutomationRule) -> (c: AutomationRule)
    ensures
        rule_view(c) == rule_view(*r),
{
    let command = match &r.command {
        Some(s) => {
            let v = chars_of(s.as_str());
            Some(string_of(&v))
        },
        None => None,
    };
    AutomationRule { on: r.on, action: r.action, command, enabled: r.enabled }
}

pub fn clone_rules(v: &Vec<AutomationRule>) -> (c: Vec<AutomationRule>)
    ensures
        rules_view(c@) == rules_view(v@),
{
    let mut c: Vec<AutomationRule> = Vec::new();
    let mut i: usize = 0;
    while i < v.len()
        invariant
            i <= v.len(),
            rules_view(c@) == rules_view(v@).take(i as int),
        decreases v.len() - i,
    {
        let ghost before = rules_view(c@);
        c.push(clone_rule(&v[i]));
        assert(rules_view(c@) =~= before.push(rule_view(v@[i as int])));
        assert(rules_view(c@) =~= rules_view(v@).take(i + 1));
        i += 1;
    }
    assert(rules_view(v@).take(i as int) =~= rules_view(v@));
    c
}

/// The rules that would actually run.
pub fn active_rules(store: &MetadataStore) -> (r: Vec<AutomationRule>)
    ensures
        rules_view(r@) == rules_view(store.automation@),
{
    clone_rules(&store.automation)
}

/// The machine-local automation rules, when a local file exists.
pub fn local_config(store: &MetadataStore) -> (r: Option<Vec<AutomationRule>>)
    ensures
        match (r, store.local_automation) {
            (Some(a), Some(b)) => rules_view(a@) == rules_view(b@),
            (None, None) => true,
            _ => false,
        },
{
    match &store.local_automation {
        Some(v) => Some(clone_rules(v)),
        None => None,
    }
}

/// The local rules after adopting the ones found in the synced config:
/// the existing local rules (none when there is no local file), then the
/// adopted ones.
pub fn migrated_rules(local: Option<&Vec<AutomationRule>>, legacy: &Vec<AutomationRule>) -> (r: Vec<
    AutomationRule,
>)
    ensures
        rules_view(r@) == (match local {
            Some(l) => rules_view(l@),
            None => Seq::empty(),
        }) + rules_view(legacy@),
{
    let mut out = match local {
        Some(l) => clone_rules(l),
        None => Vec::new(),
    };
    let ghost start = rules_view(out@);
    let mut i: usize = 0;
    while i < legacy.len()
        invariant
            i <= legacy.len(),
            rules_view(out@) == start + rules_view(legacy@).take(i as int),
        decreases legacy.len() - i,
    {
        let ghost before = rules_view(out@);
        out.push(clone_rule(&legacy[i]));
        assert(rules_view(out@) =~= before.push(rule_view(legacy@[i as int])));
        assert(rules_view(out@) =~= start + rules_view(legacy@).take(i + 1));
        i += 1;
    }
    assert(rules_view(legacy@).take(i as int) =~= rules_view(legacy@));
    out
}


// ───────────────────────── failed actions ─────────────────────────

/// What is kept of an automation action that failed, for replay by hand:
/// when its event happened, the event's type, the entity, the action and
/// the failure message.
#[derive(Debug, PartialEq)]
pub struct FailureRecord {
    pub when: i64,
    pub event_type: String,
    pub entity_id: String,
    pub action: String,
    pub message: String,
}

pub fn action_label(a: AutomationAction) -> (r: &'static str)
    ensures
        r@ == action_name(a),
{
    match a {
        AutomationAction::GithubIssue => "GithubIssue",
        AutomationAction::GithubClose => "GithubClose",
        AutomationAction::GithubPr => "GithubPr",
        AutomationAction::GithubMerge => "GithubMerge",
        AutomationAction::GithubSync => "GithubSync",
        AutomationAction::Shell => "Shell",
    }
}

/// The record of action `action` failing with `message` for `event`.
pub fn failure_record(event: &Event, action: AutomationAction, message: &str) -> (r: FailureRecord)
    ensures
        r.when == event.when,
        r.event_type@ == event_type_label(event.event_type),
        r.entity_id@ == event.entity@,
        r.action@ == action_name(action),
        r.message@ == message@,
{
    FailureRecord {
        when: event.when,
        event_type: event.event_type.label(),
        entity_id: copy_str(event.entity.as_str()),
        action: copy_str(action_label(action)),
        message: copy_str(message),
    }
}

} // verus!
