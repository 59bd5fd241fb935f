//! Repository diagnostics: each check's verdict from what was observed, and
//! the overall verdict from the checks.

use vstd::prelude::*;
use crate::automation::{AutomationAction, AutomationRule};
use crate::formats::{json_error, json_error_of, json_string_member, json_string_member_of};
use crate::text::{copy_str, append_chars, chars_of, decimal, push_decimal, string_of, trim, trim_chars};

verus! {

/// Severity of a check, which also decides the exit code.
#[derive(Debug, Clone, Copy, PartialEq, Eq, Structural)]
pub enum Level {
    Pass,
    Warn,
    Problem,
}

pub open spec fn level_rank(l: Level) -> int {
    match l {
        Level::Pass => 0,
        Level::Warn => 1,
        Level::Problem => 2,
    }
}

pub open spec fn marker_text(l: Level) -> Seq<char> {
    match l {
        Level::Pass => "✓"@,
        Level::Warn => "!"@,
        Level::Problem => "✗"@,
    }
}

impl Level {
    pub fn marker(self) -> (r: &'static str)
        ensures
            r@ == marker_text(self),
    {
        match self {
            Level::Pass => "✓",
            Level::Warn => "!",
            Level::Problem => "✗",
        }
    }
}

/// One diagnostic: its verdict, what was seen, and (for a warning or a
/// problem) what to do about it.
#[derive(Debug, PartialEq)]
pub struct Check {
    pub level: Level,
    pub name: String,
    pub detail: String,
    pub fix: Option<String>,
}

pub struct CheckView {
    pub level: Level,
    pub name: Seq<char>,
    pub detail: Seq<char>,
    pub fix: Option<Seq<char>>,
}

impl View for Check {
    type V = CheckView;

    open spec fn view(&self) -> CheckView {
        CheckView {
            level: self.level,
            name: self.name@,
            detail: self.detail@,
            fix: match self.fix {
                Some(f) => Some(f@),
                None => None,
            },
        }
    }
}

fn concat(a: &str, b: &str) -> (r: String)
    ensures
        r@ == a@ + b@,
{
    let mut v = chars_of(a);
    let w = chars_of(b);
    append_chars(&mut v, &w);
    string_of(&v)
}

impl Check {
    pub fn ok(name: &str, detail: &str) -> (c: Check)
        ensures
            c@ == (CheckView { level: Level::Pass, name: name@, detail: detail@, fix: None }),
    {
        Check { level: Level::Pass, name: copy_str(name), detail: copy_str(detail), fix: None }
    }

    pub fn warn(name: &str, detail: &str, fix: &str) -> (c: Check)
        ensures
            c@ == (CheckView { level: Level::Warn, name: name@, detail: detail@, fix: Some(fix@) }),
    {
        Check { level: Level::Warn, name: copy_str(name), detail: copy_str(detail), fix: Some(copy_str(fix)) }
    }

    pub fn problem(name: &str, detail: &str, fix: &str) -> (c: Check)
        ensures
            c@ == (CheckView { level: Level::Problem, name: name@, detail: detail@, fix: Some(fix@) }),
    {
        Check { level: Level::Problem, name: copy_str(name), detail: copy_str(detail), fix: Some(copy_str(fix)) }
    }
}

pub open spec fn checks_view(v: Seq<Check>) -> Seq<CheckView> {
    v.map_values(|c: Check| c@)
}

/// The most severe level among the checks (all clear when there are none).
pub open spec fn worst_spec(cs: Seq<CheckView>) -> Level
    decreases cs.len(),
{
    if cs.len() == 0 {
        Level::Pass
    } else {
        let w = worst_spec(cs.drop_last());
        if level_rank(cs.last().level) > level_rank(w) {
            cs.last().level
        } else {
            w
        }
    }
}

pub fn worst_level(checks: &Vec<Check>) -> (l: Level)
    ensures
        l == worst_spec(checks_view(checks@)),
{
    let ghost cv = checks_view(checks@);
    let mut w = Level::Pass;
    let mut i: usize = 0;
    while i < checks.len()
        invariant
            i <= checks.len(),
            cv == checks_view(checks@),
            w == worst_spec(cv.take(i as int)),
        decreases checks.len() - i,
    {
        assert(cv.take(i + 1).drop_last() =~= cv.take(i as int));
        assert(cv.take(i + 1).last() == checks@[i as int]@);
        let l = checks[i].level;
        let better = match (l, w) {
            (Level::Problem, Level::Pass) => true,
            (Level::Problem, Level::Warn) => true,
            (Level::Warn, Level::Pass) => true,
            _ => false,
        };
        if better {
            w = l;
        }
        i += 1;
    }
    assert(cv.take(i as int) =~= cv);
    w
}

pub open spec fn verdict_text(l: Level) -> Seq<char> {
    match l {
        Level::Pass => "Everything looks healthy."@,
        Level::Warn => "Usable, with warnings above."@,
        Level::Problem => "Problems found — see the suggested fixes above."@,
    }
}

/// The closing line of a diagnostic run.
pub fn verdict(l: Level) -> (r: &'static str)
    ensures
        r@ == verdict_text(l),
{
    match l {
        Level::Pass => "Everything looks healthy.",
        Level::Warn => "Usable, with warnings above.",
        Level::Problem => "Problems found — see the suggested fixes above.",
    }
}

// ───────────────────────── the checks ─────────────────────────

pub fn check_jjj_version(version: &str) -> (c: Check)
    ensures
        c@ == (CheckView { level: Level::Pass, name: "jjj"@, detail: "v"@ + version@, fix: None }),
{
    let d = concat("v", version);
    Check::ok("jjj", d.as_str())
}

/// The `jj` check, from the output of `jj --version` or why it failed.
pub fn check_jj_version(result: Result<&str, &str>) -> (c: Check)
    ensures
        match result {
            Ok(out) => c@ == (CheckView { level: Level::Pass, name: "jj"@, detail: trim(out@), fix: None }),
            Err(e) => c@ == (CheckView {
                level: Level::Problem,
                name: "jj"@,
                detail: "not usable: "@ + e@,
                fix: Some("install jujutsu — jjj cannot resolve change IDs without it"@),
            }),
        },
{
    match result {
        Ok(out) => {
            let v = chars_of(out);
            let t = trim_chars(&v);
            let ts = string_of(&t);
            Check::ok("jj", ts.as_str())
        },
        Err(e) => {
            let d = concat("not usable: ", e);
            Check::problem("jj", d.as_str(), "install jujutsu — jjj cannot resolve change IDs without it")
        },
    }
}

pub open spec fn identity_fix() -> Seq<char> {
    "set JJJ_USER, or configure jj: jj config set --user user.name \"Your Name\""@
}

/// The identity check, from the resolved actor or why it could not be
/// resolved.
pub fn check_identity(actor: Result<&str, &str>) -> (c: Check)
    ensures
        match actor {
            Err(e) => c@ == (CheckView {
                level: Level::Warn,
                name: "identity"@,
                detail: "could not resolve an actor: "@ + e@,
                fix: Some(identity_fix()),
            }),
            Ok(a) => if trim(a@).len() == 0 {
                c@ == (CheckView {
                    level: Level::Warn,
                    name: "identity"@,
                    detail: "no actor could be resolved"@,
                    fix: Some(identity_fix()),
                })
            } else {
                c@ == (CheckView { level: Level::Pass, name: "identity"@, detail: a@, fix: None })
            },
        },
{
    match actor {
        Err(e) => {
            let d = concat("could not resolve an actor: ", e);
            Check::warn("identity", d.as_str(), "set JJJ_USER, or configure jj: jj config set --user user.name \"Your Name\"")
        },
        Ok(a) => {
            let v = chars_of(a);
            let t = trim_chars(&v);
            if t.len() == 0 {
                Check::warn("identity", "no actor could be resolved", "set JJJ_USER, or configure jj: jj config set --user user.name \"Your Name\"")
            } else {
                Check::ok("identity", a)
            }
        },
    }
}

pub open spec fn meta_detail(path: Seq<char>, n: Seq<nat>) -> Seq<char> {
    path + " — "@ + decimal(n[0]) + " problems, "@ + decimal(n[1]) + " solutions, "@ + decimal(n[2])
        + " critiques, "@ + decimal(n[3]) + " milestones, "@ + decimal(n[4]) + " findings"@
}

/// The metadata check, from whether the directory exists and how many
/// markdown files each entity directory holds.
pub fn check_meta_path(path: &str, exists: bool, counts: [u64; 5]) -> (c: Check)
    ensures
        !exists ==> c@ == (CheckView {
            level: Level::Problem,
            name: "metadata"@,
            detail: path@ + " does not exist"@,
            fix: Some("run `jjj init` in this repository"@),
        }),
        exists ==> c@ == (CheckView {
            level: Level::Pass,
            name: "metadata"@,
            detail: meta_detail(path@, seq![counts[0] as nat, counts[1] as nat, counts[2] as nat, counts[3] as nat, counts[4] as nat]),
            fix: None,
        }),
{
    if !exists {
        let d = concat(path, " does not exist");
        return Check::problem("metadata", d.as_str(), "run `jjj init` in this repository");
    }
    let mut d = chars_of(path);
    let s0 = chars_of(" — ");
    append_chars(&mut d, &s0);
    push_decimal(&mut d, counts[0]);
    let s1 = chars_of(" problems, ");
    append_chars(&mut d, &s1);
    push_decimal(&mut d, counts[1]);
    let s2 = chars_of(" solutions, ");
    append_chars(&mut d, &s2);
    push_decimal(&mut d, counts[2]);
    let s3 = chars_of(" critiques, ");
    append_chars(&mut d, &s3);
    push_decimal(&mut d, counts[3]);
    let s4 = chars_of(" milestones, ");
    append_chars(&mut d, &s4);
    push_decimal(&mut d, counts[4]);
    let s5 = chars_of(" findings");
    append_chars(&mut d, &s5);
    let ds = string_of(&d);
    Check::ok("metadata", ds.as_str())
}

/// The conflicts check, from how many conflicted entities a scan found (or
/// why it failed).
pub fn check_conflicts(scan: Result<u64, &str>) -> (c: Check)
    ensures
        match scan {
            Ok(n) => if n == 0 {
                c@ == (CheckView { level: Level::Pass, name: "conflicts"@, detail: "none"@, fix: None })
            } else {
                c@ == (CheckView {
                    level: Level::Problem,
                    name: "conflicts"@,
                    detail: decimal(n as nat) + " entit(ies) carry unresolved merge markers"@,
                    fix: Some("run `jjj conflicts` to list them, then `jjj resolve <id> --ours|--theirs`"@),
                })
            },
            Err(e) => c@ == (CheckView {
                level: Level::Warn,
                name: "conflicts"@,
                detail: "could not check: "@ + e@,
                fix: Some("retry after `jjj db rebuild`"@),
            }),
        },
{
    match scan {
        Ok(n) => {
            if n == 0 {
                Check::ok("conflicts", "none")
            } else {
                let mut d: Vec<char> = Vec::new();
                push_decimal(&mut d, n);
                let t = chars_of(" entit(ies) carry unresolved merge markers");
                append_chars(&mut d, &t);
                let ds = string_of(&d);
                Check::problem("conflicts", ds.as_str(), "run `jjj conflicts` to list them, then `jjj resolve <id> --ours|--theirs`")
            }
        },
        Err(e) => {
            let d = concat("could not check: ", e);
            Check::warn("conflicts", d.as_str(), "retry after `jjj db rebuild`")
        },
    }
}

pub open spec fn shell_rule_count(rules: Seq<AutomationRule>) -> nat {
    rules.filter(|r: AutomationRule| r.enabled && r.action == AutomationAction::Shell).len()
}

/// The automation checks, from the active rules, the file they come from,
/// and how many rules sit ignored in the synced config.
pub fn check_automation(active: &Vec<AutomationRule>, file: &str, ignored: u64) -> (r: Vec<Check>)
    ensures
        r@.len() == (if ignored > 0 { 2int } else { 1int }),
        active@.len() == 0 ==> r@[0]@ == (CheckView { level: Level::Pass, name: "automation"@, detail: "no rules active"@, fix: None }),
        active@.len() > 0 ==> r@[0]@ == (CheckView {
            level: Level::Pass,
            name: "automation"@,
            detail: decimal(active@.len()) + " rule(s) active from "@ + file@ + " ("@ + decimal(shell_rule_count(active@))
                + " shell)"@,
            fix: None,
        }),
        ignored > 0 ==> r@[1]@ == (CheckView {
            level: Level::Warn,
            name: "automation (ignored)"@,
            detail: decimal(ignored as nat) + " rule(s) in config.toml are ignored — that file syncs from the remote"@,
            fix: Some("inspect with `jjj automation list`; adopt with `jjj automation migrate --force`"@),
        }),
{
    let ghost pred = |r: AutomationRule| r.enabled && r.action == AutomationAction::Shell;
    let mut shell: u64 = 0;
    let mut i: usize = 0;
    while i < active.len()
        invariant
            i <= active.len(),
            pred == (|r: AutomationRule| r.enabled && r.action == AutomationAction::Shell),
            shell == active@.take(i as int).filter(pred).len(),
            shell <= i,
        decreases active.len() - i,
    {
        proof {
            reveal(Seq::filter);
            assert(active@.take(i + 1).drop_last() =~= active@.take(i as int));
        }
        if active[i].enabled && active[i].action == AutomationAction::Shell {
            shell += 1;
        }
        i += 1;
    }
    assert(active@.take(i as int) =~= active@);
    let mut out: Vec<Check> = Vec::new();
    if active.len() == 0 {
        out.push(Check::ok("automation", "no rules active"));
    } else {
        let mut d: Vec<char> = Vec::new();
        push_decimal(&mut d, active.len() as u64);
        let a = chars_of(" rule(s) active from ");
        append_chars(&mut d, &a);
        let f = chars_of(file);
        append_chars(&mut d, &f);
        let b = chars_of(" (");
        append_chars(&mut d, &b);
        push_decimal(&mut d, shell);
        let c = chars_of(" shell)");
        append_chars(&mut d, &c);
        let ds = string_of(&d);
        out.push(Check::ok("automation", ds.as_str()));
    }
    if ignored > 0 {
        let mut d: Vec<char> = Vec::new();
        push_decimal(&mut d, ignored);
        let t = chars_of(" rule(s) in config.toml are ignored — that file syncs from the remote");
        append_chars(&mut d, &t);
        let ds = string_of(&d);
        out.push(Check::warn("automation (ignored)", ds.as_str(), "inspect with `jjj automation list`; adopt with `jjj automation migrate --force`"));
    }
    out
}

/// The sync check, from the sync-state file's content (`None` when there is
/// no file, `Err` with the reason when it could not be read).
pub fn check_sync_state(state: Option<Result<&str, &str>>) -> (c: Check)
    ensures
        match state {
            None => c@ == (CheckView {
                level: Level::Pass,
                name: "sync"@,
                detail: "no sync state yet (nothing pushed from this clone)"@,
                fix: None,
            }),
            Some(Err(e)) => c@ == (CheckView {
                level: Level::Warn,
                name: "sync"@,
                detail: "state file unreadable: "@ + e@,
                fix: Some("the next fetch falls back to a full reconcile"@),
            }),
            Some(Ok(text)) => match json_error_of(text@) {
                Some(e) => c@ == (CheckView {
                    level: Level::Warn,
                    name: "sync"@,
                    detail: "state file is unreadable: "@ + e,
                    fix: Some("the next fetch falls back to a full reconcile; safe to delete the file"@),
                }),
                None => c@ == (CheckView {
                    level: Level::Pass,
                    name: "sync"@,
                    detail: "last synced rev "@ + match json_string_member_of(text@, "last_synced_rev"@) {
                        Some(r) => r,
                        None => "unknown"@,
                    },
                    fix: None,
                }),
            },
        },
{
    match state {
        None => Check::ok("sync", "no sync state yet (nothing pushed from this clone)"),
        Some(Err(e)) => {
            let d = concat("state file unreadable: ", e);
            Check::warn("sync", d.as_str(), "the next fetch falls back to a full reconcile")
        },
        Some(Ok(text)) => match json_error(text) {
            Some(e) => {
                let d = concat("state file is unreadable: ", e.as_str());
                Check::warn("sync", d.as_str(), "the next fetch falls back to a full reconcile; safe to delete the file")
            },
            None => {
                let rev = match json_string_member(text, "last_synced_rev") {
                    Some(r) => r,
                    None => copy_str("unknown"),
                };
                let d = concat("last synced rev ", rev.as_str());
                Check::ok("sync", d.as_str())
            },
        },
    }
}

/// The lock checks: the push lock (its holder's pid text when the lock file
/// exists) and the write lock's presence.
pub fn check_locks(push_lock: Option<&str>, push_lock_path: &str, write_lock: bool) -> (r: Vec<Check>)
    ensures
        r@.len() == (if write_lock { 2int } else { 1int }),
        push_lock is None ==> r@[0]@ == (CheckView { level: Level::Pass, name: "push lock"@, detail: "free"@, fix: None }),
        push_lock matches Some(h) ==> r@[0]@ == (CheckView {
            level: Level::Warn,
            name: "push lock"@,
            detail: "held by pid "@ + (if trim(h@).len() == 0 { "unknown"@ } else { trim(h@) }),
            fix: Some("if no jjj push is running, remove it: rm "@ + push_lock_path@),
        }),
        write_lock ==> r@[1]@ == (CheckView {
            level: Level::Pass,
            name: "write lock"@,
            detail: "present (flock — released automatically when its holder exits)"@,
            fix: None,
        }),
{
    let mut out: Vec<Check> = Vec::new();
    match push_lock {
        Some(h) => {
            let hv = chars_of(h);
            let t = trim_chars(&hv);
            let holder = if t.len() == 0 {
                copy_str("unknown")
            } else {
                string_of(&t)
            };
            let d = concat("held by pid ", holder.as_str());
            let f = concat("if no jjj push is running, remove it: rm ", push_lock_path);
            out.push(Check::warn("push lock", d.as_str(), f.as_str()));
        },
        None => {
            out.push(Check::ok("push lock", "free"));
        },
    }
    if write_lock {
        out.push(Check::ok("write lock", "present (flock — released automatically when its holder exits)"));
    }
    out
}

} // verus!
