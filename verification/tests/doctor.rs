use jjj::automation::{AutomationAction, AutomationRule};
use jjj::doctor::{
    check_automation, check_conflicts, check_identity, check_jj_version, check_jjj_version,
    check_locks, check_meta_path, check_sync_state, verdict, worst_level, Check, Level,
};
use jjj::models::EventType;

fn rule(action: AutomationAction, enabled: bool) -> AutomationRule {
    AutomationRule { on: EventType::SolutionApproved, action, command: None, enabled }
}

#[test]
fn the_worst_level_decides_the_verdict() {
    assert_eq!(worst_level(&Vec::new()), Level::Pass);
    let checks = vec![
        Check::ok("a", "fine"),
        Check::warn("b", "hmm", "do x"),
        Check::ok("c", "fine"),
    ];
    assert_eq!(worst_level(&checks), Level::Warn);
    let mut checks = checks;
    checks.push(Check::problem("d", "bad", "do y"));
    assert_eq!(worst_level(&checks), Level::Problem);
    assert_eq!(verdict(Level::Pass), "Everything looks healthy.");
    assert_eq!(verdict(Level::Problem), "Problems found — see the suggested fixes above.");
    assert_eq!(Level::Warn.marker(), "!");
}

#[test]
fn version_and_identity_checks() {
    assert_eq!(check_jjj_version("0.3.1").detail, "v0.3.1");
    let ok = check_jj_version(Ok("jj 0.20.0\n"));
    assert_eq!((ok.level, ok.detail.as_str()), (Level::Pass, "jj 0.20.0"));
    let bad = check_jj_version(Err("not found"));
    assert_eq!(bad.level, Level::Problem);
    assert_eq!(bad.detail, "not usable: not found");
    assert_eq!(check_identity(Ok("alice")).level, Level::Pass);
    let blank = check_identity(Ok("   "));
    assert_eq!((blank.level, blank.detail.as_str()), (Level::Warn, "no actor could be resolved"));
    assert_eq!(check_identity(Err("boom")).detail, "could not resolve an actor: boom");
}

#[test]
fn metadata_and_conflict_checks() {
    let c = check_meta_path(".jjj", true, [3, 2, 1, 0, 12]);
    assert_eq!(
        c.detail,
        ".jjj — 3 problems, 2 solutions, 1 critiques, 0 milestones, 12 findings"
    );
    let missing = check_meta_path(".jjj", false, [0; 5]);
    assert_eq!(missing.level, Level::Problem);
    assert_eq!(missing.detail, ".jjj does not exist");
    assert_eq!(check_conflicts(Ok(0)).detail, "none");
    let some = check_conflicts(Ok(4));
    assert_eq!(some.level, Level::Problem);
    assert_eq!(some.detail, "4 entit(ies) carry unresolved merge markers");
    assert_eq!(check_conflicts(Err("io")).level, Level::Warn);
}

#[test]
fn automation_checks_count_shell_rules() {
    let none = check_automation(&Vec::new(), "automation.toml", 0);
    assert_eq!(none.len(), 1);
    assert_eq!(none[0].detail, "no rules active");
    let rules = vec![
        rule(AutomationAction::Shell, true),
        rule(AutomationAction::Shell, false),
        rule(AutomationAction::GithubIssue, true),
    ];
    let r = check_automation(&rules, "automation.toml", 2);
    assert_eq!(r.len(), 2);
    assert_eq!(r[0].detail, "3 rule(s) active from automation.toml (1 shell)");
    assert_eq!(r[1].level, Level::Warn);
    assert_eq!(
        r[1].detail,
        "2 rule(s) in config.toml are ignored — that file syncs from the remote"
    );
}

#[test]
fn sync_state_checks_read_the_json() {
    assert_eq!(check_sync_state(None).level, Level::Pass);
    assert_eq!(check_sync_state(Some(Err("denied"))).detail, "state file unreadable: denied");
    let good = check_sync_state(Some(Ok("{\"last_synced_rev\": \"abc123\"}")));
    assert_eq!((good.level, good.detail.as_str()), (Level::Pass, "last synced rev abc123"));
    let bare = check_sync_state(Some(Ok("{}")));
    assert_eq!(bare.detail, "last synced rev unknown");
    let broken = check_sync_state(Some(Ok("{not json")));
    assert_eq!(broken.level, Level::Warn);
    assert!(broken.detail.starts_with("state file is unreadable: "));
    assert!(broken.detail.len() > "state file is unreadable: ".len());
}

#[test]
fn lock_checks() {
    let free = check_locks(None, ".jjj/push.lock", false);
    assert_eq!(free.len(), 1);
    assert_eq!(free[0].detail, "free");
    let held = check_locks(Some(" 4242\n"), ".jjj/push.lock", true);
    assert_eq!(held.len(), 2);
    assert_eq!(held[0].detail, "held by pid 4242");
    assert_eq!(held[0].fix, Some("if no jjj push is running, remove it: rm .jjj/push.lock".to_string()));
    assert_eq!(check_locks(Some(""), "x", false)[0].detail, "held by pid unknown");
    assert_eq!(held[1].name, "write lock");
}
