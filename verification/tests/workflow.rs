use jjj::models::{Solution, SolutionStatus};
use jjj::store::{JjjError, MetadataStore};
use jjj::workflow::{detect_trunk, plan_submit, SubmitPlan};

fn store(solutions: Vec<Solution>) -> MetadataStore {
    MetadataStore {
        problems: Vec::new(),
        solutions,
        critiques: Vec::new(),
        milestones: Vec::new(),
        events: Vec::new(),
        user: None,
        automation: Vec::new(),
        local_automation: None,
        settings: Vec::new(),
    }
}

#[test]
fn trunk_is_the_first_existing_of_main_master_trunk() {
    assert_eq!(detect_trunk(true, true, true), Some("main"));
    assert_eq!(detect_trunk(false, true, true), Some("master"));
    assert_eq!(detect_trunk(false, false, true), Some("trunk"));
    assert_eq!(detect_trunk(false, false, false), None);
}

#[test]
fn submit_without_a_solution_only_squashes() {
    let st = store(vec![Solution::new("s1", "one", "p1")]);
    assert_eq!(plan_submit(&st, None, "zzz"), Ok(SubmitPlan::SquashOnly));
}

#[test]
fn submit_finds_the_solution_holding_the_change() {
    let mut a = Solution::new("s1", "one", "p1");
    a.status = SolutionStatus::Submitted;
    a.change_ids = vec!["c9".to_string()];
    let mut b = Solution::new("s2", "two", "p1");
    b.status = SolutionStatus::Submitted;
    b.change_ids = vec!["c1".to_string()];
    b.github_pr = Some(7);
    let st = store(vec![a, b]);
    assert_eq!(plan_submit(&st, None, "c1"), Ok(SubmitPlan::MergePr { solution: 1, pr: 7 }));
    assert_eq!(plan_submit(&st, None, "c9"), Ok(SubmitPlan::Squash { solution: 0 }));
    assert_eq!(plan_submit(&st, Some(0), "c1"), Ok(SubmitPlan::Squash { solution: 0 }));
}

#[test]
fn submit_refuses_a_proposed_solution() {
    let st = store(vec![Solution::new("s1", "one", "p1")]);
    assert_eq!(
        plan_submit(&st, Some(0), "c1"),
        Err(JjjError::Validation(
            "Solution 'one' is proposed but hasn't been opened for review yet.\nMove it to review first:\n  jjj solution review s1"
                .to_string()
        ))
    );
}

#[test]
fn an_approved_solution_goes_on_to_integration() {
    let mut a = Solution::new("s1", "one", "p1");
    a.status = SolutionStatus::Approved;
    let st = store(vec![a]);
    assert_eq!(plan_submit(&st, Some(0), ""), Ok(SubmitPlan::Squash { solution: 0 }));
}

use jjj::conflicts::pick_side;
use jjj::github::github_allowed;
use jjj::merge::ConflictSide;
use jjj::workflow::{escalate_mode, escalation_reason, plan_approve, EscalateMode};

#[test]
fn approve_refuses_approved_and_proposed_solutions() {
    let mut a = Solution::new("s1", "one", "p1");
    a.status = SolutionStatus::Approved;
    let b = Solution::new("s2", "two", "p1");
    let mut c = Solution::new("s3", "three", "p1");
    c.status = SolutionStatus::Submitted;
    c.change_ids = vec!["c7".to_string()];
    let st = store(vec![a, b, c]);
    assert_eq!(
        plan_approve(&st, Some(0), ""),
        Err(JjjError::Validation("Solution 'one' is already approved.".to_string()))
    );
    assert_eq!(
        plan_approve(&st, Some(1), ""),
        Err(JjjError::Validation(
            "Solution 'two' is proposed — submit it for review first:\n  jjj solution submit s2".to_string()
        ))
    );
    assert_eq!(plan_approve(&st, None, "c7"), Ok(2));
    assert_eq!(
        plan_approve(&st, None, "zz"),
        Err(JjjError::Validation(
            "No solution found for current change. Specify a solution: jjj solution approve <title-or-id>".to_string()
        ))
    );
}

#[test]
fn escalate_modes_and_reasons() {
    assert_eq!(escalate_mode(true, true, false), EscalateMode::Clear);
    assert_eq!(escalate_mode(false, true, false), EscalateMode::Raise);
    assert_eq!(escalate_mode(false, true, true), EscalateMode::Show);
    assert_eq!(escalate_mode(false, false, false), EscalateMode::Show);
    assert_eq!(escalation_reason("  need keys  "), Ok("need keys".to_string()));
    assert_eq!(
        escalation_reason("   "),
        Err(JjjError::Validation("an escalation needs a reason — say what a person has to do".to_string()))
    );
}

#[test]
fn github_runs_unless_turned_off() {
    assert_eq!(github_allowed(None), Ok(()));
    assert_eq!(github_allowed(Some(true)), Ok(()));
    assert_eq!(
        github_allowed(Some(false)),
        Err(JjjError::Config(
            "GitHub integration is disabled. Set github.enabled = true in config.toml to enable.".to_string()
        ))
    );
}

#[test]
fn resolve_side_choice() {
    assert_eq!(pick_side(false, true), Ok(ConflictSide::Remote));
    assert_eq!(pick_side(true, true), Ok(ConflictSide::Remote));
    assert_eq!(pick_side(true, false), Ok(ConflictSide::Local));
    assert!(pick_side(false, false).is_err());
}
