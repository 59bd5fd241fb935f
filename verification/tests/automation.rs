use jjj::automation::{
    active_rules, describe, env_var_name, expand_template, has_explicit_rule, local_config,
    matching_rules, migrated_rules, plan_builtin, plan_rule, populate_entity_vars,
    AutomationAction, AutomationContext, AutomationRule, BuiltinPlan, RulePlan,
};
use jjj::models::{Critique, EventType, Problem, Severity, Solution};
use jjj::store::{JjjError, MetadataStore};

fn rule(on: EventType, action: AutomationAction) -> AutomationRule {
    AutomationRule { on, action, command: None, enabled: true }
}

fn vars(pairs: &[(&str, &str)]) -> Vec<(String, String)> {
    pairs.iter().map(|(k, v)| (k.to_string(), v.to_string())).collect()
}

#[test]
fn test_matching_rules_filters_by_event() {
    let rules = vec![
        rule(EventType::SolutionSubmitted, AutomationAction::GithubPr),
        rule(EventType::ProblemSolved, AutomationAction::GithubClose),
        rule(EventType::SolutionSubmitted, AutomationAction::Shell),
    ];
    let matched = matching_rules(&rules, &EventType::SolutionSubmitted);
    assert_eq!(matched.len(), 2);
    assert_eq!(matched[0].action, AutomationAction::GithubPr);
    assert_eq!(matched[1].action, AutomationAction::Shell);
}

#[test]
fn test_matching_rules_skips_disabled() {
    let mut r = rule(EventType::SolutionSubmitted, AutomationAction::GithubPr);
    r.enabled = false;
    let rules = vec![r];
    let matched = matching_rules(&rules, &EventType::SolutionSubmitted);
    assert!(matched.is_empty());
}

#[test]
fn test_matching_rules_no_match() {
    let rules = vec![rule(EventType::ProblemSolved, AutomationAction::GithubClose)];
    let matched = matching_rules(&rules, &EventType::SolutionSubmitted);
    assert!(matched.is_empty());
}

#[test]
fn test_expand_template_simple() {
    let vars = vars(&[("id", "abc123"), ("title", "Fix auth bug")]);
    let (result, env) = expand_template("New: {{title}} ({{id}})", &vars);
    assert_eq!(result, "New: \"${JJJ_VAR_TITLE}\" (\"${JJJ_VAR_ID}\")");
    assert!(env.contains(&("JJJ_VAR_TITLE".to_string(), "Fix auth bug".to_string())));
    assert!(env.contains(&("JJJ_VAR_ID".to_string(), "abc123".to_string())));
}

#[test]
fn test_expand_template_unknown_var_kept() {
    let vars = vars(&[]);
    let (result, env) = expand_template("Hello {{unknown}}", &vars);
    assert_eq!(result, "Hello {{unknown}}");
    assert!(env.is_empty());
}

#[test]
fn test_expand_template_no_vars() {
    let vars = vars(&[]);
    let (result, env) = expand_template("plain text", &vars);
    assert_eq!(result, "plain text");
    assert!(env.is_empty());
}

#[test]
fn test_expand_template_dotted_vars() {
    let vars = vars(&[("problem.title", "Auth bug")]);
    let (result, env) = expand_template("On: {{problem.title}}", &vars);
    assert_eq!(result, "On: \"${JJJ_VAR_PROBLEM_TITLE}\"");
    assert_eq!(env, vec![("JJJ_VAR_PROBLEM_TITLE".to_string(), "Auth bug".to_string())]);
}

#[test]
fn test_has_explicit_rule_for_event() {
    let rules = vec![
        rule(EventType::SolutionSubmitted, AutomationAction::GithubPr),
        rule(EventType::ProblemSolved, AutomationAction::GithubClose),
    ];
    assert!(has_explicit_rule(&rules, &EventType::SolutionSubmitted));
    assert!(has_explicit_rule(&rules, &EventType::ProblemSolved));
    assert!(!has_explicit_rule(&rules, &EventType::ProblemCreated));
}

#[test]
fn test_shell_injection_via_command_substitution_is_inert() {
    // The title's command substitution never reaches the command text: it
    // travels in the environment, referenced as a quoted variable.
    let r = AutomationRule {
        on: EventType::ProblemCreated,
        action: AutomationAction::Shell,
        command: Some("echo {{title}}".to_string()),
        enabled: true,
    };
    let mut auto_ctx = AutomationContext::new("problem_created");
    auto_ctx.set("title", "$(touch /tmp/pwned)");
    match plan_rule(&r, &auto_ctx) {
        RulePlan::Shell { command, env } => {
            assert_eq!(command, "echo \"${JJJ_VAR_TITLE}\"");
            assert!(!command.contains("touch"));
            assert!(env.contains(&("JJJ_VAR_TITLE".to_string(), "$(touch /tmp/pwned)".to_string())));
        }
        other => panic!("expected a shell plan, got {:?}", other),
    }
}

#[test]
fn test_shell_injection_with_legacy_quoted_template_is_inert() {
    let r = AutomationRule {
        on: EventType::ProblemCreated,
        action: AutomationAction::Shell,
        command: Some("echo '{{title}}'".to_string()),
        enabled: true,
    };
    let mut auto_ctx = AutomationContext::new("problem_created");
    auto_ctx.set("title", "'; touch /tmp/pwned; '");
    match plan_rule(&r, &auto_ctx) {
        RulePlan::Shell { command, env } => {
            assert!(!command.contains("touch"));
            assert_eq!(command, "echo '\"${JJJ_VAR_TITLE}\"'");
            assert_eq!(env.len(), 1);
        }
        other => panic!("expected a shell plan, got {:?}", other),
    }
}

#[test]
fn test_execute_rule_shell_missing_command_returns_failure() {
    let r = AutomationRule {
        on: EventType::ProblemCreated,
        action: AutomationAction::Shell,
        command: None,
        enabled: true,
    };
    let auto_ctx = AutomationContext::new("problem_created");
    assert_eq!(
        plan_rule(&r, &auto_ctx),
        RulePlan::Failure("Shell action requires a 'command' field".to_string())
    );
}

#[test]
fn test_execute_rule_builtin_without_ctx_returns_skipped() {
    let r = rule(EventType::ProblemCreated, AutomationAction::GithubIssue);
    let auto_ctx = AutomationContext::new("problem_created");
    assert_eq!(plan_rule(&r, &auto_ctx), RulePlan::Builtin(AutomationAction::GithubIssue));
}

#[test]
fn context_set_replaces_an_earlier_value() {
    let mut ctx = AutomationContext::new("problem_created");
    ctx.set("title", "first").set("title", "second");
    let pairs = ctx.pairs();
    assert_eq!(pairs.len(), 2);
    assert_eq!(pairs[0], ("event".to_string(), "problem_created".to_string()));
    assert_eq!(pairs[1], ("title".to_string(), "second".to_string()));
}

#[test]
fn env_names_are_shell_safe() {
    assert_eq!(env_var_name("problem.title"), "JJJ_VAR_PROBLEM_TITLE");
    assert_eq!(env_var_name("a-b c"), "JJJ_VAR_A_B_C");
}

#[test]
fn command_text_does_not_depend_on_values() {
    let a = vars(&[("title", "harmless")]);
    let b = vars(&[("title", "$(rm -rf /)")]);
    let (ca, _) = expand_template("echo {{title}}", &a);
    let (cb, _) = expand_template("echo {{title}}", &b);
    assert_eq!(ca, cb);
}

#[test]
fn describe_shows_command_and_state() {
    let mut r = rule(EventType::ProblemCreated, AutomationAction::Shell);
    r.command = Some("echo hi".to_string());
    r.enabled = false;
    let d = describe(&r);
    assert!(d.contains("problem_created"));
    assert!(d.contains("[disabled]"));
    assert!(d.contains("echo hi"));
}

fn store() -> MetadataStore {
    let mut p = Problem::new("p1", "Slow start");
    p.github_issue = Some(12);
    let mut s = Solution::new("s1", "Cache it", "p1");
    s.github_pr = Some(34);
    MetadataStore {
        problems: vec![p],
        solutions: vec![s],
        critiques: vec![Critique::new("c1", "Races", "s1", Severity::High)],
        milestones: Vec::new(),
        events: Vec::new(),
        user: None,
        automation: vec![rule(EventType::ProblemSolved, AutomationAction::GithubClose)],
        local_automation: None,
        settings: Vec::new(),
    }
}

#[test]
fn entity_variables_follow_the_entity_chain() {
    let st = store();
    let mut ctx = AutomationContext::new("critique_raised");
    populate_entity_vars(&st, EventType::CritiqueRaised, "c1", &mut ctx);
    assert_eq!(
        ctx.pairs().clone(),
        vars(&[
            ("event", "critique_raised"),
            ("title", "Races"),
            ("type", "critique"),
            ("solution.title", "Cache it"),
            ("pr_number", "34"),
            ("problem.title", "Slow start"),
        ])
    );
    let mut ctx = AutomationContext::new("problem_solved");
    populate_entity_vars(&st, EventType::ProblemSolved, "p1", &mut ctx);
    assert_eq!(
        ctx.pairs().clone(),
        vars(&[("event", "problem_solved"), ("title", "Slow start"), ("type", "problem"), ("issue_number", "12")])
    );
    let mut ctx = AutomationContext::new("milestone_created");
    populate_entity_vars(&st, EventType::MilestoneCreated, "m1", &mut ctx);
    assert_eq!(ctx.pairs().len(), 1);
}

#[test]
fn built_in_actions_find_their_entity() {
    let st = store();
    assert_eq!(plan_builtin(&st, AutomationAction::GithubClose, "p1"), BuiltinPlan::CloseIssue(0));
    assert_eq!(plan_builtin(&st, AutomationAction::GithubPr, "s1"), BuiltinPlan::CreateOrUpdatePr(0));
    assert_eq!(
        plan_builtin(&st, AutomationAction::GithubMerge, "s9"),
        BuiltinPlan::Missing(JjjError::SolutionNotFound("s9".to_string()))
    );
    assert_eq!(
        plan_builtin(&st, AutomationAction::GithubSync, "p1"),
        BuiltinPlan::Skipped("github_sync not yet implemented as automation".to_string())
    );
    assert_eq!(plan_builtin(&st, AutomationAction::Shell, "p1"), BuiltinPlan::ShellWithEmptyContext);
}

#[test]
fn rule_sources() {
    let mut st = store();
    assert_eq!(active_rules(&st).len(), 1);
    assert!(local_config(&st).is_none());
    st.local_automation = Some(vec![rule(EventType::SolutionApproved, AutomationAction::Shell)]);
    assert_eq!(local_config(&st).map(|v| v.len()), Some(1));
    let legacy = vec![rule(EventType::ProblemCreated, AutomationAction::GithubIssue)];
    let local = vec![rule(EventType::SolutionApproved, AutomationAction::Shell)];
    let merged = migrated_rules(Some(&local), &legacy);
    assert_eq!(merged.len(), 2);
    assert_eq!(merged[0].on, EventType::SolutionApproved);
    assert_eq!(merged[1].on, EventType::ProblemCreated);
    assert_eq!(migrated_rules(None, &legacy).len(), 1);
}

#[test]
fn a_failed_action_is_recorded_for_replay() {
    let e = jjj::models::Event::new(jjj::models::EventType::ProblemCreated, "p1", "alice", 42);
    let r = jjj::automation::failure_record(&e, jjj::automation::AutomationAction::GithubIssue, "no token");
    assert_eq!(
        r,
        jjj::automation::FailureRecord {
            when: 42,
            event_type: "problem_created".to_string(),
            entity_id: "p1".to_string(),
            action: "GithubIssue".to_string(),
            message: "no token".to_string(),
        }
    );
}
