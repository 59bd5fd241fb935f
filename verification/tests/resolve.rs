use jjj::context::CommandContext;
use jjj::dashboard::dashboard;
use jjj::models::{Critique, Milestone, Problem, ProblemStatus, Severity, Solution, SolutionStatus};
use jjj::resolve::{resolve, ResolveResult};
use jjj::store::{JjjError, MetadataStore};

fn entries(v: &[(&str, &str)]) -> Vec<(String, String)> {
    v.iter().map(|(a, b)| (a.to_string(), b.to_string())).collect()
}

#[test]
fn a_full_id_wins_then_prefixes_then_titles() {
    let es = entries(&[
        ("0193ab-cd01", "Login fails"),
        ("0193ab-cd02", "Logout hangs"),
        ("77aa", "Cache is slow"),
    ]);
    assert_eq!(resolve("77aa", &es), ResolveResult::Single("77aa".to_string()));
    assert_eq!(resolve("0193ABCD01", &es), ResolveResult::Single("0193ab-cd01".to_string()));
    assert_eq!(
        resolve("0193ab", &es),
        ResolveResult::Multiple(entries(&[("0193ab-cd01", "Login fails"), ("0193ab-cd02", "Logout hangs")]))
    );
    assert_eq!(resolve("slow", &es), ResolveResult::Single("77aa".to_string()));
    assert_eq!(resolve("LOG", &es), ResolveResult::Multiple(entries(&[
        ("0193ab-cd01", "Login fails"),
        ("0193ab-cd02", "Logout hangs"),
    ])));
    assert_eq!(resolve("zzz", &es), ResolveResult::NoMatch);
}

fn store() -> MetadataStore {
    let mut p = Problem::new("p-one", "Crash on start");
    p.assignee = Some("alice".to_string());
    let mut s = Solution::new("s-one", "Guard the init", "p-one");
    s.assignee = Some("alice".to_string());
    let mut done = Problem::new("p-two", "Old issue");
    done.status = ProblemStatus::Solved;
    let mut submitted = Solution::new("s-two", "Other", "p-two");
    submitted.status = SolutionStatus::Submitted;
    MetadataStore {
        problems: vec![p, done],
        solutions: vec![s, submitted],
        critiques: vec![
            Critique::new("c-one", "Races", "s-one", Severity::High),
            Critique::new("c-two", "Naming", "s-two", Severity::Low),
        ],
        milestones: vec![Milestone::new("m-one", "Beta")],
        events: Vec::new(),
        user: Some("alice".to_string()),
        automation: Vec::new(),
        local_automation: None,
        settings: Vec::new(),
    }
}

#[test]
fn the_context_resolves_each_kind() {
    let ctx = CommandContext::new(store());
    assert_eq!(ctx.resolve_problem("crash"), Ok(ResolveResult::Single("p-one".to_string())));
    assert_eq!(ctx.resolve_solution("s-two"), Ok(ResolveResult::Single("s-two".to_string())));
    assert_eq!(ctx.resolve_critique("naming"), Ok(ResolveResult::Single("c-two".to_string())));
    assert_eq!(ctx.resolve_milestone("beta"), Ok(ResolveResult::Single("m-one".to_string())));
    assert_eq!(ctx.resolve_problem("nothing"), Err(JjjError::ProblemNotFound("nothing".to_string())));
    assert_eq!(ctx.resolve_milestone("gamma"), Err(JjjError::MilestoneNotFound("gamma".to_string())));
}

#[test]
fn the_dashboard_shows_your_work_and_the_counts() {
    let d = dashboard(&store(), "@alice");
    assert_eq!(d.my_problems, vec![0]);
    assert_eq!(d.my_solutions, vec![0]);
    assert_eq!(d.my_open_critiques, vec![0]);
    assert_eq!(d.open_problems, 1);
    assert_eq!(d.in_progress_problems, 0);
    assert_eq!(d.solutions_in_review, 1);
    assert_eq!(d.open_critiques, 2);
    let nobody = dashboard(&store(), "alice");
    assert!(nobody.my_problems.is_empty());
}
