use jjj::create::{create_critique, create_milestone, create_problem, create_solution};
use jjj::models::{
    CritiqueStatus, EventType, Milestone, MilestoneStatus, Priority, Problem, ProblemStatus,
    Severity, Solution, SolutionStatus,
};
use jjj::store::{JjjError, MetadataStore};

const NOW: i64 = 1_700_000_000;

fn store() -> MetadataStore {
    let mut m = Milestone::new("m1", "release");
    m.problem_ids = vec!["p0".to_string()];
    MetadataStore {
        problems: vec![Problem::new("p0", "Login is slow")],
        solutions: vec![Solution::new("s0", "cache", "p0")],
        critiques: Vec::new(),
        milestones: vec![m],
        events: Vec::new(),
        user: Some("alice".to_string()),
        automation: Vec::new(),
        local_automation: None,
        settings: Vec::new(),
    }
}

fn strings(v: &[&str]) -> Vec<String> {
    v.iter().map(|s| s.to_string()).collect()
}

#[test]
fn a_problem_is_created_with_its_details() {
    let mut st = store();
    let tags = strings(&[" ui ", "perf", "", "perf"]);
    let e = create_problem(
        &mut st, "p1", "  Search is broken  ", Priority::High, Some("seen on mobile"), &tags,
        Some("p0"), Some("m1"), false, "alice", NOW,
    )
    .unwrap();
    assert_eq!(e.event_type, EventType::ProblemCreated);
    assert_eq!((e.entity.as_str(), e.by.as_str(), e.when), ("p1", "alice", NOW));
    assert_eq!(st.problems.len(), 2);
    let p = &st.problems[1];
    assert_eq!(p.title, "Search is broken");
    assert_eq!(p.priority, Priority::High);
    assert_eq!(p.status, ProblemStatus::Open);
    assert_eq!(p.description, "seen on mobile");
    assert_eq!(p.tags, strings(&["perf", "ui"]));
    assert_eq!(p.parent_id.as_deref(), Some("p0"));
    assert_eq!(p.milestone_id.as_deref(), Some("m1"));
    assert_eq!(p.created_at, NOW);
    assert_eq!(st.milestones[0].problem_ids, strings(&["p0", "p1"]));
    assert_eq!(st.events.len(), 1);
}

#[test]
fn problem_creation_refusals_change_nothing() {
    let mut st = store();
    let none: Vec<String> = Vec::new();
    let r = create_problem(&mut st, "p1", "   ", Priority::Low, None, &none, None, None, false, "a", NOW);
    assert_eq!(r.unwrap_err(), JjjError::Validation("Title cannot be empty.".to_string()));
    let r = create_problem(&mut st, "p1", "LOGIN IS SLOW", Priority::Low, None, &none, None, None, false, "a", NOW);
    assert_eq!(r.unwrap_err(), JjjError::Validation("Duplicate title. Use --force to create anyway.".to_string()));
    let r = create_problem(&mut st, "p1", "x", Priority::Low, None, &none, Some("nope"), None, false, "a", NOW);
    assert_eq!(r.unwrap_err(), JjjError::ProblemNotFound("nope".to_string()));
    let r = create_problem(&mut st, "p1", "x", Priority::Low, None, &none, None, Some("m9"), false, "a", NOW);
    assert_eq!(r.unwrap_err(), JjjError::MilestoneNotFound("m9".to_string()));
    assert_eq!(st.problems.len(), 1);
    assert!(st.events.is_empty());
    // With force, a duplicate title is accepted.
    assert!(create_problem(&mut st, "p1", "login is slow", Priority::Low, None, &none, None, None, true, "a", NOW).is_ok());
    assert_eq!(st.problems.len(), 2);
}

#[test]
fn a_solution_opens_review_requests_and_starts_its_problem() {
    let mut st = store();
    let reviewers = strings(&["@bob", "carol:high"]);
    let cids = strings(&["c1", "c2"]);
    let e = create_solution(&mut st, "s1", " faster query ", "p0", Some("s0"), "chg1", &reviewers, &cids, "alice", NOW).unwrap();
    assert_eq!(e.event_type, EventType::SolutionCreated);
    assert_eq!(e.extra.problem.as_deref(), Some("p0"));
    assert_eq!(e.extra.supersedes.as_deref(), Some("s0"));
    let s = &st.solutions[1];
    assert_eq!(s.title, "faster query");
    assert_eq!(s.status, SolutionStatus::Proposed);
    assert_eq!(s.change_ids, strings(&["chg1"]));
    assert_eq!(s.critique_ids, strings(&["c1", "c2"]));
    assert_eq!(s.supersedes.as_deref(), Some("s0"));
    assert_eq!(st.critiques.len(), 2);
    assert_eq!(st.critiques[0].title, "Awaiting review from @bob");
    assert_eq!(st.critiques[0].severity, Severity::Low);
    assert_eq!(st.critiques[0].reviewer.as_deref(), Some("bob"));
    assert_eq!(st.critiques[1].title, "Awaiting review from @carol");
    assert_eq!(st.critiques[1].severity, Severity::High);
    assert_eq!(st.critiques[1].status, CritiqueStatus::Open);
    assert_eq!(st.problems[0].status, ProblemStatus::InProgress);
    assert_eq!(st.problems[0].solution_ids, strings(&["s1"]));
    assert_eq!(st.events.len(), 1);
}

#[test]
fn solution_creation_refusals() {
    let mut st = store();
    let none: Vec<String> = Vec::new();
    assert_eq!(
        create_solution(&mut st, "s1", "", "p0", None, "c", &none, &none, "a", NOW).unwrap_err(),
        JjjError::Validation("Title cannot be empty.".to_string())
    );
    assert_eq!(
        create_solution(&mut st, "s1", "t", "p9", None, "c", &none, &none, "a", NOW).unwrap_err(),
        JjjError::ProblemNotFound("p9".to_string())
    );
    assert_eq!(
        create_solution(&mut st, "s1", "t", "p0", Some("s9"), "c", &none, &none, "a", NOW).unwrap_err(),
        JjjError::SolutionNotFound("s9".to_string())
    );
    assert_eq!(st.solutions.len(), 1);
    assert_eq!(st.problems[0].status, ProblemStatus::Open);
}

#[test]
fn a_critique_is_raised_with_its_place_and_context() {
    let mut st = store();
    let lines = strings(&["a", "b", "c", "d", "e", "f"]);
    let e = create_critique(
        &mut st, "c1", "s0", "off by one", Severity::Medium, Some("src/x.rs"), Some(3), Some(&lines),
        Some("@@dave"), "erin", "alice", NOW,
    )
    .unwrap();
    assert_eq!(e.event_type, EventType::CritiqueRaised);
    assert_eq!(e.extra.target.as_deref(), Some("s0"));
    assert_eq!(e.extra.title.as_deref(), Some("off by one"));
    assert_eq!(e.extra.severity, Some(Severity::Medium));
    let c = &st.critiques[0];
    assert_eq!(c.author.as_deref(), Some("erin"));
    assert_eq!(c.reviewer.as_deref(), Some("dave"));
    assert_eq!(c.file_path.as_deref(), Some("src/x.rs"));
    assert_eq!(c.line_start, Some(3));
    assert_eq!(c.code_context, strings(&["b", "c", "d", "e"]));
    assert_eq!(st.solutions[0].critique_ids, strings(&["c1"]));
    assert_eq!(
        create_critique(&mut st, "c2", "s9", "t", Severity::Low, None, None, None, None, "e", "a", NOW).unwrap_err(),
        JjjError::SolutionNotFound("s9".to_string())
    );
    // Near the start and end of a file the window is shorter.
    create_critique(&mut st, "c3", "s0", "t", Severity::Low, Some("f"), Some(1), Some(&lines), None, "e", "a", NOW).unwrap();
    assert_eq!(st.critiques[1].code_context, strings(&["a", "b", "c"]));
    create_critique(&mut st, "c4", "s0", "t", Severity::Low, Some("f"), Some(6), Some(&lines), None, "e", "a", NOW).unwrap();
    assert_eq!(st.critiques[2].code_context, strings(&["e", "f"]));
    // A line without a file records no place.
    create_critique(&mut st, "c5", "s0", "t", Severity::Low, None, Some(6), Some(&lines), None, "e", "a", NOW).unwrap();
    assert_eq!(st.critiques[3].line_start, None);
}

#[test]
fn a_milestone_is_created_with_its_date() {
    let mut st = store();
    create_milestone(&mut st, "m2", "beta", Some("2024-03-01")).unwrap();
    let m = &st.milestones[1];
    assert_eq!((m.id.as_str(), m.title.as_str()), ("m2", "beta"));
    assert_eq!(m.status, MilestoneStatus::Planning);
    assert_eq!(m.target_date, Some(1_709_251_200));
    create_milestone(&mut st, "m3", "later", None).unwrap();
    assert_eq!(st.milestones[2].target_date, None);
    assert_eq!(
        create_milestone(&mut st, "m4", "x", Some("March 1")).unwrap_err(),
        JjjError::Validation("Invalid date format: March 1. Use YYYY-MM-DD".to_string())
    );
    assert_eq!(st.milestones.len(), 3);
}
