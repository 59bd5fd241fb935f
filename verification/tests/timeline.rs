use jjj::models::{Critique, Event, EventType, Problem, Severity, Solution};
use jjj::store::MetadataStore;
use jjj::timeline::{format_event_description, timeline_events};

fn ev(t: EventType, entity: &str, when: i64) -> Event {
    Event::new(t, entity, "alice", when)
}

#[test]
fn descriptions_name_what_happened() {
    assert_eq!(format_event_description(&ev(EventType::ProblemCreated, "p1", 0)), "problem created");
    assert_eq!(format_event_description(&ev(EventType::SolutionApproved, "s1", 0)), "s1 accepted");
    assert_eq!(format_event_description(&ev(EventType::SolutionWithdrawn, "s1", 0)), "s1 refuted");
    assert_eq!(
        format_event_description(&ev(EventType::SolutionSubmitted, "s1", 0)),
        "s1 moved to review"
    );
    assert_eq!(
        format_event_description(&ev(EventType::ConflictResolved, "p1", 0)),
        "p1 conflict resolved"
    );
}

#[test]
fn descriptions_carry_extra_details() {
    let mut e = ev(EventType::SolutionCreated, "s2", 0);
    e.extra.supersedes = Some("s1".to_string());
    assert_eq!(format_event_description(&e), "s2 proposed (supersedes s1)");

    let mut e = ev(EventType::CritiqueRaised, "c1", 0);
    e.extra.title = Some("The parser drops trailing comments".to_string());
    assert_eq!(format_event_description(&e), "c1 raised: \"The parser drops trail...\"");

    let mut e = ev(EventType::GithubPrMerged, "s1", 0);
    e.extra.github_number = Some(42);
    assert_eq!(format_event_description(&e), "GitHub PR #42 merged");
    let e = ev(EventType::GithubIssueClosed, "p1", 0);
    assert_eq!(format_event_description(&e), "GitHub issue closed");
    let mut e = ev(EventType::GithubReviewImported, "s1", 0);
    e.extra.github_number = Some(7);
    assert_eq!(format_event_description(&e), "review imported from PR #7");
}

#[test]
fn a_timeline_gathers_the_problem_its_solutions_and_critiques_in_time_order() {
    let mut e_ref = ev(EventType::MilestoneCreated, "m1", 250);
    e_ref.refs = vec!["p1".to_string()];
    let store = MetadataStore {
        problems: vec![Problem::new("p1", "bug"), Problem::new("p2", "other")],
        solutions: vec![Solution::new("s1", "fix", "p1"), Solution::new("s2", "other fix", "p2")],
        critiques: vec![Critique::new("c1", "flaw", "s1", Severity::Low)],
        milestones: Vec::new(),
        events: vec![
            ev(EventType::ProblemCreated, "p1", 100),
            ev(EventType::ProblemCreated, "p2", 110),
            ev(EventType::CritiqueRaised, "c1", 300),
            ev(EventType::SolutionCreated, "s1", 200),
            ev(EventType::SolutionCreated, "s2", 210),
            e_ref,
            ev(EventType::SolutionSubmitted, "s1", 200),
        ],
        user: None,
        automation: Vec::new(),
        local_automation: None,
        settings: Vec::new(),
    };
    assert_eq!(timeline_events(&store, "p1"), vec![0, 3, 6, 5, 2]);
    assert_eq!(timeline_events(&store, "p2"), vec![1, 4]);
    assert!(timeline_events(&store, "p9").is_empty());
}
