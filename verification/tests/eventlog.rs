use jjj::eventlog::{list_positions, log_issues, EventFilter, LogIssue};
use jjj::models::{Event, EventType, Problem, ProblemStatus, Solution, SolutionStatus};
use jjj::parsing::parse_date_filter;
use jjj::store::MetadataStore;

fn store(problems: Vec<Problem>, solutions: Vec<Solution>, events: Vec<Event>) -> MetadataStore {
    MetadataStore {
        problems,
        solutions,
        critiques: Vec::new(),
        milestones: Vec::new(),
        events,
        user: None,
        automation: Vec::new(),
        local_automation: None,
        settings: Vec::new(),
    }
}

fn no_filter() -> EventFilter {
    EventFilter {
        since: None,
        from: None,
        to: None,
        problem: None,
        solution: None,
        event_type: None,
        search: None,
        limit: usize::MAX,
    }
}

#[test]
fn a_consistent_log_has_no_issues() {
    let mut p = Problem::new("p1", "bug");
    p.status = ProblemStatus::Solved;
    let events = vec![
        Event::new(EventType::ProblemCreated, "p1", "alice", 10),
        Event::new(EventType::ProblemSolved, "p1", "alice", 20),
    ];
    assert!(log_issues(&store(vec![p], Vec::new(), events)).is_empty());
}

#[test]
fn every_kind_of_inconsistency_is_reported_in_order() {
    let mut p = Problem::new("p1", "bug");
    p.status = ProblemStatus::Dissolved;
    let mut s = Solution::new("s1", "fix", "p1");
    s.status = SolutionStatus::Approved;
    let events = vec![
        Event::new(EventType::ProblemCreated, "p1", "alice", 50),
        Event::new(EventType::SolutionSubmitted, "ghost", "bob", 40),
    ];
    let issues = log_issues(&store(vec![p], vec![s], events));
    assert_eq!(
        issues,
        vec![
            LogIssue::OutOfOrder {
                entity: "ghost".to_string(),
                when: 40,
                after_entity: "p1".to_string(),
                after_when: 50
            },
            LogIssue::UnknownEntity {
                entity: "ghost".to_string(),
                event_type: EventType::SolutionSubmitted
            },
            LogIssue::NoCreationEvent { id: "s1".to_string() },
            LogIssue::MissingStatusEvent {
                id: "p1".to_string(),
                expected: EventType::ProblemDissolved
            },
            LogIssue::MissingStatusEvent {
                id: "s1".to_string(),
                expected: EventType::SolutionApproved
            },
        ]
    );
}

fn log() -> Vec<Event> {
    let mut e3 = Event::new(EventType::SolutionApproved, "s1", "bob", 1_700_100_000);
    e3.refs = vec!["p1".to_string()];
    e3.rationale = Some("Fixes the Crash".to_string());
    vec![
        Event::new(EventType::ProblemCreated, "p1", "alice", 1_700_000_000),
        Event::new(EventType::SolutionCreated, "s1", "bob", 1_700_050_000),
        e3,
        Event::new(EventType::ProblemCreated, "p2", "alice", 1_700_200_000),
    ]
}

#[test]
fn listing_is_most_recent_first_and_limited() {
    let events = log();
    assert_eq!(list_positions(&events, &no_filter()), vec![3, 2, 1, 0]);
    let mut f = no_filter();
    f.limit = 2;
    assert_eq!(list_positions(&events, &f), vec![3, 2]);
}

#[test]
fn filters_narrow_the_listing() {
    let events = log();
    let mut f = no_filter();
    f.problem = Some("p1".to_string());
    assert_eq!(list_positions(&events, &f), vec![2, 0]);

    let mut f = no_filter();
    f.event_type = Some("created".to_string());
    assert_eq!(list_positions(&events, &f), vec![3, 1, 0]);

    let mut f = no_filter();
    f.search = Some("crash".to_string());
    assert_eq!(list_positions(&events, &f), vec![2]);
}

#[test]
fn date_bounds_use_midnight_utc() {
    // 2023-11-15T00:00:00Z is 1_700_006_400.
    assert_eq!(parse_date_filter("2023-11-15"), Some(1_700_006_400));
    assert_eq!(parse_date_filter("2023-11"), Some(1_698_796_800));
    assert_eq!(parse_date_filter("yesterday"), None);
    let events = log();
    let mut f = no_filter();
    f.from = Some("2023-11-15".to_string());
    assert_eq!(list_positions(&events, &f), vec![3, 2, 1]);
    let mut f = no_filter();
    f.to = Some("2023-11-15".to_string());
    assert_eq!(list_positions(&events, &f), vec![0]);
    let mut f = no_filter();
    f.to = Some("not a date".to_string());
    assert_eq!(list_positions(&events, &f).len(), 4);
}

#[test]
fn since_is_strictly_after_an_instant() {
    let events = log();
    let mut f = no_filter();
    f.since = Some("2023-11-16T22:13:20Z".to_string()); // 1_700_172_800
    assert_eq!(list_positions(&events, &f), vec![3]);
    f.since = Some("2023-11-14T22:13:20Z".to_string()); // 1_700_000_000
    assert_eq!(list_positions(&events, &f), vec![3, 2, 1]);
}
