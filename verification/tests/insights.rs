use jjj::insights::{count_type, insights, spans, tally, top_five};
use jjj::models::{Event, EventType};

fn ev(t: EventType, entity: &str, by: &str, when: i64) -> Event {
    Event::new(t, entity, by, when)
}

fn refs(mut e: Event, r: &[&str]) -> Event {
    e.refs = r.iter().map(|s| s.to_string()).collect();
    e
}

fn log() -> Vec<Event> {
    vec![
        ev(EventType::ProblemCreated, "p1", "alice", 100),
        ev(EventType::ProblemCreated, "p2", "bob", 150),
        refs(ev(EventType::SolutionCreated, "s1", "alice", 200), &["p1"]),
        refs(ev(EventType::CritiqueRaised, "c1", "carol", 300), &["s1", "p1"]),
        ev(EventType::CritiqueAddressed, "c1", "alice", 360),
        refs(ev(EventType::SolutionApproved, "s1", "bob", 400), &["p1"]),
        ev(EventType::ProblemSolved, "p1", "bob", 1100),
        refs(ev(EventType::SolutionWithdrawn, "s2", "", 1200), &["p2"]),
    ]
}

#[test]
fn counts_by_type() {
    let events = log();
    assert_eq!(count_type(&events, EventType::ProblemCreated), 2);
    assert_eq!(count_type(&events, EventType::GithubPrMerged), 0);
}

#[test]
fn durations_run_from_opening_to_closing() {
    let events = log();
    assert_eq!(spans(&events, false), vec![1000]);
    assert_eq!(spans(&events, true), vec![60]);
    let unopened = vec![ev(EventType::ProblemSolved, "p9", "x", 10)];
    assert!(spans(&unopened, false).is_empty());
    let backwards = vec![
        ev(EventType::ProblemCreated, "p1", "x", 500),
        ev(EventType::ProblemSolved, "p1", "x", 100),
    ];
    assert!(spans(&backwards, false).is_empty());
}

#[test]
fn a_tally_keeps_first_appearance_order() {
    let keys: Vec<String> = ["b", "a", "b", "c", "a", "b"].iter().map(|s| s.to_string()).collect();
    assert_eq!(
        tally(&keys),
        vec![("b".to_string(), 3), ("a".to_string(), 2), ("c".to_string(), 1)]
    );
}

#[test]
fn the_top_five_break_ties_by_first_appearance() {
    let t: Vec<(String, usize)> = [("a", 1), ("b", 3), ("c", 1), ("d", 2), ("e", 1), ("f", 3), ("g", 1)]
        .iter()
        .map(|(k, n)| (k.to_string(), *n))
        .collect();
    let top: Vec<(String, usize)> = top_five(&t);
    let names: Vec<&str> = top.iter().map(|(k, _)| k.as_str()).collect();
    assert_eq!(names, vec!["b", "f", "d", "a", "c"]);
}

#[test]
fn the_report_figures() {
    let r = insights(&log());
    assert_eq!(r.total_events, 8);
    assert_eq!(r.approved, 1);
    assert_eq!(r.withdrawn, 1);
    assert_eq!(r.total_critiques, 1);
    assert_eq!(r.total_solutions, 1);
    assert_eq!(r.solve_durations, vec![1000]);
    assert_eq!(r.critique_durations, vec![60]);
    assert_eq!(
        r.top_contributors,
        vec![("alice".to_string(), 3), ("bob".to_string(), 3), ("carol".to_string(), 1)]
    );
    assert_eq!(
        r.active_problems,
        vec![("p1".to_string(), 5), ("p2".to_string(), 2), ("s1".to_string(), 1)]
    );
}
