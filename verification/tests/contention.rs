use jjj::contention::{
    engagements, is_contended, is_untouched, should_rebalance, solution_authors, Engagement,
};
use jjj::models::{Event, EventType, Problem, ProblemStatus, Solution, SolutionStatus};

const NOW: i64 = 1_780_000_000;

fn problem(id: &str, assignee: Option<&str>, claimed_ago_minutes: Option<i64>) -> Problem {
    let mut p = Problem::new(id, &format!("Problem {id}"));
    p.assignee = assignee.map(|s| s.to_string());
    p.claimed_at = claimed_ago_minutes.map(|m| NOW - m * 60);
    p
}

fn solution(id: &str, problem_id: &str, status: SolutionStatus) -> Solution {
    let mut s = Solution::new(id, &format!("Solution {id}"), problem_id);
    s.status = status;
    s
}

fn ttl() -> i64 {
    60 * 60
}

fn authors(pairs: &[(&str, &str)]) -> Vec<(String, String)> {
    pairs.iter().map(|(s, a)| (s.to_string(), a.to_string())).collect()
}

#[test]
fn distinct_authors_on_one_problem_are_contention() {
    let problems = vec![problem("p1", None, None)];
    let solutions = vec![
        solution("s1", "p1", SolutionStatus::Proposed),
        solution("s2", "p1", SolutionStatus::Submitted),
    ];
    let a = authors(&[("s1", "agent-a"), ("s2", "agent-b")]);
    let e = engagements(&problems, &solutions, &a, ttl(), NOW);
    assert_eq!(e[0].actors, vec!["agent-a", "agent-b"]);
    assert_eq!(e[0].live_solutions, 2);
}

#[test]
fn one_agent_iterating_is_not_contention() {
    let problems = vec![problem("p1", None, None)];
    let solutions = vec![
        solution("s1", "p1", SolutionStatus::Withdrawn),
        solution("s2", "p1", SolutionStatus::Proposed),
    ];
    let a = authors(&[("s1", "agent-a"), ("s2", "agent-a")]);
    let e = engagements(&problems, &solutions, &a, ttl(), NOW);
    assert_eq!(e[0].actors.len(), 1);
}

#[test]
fn withdrawn_solutions_do_not_count() {
    let problems = vec![problem("p1", None, None)];
    let solutions = vec![
        solution("s1", "p1", SolutionStatus::Withdrawn),
        solution("s2", "p1", SolutionStatus::Withdrawn),
    ];
    let a = authors(&[("s1", "agent-a"), ("s2", "agent-b")]);
    let e = engagements(&problems, &solutions, &a, ttl(), NOW);
    assert!(e[0].actors.is_empty());
    assert_eq!(e[0].live_solutions, 0);
}

#[test]
fn a_live_claim_counts_but_a_lapsed_one_does_not() {
    let problems = vec![
        problem("p1", Some("agent-a"), Some(5)),
        problem("p2", Some("agent-b"), Some(120)),
    ];
    let e = engagements(&problems, &Vec::new(), &Vec::new(), ttl(), NOW);
    let p1 = e.iter().find(|x| x.problem_id == "p1").unwrap();
    let p2 = e.iter().find(|x| x.problem_id == "p2").unwrap();
    assert!(p1.claimed, "a five-minute-old claim is live");
    assert!(
        !p2.claimed,
        "a two-hour-old claim has lapsed; the agent holding it may be dead"
    );
}

#[test]
fn solved_problems_are_history_not_a_pile_up() {
    let mut p = problem("p1", None, None);
    p.status = ProblemStatus::Solved;
    let solutions = vec![
        solution("s1", "p1", SolutionStatus::Approved),
        solution("s2", "p1", SolutionStatus::Proposed),
    ];
    let a = authors(&[("s1", "agent-a"), ("s2", "agent-b")]);
    let e = engagements(&vec![p], &solutions, &a, ttl(), NOW);
    assert!(e.is_empty(), "a solved problem is not in play");
}

#[test]
fn most_contended_comes_first() {
    let problems = vec![
        problem("p1", None, None),
        problem("p2", None, None),
        problem("p3", None, None),
    ];
    let solutions = vec![
        solution("s1", "p2", SolutionStatus::Proposed),
        solution("s2", "p2", SolutionStatus::Proposed),
        solution("s3", "p3", SolutionStatus::Proposed),
    ];
    let a = authors(&[("s1", "a"), ("s2", "b"), ("s3", "a")]);
    let e = engagements(&problems, &solutions, &a, ttl(), NOW);
    assert_eq!(e[0].problem_id, "p2");
    assert_eq!(e.last().unwrap().actors.len(), 0);
}

#[test]
fn ties_are_broken_by_problem_id() {
    let problems = vec![problem("p9", None, None), problem("p3", None, None)];
    let e = engagements(&problems, &Vec::new(), &Vec::new(), ttl(), NOW);
    assert_eq!(e[0].problem_id, "p3");
    assert_eq!(e[1].problem_id, "p9");
}

#[test]
fn a_solution_without_an_author_falls_back_to_its_assignee() {
    let problems = vec![problem("p1", None, None)];
    let mut s = solution("s1", "p1", SolutionStatus::Proposed);
    s.assignee = Some("agent-z".to_string());
    let e = engagements(&problems, &vec![s], &Vec::new(), ttl(), NOW);
    assert_eq!(e[0].actors, vec!["agent-z"]);
}

#[test]
fn contention_flags_follow_the_actor_count() {
    let two = Engagement {
        problem_id: "p1".to_string(),
        title: "t".to_string(),
        actors: vec!["a".to_string(), "b".to_string()],
        live_solutions: 2,
        claimed: false,
    };
    let none = Engagement {
        problem_id: "p2".to_string(),
        title: "t".to_string(),
        actors: Vec::new(),
        live_solutions: 0,
        claimed: false,
    };
    assert!(is_contended(&two));
    assert!(!is_contended(&none));
    assert!(is_untouched(&none));
    assert!(!is_untouched(&two));
    assert!(should_rebalance(&vec![two, none]));
}

#[test]
fn authors_come_from_creation_events() {
    let events = vec![
        Event::new(EventType::SolutionCreated, "s1", "agent-a", 1),
        Event::new(EventType::SolutionSubmitted, "s1", "agent-b", 2),
        Event::new(EventType::SolutionCreated, "s2", "", 3),
        Event::new(EventType::SolutionCreated, "s3", "agent-c", 4),
    ];
    assert_eq!(
        solution_authors(&events),
        vec![("s1".to_string(), "agent-a".to_string()), ("s3".to_string(), "agent-c".to_string())]
    );
}
