use jjj::models::{Critique, CritiqueStatus, Priority, Problem, Severity, Solution, SolutionStatus};
use jjj::status::{
    active_solution, build_next_actions, claim_problem, claim_solution, effective_limit,
    priority_sort_value, shown_count, status_counts, ActionCategory, ActionSubject,
};
use jjj::store::MetadataStore;

fn problem(id: &str, priority: Priority) -> Problem {
    let mut p = Problem::new(id, &format!("Problem {id}"));
    p.priority = priority;
    p
}

fn critique(id: &str, sid: &str, severity: Severity, reviewer: Option<&str>) -> Critique {
    let mut c = Critique::new(id, &format!("Critique {id}"), sid, severity);
    c.reviewer = reviewer.map(|r| r.to_string());
    c
}

fn store() -> MetadataStore {
    let s1 = {
        let mut s = Solution::new("s1", "first fix", "p1");
        s.status = SolutionStatus::Submitted;
        s
    };
    let s2 = {
        let mut s = Solution::new("s2", "second fix", "p2");
        s.critique_ids = vec!["c3".to_string()];
        s
    };
    let s3 = {
        let mut s = Solution::new("s3", "third fix", "p3");
        s.assignee = Some("alice".to_string());
        s
    };
    let mut c3 = critique("c3", "s2", Severity::Low, None);
    c3.status = CritiqueStatus::Addressed;
    MetadataStore {
        problems: vec![
            problem("p1", Priority::High),
            problem("p2", Priority::Low),
            problem("p3", Priority::Medium),
            problem("p4", Priority::Critical),
        ],
        solutions: vec![s1, s2, s3],
        critiques: vec![
            critique("c1", "s1", Severity::Low, None),
            critique("c2", "s1", Severity::High, None),
            c3,
            critique("c4", "s1", Severity::Medium, Some("alice")),
            critique("c5", "s3", Severity::Low, Some("bob")),
        ],
        milestones: Vec::new(),
        events: Vec::new(),
        user: Some("alice".to_string()),
        automation: Vec::new(),
        local_automation: None,
        settings: Vec::new(),
    }
}

#[test]
fn next_actions_come_by_kind_then_priority() {
    let actions = build_next_actions(&store(), "alice", false);
    let kinds: Vec<(ActionCategory, &str)> =
        actions.iter().map(|a| (a.category, a.entity_id.as_str())).collect();
    assert_eq!(
        kinds,
        vec![
            (ActionCategory::Blocked, "s1"),
            (ActionCategory::Blocked, "s3"),
            (ActionCategory::Ready, "s2"),
            (ActionCategory::Review, "c4"),
            (ActionCategory::Waiting, "s3"),
            (ActionCategory::Todo, "p4"),
        ]
    );
}

#[test]
fn a_blocked_solution_points_at_its_worst_critique() {
    let actions = build_next_actions(&store(), "alice", false);
    let b = &actions[0];
    assert_eq!(b.entity_type, ActionSubject::Solution);
    assert_eq!(b.summary, "3 open critique(s)");
    assert_eq!(b.suggested_command, "jjj critique show c2");
    assert_eq!(b.priority, Priority::High);
    let ids: Vec<&str> = b.details.iter().map(|d| d.id.as_str()).collect();
    assert_eq!(ids, vec!["c1", "c2", "c4"]);
}

#[test]
fn ready_review_waiting_and_todo_items_say_what_to_do() {
    let actions = build_next_actions(&store(), "alice", false);
    assert_eq!(actions[2].summary, "All critiques resolved");
    assert_eq!(actions[2].suggested_command, "jjj solution accept s2");
    assert_eq!(actions[3].summary, "Review requested on s1");
    assert_eq!(actions[3].priority, Priority::High);
    assert_eq!(actions[4].summary, "Awaiting review from @bob");
    assert_eq!(actions[4].suggested_command, "");
    assert_eq!(actions[5].summary, "No solutions proposed");
    assert_eq!(actions[5].suggested_command, "jjj solution new \"title\" --problem p4");
}

#[test]
fn only_mine_drops_the_requests_of_others() {
    let actions = build_next_actions(&store(), "alice", true);
    assert_eq!(actions.len(), 5);
    assert!(actions.iter().all(|a| a.category != ActionCategory::Review));
}

#[test]
fn the_same_kind_is_sorted_most_urgent_first() {
    let mut st = store();
    st.solutions.clear();
    st.critiques.clear();
    let actions = build_next_actions(&st, "alice", false);
    let ids: Vec<&str> = actions.iter().map(|a| a.entity_id.as_str()).collect();
    assert_eq!(ids, vec!["p4", "p1", "p3", "p2"]);
}

#[test]
fn priorities_rank_critical_highest() {
    assert_eq!(priority_sort_value(&Priority::Critical), 3);
    assert_eq!(priority_sort_value(&Priority::Low), 0);
}

#[test]
fn limits_and_counts() {
    assert_eq!(effective_limit(false, None), 5);
    assert_eq!(effective_limit(false, Some(2)), 2);
    assert_eq!(effective_limit(true, Some(2)), usize::MAX);
    assert_eq!(shown_count(None, 4), 1);
    assert_eq!(shown_count(None, 0), 0);
    assert_eq!(shown_count(Some(0), 4), 4);
    assert_eq!(shown_count(Some(9), 4), 4);
    assert_eq!(shown_count(Some(2), 4), 2);
    assert_eq!(status_counts(&store()), (4, 1, 4));
}

#[test]
fn the_active_solution_is_the_first_holding_the_change() {
    let mut a = Solution::new("s1", "a", "p1");
    a.change_ids = vec!["kx".to_string()];
    let mut b = Solution::new("s2", "b", "p1");
    b.change_ids = vec!["ky".to_string(), "kz".to_string()];
    let v = vec![a, b];
    assert_eq!(active_solution(&v, "kz"), Some(1));
    assert_eq!(active_solution(&v, "nope"), None);
}

#[test]
fn claiming_takes_over_and_reports_the_previous_holder() {
    let mut p = Problem::new("0123456789", "p");
    assert_eq!(claim_problem(&mut p, "alice", 100), None);
    assert_eq!(p.assignee, Some("alice".to_string()));
    assert_eq!(p.claimed_at, Some(100));
    assert_eq!(claim_problem(&mut p, "alice", 200), None);
    assert_eq!(
        claim_problem(&mut p, "bob", 300),
        Some("reclaimed 012345 from alice — their claim had lapsed".to_string())
    );
    let mut s = Solution::new("s1", "x", "p1");
    s.assignee = Some("carol".to_string());
    assert_eq!(
        claim_solution(&mut s, "dave", 5),
        Some("reclaimed s1 from carol — their claim had lapsed".to_string())
    );
    assert_eq!(s.assignee, Some("dave".to_string()));
}
