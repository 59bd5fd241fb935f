use jjj::listing::{
    list_critiques, list_problems, list_solutions, parse_order, CritiqueFilter, ListOrder,
    ProblemFilter, SolutionFilter,
};
use jjj::models::{
    Critique, CritiqueStatus, Priority, Problem, ProblemStatus, Severity, Solution, SolutionStatus,
};

fn problem(id: &str, title: &str, priority: Priority, status: ProblemStatus, created: i64) -> Problem {
    let mut p = Problem::new(id, title);
    p.priority = priority;
    p.status = status;
    p.created_at = created;
    p
}

fn problems() -> Vec<Problem> {
    let mut a = problem("p1", "beta", Priority::Low, ProblemStatus::Open, 10);
    a.assignee = Some("Alice Smith".to_string());
    a.tags = vec!["UI".to_string()];
    a.milestone_id = Some("m1".to_string());
    let b = problem("p2", "Alpha", Priority::Critical, ProblemStatus::InProgress, 30);
    let c = problem("p3", "gamma", Priority::High, ProblemStatus::Solved, 20);
    let mut d = problem("p4", "delta", Priority::Critical, ProblemStatus::Open, 40);
    d.tags = vec!["backend".to_string(), "ui".to_string()];
    vec![a, b, c, d]
}

fn no_filter() -> ProblemFilter {
    ProblemFilter { status: None, milestone: None, assignee: None, tag: None, matching: None }
}

#[test]
fn sort_names() {
    assert_eq!(parse_order("priority"), ListOrder::Priority);
    assert_eq!(parse_order("title"), ListOrder::Title);
    assert_eq!(parse_order("whatever"), ListOrder::Given);
}

#[test]
fn problems_default_to_active_ones_in_stored_order() {
    assert_eq!(list_problems(&problems(), &no_filter(), ListOrder::Given), vec![0, 1, 3]);
    let mut f = no_filter();
    f.status = Some(ProblemStatus::Solved);
    assert_eq!(list_problems(&problems(), &f, ListOrder::Given), vec![2]);
}

#[test]
fn problem_sorts_are_stable() {
    let ps = problems();
    let f = no_filter();
    assert_eq!(list_problems(&ps, &f, ListOrder::Priority), vec![1, 3, 0]);
    assert_eq!(list_problems(&ps, &f, ListOrder::Created), vec![3, 1, 0]);
    assert_eq!(list_problems(&ps, &f, ListOrder::Title), vec![1, 0, 3]);
    assert_eq!(list_problems(&ps, &f, ListOrder::Status), vec![0, 3, 1]);
}

#[test]
fn problem_filters_combine() {
    let ps = problems();
    let mut f = no_filter();
    f.assignee = Some("SMITH".to_string());
    assert_eq!(list_problems(&ps, &f, ListOrder::Given), vec![0]);
    let mut f = no_filter();
    f.tag = Some("Ui".to_string());
    assert_eq!(list_problems(&ps, &f, ListOrder::Given), vec![0, 3]);
    let mut f = no_filter();
    f.milestone = Some("m1".to_string());
    assert_eq!(list_problems(&ps, &f, ListOrder::Given), vec![0]);
    let mut f = no_filter();
    f.matching = Some(vec!["p4".to_string(), "p3".to_string()]);
    assert_eq!(list_problems(&ps, &f, ListOrder::Given), vec![3]);
}

fn solutions() -> Vec<Solution> {
    let mut a = Solution::new("s1", "Zeta", "p1");
    a.assignee = Some("bob".to_string());
    a.created_at = 5;
    let mut b = Solution::new("s2", "eta", "p2");
    b.status = SolutionStatus::Withdrawn;
    b.created_at = 9;
    let mut c = Solution::new("s3", "Theta", "p1");
    c.status = SolutionStatus::Submitted;
    c.created_at = 7;
    vec![a, b, c]
}

#[test]
fn solution_listings() {
    let ss = solutions();
    let all = SolutionFilter { problem: None, status: None, assignee: None, matching: None };
    assert_eq!(list_solutions(&ss, &all, ListOrder::Given), vec![0, 1, 2]);
    assert_eq!(list_solutions(&ss, &all, ListOrder::Priority), vec![0, 1, 2]);
    assert_eq!(list_solutions(&ss, &all, ListOrder::Status), vec![0, 2, 1]);
    assert_eq!(list_solutions(&ss, &all, ListOrder::Created), vec![1, 2, 0]);
    assert_eq!(list_solutions(&ss, &all, ListOrder::Title), vec![1, 2, 0]);
    let by_problem = SolutionFilter { problem: Some("p1".to_string()), status: None, assignee: None, matching: None };
    assert_eq!(list_solutions(&ss, &by_problem, ListOrder::Given), vec![0, 2]);
    let by_person = SolutionFilter { problem: None, status: None, assignee: Some("@BO".to_string()), matching: None };
    assert_eq!(list_solutions(&ss, &by_person, ListOrder::Given), vec![0]);
}

#[test]
fn critique_listings_keep_stored_order() {
    let mut a = Critique::new("c1", "x", "s1", Severity::Low);
    a.reviewer = Some("bob".to_string());
    let mut b = Critique::new("c2", "y", "s2", Severity::Low);
    b.status = CritiqueStatus::Dismissed;
    let mut c = Critique::new("c3", "z", "s1", Severity::High);
    c.reviewer = Some("bobby".to_string());
    let cs = vec![a, b, c];
    let all = CritiqueFilter { solution: None, status: None, critic: None, matching: None };
    assert_eq!(list_critiques(&cs, &all), vec![0, 1, 2]);
    let by = CritiqueFilter { solution: None, status: None, critic: Some("@bob".to_string()), matching: None };
    assert_eq!(list_critiques(&cs, &by), vec![0]);
    let open_s1 = CritiqueFilter {
        solution: Some("s1".to_string()),
        status: Some(CritiqueStatus::Open),
        critic: None,
        matching: None,
    };
    assert_eq!(list_critiques(&cs, &open_s1), vec![0, 2]);
}
