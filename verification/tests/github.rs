use jjj::github::{
    github_event, import_target, imported_review_ids, issue_action, issue_links, linked_issue,
    linked_pr, linked_problem, pr_body_current, pr_branch, pr_change, push_outcome,
    review_wanted, solution_for_change, thread_location, thread_wanted, IssueAction, ReviewState,
};
use jjj::models::{Critique, EventType, Problem, ProblemStatus, Severity, Solution};
use jjj::store::JjjError;

fn validation(m: &str) -> JjjError {
    JjjError::Validation(m.to_string())
}

#[test]
fn already_imported_reviews_are_skipped() {
    let mut a = Critique::new("c1", "x", "s1", Severity::Low);
    a.github_review_id = Some(11);
    let mut b = Critique::new("c2", "y", "s2", Severity::Low);
    b.github_review_id = Some(22);
    let c = Critique::new("c3", "z", "s1", Severity::Low);
    let mut d = Critique::new("c4", "w", "s1", Severity::Low);
    d.github_review_id = Some(44);
    let existing = imported_review_ids(&vec![a, b, c, d], "s1");
    assert_eq!(existing, vec![11, 44]);
    assert!(!review_wanted(11, ReviewState::ChangesRequested, "fix it", &existing, true));
    assert!(review_wanted(12, ReviewState::ChangesRequested, "fix it", &existing, false));
}

#[test]
fn approvals_follow_the_lgtm_setting_and_empty_comments_are_dropped() {
    let none: Vec<u64> = Vec::new();
    assert!(!review_wanted(1, ReviewState::Approved, "ship it", &none, false));
    assert!(review_wanted(1, ReviewState::Approved, "ship it", &none, true));
    assert!(!review_wanted(1, ReviewState::Commented, "", &none, true));
    assert!(review_wanted(1, ReviewState::Commented, "nit", &none, true));
    assert!(review_wanted(1, ReviewState::Dismissed, "", &none, false));
}

#[test]
fn resolved_or_known_threads_are_skipped() {
    let existing = vec![7];
    assert!(thread_wanted(8, false, &existing));
    assert!(!thread_wanted(8, true, &existing));
    assert!(!thread_wanted(7, false, &existing));
    assert_eq!(thread_location("src/lib.rs", Some(42)), "src/lib.rs:42");
    assert_eq!(thread_location("src/lib.rs", None), "src/lib.rs");
}

#[test]
fn sync_events_carry_the_github_number() {
    let e = github_event(EventType::GithubReviewImported, "c9", "octocat", 17, None, Some("s1"), 5);
    assert_eq!(e.event_type, EventType::GithubReviewImported);
    assert_eq!(e.by, "octocat");
    assert_eq!(e.extra.github_number, Some(17));
    assert_eq!(e.extra.target, Some("s1".to_string()));
    assert_eq!(e.extra.problem, None);
    let e = github_event(EventType::GithubPrCreated, "s1", "sync", 3, Some("p1"), None, 5);
    assert_eq!(e.extra.problem, Some("p1".to_string()));
    assert_eq!(e.extra.target, None);
}

#[test]
fn issues_follow_their_problems() {
    assert_eq!(issue_action(ProblemStatus::Solved, true), IssueAction::Close);
    assert_eq!(issue_action(ProblemStatus::Dissolved, false), IssueAction::Keep);
    assert_eq!(issue_action(ProblemStatus::Open, false), IssueAction::Reopen);
    assert_eq!(issue_action(ProblemStatus::InProgress, true), IssueAction::Keep);
    // One pass settles it: after closing, the issue is closed and nothing is left to do.
    assert_eq!(issue_action(ProblemStatus::Solved, false), IssueAction::Keep);
}

#[test]
fn issue_links_and_lookups() {
    let mut p1 = Problem::new("p1", "one");
    p1.github_issue = Some(5);
    let p2 = Problem::new("p2", "two");
    let mut p3 = Problem::new("p3", "three");
    p3.github_issue = Some(9);
    let ps = vec![p1, p2, p3];
    assert_eq!(issue_links(&ps), vec![("p1".to_string(), 5), ("p3".to_string(), 9)]);
    assert_eq!(linked_problem(&ps, 9), Some(2));
    assert_eq!(linked_problem(&ps, 1), None);
    assert_eq!(linked_issue(&ps[0]), Ok(5));
    assert_eq!(
        linked_issue(&ps[1]),
        Err(validation("Problem 'two' is not linked to a GitHub issue"))
    );
}

#[test]
fn pull_request_preconditions() {
    let mut s = Solution::new("0193abcdef", "Add cache", "p1");
    assert_eq!(linked_pr(&s), Err(validation("Solution 'Add cache' is not linked to a GitHub PR")));
    s.github_pr = Some(31);
    assert_eq!(linked_pr(&s), Ok(31));
    assert_eq!(pr_branch(&s.id), "jjj/s-0193ab");
    assert_eq!(
        pr_change(&s),
        Err(validation("Solution has no attached changes. Attach changes first with 'jjj solution attach'."))
    );
    s.change_ids = vec!["kxyz".to_string(), "kabc".to_string()];
    assert_eq!(pr_change(&s), Ok("kxyz".to_string()));
    let v = vec![s];
    assert_eq!(solution_for_change(&v, " kabc\n"), Ok(0));
    assert_eq!(
        solution_for_change(&v, "knone"),
        Err(validation(
            "No solution specified and current change is not attached to any solution.\nUse 'jjj sync github pr <solution>' to specify."
        ))
    );
}

#[test]
fn importing_needs_an_issue_number() {
    assert_eq!(import_target(Some("#123")), Ok(123));
    assert_eq!(
        import_target(None),
        Err(validation("Please specify an issue number (e.g., '#123' or '123'), or use --all"))
    );
    assert_eq!(
        import_target(Some("twelve")),
        Err(validation("Invalid issue number: 'twelve'. Use a number like '#123' or '123'."))
    );
}

#[test]
fn pushing_reports_failures() {
    assert!(pr_body_current("body\n", "  body"));
    assert!(!pr_body_current("old body", "new body"));
    assert_eq!(push_outcome(0, 0), Ok(true));
    assert_eq!(push_outcome(3, 0), Ok(false));
    assert_eq!(
        push_outcome(2, 1),
        Err(validation("1 of 3 operation(s) failed during push — see errors above"))
    );
}
