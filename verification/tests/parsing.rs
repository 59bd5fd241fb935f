use jjj::models::{Priority, ProblemStatus, Severity};
use jjj::parsing::{
    is_jjj_owned_file, parse_bug_status, parse_feature_status, parse_issue_number,
    parse_priority, parse_reviewer_spec, parse_severity, reclaim_notice,
    valid_transitions_for_problem, BugStatus, FeatureStatus,
};
use jjj::store::JjjError;

fn validation(m: &str) -> JjjError {
    JjjError::Validation(m.to_string())
}

#[test]
fn priorities_and_severities_ignore_case() {
    assert_eq!(parse_priority("HIGH").unwrap(), Priority::High);
    assert_eq!(parse_priority("Low").unwrap(), Priority::Low);
    assert_eq!(
        parse_priority("urgent").unwrap_err(),
        validation("Invalid priority: urgent. Use low, medium, high, or critical")
    );
    assert_eq!(parse_severity("Critical").unwrap(), Severity::Critical);
    assert_eq!(
        parse_severity("meh").unwrap_err(),
        validation("Invalid severity: meh. Use low, medium, high, or critical")
    );
}

#[test]
fn statuses_accept_several_spellings() {
    assert_eq!(parse_bug_status("In-Progress").unwrap(), BugStatus::InProgress);
    assert_eq!(parse_bug_status("wont_fix").unwrap(), BugStatus::WontFix);
    assert_eq!(
        parse_bug_status("gone").unwrap_err(),
        validation("Invalid status: gone. Use new, confirmed, inprogress, fixed, closed, wontfix, or duplicate")
    );
    assert_eq!(parse_feature_status("REVIEW").unwrap(), FeatureStatus::Review);
    assert_eq!(parse_feature_status("in_progress").unwrap(), FeatureStatus::InProgress);
    assert_eq!(
        parse_feature_status("later").unwrap_err(),
        validation("Invalid status: later. Use backlog, inprogress, review, done, or blocked")
    );
}

#[test]
fn problem_transitions_are_listed() {
    assert_eq!(valid_transitions_for_problem(&ProblemStatus::Open), "in_progress, solved, dissolved");
    assert_eq!(valid_transitions_for_problem(&ProblemStatus::Solved), "open");
}

#[test]
fn critic_specs_name_a_person_and_a_severity() {
    assert_eq!(parse_reviewer_spec("@bob"), ("bob".to_string(), Severity::Low));
    assert_eq!(parse_reviewer_spec("bob:HIGH"), ("bob".to_string(), Severity::High));
    assert_eq!(parse_reviewer_spec("@@carol:whatever"), ("carol".to_string(), Severity::Low));
}

#[test]
fn issue_numbers_allow_a_hash() {
    assert_eq!(parse_issue_number("#123").unwrap(), 123);
    assert_eq!(parse_issue_number("  45 ").unwrap(), 45);
    assert_eq!(
        parse_issue_number("abc").unwrap_err(),
        validation("Invalid issue number: 'abc'. Use a number like '#123' or '123'.")
    );
    assert!(parse_issue_number("").is_err());
}

#[test]
fn owned_files_are_markdown() {
    assert!(is_jjj_owned_file("problems/abc.md"));
    assert!(!is_jjj_owned_file("problems/abc.toml"));
    assert!(!is_jjj_owned_file("dir.md/.md"));
    assert!(!is_jjj_owned_file("README"));
}

#[test]
fn reclaim_notices_only_for_someone_else() {
    assert_eq!(reclaim_notice("abcdefgh", None, "me"), None);
    assert_eq!(reclaim_notice("abcdefgh", Some("me"), "me"), None);
    assert_eq!(
        reclaim_notice("abcdefgh", Some("you"), "me"),
        Some("reclaimed abcdef from you — their claim had lapsed".to_string())
    );
}
