use jjj::creation::{
    add_tag, change_description, checked_title, duplicate_title, normalize_tags,
    open_problem_choices, parse_choice, remove_tag, solution_created_event, sort_strings,
};
use jjj::models::{EventType, Problem, ProblemStatus};
use jjj::store::JjjError;

fn strings(v: &[&str]) -> Vec<String> {
    v.iter().map(|s| s.to_string()).collect()
}

#[test]
fn titles_are_trimmed_and_required() {
    assert_eq!(checked_title("  Fix login  "), Ok("Fix login".to_string()));
    assert_eq!(checked_title(" \t"), Err(JjjError::Validation("Title cannot be empty.".to_string())));
}

#[test]
fn duplicate_titles_match_ignoring_case() {
    let ps = vec![Problem::new("p1", "Fix Login"), Problem::new("p2", "Other")];
    assert_eq!(duplicate_title(&ps, "fix login"), Some(0));
    assert_eq!(duplicate_title(&ps, "fix logout"), None);
}

#[test]
fn tags_are_trimmed_sorted_and_unique() {
    assert_eq!(
        normalize_tags(&strings(&[" ui ", "backend", "", "ui", "api"])),
        strings(&["api", "backend", "ui"])
    );
}

#[test]
fn adding_and_removing_tags() {
    let mut tags = strings(&["ui", "backend"]);
    add_tag(&mut tags, "  API ");
    assert_eq!(tags, strings(&["API", "backend", "ui"]));
    add_tag(&mut tags, "Backend");
    assert_eq!(tags, strings(&["API", "backend", "ui"]));
    add_tag(&mut tags, "   ");
    assert_eq!(tags.len(), 3);
    remove_tag(&mut tags, " api");
    assert_eq!(tags, strings(&["backend", "ui"]));
    remove_tag(&mut tags, "nothing");
    assert_eq!(tags, strings(&["backend", "ui"]));
    assert_eq!(sort_strings(strings(&["b", "a", "b", "A"])), strings(&["A", "a", "b", "b"]));
}

#[test]
fn choosing_a_problem_for_a_new_solution() {
    let mut solved = Problem::new("p1", "done");
    solved.status = ProblemStatus::Solved;
    let ps = vec![solved, Problem::new("p2", "open"), Problem::new("p3", "also")];
    assert_eq!(open_problem_choices(&ps), Ok(vec![1, 2]));
    assert_eq!(
        open_problem_choices(&vec![]),
        Err(JjjError::Validation(
            "No open problems found. Create a problem first with: jjj problem new \"title\"".to_string()
        ))
    );
    assert_eq!(parse_choice(" 2 ", 3), Ok(1));
    assert_eq!(parse_choice("x", 3), Err(JjjError::Validation("Invalid choice".to_string())));
    assert_eq!(parse_choice("4", 3), Err(JjjError::Validation("Invalid selection".to_string())));
}

#[test]
fn a_new_solution_describes_its_change_and_logs_its_creation() {
    assert_eq!(
        change_description("s1", "Cache it", "p1", "Slow page"),
        "s1: Cache it\n\nProblem: p1 - Slow page"
    );
    let e = solution_created_event("s2", "p1", Some("s1"), "alice", 9);
    assert_eq!(e.event_type, EventType::SolutionCreated);
    assert_eq!(e.extra.problem, Some("p1".to_string()));
    assert_eq!(e.extra.supersedes, Some("s1".to_string()));
    assert_eq!(e.by, "alice");
}
