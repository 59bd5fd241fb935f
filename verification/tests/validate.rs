use jjj::validate::{validate, CritiqueRefs, ProblemRefs, SolutionRefs, ValidationError};

fn problem(id: &str, parent: Option<&str>, milestone: Option<&str>) -> ProblemRefs {
    ProblemRefs {
        id: id.to_string(),
        parent_id: parent.map(|s| s.to_string()),
        milestone_id: milestone.map(|s| s.to_string()),
    }
}

fn solution(id: &str, problem_id: &str, supersedes: Option<&str>) -> SolutionRefs {
    SolutionRefs {
        id: id.to_string(),
        problem_id: problem_id.to_string(),
        supersedes: supersedes.map(|s| s.to_string()),
    }
}

fn critique(id: &str, solution_id: &str) -> CritiqueRefs {
    CritiqueRefs { id: id.to_string(), solution_id: solution_id.to_string() }
}

fn run(p: Vec<ProblemRefs>, s: Vec<SolutionRefs>, c: Vec<CritiqueRefs>, m: Vec<String>) -> Vec<ValidationError> {
    validate(&p, &s, &c, &m)
}

#[test]
fn test_validation_catches_missing_refs() {
    let errors = run(vec![], vec![solution("s1", "p999", None)], vec![], vec![]);
    assert_eq!(errors.len(), 1);
    assert_eq!(errors[0].entity_id, "s1");
    assert!(errors[0].message.contains("p999"));
    assert!(errors[0].message.contains("non-existent problem"));
}

#[test]
fn test_validation_passes_for_valid_data() {
    let errors = run(vec![problem("p1", None, None)], vec![solution("s1", "p1", None)], vec![], vec![]);
    assert!(errors.is_empty(), "Expected no validation errors but got: {:?}", errors);
}

#[test]
fn test_validation_catches_missing_parent_problem() {
    let errors = run(vec![problem("p1", Some("p999"), None)], vec![], vec![], vec![]);
    assert_eq!(errors.len(), 1);
    assert_eq!(errors[0].entity_id, "p1");
    assert!(errors[0].message.contains("parent problem"));
    assert!(errors[0].message.contains("p999"));
}

#[test]
fn test_validation_catches_missing_milestone() {
    let errors = run(vec![problem("p1", None, Some("m999"))], vec![], vec![], vec![]);
    assert_eq!(errors.len(), 1);
    assert_eq!(errors[0].entity_id, "p1");
    assert!(errors[0].message.contains("milestone"));
    assert!(errors[0].message.contains("m999"));
}

#[test]
fn test_validation_catches_missing_supersedes() {
    let errors = run(
        vec![problem("p1", None, None)],
        vec![solution("s1", "p1", Some("s999"))],
        vec![],
        vec![],
    );
    assert_eq!(errors.len(), 1);
    assert_eq!(errors[0].entity_id, "s1");
    assert!(errors[0].message.contains("supersedes"));
    assert!(errors[0].message.contains("s999"));
}

#[test]
fn test_validation_catches_missing_solution_for_critique() {
    let errors = run(vec![], vec![], vec![critique("c1", "s999")], vec![]);
    assert_eq!(errors.len(), 1);
    assert_eq!(errors[0].entity_id, "c1");
    assert!(errors[0].message.contains("solution"));
    assert!(errors[0].message.contains("s999"));
}

#[test]
fn test_validation_catches_parent_cycle() {
    let errors = run(
        vec![
            problem("p1", Some("p3"), None),
            problem("p2", Some("p1"), None),
            problem("p3", Some("p2"), None),
        ],
        vec![],
        vec![],
        vec![],
    );
    let cycle_errors: Vec<_> = errors.iter().filter(|e| e.message.contains("cycle")).collect();
    assert_eq!(cycle_errors.len(), 3, "Expected 3 cycle errors, got: {:?}", cycle_errors);
}

#[test]
fn test_validation_valid_parent_chain() {
    let errors = run(
        vec![problem("p1", None, None), problem("p2", Some("p1"), None), problem("p3", Some("p2"), None)],
        vec![],
        vec![],
        vec![],
    );
    assert!(errors.is_empty(), "Expected no errors but got: {:?}", errors);
}

#[test]
fn test_validation_multiple_errors() {
    let errors = run(
        vec![problem("p1", Some("p999"), Some("m999"))],
        vec![solution("s1", "p888", None)],
        vec![],
        vec![],
    );
    assert_eq!(errors.len(), 3, "Expected 3 errors but got: {:?}", errors);
}

#[test]
fn self_parent_is_a_cycle() {
    let errors = run(vec![problem("p1", Some("p1"), None)], vec![], vec![], vec![]);
    assert_eq!(errors.len(), 1);
    assert_eq!(errors[0].message, "has a cycle in its parent chain");
}

#[test]
fn milestones_that_exist_are_fine() {
    let errors = run(vec![problem("p1", None, Some("m1"))], vec![], vec![], vec!["m1".to_string()]);
    assert!(errors.is_empty());
}
