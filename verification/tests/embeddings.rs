use jjj::embeddings::{
    expand_home, prepare_critique_text, prepare_milestone_text, prepare_problem_text,
    prepare_solution_text,
};

#[test]
fn test_prepare_problem_text() {
    let text = prepare_problem_text("Title", "Description");
    assert_eq!(text, "Title\n\nDescription");
}

#[test]
fn test_prepare_solution_text() {
    let text = prepare_solution_text("Title", "Approach");
    assert_eq!(text, "Title\n\nApproach");
}

#[test]
fn test_prepare_critique_text() {
    let text = prepare_critique_text("Title", "Argument");
    assert_eq!(text, "Title\n\nArgument");
}

#[test]
fn test_prepare_milestone_text() {
    let text = prepare_milestone_text("Title", "Description");
    assert_eq!(text, "Title\n\nDescription");
}

#[test]
fn prepared_text_is_trimmed() {
    assert_eq!(prepare_problem_text("  Title", ""), "Title");
    assert_eq!(prepare_problem_text("", ""), "");
}

#[test]
fn test_shellexpand_home() {
    let expanded = expand_home("~/models/x", Some("/home/u"));
    assert!(!expanded.starts_with('~'));
    assert!(expanded.ends_with("/models/x"));
    assert_eq!(expanded, "/home/u/models/x");
    assert_eq!(expand_home("/abs/path", Some("/home/u")), "/abs/path");
    assert_eq!(expand_home("~/x", None), "~/x");
}
