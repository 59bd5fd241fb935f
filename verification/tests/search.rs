use jjj::models::EventType;
use jjj::search::{
    create_snippet, parse_event_type, sanitize_fts_query, should_search, try_create_snippet,
};

#[test]
fn queries_are_quoted_word_by_word() {
    assert_eq!(sanitize_fts_query("login bug"), "\"login\" \"bug\"");
    assert_eq!(sanitize_fts_query("  -x AND ^y "), "\"-x\" \"AND\" \"^y\"");
    assert_eq!(sanitize_fts_query("say \"hi\""), "\"say\" \"\"\"hi\"\"\"");
    assert_eq!(sanitize_fts_query("   "), "\"\"");
}

#[test]
fn snippets_come_from_the_field_that_matches() {
    assert_eq!(create_snippet("Title here", "the body mentions cache", "", "Cache misses"), "the body mentions cache");
    assert_eq!(create_snippet("Title", "", "fallback", "nothing"), "Title");
    assert_eq!(create_snippet("", "", "fallback", "nothing"), "fallback");
}

#[test]
fn long_snippets_are_cut_at_197_bytes() {
    let long = "a".repeat(250);
    let s = create_snippet(&long, "", "", "a");
    assert_eq!(s.len(), 200);
    assert!(s.ends_with("..."));
    let exactly = "b".repeat(200);
    assert_eq!(create_snippet(&exactly, "", "", "b"), exactly);
    // A two-byte character straddling byte 197 leaves no place to cut.
    let awkward = format!("{}é{}", "c".repeat(196), "c".repeat(10));
    assert_eq!(try_create_snippet(&awkward, "", "", "c"), None);
}

#[test]
fn event_type_names_decode_with_legacy_aliases() {
    assert_eq!(parse_event_type("problem_solved"), EventType::ProblemSolved);
    assert_eq!(parse_event_type("solution_reviewed"), EventType::SolutionSubmitted);
    assert_eq!(parse_event_type("solution_accepted"), EventType::SolutionApproved);
    assert_eq!(parse_event_type("solution_refuted"), EventType::SolutionWithdrawn);
    assert_eq!(parse_event_type("conflict_resolved"), EventType::ConflictResolved);
    assert_eq!(parse_event_type("something_else"), EventType::ProblemCreated);
}

#[test]
fn type_filters() {
    assert!(should_search(None, "problem"));
    assert!(should_search(Some("problem"), "problem"));
    assert!(!should_search(Some("solution"), "problem"));
}
