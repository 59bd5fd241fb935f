use jjj::conflicts::{
    conflict_dirs_exec, conflict_entry, frontmatter_title, pick_conflict, resolution_event,
    resolve_content, side_label, sort_by_path, ConflictInfo,
};
use jjj::merge::ConflictSide;
use jjj::models::EventType;
use jjj::store::JjjError;

const CONFLICTED: &str =
    "---\ntitle: \"Fix the parser\"\n---\n<<<<<<< local\nmine\n=======\ntheirs\n>>>>>>> remote";

fn info(id: &str, path: &str) -> ConflictInfo {
    ConflictInfo {
        entity_type: "problem".to_string(),
        id: id.to_string(),
        title: "t".to_string(),
        path: path.to_string(),
    }
}

#[test]
fn titles_come_from_the_frontmatter_unquoted() {
    assert_eq!(frontmatter_title(CONFLICTED), Some("Fix the parser".to_string()));
    assert_eq!(frontmatter_title("no frontmatter"), None);
    assert_eq!(frontmatter_title("---\nstatus: open\n---\ntitle: body"), None);
}

#[test]
fn only_conflicted_markdown_files_are_listed() {
    let e = conflict_entry("problems", "problem", "abc.md", "abc", CONFLICTED).unwrap();
    assert_eq!(e.entity_type, "problem");
    assert_eq!(e.id, "abc");
    assert_eq!(e.title, "Fix the parser");
    assert_eq!(e.path, "problems/abc.md");
    assert!(conflict_entry("problems", "problem", "abc.txt", "abc", CONFLICTED).is_none());
    assert!(conflict_entry("problems", "problem", "abc.md", "abc", "clean").is_none());
    let untitled = conflict_entry("findings", "finding", "f.md", "f", "<<<<<<< x\n>>>>>>> y").unwrap();
    assert_eq!(untitled.title, "(untitled)");
}

#[test]
fn five_directories_are_scanned() {
    let dirs = conflict_dirs_exec();
    assert_eq!(dirs.len(), 5);
    assert_eq!(dirs[0], ("problems", "problem"));
    assert_eq!(dirs[4], ("findings", "finding"));
}

#[test]
fn conflicts_are_listed_by_path() {
    let sorted = sort_by_path(vec![
        info("b", "solutions/b.md"),
        info("a", "problems/a.md"),
        info("c", "critiques/c.md"),
    ]);
    let paths: Vec<&str> = sorted.iter().map(|c| c.path.as_str()).collect();
    assert_eq!(paths, vec!["critiques/c.md", "problems/a.md", "solutions/b.md"]);
}

#[test]
fn picking_needs_a_full_id_or_a_long_prefix() {
    let cs = vec![info("0193a1b2c3d4", "p/1"), info("0193a1b2ffff", "p/2"), info("xyz", "p/3")];
    assert_eq!(pick_conflict(&cs, "xyz").unwrap(), 2);
    assert_eq!(pick_conflict(&cs, "0193a1b2c").unwrap(), 0);
    assert_eq!(
        pick_conflict(&cs, "xy").unwrap_err(),
        JjjError::Validation("No unresolved conflict matches 'xy'. Run `jjj conflicts` to list them.".to_string())
    );
    assert_eq!(
        pick_conflict(&cs, "0193a1").unwrap_err(),
        JjjError::Validation("'0193a1' is ambiguous — matches 0193a1, 0193a1. Use a longer prefix.".to_string())
    );
}

#[test]
fn resolving_content_keeps_one_side() {
    assert_eq!(
        resolve_content(CONFLICTED, ConflictSide::Remote, "problems/a.md").unwrap(),
        "---\ntitle: \"Fix the parser\"\n---\ntheirs"
    );
    let malformed = "<<<<<<< local\na\n=======\nb\n>>>>>>> remote\n<<<<<<< stray\n>>>>>>> end";
    assert_eq!(
        resolve_content(malformed, ConflictSide::Local, "problems/a.md").unwrap_err(),
        JjjError::Validation(
            "problems/a.md still has conflict markers after resolution — file may be malformed.".to_string()
        )
    );
}

#[test]
fn the_resolution_is_logged() {
    let e = resolution_event("abc", None, None, ConflictSide::Local, 77);
    assert_eq!(e.event_type, EventType::ConflictResolved);
    assert_eq!(e.entity, "abc");
    assert_eq!(e.by, "unknown");
    assert_eq!(e.when, 77);
    assert_eq!(e.rationale, Some("resolved to ours (local)".to_string()));
    let e = resolution_event("abc", Some("bob"), Some("kept both"), ConflictSide::Remote, 1);
    assert_eq!(e.by, "bob");
    assert_eq!(e.rationale, Some("kept both".to_string()));
    assert_eq!(side_label(ConflictSide::Remote), "theirs (remote)");
}
