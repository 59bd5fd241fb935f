use jjj::merge::{
    has_conflict_markers, merge_entity_md, merge_events_jsonl, merge_ranking_json,
    resolve_conflict_markers, ConflictSide,
};

#[test]
fn identical_sides_merge_to_themselves() {
    assert_eq!(merge_entity_md(None, "same", "same"), "same");
    assert_eq!(merge_entity_md(Some("old"), "same", "same"), "same");
}

#[test]
fn a_side_equal_to_the_base_yields_the_other() {
    assert_eq!(merge_entity_md(Some("base"), "base", "theirs"), "theirs");
    assert_eq!(merge_entity_md(Some("base"), "mine", "base"), "mine");
}

#[test]
fn without_a_base_differing_sides_conflict() {
    assert_eq!(
        merge_entity_md(None, "mine", "theirs"),
        "<<<<<<< local\nmine\n=======\ntheirs\n>>>>>>> remote"
    );
}

#[test]
fn changes_on_different_lines_both_survive() {
    let base = "---\ntitle: A\n---\nline one\nline two";
    let local = "---\ntitle: A\n---\nline ONE\nline two";
    let remote = "---\ntitle: A\n---\nline one\nline TWO";
    assert_eq!(
        merge_entity_md(Some(base), local, remote),
        "---\ntitle: A\n---\nline ONE\nline TWO"
    );
}

#[test]
fn a_frontmatter_field_changed_on_both_sides_goes_to_the_newer_side() {
    let base = "---\nstatus: open\nupdated_at: 2024-01-01\n---\nbody";
    let local = "---\nstatus: solved\nupdated_at: 2024-01-02\n---\nbody";
    let remote = "---\nstatus: dissolved\nupdated_at: 2024-01-03\n---\nbody";
    assert_eq!(
        merge_entity_md(Some(base), local, remote),
        "---\nstatus: dissolved\nupdated_at: 2024-01-03\n---\nbody"
    );
}

#[test]
fn a_body_line_changed_on_both_sides_becomes_a_conflict() {
    let merged = merge_entity_md(Some("x\nbody"), "x\nmine", "x\ntheirs");
    assert_eq!(merged, "x\n<<<<<<< local\nmine\n=======\ntheirs\n>>>>>>> remote");
    assert!(has_conflict_markers(&merged));
}

#[test]
fn differing_line_counts_conflict_as_a_whole() {
    assert_eq!(
        merge_entity_md(Some("a"), "a\nb", "a\nc\nd"),
        "<<<<<<< local\na\nb\n=======\na\nc\nd\n>>>>>>> remote"
    );
}

#[test]
fn markers_need_both_ends() {
    assert!(!has_conflict_markers("plain text"));
    assert!(!has_conflict_markers("<<<<<<< only the start"));
    assert!(has_conflict_markers("<<<<<<< local\na\n=======\nb\n>>>>>>> remote"));
}

#[test]
fn resolving_keeps_the_chosen_side() {
    let text = "head\n<<<<<<< local\nmine\n=======\ntheirs\n>>>>>>> remote\ntail";
    assert_eq!(resolve_conflict_markers(text, ConflictSide::Local), "head\nmine\ntail");
    assert_eq!(resolve_conflict_markers(text, ConflictSide::Remote), "head\ntheirs\ntail");
    assert_eq!(resolve_conflict_markers("no blocks", ConflictSide::Local), "no blocks");
}

#[test]
fn event_logs_union_without_duplicates() {
    let local = "{\"a\":1}\n{\"b\":2}\n";
    let remote = "{\"b\":2}\n{\"c\":3}\n{\"c\":3}\n";
    assert_eq!(merge_events_jsonl(local, remote), "{\"a\":1}\n{\"b\":2}\n{\"c\":3}\n");
    assert_eq!(merge_events_jsonl("", ""), "");
    let once = merge_events_jsonl(local, remote);
    assert_eq!(merge_events_jsonl(&once, remote), once);
}

#[test]
fn the_more_recent_ranking_wins() {
    let older = "{\"updated_at\":\"2024-05-01T10:00:00Z\",\"order\":[\"a\"]}";
    let newer = "{\"updated_at\":\"2024-05-02T10:00:00Z\",\"order\":[\"b\"]}";
    assert_eq!(merge_ranking_json(Some(older), newer), newer);
    assert_eq!(merge_ranking_json(Some(newer), older), newer);
    assert_eq!(merge_ranking_json(None, older), older);
}

#[test]
fn ranking_stamps_compare_as_instants() {
    // 10:00 at +02:00 is 08:00 UTC, earlier than 09:00 UTC.
    let local = "{\"updated_at\":\"2024-05-01T10:00:00+02:00\"}";
    let remote = "{\"updated_at\":\"2024-05-01T09:00:00Z\"}";
    assert_eq!(merge_ranking_json(Some(local), remote), remote);
    // Fractions of a second break a tie on whole seconds.
    let a = "{\"updated_at\":\"2024-05-01T09:00:00.500Z\"}";
    let b = "{\"updated_at\":\"2024-05-01T09:00:00.250Z\"}";
    assert_eq!(merge_ranking_json(Some(a), b), a);
}

#[test]
fn a_ranking_without_a_readable_stamp_loses() {
    let stamped = "{\"updated_at\":\"2024-05-01T10:00:00Z\"}";
    assert_eq!(merge_ranking_json(Some("{}"), stamped), stamped);
    assert_eq!(merge_ranking_json(Some(stamped), "not json"), stamped);
    assert_eq!(merge_ranking_json(Some("{\"updated_at\":\"yesterday\"}"), stamped), stamped);
}
