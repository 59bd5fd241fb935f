use jjj::fetch::{
    classify, entity_id_of, plan_file_delta, resolve_entity_delta, DeltaKind, EntityAction,
    FetchOutcome, FileDelta, FileEffect, Target,
};
use jjj::merge::{has_conflict_markers, merge_entity_md, merge_events_jsonl};

fn md(status: &str, title: &str, updated: &str) -> String {
    format!(
        "---\nid: '01'\nstatus: {}\ntitle: {}\ncreated_at: 2026-05-01T00:00:00Z\nupdated_at: {}\n---\n\nbody\n",
        status, title, updated
    )
}

fn modified(base: &str, remote: &str) -> FileDelta {
    FileDelta {
        path: "problems/01.md".to_string(),
        kind: DeltaKind::Modified,
        base: Some(base.to_string()),
        remote: Some(remote.to_string()),
    }
}

#[test]
fn classify_routes_each_family() {
    assert!(matches!(classify("problems/01.md"), Target::Entity { singular: "problem", .. }));
    assert!(matches!(classify("milestones/x.md"), Target::Entity { singular: "milestone", .. }));
    assert!(matches!(classify("rankings/m/u.json"), Target::Ranking));
    assert!(matches!(classify("config.toml"), Target::Config));
    assert!(matches!(classify("events.jsonl"), Target::Events));
    assert!(matches!(classify(".sync_state.json"), Target::Skip));
    // A problems-prefixed path that isn't actually under problems/.
    assert!(matches!(classify("problems_01.md"), Target::Skip));
}

#[test]
fn added_with_no_local_is_adopted() {
    let remote = md("open", "New", "2026-05-01T00:00:00Z");
    let delta = FileDelta {
        path: "problems/01.md".to_string(),
        kind: DeltaKind::Added,
        base: None,
        remote: Some(remote.clone()),
    };
    assert_eq!(resolve_entity_delta(&delta, None).unwrap(), EntityAction::Write(remote));
}

#[test]
fn modified_only_remote_changed_takes_remote() {
    let base = md("open", "Orig", "2026-05-01T00:00:00Z");
    let remote = md("open", "Remote Title", "2026-05-03T00:00:00Z");
    // local still equals base → adopt remote.
    let action = resolve_entity_delta(&modified(&base, &remote), Some(&base)).unwrap();
    match action {
        EntityAction::Write(m) => assert!(m.contains("Remote Title")),
        other => panic!("expected Write, got {:?}", other),
    }
}

#[test]
fn local_only_edit_survives_with_true_base() {
    let base = md("open", "Orig", "2026-05-01T00:00:00Z");
    let local = md("in_progress", "Orig", "2026-05-02T00:00:00Z");
    let remote = md("open", "Remote Title", "2026-05-03T00:00:00Z");
    let action = resolve_entity_delta(&modified(&base, &remote), Some(&local)).unwrap();
    match action {
        EntityAction::Write(m) => {
            assert!(m.contains("status: in_progress"), "local edit lost:\n{m}");
            assert!(m.contains("Remote Title"), "remote edit lost:\n{m}");
        }
        other => panic!("expected Write, got {:?}", other),
    }
}

#[test]
fn identical_remote_is_keep() {
    let base = md("open", "Orig", "2026-05-01T00:00:00Z");
    let local = md("in_progress", "Orig", "2026-05-02T00:00:00Z");
    // remote equals local exactly → nothing to do.
    let action = resolve_entity_delta(&modified(&base, &local), Some(&local)).unwrap();
    assert_eq!(action, EntityAction::Keep);
}

#[test]
fn delete_when_local_matches_base() {
    let base = md("open", "Doomed", "2026-05-01T00:00:00Z");
    let delta = FileDelta {
        path: "problems/01.md".to_string(),
        kind: DeltaKind::Deleted,
        base: Some(base.clone()),
        remote: None,
    };
    assert_eq!(resolve_entity_delta(&delta, Some(&base)).unwrap(), EntityAction::Delete);
    // Already gone locally → keep (idempotent).
    assert_eq!(resolve_entity_delta(&delta, None).unwrap(), EntityAction::Keep);
}

#[test]
fn delete_when_local_edited_is_conflict() {
    let base = md("open", "Orig", "2026-05-01T00:00:00Z");
    let local = md("in_progress", "Orig", "2026-05-02T00:00:00Z");
    let delta = FileDelta {
        path: "problems/01.md".to_string(),
        kind: DeltaKind::Deleted,
        base: Some(base),
        remote: None,
    };
    assert_eq!(resolve_entity_delta(&delta, Some(&local)).unwrap(), EntityAction::DeleteConflict);
}

#[test]
fn apply_writes_and_records_changed_entity() {
    let remote = md("open", "New", "2026-05-01T00:00:00Z");
    let delta = FileDelta {
        path: "problems/01.md".to_string(),
        kind: DeltaKind::Added,
        base: None,
        remote: Some(remote.clone()),
    };
    let mut outcome = FetchOutcome::new();
    let effect = plan_file_delta(&delta, None, &mut outcome);
    assert_eq!(effect, FileEffect::Write(remote));
    assert!(outcome.changed.contains(&("problem".to_string(), "01".to_string())));
}

#[test]
fn apply_conflict_markers_skip_db_and_are_reported() {
    // Both sides edited the body differently → conflict markers.
    let base = md("open", "Orig", "2026-05-01T00:00:00Z");
    let local = base.replace("body", "alice body");
    let remote = base.replace("body", "bob body");
    let delta = modified(&base, &remote);
    let mut outcome = FetchOutcome::new();
    match plan_file_delta(&delta, Some(&local), &mut outcome) {
        FileEffect::Write(written) => assert!(written.contains("<<<<<<< local")),
        other => panic!("expected a write, got {:?}", other),
    }
    assert_eq!(outcome.merge_conflicts, vec!["problems/01.md".to_string()]);
    // Conflicted entity must NOT be queued for a DB upsert.
    assert!(outcome.changed.is_empty());
}

#[test]
fn apply_delete_removes_file_and_records_deletion() {
    let base = md("open", "Doomed", "2026-05-01T00:00:00Z");
    let delta = FileDelta {
        path: "problems/01.md".to_string(),
        kind: DeltaKind::Deleted,
        base: Some(base.clone()),
        remote: None,
    };
    let mut outcome = FetchOutcome::new();
    assert_eq!(plan_file_delta(&delta, Some(&base), &mut outcome), FileEffect::Remove);
    assert!(outcome.deleted.contains(&("problem".to_string(), "01".to_string())));
}

#[test]
fn apply_events_union_sets_changed_flag() {
    let local = "{\"when\":\"2026-05-01T00:00:00Z\",\"by\":\"a\"}\n";
    let delta = FileDelta {
        path: "events.jsonl".to_string(),
        kind: DeltaKind::Modified,
        base: Some(local.to_string()),
        remote: Some("{\"when\":\"2026-05-02T00:00:00Z\",\"by\":\"b\"}\n".to_string()),
    };
    let mut outcome = FetchOutcome::new();
    let effect = plan_file_delta(&delta, Some(local), &mut outcome);
    assert!(outcome.events_changed);
    match effect {
        FileEffect::Write(merged) => assert_eq!(merged.lines().count(), 2),
        other => panic!("expected a write, got {:?}", other),
    }
}

#[test]
fn refused_delete_is_reported_as_conflict() {
    let base = md("open", "Orig", "2026-05-01T00:00:00Z");
    let local = md("in_progress", "Orig", "2026-05-02T00:00:00Z");
    let delta = FileDelta {
        path: "problems/01.md".to_string(),
        kind: DeltaKind::Deleted,
        base: Some(base),
        remote: None,
    };
    let mut outcome = FetchOutcome::new();
    assert_eq!(plan_file_delta(&delta, Some(&local), &mut outcome), FileEffect::Nothing);
    assert_eq!(outcome.delete_conflicts, vec!["problems/01.md".to_string()]);
    assert!(outcome.deleted.is_empty());
}

#[test]
fn config_takes_the_fetched_copy() {
    let delta = FileDelta {
        path: "config.toml".to_string(),
        kind: DeltaKind::Modified,
        base: Some("a = 1\n".to_string()),
        remote: Some("a = 2\n".to_string()),
    };
    let mut outcome = FetchOutcome::new();
    assert_eq!(
        plan_file_delta(&delta, Some("a = 1\n"), &mut outcome),
        FileEffect::Write("a = 2\n".to_string())
    );
}

#[test]
fn ranking_last_writer_wins() {
    let older = "{\"order\":[\"a\"],\"updated_at\":\"2026-05-01T00:00:00Z\"}";
    let newer = "{\"order\":[\"b\"],\"updated_at\":\"2026-05-02T00:00:00Z\"}";
    let path = "rankings/m/u.json".to_string();
    let delta = FileDelta { path: path.clone(), kind: DeltaKind::Modified, base: None, remote: Some(newer.to_string()) };
    let mut outcome = FetchOutcome::new();
    assert_eq!(plan_file_delta(&delta, Some(older), &mut outcome), FileEffect::Write(newer.to_string()));
    let delta = FileDelta { path, kind: DeltaKind::Modified, base: None, remote: Some(older.to_string()) };
    assert_eq!(plan_file_delta(&delta, Some(newer), &mut outcome), FileEffect::Nothing);
}

#[test]
fn skipped_paths_do_nothing() {
    let delta = FileDelta {
        path: ".sync_state.json".to_string(),
        kind: DeltaKind::Modified,
        base: None,
        remote: Some("{}".to_string()),
    };
    let mut outcome = FetchOutcome::new();
    assert_eq!(plan_file_delta(&delta, None, &mut outcome), FileEffect::Nothing);
    assert!(!outcome.events_changed);
}

#[test]
fn entity_ids_are_file_stems() {
    assert_eq!(entity_id_of("problems/01.md"), "01");
    assert_eq!(entity_id_of("solutions/a.b.md"), "a.b");
    assert_eq!(entity_id_of("critiques/.md"), ".md");
}

#[test]
fn merge_without_base_is_a_conflict_block() {
    let m = merge_entity_md(None, "mine", "theirs");
    assert_eq!(m, "<<<<<<< local\nmine\n=======\ntheirs\n>>>>>>> remote");
    assert!(has_conflict_markers(&m));
}

#[test]
fn frontmatter_field_changed_on_both_sides_goes_to_newer() {
    let base = md("open", "Orig", "2026-05-01T00:00:00Z");
    let local = md("open", "Local", "2026-05-02T00:00:00Z");
    let remote = md("open", "Remote", "2026-05-03T00:00:00Z");
    let m = merge_entity_md(Some(&base), &local, &remote);
    assert!(m.contains("title: Remote"));
    assert!(!has_conflict_markers(&m));
}

#[test]
fn event_union_keeps_local_order_then_new_lines() {
    let merged = merge_events_jsonl("a\nb\n", "b\nc\n");
    assert_eq!(merged, "a\nb\nc\n");
    assert_eq!(merge_events_jsonl("", ""), "");
}

#[test]
fn outcome_counts_and_emptiness() {
    let mut outcome = FetchOutcome::new();
    assert!(outcome.nothing_new(false));
    assert!(!outcome.nothing_new(true));
    for (path, id) in [("problems/a.md", "a"), ("problems/b.md", "b"), ("solutions/c.md", "c")] {
        let delta = FileDelta {
            path: path.to_string(),
            kind: DeltaKind::Added,
            base: None,
            remote: Some(format!("---\ntitle: {id}\n---\n")),
        };
        plan_file_delta(&delta, None, &mut outcome);
    }
    assert_eq!(outcome.changed_count("problem"), 2);
    assert_eq!(outcome.changed_count("solution"), 1);
    assert_eq!(outcome.changed_count("critique"), 0);
    assert!(!outcome.nothing_new(false));
}
