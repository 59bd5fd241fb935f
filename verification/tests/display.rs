use jjj::display::{common_prefix_len, format_with_type_prefix, short_id, truncated_prefixes, MIN_PREFIX_LEN};

#[test]
fn test_single_uuid_uses_min_prefix() {
    let uuids = vec!["01957d3e-a8b2-7def-8c3a-9f4e5d6c7b8a"];
    let result = truncated_prefixes(&uuids);
    assert_eq!(result[0].1.len(), MIN_PREFIX_LEN);
}

#[test]
fn test_different_uuids_use_min_prefix() {
    let uuids = vec![
        "01957d3e-a8b2-7def-8c3a-9f4e5d6c7b8a",
        "02957d3e-b1c4-7abc-9d2e-3f4a5b6c7d8e",
    ];
    let result = truncated_prefixes(&uuids);
    assert_eq!(result[0].1.len(), MIN_PREFIX_LEN);
    assert_eq!(result[1].1.len(), MIN_PREFIX_LEN);
}

#[test]
fn test_similar_uuids_extend_prefix() {
    let uuids = vec![
        "a3f8c2de-a8b2-7def-8c3a-9f4e5d6c7b8a",
        "a3f8c2df-b1c4-7abc-9d2e-3f4a5b6c7d8e",
    ];
    let result = truncated_prefixes(&uuids);
    assert!(result[0].1.len() > MIN_PREFIX_LEN, "Prefix should extend: {}", result[0].1);
    assert!(result[1].1.len() > MIN_PREFIX_LEN, "Prefix should extend: {}", result[1].1);
    assert_ne!(result[0].1, result[1].1);
}

#[test]
fn test_prefixes_unique_at_scale() {
    let ids: Vec<String> = (0..5000)
        .map(|i| format!("0195{:04x}-{:04x}-7def-8c3a-{:012x}", i, i % 0xffff, i))
        .collect();
    let refs: Vec<&str> = ids.iter().map(|s| s.as_str()).collect();
    let result = truncated_prefixes(&refs);
    let mut seen = std::collections::HashSet::new();
    for (_, prefix) in &result {
        assert!(prefix.len() >= MIN_PREFIX_LEN);
        assert!(seen.insert(prefix.clone()), "duplicate prefix {}", prefix);
    }
}

#[test]
fn test_duplicate_ids_fall_back_to_full() {
    let uuids = vec![
        "a3f8c2de-a8b2-7def-8c3a-9f4e5d6c7b8a",
        "a3f8c2de-a8b2-7def-8c3a-9f4e5d6c7b8a",
    ];
    let result = truncated_prefixes(&uuids);
    assert_eq!(result[0].1, "a3f8c2dea8b27def8c3a9f4e5d6c7b8a");
    assert_eq!(result[1].1, result[0].1);
}

#[test]
fn test_format_with_type_prefix() {
    assert_eq!(format_with_type_prefix("problem", "a3f8c2"), "p/a3f8c2");
    assert_eq!(format_with_type_prefix("solution", "b7e2f9"), "s/b7e2f9");
    assert_eq!(format_with_type_prefix("critique", "c1d2e3"), "c/c1d2e3");
    assert_eq!(format_with_type_prefix("milestone", "d4e5f6"), "m/d4e5f6");
}

#[test]
fn unknown_type_gets_a_question_mark() {
    assert_eq!(format_with_type_prefix("gadget", "abc"), "?/abc");
}

#[test]
fn short_ids_take_six_characters() {
    assert_eq!(short_id("0123456789"), "012345");
    assert_eq!(short_id("abc"), "abc");
    // Six bytes, not six characters: 'é' takes two.
    assert_eq!(short_id("abcdéfg"), "abcdé");
    assert_eq!(short_id("ééé"), "ééé");
}

#[test]
fn common_prefix_counts_shared_characters() {
    let a: Vec<u8> = "abcdef".bytes().collect();
    let b: Vec<u8> = "abcxyz".bytes().collect();
    assert_eq!(common_prefix_len(&a, &b), 3);
    // Counted in bytes: 'é' and 'è' share their first byte.
    let c: Vec<u8> = "xé".bytes().collect();
    let d: Vec<u8> = "xè".bytes().collect();
    assert_eq!(common_prefix_len(&c, &d), 2);
    assert_eq!(common_prefix_len(&a, &a), 6);
}

#[test]
fn prefixes_ignore_dashes_and_case() {
    let uuids = vec!["AB-CD-EF-01", "abcdef02"];
    let result = truncated_prefixes(&uuids);
    assert_eq!(result[0].0, "AB-CD-EF-01");
    assert_eq!(result[0].1, "abcdef01");
    assert_eq!(result[1].1, "abcdef02");
}

#[test]
fn prefixes_are_measured_in_bytes() {
    // "ab" then four two-byte characters: six bytes end after the second 'é'.
    let ids = vec!["abéééé"];
    let r = truncated_prefixes(&ids);
    assert_eq!(r[0].1, "abéé");
}
