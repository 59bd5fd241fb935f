use jjj::claim::{claim_ttl, classify, ClaimState, DEFAULT_CLAIM_TTL_MINUTES};

const NOW: i64 = 1_780_000_000;

fn ttl() -> i64 {
    60 * 60
}

fn minutes(m: i64) -> i64 {
    m * 60
}

#[test]
fn unassigned_work_is_free() {
    assert_eq!(classify(None, None, "a", ttl(), NOW), ClaimState::Free);
    assert_eq!(classify(Some("  "), None, "a", ttl(), NOW), ClaimState::Free);
}

#[test]
fn your_own_claim_is_yours_however_old() {
    let ancient = NOW - minutes(30 * 24 * 60);
    assert_eq!(
        classify(Some("agent-a"), Some(ancient), "agent-a", ttl(), NOW),
        ClaimState::Held,
        "an agent must not lose its own claim by holding it a long time"
    );
}

#[test]
fn a_fresh_claim_by_another_agent_is_respected() {
    let recent = NOW - minutes(5);
    assert_eq!(
        classify(Some("agent-b"), Some(recent), "agent-a", ttl(), NOW),
        ClaimState::HeldByOther
    );
}

#[test]
fn a_stale_claim_returns_to_the_pool() {
    let stale = NOW - minutes(61);
    assert_eq!(
        classify(Some("agent-b"), Some(stale), "agent-a", ttl(), NOW),
        ClaimState::Expired,
        "a dead agent must not hold work forever"
    );
}

#[test]
fn expiry_is_inclusive_at_the_boundary() {
    let exactly = NOW - minutes(60);
    assert_eq!(
        classify(Some("agent-b"), Some(exactly), "agent-a", ttl(), NOW),
        ClaimState::Expired
    );
}

#[test]
fn a_deliberate_assignment_never_expires() {
    assert_eq!(classify(Some("alice"), None, "agent-a", ttl(), NOW), ClaimState::HeldByOther);
}

#[test]
fn only_live_claims_by_others_are_withheld() {
    assert!(ClaimState::Free.available());
    assert!(ClaimState::Held.available());
    assert!(ClaimState::Expired.available());
    assert!(!ClaimState::HeldByOther.available());
}

#[test]
fn ttl_comes_from_settings_when_valid() {
    let mut settings: Vec<(String, String)> = Vec::new();
    assert_eq!(claim_ttl(&settings), 60);

    settings = vec![("claim_ttl_minutes".to_string(), "15".to_string())];
    assert_eq!(claim_ttl(&settings), 15);

    // Nonsense must not disable expiry.
    settings = vec![("claim_ttl_minutes".to_string(), "0".to_string())];
    assert_eq!(claim_ttl(&settings), 60);
    settings = vec![("claim_ttl_minutes".to_string(), "banana".to_string())];
    assert_eq!(claim_ttl(&settings), 60);
}

#[test]
fn default_ttl_is_an_hour() {
    assert_eq!(DEFAULT_CLAIM_TTL_MINUTES, 60);
    let settings = vec![
        ("other".to_string(), "1".to_string()),
        ("claim_ttl_minutes".to_string(), "-5".to_string()),
    ];
    assert_eq!(claim_ttl(&settings), 60);
}

#[test]
fn an_expired_claim_stays_expired_later() {
    let at = NOW - minutes(90);
    assert_eq!(classify(Some("b"), Some(at), "a", ttl(), NOW), ClaimState::Expired);
    assert_eq!(classify(Some("b"), Some(at), "a", ttl(), NOW + 1000), ClaimState::Expired);
}
