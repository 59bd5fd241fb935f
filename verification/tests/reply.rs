use jjj::models::{Critique, CritiqueStatus, EventType, Severity, Solution, SolutionStatus};
use jjj::reply::{
    comment_target, named_reply_target, parse_selection, prompted_reply, reply_to_critique,
    replyable_critiques, sign_off,
};
use jjj::store::{JjjError, MetadataStore};

fn validation(m: &str) -> JjjError {
    JjjError::Validation(m.to_string())
}

fn solution(id: &str, title: &str, status: SolutionStatus, changes: &[&str]) -> Solution {
    let mut s = Solution::new(id, title, "p1");
    s.status = status;
    s.change_ids = changes.iter().map(|c| c.to_string()).collect();
    s
}

#[test]
fn the_current_change_picks_the_solution() {
    let v = vec![
        solution("s1", "One", SolutionStatus::Proposed, &["ka"]),
        solution("s2", "Two", SolutionStatus::Withdrawn, &["kb"]),
    ];
    assert_eq!(comment_target(&v, "kb\n"), Ok(1));
}

#[test]
fn otherwise_the_only_live_solution_is_used() {
    let v = vec![
        solution("s1", "One", SolutionStatus::Withdrawn, &[]),
        solution("s2", "Two", SolutionStatus::Submitted, &[]),
    ];
    assert_eq!(comment_target(&v, ""), Ok(1));
    let none = vec![solution("s1", "One", SolutionStatus::Approved, &[])];
    assert_eq!(
        comment_target(&none, "kx"),
        Err(validation("No active solution found. Specify a solution ID."))
    );
    let many = vec![
        solution("s1", "One", SolutionStatus::Proposed, &[]),
        solution("s2", "Two", SolutionStatus::Approved, &[]),
        solution("s3", "Three", SolutionStatus::Submitted, &[]),
    ];
    assert_eq!(
        comment_target(&many, "kx"),
        Err(validation(
            "Multiple active solutions. Specify one:\n  jjj solution comment \"One\"\n  jjj solution comment \"Three\""
        ))
    );
}

fn critiques() -> Vec<Critique> {
    let mut addressed = Critique::new("c2", "b", "s1", Severity::Low);
    addressed.status = CritiqueStatus::Addressed;
    let mut valid = Critique::new("c3", "c", "s1", Severity::High);
    valid.status = CritiqueStatus::Valid;
    vec![
        Critique::new("c1", "a", "s1", Severity::Low),
        addressed,
        valid,
        Critique::new("c4", "d", "s2", Severity::Low),
    ]
}

#[test]
fn only_open_or_validated_critiques_take_replies() {
    let cs = critiques();
    assert_eq!(replyable_critiques(&cs, "s1"), Ok(vec![0, 2]));
    assert_eq!(
        replyable_critiques(&cs, "s9"),
        Err(validation("No open critiques on this solution to reply to."))
    );
    let open = vec![0, 2];
    assert_eq!(named_reply_target(&cs, &open, "c3", "c3"), Ok(2));
    assert_eq!(
        named_reply_target(&cs, &open, "c2", "the nit"),
        Err(validation("Critique 'the nit' is not an open critique for this solution."))
    );
}

#[test]
fn picker_answers_and_prompted_replies() {
    assert_eq!(parse_selection(" 2\n", 3), Ok(1));
    assert_eq!(parse_selection("0", 3), Err(validation("Invalid selection.")));
    assert_eq!(parse_selection("4", 3), Err(validation("Invalid selection.")));
    assert_eq!(parse_selection("two", 3), Err(validation("Invalid selection.")));
    assert_eq!(prompted_reply("  thanks, fixed \n"), Ok("thanks, fixed".to_string()));
    assert_eq!(prompted_reply("   "), Err(validation("Reply cannot be empty.")));
}

#[test]
fn a_reply_joins_the_discussion_and_the_log() {
    let mut st = MetadataStore {
        problems: Vec::new(),
        solutions: Vec::new(),
        critiques: critiques(),
        milestones: Vec::new(),
        events: Vec::new(),
        user: Some("alice".to_string()),
        automation: Vec::new(),
        local_automation: None,
        settings: Vec::new(),
    };
    reply_to_critique(&mut st, "c3", "s1", "done in the last change", 99).unwrap();
    assert_eq!(st.critiques[2].replies.len(), 1);
    assert_eq!(st.critiques[2].replies[0].author, "alice");
    assert_eq!(st.critiques[2].replies[0].body, "done in the last change");
    assert_eq!(st.critiques[2].status, CritiqueStatus::Valid);
    assert_eq!(st.events.len(), 1);
    assert_eq!(st.events[0].event_type, EventType::CritiqueReplied);
    assert_eq!(st.events[0].entity, "c3");
    assert_eq!(st.events[0].extra.target, Some("s1".to_string()));
    assert_eq!(
        reply_to_critique(&mut st, "c9", "s1", "x", 100),
        Err(JjjError::CritiqueNotFound("c9".to_string()))
    );
    st.user = None;
    assert_eq!(reply_to_critique(&mut st, "c3", "s1", "x", 100), Err(JjjError::UnknownUser));
    assert_eq!(st.events.len(), 1);
}

fn signing_store() -> MetadataStore {
    let mut asked = Critique::new("c1", "Review", "s1", Severity::Low);
    asked.reviewer = Some("bob".to_string());
    let mut other = Critique::new("c2", "Review", "s1", Severity::Low);
    other.reviewer = Some("carol".to_string());
    let plain = Critique::new("c3", "flaw", "s1", Severity::High);
    MetadataStore {
        problems: Vec::new(),
        solutions: vec![solution("s1", "Cache", SolutionStatus::Submitted, &[])],
        critiques: vec![asked, other, plain],
        milestones: Vec::new(),
        events: Vec::new(),
        user: Some("bob".to_string()),
        automation: Vec::new(),
        local_automation: None,
        settings: Vec::new(),
    }
}

#[test]
fn signing_off_addresses_the_critique_that_asked_you() {
    let mut st = signing_store();
    assert_eq!(sign_off(&mut st, "s1", "cache", 7), Ok(2));
    assert_eq!(st.critiques[0].status, CritiqueStatus::Addressed);
    assert_eq!(st.critiques[1].status, CritiqueStatus::Open);
    assert_eq!(st.events[0].event_type, EventType::CritiqueAddressed);
    assert_eq!(st.events[0].entity, "c1");
}

#[test]
fn signing_off_without_being_asked_is_refused() {
    let mut st = signing_store();
    st.user = Some("dave".to_string());
    assert_eq!(
        sign_off(&mut st, "s1", "cache", 7),
        Err(validation(
            "No open review critique assigned to you on 'Cache'.\n(There are review critiques assigned to others — are you the right critic?)\n\nTo add yourself: jjj critique new \"cache\" \"Review\" --critic @dave"
        ))
    );
    st.critiques.truncate(0);
    assert_eq!(
        sign_off(&mut st, "s1", "cache", 7),
        Err(validation(
            "No review critique assigned to you on 'Cache'.\n\nTo request review from yourself: jjj critique new \"cache\" \"Review\" --critic @dave\nOr use solution new --critic @dave when creating solutions."
        ))
    );
    assert_eq!(sign_off(&mut st, "s9", "x", 7), Err(JjjError::SolutionNotFound("s9".to_string())));
    assert!(st.events.is_empty());
}
