use jjj::changes::{attach_change, detach_change};
use jjj::models::{Solution, SolutionStatus};
use jjj::store::{JjjError, MetadataStore};

fn store() -> MetadataStore {
    let mut s1 = Solution::new("s1", "one", "p1");
    s1.change_ids = vec!["ka".to_string()];
    let mut s2 = Solution::new("s2", "two", "p1");
    s2.change_ids = vec!["kb".to_string(), "kc".to_string()];
    MetadataStore {
        problems: Vec::new(),
        solutions: vec![s1, s2],
        critiques: Vec::new(),
        milestones: Vec::new(),
        events: Vec::new(),
        user: None,
        automation: Vec::new(),
        local_automation: None,
        settings: Vec::new(),
    }
}

fn validation(m: &str) -> JjjError {
    JjjError::Validation(m.to_string())
}

#[test]
fn attaching_checks_the_change_unless_forced() {
    let mut st = store();
    assert_eq!(
        attach_change(&mut st, "s1", "kz", false, false),
        Err(validation("Change 'kz' not found in repository. Use --force to skip validation."))
    );
    assert_eq!(
        attach_change(&mut st, "s1", "kb", true, false),
        Err(validation("Change 'kb' is already attached to solution s2. Use --force to attach anyway."))
    );
    assert_eq!(st.solutions[0].change_ids, vec!["ka".to_string()]);
    attach_change(&mut st, "s1", "kb", false, true).unwrap();
    assert_eq!(st.solutions[0].change_ids, vec!["ka".to_string(), "kb".to_string()]);
    attach_change(&mut st, "s1", "ka", true, false).unwrap();
    assert_eq!(st.solutions[0].change_ids.len(), 2);
    assert_eq!(
        attach_change(&mut st, "s9", "ka", true, false),
        Err(JjjError::SolutionNotFound("s9".to_string()))
    );
}

#[test]
fn detaching_guards_submitted_work_and_the_last_change() {
    let mut st = store();
    assert_eq!(
        detach_change(&mut st, "s1", "ka", false),
        Err(validation("Cannot detach the last change from solution s1. Use --force to override."))
    );
    assert_eq!(detach_change(&mut st, "s2", "kb", false), Ok(true));
    assert_eq!(st.solutions[1].change_ids, vec!["kc".to_string()]);
    assert_eq!(detach_change(&mut st, "s2", "kx", false), Ok(false));
    st.solutions[1].status = SolutionStatus::Submitted;
    assert_eq!(
        detach_change(&mut st, "s2", "kc", false),
        Err(validation("Cannot detach change from solution s2 while in Submitted state. Use --force to override."))
    );
    assert_eq!(detach_change(&mut st, "s2", "kc", true), Ok(true));
    assert!(st.solutions[1].change_ids.is_empty());
}

#[test]
fn attaching_then_detaching_restores_the_changes() {
    let mut st = store();
    attach_change(&mut st, "s2", "kn", true, false).unwrap();
    assert_eq!(detach_change(&mut st, "s2", "kn", true), Ok(true));
    assert_eq!(st.solutions[1].change_ids, vec!["kb".to_string(), "kc".to_string()]);
}
