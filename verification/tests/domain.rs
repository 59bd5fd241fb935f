use jjj::domain::{
    address_critique, approval_candidates, approve_solution, dismiss_critique, dissolve_problem, reopen_problem,
    solve_problem, submit_solution, validate_critique, withdraw_solution,
};
use jjj::models::{
    Critique, CritiqueStatus, EventType, Problem, ProblemStatus, Severity, Solution,
    SolutionStatus,
};
use jjj::store::{JjjError, MetadataStore, SolveCheck};

const NOW: i64 = 1_700_000_000;

fn store_with(problems: Vec<Problem>, solutions: Vec<Solution>, critiques: Vec<Critique>) -> MetadataStore {
    MetadataStore {
        problems,
        solutions,
        critiques,
        milestones: Vec::new(),
        events: Vec::new(),
        user: Some("alice".to_string()),
        automation: Vec::new(),
        local_automation: None,
        settings: Vec::new(),
    }
}

fn solution(id: &str, pid: &str, status: SolutionStatus) -> Solution {
    let mut s = Solution::new(id, "a fix", pid);
    s.status = status;
    s
}

#[test]
fn approving_a_proposed_solution_needs_submission() {
    let mut st = store_with(
        vec![Problem::new("p1", "bug")],
        vec![solution("s1", "p1", SolutionStatus::Proposed)],
        Vec::new(),
    );
    let r = approve_solution(&mut st, "s1", false, None, NOW);
    assert_eq!(
        r.err(),
        Some(JjjError::NotSubmitted { id: "s1".to_string(), title: "a fix".to_string(), status: SolutionStatus::Proposed })
    );
    assert_eq!(st.solutions[0].status, SolutionStatus::Proposed);
    assert!(st.events.is_empty());
}

#[test]
fn open_critiques_block_approval() {
    let c = Critique::new("c1", "flaw", "s1", Severity::High);
    let mut st = store_with(
        vec![Problem::new("p1", "bug")],
        vec![solution("s1", "p1", SolutionStatus::Submitted)],
        vec![c],
    );
    let r = approve_solution(&mut st, "s1", false, None, NOW);
    assert_eq!(r.err(), Some(JjjError::CannotApproveSolution(1)));
    assert_eq!(st.solutions[0].status, SolutionStatus::Submitted);
}

#[test]
fn approval_solves_the_problem_and_logs_both_events() {
    let mut st = store_with(
        vec![Problem::new("p1", "bug")],
        vec![solution("s1", "p1", SolutionStatus::Submitted)],
        Vec::new(),
    );
    let autos = approve_solution(&mut st, "s1", false, Some("looks right"), NOW).unwrap();
    assert_eq!(st.solutions[0].status, SolutionStatus::Approved);
    assert_eq!(st.problems[0].status, ProblemStatus::Solved);
    assert_eq!(st.events.len(), 2);
    assert_eq!(st.events[0].event_type, EventType::SolutionApproved);
    assert_eq!(st.events[0].rationale, Some("looks right".to_string()));
    assert_eq!(st.events[1].event_type, EventType::ProblemSolved);
    assert_eq!(st.events[1].entity, "p1");
    assert_eq!(autos.len(), 2);
}

#[test]
fn forced_approval_skips_submission_and_critiques() {
    let c = Critique::new("c1", "flaw", "s1", Severity::Critical);
    let mut st = store_with(
        vec![Problem::new("p1", "bug")],
        vec![solution("s1", "p1", SolutionStatus::Proposed)],
        vec![c],
    );
    approve_solution(&mut st, "s1", true, None, NOW).unwrap();
    assert_eq!(st.solutions[0].status, SolutionStatus::Approved);
    assert!(st.solutions[0].force_approved);
}

#[test]
fn approving_twice_does_nothing_more() {
    let mut st = store_with(
        vec![Problem::new("p1", "bug")],
        vec![solution("s1", "p1", SolutionStatus::Approved)],
        Vec::new(),
    );
    let autos = approve_solution(&mut st, "s1", false, None, NOW).unwrap();
    assert!(autos.is_empty());
    assert!(st.events.is_empty());
}

#[test]
fn unknown_solution_is_reported_by_id() {
    let mut st = store_with(Vec::new(), Vec::new(), Vec::new());
    assert_eq!(
        approve_solution(&mut st, "nope", false, None, NOW).err(),
        Some(JjjError::SolutionNotFound("nope".to_string()))
    );
    assert_eq!(
        submit_solution(&mut st, "nope", NOW).err(),
        Some(JjjError::SolutionNotFound("nope".to_string()))
    );
}

#[test]
fn submitting_moves_an_open_problem_in_progress() {
    let mut st = store_with(
        vec![Problem::new("p1", "bug")],
        vec![solution("s1", "p1", SolutionStatus::Proposed)],
        Vec::new(),
    );
    submit_solution(&mut st, "s1", NOW).unwrap();
    assert_eq!(st.solutions[0].status, SolutionStatus::Submitted);
    assert_eq!(st.problems[0].status, ProblemStatus::InProgress);
    assert_eq!(st.events[0].event_type, EventType::SolutionSubmitted);
}

#[test]
fn submitting_twice_is_an_invalid_transition() {
    let mut st = store_with(
        vec![Problem::new("p1", "bug")],
        vec![solution("s1", "p1", SolutionStatus::Submitted)],
        Vec::new(),
    );
    assert_eq!(
        submit_solution(&mut st, "s1", NOW).err(),
        Some(JjjError::InvalidTransition("s1".to_string()))
    );
}

#[test]
fn withdrawing_records_the_rationale() {
    let mut st = store_with(
        vec![Problem::new("p1", "bug")],
        vec![solution("s1", "p1", SolutionStatus::Proposed)],
        Vec::new(),
    );
    withdraw_solution(&mut st, "s1", Some("wrong approach"), NOW).unwrap();
    assert_eq!(st.solutions[0].status, SolutionStatus::Withdrawn);
    assert_eq!(st.events[0].event_type, EventType::SolutionWithdrawn);
    assert_eq!(st.events[0].rationale, Some("wrong approach".to_string()));
    assert_eq!(
        withdraw_solution(&mut st, "s1", None, NOW).err(),
        Some(JjjError::InvalidTransition("s1".to_string()))
    );
}

#[test]
fn solving_needs_an_approved_solution() {
    let mut st = store_with(
        vec![Problem::new("p1", "bug")],
        vec![solution("s1", "p1", SolutionStatus::Submitted)],
        Vec::new(),
    );
    assert_eq!(
        solve_problem(&mut st, "p1", NOW).err(),
        Some(JjjError::CannotSolveProblem(SolveCheck::NoApprovedSolution))
    );
    st.solutions[0].status = SolutionStatus::Approved;
    solve_problem(&mut st, "p1", NOW).unwrap();
    assert_eq!(st.problems[0].status, ProblemStatus::Solved);
    let again = solve_problem(&mut st, "p1", NOW).unwrap();
    assert!(again.is_empty());
}

#[test]
fn dissolving_needs_a_known_user() {
    let mut st = store_with(vec![Problem::new("p1", "bug")], Vec::new(), Vec::new());
    st.user = None;
    assert_eq!(dissolve_problem(&mut st, "p1", None, NOW).err(), Some(JjjError::UnknownUser));
    assert_eq!(st.problems[0].status, ProblemStatus::Open);
}

#[test]
fn dissolving_with_a_reason_records_it() {
    let mut st = store_with(vec![Problem::new("p1", "bug")], Vec::new(), Vec::new());
    dissolve_problem(&mut st, "p1", Some("false premise"), NOW).unwrap();
    assert_eq!(st.problems[0].status, ProblemStatus::Dissolved);
    assert_eq!(st.problems[0].dissolved_reason, Some("false premise".to_string()));
    assert_eq!(st.events[0].event_type, EventType::ProblemDissolved);
}

#[test]
fn reopening_a_solved_problem() {
    let mut p = Problem::new("p1", "bug");
    p.status = ProblemStatus::Solved;
    let mut st = store_with(vec![p], Vec::new(), Vec::new());
    reopen_problem(&mut st, "p1", NOW).unwrap();
    assert_eq!(st.problems[0].status, ProblemStatus::Open);
    assert_eq!(st.events[0].event_type, EventType::ProblemReopened);
    assert_eq!(
        reopen_problem(&mut st, "p1", NOW).err(),
        Some(JjjError::InvalidTransition("p1".to_string()))
    );
    assert_eq!(
        reopen_problem(&mut st, "p9", NOW).err(),
        Some(JjjError::ProblemNotFound("p9".to_string()))
    );
}

#[test]
fn critique_operations_follow_their_transitions() {
    let mut st = store_with(
        vec![Problem::new("p1", "bug")],
        vec![solution("s1", "p1", SolutionStatus::Submitted)],
        vec![
            Critique::new("c1", "flaw", "s1", Severity::Low),
            Critique::new("c2", "nit", "s1", Severity::Low),
        ],
    );
    validate_critique(&mut st, "c1", NOW).unwrap();
    assert_eq!(st.critiques[0].status, CritiqueStatus::Valid);
    assert_eq!(
        validate_critique(&mut st, "c1", NOW),
        Err(JjjError::InvalidTransition("c1".to_string()))
    );
    address_critique(&mut st, "c1", NOW).unwrap();
    assert_eq!(st.critiques[0].status, CritiqueStatus::Addressed);
    dismiss_critique(&mut st, "c2", NOW).unwrap();
    assert_eq!(st.critiques[1].status, CritiqueStatus::Dismissed);
    assert_eq!(
        dismiss_critique(&mut st, "c3", NOW),
        Err(JjjError::CritiqueNotFound("c3".to_string()))
    );
    assert_eq!(st.events.len(), 3);
    assert_eq!(st.events[2].event_type, EventType::CritiqueDismissed);
    approve_solution(&mut st, "s1", false, None, NOW).unwrap();
    assert_eq!(st.solutions[0].status, SolutionStatus::Approved);
}

#[test]
fn submitted_work_with_every_critique_dealt_with_is_offered_for_approval() {
    let mut mine = solution("s1", "p1", SolutionStatus::Submitted);
    mine.assignee = Some("alice".to_string());
    let mut blocked = solution("s2", "p1", SolutionStatus::Submitted);
    blocked.assignee = Some("alice".to_string());
    let mut unreviewed = solution("s3", "p1", SolutionStatus::Submitted);
    unreviewed.assignee = Some("alice".to_string());
    let theirs = solution("s4", "p1", SolutionStatus::Submitted);
    let mut addressed = Critique::new("c1", "flaw", "s1", Severity::Low);
    addressed.status = CritiqueStatus::Addressed;
    let st = store_with(
        vec![Problem::new("p1", "bug")],
        vec![mine, blocked, unreviewed, theirs],
        vec![addressed, Critique::new("c2", "flaw", "s2", Severity::Low)],
    );
    assert_eq!(approval_candidates(&st, "alice"), vec![0]);
    assert!(approval_candidates(&st, "bob").is_empty());
}
