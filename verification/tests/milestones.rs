use jjj::milestones::{
    add_to_milestone, milestone_icon, milestone_progress, problem_icon, remove_from_milestone,
    roadmap_order, roadmap_progress, MilestoneProgress, ProblemLine,
};
use jjj::models::{Milestone, MilestoneStatus, Problem, ProblemStatus, Solution, SolutionStatus};
use jjj::store::{JjjError, MetadataStore};

fn store() -> MetadataStore {
    let mut p2 = Problem::new("p2", "two");
    p2.status = ProblemStatus::Solved;
    let mut p3 = Problem::new("p3", "three");
    p3.status = ProblemStatus::InProgress;
    let mut s1 = Solution::new("s1", "a", "p2");
    s1.status = SolutionStatus::Approved;
    let mut s2 = Solution::new("s2", "b", "p2");
    s2.status = SolutionStatus::Submitted;
    let s3 = Solution::new("s3", "c", "p3");
    let mut m = Milestone::new("m1", "release");
    m.problem_ids = vec!["p2".to_string(), "gone".to_string(), "p3".to_string(), "p1".to_string()];
    MetadataStore {
        problems: vec![Problem::new("p1", "one"), p2, p3],
        solutions: vec![s1, s2, s3],
        critiques: Vec::new(),
        milestones: vec![m],
        events: Vec::new(),
        user: None,
        automation: Vec::new(),
        local_automation: None,
        settings: Vec::new(),
    }
}

#[test]
fn progress_counts_the_listed_problems() {
    let st = store();
    let pr = milestone_progress(&st, &st.milestones[0]);
    assert_eq!(
        pr,
        MilestoneProgress {
            lines: vec![
                ProblemLine { position: 1, solutions: 2, approved: 1, submitted: 1 },
                ProblemLine { position: 2, solutions: 1, approved: 0, submitted: 0 },
                ProblemLine { position: 0, solutions: 0, approved: 0, submitted: 0 },
            ],
            done: 1,
            in_progress: 1,
            open: 1,
        }
    );
    assert_eq!(roadmap_progress(&st, &st.milestones[0]), "1/4 problems solved");
    assert_eq!(roadmap_progress(&st, &Milestone::new("m2", "empty")), "No problems");
    assert_eq!(problem_icon(ProblemStatus::Dissolved), "[~]");
    assert_eq!(milestone_icon(MilestoneStatus::Active), ">");
}

#[test]
fn the_roadmap_goes_by_date_with_undated_last() {
    let mut a = Milestone::new("mb", "b");
    a.target_date = Some(300);
    let b = Milestone::new("mz", "z");
    let mut c = Milestone::new("mc", "c");
    c.target_date = Some(100);
    let d = Milestone::new("ma", "a");
    let mut e = Milestone::new("me", "e");
    e.target_date = Some(300);
    assert_eq!(roadmap_order(&vec![a, b, c, d, e]), vec![2, 0, 4, 3, 1]);
}

#[test]
fn adding_and_removing_problems() {
    let mut st = store();
    assert_eq!(add_to_milestone(&mut st, "m1", "p3"), Ok(false));
    let mut m2 = Milestone::new("m2", "next");
    m2.problem_ids = vec!["p1".to_string()];
    st.milestones.push(m2);
    assert_eq!(add_to_milestone(&mut st, "m2", "p3"), Ok(true));
    assert_eq!(st.milestones[1].problem_ids, vec!["p1".to_string(), "p3".to_string()]);
    assert_eq!(st.problems[2].milestone_id, Some("m2".to_string()));
    assert_eq!(
        add_to_milestone(&mut st, "m9", "p3"),
        Err(JjjError::MilestoneNotFound("m9".to_string()))
    );
    assert_eq!(
        add_to_milestone(&mut st, "m1", "p9"),
        Err(JjjError::ProblemNotFound("p9".to_string()))
    );
    remove_from_milestone(&mut st, "m1", "p3").unwrap();
    assert_eq!(
        st.milestones[0].problem_ids,
        vec!["p2".to_string(), "gone".to_string(), "p1".to_string()]
    );
    // p3 names m2, so taking it off m1 leaves that alone.
    assert_eq!(st.problems[2].milestone_id, Some("m2".to_string()));
    remove_from_milestone(&mut st, "m2", "p3").unwrap();
    assert_eq!(st.problems[2].milestone_id, None);
    assert_eq!(st.milestones[1].problem_ids, vec!["p1".to_string()]);
}
