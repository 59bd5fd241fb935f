use jjj::board::{
    board_columns, board_problem_tally, format_solution_cell, open_critique_count, BoardColumns,
};
use jjj::models::{Critique, CritiqueStatus, Problem, ProblemStatus, Severity, Solution, SolutionStatus};

fn solution(id: &str, status: SolutionStatus) -> Solution {
    let mut s = Solution::new(id, "t", "p1");
    s.status = status;
    s
}

#[test]
fn solutions_fall_into_their_columns() {
    let ss = vec![
        solution("s1", SolutionStatus::Approved),
        solution("s2", SolutionStatus::Proposed),
        solution("s3", SolutionStatus::Proposed),
        solution("s4", SolutionStatus::Withdrawn),
    ];
    assert_eq!(
        board_columns(&ss),
        BoardColumns { proposed: vec![1, 2], submitted: vec![], approved: vec![0], withdrawn: vec![3] }
    );
}

#[test]
fn cells_show_id_title_and_open_critiques() {
    assert_eq!(format_solution_cell("s1", "Short", 0, 30), "s1 Short");
    assert_eq!(format_solution_cell("s1", "Short", 2, 30), "s1 Short [2!]");
    // 30 - 2 (id) - 5 (" [2!]") - 2 = 21 bytes of room; the title is cut at 18.
    assert_eq!(
        format_solution_cell("s1", "A considerably longer title", 2, 30),
        "s1 A considerably lon... [2!]"
    );
}

#[test]
fn critique_counts_and_the_problem_tally() {
    let mut done = Critique::new("c2", "x", "s1", Severity::Low);
    done.status = CritiqueStatus::Addressed;
    let cs = vec![Critique::new("c1", "x", "s1", Severity::Low), done, Critique::new("c3", "x", "s2", Severity::Low)];
    assert_eq!(open_critique_count(&cs, "s1"), 1);
    let mut solved = Problem::new("p2", "b");
    solved.status = ProblemStatus::Solved;
    let mut dissolved = Problem::new("p3", "c");
    dissolved.status = ProblemStatus::Dissolved;
    assert_eq!(board_problem_tally(&vec![Problem::new("p1", "a"), solved, dissolved]), (1, 2));
}
