use jjj::models::{Problem, ProblemStatus, Solution, SolutionStatus};
use jjj::tree::{graph_icon, graph_lead, graph_problems, problem_tree, tree_text, walk, Step, TreeLine};

fn child(id: &str, title: &str, parent: &str, status: ProblemStatus) -> Problem {
    let mut p = Problem::new(id, title);
    p.parent_id = Some(parent.to_string());
    p.status = status;
    p
}

fn problems() -> Vec<Problem> {
    let p1 = Problem::new("p1", "root");
    let p2 = child("p2", "child a", "p1", ProblemStatus::Open);
    let p3 = child("p3", "child b", "p1", ProblemStatus::Solved);
    let p4 = child("p4", "grandchild", "p2", ProblemStatus::InProgress);
    let p5 = child("p5", "orphan", "px", ProblemStatus::Open);
    let mut p6 = Problem::new("p6", "done");
    p6.status = ProblemStatus::Dissolved;
    vec![p1, p2, p3, p4, p5, p6]
}

fn shape(steps: &[Step]) -> Vec<(usize, Vec<bool>, bool)> {
    steps.iter().map(|s| (s.problem, s.above.clone(), s.last)).collect()
}

fn leads(steps: &[Step]) -> Vec<String> {
    steps.iter().map(graph_lead).collect()
}

#[test]
fn graph_of_open_work_hides_closed_and_promotes_orphans() {
    let ps = problems();
    let g = graph_problems(&ps, None, false);
    assert_eq!(
        shape(&g),
        vec![(0, vec![], true), (1, vec![true], true), (3, vec![true, true], true), (4, vec![], true)]
    );
    assert_eq!(leads(&g), vec!["", "   └─ ", "      └─ ", ""]);
}

#[test]
fn graph_of_everything_draws_rails_between_siblings() {
    let ps = problems();
    let g = graph_problems(&ps, None, true);
    assert_eq!(
        shape(&g),
        vec![
            (0, vec![], true),
            (1, vec![true], false),
            (3, vec![true, false], true),
            (2, vec![true], true),
            (4, vec![], true),
            (5, vec![], true),
        ]
    );
    assert_eq!(leads(&g), vec!["", "   ├─ ", "   │  └─ ", "   └─ ", "", ""]);
}

#[test]
fn graph_within_a_milestone_only() {
    let mut ps = problems();
    ps[1].milestone_id = Some("m1".to_string());
    ps[3].milestone_id = Some("m1".to_string());
    let g = graph_problems(&ps, Some("m1"), false);
    // p2's parent is outside the milestone, so p2 is a root there.
    assert_eq!(shape(&g), vec![(1, vec![], true), (3, vec![true], true)]);
    assert!(graph_problems(&ps, Some("m2"), true).is_empty());
}

#[test]
fn graph_icons() {
    assert_eq!(graph_icon(ProblemStatus::Open), "○");
    assert_eq!(graph_icon(ProblemStatus::InProgress), "○");
    assert_eq!(graph_icon(ProblemStatus::Solved), "◉");
    assert_eq!(graph_icon(ProblemStatus::Dissolved), "×");
}

#[test]
fn tree_from_the_top_level_problems() {
    let ps = problems();
    let mut s1 = Solution::new("s1", "a", "p1");
    s1.status = SolutionStatus::Approved;
    let s2 = Solution::new("s2", "b", "p1");
    let ss = vec![s1, s2];
    let t = problem_tree(&ps, &ss, None);
    let line = |problem, depth, solutions, approved| TreeLine { problem, depth, solutions, approved };
    assert_eq!(
        t,
        vec![line(0, 0, 2, 1), line(1, 1, 0, 0), line(3, 2, 0, 0), line(2, 1, 0, 0), line(5, 0, 0, 0)]
    );
    assert_eq!(tree_text(&ps[0], &t[0]), "[ ] p1 root (2 solutions, 1 approved)");
    assert_eq!(tree_text(&ps[1], &t[1]), "  [ ] p2 child a");
    assert_eq!(tree_text(&ps[3], &t[2]), "    [>] p4 grandchild");
    assert_eq!(tree_text(&ps[2], &t[3]), "  [+] p3 child b");
    assert_eq!(tree_text(&ps[5], &t[4]), "[~] p6 done");
}

#[test]
fn tree_from_one_problem() {
    let ps = problems();
    let t = problem_tree(&ps, &Vec::new(), Some(1));
    let depths: Vec<(usize, usize)> = t.iter().map(|l| (l.problem, l.depth)).collect();
    assert_eq!(depths, vec![(1, 0), (3, 1)]);
}

#[test]
fn a_circle_of_parents_is_cut_after_as_many_levels_as_problems() {
    let ps = vec![child("a", "A", "b", ProblemStatus::Open), child("b", "B", "a", ProblemStatus::Open)];
    let t = problem_tree(&ps, &Vec::new(), Some(0));
    let depths: Vec<(usize, usize)> = t.iter().map(|l| (l.problem, l.depth)).collect();
    assert_eq!(depths, vec![(0, 0), (1, 1), (0, 2)]);
    // Neither is a top-level problem, so the whole tree is empty.
    assert!(problem_tree(&ps, &Vec::new(), None).is_empty());
}

#[test]
fn walk_marks_the_last_sibling() {
    let ps = problems();
    let w = walk(&ps, &vec![0, 1, 2, 3], &vec![0]);
    assert_eq!(
        shape(&w),
        vec![(0, vec![], true), (1, vec![true], false), (3, vec![true, false], true), (2, vec![true], true)]
    );
}
