use jjj::models::{Solution, SolutionStatus};
use jjj::overlaps::{changes_to_ask, find_overlaps, Overlap};

fn path(p: &str) -> Vec<String> {
    p.split('/').map(|c| c.to_string()).collect()
}

fn solutions() -> Vec<Solution> {
    let mut s1 = Solution::new("bbb", "B", "p1");
    s1.change_ids = vec!["c1".to_string(), "c2".to_string()];
    let mut s2 = Solution::new("aaa", "A", "p1");
    s2.status = SolutionStatus::Submitted;
    s2.change_ids = vec!["c3".to_string()];
    let mut s3 = Solution::new("ccc", "C", "p2");
    s3.status = SolutionStatus::Approved;
    s3.change_ids = vec!["c4".to_string()];
    vec![s1, s2, s3]
}

#[test]
fn only_active_solutions_are_asked_about() {
    let asks = changes_to_ask(&solutions());
    assert_eq!(asks, vec![(0, "c1".to_string()), (0, "c2".to_string()), (1, "c3".to_string())]);
}

#[test]
fn overlaps_in_path_order_with_solutions_by_id() {
    let ss = solutions();
    let touched = vec![
        (0, path("src/main.rs")),
        (0, path("src-b/x")),
        (0, path("src/main.rs")),
        (1, path("src-b/x")),
        (1, path("src/main.rs")),
        (0, path("docs/only.md")),
    ];
    let both = vec![("aaa".to_string(), "A".to_string()), ("bbb".to_string(), "B".to_string())];
    assert_eq!(
        find_overlaps(&ss, &touched),
        vec![
            Overlap { file: path("src/main.rs"), solutions: both.clone() },
            Overlap { file: path("src-b/x"), solutions: both },
        ]
    );
}

#[test]
fn one_solution_touching_a_file_twice_is_no_overlap() {
    let ss = solutions();
    let touched = vec![(0, path("a.rs")), (0, path("a.rs")), (1, path("b.rs"))];
    assert!(find_overlaps(&ss, &touched).is_empty());
}

#[test]
fn a_shorter_path_comes_before_a_longer_one_that_starts_with_it() {
    let ss = solutions();
    let touched = vec![(0, path("a/b")), (1, path("a/b")), (0, path("a")), (1, path("a"))];
    let files: Vec<Vec<String>> = find_overlaps(&ss, &touched).into_iter().map(|o| o.file).collect();
    assert_eq!(files, vec![path("a"), path("a/b")]);
}
