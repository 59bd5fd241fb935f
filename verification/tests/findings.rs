use jjj::findings::{check_delete, check_edit, list_findings, record_finding, Finding, FindingFilter, FindingStatus};
use jjj::models::Problem;
use jjj::store::JjjError;

fn strings(v: &[&str]) -> Vec<String> {
    v.iter().map(|s| s.to_string()).collect()
}

fn recorded() -> Vec<Finding> {
    let problems = vec![Problem::new("p1", "slow"), Problem::new("p2", "crash")];
    let mut fs = Vec::new();
    record_finding(&mut fs, &problems, "f1", "p1", "cold cache", "3s", Some("timing"), &strings(&["s1"]), &strings(&["perf"]), "Alice", 10).unwrap();
    record_finding(&mut fs, &problems, "f2", "p2", "null ptr", "trace", None, &strings(&["c1", "s2"]), &Vec::new(), "bob", 20).unwrap();
    record_finding(&mut fs, &problems, "f3", "p1", "warm", "1s", None, &Vec::new(), &Vec::new(), "carol", 30).unwrap();
    fs
}

#[test]
fn a_finding_is_recorded_on_an_existing_problem() {
    let fs = recorded();
    assert_eq!(fs.len(), 3);
    let f = &fs[0];
    assert_eq!((f.id.as_str(), f.title.as_str(), f.problem_id.as_str()), ("f1", "cold cache", "p1"));
    assert_eq!(f.method.as_deref(), Some("timing"));
    assert_eq!(f.refs, strings(&["s1"]));
    assert_eq!(f.author.as_deref(), Some("Alice"));
    assert_eq!(f.status, FindingStatus::Current);
    assert_eq!(f.created_at, 10);
    let mut fs = fs;
    let r = record_finding(&mut fs, &Vec::new(), "f9", "p9", "t", "e", None, &Vec::new(), &Vec::new(), "a", 0);
    assert_eq!(r, Err(JjjError::ProblemNotFound("p9".to_string())));
    assert_eq!(fs.len(), 3);
}

#[test]
fn findings_are_listed_by_filter() {
    let mut fs = recorded();
    fs[2].status = FindingStatus::Superseded;
    let none = FindingFilter { problem: None, status: None, author: None, about: None };
    assert_eq!(list_findings(&fs, &none), vec![0, 1, 2]);
    let p1 = FindingFilter { problem: Some("p1".to_string()), status: None, author: None, about: None };
    assert_eq!(list_findings(&fs, &p1), vec![0, 2]);
    let cur = FindingFilter { problem: None, status: Some(FindingStatus::Current), author: None, about: None };
    assert_eq!(list_findings(&fs, &cur), vec![0, 1]);
    let who = FindingFilter { problem: None, status: None, author: Some("@ALI".to_string()), about: None };
    assert_eq!(list_findings(&fs, &who), vec![0]);
    let about = FindingFilter { problem: None, status: None, author: None, about: Some(strings(&["s2", "zz"])) };
    assert_eq!(list_findings(&fs, &about), vec![1]);
}

#[test]
fn edits_and_deletes_are_checked() {
    assert_eq!(check_edit(false, true, false), Ok(()));
    assert_eq!(
        check_edit(false, false, false),
        Err(JjjError::Validation("nothing to change — pass --title, --method or --body".to_string()))
    );
    assert_eq!(check_delete(true), Ok(()));
    assert_eq!(check_delete(false), Err(JjjError::Validation("delete not confirmed".to_string())));
}
