use jjj::models::{Milestone, MilestoneStatus, Problem, ProblemStatus};
use jjj::rank::{
    check_order_given, default_rank_milestone, open_problems_in_milestone, parse_gap_arg,
    parse_piped_order, parse_position, place, push_unique, record_gap, take_out, user_breakdown,
    GapSize, PipedOrder, Position,
};
use jjj::store::{JjjError, MetadataStore};

fn strings(v: &[&str]) -> Vec<String> {
    v.iter().map(|s| s.to_string()).collect()
}

fn validation(msg: &str) -> JjjError {
    JjjError::Validation(msg.to_string())
}

#[test]
fn gap_arguments_split_at_the_last_colon() {
    assert_eq!(parse_gap_arg("p1:s").unwrap(), ("p1".to_string(), GapSize::S));
    assert_eq!(parse_gap_arg("a:b:XL").unwrap(), ("a:b".to_string(), GapSize::XL));
    assert_eq!(GapSize::XL.label(), "XL");
}

#[test]
fn malformed_gap_arguments_are_refused() {
    assert_eq!(
        parse_gap_arg("p1").unwrap_err(),
        validation("malformed --gap 'p1' — expected <problem>:<S|M|L|XL>")
    );
    assert_eq!(
        parse_gap_arg("p1:huge").unwrap_err(),
        validation("unknown gap size 'HUGE' — use S, M, L or XL")
    );
}

#[test]
fn a_gap_needs_its_problem_in_the_order() {
    let order = strings(&["p1", "p2"]);
    let mut gaps: Vec<(String, GapSize)> = Vec::new();
    record_gap(&mut gaps, "p1", GapSize::S, "first", &order).unwrap();
    record_gap(&mut gaps, "p1", GapSize::L, "first", &order).unwrap();
    assert_eq!(gaps, vec![("p1".to_string(), GapSize::L)]);
    assert_eq!(
        record_gap(&mut gaps, "p9", GapSize::M, "nine", &order).unwrap_err(),
        validation("--gap names 'nine', which is not in the ordering")
    );
    assert_eq!(gaps.len(), 1);
}

#[test]
fn an_order_is_a_sequence_without_repeats() {
    assert_eq!(
        check_order_given(&Vec::new()).unwrap_err(),
        validation("no problems given — pass them in priority order, highest first, or `-` to read them from stdin")
    );
    assert!(check_order_given(&strings(&["p1"])).is_ok());
    let mut order = Vec::new();
    push_unique(&mut order, "p1", "one").unwrap();
    push_unique(&mut order, "p2", "two").unwrap();
    assert_eq!(
        push_unique(&mut order, "p1", "uno").unwrap_err(),
        validation("'uno' appears twice — an ordering is a sequence, not a multiset")
    );
    assert_eq!(order, strings(&["p1", "p2"]));
}

#[test]
fn positions_are_parsed() {
    assert_eq!(parse_position("top").unwrap(), Position::Top);
    assert_eq!(parse_position("down").unwrap(), Position::Down);
    assert_eq!(parse_position("before:p7").unwrap(), Position::Before("p7".to_string()));
    assert_eq!(
        parse_position("sideways").unwrap_err(),
        validation("unknown position 'sideways' — use top, bottom, up, down, or before:<problem>")
    );
}

fn moved(order: &[&str], id: &str, pos: Position) -> Vec<String> {
    let order = strings(order);
    let (rest, from) = take_out(&order, id, id).unwrap();
    place(&rest, from, id, &pos, "target").unwrap()
}

#[test]
fn moving_an_item_keeps_the_others_in_order() {
    let order = ["a", "b", "c", "d"];
    assert_eq!(moved(&order, "c", Position::Top), strings(&["c", "a", "b", "d"]));
    assert_eq!(moved(&order, "b", Position::Bottom), strings(&["a", "c", "d", "b"]));
    assert_eq!(moved(&order, "c", Position::Up), strings(&["a", "c", "b", "d"]));
    assert_eq!(moved(&order, "b", Position::Down), strings(&["a", "c", "b", "d"]));
    assert_eq!(moved(&order, "a", Position::Up), strings(&["a", "b", "c", "d"]));
    assert_eq!(moved(&order, "d", Position::Down), strings(&["a", "b", "c", "d"]));
    assert_eq!(
        moved(&order, "d", Position::Before("b".to_string())),
        strings(&["a", "d", "b", "c"])
    );
}

#[test]
fn moving_needs_both_items_ranked() {
    let order = strings(&["a", "b"]);
    assert_eq!(
        take_out(&order, "z", "zed").unwrap_err(),
        validation("'zed' is not in your ordering — add it with `jjj rank set`")
    );
    let (rest, from) = take_out(&order, "a", "a").unwrap();
    assert_eq!((rest.clone(), from), (strings(&["b"]), 0));
    assert_eq!(
        place(&rest, from, "a", &Position::Before("q".to_string()), "queue").unwrap_err(),
        validation("'queue' is not in your ordering")
    );
}

#[test]
fn piped_orders_skip_blanks_and_comments() {
    let text = "\n  p1  # first\n\np2:m\n# only a comment\np3\n";
    match parse_piped_order(text).unwrap() {
        PipedOrder::Lines { order, gaps } => {
            assert_eq!(order, strings(&["p1", "p2", "p3"]));
            assert_eq!(gaps, strings(&["p2:m"]));
        }
        PipedOrder::Json => panic!("not json"),
    }
    assert_eq!(parse_piped_order("  {\"order\": []}").unwrap(), PipedOrder::Json);
    assert_eq!(
        parse_piped_order("  \n ").unwrap_err(),
        validation("nothing on stdin — expected one problem reference per line")
    );
}

#[test]
fn the_default_milestone_is_the_first_active_one() {
    let mut m1 = Milestone::new("m1", "planned");
    m1.status = MilestoneStatus::Planning;
    let mut m2 = Milestone::new("m2", "now");
    m2.status = MilestoneStatus::Active;
    let mut m3 = Milestone::new("m3", "also now");
    m3.status = MilestoneStatus::Active;
    assert_eq!(default_rank_milestone(&vec![m1, m2, m3]).unwrap(), "m2");
    assert_eq!(
        default_rank_milestone(&Vec::new()).unwrap_err(),
        validation("No active milestone found. Create one with `jjj milestone new` or specify a milestone.")
    );
}

#[test]
fn a_milestone_ranges_over_its_open_problems() {
    let mut p1 = Problem::new("p1", "one");
    p1.milestone_id = Some("m1".to_string());
    let mut p2 = Problem::new("p2", "two");
    p2.status = ProblemStatus::Solved;
    p2.milestone_id = Some("m1".to_string());
    let p3 = Problem::new("p3", "three");
    let mut m = Milestone::new("m1", "release");
    m.problem_ids = strings(&["p3", "p1", "p2", "missing"]);
    let store = MetadataStore {
        problems: vec![p1, p2, p3],
        solutions: Vec::new(),
        critiques: Vec::new(),
        milestones: vec![m],
        events: Vec::new(),
        user: None,
        automation: Vec::new(),
        local_automation: None,
        settings: Vec::new(),
    };
    assert_eq!(
        open_problems_in_milestone(&store, "m1").unwrap(),
        vec![
            ("p1".to_string(), "one".to_string()),
            ("p3".to_string(), "three".to_string())
        ]
    );
    assert_eq!(
        open_problems_in_milestone(&store, "m9").unwrap_err(),
        JjjError::MilestoneNotFound("m9".to_string())
    );
}

#[test]
fn a_users_ordering_shows_open_problems_with_gaps() {
    let order = strings(&["p3", "p9", "p1", "p2"]);
    let gaps = vec![("p1".to_string(), GapSize::L), ("p9".to_string(), GapSize::S)];
    let open = strings(&["p1", "p2", "p3"]);
    assert_eq!(
        user_breakdown(&order, &gaps, &open),
        vec![
            ("p3".to_string(), None),
            ("p1".to_string(), Some(GapSize::L)),
            ("p2".to_string(), None),
        ]
    );
}
