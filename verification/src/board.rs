//! The solution board: solutions in one column per status, each cell a
//! solution id, its title cut to fit, and a mark for open critiques.

use vstd::prelude::*;
use crate::domain::open_critiques_of;
use crate::models::{Critique, CritiqueStatus, Problem, ProblemStatus, Solution, SolutionStatus};
use crate::search::{byte_len, byte_prefix, chars_in_bytes, is_char_boundary, utf8_len};
use crate::text::{append_chars, chars_of, copy_range, decimal, push_decimal, str_eq, string_of};

verus! {

/// Positions of the solutions with status `st`, in list order.
pub open spec fn column(ss: Seq<Solution>, st: SolutionStatus) -> Seq<int> {
    Seq::new(ss.len(), |i: int| i).filter(|i: int| ss[i].status == st)
}

/// The board's columns: proposed, submitted, approved and withdrawn.
#[derive(Debug, PartialEq)]
pub struct BoardColumns {
    pub proposed: Vec<usize>,
    pub submitted: Vec<usize>,
    pub approved: Vec<usize>,
    pub withdrawn: Vec<usize>,
}

pub open spec fn positions(v: Seq<usize>) -> Seq<int> {
    v.map_values(|k: usize| k as int)
}

fn column_exec(ss: &Vec<Solution>, st: SolutionStatus) -> (r: Vec<usize>)
    ensures
        positions(r@) == column(ss@, st),
{
    let ghost pred = |i: int| ss@[i].status == st;
    let mut r: Vec<usize> = Vec::new();
    let mut i: usize = 0;
    while i < ss.len()
        invariant
            i <= ss.len(),
            pred == (|i: int| ss@[i].status == st),
            positions(r@) == Seq::new(i as nat, |j: int| j).filter(pred),
        decreases ss.len() - i,
    {
        let ghost prev = Seq::new(i as nat, |j: int| j).filter(pred);
        proof {
            reveal(Seq::filter);
            assert(Seq::new((i + 1) as nat, |j: int| j).drop_last() =~= Seq::new(i as nat, |j: int| j));
        }
        if ss[i].status == st {
            r.push(i);
            assert(positions(r@) =~= prev.push(i as int));
            assert(Seq::new((i + 1) as nat, |j: int| j).filter(pred) =~= prev.push(i as int));
        } else {
            assert(Seq::new((i + 1) as nat, |j: int| j).filter(pred) =~= prev);
        }
        i += 1;
    }
    assert(Seq::new(i as nat, |j: int| j) =~= Seq::new(ss@.len(), |i: int| i));
    r
}

/// Group solutions into the board's columns.
pub fn board_columns(solutions: &Vec<Solution>) -> (b: BoardColumns)
    ensures
        positions(b.proposed@) == column(solutions@, SolutionStatus::Proposed),
        positions(b.submitted@) == column(solutions@, SolutionStatus::Submitted),
        positions(b.approved@) == column(solutions@, SolutionStatus::Approved),
        positions(b.withdrawn@) == column(solutions@, SolutionStatus::Withdrawn),
{
    BoardColumns {
        proposed: column_exec(solutions, SolutionStatus::Proposed),
        submitted: column_exec(solutions, SolutionStatus::Submitted),
        approved: column_exec(solutions, SolutionStatus::Approved),
        withdrawn: column_exec(solutions, SolutionStatus::Withdrawn),
    }
}

/// The open critiques of solution `sid`.
pub fn open_critique_count(critiques: &Vec<Critique>, sid: &str) -> (n: usize)
    ensures
        n == open_critiques_of(critiques@, sid@),
{
    let ghost pred = |c: Critique| c.solution_id@ == sid@ && c.status == CritiqueStatus::Open;
    let mut n: usize = 0;
    let mut i: usize = 0;
    while i < critiques.len()
        invariant
            i <= critiques.len(),
            pred == (|c: Critique| c.solution_id@ == sid@ && c.status == CritiqueStatus::Open),
            n == critiques@.take(i as int).filter(pred).len(),
            n <= i,
        decreases critiques.len() - i,
    {
        proof {
            reveal(Seq::filter);
            assert(critiques@.take(i + 1).drop_last() =~= critiques@.take(i as int));
        }
        if critiques[i].status == CritiqueStatus::Open && str_eq(critiques[i].solution_id.as_str(), sid) {
            n += 1;
        }
        i += 1;
    }
    assert(critiques@.take(i as int) =~= critiques@);
    n
}

// ───────────────────────── cells ─────────────────────────

/// ` [n!]` for a solution with `n` open critiques, nothing for none.
pub open spec fn badge(n: nat) -> Seq<char> {
    if n > 0 {
        " ["@ + decimal(n) + "!]"@
    } else {
        Seq::empty()
    }
}

/// The bytes left for the title in a cell `width` bytes wide.
pub open spec fn title_room(id: Seq<char>, n: nat, width: nat) -> int {
    width - utf8_len(id) - utf8_len(badge(n)) - 2
}

/// Where an over-long title is cut: three bytes before the room runs out,
/// leaving space for `...` (none when the room is under three bytes).
pub open spec fn cut_at(room: int) -> nat {
    if room >= 3 {
        (room - 3) as nat
    } else {
        0
    }
}

/// A cell can be drawn when the id and the mark leave room, and a title
/// that must be cut can be cut between two characters.
pub open spec fn cell_fits(id: Seq<char>, title: Seq<char>, n: nat, width: nat) -> bool {
    let room = title_room(id, n, width);
    &&& room >= 0
    &&& utf8_len(title) > room ==> is_char_boundary(title, cut_at(room))
}

/// The cell: the id, a space, the title (cut to its first bytes and `...`
/// when longer than the room), then the mark.
pub open spec fn cell_spec(id: Seq<char>, title: Seq<char>, n: nat, width: nat) -> Seq<char> {
    let room = title_room(id, n, width);
    id + " "@ + (if utf8_len(title) > room {
        byte_prefix(title, cut_at(room)) + "..."@
    } else {
        title
    }) + badge(n)
}

fn badge_exec(n: usize) -> (r: Vec<char>)
    ensures
        r@ == badge(n as nat),
{
    if n == 0 {
        return Vec::new();
    }
    let mut v = chars_of(" [");
    push_decimal(&mut v, n as u64);
    let tail = chars_of("!]");
    append_chars(&mut v, &tail);
    v
}

/// Draw one board cell `width` bytes wide for a solution with
/// `open_critiques` open critiques.
pub fn format_solution_cell(id: &str, title: &str, open_critiques: usize, width: usize) -> (r: String)
    requires
        cell_fits(id@, title@, open_critiques as nat, width as nat),
        utf8_len(title@) <= usize::MAX,
    ensures
        r@ == cell_spec(id@, title@, open_critiques as nat, width as nat),
{
    let iv = chars_of(id);
    let tv = chars_of(title);
    let b = badge_exec(open_critiques);
    let id_len = byte_len(&iv);
    let b_len = byte_len(&b);
    let room = width - id_len - b_len - 2;
    let t_len = byte_len(&tv);
    let mut out = chars_of(id);
    let sp = chars_of(" ");
    append_chars(&mut out, &sp);
    if t_len > room {
        let cut = if room >= 3 {
            room - 3
        } else {
            0
        };
        match chars_in_bytes(&tv, cut) {
            Some(k) => {
                let head = copy_range(&tv, 0, k);
                proof {
                    let c = choose|j: int| 0 <= j <= tv@.len() && utf8_len(#[trigger] tv@.take(j)) == cut;
                    crate::search::lemma_take_width_unique(tv@, c, k as int);
                    assert(head@ =~= byte_prefix(tv@, cut as nat));
                }
                append_chars(&mut out, &head);
                let dots = chars_of("...");
                append_chars(&mut out, &dots);
            },
            None => {
                assert(false);
            },
        }
    } else {
        append_chars(&mut out, &tv);
    }
    append_chars(&mut out, &b);
    string_of(&out)
}

/// The problems tally under the board: open ones, and solved or dissolved
/// ones.
pub open spec fn problem_tally(ps: Seq<Problem>) -> (nat, nat) {
    (
        ps.filter(|p: Problem| p.status == ProblemStatus::Open || p.status == ProblemStatus::InProgress).len(),
        ps.filter(|p: Problem| p.status == ProblemStatus::Solved || p.status == ProblemStatus::Dissolved).len(),
    )
}

pub fn board_problem_tally(problems: &Vec<Problem>) -> (r: (usize, usize))
    ensures
        (r.0 as nat, r.1 as nat) == problem_tally(problems@),
{
    let ghost po = |p: Problem| p.status == ProblemStatus::Open || p.status == ProblemStatus::InProgress;
    let ghost pd = |p: Problem| p.status == ProblemStatus::Solved || p.status == ProblemStatus::Dissolved;
    let mut open: usize = 0;
    let mut done: usize = 0;
    let mut i: usize = 0;
    while i < problems.len()
        invariant
            i <= problems.len(),
            po == (|p: Problem| p.status == ProblemStatus::Open || p.status == ProblemStatus::InProgress),
            pd == (|p: Problem| p.status == ProblemStatus::Solved || p.status == ProblemStatus::Dissolved),
            open == problems@.take(i as int).filter(po).len(),
            done == problems@.take(i as int).filter(pd).len(),
            open <= i,
            done <= i,
        decreases problems.len() - i,
    {
        proof {
            reveal(Seq::filter);
            assert(problems@.take(i + 1).drop_last() =~= problems@.take(i as int));
        }
        let st = problems[i].status;
        if st == ProblemStatus::Open || st == ProblemStatus::InProgress {
            open += 1;
        } else {
            done += 1;
        }
        i += 1;
    }
    assert(problems@.take(i as int) =~= problems@);
    (open, done)
}


// ───────────────────────── laws ─────────────────────────

/// The tally counts every problem exactly once: open and in-progress ones on
/// one side, solved and dissolved ones on the other.
pub proof fn law_tally_counts_every_problem(ps: Seq<Problem>)
    ensures
        problem_tally(ps).0 + problem_tally(ps).1 == ps.len(),
    decreases ps.len(),
{
    if ps.len() > 0 {
        let front = ps.drop_last();
        law_tally_counts_every_problem(front);
        assert(front.push(ps.last()) =~= ps);
        front.lemma_filter_push(ps.last(), |p: Problem| p.status == ProblemStatus::Open || p.status == ProblemStatus::InProgress);
        front.lemma_filter_push(ps.last(), |p: Problem| p.status == ProblemStatus::Solved || p.status == ProblemStatus::Dissolved);
    }
}

} // verus!
