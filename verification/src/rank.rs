//! Authoring priority orders: reading an order, the gaps between its items,
//! moving one item, and which problems a milestone's order ranges over.

use vstd::prelude::*;
use crate::models::{opt_str_eq, opt_view, problem_is_open, Milestone, MilestoneStatus, Problem, ProblemStatus};
use crate::store::{has_milestone, has_problem, milestone_idx, problem_idx, MetadataStore};
use crate::store::JjjError;
use crate::text::{copy_strings, strs, copy_str, 
    after_last, after_last_exec, append_chars, ascii_upper_seq, chars_of, copy_range, split_lines,
    split_lines_exec, str_eq, string_of, trim, trim_chars, upper_ascii, views,
};

verus! {

// ───────────────────────── gap sizes ─────────────────────────

/// How far apart two adjacent items of an order are meant to be.
#[derive(Debug, Clone, Copy, PartialEq, Eq, Structural)]
pub enum GapSize {
    S,
    M,
    L,
    XL,
}

pub open spec fn gap_label(g: GapSize) -> Seq<char> {
    match g {
        GapSize::S => "S"@,
        GapSize::M => "M"@,
        GapSize::L => "L"@,
        GapSize::XL => "XL"@,
    }
}

/// The size an (already upper-cased) label names.
pub open spec fn gap_from_label(u: Seq<char>) -> Option<GapSize> {
    if u == "S"@ {
        Some(GapSize::S)
    } else if u == "M"@ {
        Some(GapSize::M)
    } else if u == "L"@ {
        Some(GapSize::L)
    } else if u == "XL"@ {
        Some(GapSize::XL)
    } else {
        None
    }
}

impl GapSize {
    pub fn label(&self) -> (r: &'static str)
        ensures
            r@ == gap_label(*self),
    {
        match self {
            GapSize::S => "S",
            GapSize::M => "M",
            GapSize::L => "L",
            GapSize::XL => "XL",
        }
    }
}

fn gap_from_upper(u: &Vec<char>) -> (r: Option<GapSize>)
    ensures
        r == gap_from_label(u@),
{
    let s = string_of(u);
    if str_eq(s.as_str(), "S") {
        Some(GapSize::S)
    } else if str_eq(s.as_str(), "M") {
        Some(GapSize::M)
    } else if str_eq(s.as_str(), "L") {
        Some(GapSize::L)
    } else if str_eq(s.as_str(), "XL") {
        Some(GapSize::XL)
    } else {
        None
    }
}

// ───────────────────────── messages ─────────────────────────

fn quoted_message(before: &str, subject: &Vec<char>, after: &str) -> (r: String)
    ensures
        r@ == before@ + subject@ + after@,
{
    let mut m = chars_of(before);
    append_chars(&mut m, subject);
    let a = chars_of(after);
    append_chars(&mut m, &a);
    string_of(&m)
}

pub open spec fn is_validation(r: JjjError, msg: Seq<char>) -> bool {
    r matches JjjError::Validation(m) && m@ == msg
}

// ───────────────────────── gap arguments ─────────────────────────

/// `str::rsplit_once(':')`: the text before and after the last colon.
pub open spec fn rsplit_colon(g: Seq<char>) -> Option<(Seq<char>, Seq<char>)> {
    let k = after_last(g, ':', g.len() as int);
    if k == 0 {
        None
    } else {
        Some((g.take(k - 1), g.skip(k)))
    }
}

pub open spec fn malformed_gap_msg(g: Seq<char>) -> Seq<char> {
    "malformed --gap '"@ + g + "' — expected <problem>:<S|M|L|XL>"@
}

pub open spec fn unknown_size_msg(u: Seq<char>) -> Seq<char> {
    "unknown gap size '"@ + u + "' — use S, M, L or XL"@
}

/// Split a `<problem>:<size>` gap argument into the problem reference and
/// the size (case-insensitive).
pub fn parse_gap_arg(g: &str) -> (r: Result<(String, GapSize), JjjError>)
    ensures
        match rsplit_colon(g@) {
            None => r matches Err(e) && is_validation(e, malformed_gap_msg(g@)),
            Some((p, size)) => match gap_from_label(ascii_upper_seq(size)) {
                Some(gs) => r matches Ok((rp, rs)) && rp@ == p && rs == gs,
                None => r matches Err(e) && is_validation(e, unknown_size_msg(ascii_upper_seq(size))),
            },
        },
{
    let v = chars_of(g);
    let k = after_last_exec(&v, ':');
    if k == 0 {
        return Err(JjjError::Validation(quoted_message("malformed --gap '", &v, "' — expected <problem>:<S|M|L|XL>")));
    }
    let p = copy_range(&v, 0, k - 1);
    let size = copy_range(&v, k, v.len());
    assert(p@ =~= v@.take(k - 1));
    assert(size@ =~= v@.skip(k as int));
    let up = upper_ascii(&size);
    match gap_from_upper(&up) {
        Some(gs) => Ok((string_of(&p), gs)),
        None => Err(JjjError::Validation(quoted_message("unknown gap size '", &up, "' — use S, M, L or XL"))),
    }
}

pub open spec fn gaps_view(v: Seq<(String, GapSize)>) -> Seq<(Seq<char>, GapSize)> {
    v.map_values(|p: (String, GapSize)| (p.0@, p.1))
}

/// No problem carries two gaps.
pub open spec fn gap_keys_unique(g: Seq<(Seq<char>, GapSize)>) -> bool {
    forall|i: int, j: int| 0 <= i < j < g.len() ==> g[i].0 != g[j].0
}

/// The gap table with `id`'s gap set to `size` (replacing an earlier one).
pub open spec fn put_gap(g: Seq<(Seq<char>, GapSize)>, id: Seq<char>, size: GapSize) -> Seq<
    (Seq<char>, GapSize),
> {
    if exists|k: int| 0 <= k < g.len() && g[k].0 == id {
        let k = choose|k: int| 0 <= k < g.len() && g[k].0 == id;
        g.update(k, (id, size))
    } else {
        g.push((id, size))
    }
}

pub open spec fn gap_not_in_order_msg(reference: Seq<char>) -> Seq<char> {
    "--gap names '"@ + reference + "', which is not in the ordering"@
}

fn index_in(order: &Vec<String>, id: &str) -> (r: Option<usize>)
    ensures
        match r {
            Some(k) => k < order@.len() && order@[k as int]@ == id@ && forall|j: int|
                0 <= j < k ==> order@[j]@ != id@,
            None => !strs(order@).contains(id@),
        },
{
    let mut i: usize = 0;
    while i < order.len()
        invariant
            i <= order.len(),
            forall|j: int| 0 <= j < i ==> order@[j]@ != id@,
        decreases order.len() - i,
    {
        if str_eq(order[i].as_str(), id) {
            return Some(i);
        }
        i += 1;
    }
    proof {
        if strs(order@).contains(id@) {
            let j = choose|j: int| 0 <= j < strs(order@).len() && strs(order@)[j] == id@;
            assert(strs(order@)[j] == order@[j]@);
        }
    }
    None
}

/// Record the gap below `id` (given as `reference`), which must be in the
/// order.
pub fn record_gap(
    gaps: &mut Vec<(String, GapSize)>,
    id: &str,
    size: GapSize,
    reference: &str,
    order: &Vec<String>,
) -> (r: Result<(), JjjError>)
    requires
        gap_keys_unique(gaps_view(old(gaps)@)),
    ensures
        gap_keys_unique(gaps_view(final(gaps)@)),
        strs(order@).contains(id@) ==> r is Ok && gaps_view(final(gaps)@) == put_gap(
            gaps_view(old(gaps)@),
            id@,
            size,
        ),
        !strs(order@).contains(id@) ==> (r matches Err(e) && is_validation(
            e,
            gap_not_in_order_msg(reference@),
        )) && final(gaps)@ == old(gaps)@,
{
    let found = index_in(order, id);
    if let Some(k) = found {
        assert(strs(order@)[k as int] == id@);
    } else {
        let rv = chars_of(reference);
        return Err(JjjError::Validation(quoted_message("--gap names '", &rv, "', which is not in the ordering")));
    }
    let ghost g0 = gaps_view(gaps@);
    let mut i: usize = 0;
    while i < gaps.len()
        invariant
            i <= gaps.len(),
            gaps_view(gaps@) == g0,
            g0 == gaps_view(old(gaps)@),
            strs(order@).contains(id@),
            gap_keys_unique(g0),
            forall|j: int| 0 <= j < i ==> g0[j].0 != id@,
        decreases gaps.len() - i,
    {
        assert(g0[i as int] == (gaps@[i as int].0@, gaps@[i as int].1));
        if str_eq(gaps[i].0.as_str(), id) {
            proof {
                assert(exists|k: int| 0 <= k < g0.len() && g0[k].0 == id@);
                let k = choose|k: int| 0 <= k < g0.len() && g0[k].0 == id@;
                assert(k == i as int);
            }
            gaps.set(i, (copy_str(id), size));
            assert(gaps_view(gaps@) =~= g0.update(i as int, (id@, size)));
            return Ok(());
        }
        i += 1;
    }
    gaps.push((copy_str(id), size));
    assert(gaps_view(gaps@) =~= g0.push((id@, size)));
    Ok(())
}

// ───────────────────────── building an order ─────────────────────────

pub open spec fn empty_order_msg() -> Seq<char> {
    "no problems given — pass them in priority order, highest first, or `-` to read them from stdin"@
}

/// An order needs at least one problem.
pub fn check_order_given(problems: &Vec<String>) -> (r: Result<(), JjjError>)
    ensures
        problems@.len() > 0 <==> r is Ok,
        r matches Err(e) ==> is_validation(e, empty_order_msg()),
{
    if problems.len() == 0 {
        Err(JjjError::Validation(copy_str("no problems given — pass them in priority order, highest first, or `-` to read them from stdin")))
    } else {
        Ok(())
    }
}

pub open spec fn twice_msg(reference: Seq<char>) -> Seq<char> {
    "'"@ + reference + "' appears twice — an ordering is a sequence, not a multiset"@
}

/// Append `id` (given as `reference`) to an order; an order is a sequence
/// without repeats.
pub fn push_unique(order: &mut Vec<String>, id: &str, reference: &str) -> (r: Result<(), JjjError>)
    ensures
        strs(old(order)@).contains(id@) ==> (r matches Err(e) && is_validation(
            e,
            twice_msg(reference@),
        )) && final(order)@ == old(order)@,
        !strs(old(order)@).contains(id@) ==> r is Ok && strs(final(order)@)
            == strs(old(order)@).push(id@),
{
    if let Some(k) = index_in(order, id) {
        assert(strs(order@)[k as int] == id@);
        let rv = chars_of(reference);
        return Err(JjjError::Validation(quoted_message("'", &rv, "' appears twice — an ordering is a sequence, not a multiset")));
    }
    let ghost before = strs(order@);
    order.push(copy_str(id));
    assert(strs(order@) =~= before.push(id@));
    Ok(())
}

// ───────────────────────── moving one item ─────────────────────────

/// Where to move an item within an order.
#[derive(Debug, PartialEq)]
pub enum Position {
    Top,
    Bottom,
    /// One place up (no-op at the top).
    Up,
    /// One place down (no-op at the bottom).
    Down,
    /// Just above another item; holds that item's reference or id.
    Before(String),
}

pub enum PositionView {
    Top,
    Bottom,
    Up,
    Down,
    Before(Seq<char>),
}

impl View for Position {
    type V = PositionView;

    open spec fn view(&self) -> PositionView {
        match self {
            Position::Top => PositionView::Top,
            Position::Bottom => PositionView::Bottom,
            Position::Up => PositionView::Up,
            Position::Down => PositionView::Down,
            Position::Before(s) => PositionView::Before(s@),
        }
    }
}

pub open spec fn unknown_position_msg(p: Seq<char>) -> Seq<char> {
    "unknown position '"@ + p + "' — use top, bottom, up, down, or before:<problem>"@
}

pub open spec fn position_spec(p: Seq<char>) -> Option<PositionView> {
    if p == "top"@ {
        Some(PositionView::Top)
    } else if p == "bottom"@ {
        Some(PositionView::Bottom)
    } else if p == "up"@ {
        Some(PositionView::Up)
    } else if p == "down"@ {
        Some(PositionView::Down)
    } else if "before:"@.is_prefix_of(p) {
        Some(PositionView::Before(p.skip(7)))
    } else {
        None
    }
}

/// Read a position: `top`, `bottom`, `up`, `down` or `before:<problem>`.
pub fn parse_position(p: &str) -> (r: Result<Position, JjjError>)
    ensures
        match position_spec(p@) {
            Some(v) => r matches Ok(x) && x@ == v,
            None => r matches Err(e) && is_validation(e, unknown_position_msg(p@)),
        },
{
    proof {
        reveal_strlit("before:");
    }
    if str_eq(p, "top") {
        return Ok(Position::Top);
    }
    if str_eq(p, "bottom") {
        return Ok(Position::Bottom);
    }
    if str_eq(p, "up") {
        return Ok(Position::Up);
    }
    if str_eq(p, "down") {
        return Ok(Position::Down);
    }
    let v = chars_of(p);
    let pre = chars_of("before:");
    if crate::text::starts_with(&v, &pre) {
        let rest = copy_range(&v, 7, v.len());
        assert(rest@ =~= v@.skip(7));
        return Ok(Position::Before(string_of(&rest)));
    }
    Err(JjjError::Validation(quoted_message("unknown position '", &v, "' — use top, bottom, up, down, or before:<problem>")))
}

/// Index of the first `x` in `s` (its length when absent).
pub open spec fn index_of(s: Seq<Seq<char>>, x: Seq<char>) -> int
    decreases s.len(),
{
    if s.len() == 0 {
        0
    } else if s[0] == x {
        0
    } else {
        1 + index_of(s.drop_first(), x)
    }
}

proof fn lemma_index_of(s: Seq<Seq<char>>, x: Seq<char>, k: int)
    requires
        0 <= k <= s.len(),
        k < s.len() ==> s[k] == x,
        forall|j: int| 0 <= j < k ==> s[j] != x,
    ensures
        index_of(s, x) == k,
    decreases s.len(),
{
    if s.len() > 0 && s[0] != x {
        assert forall|j: int| 0 <= j < k - 1 implies s.drop_first()[j] != x by {
            assert(s.drop_first()[j] == s[j + 1]);
        }
        lemma_index_of(s.drop_first(), x, k - 1);
    }
}

pub open spec fn not_ranked_msg(reference: Seq<char>) -> Seq<char> {
    "'"@ + reference + "' is not in your ordering — add it with `jjj rank set`"@
}

/// Take `id` (given as `reference`) out of an order, returning the rest and
/// the place it held.
pub fn take_out(order: &Vec<String>, id: &str, reference: &str) -> (r: Result<(Vec<String>, usize), JjjError>)
    ensures
        !strs(order@).contains(id@) ==> (r matches Err(e) && is_validation(
            e,
            not_ranked_msg(reference@),
        )),
        strs(order@).contains(id@) ==> (r matches Ok((rest, from)) && from == index_of(
            strs(order@),
            id@,
        ) && strs(rest@) == strs(order@).remove(from as int) && from <= rest@.len()),
{
    match index_in(order, id) {
        None => {
            let rv = chars_of(reference);
            Err(JjjError::Validation(quoted_message("'", &rv, "' is not in your ordering — add it with `jjj rank set`")))
        },
        Some(k) => {
            proof {
                assert(strs(order@)[k as int] == id@);
                assert forall|j: int| 0 <= j < k implies strs(order@)[j] != id@ by {
                    assert(strs(order@)[j] == order@[j]@);
                }
                lemma_index_of(strs(order@), id@, k as int);
            }
            let mut rest = copy_strings(order);
            rest.remove(k);
            assert(strs(rest@) =~= strs(order@).remove(k as int));
            Ok((rest, k))
        },
    }
}

pub open spec fn not_in_order_msg(reference: Seq<char>) -> Seq<char> {
    "'"@ + reference + "' is not in your ordering"@
}

/// Where an item taken out at `from` goes back into the rest of the order
/// (`None` when a `before:` target is not in it).
pub open spec fn target_index(rest: Seq<Seq<char>>, from: int, pos: PositionView) -> Option<int> {
    match pos {
        PositionView::Top => Some(0),
        PositionView::Bottom => Some(rest.len() as int),
        PositionView::Up => Some(if from > 0 { from - 1 } else { 0 }),
        PositionView::Down => Some(if from + 1 < rest.len() { from + 1 } else { rest.len() as int }),
        PositionView::Before(t) => if rest.contains(t) {
            Some(index_of(rest, t))
        } else {
            None
        },
    }
}

/// Put `id` back into `rest` at `pos`; for `before:`, `pos` holds the
/// target's id and `target_ref` what the user called it.
pub fn place(rest: &Vec<String>, from: usize, id: &str, pos: &Position, target_ref: &str) -> (r: Result<
    Vec<String>,
    JjjError,
>)
    requires
        from <= rest@.len(),
    ensures
        match target_index(strs(rest@), from as int, pos@) {
            Some(to) => r matches Ok(v) && strs(v@) == strs(rest@).insert(to, id@),
            None => r matches Err(e) && is_validation(e, not_in_order_msg(target_ref@)),
        },
{
    let to: usize = match pos {
        Position::Top => 0,
        Position::Bottom => rest.len(),
        Position::Up => if from > 0 {
            from - 1
        } else {
            0
        },
        Position::Down => if from < rest.len() && from + 1 < rest.len() {
            from + 1
        } else {
            rest.len()
        },
        Position::Before(t) => match index_in(rest, t.as_str()) {
            Some(k) => {
                proof {
                    assert(strs(rest@)[k as int] == t@);
                    assert forall|j: int| 0 <= j < k implies strs(rest@)[j] != t@ by {
                        assert(strs(rest@)[j] == rest@[j]@);
                    }
                    lemma_index_of(strs(rest@), t@, k as int);
                }
                k
            },
            None => {
                let rv = chars_of(target_ref);
                return Err(JjjError::Validation(quoted_message("'", &rv, "' is not in your ordering")));
            },
        },
    };
    let mut v = copy_strings(rest);
    v.insert(to, copy_str(id));
    assert(strs(v@) =~= strs(rest@).insert(to as int, id@));
    Ok(v)
}

/// Moving an item leaves every other item in the order it was in, and puts
/// the item where the position says.
pub proof fn law_move_keeps_others(rest: Seq<Seq<char>>, from: int, pos: PositionView, id: Seq<char>)
    requires
        0 <= from <= rest.len(),
        target_index(rest, from, pos) is Some,
    ensures
        ({
            let to = target_index(rest, from, pos)->0;
            &&& 0 <= to <= rest.len()
            &&& rest.insert(to, id)[to] == id
            &&& rest.insert(to, id).remove(to) == rest
            &&& rest.insert(to, id).len() == rest.len() + 1
        }),
{
    let to = target_index(rest, from, pos)->0;
    if let PositionView::Before(t) = pos {
        lemma_index_le(rest, t);
    }
    assert(rest.insert(to, id).remove(to) =~= rest);
}

proof fn lemma_index_le(s: Seq<Seq<char>>, x: Seq<char>)
    ensures
        0 <= index_of(s, x) <= s.len(),
    decreases s.len(),
{
    if s.len() > 0 && s[0] != x {
        lemma_index_le(s.drop_first(), x);
    }
}

// ───────────────────────── piped orders ─────────────────────────

/// An order handed over on standard input.
#[derive(Debug, PartialEq)]
pub enum PipedOrder {
    /// The JSON an ordering prints as; read by the JSON reader.
    Json,
    /// One reference per line: the references in order, and the lines that
    /// carry a gap suffix (`:S`, `:M`, `:L`, `:XL`).
    Lines { order: Vec<String>, gaps: Vec<String> },
}

pub open spec fn nothing_piped_msg() -> Seq<char> {
    "nothing on stdin — expected one problem reference per line"@
}

/// Index of the first `c` at or after `i` (the length when there is none).
pub open spec fn char_end(s: Seq<char>, c: char, i: int) -> int
    decreases s.len() - i,
{
    if 0 <= i < s.len() && s[i] != c {
        char_end(s, c, i + 1)
    } else {
        i
    }
}

/// The text before the first `#` (a comment).
pub open spec fn before_hash(s: Seq<char>) -> Seq<char> {
    s.take(char_end(s, '#', 0))
}

proof fn lemma_char_end(s: Seq<char>, c: char, i: int)
    requires
        0 <= i <= s.len(),
    ensures
        i <= char_end(s, c, i) <= s.len(),
    decreases s.len() - i,
{
    if i < s.len() && s[i] != c {
        lemma_char_end(s, c, i + 1);
    }
}

fn before_hash_exec(v: &Vec<char>) -> (r: Vec<char>)
    ensures
        r@ == before_hash(v@),
{
    let mut i: usize = 0;
    proof {
        lemma_char_end(v@, '#', 0);
    }
    while i < v.len() && v[i] != '#'
        invariant
            i <= v.len(),
            char_end(v@, '#', i as int) == char_end(v@, '#', 0),
        decreases v.len() - i,
    {
        i += 1;
    }
    let r = copy_range(v, 0, i);
    assert(r@ =~= v@.take(i as int));
    r
}

/// One line of a piped order, folded into (references, gap lines).
pub open spec fn piped_step(acc: (Seq<Seq<char>>, Seq<Seq<char>>), raw: Seq<char>) -> (
    Seq<Seq<char>>,
    Seq<Seq<char>>,
) {
    let line = trim(before_hash(raw));
    if line.len() == 0 {
        acc
    } else {
        match rsplit_colon(line) {
            Some((reference, size)) => if gap_from_label(ascii_upper_seq(size)) is Some {
                (acc.0.push(trim(reference)), acc.1.push(line))
            } else {
                (acc.0.push(line), acc.1)
            },
            None => (acc.0.push(line), acc.1),
        }
    }
}

pub open spec fn piped_upto(lines: Seq<Seq<char>>, n: int) -> (Seq<Seq<char>>, Seq<Seq<char>>)
    decreases n,
{
    if n <= 0 || n > lines.len() {
        (Seq::empty(), Seq::empty())
    } else {
        piped_step(piped_upto(lines, n - 1), lines[n - 1])
    }
}

pub open spec fn piped_lines(t: Seq<char>) -> (Seq<Seq<char>>, Seq<Seq<char>>) {
    let lines = split_lines(t);
    piped_upto(lines, lines.len() as int)
}

/// Read a piped order. Blank lines and `#` comments are skipped; a text that
/// starts with `{` is the JSON form, left to the JSON reader.
pub fn parse_piped_order(text: &str) -> (r: Result<PipedOrder, JjjError>)
    ensures
        trim(text@).len() == 0 ==> (r matches Err(e) && is_validation(e, nothing_piped_msg())),
        trim(text@).len() > 0 && trim(text@)[0] == '{' ==> r matches Ok(PipedOrder::Json),
        trim(text@).len() > 0 && trim(text@)[0] != '{' ==> (r matches Ok(
            PipedOrder::Lines { order, gaps },
        ) && (strs(order@), strs(gaps@)) == piped_lines(trim(text@))),
{
    let v = chars_of(text);
    let t = trim_chars(&v);
    if t.len() == 0 {
        return Err(JjjError::Validation(copy_str("nothing on stdin — expected one problem reference per line")));
    }
    if t[0] == '{' {
        return Ok(PipedOrder::Json);
    }
    let lines = split_lines_exec(&t);
    let ghost lv = views(lines@);
    let mut order: Vec<String> = Vec::new();
    let mut gaps: Vec<String> = Vec::new();
    let mut i: usize = 0;
    while i < lines.len()
        invariant
            i <= lines.len(),
            lv == views(lines@),
            lv == split_lines(t@),
            (strs(order@), strs(gaps@)) == piped_upto(lv, i as int),
        decreases lines.len() - i,
    {
        assert(lv[i as int] == lines@[i as int]@);
        let cut = before_hash_exec(&lines[i]);
        let line = trim_chars(&cut);
        if line.len() > 0 {
            let k = after_last_exec(&line, ':');
            let mut is_gap = false;
            if k > 0 {
                let size = copy_range(&line, k, line.len());
                assert(size@ =~= line@.skip(k as int));
                let up = upper_ascii(&size);
                if gap_from_upper(&up).is_some() {
                    let reference = copy_range(&line, 0, k - 1);
                    assert(reference@ =~= line@.take(k - 1));
                    let rt = trim_chars(&reference);
                    let ghost before = (strs(order@), strs(gaps@));
                    order.push(string_of(&rt));
                    gaps.push(string_of(&line));
                    assert(strs(order@) =~= before.0.push(rt@));
                    assert(strs(gaps@) =~= before.1.push(line@));
                    is_gap = true;
                }
            }
            if !is_gap {
                let ghost before = strs(order@);
                order.push(string_of(&line));
                assert(strs(order@) =~= before.push(line@));
            }
        }
        i += 1;
    }
    Ok(PipedOrder::Lines { order, gaps })
}

// ───────────────────────── milestones ─────────────────────────

pub open spec fn no_active_milestone_msg() -> Seq<char> {
    "No active milestone found. Create one with `jjj milestone new` or specify a milestone."@
}

/// The milestone an order is for when none is named: the first active one.
pub fn default_rank_milestone(milestones: &Vec<Milestone>) -> (r: Result<String, JjjError>)
    ensures
        match r {
            Ok(id) => exists|k: int|
                0 <= k < milestones@.len() && milestones@[k].status == MilestoneStatus::Active
                    && milestones@[k].id@ == id@ && forall|j: int|
                    0 <= j < k ==> milestones@[j].status != MilestoneStatus::Active,
            Err(e) => is_validation(e, no_active_milestone_msg()) && forall|j: int|
                0 <= j < milestones@.len() ==> milestones@[j].status != MilestoneStatus::Active,
        },
{
    let mut i: usize = 0;
    while i < milestones.len()
        invariant
            i <= milestones.len(),
            forall|j: int| 0 <= j < i ==> milestones@[j].status != MilestoneStatus::Active,
        decreases milestones.len() - i,
    {
        if milestones[i].status == MilestoneStatus::Active {
            return Ok(copy_str(milestones[i].id.as_str()));
        }
        i += 1;
    }
    Err(JjjError::Validation(copy_str("No active milestone found. Create one with `jjj milestone new` or specify a milestone.")))
}

pub open spec fn keys(v: Seq<(Seq<char>, Seq<char>)>) -> Seq<Seq<char>> {
    v.map_values(|p: (Seq<char>, Seq<char>)| p.0)
}

/// Open problems that name the milestone themselves, in list order.
pub open spec fn own_open(ps: Seq<Problem>, mid: Seq<char>) -> Seq<(Seq<char>, Seq<char>)> {
    ps.filter(|p: Problem| opt_view(p.milestone_id) == Some(mid) && problem_is_open(p.status)).map_values(
        |p: Problem| (p.id@, p.title@),
    )
}

/// Adds the milestone's own list of problem ids, skipping ids already
/// present, unknown ids and problems that are no longer open.
pub open spec fn listed_step(acc: Seq<(Seq<char>, Seq<char>)>, pid: Seq<char>, ps: Seq<Problem>) -> Seq<
    (Seq<char>, Seq<char>),
> {
    if keys(acc).contains(pid) || !has_problem(ps, pid) {
        acc
    } else {
        let p = ps[problem_idx(ps, pid)];
        if problem_is_open(p.status) {
            acc.push((p.id@, p.title@))
        } else {
            acc
        }
    }
}

pub open spec fn listed_upto(
    acc: Seq<(Seq<char>, Seq<char>)>,
    pids: Seq<Seq<char>>,
    ps: Seq<Problem>,
    n: int,
) -> Seq<(Seq<char>, Seq<char>)>
    decreases n,
{
    if n <= 0 || n > pids.len() {
        acc
    } else {
        listed_step(listed_upto(acc, pids, ps, n - 1), pids[n - 1], ps)
    }
}

/// The open problems a milestone's order ranges over, as `(id, title)`.
pub open spec fn milestone_open_problems(ps: Seq<Problem>, m: Milestone) -> Seq<(Seq<char>, Seq<char>)> {
    let pids = strs(m.problem_ids@);
    listed_upto(own_open(ps, m.id@), pids, ps, pids.len() as int)
}

proof fn lemma_listed_keeps(
    acc: Seq<(Seq<char>, Seq<char>)>,
    pids: Seq<Seq<char>>,
    ps: Seq<Problem>,
    n: int,
    x: (Seq<char>, Seq<char>),
)
    requires
        acc.contains(x),
    ensures
        listed_upto(acc, pids, ps, n).contains(x),
    decreases n,
{
    if n > 0 && n <= pids.len() {
        lemma_listed_keeps(acc, pids, ps, n - 1, x);
        let prev = listed_upto(acc, pids, ps, n - 1);
        let w = choose|w: int| 0 <= w < prev.len() && prev[w] == x;
        let nxt = listed_step(prev, pids[n - 1], ps);
        assert(nxt[w] == x);
    }
}

/// Every open or in-progress problem that names the milestone is among the
/// problems the milestone's ranking ranges over.
pub proof fn law_milestone_problem_is_ranked(ps: Seq<Problem>, m: Milestone, i: int)
    requires
        0 <= i < ps.len(),
        opt_view(ps[i].milestone_id) == Some(m.id@),
        ps[i].status == ProblemStatus::Open || ps[i].status == ProblemStatus::InProgress,
    ensures
        milestone_open_problems(ps, m).contains((ps[i].id@, ps[i].title@)),
{
    let pred = |p: Problem| opt_view(p.milestone_id) == Some(m.id@) && problem_is_open(p.status);
    assert(pred(ps[i]));
    ps.lemma_filter_contains(pred, i);
    let f = ps.filter(pred);
    let w = choose|w: int| 0 <= w < f.len() && f[w] == ps[i];
    let own = f.map_values(|p: Problem| (p.id@, p.title@));
    assert(own[w] == (ps[i].id@, ps[i].title@));
    assert(own == own_open(ps, m.id@));
    let pids = strs(m.problem_ids@);
    lemma_listed_keeps(own, pids, ps, pids.len() as int, (ps[i].id@, ps[i].title@));
}

fn pair_keys_contain(v: &Vec<(String, String)>, id: &str) -> (b: bool)
    ensures
        b == keys(crate::resolve::entries_view(v@)).contains(id@),
{
    let ghost k = keys(crate::resolve::entries_view(v@));
    let mut i: usize = 0;
    while i < v.len()
        invariant
            i <= v.len(),
            k == keys(crate::resolve::entries_view(v@)),
            forall|j: int| 0 <= j < i ==> k[j] != id@,
        decreases v.len() - i,
    {
        assert(k[i as int] == v@[i as int].0@);
        if str_eq(v[i].0.as_str(), id) {
            return true;
        }
        i += 1;
    }
    false
}

/// The open problems that belong to milestone `milestone_id`: those naming it,
/// then those on its own list that are not already included.
pub fn open_problems_in_milestone(store: &MetadataStore, milestone_id: &str) -> (r: Result<
    Vec<(String, String)>,
    JjjError,
>)
    ensures
        !has_milestone(store.milestones@, milestone_id@) ==> (r matches Err(e) && e matches JjjError::MilestoneNotFound(s) && s@ == milestone_id@),
        has_milestone(store.milestones@, milestone_id@) ==> (r matches Ok(v) && crate::resolve::entries_view(v@)
            == milestone_open_problems(
            store.problems@,
            store.milestones@[milestone_idx(store.milestones@, milestone_id@)],
        )),
{
    let mi = match store.find_milestone(milestone_id) {
        Some(k) => k,
        None => {
            return Err(JjjError::MilestoneNotFound(copy_str(milestone_id)));
        },
    };
    let m = &store.milestones[mi];
    let ps = &store.problems;
    let ghost pred = |p: Problem| opt_view(p.milestone_id) == Some(milestone_id@) && problem_is_open(p.status);
    let mut out: Vec<(String, String)> = Vec::new();
    let mut i: usize = 0;
    while i < ps.len()
        invariant
            i <= ps.len(),
            m.id@ == milestone_id@,
            pred == (|p: Problem| opt_view(p.milestone_id) == Some(milestone_id@) && problem_is_open(p.status)),
            crate::resolve::entries_view(out@) == ps@.take(i as int).filter(pred).map_values(
                |p: Problem| (p.id@, p.title@),
            ),
        decreases ps.len() - i,
    {
        proof {
            reveal(Seq::filter);
            assert(ps@.take(i + 1).drop_last() =~= ps@.take(i as int));
        }
        let ghost before = crate::resolve::entries_view(out@);
        let p = &ps[i];
        let open = p.status == ProblemStatus::Open || p.status == ProblemStatus::InProgress;
        if open && opt_str_eq(&p.milestone_id, milestone_id) {
            out.push((copy_str(p.id.as_str()), copy_str(p.title.as_str())));
            assert(crate::resolve::entries_view(out@) =~= before.push((p.id@, p.title@)));
        }
        assert(crate::resolve::entries_view(out@) =~= ps@.take(i + 1).filter(pred).map_values(
            |p: Problem| (p.id@, p.title@),
        ));
        i += 1;
    }
    assert(ps@.take(i as int) =~= ps@);
    let ghost pids = strs(m.problem_ids@);
    let ghost base = crate::resolve::entries_view(out@);
    let mut j: usize = 0;
    while j < m.problem_ids.len()
        invariant
            j <= m.problem_ids.len(),
            pids == strs(m.problem_ids@),
            crate::resolve::entries_view(out@) == listed_upto(base, pids, store.problems@, j as int),
        decreases m.problem_ids.len() - j,
    {
        let pid = m.problem_ids[j].as_str();
        assert(pids[j as int] == pid@);
        let ghost before = crate::resolve::entries_view(out@);
        if !pair_keys_contain(&out, pid) {
            match store.find_problem(pid) {
                Some(k) => {
                    let p = &store.problems[k];
                    if p.status == ProblemStatus::Open || p.status == ProblemStatus::InProgress {
                        out.push((copy_str(p.id.as_str()), copy_str(p.title.as_str())));
                        assert(crate::resolve::entries_view(out@) =~= before.push((p.id@, p.title@)));
                    }
                },
                None => {},
            }
        }
        j += 1;
    }
    Ok(out)
}

// ───────────────────────── one user's ordering ─────────────────────────

/// The gap recorded for `id` (the first entry for it), if any.
pub open spec fn gap_of(g: Seq<(Seq<char>, GapSize)>, id: Seq<char>) -> Option<GapSize>
    decreases g.len(),
{
    if g.len() == 0 {
        None
    } else if g[0].0 == id {
        Some(g[0].1)
    } else {
        gap_of(g.drop_first(), id)
    }
}

/// A user's ordering as shown: the entries that are still open problems of
/// the milestone, in the user's order (ranks count from one), each with its
/// gap.
pub open spec fn breakdown_spec(order: Seq<Seq<char>>, gaps: Seq<(Seq<char>, GapSize)>, open: Seq<Seq<char>>) -> Seq<
    (Seq<char>, Option<GapSize>),
> {
    order.filter(|id: Seq<char>| open.contains(id)).map_values(|id: Seq<char>| (id, gap_of(gaps, id)))
}

fn gap_of_exec(gaps: &Vec<(String, GapSize)>, id: &str) -> (r: Option<GapSize>)
    ensures
        r == gap_of(gaps_view(gaps@), id@),
{
    let ghost g = gaps_view(gaps@);
    let mut k: usize = 0;
    assert(g.skip(0) =~= g);
    while k < gaps.len()
        invariant
            k <= gaps.len(),
            g == gaps_view(gaps@),
            gap_of(g.skip(k as int), id@) == gap_of(g, id@),
        decreases gaps.len() - k,
    {
        assert(g.skip(k as int)[0] == (gaps@[k as int].0@, gaps@[k as int].1));
        if str_eq(gaps[k].0.as_str(), id) {
            return Some(gaps[k].1);
        }
        assert(g.skip(k as int).drop_first() =~= g.skip(k + 1));
        k += 1;
    }
    assert(g.skip(k as int).len() == 0);
    None
}

/// One user's ordering of a milestone's open problems, with the gaps.
pub fn user_breakdown(order: &Vec<String>, gaps: &Vec<(String, GapSize)>, open: &Vec<String>) -> (r: Vec<
    (String, Option<GapSize>),
>)
    ensures
        r@.map_values(|e: (String, Option<GapSize>)| (e.0@, e.1)) == breakdown_spec(
            strs(order@),
            gaps_view(gaps@),
            strs(open@),
        ),
{
    let ghost ov = strs(order@);
    let ghost opv = strs(open@);
    let ghost pred = |id: Seq<char>| opv.contains(id);
    let ghost f = |id: Seq<char>| (id, gap_of(gaps_view(gaps@), id));
    let mut r: Vec<(String, Option<GapSize>)> = Vec::new();
    let mut i: usize = 0;
    while i < order.len()
        invariant
            i <= order.len(),
            ov == strs(order@),
            opv == strs(open@),
            pred == (|id: Seq<char>| opv.contains(id)),
            f == (|id: Seq<char>| (id, gap_of(gaps_view(gaps@), id))),
            r@.map_values(|e: (String, Option<GapSize>)| (e.0@, e.1)) == ov.take(i as int).filter(pred).map_values(f),
        decreases order.len() - i,
    {
        proof {
            reveal(Seq::filter);
            assert(ov.take(i + 1).drop_last() =~= ov.take(i as int));
            assert(ov[i as int] == order@[i as int]@);
        }
        let id = order[i].as_str();
        let ghost before = r@.map_values(|e: (String, Option<GapSize>)| (e.0@, e.1));
        match index_in(open, id) {
            Some(k) => {
                assert(opv[k as int] == id@);
                assert(pred(id@));
                r.push((copy_str(id), gap_of_exec(gaps, id)));
                assert(r@.map_values(|e: (String, Option<GapSize>)| (e.0@, e.1)) =~= before.push(f(id@)));
                assert(ov.take(i + 1).filter(pred) =~= ov.take(i as int).filter(pred).push(id@));
            },
            None => {
                assert(!pred(id@));
                assert(ov.take(i + 1).filter(pred) =~= ov.take(i as int).filter(pred));
            },
        }
        i += 1;
    }
    assert(ov.take(i as int) =~= ov);
    r
}

} // verus!
