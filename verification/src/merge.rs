//! Three-way merge of entity markdown files, conflict markers, and the
//! append-only union of event logs.

use vstd::prelude::*;
use crate::formats::{json_string_member, json_string_member_of, rfc3339_instant, rfc3339_instant_of};
use crate::text::{
    append_chars, chars_eq, chars_of, contains, copy_range, has_sub, join_lines_exec, join_sep,
    lex_le, lex_le_exec, lines_from, split_lines, split_lines_exec, starts_with, string_of, views,
};

verus! {

/// Which side of a conflict to keep.
#[derive(Debug, Clone, Copy, PartialEq, Eq, Structural)]
pub enum ConflictSide {
    Local,
    Remote,
}

/// A conflict between a local and a remote version of some text.
pub open spec fn conflict_block(l: Seq<char>, r: Seq<char>) -> Seq<char> {
    "<<<<<<< local\n"@ + l + "\n=======\n"@ + r + "\n>>>>>>> remote"@
}

/// Whether a text still carries merge-conflict markers.
pub open spec fn has_markers(s: Seq<char>) -> bool {
    has_sub(s, "<<<<<<<"@) && has_sub(s, ">>>>>>>"@)
}

pub fn has_conflict_markers(s: &str) -> (b: bool)
    ensures
        b == has_markers(s@),
{
    let v = chars_of(s);
    let open = chars_of("<<<<<<<");
    let close = chars_of(">>>>>>>");
    contains(&v, &open) && contains(&v, &close)
}

// ───────────────────────── frontmatter ─────────────────────────

/// The file starts with a `---` frontmatter line.
pub open spec fn has_fm(ls: Seq<Seq<char>>) -> bool {
    ls.len() > 0 && ls[0] == "---"@
}

pub open spec fn fm_end_from(ls: Seq<Seq<char>>, j: int) -> int
    decreases ls.len() - j,
{
    if j < 0 || j >= ls.len() {
        ls.len() as int
    } else if ls[j] == "---"@ {
        j
    } else {
        fm_end_from(ls, j + 1)
    }
}

/// Index of the line closing the frontmatter.
pub open spec fn fm_end(ls: Seq<Seq<char>>) -> int {
    fm_end_from(ls, 1)
}

/// Line `i` lies inside the frontmatter.
pub open spec fn in_fm(ls: Seq<Seq<char>>, i: int) -> bool {
    has_fm(ls) && 1 <= i < fm_end(ls)
}

pub open spec fn updated_from(ls: Seq<Seq<char>>, j: int, end: int) -> Seq<char>
    decreases end - j,
{
    if j < 0 || j >= end || j >= ls.len() {
        Seq::empty()
    } else if "updated_at:"@.is_prefix_of(ls[j]) {
        ls[j].skip(11)
    } else {
        updated_from(ls, j + 1, end)
    }
}

/// The raw `updated_at:` value of the frontmatter (empty when absent).
pub open spec fn updated_at(ls: Seq<Seq<char>>) -> Seq<char> {
    if has_fm(ls) {
        updated_from(ls, 1, fm_end(ls))
    } else {
        Seq::empty()
    }
}

fn fm_end_exec(ls: &Vec<Vec<char>>) -> (e: usize)
    ensures
        e as int == fm_end(views(ls@)),
        e <= ls.len(),
{
    let dashes = chars_of("---");
    let mut j: usize = 1;
    if ls.len() == 0 {
        return 0;
    }
    while j < ls.len()
        invariant
            1 <= j <= ls.len(),
            dashes@ == "---"@,
            fm_end_from(views(ls@), j as int) == fm_end(views(ls@)),
        decreases ls.len() - j,
    {
        assert(views(ls@)[j as int] == ls@[j as int]@);
        if chars_eq(&ls[j], &dashes) {
            return j;
        }
        j += 1;
    }
    j
}

fn updated_at_exec(ls: &Vec<Vec<char>>) -> (u: Vec<char>)
    ensures
        u@ == updated_at(views(ls@)),
{
    let dashes = chars_of("---");
    if ls.len() == 0 || !chars_eq(&ls[0], &dashes) {
        return Vec::new();
    }
    assert(views(ls@)[0] == ls@[0]@);
    let end = fm_end_exec(ls);
    let key = chars_of("updated_at:");
    proof {
        reveal_strlit("updated_at:");
    }
    let mut j: usize = 1;
    while j < end && j < ls.len()
        invariant
            1 <= j,
            end <= ls.len(),
            end as int == fm_end(views(ls@)),
            key@ == "updated_at:"@,
            key@.len() == 11,
            updated_from(views(ls@), j as int, end as int) == updated_at(views(ls@)),
        decreases end - j,
    {
        assert(views(ls@)[j as int] == ls@[j as int]@);
        if starts_with(&ls[j], &key) {
            return copy_range(&ls[j], 11, ls[j].len());
        }
        j += 1;
    }
    Vec::new()
}

// ───────────────────────── three-way merge ─────────────────────────

/// One line of a line-aligned merge: a side's change wins over the base;
/// identical changes agree; a frontmatter field changed on both sides goes
/// to the more recently updated side; a body line changed on both sides
/// becomes a conflict block.
pub open spec fn merge_line(
    b: Seq<char>,
    l: Seq<char>,
    r: Seq<char>,
    fm: bool,
    remote_newer: bool,
) -> Seq<char> {
    if l == r {
        l
    } else if b == l {
        r
    } else if b == r {
        l
    } else if fm {
        if remote_newer {
            r
        } else {
            l
        }
    } else {
        conflict_block(l, r)
    }
}

/// The merged lines of three line-aligned versions.
pub open spec fn merged_lines(bl: Seq<Seq<char>>, ll: Seq<Seq<char>>, rl: Seq<Seq<char>>) -> Seq<
    Seq<char>,
> {
    let newer = lex_le(updated_at(ll), updated_at(rl));
    Seq::new(ll.len(), |i: int| merge_line(bl[i], ll[i], rl[i], in_fm(ll, i), newer))
}

/// Three-way merge of an entity file against its common ancestor `base`.
/// Equal sides agree; a side equal to the base yields the other side; with
/// the same number of lines on all three, lines merge one by one; otherwise
/// (or with no base) the whole file becomes one conflict block.
pub open spec fn merge_spec(base: Option<Seq<char>>, l: Seq<char>, r: Seq<char>) -> Seq<char> {
    if l == r {
        l
    } else {
        match base {
            None => conflict_block(l, r),
            Some(b) => if b == l {
                r
            } else if b == r {
                l
            } else {
                let bl = split_lines(b);
                let ll = split_lines(l);
                let rl = split_lines(r);
                if bl.len() == ll.len() && ll.len() == rl.len() {
                    join_sep(merged_lines(bl, ll, rl), '\n')
                } else {
                    conflict_block(l, r)
                }
            },
        }
    }
}

fn conflict_block_exec(l: &Vec<char>, r: &Vec<char>) -> (out: Vec<char>)
    ensures
        out@ == conflict_block(l@, r@),
{
    let mut out = chars_of("<<<<<<< local\n");
    append_chars(&mut out, l);
    let mid = chars_of("\n=======\n");
    append_chars(&mut out, &mid);
    append_chars(&mut out, r);
    let end = chars_of("\n>>>>>>> remote");
    append_chars(&mut out, &end);
    out
}

/// Merge an entity file three ways (see `merge_spec`).
pub fn merge_entity_md(base: Option<&str>, local: &str, remote: &str) -> (r: String)
    ensures
        r@ == merge_spec(
            match base {
                Some(b) => Some(b@),
                None => None,
            },
            local@,
            remote@,
        ),
{
    let l = chars_of(local);
    let r = chars_of(remote);
    if chars_eq(&l, &r) {
        return string_of(&l);
    }
    let b = match base {
        None => {
            let c = conflict_block_exec(&l, &r);
            return string_of(&c);
        },
        Some(b) => chars_of(b),
    };
    if chars_eq(&b, &l) {
        return string_of(&r);
    }
    if chars_eq(&b, &r) {
        return string_of(&l);
    }
    let bl = split_lines_exec(&b);
    let ll = split_lines_exec(&l);
    let rl = split_lines_exec(&r);
    if !(bl.len() == ll.len() && ll.len() == rl.len()) {
        let c = conflict_block_exec(&l, &r);
        return string_of(&c);
    }
    let ul = updated_at_exec(&ll);
    let ur = updated_at_exec(&rl);
    let newer = lex_le_exec(&ul, &ur);
    let dashes = chars_of("---");
    let has_front = ll.len() > 0 && chars_eq(&ll[0], &dashes);
    proof {
        if ll.len() > 0 {
            assert(views(ll@)[0] == ll@[0]@);
        }
    }
    let end = fm_end_exec(&ll);
    let ghost spec_lines = merged_lines(views(bl@), views(ll@), views(rl@));
    let mut out: Vec<Vec<char>> = Vec::new();
    let mut i: usize = 0;
    while i < ll.len()
        invariant
            i <= ll.len(),
            bl.len() == ll.len(),
            rl.len() == ll.len(),
            newer == lex_le(updated_at(views(ll@)), updated_at(views(rl@))),
            has_front == has_fm(views(ll@)),
            end as int == fm_end(views(ll@)),
            spec_lines == merged_lines(views(bl@), views(ll@), views(rl@)),
            views(out@) == spec_lines.take(i as int),
        decreases ll.len() - i,
    {
        let ghost vb = views(bl@)[i as int];
        assert(vb == bl@[i as int]@);
        assert(views(ll@)[i as int] == ll@[i as int]@);
        assert(views(rl@)[i as int] == rl@[i as int]@);
        let fm = has_front && 1 <= i && i < end;
        let line = if chars_eq(&ll[i], &rl[i]) {
            copy_range(&ll[i], 0, ll[i].len())
        } else if chars_eq(&bl[i], &ll[i]) {
            copy_range(&rl[i], 0, rl[i].len())
        } else if chars_eq(&bl[i], &rl[i]) {
            copy_range(&ll[i], 0, ll[i].len())
        } else if fm {
            if newer {
                copy_range(&rl[i], 0, rl[i].len())
            } else {
                copy_range(&ll[i], 0, ll[i].len())
            }
        } else {
            conflict_block_exec(&ll[i], &rl[i])
        };
        assert(ll@[i as int]@.subrange(0, ll@[i as int]@.len() as int) =~= ll@[i as int]@);
        assert(rl@[i as int]@.subrange(0, rl@[i as int]@.len() as int) =~= rl@[i as int]@);
        let ghost before = views(out@);
        out.push(line);
        assert(views(out@) =~= before.push(line@));
        assert(spec_lines.take(i + 1) =~= spec_lines.take(i as int).push(spec_lines[i as int]));
        i += 1;
    }
    assert(spec_lines.take(i as int) =~= spec_lines);
    let joined = join_lines_exec(&out);
    string_of(&joined)
}

// ───────────────────────── merge laws ─────────────────────────

/// Merging is a no-op when both sides agree, and takes the changed side when
/// only one side changed relative to the base.
pub proof fn law_merge_one_sided(b: Seq<char>, l: Seq<char>, r: Seq<char>)
    ensures
        merge_spec(Some(b), l, l) == l,
        merge_spec(Some(b), b, r) == r,
        merge_spec(Some(b), l, b) == l,
{
}

/// No edit is lost silently: in a line-aligned merge, a line changed on one
/// side only comes through with that side's change.
pub proof fn law_merge_keeps_one_sided_lines(
    bl: Seq<Seq<char>>,
    ll: Seq<Seq<char>>,
    rl: Seq<Seq<char>>,
    i: int,
)
    requires
        bl.len() == ll.len(),
        ll.len() == rl.len(),
        0 <= i < ll.len(),
    ensures
        rl[i] == bl[i] ==> merged_lines(bl, ll, rl)[i] == ll[i],
        ll[i] == bl[i] ==> merged_lines(bl, ll, rl)[i] == rl[i],
        !in_fm(ll, i) && ll[i] != bl[i] && rl[i] != bl[i] && ll[i] != rl[i] ==> merged_lines(
            bl,
            ll,
            rl,
        )[i] == conflict_block(ll[i], rl[i]),
{
}

// ───────────────────────── resolving conflicts ─────────────────────────

/// Where a line-by-line scan stands relative to conflict blocks.
#[derive(Debug, Clone, Copy, PartialEq, Eq, Structural)]
pub enum ScanState {
    Outside,
    InLocal,
    InRemote,
}

/// The lines kept when collapsing every conflict block to one side.
pub open spec fn resolve_from(ls: Seq<Seq<char>>, i: int, st: ScanState, side: ConflictSide) -> Seq<
    Seq<char>,
>
    decreases ls.len() - i,
{
    if i < 0 || i >= ls.len() {
        seq![]
    } else {
        let line = ls[i];
        match st {
            ScanState::Outside => if line == "<<<<<<< local"@ {
                resolve_from(ls, i + 1, ScanState::InLocal, side)
            } else {
                seq![line] + resolve_from(ls, i + 1, ScanState::Outside, side)
            },
            ScanState::InLocal => if line == "======="@ {
                resolve_from(ls, i + 1, ScanState::InRemote, side)
            } else if side == ConflictSide::Local {
                seq![line] + resolve_from(ls, i + 1, ScanState::InLocal, side)
            } else {
                resolve_from(ls, i + 1, ScanState::InLocal, side)
            },
            ScanState::InRemote => if line == ">>>>>>> remote"@ {
                resolve_from(ls, i + 1, ScanState::Outside, side)
            } else if side == ConflictSide::Remote {
                seq![line] + resolve_from(ls, i + 1, ScanState::InRemote, side)
            } else {
                resolve_from(ls, i + 1, ScanState::InRemote, side)
            },
        }
    }
}

/// A text with each conflict block replaced by the chosen side's lines.
pub open spec fn resolved(s: Seq<char>, side: ConflictSide) -> Seq<char> {
    join_sep(resolve_from(split_lines(s), 0, ScanState::Outside, side), '\n')
}

pub open spec fn step_state(line: Seq<char>, st: ScanState) -> ScanState {
    match st {
        ScanState::Outside => if line == "<<<<<<< local"@ {
            ScanState::InLocal
        } else {
            ScanState::Outside
        },
        ScanState::InLocal => if line == "======="@ {
            ScanState::InRemote
        } else {
            ScanState::InLocal
        },
        ScanState::InRemote => if line == ">>>>>>> remote"@ {
            ScanState::Outside
        } else {
            ScanState::InRemote
        },
    }
}

pub open spec fn keeps_line(line: Seq<char>, st: ScanState, side: ConflictSide) -> bool {
    match st {
        ScanState::Outside => line != "<<<<<<< local"@,
        ScanState::InLocal => line != "======="@ && side == ConflictSide::Local,
        ScanState::InRemote => line != ">>>>>>> remote"@ && side == ConflictSide::Remote,
    }
}

proof fn lemma_resolve_step(ls: Seq<Seq<char>>, i: int, st: ScanState, side: ConflictSide)
    requires
        0 <= i < ls.len(),
    ensures
        resolve_from(ls, i, st, side) == (if keeps_line(ls[i], st, side) {
            seq![ls[i]]
        } else {
            Seq::<Seq<char>>::empty()
        }) + resolve_from(ls, i + 1, step_state(ls[i], st), side),
{
    if !keeps_line(ls[i], st, side) {
        assert(Seq::<Seq<char>>::empty() + resolve_from(ls, i + 1, step_state(ls[i], st), side)
            =~= resolve_from(ls, i + 1, step_state(ls[i], st), side));
    }
}

/// Collapse every conflict block of `content` to `side`.
pub fn resolve_conflict_markers(content: &str, side: ConflictSide) -> (r: String)
    ensures
        r@ == resolved(content@, side),
{
    let cv = chars_of(content);
    let ls = split_lines_exec(&cv);
    let open = chars_of("<<<<<<< local");
    let mid = chars_of("=======");
    let close = chars_of(">>>>>>> remote");
    let ghost lv = views(ls@);
    let mut st = ScanState::Outside;
    let mut out: Vec<Vec<char>> = Vec::new();
    let mut i: usize = 0;
    while i < ls.len()
        invariant
            i <= ls.len(),
            lv == views(ls@),
            lv == split_lines(content@),
            open@ == "<<<<<<< local"@,
            mid@ == "======="@,
            close@ == ">>>>>>> remote"@,
            views(out@) + resolve_from(lv, i as int, st, side) == resolve_from(
                lv,
                0,
                ScanState::Outside,
                side,
            ),
        decreases ls.len() - i,
    {
        proof {
            lemma_resolve_step(lv, i as int, st, side);
        }
        assert(lv[i as int] == ls@[i as int]@);
        let line = &ls[i];
        let (keep, next) = match st {
            ScanState::Outside => if chars_eq(line, &open) {
                (false, ScanState::InLocal)
            } else {
                (true, ScanState::Outside)
            },
            ScanState::InLocal => if chars_eq(line, &mid) {
                (false, ScanState::InRemote)
            } else {
                (side == ConflictSide::Local, ScanState::InLocal)
            },
            ScanState::InRemote => if chars_eq(line, &close) {
                (false, ScanState::Outside)
            } else {
                (side == ConflictSide::Remote, ScanState::InRemote)
            },
        };
        let ghost before = views(out@);
        if keep {
            out.push(copy_range(line, 0, line.len()));
            assert(line@.subrange(0, line@.len() as int) =~= line@);
            assert(views(out@) =~= before.push(line@));
            assert(before + (seq![lv[i as int]] + resolve_from(lv, i + 1, next, side))
                =~= views(out@) + resolve_from(lv, i + 1, next, side));
        } else {
            assert(Seq::<Seq<char>>::empty() + resolve_from(lv, i + 1, next, side) =~= resolve_from(
                lv,
                i + 1,
                next,
                side,
            ));
        }
        st = next;
        i += 1;
    }
    assert(views(out@) + resolve_from(lv, i as int, st, side) =~= views(out@));
    let joined = join_lines_exec(&out);
    string_of(&joined)
}

proof fn lemma_resolve_unmarked(ls: Seq<Seq<char>>, i: int, side: ConflictSide)
    requires
        0 <= i <= ls.len(),
        forall|j: int| 0 <= j < ls.len() ==> #[trigger] ls[j] != "<<<<<<< local"@,
    ensures
        resolve_from(ls, i, ScanState::Outside, side) == ls.skip(i),
    decreases ls.len() - i,
{
    if i < ls.len() {
        lemma_resolve_unmarked(ls, i + 1, side);
        assert(seq![ls[i]] + ls.skip(i + 1) =~= ls.skip(i));
    } else {
        assert(ls.skip(i) =~= Seq::<Seq<char>>::empty());
    }
}

/// Resolving a text that has no conflict-opening line changes nothing.
pub proof fn law_resolve_without_conflicts_is_identity(s: Seq<char>, side: ConflictSide)
    requires
        forall|j: int|
            0 <= j < split_lines(s).len() ==> #[trigger] split_lines(s)[j] != "<<<<<<< local"@,
    ensures
        resolved(s, side) == s,
{
    lemma_resolve_unmarked(split_lines(s), 0, side);
    assert(split_lines(s).skip(0) =~= split_lines(s));
    crate::text::lemma_join_split(s, 0);
    assert(s.subrange(0, s.len() as int) =~= s);
}

// ───────────────────────── event logs ─────────────────────────

/// The union of two event logs: every local line in order, then each remote
/// line not already present (and not repeated), in remote order.
pub open spec fn union_lines(local: Seq<Seq<char>>, remote: Seq<Seq<char>>) -> Seq<Seq<char>>
    decreases remote.len(),
{
    if remote.len() == 0 {
        local
    } else {
        let u = union_lines(local, remote.drop_last());
        if u.contains(remote.last()) {
            u
        } else {
            u.push(remote.last())
        }
    }
}

/// The non-empty lines of a log.
pub open spec fn log_lines(s: Seq<char>) -> Seq<Seq<char>> {
    split_lines(s).filter(|l: Seq<char>| l.len() > 0)
}

/// A merged event log: the union of the lines, one per line, newline ended.
pub open spec fn merged_log(local: Seq<char>, remote: Seq<char>) -> Seq<char> {
    let u = union_lines(log_lines(local), log_lines(remote));
    if u.len() == 0 {
        Seq::empty()
    } else {
        join_sep(u, '\n') + seq!['\n']
    }
}

fn nonempty_lines(s: &str) -> (r: Vec<Vec<char>>)
    ensures
        views(r@) == log_lines(s@),
{
    let v = chars_of(s);
    let ls = split_lines_exec(&v);
    let ghost lv = views(ls@);
    let mut out: Vec<Vec<char>> = Vec::new();
    let mut i: usize = 0;
    while i < ls.len()
        invariant
            i <= ls.len(),
            lv == views(ls@),
            views(out@) == lv.take(i as int).filter(|l: Seq<char>| l.len() > 0),
        decreases ls.len() - i,
    {
        proof {
            reveal(Seq::filter);
            assert(lv.take(i + 1).drop_last() =~= lv.take(i as int));
            assert(lv[i as int] == ls@[i as int]@);
        }
        if ls[i].len() > 0 {
            let ghost before = views(out@);
            out.push(copy_range(&ls[i], 0, ls[i].len()));
            assert(ls@[i as int]@.subrange(0, ls@[i as int]@.len() as int) =~= ls@[i as int]@);
            assert(views(out@) =~= before.push(ls@[i as int]@));
        }
        i += 1;
    }
    assert(lv.take(i as int) =~= lv);
    out
}

fn contains_line(ls: &Vec<Vec<char>>, x: &Vec<char>) -> (b: bool)
    ensures
        b == views(ls@).contains(x@),
{
    let mut i: usize = 0;
    while i < ls.len()
        invariant
            i <= ls.len(),
            forall|j: int| 0 <= j < i ==> ls@[j]@ != x@,
        decreases ls.len() - i,
    {
        if chars_eq(&ls[i], x) {
            assert(views(ls@)[i as int] == x@);
            return true;
        }
        i += 1;
    }
    proof {
        if views(ls@).contains(x@) {
            let j = choose|j: int| 0 <= j < views(ls@).len() && views(ls@)[j] == x@;
            assert(views(ls@)[j] == ls@[j]@);
        }
    }
    false
}

/// Merge an append-only event log with a fetched one: local lines first, then
/// the fetched lines it lacks.
pub fn merge_events_jsonl(local: &str, remote: &str) -> (r: String)
    ensures
        r@ == merged_log(local@, remote@),
{
    let mut u = nonempty_lines(local);
    let rs = nonempty_lines(remote);
    let ghost lv = log_lines(local@);
    let ghost rv = log_lines(remote@);
    let mut i: usize = 0;
    assert(rv.take(0) =~= Seq::<Seq<char>>::empty());
    while i < rs.len()
        invariant
            i <= rs.len(),
            views(rs@) == rv,
            views(u@) == union_lines(lv, rv.take(i as int)),
        decreases rs.len() - i,
    {
        assert(rv.take(i + 1).drop_last() =~= rv.take(i as int));
        assert(rv.take(i + 1).last() == rs@[i as int]@);
        if !contains_line(&u, &rs[i]) {
            let ghost before = views(u@);
            u.push(copy_range(&rs[i], 0, rs[i].len()));
            assert(rs@[i as int]@.subrange(0, rs@[i as int]@.len() as int) =~= rs@[i as int]@);
            assert(views(u@) =~= before.push(rs@[i as int]@));
        }
        i += 1;
    }
    assert(rv.take(i as int) =~= rv);
    if u.len() == 0 {
        return String::new();
    }
    let mut joined = join_lines_exec(&u);
    joined.push('\n');
    string_of(&joined)
}

/// Merging event logs loses nothing: every local line and every fetched line
/// appears in the merged log.
pub proof fn law_event_union_keeps_everything(local: Seq<Seq<char>>, remote: Seq<Seq<char>>)
    ensures
        forall|k: int| 0 <= k < local.len() ==> union_lines(local, remote).contains(#[trigger] local[k]),
        forall|k: int|
            0 <= k < remote.len() ==> union_lines(local, remote).contains(#[trigger] remote[k]),
        union_lines(local, remote).len() >= local.len(),
        union_lines(local, remote).take(local.len() as int) == local,
    decreases remote.len(),
{
    if remote.len() > 0 {
        let d = remote.drop_last();
        law_event_union_keeps_everything(local, d);
        let u = union_lines(local, d);
        let x = remote.last();
        assert forall|k: int| 0 <= k < local.len() implies union_lines(local, remote).contains(
            #[trigger] local[k],
        ) by {
            assert(u.contains(local[k]));
            let j = choose|j: int| 0 <= j < u.len() && u[j] == local[k];
            if !u.contains(x) {
                assert(u.push(x)[j] == local[k]);
            }
        }
        assert forall|k: int| 0 <= k < remote.len() implies union_lines(local, remote).contains(
            #[trigger] remote[k],
        ) by {
            if k < d.len() {
                assert(d[k] == remote[k]);
                assert(u.contains(d[k]));
                let j = choose|j: int| 0 <= j < u.len() && u[j] == d[k];
                if !u.contains(x) {
                    assert(u.push(x)[j] == remote[k]);
                }
            } else {
                if !u.contains(x) {
                    assert(u.push(x)[u.len() as int] == x);
                }
            }
        }
        if !u.contains(x) {
            assert(u.push(x).take(local.len() as int) =~= u.take(local.len() as int));
        }
    } else {
        assert(local.take(local.len() as int) =~= local);
    }
}

// ───────────────────────── rankings ─────────────────────────

/// `a` is no later than `b`, for instants given as (seconds, nanoseconds).
pub open spec fn instant_le(a: (i64, u32), b: (i64, u32)) -> bool {
    a.0 < b.0 || (a.0 == b.0 && a.1 <= b.1)
}

/// The instant in a ranking file's top-level `updated_at`, when it has one.
pub open spec fn ranking_stamp(text: Seq<char>) -> Option<(i64, u32)> {
    match json_string_member_of(text, "updated_at"@) {
        Some(u) => rfc3339_instant_of(u),
        None => None,
    }
}

/// A ranking file is one user's ordering, so a fetch keeps whichever copy was
/// updated last: the fetched copy unless the local one carries a stamp at
/// least as recent (a copy with no readable stamp never wins over one with).
pub open spec fn merge_ranking_spec(local: Option<Seq<char>>, remote: Seq<char>) -> Seq<char> {
    match local {
        None => remote,
        Some(l) => match ranking_stamp(l) {
            None => remote,
            Some(a) => match ranking_stamp(remote) {
                None => l,
                Some(b) => if instant_le(b, a) {
                    l
                } else {
                    remote
                },
            },
        },
    }
}

fn ranking_stamp_exec(text: &str) -> (r: Option<(i64, u32)>)
    ensures
        r == ranking_stamp(text@),
{
    match json_string_member(text, "updated_at") {
        Some(u) => rfc3339_instant(u.as_str()),
        None => None,
    }
}

/// Merge a fetched ranking file with the local one, last writer wins.
pub fn merge_ranking_json(local: Option<&str>, remote: &str) -> (r: String)
    ensures
        r@ == merge_ranking_spec(
            match local {
                Some(l) => Some(l@),
                None => None,
            },
            remote@,
        ),
{
    let rv = chars_of(remote);
    match local {
        None => string_of(&rv),
        Some(l) => {
            let lv = chars_of(l);
            match ranking_stamp_exec(l) {
                None => string_of(&rv),
                Some(a) => match ranking_stamp_exec(remote) {
                    None => string_of(&lv),
                    Some(b) => if b.0 < a.0 || (b.0 == a.0 && b.1 <= a.1) {
                        string_of(&lv)
                    } else {
                        string_of(&rv)
                    },
                },
            }
        },
    }
}

/// Last writer wins: of two stamped ranking copies with different stamps,
/// the merge keeps the later one whichever side it arrives on.
pub proof fn law_ranking_last_writer_wins(a: Seq<char>, b: Seq<char>)
    requires
        ranking_stamp(a) is Some,
        ranking_stamp(b) is Some,
        ranking_stamp(a) != ranking_stamp(b),
    ensures
        merge_ranking_spec(Some(a), b) == merge_ranking_spec(Some(b), a),
        merge_ranking_spec(Some(a), b) == (if instant_le(ranking_stamp(b)->0, ranking_stamp(a)->0) { a } else { b }),
{
}

} // verus!
