//! Finding entity files left with conflict markers by a fetch, and choosing
//! one to resolve.

use vstd::prelude::*;
use crate::display::{can_shorten, short_id};
use crate::merge::{has_conflict_markers, has_markers, resolve_conflict_markers, resolved, ConflictSide};
use crate::models::{Event, EventType, plain_event};
use crate::rank::is_validation;
use crate::store::JjjError;
use crate::text::{
    append_chars, chars_of, copy_range, ends_with, lemma_lex_total, lemma_lex_trans, lex_le, lex_le_exec, split_lines, split_lines_exec,
    starts_with, str_eq, string_of, trim, trim_chars, views,
};
use crate::search::{char_width, utf8_len};

verus! {

/// One conflicted entity file awaiting resolution.
#[derive(Debug, PartialEq)]
pub struct ConflictInfo {
    /// Singular entity type (`problem`, `solution`, `critique`, `milestone`,
    /// `finding`).
    pub entity_type: String,
    /// The entity's id (the file stem).
    pub id: String,
    /// Title read off the frontmatter, or `(untitled)`.
    pub title: String,
    /// Path relative to the metadata directory, e.g. `problems/{id}.md`.
    pub path: String,
}

pub struct ConflictView {
    pub entity_type: Seq<char>,
    pub id: Seq<char>,
    pub title: Seq<char>,
    pub path: Seq<char>,
}

impl View for ConflictInfo {
    type V = ConflictView;

    open spec fn view(&self) -> ConflictView {
        ConflictView { entity_type: self.entity_type@, id: self.id@, title: self.title@, path: self.path@ }
    }
}

pub open spec fn conflicts_view(v: Seq<ConflictInfo>) -> Seq<ConflictView> {
    v.map_values(|c: ConflictInfo| c@)
}

// ───────────────────────── titles ─────────────────────────

pub open spec fn strip_quotes_start(s: Seq<char>) -> Seq<char>
    decreases s.len(),
{
    if s.len() > 0 && s[0] == '"' {
        strip_quotes_start(s.drop_first())
    } else {
        s
    }
}

pub open spec fn strip_quotes_end(s: Seq<char>) -> Seq<char>
    decreases s.len(),
{
    if s.len() > 0 && s.last() == '"' {
        strip_quotes_end(s.drop_last())
    } else {
        s
    }
}

/// `str::trim_matches('"')`.
pub open spec fn unquoted(s: Seq<char>) -> Seq<char> {
    strip_quotes_end(strip_quotes_start(s))
}

proof fn lemma_strip_start(s: Seq<char>, k: int)
    requires
        0 <= k <= s.len(),
        forall|j: int| 0 <= j < k ==> s[j] == '"',
        k == s.len() || s[k] != '"',
    ensures
        strip_quotes_start(s) == s.skip(k),
    decreases k,
{
    if k == 0 {
        assert(s.skip(0) =~= s);
    } else {
        let t = s.drop_first();
        assert forall|j: int| 0 <= j < k - 1 implies t[j] == '"' by {
            assert(t[j] == s[j + 1]);
        }
        if k - 1 < t.len() {
            assert(t[k - 1] == s[k]);
        }
        lemma_strip_start(t, k - 1);
        assert(t.skip(k - 1) =~= s.skip(k));
    }
}

proof fn lemma_strip_end(s: Seq<char>, k: int)
    requires
        0 <= k <= s.len(),
        forall|j: int| k <= j < s.len() ==> s[j] == '"',
        k == 0 || s[k - 1] != '"',
    ensures
        strip_quotes_end(s) == s.take(k),
    decreases s.len() - k,
{
    if k == s.len() {
        assert(s.take(k) =~= s);
    } else {
        let t = s.drop_last();
        assert forall|j: int| k <= j < t.len() implies t[j] == '"' by {
            assert(t[j] == s[j]);
        }
        if k > 0 {
            assert(t[k - 1] == s[k - 1]);
        }
        lemma_strip_end(t, k);
        assert(t.take(k) =~= s.take(k));
    }
}

fn unquote(v: &Vec<char>) -> (r: Vec<char>)
    ensures
        r@ == unquoted(v@),
{
    let n = v.len();
    let mut a: usize = 0;
    while a < n && v[a] == '"'
        invariant
            n == v.len(),
            a <= n,
            forall|j: int| 0 <= j < a ==> v@[j] == '"',
        decreases n - a,
    {
        a += 1;
    }
    proof {
        lemma_strip_start(v@, a as int);
    }
    let ghost t = v@.skip(a as int);
    let mut b: usize = n;
    while b > a && v[b - 1] == '"'
        invariant
            n == v.len(),
            a <= b <= n,
            forall|j: int| b <= j < n ==> v@[j] == '"',
        decreases b,
    {
        b -= 1;
    }
    proof {
        assert forall|j: int| b - a <= j < t.len() implies t[j] == '"' by {
            assert(t[j] == v@[j + a]);
        }
        if b > a {
            assert(t[b - a - 1] == v@[b - 1]);
        }
        lemma_strip_end(t, (b - a) as int);
    }
    let r = copy_range(v, a, b);
    assert(r@ =~= t.take((b - a) as int));
    r
}

/// The `title:` value among frontmatter lines `i..` (before the closing
/// `---`).
pub open spec fn title_from(ls: Seq<Seq<char>>, i: int) -> Option<Seq<char>>
    decreases ls.len() - i,
{
    if i < 0 || i >= ls.len() {
        None
    } else if trim(ls[i]) == "---"@ {
        None
    } else if "title:"@.is_prefix_of(ls[i]) {
        Some(unquoted(trim(ls[i].skip(6))))
    } else {
        title_from(ls, i + 1)
    }
}

/// The frontmatter's `title:`, read without a full parse (a conflicted body
/// would trip one).
pub open spec fn frontmatter_title_spec(content: Seq<char>) -> Option<Seq<char>> {
    let ls = split_lines(content);
    if ls.len() == 0 || trim(ls[0]) != "---"@ {
        None
    } else {
        title_from(ls, 1)
    }
}

pub fn frontmatter_title(content: &str) -> (r: Option<String>)
    ensures
        match r {
            Some(t) => frontmatter_title_spec(content@) == Some(t@),
            None => frontmatter_title_spec(content@) is None,
        },
{
    proof {
        reveal_strlit("title:");
    }
    let v = chars_of(content);
    let ls = split_lines_exec(&v);
    let ghost lv = views(ls@);
    let dashes = chars_of("---");
    if ls.len() == 0 {
        return None;
    }
    let first = trim_chars(&ls[0]);
    assert(lv[0] == ls@[0]@);
    if !crate::text::chars_eq(&first, &dashes) {
        return None;
    }
    let key = chars_of("title:");
    let mut i: usize = 1;
    while i < ls.len()
        invariant
            1 <= i <= ls.len(),
            lv == views(ls@),
            dashes@ == "---"@,
            key@ == "title:"@,
            key@.len() == 6,
            title_from(lv, i as int) == title_from(lv, 1),
            lv == split_lines(content@),
            lv.len() > 0 && trim(lv[0]) == "---"@,
        decreases ls.len() - i,
    {
        assert(lv[i as int] == ls@[i as int]@);
        let t = trim_chars(&ls[i]);
        if crate::text::chars_eq(&t, &dashes) {
            return None;
        }
        if starts_with(&ls[i], &key) {
            let rest = copy_range(&ls[i], 6, ls[i].len());
            assert(rest@ =~= ls@[i as int]@.skip(6));
            let tr = trim_chars(&rest);
            let u = unquote(&tr);
            return Some(string_of(&u));
        }
        i += 1;
    }
    None
}

// ───────────────────────── scanning ─────────────────────────

/// The directories scanned for conflicts, each with its entity type.
pub open spec fn conflict_dirs() -> Seq<(Seq<char>, Seq<char>)> {
    seq![
        ("problems"@, "problem"@),
        ("solutions"@, "solution"@),
        ("critiques"@, "critique"@),
        ("milestones"@, "milestone"@),
        ("findings"@, "finding"@),
    ]
}

pub fn conflict_dirs_exec() -> (r: Vec<(&'static str, &'static str)>)
    ensures
        r@.map_values(|p: (&'static str, &'static str)| (p.0@, p.1@)) == conflict_dirs(),
{
    let r = vec![
        ("problems", "problem"),
        ("solutions", "solution"),
        ("critiques", "critique"),
        ("milestones", "milestone"),
        ("findings", "finding"),
    ];
    assert(r@.map_values(|p: (&'static str, &'static str)| (p.0@, p.1@)) =~= conflict_dirs());
    r
}

/// What a file `file` in directory `dir` (holding entities of type
/// `singular`) with this content contributes to the conflict list: only a
/// markdown file that still carries markers does.
pub open spec fn conflict_entry_spec(
    dir: Seq<char>,
    singular: Seq<char>,
    file: Seq<char>,
    stem: Seq<char>,
    content: Seq<char>,
) -> Option<ConflictView> {
    if !".md"@.is_suffix_of(file) || !has_markers(content) {
        None
    } else {
        Some(
            ConflictView {
                entity_type: singular,
                id: stem,
                title: match frontmatter_title_spec(content) {
                    Some(t) => t,
                    None => "(untitled)"@,
                },
                path: dir + "/"@ + file,
            },
        )
    }
}

/// The conflict entry for one file, given its name, its stem (the entity id)
/// and its content.
pub fn conflict_entry(dir: &str, singular: &str, file: &str, stem: &str, content: &str) -> (r: Option<
    ConflictInfo,
>)
    ensures
        match r {
            Some(c) => conflict_entry_spec(dir@, singular@, file@, stem@, content@) == Some(c@),
            None => conflict_entry_spec(dir@, singular@, file@, stem@, content@) is None,
        },
{
    let fv = chars_of(file);
    let md = chars_of(".md");
    if !ends_with(&fv, &md) || !has_conflict_markers(content) {
        return None;
    }
    let title = match frontmatter_title(content) {
        Some(t) => t,
        None => {
            let u = chars_of("(untitled)");
            string_of(&u)
        },
    };
    let mut path = chars_of(dir);
    let slash = chars_of("/");
    append_chars(&mut path, &slash);
    append_chars(&mut path, &fv);
    let sv = chars_of(singular);
    let iv = chars_of(stem);
    Some(ConflictInfo { entity_type: string_of(&sv), id: string_of(&iv), title, path: string_of(&path) })
}

// ───────────────────────── ordering by path ─────────────────────────

pub open spec fn sorted_by_path(v: Seq<ConflictView>) -> bool {
    forall|i: int, j: int| 0 <= i < j < v.len() ==> lex_le(v[i].path, v[j].path)
}

/// Sort conflicts by path (stable), as the listing shows them.
pub fn sort_by_path(v: Vec<ConflictInfo>) -> (r: Vec<ConflictInfo>)
    ensures
        sorted_by_path(conflicts_view(r@)),
        conflicts_view(r@).to_multiset() == conflicts_view(v@).to_multiset(),
{
    broadcast use vstd::multiset::group_multiset_axioms;
    let ghost all = conflicts_view(v@);
    let mut out: Vec<ConflictInfo> = Vec::new();
    let mut rest = v;
    proof {
        assert(conflicts_view(out@) =~= Seq::<ConflictView>::empty());
        conflicts_view(out@).to_multiset_ensures();
        vstd::multiset::lemma_multiset_empty_len(conflicts_view(out@).to_multiset());
        assert(conflicts_view(out@).to_multiset() =~= vstd::multiset::Multiset::<ConflictView>::empty());
        assert(conflicts_view(out@).to_multiset().add(conflicts_view(rest@).to_multiset()) =~= all.to_multiset());
    }
    while rest.len() > 0
        invariant
            sorted_by_path(conflicts_view(out@)),
            conflicts_view(out@).to_multiset().add(conflicts_view(rest@).to_multiset())
                == all.to_multiset(),
        decreases rest.len(),
    {
        let ghost rv = conflicts_view(rest@);
        let ghost ov = conflicts_view(out@);
        let x = rest.remove(0);
        proof {
            rv.to_multiset_ensures();
            assert(conflicts_view(rest@) =~= rv.remove(0));
            assert(rv[0] == x@);
        }
        let xp = chars_of(x.path.as_str());
        let mut k: usize = out.len();
        while k > 0 && !lex_le_exec(&chars_of(out[k - 1].path.as_str()), &xp)
            invariant
                k <= out.len(),
                ov == conflicts_view(out@),
                xp@ == x.path@,
                forall|j: int| k <= j < ov.len() ==> !lex_le(#[trigger] ov[j].path, x.path@),
            decreases k,
        {
            assert(ov[k - 1] == out@[k - 1]@);
            k -= 1;
        }
        proof {
            if k > 0 {
                assert(ov[k - 1] == out@[k - 1]@);
            }
        }
        out.insert(k, x);
        proof {
            let nv = conflicts_view(out@);
            assert(nv =~= ov.insert(k as int, x@));
            assert forall|j: int| k <= j < ov.len() implies lex_le(x@.path, #[trigger] ov[j].path) by {
                lemma_lex_total(x@.path, ov[j].path);
            }
            assert forall|i: int| 0 <= i < k implies lex_le(#[trigger] ov[i].path, x@.path) by {
                if i < k - 1 {
                    lemma_lex_trans(ov[i].path, ov[k - 1].path, x@.path);
                }
            }
            assert forall|i: int, j: int| 0 <= i < j < nv.len() implies lex_le(nv[i].path, nv[j].path) by {
                if j < k {
                    assert(nv[i] == ov[i] && nv[j] == ov[j]);
                } else if j == k {
                    assert(nv[i] == ov[i]);
                } else if i == k {
                    assert(nv[j] == ov[j - 1]);
                } else if i < k {
                    assert(nv[i] == ov[i] && nv[j] == ov[j - 1]);
                    lemma_lex_trans(ov[i].path, x@.path, ov[j - 1].path);
                } else {
                    assert(nv[i] == ov[i - 1] && nv[j] == ov[j - 1]);
                }
            }
            vstd::seq_lib::to_multiset_insert(ov, k as int, x@);
            assert(nv.to_multiset().add(conflicts_view(rest@).to_multiset()) =~= all.to_multiset());
        }
    }
    assert(conflicts_view(rest@) =~= Seq::<ConflictView>::empty());
    assert(conflicts_view(out@).to_multiset() =~= all.to_multiset());
    out
}

// ───────────────────────── choosing one to resolve ─────────────────────────

proof fn lemma_utf8_prefix(s: Seq<char>, i: int)
    requires
        0 <= i <= s.len(),
    ensures
        utf8_len(s.take(i)) <= utf8_len(s),
    decreases s.len() - i,
{
    if i < s.len() {
        lemma_utf8_prefix(s.drop_last(), if i < s.len() { i } else { i - 1 });
        assert(s.drop_last().take(i) =~= s.take(i));
    } else {
        assert(s.take(i) =~= s);
    }
}

/// Whether `v` takes at least `k` bytes in UTF-8.
fn utf8_len_at_least(v: &Vec<char>, k: usize) -> (b: bool)
    requires
        k <= 16,
    ensures
        b == (utf8_len(v@) >= k),
{
    let mut sum: usize = 0;
    let mut i: usize = 0;
    assert(v@.take(0) =~= Seq::<char>::empty());
    while i < v.len() && sum < k
        invariant
            i <= v.len(),
            k <= 16,
            sum == utf8_len(v@.take(i as int)),
            sum < k + 4,
        decreases v.len() - i,
    {
        let c = v[i];
        let u = c as u32;
        let w: usize = if u < 0x80 {
            1
        } else if u < 0x800 {
            2
        } else if u < 0x10000 {
            3
        } else {
            4
        };
        assert(v@.take(i + 1).drop_last() =~= v@.take(i as int));
        sum = sum + w;
        i += 1;
    }
    proof {
        lemma_utf8_prefix(v@, i as int);
        if i == v.len() {
            assert(v@.take(i as int) =~= v@);
        }
    }
    sum >= k
}

/// `c` is picked out by `input`: its full id, or (for an input of at least
/// six bytes) a prefix of it.
pub open spec fn picks(c: ConflictView, input: Seq<char>) -> bool {
    c.id == input || (utf8_len(input) >= 6 && input.is_prefix_of(c.id))
}

pub open spec fn picked(cs: Seq<ConflictView>, input: Seq<char>) -> Seq<ConflictView> {
    cs.filter(|c: ConflictView| picks(c, input))
}

pub open spec fn short(id: Seq<char>) -> Seq<char> {
    crate::display::short_of(id)
}

/// Every id in `cs` can be shortened to its first six bytes.
pub open spec fn all_shortenable(cs: Seq<ConflictView>) -> bool {
    forall|k: int| 0 <= k < cs.len() ==> crate::display::short_id_ok(#[trigger] cs[k].id)
}

pub open spec fn no_conflict_msg(input: Seq<char>) -> Seq<char> {
    "No unresolved conflict matches '"@ + input + "'. Run `jjj conflicts` to list them."@
}

pub open spec fn ambiguous_msg(input: Seq<char>, ms: Seq<ConflictView>) -> Seq<char> {
    "'"@ + input + "' is ambiguous — matches "@ + crate::status::join_with(
        ms.map_values(|c: ConflictView| short(c.id)),
        ", "@,
    ) + ". Use a longer prefix."@
}

/// Whether `pick_conflict` can answer: when several conflicts match, the
/// error lists each by its first six bytes, so each must end a character
/// there.
pub fn pick_conflict_defined(conflicts: &Vec<ConflictInfo>, input: &str) -> (b: bool)
    ensures
        b == (picked(conflicts_view(conflicts@), input@).len() > 1 ==> all_shortenable(picked(conflicts_view(conflicts@), input@))),
{
    let iv = chars_of(input);
    let long_enough = utf8_len_at_least(&iv, 6);
    let ghost cv = conflicts_view(conflicts@);
    let ghost pred = |c: ConflictView| picks(c, input@);
    let mut count: usize = 0;
    let mut ok = true;
    let mut i: usize = 0;
    while i < conflicts.len()
        invariant
            i <= conflicts.len(),
            cv == conflicts_view(conflicts@),
            iv@ == input@,
            long_enough == (utf8_len(input@) >= 6),
            pred == (|c: ConflictView| picks(c, input@)),
            count == cv.take(i as int).filter(pred).len(),
            count <= i,
            ok == all_shortenable(cv.take(i as int).filter(pred)),
        decreases conflicts.len() - i,
    {
        proof {
            reveal(Seq::filter);
            assert(cv.take(i + 1).drop_last() =~= cv.take(i as int));
            assert(cv[i as int] == conflicts@[i as int]@);
        }
        let ghost prev = cv.take(i as int).filter(pred);
        let idv = chars_of(conflicts[i].id.as_str());
        let hit = str_eq(conflicts[i].id.as_str(), input) || (long_enough && starts_with(&idv, &iv));
        if hit {
            let c_ok = can_shorten(conflicts[i].id.as_str());
            proof {
                let now_ = prev.push(cv[i as int]);
                assert(now_[prev.len() as int] == cv[i as int]);
                if all_shortenable(now_) {
                    assert forall|k: int| 0 <= k < prev.len() implies crate::display::short_id_ok(#[trigger] prev[k].id) by {
                        assert(now_[k] == prev[k]);
                    }
                }
                if ok && c_ok {
                    assert forall|k: int| 0 <= k < now_.len() implies crate::display::short_id_ok(#[trigger] now_[k].id) by {
                        if k < prev.len() {
                            assert(now_[k] == prev[k]);
                        }
                    }
                }
            }
            ok = ok && c_ok;
            count += 1;
        }
        i += 1;
    }
    assert(cv.take(i as int) =~= cv);
    count <= 1 || ok
}

/// The one conflict `input` picks out (see `picks`).
pub fn pick_conflict(conflicts: &Vec<ConflictInfo>, input: &str) -> (r: Result<usize, JjjError>)
    requires
        picked(conflicts_view(conflicts@), input@).len() > 1 ==> all_shortenable(picked(conflicts_view(conflicts@), input@)),
    ensures
        ({
            let ms = picked(conflicts_view(conflicts@), input@);
            &&& ms.len() == 1 ==> (r matches Ok(k) && k < conflicts@.len() && conflicts@[k as int]@ == ms[0])
            &&& ms.len() == 0 ==> (r matches Err(e) && is_validation(e, no_conflict_msg(input@)))
            &&& ms.len() > 1 ==> (r matches Err(e) && is_validation(e, ambiguous_msg(input@, ms)))
        }),
{
    let iv = chars_of(input);
    let long_enough = utf8_len_at_least(&iv, 6);
    let ghost cv = conflicts_view(conflicts@);
    let ghost pred = |c: ConflictView| picks(c, input@);
    let mut count: usize = 0;
    let mut first: usize = 0;
    let mut ids: Vec<char> = Vec::new();
    let mut i: usize = 0;
    while i < conflicts.len()
        invariant
            i <= conflicts.len(),
            cv == conflicts_view(conflicts@),
            iv@ == input@,
            long_enough == (utf8_len(input@) >= 6),
            pred == (|c: ConflictView| picks(c, input@)),
            count == cv.take(i as int).filter(pred).len(),
            count <= i,
            count > 0 ==> first < conflicts@.len() && cv[first as int] == cv.take(i as int).filter(pred)[0],
            all_shortenable(cv.take(i as int).filter(pred)) ==> ids@ == crate::status::join_with(
                cv.take(i as int).filter(pred).map_values(|c: ConflictView| short(c.id)),
                ", "@,
            ),
        decreases conflicts.len() - i,
    {
        proof {
            reveal(Seq::filter);
            assert(cv.take(i + 1).drop_last() =~= cv.take(i as int));
            assert(cv[i as int] == conflicts@[i as int]@);
        }
        let ghost prev = cv.take(i as int).filter(pred);
        let idv = chars_of(conflicts[i].id.as_str());
        let hit = str_eq(conflicts[i].id.as_str(), input) || (long_enough && starts_with(&idv, &iv));
        if hit {
            proof {
                assert(prev.push(cv[i as int]).map_values(|c: ConflictView| short(c.id)) =~= prev.map_values(
                    |c: ConflictView| short(c.id),
                ).push(short(cv[i as int].id)));
                crate::status::lemma_join_with_push(
                    prev.map_values(|c: ConflictView| short(c.id)),
                    short(cv[i as int].id),
                    ", "@,
                );
                if count > 0 {
                    assert(prev.push(cv[i as int])[0] == prev[0]);
                }
            }
            if count > 0 {
                let sep = chars_of(", ");
                append_chars(&mut ids, &sep);
            } else {
                first = i;
            }
            if can_shorten(conflicts[i].id.as_str()) {
                let sh = short_id(conflicts[i].id.as_str());
                let shv = chars_of(sh.as_str());
                append_chars(&mut ids, &shv);
            }
            proof {
                let now_ = prev.push(cv[i as int]);
                if all_shortenable(now_) {
                    assert forall|k: int| 0 <= k < prev.len() implies crate::display::short_id_ok(#[trigger] prev[k].id) by {
                        assert(now_[k] == prev[k]);
                    }
                    assert(now_[prev.len() as int] == cv[i as int]);
                }
            }
            count += 1;
        }
        i += 1;
    }
    assert(cv.take(i as int) =~= cv);
    if count == 1 {
        Ok(first)
    } else if count == 0 {
        let mut m = chars_of("No unresolved conflict matches '");
        append_chars(&mut m, &iv);
        let tail = chars_of("'. Run `jjj conflicts` to list them.");
        append_chars(&mut m, &tail);
        Err(JjjError::Validation(string_of(&m)))
    } else {
        let mut m = chars_of("'");
        append_chars(&mut m, &iv);
        let mid = chars_of("' is ambiguous — matches ");
        append_chars(&mut m, &mid);
        append_chars(&mut m, &ids);
        let tail = chars_of(". Use a longer prefix.");
        append_chars(&mut m, &tail);
        Err(JjjError::Validation(string_of(&m)))
    }
}

pub open spec fn still_conflicted_msg(path: Seq<char>) -> Seq<char> {
    path + " still has conflict markers after resolution — file may be malformed."@
}

/// Collapse a conflicted file to one side; a result that still carries
/// markers means the file was malformed.
pub fn resolve_content(content: &str, side: ConflictSide, path: &str) -> (r: Result<String, JjjError>)
    ensures
        !has_markers(resolved(content@, side)) ==> (r matches Ok(s) && s@ == resolved(content@, side)),
        has_markers(resolved(content@, side)) ==> (r matches Err(e) && is_validation(
            e,
            still_conflicted_msg(path@),
        )),
{
    let out = resolve_conflict_markers(content, side);
    if has_conflict_markers(out.as_str()) {
        let mut m = chars_of(path);
        let tail = chars_of(" still has conflict markers after resolution — file may be malformed.");
        append_chars(&mut m, &tail);
        Err(JjjError::Validation(string_of(&m)))
    } else {
        Ok(out)
    }
}

pub open spec fn no_side_msg() -> Seq<char> {
    "Specify which side to keep: --ours (your local edit) or --theirs (the fetched edit)."@
}

/// The side `resolve` keeps: the fetched one when `--theirs` is given (even
/// together with `--ours`), the local one for `--ours` alone; with neither,
/// the user is asked to choose.
pub fn pick_side(ours: bool, theirs: bool) -> (r: Result<ConflictSide, JjjError>)
    ensures
        theirs ==> r == Ok::<ConflictSide, JjjError>(ConflictSide::Remote),
        !theirs && ours ==> r == Ok::<ConflictSide, JjjError>(ConflictSide::Local),
        !theirs && !ours ==> (r matches Err(e) && is_validation(e, no_side_msg())),
{
    if theirs {
        Ok(ConflictSide::Remote)
    } else if ours {
        Ok(ConflictSide::Local)
    } else {
        Err(JjjError::Validation(string_of(&chars_of(
            "Specify which side to keep: --ours (your local edit) or --theirs (the fetched edit).",
        ))))
    }
}

pub open spec fn side_label_spec(side: ConflictSide) -> Seq<char> {
    match side {
        ConflictSide::Local => "ours (local)"@,
        ConflictSide::Remote => "theirs (remote)"@,
    }
}

pub fn side_label(side: ConflictSide) -> (s: &'static str)
    ensures
        s@ == side_label_spec(side),
{
    match side {
        ConflictSide::Local => "ours (local)",
        ConflictSide::Remote => "theirs (remote)",
    }
}

/// The event recording a resolution: by the current user (`unknown` when
/// none), with the given rationale or one naming the side kept.
pub fn resolution_event(id: &str, user: Option<&str>, rationale: Option<&str>, side: ConflictSide, now: i64) -> (e: Event)
    ensures
        plain_event(
            e,
            EventType::ConflictResolved,
            id@,
            match user {
                Some(u) => u@,
                None => "unknown"@,
            },
            now,
        ),
        e.rationale matches Some(r) && r@ == (match rationale {
            Some(t) => t@,
            None => "resolved to "@ + side_label_spec(side),
        }),
{
    let by = match user {
        Some(u) => u,
        None => "unknown",
    };
    let mut e = Event::new(EventType::ConflictResolved, id, by, now);
    let text = match rationale {
        Some(t) => {
            let v = chars_of(t);
            string_of(&v)
        },
        None => {
            let mut v = chars_of("resolved to ");
            let l = chars_of(side_label(side));
            append_chars(&mut v, &l);
            string_of(&v)
        },
    };
    e.rationale = Some(text);
    e
}

} // verus!
