//! Applying fetched file deltas to the metadata working set: which family a
//! path belongs to, how an entity change resolves against the local copy, and
//! what a fetch records for the cache refresh that follows.

use vstd::prelude::*;
use crate::merge::{
    has_conflict_markers, has_markers, merge_entity_md, merge_events_jsonl, merge_ranking_json,
    merge_ranking_spec, merge_spec, merged_log,
};
use crate::store::JjjError;
use crate::text::{pairs_view, strs, after_last, after_last_exec, chars_of, copy_range, ends_with, starts_with, str_eq, string_of};

verus! {

// ───────────────────────── path families ─────────────────────────

/// What a changed path maps to in the working set.
#[derive(Debug, Clone, Copy, PartialEq, Eq)]
pub enum Target {
    /// One of the four entity directories, with the entity's singular name.
    Entity { singular: &'static str },
    /// `rankings/{milestone}/{user}.json`: last writer wins per file.
    Ranking,
    /// `config.toml`: the fetched copy wins.
    Config,
    /// `events.jsonl`: append-only line union.
    Events,
    /// Anything else (such as the local-only sync state), never synced.
    Skip,
}

/// `p` names a markdown file under directory `dir`.
pub open spec fn under_dir(p: Seq<char>, dir: Seq<char>) -> bool {
    &&& dir.is_prefix_of(p)
    &&& p.len() > dir.len()
    &&& p[dir.len() as int] == '/'
    &&& ".md"@.is_suffix_of(p)
}

pub open spec fn classify_spec(p: Seq<char>) -> Target {
    if under_dir(p, "problems"@) {
        Target::Entity { singular: "problem" }
    } else if under_dir(p, "solutions"@) {
        Target::Entity { singular: "solution" }
    } else if under_dir(p, "critiques"@) {
        Target::Entity { singular: "critique" }
    } else if under_dir(p, "milestones"@) {
        Target::Entity { singular: "milestone" }
    } else if "rankings/"@.is_prefix_of(p) && ".json"@.is_suffix_of(p) {
        Target::Ranking
    } else if p == "config.toml"@ {
        Target::Config
    } else if p == "events.jsonl"@ {
        Target::Events
    } else {
        Target::Skip
    }
}

fn under_dir_exec(p: &Vec<char>, dir: &str) -> (b: bool)
    ensures
        b == under_dir(p@, dir@),
{
    let d = chars_of(dir);
    let md = chars_of(".md");
    starts_with(p, &d) && p.len() > d.len() && p[d.len()] == '/' && ends_with(p, &md)
}

/// The family a changed path belongs to.
pub fn classify(path: &str) -> (t: Target)
    ensures
        t == classify_spec(path@),
{
    let p = chars_of(path);
    if under_dir_exec(&p, "problems") {
        return Target::Entity { singular: "problem" };
    }
    if under_dir_exec(&p, "solutions") {
        return Target::Entity { singular: "solution" };
    }
    if under_dir_exec(&p, "critiques") {
        return Target::Entity { singular: "critique" };
    }
    if under_dir_exec(&p, "milestones") {
        return Target::Entity { singular: "milestone" };
    }
    let rk = chars_of("rankings/");
    let js = chars_of(".json");
    if starts_with(&p, &rk) && ends_with(&p, &js) {
        return Target::Ranking;
    }
    if str_eq(path, "config.toml") {
        return Target::Config;
    }
    if str_eq(path, "events.jsonl") {
        return Target::Events;
    }
    Target::Skip
}

// ───────────────────────── file stems ─────────────────────────

/// The last component of a `/`-separated path.
pub open spec fn file_name(p: Seq<char>) -> Seq<char> {
    p.skip(after_last(p, '/', p.len() as int))
}

/// `Path::file_stem` of a file name: the name without its extension; a name
/// whose only dot is its first character has no extension.
pub open spec fn stem_of(name: Seq<char>) -> Seq<char> {
    let k = after_last(name, '.', name.len() as int);
    if k <= 1 {
        name
    } else {
        name.take(k - 1)
    }
}

/// The entity id a changed entity path stands for (its file stem).
pub fn entity_id_of(path: &str) -> (id: String)
    ensures
        id@ == stem_of(file_name(path@)),
{
    let p = chars_of(path);
    let start = after_last_exec(&p, '/');
    let name = copy_range(&p, start, p.len());
    assert(name@ =~= file_name(p@));
    let k = after_last_exec(&name, '.');
    if k <= 1 {
        string_of(&name)
    } else {
        let stem = copy_range(&name, 0, k - 1);
        assert(stem@ =~= name@.take(k - 1));
        string_of(&stem)
    }
}

// ───────────────────────── entity deltas ─────────────────────────

#[derive(Debug, Clone, Copy, PartialEq, Eq, Structural)]
pub enum DeltaKind {
    Added,
    Modified,
    Deleted,
}

/// One changed file between the merge base and a fetched head. `base` is the
/// content at the common ancestor (absent for an addition), `remote` the
/// content at the head (absent for a deletion).
#[derive(Debug)]
pub struct FileDelta {
    pub path: String,
    pub kind: DeltaKind,
    pub base: Option<String>,
    pub remote: Option<String>,
}

/// What one entity file delta resolves to once the local copy is known.
#[derive(Debug, PartialEq, Eq)]
pub enum EntityAction {
    /// Write this merged content (it differs from the local copy).
    Write(String),
    /// The remote deleted it and the local copy matched the base.
    Delete,
    /// Nothing changes locally.
    Keep,
    /// The remote deleted it but the local copy was edited since the base:
    /// keep it and report the conflict.
    DeleteConflict,
}

/// An [`EntityAction`] with its content as characters.
pub enum Resolution {
    Write(Seq<char>),
    Delete,
    Keep,
    DeleteConflict,
}

impl View for EntityAction {
    type V = Resolution;

    open spec fn view(&self) -> Resolution {
        match self {
            EntityAction::Write(s) => Resolution::Write(s@),
            EntityAction::Delete => Resolution::Delete,
            EntityAction::Keep => Resolution::Keep,
            EntityAction::DeleteConflict => Resolution::DeleteConflict,
        }
    }
}

pub open spec fn or_empty(o: Option<Seq<char>>) -> Seq<char> {
    match o {
        Some(s) => s,
        None => Seq::empty(),
    }
}

pub open spec fn str_opt_view(o: Option<&str>) -> Option<Seq<char>> {
    match o {
        Some(s) => Some(s@),
        None => None,
    }
}

pub open spec fn string_opt_view(o: Option<String>) -> Option<Seq<char>> {
    match o {
        Some(s) => Some(s@),
        None => None,
    }
}

/// How an entity delta resolves: an addition or modification merges with the
/// local copy (or is adopted when there is none) and is written unless the
/// result equals the local copy; a deletion is accepted only when the local
/// copy still equals the base.
pub open spec fn resolve_spec(
    kind: DeltaKind,
    base: Option<Seq<char>>,
    remote: Option<Seq<char>>,
    local: Option<Seq<char>>,
) -> Resolution {
    match kind {
        DeltaKind::Deleted => match local {
            None => Resolution::Keep,
            Some(l) => if l == or_empty(base) {
                Resolution::Delete
            } else {
                Resolution::DeleteConflict
            },
        },
        _ => {
            let merged = match local {
                None => or_empty(remote),
                Some(l) => merge_spec(base, l, or_empty(remote)),
            };
            if local == Some(merged) {
                Resolution::Keep
            } else {
                Resolution::Write(merged)
            }
        },
    }
}

fn as_str_opt(o: &Option<String>) -> (r: Option<&str>)
    ensures
        str_opt_view(r) == string_opt_view(*o),
{
    match o {
        Some(s) => Some(s.as_str()),
        None => None,
    }
}

fn or_empty_string(o: Option<&str>) -> (r: String)
    ensures
        r@ == or_empty(str_opt_view(o)),
{
    match o {
        Some(s) => {
            let v = chars_of(s);
            string_of(&v)
        },
        None => String::new(),
    }
}

/// Resolve one entity delta against the current local content (`None` when
/// there is no local file). It always succeeds.
pub fn resolve_entity_delta(delta: &FileDelta, local: Option<&str>) -> (r: Result<
    EntityAction,
    JjjError,
>)
    ensures
        r matches Ok(a) && a@ == resolve_spec(
            delta.kind,
            string_opt_view(delta.base),
            string_opt_view(delta.remote),
            str_opt_view(local),
        ),
{
    match delta.kind {
        DeltaKind::Deleted => {
            let base = or_empty_string(as_str_opt(&delta.base));
            match local {
                None => Ok(EntityAction::Keep),
                Some(l) => if str_eq(l, base.as_str()) {
                    Ok(EntityAction::Delete)
                } else {
                    Ok(EntityAction::DeleteConflict)
                },
            }
        },
        _ => {
            let remote = or_empty_string(as_str_opt(&delta.remote));
            let merged = match local {
                None => remote,
                Some(l) => merge_entity_md(as_str_opt(&delta.base), l, remote.as_str()),
            };
            let same = match local {
                Some(l) => str_eq(merged.as_str(), l),
                None => false,
            };
            if same {
                Ok(EntityAction::Keep)
            } else {
                Ok(EntityAction::Write(merged))
            }
        },
    }
}

// ───────────────────────── fetch outcome ─────────────────────────

/// What a fetch reports and hands to the cache refresh. `changed` and
/// `deleted` are sets of `(singular, id)`: no pair occurs twice.
#[derive(Debug)]
pub struct FetchOutcome {
    /// Entity files whose merged content still carries conflict markers.
    pub merge_conflicts: Vec<String>,
    /// Entity files deleted remotely but kept because they were edited.
    pub delete_conflicts: Vec<String>,
    /// Entities to refresh in the cache.
    pub changed: Vec<(String, String)>,
    /// Entities to drop from the cache.
    pub deleted: Vec<(String, String)>,
    /// Whether the event log changed.
    pub events_changed: bool,
}

pub struct OutcomeView {
    pub merge_conflicts: Seq<Seq<char>>,
    pub delete_conflicts: Seq<Seq<char>>,
    pub changed: Seq<(Seq<char>, Seq<char>)>,
    pub deleted: Seq<(Seq<char>, Seq<char>)>,
    pub events_changed: bool,
}

impl View for FetchOutcome {
    type V = OutcomeView;

    open spec fn view(&self) -> OutcomeView {
        OutcomeView {
            merge_conflicts: strs(self.merge_conflicts@),
            delete_conflicts: strs(self.delete_conflicts@),
            changed: pairs_view(self.changed@),
            deleted: pairs_view(self.deleted@),
            events_changed: self.events_changed,
        }
    }
}

/// `s` with `x` added, as a set kept in first-insertion order.
pub open spec fn set_insert(s: Seq<(Seq<char>, Seq<char>)>, x: (Seq<char>, Seq<char>)) -> Seq<
    (Seq<char>, Seq<char>),
> {
    if s.contains(x) {
        s
    } else {
        s.push(x)
    }
}

pub open spec fn no_dups<A>(s: Seq<A>) -> bool {
    forall|i: int, j: int| 0 <= i < j < s.len() ==> s[i] != s[j]
}

impl FetchOutcome {
    pub open spec fn wf(&self) -> bool {
        no_dups(self@.changed) && no_dups(self@.deleted)
    }

    /// An outcome with nothing recorded.
    pub fn new() -> (o: FetchOutcome)
        ensures
            o.wf(),
            o@.merge_conflicts.len() == 0,
            o@.delete_conflicts.len() == 0,
            o@.changed.len() == 0,
            o@.deleted.len() == 0,
            !o@.events_changed,
    {
        FetchOutcome {
            merge_conflicts: Vec::new(),
            delete_conflicts: Vec::new(),
            changed: Vec::new(),
            deleted: Vec::new(),
            events_changed: false,
        }
    }
}

fn copy_string(s: &str) -> (r: String)
    ensures
        r@ == s@,
{
    let v = chars_of(s);
    string_of(&v)
}

fn pair_in(v: &Vec<(String, String)>, a: &str, b: &str) -> (r: bool)
    ensures
        r == pairs_view(v@).contains((a@, b@)),
{
    let mut i: usize = 0;
    while i < v.len()
        invariant
            i <= v.len(),
            forall|j: int| 0 <= j < i ==> pairs_view(v@)[j] != (a@, b@),
        decreases v.len() - i,
    {
        assert(pairs_view(v@)[i as int] == (v@[i as int].0@, v@[i as int].1@));
        if str_eq(v[i].0.as_str(), a) && str_eq(v[i].1.as_str(), b) {
            return true;
        }
        i += 1;
    }
    false
}

fn insert_pair(v: &mut Vec<(String, String)>, a: &str, b: &str)
    requires
        no_dups(pairs_view(old(v)@)),
    ensures
        pairs_view(final(v)@) == set_insert(pairs_view(old(v)@), (a@, b@)),
        no_dups(pairs_view(final(v)@)),
{
    if !pair_in(v, a, b) {
        let ghost before = pairs_view(v@);
        v.push((copy_string(a), copy_string(b)));
        assert(pairs_view(v@) =~= before.push((a@, b@)));
    }
}

// ───────────────────────── applying one delta ─────────────────────────

/// What to do with the local file at a delta's path.
#[derive(Debug, PartialEq)]
pub enum FileEffect {
    /// Write this content (creating parent directories as needed).
    Write(String),
    /// Remove the file; a file that is already gone is no error.
    Remove,
    /// Leave the file as it is.
    Nothing,
}

pub enum EffectView {
    Write(Seq<char>),
    Remove,
    Nothing,
}

impl View for FileEffect {
    type V = EffectView;

    open spec fn view(&self) -> EffectView {
        match self {
            FileEffect::Write(s) => EffectView::Write(s@),
            FileEffect::Remove => EffectView::Remove,
            FileEffect::Nothing => EffectView::Nothing,
        }
    }
}

/// The effect of an entity delta on its local file.
pub open spec fn entity_effect(r: Resolution) -> EffectView {
    match r {
        Resolution::Write(m) => EffectView::Write(m),
        Resolution::Delete => EffectView::Remove,
        _ => EffectView::Nothing,
    }
}

/// What an entity delta records: a merge that still carries markers is
/// reported and kept out of the cache; a clean write refreshes the entity; a
/// deletion drops it; a refused deletion is reported.
pub open spec fn entity_record(
    o: OutcomeView,
    path: Seq<char>,
    singular: Seq<char>,
    id: Seq<char>,
    r: Resolution,
) -> OutcomeView {
    match r {
        Resolution::Write(m) => if has_markers(m) {
            OutcomeView { merge_conflicts: o.merge_conflicts.push(path), ..o }
        } else {
            OutcomeView { changed: set_insert(o.changed, (singular, id)), ..o }
        },
        Resolution::Delete => OutcomeView { deleted: set_insert(o.deleted, (singular, id)), ..o },
        Resolution::DeleteConflict => OutcomeView {
            delete_conflicts: o.delete_conflicts.push(path),
            ..o
        },
        Resolution::Keep => o,
    }
}

/// The effect of an event-log delta: the fetched log is unioned into the
/// local one (absent counts as empty) and written when that changes it.
pub open spec fn events_effect(remote: Option<Seq<char>>, local: Option<Seq<char>>) -> EffectView {
    match remote {
        None => EffectView::Nothing,
        Some(r) => {
            let merged = merged_log(or_empty(local), r);
            if merged == or_empty(local) {
                EffectView::Nothing
            } else {
                EffectView::Write(merged)
            }
        },
    }
}

/// The effect of a ranking deletion: honoured only when the local file still
/// equals the base (both absent counts as equal).
pub open spec fn ranking_delete_effect(base: Option<Seq<char>>, local: Option<Seq<char>>) -> EffectView {
    if local == base {
        EffectView::Remove
    } else {
        EffectView::Nothing
    }
}

/// The effect of a delta on the local file at its path and what the fetch
/// records for it, given the local file's content (`None` when absent).
pub open spec fn plan_spec(
    o: OutcomeView,
    path: Seq<char>,
    kind: DeltaKind,
    base: Option<Seq<char>>,
    remote: Option<Seq<char>>,
    local: Option<Seq<char>>,
) -> (EffectView, OutcomeView) {
    match classify_spec(path) {
        Target::Entity { singular } => {
            let r = resolve_spec(kind, base, remote, local);
            (entity_effect(r), entity_record(o, path, singular@, stem_of(file_name(path)), r))
        },
        Target::Ranking => match kind {
            DeltaKind::Deleted => (ranking_delete_effect(base, local), o),
            _ => {
                let m = merge_ranking_spec(local, or_empty(remote));
                (if local == Some(m) { EffectView::Nothing } else { EffectView::Write(m) }, o)
            },
        },
        Target::Config => (
            match remote {
                Some(r) => EffectView::Write(r),
                None => EffectView::Nothing,
            },
            o,
        ),
        Target::Events => {
            let e = events_effect(remote, local);
            (e, if e is Write { OutcomeView { events_changed: true, ..o } } else { o })
        },
        Target::Skip => (EffectView::Nothing, o),
    }
}

fn record_entity(outcome: &mut FetchOutcome, path: &str, singular: &str, id: &str, action: &EntityAction)
    requires
        old(outcome).wf(),
    ensures
        final(outcome).wf(),
        final(outcome)@ == entity_record(old(outcome)@, path@, singular@, id@, action@),
{
    match action {
        EntityAction::Write(m) => {
            if has_conflict_markers(m.as_str()) {
                let ghost before = strs(outcome.merge_conflicts@);
                outcome.merge_conflicts.push(copy_string(path));
                assert(strs(outcome.merge_conflicts@) =~= before.push(path@));
            } else {
                insert_pair(&mut outcome.changed, singular, id);
            }
        },
        EntityAction::Delete => {
            insert_pair(&mut outcome.deleted, singular, id);
        },
        EntityAction::DeleteConflict => {
            let ghost before = strs(outcome.delete_conflicts@);
            outcome.delete_conflicts.push(copy_string(path));
            assert(strs(outcome.delete_conflicts@) =~= before.push(path@));
        },
        EntityAction::Keep => {},
    }
}

/// Decide what one fetched delta does to the working set: the effect on the
/// local file at the delta's path (whose content is `local`, `None` when the
/// file is absent), with what it leaves for the report and the cache refresh
/// recorded in `outcome`.
pub fn plan_file_delta(delta: &FileDelta, local: Option<&str>, outcome: &mut FetchOutcome) -> (e:
    FileEffect)
    requires
        old(outcome).wf(),
    ensures
        final(outcome).wf(),
        (e@, final(outcome)@) == plan_spec(
            old(outcome)@,
            delta.path@,
            delta.kind,
            string_opt_view(delta.base),
            string_opt_view(delta.remote),
            str_opt_view(local),
        ),
{
    match classify(delta.path.as_str()) {
        Target::Entity { singular } => {
            let id = entity_id_of(delta.path.as_str());
            match resolve_entity_delta(delta, local) {
                Ok(action) => {
                    record_entity(outcome, delta.path.as_str(), singular, id.as_str(), &action);
                    match action {
                        EntityAction::Write(m) => FileEffect::Write(m),
                        EntityAction::Delete => FileEffect::Remove,
                        _ => FileEffect::Nothing,
                    }
                },
                Err(_) => FileEffect::Nothing,
            }
        },
        Target::Ranking => match delta.kind {
            DeltaKind::Deleted => {
                let same = match (local, as_str_opt(&delta.base)) {
                    (Some(l), Some(b)) => str_eq(l, b),
                    (None, None) => true,
                    _ => false,
                };
                if same {
                    FileEffect::Remove
                } else {
                    FileEffect::Nothing
                }
            },
            _ => {
                let remote = or_empty_string(as_str_opt(&delta.remote));
                let merged = merge_ranking_json(local, remote.as_str());
                let same = match local {
                    Some(l) => str_eq(l, merged.as_str()),
                    None => false,
                };
                if same {
                    FileEffect::Nothing
                } else {
                    FileEffect::Write(merged)
                }
            },
        },
        Target::Config => match &delta.remote {
            Some(r) => FileEffect::Write(copy_string(r.as_str())),
            None => FileEffect::Nothing,
        },
        Target::Events => match &delta.remote {
            Some(r) => {
                let l = or_empty_string(local);
                let merged = merge_events_jsonl(l.as_str(), r.as_str());
                if str_eq(merged.as_str(), l.as_str()) {
                    FileEffect::Nothing
                } else {
                    outcome.events_changed = true;
                    FileEffect::Write(merged)
                }
            },
            None => FileEffect::Nothing,
        },
        Target::Skip => FileEffect::Nothing,
    }
}

// ───────────────────────── laws ─────────────────────────

/// A fetched change that leaves the file as it was at the common ancestor
/// never disturbs the local copy, whatever was edited locally.
pub proof fn law_unchanged_remote_keeps_local(base: Seq<char>, local: Seq<char>)
    ensures
        resolve_spec(DeltaKind::Modified, Some(base), Some(base), Some(local)) == Resolution::Keep,
{
}

/// A local file is only ever deleted by a fetch when it still equals the
/// common ancestor; a local edit turns the deletion into a reported conflict,
/// and a file already gone stays gone.
pub proof fn law_delete_only_untouched(base: Option<Seq<char>>, local: Option<Seq<char>>)
    ensures
        resolve_spec(DeltaKind::Deleted, base, None, local) == Resolution::Delete <==> (local
            is Some && local == Some(or_empty(base))),
        local is None ==> resolve_spec(DeltaKind::Deleted, base, None, local) == Resolution::Keep,
{
}

/// A file that is new locally and remotely, with no local copy, is adopted
/// exactly as fetched.
pub proof fn law_addition_adopted(remote: Seq<char>)
    ensures
        resolve_spec(DeltaKind::Added, None, Some(remote), None) == Resolution::Write(remote),
{
}

/// Whatever the delta, a fetch writes an entity file only with content that
/// differs from the local copy.
pub proof fn law_writes_only_changes(
    kind: DeltaKind,
    base: Option<Seq<char>>,
    remote: Option<Seq<char>>,
    local: Option<Seq<char>>,
)
    ensures
        resolve_spec(kind, base, remote, local) matches Resolution::Write(m) ==> local != Some(m),
{
}

// ───────────────────────── reporting ─────────────────────────

impl FetchOutcome {
    /// How many refreshed entities are of type `singular`.
    pub fn changed_count(&self, singular: &str) -> (n: usize)
        ensures
            n == self@.changed.filter(|p: (Seq<char>, Seq<char>)| p.0 == singular@).len(),
    {
        let ghost cv = self@.changed;
        let ghost pred = |p: (Seq<char>, Seq<char>)| p.0 == singular@;
        let mut n: usize = 0;
        let mut i: usize = 0;
        while i < self.changed.len()
            invariant
                i <= self.changed.len(),
                cv == self@.changed,
                pred == (|p: (Seq<char>, Seq<char>)| p.0 == singular@),
                n == cv.take(i as int).filter(pred).len(),
                n <= i,
            decreases self.changed.len() - i,
        {
            proof {
                reveal(Seq::filter);
                assert(cv.take(i + 1).drop_last() =~= cv.take(i as int));
                assert(cv[i as int] == (self.changed@[i as int].0@, self.changed@[i as int].1@));
            }
            if str_eq(self.changed[i].0.as_str(), singular) {
                n += 1;
            }
            i += 1;
        }
        assert(cv.take(i as int) =~= cv);
        n
    }

    /// A fetch that was not a cold start and refreshed or dropped nothing
    /// brought no new changes.
    pub fn nothing_new(&self, cold_start: bool) -> (b: bool)
        ensures
            b == (!cold_start && self@.changed.len() == 0 && self@.deleted.len() == 0),
    {
        !cold_start && self.changed.len() == 0 && self.deleted.len() == 0
    }
}

} // verus!
