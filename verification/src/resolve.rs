//! Turning what a user typed (a full id, a short id prefix, or part of a
//! title) into an entity id.

use vstd::prelude::*;
use crate::display::{normalized, remove_dashes};
use crate::text::{copy_str, chars_of, contains, has_sub, starts_with, str_eq, string_of, to_lowercase, unicode_lowercase};

verus! {

/// The outcome of looking up a reference among `(id, title)` pairs.
#[derive(Debug, PartialEq)]
pub enum ResolveResult {
    /// Exactly one entity fits.
    Single(String),
    /// Several entities fit, as `(id, title)` pairs in list order.
    Multiple(Vec<(String, String)>),
    /// Nothing fits.
    NoMatch,
}

pub enum ResolveView {
    Single(Seq<char>),
    Multiple(Seq<(Seq<char>, Seq<char>)>),
    NoMatch,
}

pub open spec fn entries_view(v: Seq<(String, String)>) -> Seq<(Seq<char>, Seq<char>)> {
    v.map_values(|p: (String, String)| (p.0@, p.1@))
}

impl View for ResolveResult {
    type V = ResolveView;

    open spec fn view(&self) -> ResolveView {
        match self {
            ResolveResult::Single(s) => ResolveView::Single(s@),
            ResolveResult::Multiple(v) => ResolveView::Multiple(entries_view(v@)),
            ResolveResult::NoMatch => ResolveView::NoMatch,
        }
    }
}

/// Entries whose id is exactly `input`.
pub open spec fn exact_matches(input: Seq<char>, es: Seq<(Seq<char>, Seq<char>)>) -> Seq<
    (Seq<char>, Seq<char>),
> {
    es.filter(|e: (Seq<char>, Seq<char>)| e.0 == input)
}

/// Entries whose normalized id starts with the normalized `input`.
pub open spec fn prefix_matches(input: Seq<char>, es: Seq<(Seq<char>, Seq<char>)>) -> Seq<
    (Seq<char>, Seq<char>),
> {
    es.filter(|e: (Seq<char>, Seq<char>)| normalized(input).is_prefix_of(normalized(e.0)))
}

/// Entries whose lower-cased title contains the lower-cased `input`.
pub open spec fn title_matches(input: Seq<char>, es: Seq<(Seq<char>, Seq<char>)>) -> Seq<
    (Seq<char>, Seq<char>),
> {
    es.filter(|e: (Seq<char>, Seq<char>)| has_sub(unicode_lowercase(e.1), unicode_lowercase(input)))
}

pub open spec fn by_count(ms: Seq<(Seq<char>, Seq<char>)>) -> ResolveView {
    if ms.len() == 1 {
        ResolveView::Single(ms[0].0)
    } else {
        ResolveView::Multiple(ms)
    }
}

/// A full id wins outright; otherwise a short id prefix is tried, then a
/// piece of the title; each of the last two settles on one entity when only
/// one fits and offers all that fit when several do.
pub open spec fn resolve_spec(input: Seq<char>, es: Seq<(Seq<char>, Seq<char>)>) -> ResolveView {
    let exact = exact_matches(input, es);
    let pre = prefix_matches(input, es);
    let tit = title_matches(input, es);
    if exact.len() > 0 {
        ResolveView::Single(exact[0].0)
    } else if normalized(input).len() > 0 && pre.len() > 0 {
        by_count(pre)
    } else if unicode_lowercase(input).len() > 0 && tit.len() > 0 {
        by_count(tit)
    } else {
        ResolveView::NoMatch
    }
}

fn lowered(s: &str) -> (r: Vec<char>)
    ensures
        r@ == unicode_lowercase(s@),
{
    let l = to_lowercase(s);
    chars_of(l.as_str())
}

fn normalized_chars(s: &str) -> (r: Vec<char>)
    ensures
        r@ == normalized(s@),
{
    let d = remove_dashes(s);
    let ds = string_of(&d);
    lowered(ds.as_str())
}

/// The entries satisfying one of the three tests (0: exact id, 1: id prefix,
/// 2: title piece), in list order.
fn collect(input: &str, entities: &Vec<(String, String)>, test: u8) -> (out: Vec<(String, String)>)
    requires
        test < 3,
    ensures
        entries_view(out@) == (if test == 0 {
            exact_matches(input@, entries_view(entities@))
        } else if test == 1 {
            prefix_matches(input@, entries_view(entities@))
        } else {
            title_matches(input@, entries_view(entities@))
        }),
{
    let ghost es = entries_view(entities@);
    let ghost pred = if test == 0 {
        |e: (Seq<char>, Seq<char>)| e.0 == input@
    } else if test == 1 {
        |e: (Seq<char>, Seq<char>)| normalized(input@).is_prefix_of(normalized(e.0))
    } else {
        |e: (Seq<char>, Seq<char>)| has_sub(unicode_lowercase(e.1), unicode_lowercase(input@))
    };
    let q = normalized_chars(input);
    let t = lowered(input);
    let mut out: Vec<(String, String)> = Vec::new();
    let mut i: usize = 0;
    while i < entities.len()
        invariant
            i <= entities.len(),
            es == entries_view(entities@),
            test < 3,
            q@ == normalized(input@),
            t@ == unicode_lowercase(input@),
            pred == (if test == 0 {
                |e: (Seq<char>, Seq<char>)| e.0 == input@
            } else if test == 1 {
                |e: (Seq<char>, Seq<char>)| normalized(input@).is_prefix_of(normalized(e.0))
            } else {
                |e: (Seq<char>, Seq<char>)| has_sub(unicode_lowercase(e.1), unicode_lowercase(input@))
            }),
            entries_view(out@) == es.take(i as int).filter(pred),
        decreases entities.len() - i,
    {
        proof {
            reveal(Seq::filter);
            assert(es.take(i + 1).drop_last() =~= es.take(i as int));
            assert(es[i as int] == (entities@[i as int].0@, entities@[i as int].1@));
        }
        let id = entities[i].0.as_str();
        let title = entities[i].1.as_str();
        let keep = if test == 0 {
            str_eq(id, input)
        } else if test == 1 {
            let n = normalized_chars(id);
            starts_with(&n, &q)
        } else {
            let lt = lowered(title);
            contains(&lt, &t)
        };
        if keep {
            let ghost before = entries_view(out@);
            out.push((copy_str(id), copy_str(title)));
            assert(entries_view(out@) =~= before.push(es[i as int]));
        }
        i += 1;
    }
    proof {
        assert(es.take(i as int) =~= es);
        if test == 0 {
            assert(exact_matches(input@, es) == es.filter(pred));
        } else if test == 1 {
            assert(prefix_matches(input@, es) == es.filter(pred));
        } else {
            assert(title_matches(input@, es) == es.filter(pred));
        }
    }
    out
}

fn settle(mut ms: Vec<(String, String)>) -> (r: ResolveResult)
    ensures
        r@ == by_count(entries_view(ms@)),
{
    if ms.len() == 1 {
        let e = ms.pop().unwrap();
        ResolveResult::Single(e.0)
    } else {
        ResolveResult::Multiple(ms)
    }
}

/// Look `input` up among `(id, title)` pairs (see `resolve_spec`).
pub fn resolve(input: &str, entities: &Vec<(String, String)>) -> (r: ResolveResult)
    ensures
        r@ == resolve_spec(input@, entries_view(entities@)),
{
    let exact = collect(input, entities, 0);
    if exact.len() > 0 {
        assert(entries_view(exact@)[0] == (exact@[0].0@, exact@[0].1@));
        return ResolveResult::Single(copy_str(exact[0].0.as_str()));
    }
    let q = normalized_chars(input);
    if q.len() > 0 {
        let pre = collect(input, entities, 1);
        if pre.len() > 0 {
            proof {
                if pre@.len() == 1 {
                    assert(entries_view(pre@)[0] == (pre@[0].0@, pre@[0].1@));
                }
            }
            return settle(pre);
        }
    }
    let t = lowered(input);
    if t.len() > 0 {
        let tit = collect(input, entities, 2);
        if tit.len() > 0 {
            return settle(tit);
        }
    }
    ResolveResult::NoMatch
}

} // verus!
