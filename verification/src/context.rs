//! The state every command works against, and reference resolution over it.

use vstd::prelude::*;
use crate::models::{Critique, Milestone, Problem, Solution};
use crate::resolve::{entries_view, resolve, resolve_spec, ResolveResult, ResolveView};
use crate::store::{JjjError, MetadataStore};
use crate::text::{copy_str, chars_of, string_of};

verus! {

/// Shared context for command execution.
#[derive(Debug)]
pub struct CommandContext {
    pub store: MetadataStore,
}

pub open spec fn problem_entries(ps: Seq<Problem>) -> Seq<(Seq<char>, Seq<char>)> {
    ps.map_values(|p: Problem| (p.id@, p.title@))
}

pub open spec fn solution_entries(ss: Seq<Solution>) -> Seq<(Seq<char>, Seq<char>)> {
    ss.map_values(|s: Solution| (s.id@, s.title@))
}

pub open spec fn critique_entries(cs: Seq<Critique>) -> Seq<(Seq<char>, Seq<char>)> {
    cs.map_values(|c: Critique| (c.id@, c.title@))
}

pub open spec fn milestone_entries(ms: Seq<Milestone>) -> Seq<(Seq<char>, Seq<char>)> {
    ms.map_values(|m: Milestone| (m.id@, m.title@))
}

fn lookup(input: &str, es: &Vec<(String, String)>) -> (r: Option<ResolveResult>)
    ensures
        match r {
            Some(x) => x@ == resolve_spec(input@, entries_view(es@)) && !(x@ is NoMatch),
            None => resolve_spec(input@, entries_view(es@)) is NoMatch,
        },
{
    let x = resolve(input, es);
    match x {
        ResolveResult::NoMatch => None,
        _ => Some(x),
    }
}

impl CommandContext {
    pub fn new(store: MetadataStore) -> (c: Self)
        ensures
            c.store == store,
    {
        CommandContext { store }
    }

    /// Resolve a problem reference: a full id, a short id prefix, or part of
    /// its title.
    pub fn resolve_problem(&self, input: &str) -> (r: Result<ResolveResult, JjjError>)
        ensures
            match r {
                Ok(x) => x@ == resolve_spec(input@, problem_entries(self.store.problems@))
                    && !(x@ is NoMatch),
                Err(e) => resolve_spec(input@, problem_entries(self.store.problems@)) is NoMatch
                    && (e matches JjjError::ProblemNotFound(s) && s@ == input@),
            },
    {
        let ps = &self.store.problems;
        let mut es: Vec<(String, String)> = Vec::new();
        let mut i: usize = 0;
        while i < ps.len()
            invariant
                i <= ps.len(),
                entries_view(es@) == problem_entries(ps@).take(i as int),
            decreases ps.len() - i,
        {
            let ghost before = entries_view(es@);
            es.push((copy_str(ps[i].id.as_str()), copy_str(ps[i].title.as_str())));
            assert(entries_view(es@) =~= before.push((ps@[i as int].id@, ps@[i as int].title@)));
            assert(entries_view(es@) =~= problem_entries(ps@).take(i + 1));
            i += 1;
        }
        assert(problem_entries(ps@).take(i as int) =~= problem_entries(ps@));
        match lookup(input, &es) {
            Some(x) => Ok(x),
            None => Err(JjjError::ProblemNotFound(copy_str(input))),
        }
    }

    /// Resolve a solution reference: a full id, a short id prefix, or part of
    /// its title.
    pub fn resolve_solution(&self, input: &str) -> (r: Result<ResolveResult, JjjError>)
        ensures
            match r {
                Ok(x) => x@ == resolve_spec(input@, solution_entries(self.store.solutions@))
                    && !(x@ is NoMatch),
                Err(e) => resolve_spec(input@, solution_entries(self.store.solutions@)) is NoMatch
                    && (e matches JjjError::SolutionNotFound(s) && s@ == input@),
            },
    {
        let ss = &self.store.solutions;
        let mut es: Vec<(String, String)> = Vec::new();
        let mut i: usize = 0;
        while i < ss.len()
            invariant
                i <= ss.len(),
                entries_view(es@) == solution_entries(ss@).take(i as int),
            decreases ss.len() - i,
        {
            let ghost before = entries_view(es@);
            es.push((copy_str(ss[i].id.as_str()), copy_str(ss[i].title.as_str())));
            assert(entries_view(es@) =~= before.push((ss@[i as int].id@, ss@[i as int].title@)));
            assert(entries_view(es@) =~= solution_entries(ss@).take(i + 1));
            i += 1;
        }
        assert(solution_entries(ss@).take(i as int) =~= solution_entries(ss@));
        match lookup(input, &es) {
            Some(x) => Ok(x),
            None => Err(JjjError::SolutionNotFound(copy_str(input))),
        }
    }

    /// Resolve a critique reference: a full id, a short id prefix, or part of
    /// its title.
    pub fn resolve_critique(&self, input: &str) -> (r: Result<ResolveResult, JjjError>)
        ensures
            match r {
                Ok(x) => x@ == resolve_spec(input@, critique_entries(self.store.critiques@))
                    && !(x@ is NoMatch),
                Err(e) => resolve_spec(input@, critique_entries(self.store.critiques@)) is NoMatch
                    && (e matches JjjError::CritiqueNotFound(s) && s@ == input@),
            },
    {
        let cs = &self.store.critiques;
        let mut es: Vec<(String, String)> = Vec::new();
        let mut i: usize = 0;
        while i < cs.len()
            invariant
                i <= cs.len(),
                entries_view(es@) == critique_entries(cs@).take(i as int),
            decreases cs.len() - i,
        {
            let ghost before = entries_view(es@);
            es.push((copy_str(cs[i].id.as_str()), copy_str(cs[i].title.as_str())));
            assert(entries_view(es@) =~= before.push((cs@[i as int].id@, cs@[i as int].title@)));
            assert(entries_view(es@) =~= critique_entries(cs@).take(i + 1));
            i += 1;
        }
        assert(critique_entries(cs@).take(i as int) =~= critique_entries(cs@));
        match lookup(input, &es) {
            Some(x) => Ok(x),
            None => Err(JjjError::CritiqueNotFound(copy_str(input))),
        }
    }

    /// Resolve a milestone reference: a full id, a short id prefix, or part
    /// of its title.
    pub fn resolve_milestone(&self, input: &str) -> (r: Result<ResolveResult, JjjError>)
        ensures
            match r {
                Ok(x) => x@ == resolve_spec(input@, milestone_entries(self.store.milestones@))
                    && !(x@ is NoMatch),
                Err(e) => resolve_spec(input@, milestone_entries(self.store.milestones@))
                    is NoMatch && (e matches JjjError::MilestoneNotFound(s) && s@ == input@),
            },
    {
        let ms = &self.store.milestones;
        let mut es: Vec<(String, String)> = Vec::new();
        let mut i: usize = 0;
        while i < ms.len()
            invariant
                i <= ms.len(),
                entries_view(es@) == milestone_entries(ms@).take(i as int),
            decreases ms.len() - i,
        {
            let ghost before = entries_view(es@);
            es.push((copy_str(ms[i].id.as_str()), copy_str(ms[i].title.as_str())));
            assert(entries_view(es@) =~= before.push((ms@[i as int].id@, ms@[i as int].title@)));
            assert(entries_view(es@) =~= milestone_entries(ms@).take(i + 1));
            i += 1;
        }
        assert(milestone_entries(ms@).take(i as int) =~= milestone_entries(ms@));
        match lookup(input, &es) {
            Some(x) => Ok(x),
            None => Err(JjjError::MilestoneNotFound(copy_str(input))),
        }
    }
}

} // verus!
