//! Entities, their statuses and the lifecycle rules each status obeys.

use vstd::prelude::*;
use crate::text::{copy_str, chars_of, string_of, str_eq};

verus! {

// ───────────────────────── events ─────────────────────────

/// Every kind of event recorded in the decision log.
#[derive(Debug, Clone, Copy, PartialEq, Eq, Structural)]
pub enum EventType {
    ProblemCreated,
    ProblemSolved,
    ProblemDissolved,
    ProblemReopened,
    SolutionCreated,
    SolutionSubmitted,
    SolutionApproved,
    SolutionWithdrawn,
    CritiqueRaised,
    CritiqueAddressed,
    CritiqueDismissed,
    CritiqueValidated,
    CritiqueReplied,
    MilestoneCreated,
    MilestoneCompleted,
    GithubIssueCreated,
    GithubIssueImported,
    GithubIssueClosed,
    GithubPrCreated,
    GithubPrMerged,
    GithubReviewImported,
    ConflictResolved,
}

/// The snake_case name an event type is stored and displayed under.
pub open spec fn event_type_label(t: EventType) -> Seq<char> {
    match t {
        EventType::ProblemCreated => "problem_created"@,
        EventType::ProblemSolved => "problem_solved"@,
        EventType::ProblemDissolved => "problem_dissolved"@,
        EventType::ProblemReopened => "problem_reopened"@,
        EventType::SolutionCreated => "solution_created"@,
        EventType::SolutionSubmitted => "solution_submitted"@,
        EventType::SolutionApproved => "solution_approved"@,
        EventType::SolutionWithdrawn => "solution_withdrawn"@,
        EventType::CritiqueRaised => "critique_raised"@,
        EventType::CritiqueAddressed => "critique_addressed"@,
        EventType::CritiqueDismissed => "critique_dismissed"@,
        EventType::CritiqueValidated => "critique_validated"@,
        EventType::CritiqueReplied => "critique_replied"@,
        EventType::MilestoneCreated => "milestone_created"@,
        EventType::MilestoneCompleted => "milestone_completed"@,
        EventType::GithubIssueCreated => "github_issue_created"@,
        EventType::GithubIssueImported => "github_issue_imported"@,
        EventType::GithubIssueClosed => "github_issue_closed"@,
        EventType::GithubPrCreated => "github_pr_created"@,
        EventType::GithubPrMerged => "github_pr_merged"@,
        EventType::GithubReviewImported => "github_review_imported"@,
        EventType::ConflictResolved => "conflict_resolved"@,
    }
}

impl EventType {
    /// The stored name of this event type.
    pub fn label(&self) -> (r: String)
        ensures
            r@ == event_type_label(*self),
    {
        let s: &str = match self {
            EventType::ProblemCreated => "problem_created",
            EventType::ProblemSolved => "problem_solved",
            EventType::ProblemDissolved => "problem_dissolved",
            EventType::ProblemReopened => "problem_reopened",
            EventType::SolutionCreated => "solution_created",
            EventType::SolutionSubmitted => "solution_submitted",
            EventType::SolutionApproved => "solution_approved",
            EventType::SolutionWithdrawn => "solution_withdrawn",
            EventType::CritiqueRaised => "critique_raised",
            EventType::CritiqueAddressed => "critique_addressed",
            EventType::CritiqueDismissed => "critique_dismissed",
            EventType::CritiqueValidated => "critique_validated",
            EventType::CritiqueReplied => "critique_replied",
            EventType::MilestoneCreated => "milestone_created",
            EventType::MilestoneCompleted => "milestone_completed",
            EventType::GithubIssueCreated => "github_issue_created",
            EventType::GithubIssueImported => "github_issue_imported",
            EventType::GithubIssueClosed => "github_issue_closed",
            EventType::GithubPrCreated => "github_pr_created",
            EventType::GithubPrMerged => "github_pr_merged",
            EventType::GithubReviewImported => "github_review_imported",
            EventType::ConflictResolved => "conflict_resolved",
        };
        let v = chars_of(s);
        string_of(&v)
    }
}

/// Optional details an event carries.
#[derive(Debug)]
pub struct EventExtra {
    /// The problem a solution event concerns.
    pub problem: Option<String>,
    /// The solution a new solution supersedes.
    pub supersedes: Option<String>,
    /// The title of a raised critique.
    pub title: Option<String>,
    /// The GitHub issue or pull-request number involved.
    pub github_number: Option<u64>,
    /// The entity an imported item attaches to (the solution a GitHub review
    /// was imported for).
    pub target: Option<String>,
    /// The severity of a raised critique.
    pub severity: Option<Severity>,
}

impl EventExtra {
    pub fn empty() -> (r: EventExtra)
        ensures
            r.problem is None,
            r.supersedes is None,
            r.title is None,
            r.github_number is None,
            r.target is None,
            r.severity is None,
    {
        EventExtra { problem: None, supersedes: None, title: None, github_number: None, target: None, severity: None }
    }
}

/// One entry of the decision log.
#[derive(Debug)]
pub struct Event {
    /// Seconds since the Unix epoch.
    pub when: i64,
    pub event_type: EventType,
    /// The entity the event is about.
    pub entity: String,
    /// The actor who caused it.
    pub by: String,
    pub rationale: Option<String>,
    /// Other entities the event refers to.
    pub refs: Vec<String>,
    pub extra: EventExtra,
}

/// An event of type `t` about `entity` by `by`, with nothing else set.
pub open spec fn plain_event(e: Event, t: EventType, entity: Seq<char>, by: Seq<char>, when: i64) -> bool {
    &&& e.event_type == t
    &&& e.entity@ == entity
    &&& e.by@ == by
    &&& e.when == when
    &&& e.refs@.len() == 0
    &&& e.extra.problem is None
    &&& e.extra.supersedes is None
    &&& e.extra.title is None
    &&& e.extra.github_number is None
    &&& e.extra.target is None
    &&& e.extra.severity is None
}

pub open spec fn opt_view(o: Option<String>) -> Option<Seq<char>> {
    match o {
        Some(s) => Some(s@),
        None => None,
    }
}

pub fn opt_str_to_string(o: Option<&str>) -> (r: Option<String>)
    ensures
        opt_view(r) == (match o {
            Some(s) => Some(s@),
            None => None::<Seq<char>>,
        }),
{
    match o {
        Some(s) => {
            let v = chars_of(s);
            Some(string_of(&v))
        },
        None => None,
    }
}

impl Event {
    /// A new event with no rationale, references or extras.
    pub fn new(event_type: EventType, entity: &str, by: &str, when: i64) -> (e: Event)
        ensures
            plain_event(e, event_type, entity@, by@, when),
            e.rationale is None,
    {
        let ev = chars_of(entity);
        let bv = chars_of(by);
        Event {
            when,
            event_type,
            entity: string_of(&ev),
            by: string_of(&bv),
            rationale: None,
            refs: Vec::new(),
            extra: EventExtra::empty(),
        }
    }
}

// ───────────────────────── statuses ─────────────────────────

#[derive(Debug, Clone, Copy, PartialEq, Eq, Structural)]
pub enum ProblemStatus {
    Open,
    InProgress,
    Solved,
    Dissolved,
}

#[derive(Debug, Clone, Copy, PartialEq, Eq, Structural)]
pub enum SolutionStatus {
    Proposed,
    Submitted,
    Approved,
    Withdrawn,
}

#[derive(Debug, Clone, Copy, PartialEq, Eq, Structural)]
pub enum CritiqueStatus {
    Open,
    Addressed,
    Valid,
    Dismissed,
}

#[derive(Debug, Clone, Copy, PartialEq, Eq, Structural)]
pub enum MilestoneStatus {
    Planning,
    Active,
    Completed,
    Cancelled,
}

#[derive(Debug, Clone, Copy, PartialEq, Eq, Structural)]
pub enum Priority {
    Low,
    Medium,
    High,
    Critical,
}

#[derive(Debug, Clone, Copy, PartialEq, Eq, Structural)]
pub enum Severity {
    Low,
    Medium,
    High,
    Critical,
}

/// The problem state machine: the statuses a problem may move to from `from`.
pub open spec fn problem_transition_ok(from: ProblemStatus, to: ProblemStatus) -> bool {
    match from {
        ProblemStatus::Open => to == ProblemStatus::InProgress || to == ProblemStatus::Solved || to
            == ProblemStatus::Dissolved,
        ProblemStatus::InProgress => to == ProblemStatus::Open || to == ProblemStatus::Solved || to
            == ProblemStatus::Dissolved,
        ProblemStatus::Solved => to == ProblemStatus::Open,
        ProblemStatus::Dissolved => to == ProblemStatus::Open,
    }
}

pub fn problem_transition_allowed(from: ProblemStatus, to: ProblemStatus) -> (b: bool)
    ensures
        b == problem_transition_ok(from, to),
{
    match from {
        ProblemStatus::Open => to == ProblemStatus::InProgress || to == ProblemStatus::Solved || to
            == ProblemStatus::Dissolved,
        ProblemStatus::InProgress => to == ProblemStatus::Open || to == ProblemStatus::Solved || to
            == ProblemStatus::Dissolved,
        ProblemStatus::Solved => to == ProblemStatus::Open,
        ProblemStatus::Dissolved => to == ProblemStatus::Open,
    }
}

/// A problem still in play (open or being worked on).
pub open spec fn problem_is_open(s: ProblemStatus) -> bool {
    s == ProblemStatus::Open || s == ProblemStatus::InProgress
}

/// A solution still in play (neither approved nor withdrawn).
pub open spec fn solution_is_active(s: SolutionStatus) -> bool {
    s == SolutionStatus::Proposed || s == SolutionStatus::Submitted
}

/// A critique that still blocks approval.
pub open spec fn critique_blocks(s: CritiqueStatus) -> bool {
    s == CritiqueStatus::Open || s == CritiqueStatus::Valid
}

/// Where `submit` takes a solution, if it may be submitted at all.
pub open spec fn submit_target(s: SolutionStatus) -> Option<SolutionStatus> {
    if s == SolutionStatus::Proposed {
        Some(SolutionStatus::Submitted)
    } else {
        None
    }
}

/// Where `approve` takes a solution. A force-approved solution may skip
/// review; a withdrawn one can never be approved.
pub open spec fn approve_target(s: SolutionStatus, forced: bool) -> Option<SolutionStatus> {
    if s == SolutionStatus::Submitted || (forced && s == SolutionStatus::Proposed) {
        Some(SolutionStatus::Approved)
    } else {
        None
    }
}

/// Where `withdraw` takes a solution: only one still in play can be withdrawn.
pub open spec fn withdraw_target(s: SolutionStatus) -> Option<SolutionStatus> {
    if solution_is_active(s) {
        Some(SolutionStatus::Withdrawn)
    } else {
        None
    }
}

/// Which critique operation is being applied.
#[derive(Debug, Clone, Copy, PartialEq, Eq, Structural)]
pub enum CritiqueOp {
    Address,
    Validate,
    Dismiss,
}

/// Where a critique operation takes a critique: addressing or dismissing works
/// on an open or validated critique; validating only on an open one.
pub open spec fn critique_target(s: CritiqueStatus, op: CritiqueOp) -> Option<CritiqueStatus> {
    match op {
        CritiqueOp::Address => if critique_blocks(s) {
            Some(CritiqueStatus::Addressed)
        } else {
            None
        },
        CritiqueOp::Validate => if s == CritiqueStatus::Open {
            Some(CritiqueStatus::Valid)
        } else {
            None
        },
        CritiqueOp::Dismiss => if critique_blocks(s) {
            Some(CritiqueStatus::Dismissed)
        } else {
            None
        },
    }
}

pub fn critique_next(s: CritiqueStatus, op: CritiqueOp) -> (r: Option<CritiqueStatus>)
    ensures
        r == critique_target(s, op),
{
    let blocks = s == CritiqueStatus::Open || s == CritiqueStatus::Valid;
    match op {
        CritiqueOp::Address => if blocks {
            Some(CritiqueStatus::Addressed)
        } else {
            None
        },
        CritiqueOp::Validate => if s == CritiqueStatus::Open {
            Some(CritiqueStatus::Valid)
        } else {
            None
        },
        CritiqueOp::Dismiss => if blocks {
            Some(CritiqueStatus::Dismissed)
        } else {
            None
        },
    }
}

// ───────────────────────── entities ─────────────────────────

#[derive(Debug)]
pub struct Problem {
    pub id: String,
    pub title: String,
    pub description: String,
    pub status: ProblemStatus,
    pub priority: Priority,
    pub parent_id: Option<String>,
    pub milestone_id: Option<String>,
    pub assignee: Option<String>,
    /// When the assignee claimed it (seconds since the epoch); `None` for a
    /// deliberate assignment.
    pub claimed_at: Option<i64>,
    pub github_issue: Option<u64>,
    /// Why the problem was dissolved, when it was.
    pub dissolved_reason: Option<String>,
    pub tags: Vec<String>,
    /// The solutions proposed for it, in the order they were proposed.
    pub solution_ids: Vec<String>,
    /// When it was created (seconds since the epoch).
    pub created_at: i64,
}

#[derive(Debug)]
pub struct Solution {
    pub id: String,
    pub title: String,
    pub problem_id: String,
    pub status: SolutionStatus,
    pub supersedes: Option<String>,
    pub assignee: Option<String>,
    pub force_approved: bool,
    pub github_pr: Option<u64>,
    /// When the assignee claimed it (seconds since the epoch).
    pub claimed_at: Option<i64>,
    pub change_ids: Vec<String>,
    /// Critiques raised against this solution.
    pub critique_ids: Vec<String>,
    /// When it was created (seconds since the epoch).
    pub created_at: i64,
}

#[derive(Debug)]
pub struct Critique {
    pub id: String,
    pub title: String,
    pub solution_id: String,
    pub status: CritiqueStatus,
    pub severity: Severity,
    /// Who raised it, when known.
    pub author: Option<String>,
    /// Who was asked to review, when someone was.
    pub reviewer: Option<String>,
    /// The file and line it points at, when it points at code.
    pub file_path: Option<String>,
    pub line_start: Option<usize>,
    /// The lines around that place, as they read when it was raised.
    pub code_context: Vec<String>,
    /// The GitHub review or inline comment it was imported from, if any.
    pub github_review_id: Option<u64>,
    /// The discussion under the critique, oldest first.
    pub replies: Vec<Reply>,
}

/// One reply in a critique's discussion.
#[derive(Debug)]
pub struct Reply {
    pub author: String,
    pub body: String,
    /// Seconds since the Unix epoch.
    pub when: i64,
}

#[derive(Debug)]
pub struct Milestone {
    pub id: String,
    pub title: String,
    pub status: MilestoneStatus,
    pub problem_ids: Vec<String>,
    /// When it is due (seconds since the epoch), if a date was set.
    pub target_date: Option<i64>,
}

impl Problem {
    /// A new open problem of medium priority with nothing else set.
    pub fn new(id: &str, title: &str) -> (p: Problem)
        ensures
            p.id@ == id@,
            p.title@ == title@,
            p.description@.len() == 0,
            p.status == ProblemStatus::Open,
            p.priority == Priority::Medium,
            p.parent_id is None,
            p.milestone_id is None,
            p.assignee is None,
            p.claimed_at is None,
            p.github_issue is None,
            p.dissolved_reason is None,
            p.tags@.len() == 0,
            p.solution_ids@.len() == 0,
            p.created_at == 0,
    {
        Problem {
            id: copy_str(id),
            title: copy_str(title),
            description: String::new(),
            status: ProblemStatus::Open,
            priority: Priority::Medium,
            parent_id: None,
            milestone_id: None,
            assignee: None,
            claimed_at: None,
            github_issue: None,
            dissolved_reason: None,
            tags: Vec::new(),
            solution_ids: Vec::new(),
            created_at: 0,
        }
    }
}

impl Solution {
    /// A new proposed solution of problem `problem_id` with nothing else set.
    pub fn new(id: &str, title: &str, problem_id: &str) -> (s: Solution)
        ensures
            s.id@ == id@,
            s.title@ == title@,
            s.problem_id@ == problem_id@,
            s.status == SolutionStatus::Proposed,
            s.supersedes is None,
            s.assignee is None,
            !s.force_approved,
            s.github_pr is None,
            s.claimed_at is None,
            s.change_ids@.len() == 0,
            s.critique_ids@.len() == 0,
            s.created_at == 0,
    {
        Solution {
            id: copy_str(id),
            title: copy_str(title),
            problem_id: copy_str(problem_id),
            status: SolutionStatus::Proposed,
            supersedes: None,
            assignee: None,
            force_approved: false,
            github_pr: None,
            claimed_at: None,
            change_ids: Vec::new(),
            critique_ids: Vec::new(),
            created_at: 0,
        }
    }
}

impl Critique {
    /// A new open critique of solution `solution_id`.
    pub fn new(id: &str, title: &str, solution_id: &str, severity: Severity) -> (c: Critique)
        ensures
            c.id@ == id@,
            c.title@ == title@,
            c.solution_id@ == solution_id@,
            c.status == CritiqueStatus::Open,
            c.severity == severity,
            c.author is None,
            c.reviewer is None,
            c.file_path is None,
            c.line_start is None,
            c.code_context@.len() == 0,
            c.github_review_id is None,
            c.replies@.len() == 0,
    {
        Critique {
            id: copy_str(id),
            title: copy_str(title),
            solution_id: copy_str(solution_id),
            status: CritiqueStatus::Open,
            severity,
            author: None,
            reviewer: None,
            file_path: None,
            line_start: None,
            code_context: Vec::new(),
            github_review_id: None,
            replies: Vec::new(),
        }
    }
}

impl Milestone {
    /// A new milestone in planning, with no problems.
    pub fn new(id: &str, title: &str) -> (m: Milestone)
        ensures
            m.id@ == id@,
            m.title@ == title@,
            m.status == MilestoneStatus::Planning,
            m.problem_ids@.len() == 0,
            m.target_date is None,
    {
        Milestone {
            id: copy_str(id),
            title: copy_str(title),
            status: MilestoneStatus::Planning,
            problem_ids: Vec::new(),
            target_date: None,
        }
    }
}

/// Equality of two optional strings by content.
pub fn opt_str_eq(a: &Option<String>, b: &str) -> (r: bool)
    ensures
        r == (opt_view(*a) == Some(b@)),
{
    match a {
        Some(x) => str_eq(x.as_str(), b),
        None => false,
    }
}

} // verus!
