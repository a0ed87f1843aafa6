//! The six-state display class, derived from a job's structured facets.
//!
//! The hub publishes facets, never a derived status; this derivation is the
//! one path from facets to a class. It reads structured fields only: no free
//! text (names, summaries, titles) ever moves a job from one class to another.
use vstd::prelude::*;

use crate::frame::{AttentionLevel, Health, JobView, Lifecycle, Outcome};
use crate::text::{lower, lower_vec, chars_of, vec_eq};

verus! {

/// Derived display status, most urgent first.
///
/// Declaration order is the priority order, so the derived `Ord` is the
/// priority: problem > attention > waiting > running > success > inactive.
#[derive(Clone, Copy, Debug, PartialEq, Eq, PartialOrd, Ord, Hash, Structural)]
pub enum StatusClass {
    Problem,
    Attention,
    Waiting,
    Running,
    Success,
    Inactive,
}

/// Reasons that mean the job is blocked on something other than a human.
///
/// `failure` is one of them: the job waits on a dependency that failed;
/// `outcome` is what says the job itself failed.
pub open spec fn is_wait_reason(r: Seq<char>) -> bool {
    r == "resource"@ || r == "dependency"@ || r == "queue"@ || r == "system"@ || r == "lock"@
        || r == "throttle"@ || r == "rate"@ || r == "capacity"@ || r == "failure"@
}

/// Reasons that mean the job is blocked on a human.
pub open spec fn is_ask_reason(r: Seq<char>) -> bool {
    r == "input"@ || r == "approval"@ || r == "auth"@ || r == "permission"@ || r == "decision"@
        || r == "elicitation"@
}

/// The attention reason, lower-cased for matching.
pub open spec fn reason_of(job: JobView) -> Option<Seq<char>> {
    match job.attention.reason {
        Some(r) => Some(lower(r@)),
        None => None,
    }
}

/// What the job is asking of a human, when that decides the class.
pub open spec fn class_from_attention(job: JobView) -> Option<StatusClass> {
    let rank = job.attention.level.spec_rank();
    if rank >= 2 {
        match reason_of(job) {
            None => Some(StatusClass::Attention),
            Some(r) => if is_wait_reason(r) {
                Some(StatusClass::Waiting)
            } else {
                Some(StatusClass::Attention)
            },
        }
    } else if rank >= 1 {
        match reason_of(job) {
            None => None,
            Some(r) => if is_ask_reason(r) {
                Some(StatusClass::Attention)
            } else if is_wait_reason(r) {
                Some(StatusClass::Waiting)
            } else {
                None
            },
        }
    } else {
        None
    }
}

/// The stage the job as a whole is in, when that decides the class.
pub open spec fn class_from_stage(job: JobView) -> Option<StatusClass> {
    if job.lifecycle == Lifecycle::Ended {
        if job.outcome == Some(Outcome::Success) || job.outcome == Some(Outcome::Partial) {
            Some(StatusClass::Success)
        } else {
            Some(StatusClass::Inactive)
        }
    } else if job.lifecycle == Lifecycle::Suspended || job.lifecycle == Lifecycle::Unknown {
        Some(StatusClass::Inactive)
    } else if job.lifecycle == Lifecycle::Pending || job.lifecycle == Lifecycle::Created {
        Some(StatusClass::Waiting)
    } else if job.health == Health::Degraded {
        Some(StatusClass::Waiting)
    } else if job.lifecycle == Lifecycle::Active && job.outcome == Some(Outcome::Partial) {
        Some(StatusClass::Success)
    } else {
        None
    }
}

/// The current activity kinds that mean work is under way.
pub open spec fn is_busy_kind(k: Seq<char>) -> bool {
    k == "subagent"@ || k == "tool"@ || k == "thinking"@ || k == "info"@
}

/// The current activity kinds of a session that is open but idle.
pub open spec fn is_idle_kind(k: Seq<char>) -> bool {
    k == "idle"@ || k == "starting"@ || k == "booting"@
}

/// What the job is doing right now, when that decides the class.
pub open spec fn class_from_activity(job: JobView) -> Option<StatusClass> {
    match job.current {
        None => None,
        Some(current) => {
            let k = lower(current.kind@);
            if is_busy_kind(k) {
                if job.lifecycle == Lifecycle::Active {
                    Some(StatusClass::Running)
                } else {
                    None
                }
            } else if k == "monitor"@ {
                Some(StatusClass::Success)
            } else if k == "waiting"@ {
                Some(StatusClass::Waiting)
            } else if is_idle_kind(k) {
                Some(StatusClass::Inactive)
            } else {
                None
            }
        },
    }
}

/// The class of `job`: failure and unresponsiveness first, then attention,
/// then the job's stage, then its current activity, then whether it is open.
pub open spec fn class_of(job: JobView) -> StatusClass {
    if job.outcome == Some(Outcome::Failure) || job.health == Health::Unresponsive {
        StatusClass::Problem
    } else if let Some(c) = class_from_attention(job) {
        c
    } else if let Some(c) = class_from_stage(job) {
        c
    } else if let Some(c) = class_from_activity(job) {
        c
    } else if job.lifecycle == Lifecycle::Active {
        StatusClass::Running
    } else {
        StatusClass::Inactive
    }
}

/// Every structured facet the derivation reads, and nothing else.
pub open spec fn same_facets(a: JobView, b: JobView) -> bool {
    &&& a.outcome == b.outcome
    &&& a.health == b.health
    &&& a.lifecycle == b.lifecycle
    &&& a.attention.level == b.attention.level
    &&& reason_of(a) == reason_of(b)
    &&& a.current.is_some() == b.current.is_some()
    &&& (a.current.is_some() ==> lower(a.current.unwrap().kind@) == lower(
        b.current.unwrap().kind@,
    ))
}

/// Free text never classifies: two jobs that agree on every structured facet
/// have the same class, whatever their names, summaries, details and titles
/// say.
pub proof fn lemma_free_text_never_classifies(a: JobView, b: JobView)
    requires
        same_facets(a, b),
    ensures
        class_of(a) == class_of(b),
{
}

/// A failed outcome is a problem whatever else the job reports, and so is an
/// unresponsive job.
pub proof fn lemma_failure_is_always_a_problem(job: JobView)
    requires
        job.outcome == Some(Outcome::Failure) || job.health == Health::Unresponsive,
    ensures
        class_of(job) == StatusClass::Problem,
{
}

/// Elevated attention (suggested or louder) is attention or waiting, never a
/// busier or quieter class, unless the job has failed or stopped answering.
pub proof fn lemma_elevated_attention_asks_or_waits(job: JobView)
    requires
        job.attention.level.spec_rank() >= 2,
        job.outcome != Some(Outcome::Failure),
        job.health != Health::Unresponsive,
    ensures
        class_of(job) == StatusClass::Attention || class_of(job) == StatusClass::Waiting,
{
}

fn is_wait_reason_exec(r: &Vec<char>) -> (b: bool)
    ensures
        b == is_wait_reason(r@),
{
    vec_eq(r, "resource") || vec_eq(r, "dependency") || vec_eq(r, "queue") || vec_eq(r, "system")
        || vec_eq(r, "lock") || vec_eq(r, "throttle") || vec_eq(r, "rate") || vec_eq(
        r,
        "capacity",
    ) || vec_eq(r, "failure")
}

fn is_ask_reason_exec(r: &Vec<char>) -> (b: bool)
    ensures
        b == is_ask_reason(r@),
{
    vec_eq(r, "input") || vec_eq(r, "approval") || vec_eq(r, "auth") || vec_eq(r, "permission")
        || vec_eq(r, "decision") || vec_eq(r, "elicitation")
}

impl StatusClass {
    /// Every class, most urgent first.
    pub const ALL: [StatusClass; 6] = [
        StatusClass::Problem,
        StatusClass::Attention,
        StatusClass::Waiting,
        StatusClass::Running,
        StatusClass::Success,
        StatusClass::Inactive,
    ];

    /// Lower-case spelling of the class.
    pub open spec fn spec_label(self) -> Seq<char> {
        match self {
            StatusClass::Problem => "problem"@,
            StatusClass::Attention => "attention"@,
            StatusClass::Waiting => "waiting"@,
            StatusClass::Running => "running"@,
            StatusClass::Success => "success"@,
            StatusClass::Inactive => "inactive"@,
        }
    }

    pub fn label(self) -> (r: &'static str)
        ensures
            r@ == self.spec_label(),
    {
        match self {
            StatusClass::Problem => "problem",
            StatusClass::Attention => "attention",
            StatusClass::Waiting => "waiting",
            StatusClass::Running => "running",
            StatusClass::Success => "success",
            StatusClass::Inactive => "inactive",
        }
    }

    /// The class of `job` ([`class_of`]).
    pub fn of(job: &JobView) -> (c: StatusClass)
        ensures
            c == class_of(*job),
    {
        if matches!(job.outcome, Some(Outcome::Failure)) {
            return StatusClass::Problem;
        }
        if matches!(job.health, Health::Unresponsive) {
            return StatusClass::Problem;
        }
        if let Some(c) = Self::from_attention(job) {
            return c;
        }
        if let Some(c) = Self::from_stage(job) {
            return c;
        }
        if let Some(c) = Self::from_activity(job) {
            return c;
        }
        if matches!(job.lifecycle, Lifecycle::Active) {
            StatusClass::Running
        } else {
            StatusClass::Inactive
        }
    }

    fn reason(job: &JobView) -> (r: Option<Vec<char>>)
        ensures
            match r {
                Some(v) => reason_of(*job) == Some(v@),
                None => reason_of(*job).is_none(),
            },
    {
        match &job.attention.reason {
            Some(reason) => Some(lower_vec(&chars_of(reason.as_str()))),
            None => None,
        }
    }

    fn from_attention(job: &JobView) -> (r: Option<StatusClass>)
        ensures
            r == class_from_attention(*job),
    {
        let rank = job.attention.level.rank();
        if rank >= 2 {
            match Self::reason(job) {
                None => Some(StatusClass::Attention),
                Some(r) => if is_wait_reason_exec(&r) {
                    Some(StatusClass::Waiting)
                } else {
                    Some(StatusClass::Attention)
                },
            }
        } else if rank >= 1 {
            match Self::reason(job) {
                None => None,
                Some(r) => if is_ask_reason_exec(&r) {
                    Some(StatusClass::Attention)
                } else if is_wait_reason_exec(&r) {
                    Some(StatusClass::Waiting)
                } else {
                    None
                },
            }
        } else {
            None
        }
    }

    fn from_stage(job: &JobView) -> (r: Option<StatusClass>)
        ensures
            r == class_from_stage(*job),
    {
        match job.lifecycle {
            Lifecycle::Ended => {
                if matches!(job.outcome, Some(Outcome::Success) | Some(Outcome::Partial)) {
                    Some(StatusClass::Success)
                } else {
                    Some(StatusClass::Inactive)
                }
            },
            Lifecycle::Suspended | Lifecycle::Unknown => Some(StatusClass::Inactive),
            Lifecycle::Pending | Lifecycle::Created => Some(StatusClass::Waiting),
            Lifecycle::Active => {
                if matches!(job.health, Health::Degraded) {
                    Some(StatusClass::Waiting)
                } else if matches!(job.outcome, Some(Outcome::Partial)) {
                    Some(StatusClass::Success)
                } else {
                    None
                }
            },
        }
    }

    fn from_activity(job: &JobView) -> (r: Option<StatusClass>)
        ensures
            r == class_from_activity(*job),
    {
        match &job.current {
            None => None,
            Some(current) => {
                let k = lower_vec(&chars_of(current.kind.as_str()));
                if vec_eq(&k, "subagent") || vec_eq(&k, "tool") || vec_eq(&k, "thinking")
                    || vec_eq(&k, "info") {
                    if matches!(job.lifecycle, Lifecycle::Active) {
                        Some(StatusClass::Running)
                    } else {
                        None
                    }
                } else if vec_eq(&k, "monitor") {
                    Some(StatusClass::Success)
                } else if vec_eq(&k, "waiting") {
                    Some(StatusClass::Waiting)
                } else if vec_eq(&k, "idle") || vec_eq(&k, "starting") || vec_eq(&k, "booting") {
                    Some(StatusClass::Inactive)
                } else {
                    None
                }
            },
        }
    }
}

} // verus!
