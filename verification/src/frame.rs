//! The job facts a hub frame carries, as this surface reads them.
//!
//! Only the facets the surface derives from are modelled; the hub publishes
//! more, and whatever decodes a frame drops the rest. Timestamps are Unix time
//! in nanoseconds.
use vstd::prelude::*;

verus! {

/// Where a job is in its life.
#[derive(Clone, Copy, Debug, PartialEq, Eq, Structural)]
pub enum Lifecycle {
    Created,
    Pending,
    Active,
    Suspended,
    Ended,
    Unknown,
}

/// Whether the job still answers.
#[derive(Clone, Copy, Debug, PartialEq, Eq, Structural)]
pub enum Health {
    Healthy,
    Degraded,
    Unresponsive,
    Unknown,
}

/// How a job (or a phase of it) came out.
#[derive(Clone, Copy, Debug, PartialEq, Eq, Structural)]
pub enum Outcome {
    Success,
    Partial,
    Failure,
    Cancelled,
}

/// How loudly the job asks to be looked at, quietest first.
#[derive(Clone, Copy, Debug, PartialEq, Eq, Structural)]
pub enum AttentionLevel {
    Quiet,
    Informational,
    Suggested,
    Required,
    Urgent,
}

impl AttentionLevel {
    /// Position in the quietest-first order.
    pub open spec fn spec_rank(self) -> nat {
        match self {
            AttentionLevel::Quiet => 0,
            AttentionLevel::Informational => 1,
            AttentionLevel::Suggested => 2,
            AttentionLevel::Required => 3,
            AttentionLevel::Urgent => 4,
        }
    }

    pub fn rank(&self) -> (r: u8)
        ensures
            r == self.spec_rank(),
    {
        match self {
            AttentionLevel::Quiet => 0,
            AttentionLevel::Informational => 1,
            AttentionLevel::Suggested => 2,
            AttentionLevel::Required => 3,
            AttentionLevel::Urgent => 4,
        }
    }
}

/// What the job asks of a human, if anything.
#[derive(Clone, Debug)]
pub struct Attention {
    pub level: AttentionLevel,
    pub reason: Option<String>,
    pub title: Option<String>,
}

/// What the job is doing right now. `kind` is producer vocabulary.
#[derive(Clone, Debug)]
pub struct Current {
    pub kind: String,
    pub name: Option<String>,
    pub summary: Option<String>,
    pub detail: Option<String>,
}

/// Producer extras the surface reads.
#[derive(Clone, Debug)]
pub struct Extensions {
    pub pid: Option<u32>,
    pub last_prompt: Option<String>,
}

/// Where the job's work can be opened.
#[derive(Clone, Debug)]
pub struct Location {
    pub open_url: Option<String>,
    pub focus_hint: Option<String>,
}

/// The job's workspace, as the producer reported it.
#[derive(Clone, Debug)]
pub struct Context {
    pub workspace: Option<String>,
}

/// One job row of a hub frame.
#[derive(Clone, Debug)]
pub struct JobView {
    pub id: String,
    pub kind: String,
    pub name: String,
    /// The machine the producer runs on; empty when it named none.
    pub alias: String,
    pub lifecycle: Lifecycle,
    pub current: Option<Current>,
    pub attention: Attention,
    pub health: Health,
    pub outcome: Option<Outcome>,
    pub extensions: Extensions,
    pub location: Option<Location>,
    pub context: Context,
    pub created_at: Option<i128>,
    pub updated_at: Option<i128>,
}

impl JobView {
    /// A job with only an id: open, healthy, asking nothing — the same row a
    /// hub frame carrying `{"id": …}` alone decodes to.
    pub fn new(id: &str) -> (job: JobView)
        ensures
            job.id@ == id@,
            job.kind@ == Seq::<char>::empty(),
            job.name@ == Seq::<char>::empty(),
            job.alias@ == Seq::<char>::empty(),
            job.lifecycle == Lifecycle::Active,
            job.current.is_none(),
            job.attention.level == AttentionLevel::Quiet,
            job.attention.reason.is_none(),
            job.attention.title.is_none(),
            job.health == Health::Healthy,
            job.outcome.is_none(),
            job.extensions.pid.is_none(),
            job.extensions.last_prompt.is_none(),
            job.location.is_none(),
            job.context.workspace.is_none(),
            job.created_at.is_none(),
            job.updated_at.is_none(),
    {
        JobView {
            id: crate::text::string_of(&crate::text::chars_of(id)),
            kind: String::new(),
            name: String::new(),
            alias: String::new(),
            lifecycle: Lifecycle::Active,
            current: None,
            attention: Attention { level: AttentionLevel::Quiet, reason: None, title: None },
            health: Health::Healthy,
            outcome: None,
            extensions: Extensions { pid: None, last_prompt: None },
            location: None,
            context: Context { workspace: None },
            created_at: None,
            updated_at: None,
        }
    }
}

/// One frame of the hub's stream: the live jobs, and the rows that just left.
///
/// The two lists are kept apart so that a departed row can never be counted
/// as live.
#[derive(Clone, Debug)]
pub struct Frame {
    pub jobs: Vec<JobView>,
    pub departed: Vec<JobView>,
}

} // verus!
