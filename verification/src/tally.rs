//! Counting a frame's live jobs by display class.
use vstd::prelude::*;

use crate::frame::JobView;
use crate::status::{class_of, StatusClass};
use crate::text::{chars_of, lower, lower_vec, vec_eq};

verus! {

/// The buckets a tally counts into: the six classes, with a success that is a
/// monitor phase (an open session waiting on stream feedback) told apart from
/// any other success.
#[derive(Clone, Copy, Debug, PartialEq, Eq, Structural)]
pub enum Bucket {
    Problem,
    Attention,
    Waiting,
    Running,
    Monitor,
    Success,
    Inactive,
}

/// Whether the job's current activity is a monitor phase.
pub open spec fn is_monitor(job: JobView) -> bool {
    match job.current {
        Some(current) => lower(current.kind@) == "monitor"@,
        None => false,
    }
}

/// The bucket one job is counted in.
pub open spec fn bucket_of(job: JobView) -> Bucket {
    match class_of(job) {
        StatusClass::Problem => Bucket::Problem,
        StatusClass::Attention => Bucket::Attention,
        StatusClass::Waiting => Bucket::Waiting,
        StatusClass::Running => Bucket::Running,
        StatusClass::Success => if is_monitor(job) {
            Bucket::Monitor
        } else {
            Bucket::Success
        },
        StatusClass::Inactive => Bucket::Inactive,
    }
}

/// How many of `jobs` fall in bucket `b`.
pub open spec fn count_bucket(jobs: Seq<JobView>, b: Bucket) -> nat
    decreases jobs.len(),
{
    if jobs.len() == 0 {
        0
    } else {
        count_bucket(jobs.drop_last(), b) + if bucket_of(jobs.last()) == b {
            1nat
        } else {
            0nat
        }
    }
}

/// How many of `jobs` derive class `c`.
pub open spec fn count_class(jobs: Seq<JobView>, c: StatusClass) -> nat
    decreases jobs.len(),
{
    if jobs.len() == 0 {
        0
    } else {
        count_class(jobs.drop_last(), c) + if class_of(jobs.last()) == c {
            1nat
        } else {
            0nat
        }
    }
}

/// One count per bucket, plus `ask`: the jobs that are waiting on a human.
#[derive(Clone, Copy, Debug, Default, PartialEq, Eq, Structural)]
pub struct Tally {
    pub problem: usize,
    pub attention: usize,
    pub waiting: usize,
    pub running: usize,
    pub monitor: usize,
    pub success: usize,
    pub inactive: usize,
    pub ask: usize,
}

impl Tally {
    /// Every job counted once: the sum of the seven buckets (`ask` is a part
    /// of `attention`, not a bucket of its own).
    pub open spec fn spec_total(self) -> nat {
        (self.problem + self.attention + self.waiting + self.running + self.monitor + self.success
            + self.inactive) as nat
    }

    /// The tally of `jobs`, as a specification.
    pub open spec fn counts(self, jobs: Seq<JobView>) -> bool {
        &&& self.problem == count_bucket(jobs, Bucket::Problem)
        &&& self.attention == count_bucket(jobs, Bucket::Attention)
        &&& self.waiting == count_bucket(jobs, Bucket::Waiting)
        &&& self.running == count_bucket(jobs, Bucket::Running)
        &&& self.monitor == count_bucket(jobs, Bucket::Monitor)
        &&& self.success == count_bucket(jobs, Bucket::Success)
        &&& self.inactive == count_bucket(jobs, Bucket::Inactive)
        &&& self.ask == count_bucket(jobs, Bucket::Attention)
    }

    /// Count `jobs` by bucket. Pure: no filtering, no sorting.
    pub fn of(jobs: &[JobView]) -> (t: Tally)
        ensures
            t.counts(jobs@),
    {
        let mut t = Tally {
            problem: 0,
            attention: 0,
            waiting: 0,
            running: 0,
            monitor: 0,
            success: 0,
            inactive: 0,
            ask: 0,
        };
        let mut i: usize = 0;
        while i < jobs.len()
            invariant
                i <= jobs.len(),
                t.counts(jobs@.take(i as int)),
                t.spec_total() == i,
            decreases jobs.len() - i,
        {
            let job = &jobs[i];
            let ghost before = jobs@.take(i as int);
            assert(jobs@.take(i + 1).drop_last() =~= before);
            assert(jobs@.take(i + 1).last() == *job);
            proof {
                lemma_bucket_total(before);
            }
            match Self::bucket(job) {
                Bucket::Problem => t.problem = t.problem + 1,
                Bucket::Attention => {
                    t.attention = t.attention + 1;
                    t.ask = t.ask + 1;
                },
                Bucket::Waiting => t.waiting = t.waiting + 1,
                Bucket::Running => t.running = t.running + 1,
                Bucket::Monitor => t.monitor = t.monitor + 1,
                Bucket::Success => t.success = t.success + 1,
                Bucket::Inactive => t.inactive = t.inactive + 1,
            }
            i = i + 1;
        }
        assert(jobs@.take(jobs.len() as int) =~= jobs@);
        t
    }

    fn bucket(job: &JobView) -> (b: Bucket)
        ensures
            b == bucket_of(*job),
    {
        match StatusClass::of(job) {
            StatusClass::Problem => Bucket::Problem,
            StatusClass::Attention => Bucket::Attention,
            StatusClass::Waiting => Bucket::Waiting,
            StatusClass::Running => Bucket::Running,
            StatusClass::Success => {
                let monitor = match &job.current {
                    Some(current) => vec_eq(&lower_vec(&chars_of(current.kind.as_str())), "monitor"),
                    None => false,
                };
                if monitor {
                    Bucket::Monitor
                } else {
                    Bucket::Success
                }
            },
            StatusClass::Inactive => Bucket::Inactive,
        }
    }

    /// How many counted jobs derive `class`.
    pub fn count(&self, class: StatusClass) -> (n: usize)
        requires
            class == StatusClass::Success ==> self.success + self.monitor <= usize::MAX,
        ensures
            n == match class {
                StatusClass::Problem => self.problem as nat,
                StatusClass::Attention => self.attention as nat,
                StatusClass::Waiting => self.waiting as nat,
                StatusClass::Running => self.running as nat,
                StatusClass::Success => (self.success + self.monitor) as nat,
                StatusClass::Inactive => self.inactive as nat,
            },
    {
        match class {
            StatusClass::Problem => self.problem,
            StatusClass::Attention => self.attention,
            StatusClass::Waiting => self.waiting,
            StatusClass::Running => self.running,
            StatusClass::Success => self.success + self.monitor,
            StatusClass::Inactive => self.inactive,
        }
    }

    /// Every counted job, once.
    pub fn total(&self) -> (n: usize)
        requires
            self.spec_total() <= usize::MAX,
        ensures
            n == self.spec_total(),
    {
        self.problem + self.attention + self.waiting + self.running + self.monitor + self.success
            + self.inactive
    }

    /// Whether nothing at all was counted.
    pub fn is_empty(&self) -> (b: bool)
        ensures
            b == (self.spec_total() == 0),
    {
        self.problem == 0 && self.attention == 0 && self.waiting == 0 && self.running == 0
            && self.monitor == 0 && self.success == 0 && self.inactive == 0
    }
}

/// The seven buckets partition the jobs: together they count every job
/// exactly once.
pub proof fn lemma_bucket_total(jobs: Seq<JobView>)
    ensures
        count_bucket(jobs, Bucket::Problem) + count_bucket(jobs, Bucket::Attention) + count_bucket(
            jobs,
            Bucket::Waiting,
        ) + count_bucket(jobs, Bucket::Running) + count_bucket(jobs, Bucket::Monitor)
            + count_bucket(jobs, Bucket::Success) + count_bucket(jobs, Bucket::Inactive)
            == jobs.len(),
    decreases jobs.len(),
{
    if jobs.len() > 0 {
        lemma_bucket_total(jobs.drop_last());
    }
}

/// A class count is the sum of the buckets that class splits into.
pub proof fn lemma_class_count_is_bucket_count(jobs: Seq<JobView>)
    ensures
        count_class(jobs, StatusClass::Problem) == count_bucket(jobs, Bucket::Problem),
        count_class(jobs, StatusClass::Attention) == count_bucket(jobs, Bucket::Attention),
        count_class(jobs, StatusClass::Waiting) == count_bucket(jobs, Bucket::Waiting),
        count_class(jobs, StatusClass::Running) == count_bucket(jobs, Bucket::Running),
        count_class(jobs, StatusClass::Success) == count_bucket(jobs, Bucket::Success)
            + count_bucket(jobs, Bucket::Monitor),
        count_class(jobs, StatusClass::Inactive) == count_bucket(jobs, Bucket::Inactive),
    decreases jobs.len(),
{
    if jobs.len() > 0 {
        lemma_class_count_is_bucket_count(jobs.drop_last());
    }
}

/// The tally of a list counts every job of it once, and `count` reads back
/// how many jobs derive each class.
pub proof fn lemma_tally_counts_every_job_once(t: Tally, jobs: Seq<JobView>)
    requires
        t.counts(jobs),
    ensures
        t.spec_total() == jobs.len(),
        t.problem == count_class(jobs, StatusClass::Problem),
        t.attention == count_class(jobs, StatusClass::Attention),
        t.waiting == count_class(jobs, StatusClass::Waiting),
        t.running == count_class(jobs, StatusClass::Running),
        t.success + t.monitor == count_class(jobs, StatusClass::Success),
        t.inactive == count_class(jobs, StatusClass::Inactive),
{
    lemma_bucket_total(jobs);
    lemma_class_count_is_bucket_count(jobs);
}

/// The tally of `jobs`, as a value.
pub open spec fn tally_of(jobs: Seq<JobView>) -> Tally {
    Tally {
        problem: count_bucket(jobs, Bucket::Problem) as usize,
        attention: count_bucket(jobs, Bucket::Attention) as usize,
        waiting: count_bucket(jobs, Bucket::Waiting) as usize,
        running: count_bucket(jobs, Bucket::Running) as usize,
        monitor: count_bucket(jobs, Bucket::Monitor) as usize,
        success: count_bucket(jobs, Bucket::Success) as usize,
        inactive: count_bucket(jobs, Bucket::Inactive) as usize,
        ask: count_bucket(jobs, Bucket::Attention) as usize,
    }
}

/// A list has one tally: whatever counts it is [`tally_of`] it.
pub proof fn lemma_counts_is_tally_of(t: Tally, jobs: Seq<JobView>)
    requires
        t.counts(jobs),
    ensures
        t == tally_of(jobs),
{
}

} // verus!
