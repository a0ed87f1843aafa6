//! The status filter bar: six buckets mapped onto the derived
//! [`StatusClass`](crate::status::StatusClass).
use vstd::prelude::*;

use crate::frame::JobView;
use crate::status::{class_of, StatusClass};
use crate::tally::is_monitor;
use crate::text::{chars_of, lower_vec, vec_eq};

verus! {

/// Filter buckets shown in the sidebar header (`≡ ● ◎ ◐ ○ ✕`).
#[derive(Clone, Copy, Debug, Default, PartialEq, Eq, Structural)]
pub enum StatusFilter {
    #[default]
    All,
    Running,
    Background,
    Waiting,
    Idle,
    Error,
}

/// Position of a filter on the bar.
pub open spec fn filter_index(f: StatusFilter) -> int {
    match f {
        StatusFilter::All => 0,
        StatusFilter::Running => 1,
        StatusFilter::Background => 2,
        StatusFilter::Waiting => 3,
        StatusFilter::Idle => 4,
        StatusFilter::Error => 5,
    }
}

/// The filter at a position of the bar.
pub open spec fn filter_at(i: int) -> StatusFilter {
    if i == 0 {
        StatusFilter::All
    } else if i == 1 {
        StatusFilter::Running
    } else if i == 2 {
        StatusFilter::Background
    } else if i == 3 {
        StatusFilter::Waiting
    } else if i == 4 {
        StatusFilter::Idle
    } else {
        StatusFilter::Error
    }
}

/// Background-style work: a monitor phase.
pub open spec fn is_background(job: JobView) -> bool {
    is_monitor(job)
}

/// Whether a filter shows a job of `class`, background or not.
pub open spec fn matches_class(f: StatusFilter, class: StatusClass, background: bool) -> bool {
    match f {
        StatusFilter::All => true,
        StatusFilter::Running => class == StatusClass::Running,
        StatusFilter::Background => background,
        StatusFilter::Waiting => class == StatusClass::Waiting || class == StatusClass::Attention,
        StatusFilter::Idle => class == StatusClass::Inactive || class == StatusClass::Success,
        StatusFilter::Error => class == StatusClass::Problem,
    }
}

/// Whether a filter shows `job`.
pub open spec fn shows(f: StatusFilter, job: JobView) -> bool {
    matches_class(f, class_of(job), is_background(job))
}

/// How many of `jobs` a filter shows.
pub open spec fn count_shown(f: StatusFilter, jobs: Seq<JobView>) -> nat
    decreases jobs.len(),
{
    if jobs.len() == 0 {
        0
    } else {
        count_shown(f, jobs.drop_last()) + if shows(f, jobs.last()) {
            1nat
        } else {
            0nat
        }
    }
}

/// A bucket never counts more jobs than the list holds.
pub proof fn lemma_count_shown_bound(f: StatusFilter, jobs: Seq<JobView>)
    ensures
        count_shown(f, jobs) <= jobs.len(),
    decreases jobs.len(),
{
    if jobs.len() > 0 {
        lemma_count_shown_bound(f, jobs.drop_last());
    }
}

/// The background bucket shows a job exactly when what it is doing now is a
/// monitor phase (`current.kind` is `monitor`, in any case), whatever its
/// status class.
pub proof fn lemma_background_is_monitoring(job: JobView)
    ensures
        shows(StatusFilter::Background, job) <==> (job.current matches Some(c) && crate::text::lower(c.kind@)
            == "monitor"@),
{
}

/// The background count is the number of monitoring jobs: one more for a
/// job in a monitor phase, none for any other.
pub proof fn lemma_background_counts_monitoring(jobs: Seq<JobView>, job: JobView)
    ensures
        count_shown(StatusFilter::Background, jobs.push(job)) == count_shown(StatusFilter::Background, jobs)
            + if job.current matches Some(c) && crate::text::lower(c.kind@) == "monitor"@ {
            1nat
        } else {
            0nat
        },
{
    assert(jobs.push(job).drop_last() =~= jobs);
}

fn is_background_exec(job: &JobView) -> (b: bool)
    ensures
        b == is_background(*job),
{
    match &job.current {
        Some(current) => vec_eq(&lower_vec(&chars_of(current.kind.as_str())), "monitor"),
        None => false,
    }
}

impl StatusFilter {
    /// Every bucket, in bar order.
    pub const ALL: [StatusFilter; 6] = [
        StatusFilter::All,
        StatusFilter::Running,
        StatusFilter::Background,
        StatusFilter::Waiting,
        StatusFilter::Idle,
        StatusFilter::Error,
    ];

    fn index(self) -> (i: usize)
        ensures
            i == filter_index(self),
    {
        match self {
            StatusFilter::All => 0,
            StatusFilter::Running => 1,
            StatusFilter::Background => 2,
            StatusFilter::Waiting => 3,
            StatusFilter::Idle => 4,
            StatusFilter::Error => 5,
        }
    }

    pub fn at(i: usize) -> (f: StatusFilter)
        requires
            i < 6,
        ensures
            f == filter_at(i as int),
    {
        if i == 0 {
            StatusFilter::All
        } else if i == 1 {
            StatusFilter::Running
        } else if i == 2 {
            StatusFilter::Background
        } else if i == 3 {
            StatusFilter::Waiting
        } else if i == 4 {
            StatusFilter::Idle
        } else {
            StatusFilter::Error
        }
    }

    /// The bucket to the right, wrapping to the first.
    pub fn next(self) -> (f: StatusFilter)
        ensures
            f == filter_at((filter_index(self) + 1) % 6),
    {
        Self::at((self.index() + 1) % 6)
    }

    /// The bucket to the left, wrapping to the last.
    pub fn prev(self) -> (f: StatusFilter)
        ensures
            f == filter_at((filter_index(self) + 5) % 6),
    {
        Self::at((self.index() + 5) % 6)
    }

    pub fn matches(self, job: &JobView) -> (b: bool)
        ensures
            b == shows(self, *job),
    {
        self.matches_class(StatusClass::of(job), is_background_exec(job))
    }

    /// How many of `jobs` this bucket shows.
    pub fn count(self, jobs: &[JobView]) -> (n: usize)
        ensures
            n == count_shown(self, jobs@),
    {
        let mut n: usize = 0;
        let mut i: usize = 0;
        while i < jobs.len()
            invariant
                i <= jobs.len(),
                n == count_shown(self, jobs@.take(i as int)),
            decreases jobs.len() - i,
        {
            assert(jobs@.take(i + 1).drop_last() =~= jobs@.take(i as int));
            proof {
                lemma_count_shown_bound(self, jobs@.take(i as int));
            }
            if self.matches(&jobs[i]) {
                n = n + 1;
            }
            i = i + 1;
        }
        assert(jobs@.take(jobs.len() as int) =~= jobs@);
        n
    }

    /// Every bucket's count in one pass, in [`Self::ALL`] order.
    pub fn counts(jobs: &[JobView]) -> (r: [usize; 6])
        ensures
            forall|k: int| 0 <= k < 6 ==> #[trigger] r@[k] == count_shown(filter_at(k), jobs@),
    {
        let mut r: [usize; 6] = [0, 0, 0, 0, 0, 0];
        let mut i: usize = 0;
        while i < jobs.len()
            invariant
                i <= jobs.len(),
                forall|k: int| 0 <= k < 6 ==> #[trigger] r@[k] == count_shown(
                    filter_at(k),
                    jobs@.take(i as int),
                ),
            decreases jobs.len() - i,
        {
            let job = &jobs[i];
            let class = StatusClass::of(job);
            let background = is_background_exec(job);
            assert(jobs@.take(i + 1).drop_last() =~= jobs@.take(i as int));
            assert(jobs@.take(i + 1).last() == *job);
            let mut k: usize = 0;
            while k < 6
                invariant
                    k <= 6,
                    i < jobs.len(),
                    class == class_of(*job),
                    background == is_background(*job),
                    jobs@.take(i + 1).drop_last() == jobs@.take(i as int),
                    jobs@.take(i + 1).last() == *job,
                    forall|m: int| 0 <= m < k ==> #[trigger] r@[m] == count_shown(
                        filter_at(m),
                        jobs@.take(i + 1),
                    ),
                    forall|m: int| k <= m < 6 ==> #[trigger] r@[m] == count_shown(
                        filter_at(m),
                        jobs@.take(i as int),
                    ),
                decreases 6 - k,
            {
                proof {
                    lemma_count_shown_bound(filter_at(k as int), jobs@.take(i as int));
                }
                if Self::at(k).matches_class(class, background) {
                    r[k] = r[k] + 1;
                }
                k = k + 1;
            }
            i = i + 1;
        }
        assert(jobs@.take(jobs.len() as int) =~= jobs@);
        r
    }

    /// Bucket test over already-derived facts about a job.
    fn matches_class(self, class: StatusClass, background: bool) -> (b: bool)
        ensures
            b == matches_class(self, class, background),
    {
        match self {
            StatusFilter::All => true,
            StatusFilter::Running => matches!(class, StatusClass::Running),
            StatusFilter::Background => background,
            StatusFilter::Waiting => matches!(class, StatusClass::Waiting | StatusClass::Attention),
            StatusFilter::Idle => matches!(class, StatusClass::Inactive | StatusClass::Success),
            StatusFilter::Error => matches!(class, StatusClass::Problem),
        }
    }
}

/// Cycling the bar is reversible: `prev` undoes `next` and `next` undoes
/// `prev`, and six steps in one direction come back to where they started.
pub proof fn lemma_next_prev_inverse(f: StatusFilter)
    ensures
        filter_at((filter_index(filter_at((filter_index(f) + 1) % 6)) + 5) % 6) == f,
        filter_at((filter_index(filter_at((filter_index(f) + 5) % 6)) + 1) % 6) == f,
        0 <= filter_index(f) < 6,
        filter_at(filter_index(f)) == f,
{
}

/// The "all" bucket shows every job.
pub proof fn lemma_all_shows_everything(jobs: Seq<JobView>)
    ensures
        count_shown(StatusFilter::All, jobs) == jobs.len(),
    decreases jobs.len(),
{
    if jobs.len() > 0 {
        lemma_all_shows_everything(jobs.drop_last());
    }
}

/// The buckets agree with the tally: the error bucket is the problem count,
/// the running bucket the running count, the waiting bucket attention plus
/// waiting, and the idle bucket success (monitor phases included) plus
/// inactive.
pub proof fn lemma_buckets_agree_with_classes(jobs: Seq<JobView>)
    ensures
        count_shown(StatusFilter::Error, jobs) == crate::tally::count_class(
            jobs,
            StatusClass::Problem,
        ),
        count_shown(StatusFilter::Running, jobs) == crate::tally::count_class(
            jobs,
            StatusClass::Running,
        ),
        count_shown(StatusFilter::Waiting, jobs) == crate::tally::count_class(
            jobs,
            StatusClass::Waiting,
        ) + crate::tally::count_class(jobs, StatusClass::Attention),
        count_shown(StatusFilter::Idle, jobs) == crate::tally::count_class(
            jobs,
            StatusClass::Success,
        ) + crate::tally::count_class(jobs, StatusClass::Inactive),
    decreases jobs.len(),
{
    if jobs.len() > 0 {
        lemma_buckets_agree_with_classes(jobs.drop_last());
    }
}

} // verus!
