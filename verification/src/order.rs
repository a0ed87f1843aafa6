//! How the sidebar orders what it lists: machine sections by their titles,
//! compared without regard to case, and jobs within a section most pressing
//! first.
use vstd::prelude::*;

use crate::frame::{AttentionLevel, Health, JobView, Outcome};

verus! {

// ───────────────────────────── titles ─────────────────────────────

/// The lowercase mapping of one character (`char::to_lowercase`): one or
/// more characters, from the Unicode tables of the standard library.
pub uninterp spec fn char_lowercase(c: char) -> Seq<char>;

/// `char::to_lowercase`, collected.
#[verifier::external_body]
fn lowercase_chars(c: char) -> (r: Vec<char>)
    ensures
        r@ == char_lowercase(c),
{
    c.to_lowercase().collect()
}

/// A text with every character replaced by its lowercase mapping.
pub open spec fn fold_lower(s: Seq<char>) -> Seq<char>
    decreases s.len(),
{
    if s.len() == 0 {
        Seq::empty()
    } else {
        fold_lower(s.drop_last()) + char_lowercase(s.last())
    }
}

/// The lowercase mapping of `s`, character by character.
pub fn lowered(s: &str) -> (r: Vec<char>)
    ensures
        r@ == fold_lower(s@),
{
    let v = crate::text::chars_of(s);
    let mut out: Vec<char> = Vec::new();
    let mut i: usize = 0;
    while i < v.len()
        invariant
            i <= v.len(),
            v@ == s@,
            out@ == fold_lower(v@.take(i as int)),
        decreases v.len() - i,
    {
        let low = lowercase_chars(v[i]);
        let mut j: usize = 0;
        let ghost start = out@;
        while j < low.len()
            invariant
                j <= low.len(),
                out@ == start + low@.take(j as int),
            decreases low.len() - j,
        {
            out.push(low[j]);
            j = j + 1;
            assert(out@ =~= start + low@.take(j as int));
        }
        assert(v@.take(i + 1).drop_last() =~= v@.take(i as int));
        assert(low@.take(low.len() as int) =~= low@);
        i = i + 1;
    }
    assert(v@.take(v.len() as int) =~= v@);
    out
}

/// `a` sorts no later than `b`, character code by character code, a prefix
/// first.
pub open spec fn lex_le(a: Seq<char>, b: Seq<char>) -> bool
    decreases a.len(),
{
    if a.len() == 0 {
        true
    } else if b.len() == 0 {
        false
    } else if a[0] < b[0] {
        true
    } else if a[0] > b[0] {
        false
    } else {
        lex_le(a.drop_first(), b.drop_first())
    }
}

/// Any two texts are ordered one way or the other.
pub proof fn lemma_lex_total(a: Seq<char>, b: Seq<char>)
    ensures
        lex_le(a, b) || lex_le(b, a),
    decreases a.len(),
{
    if a.len() > 0 && b.len() > 0 && a[0] == b[0] {
        lemma_lex_total(a.drop_first(), b.drop_first());
    }
}

/// The order is transitive.
pub proof fn lemma_lex_trans(a: Seq<char>, b: Seq<char>, c: Seq<char>)
    requires
        lex_le(a, b),
        lex_le(b, c),
    ensures
        lex_le(a, c),
    decreases a.len(),
{
    if a.len() > 0 && b.len() > 0 && c.len() > 0 && a[0] == b[0] && b[0] == c[0] {
        lemma_lex_trans(a.drop_first(), b.drop_first(), c.drop_first());
    }
}

/// Whether `a` sorts no later than `b`.
pub fn lex_le_exec(a: &Vec<char>, b: &Vec<char>) -> (r: bool)
    ensures
        r == lex_le(a@, b@),
{
    let mut i: usize = 0;
    assert(a@.skip(0) =~= a@);
    assert(b@.skip(0) =~= b@);
    while i < a.len() && i < b.len()
        invariant
            i <= a.len(),
            i <= b.len(),
            lex_le(a@, b@) == lex_le(a@.skip(i as int), b@.skip(i as int)),
        decreases a.len() - i,
    {
        assert(a@.skip(i as int)[0] == a@[i as int]);
        assert(b@.skip(i as int)[0] == b@[i as int]);
        if a[i] < b[i] {
            return true;
        }
        if a[i] > b[i] {
            return false;
        }
        assert(a@.skip(i as int).drop_first() =~= a@.skip(i + 1));
        assert(b@.skip(i as int).drop_first() =~= b@.skip(i + 1));
        i = i + 1;
    }
    i == a.len()
}

/// Section titles order as their lowercase mappings do.
pub open spec fn title_le(a: Seq<char>, b: Seq<char>) -> bool {
    lex_le(fold_lower(a), fold_lower(b))
}

// ───────────────────────────── jobs ─────────────────────────────

/// How badly a job has stopped answering: unresponsive above degraded above
/// unknown above healthy.
pub open spec fn health_rank(health: Health) -> int {
    match health {
        Health::Unresponsive => 3,
        Health::Degraded => 2,
        Health::Unknown => 1,
        Health::Healthy => 0,
    }
}

pub fn health_rank_exec(health: Health) -> (r: u8)
    ensures
        r == health_rank(health),
{
    match health {
        Health::Unresponsive => 3,
        Health::Degraded => 2,
        Health::Unknown => 1,
        Health::Healthy => 0,
    }
}

/// When a job last updated; `now` when it never said.
pub open spec fn job_updated(now: int, job: JobView) -> int {
    match job.updated_at {
        Some(t) => t as int,
        None => now,
    }
}

/// When a job started; when it last updated if it never said.
pub open spec fn job_started(now: int, job: JobView) -> int {
    match job.created_at {
        Some(t) => t as int,
        None => job_updated(now, job),
    }
}

pub open spec fn failed(job: JobView) -> bool {
    job.outcome == Some(Outcome::Failure)
}

/// `a` goes strictly before `b`: louder attention first, then worse health,
/// then a failure, then the more recent update, then the more recent start.
pub open spec fn ranks_before(now: int, a: JobView, b: JobView) -> bool {
    let (aa, ab) = (a.attention.level.spec_rank() as int, b.attention.level.spec_rank() as int);
    let (ha, hb) = (health_rank(a.health), health_rank(b.health));
    let (ua, ub) = (job_updated(now, a), job_updated(now, b));
    let (sa, sb) = (job_started(now, a), job_started(now, b));
    ||| aa > ab
    ||| aa == ab && ha > hb
    ||| aa == ab && ha == hb && failed(a) && !failed(b)
    ||| aa == ab && ha == hb && failed(a) == failed(b) && ua > ub
    ||| aa == ab && ha == hb && failed(a) == failed(b) && ua == ub && sa > sb
}

/// `a` may go before `b`: it ranks before it, or the two tie on every field
/// the order reads.
pub open spec fn ranks_no_later(now: int, a: JobView, b: JobView) -> bool {
    !ranks_before(now, b, a)
}

/// Whether `a` goes strictly before `b`.
pub fn job_ranks_before(now: i128, a: &JobView, b: &JobView) -> (r: bool)
    ensures
        r == ranks_before(now as int, *a, *b),
{
    let (aa, ab) = (a.attention.level.rank(), b.attention.level.rank());
    if aa != ab {
        return aa > ab;
    }
    let (ha, hb) = (health_rank_exec(a.health), health_rank_exec(b.health));
    if ha != hb {
        return ha > hb;
    }
    let fa = matches!(a.outcome, Some(Outcome::Failure));
    let fb = matches!(b.outcome, Some(Outcome::Failure));
    if fa != fb {
        return fa;
    }
    let ua: i128 = match a.updated_at {
        Some(t) => t,
        None => now,
    };
    let ub: i128 = match b.updated_at {
        Some(t) => t,
        None => now,
    };
    if ua != ub {
        return ua > ub;
    }
    let sa: i128 = match a.created_at {
        Some(t) => t,
        None => ua,
    };
    let sb: i128 = match b.created_at {
        Some(t) => t,
        None => ub,
    };
    sa > sb
}

// ───────────────────────────── laws of the job order ─────────────────────────────

/// `a` asks to be looked at more loudly than `b`, in the order quiet,
/// informational, suggested, required, urgent.
pub open spec fn louder(a: AttentionLevel, b: AttentionLevel) -> bool {
    match a {
        AttentionLevel::Urgent => b != AttentionLevel::Urgent,
        AttentionLevel::Required => b == AttentionLevel::Quiet || b == AttentionLevel::Informational || b
            == AttentionLevel::Suggested,
        AttentionLevel::Suggested => b == AttentionLevel::Quiet || b == AttentionLevel::Informational,
        AttentionLevel::Informational => b == AttentionLevel::Quiet,
        AttentionLevel::Quiet => false,
    }
}

/// `a` is the worse health: unresponsive, then degraded, then unknown, then
/// healthy.
pub open spec fn sicker(a: Health, b: Health) -> bool {
    match a {
        Health::Unresponsive => b != Health::Unresponsive,
        Health::Degraded => b == Health::Unknown || b == Health::Healthy,
        Health::Unknown => b == Health::Healthy,
        Health::Healthy => false,
    }
}

/// A louder job goes first, whatever its health, outcome or age.
pub proof fn lemma_louder_ranks_first(now: int, a: JobView, b: JobView)
    requires
        louder(a.attention.level, b.attention.level),
    ensures
        ranks_before(now, a, b),
        !ranks_before(now, b, a),
{
}

/// Between jobs asking equally loudly, the one in worse health goes first,
/// whatever their outcomes and update times.
pub proof fn lemma_sicker_ranks_first(now: int, a: JobView, b: JobView)
    requires
        a.attention.level == b.attention.level,
        sicker(a.health, b.health),
    ensures
        ranks_before(now, a, b),
        !ranks_before(now, b, a),
{
}

/// Between jobs asking equally loudly in the same health, a failed one
/// goes first, whatever their update times.
pub proof fn lemma_failure_ranks_first(now: int, a: JobView, b: JobView)
    requires
        a.attention.level == b.attention.level,
        a.health == b.health,
        a.outcome == Some(Outcome::Failure),
        b.outcome != Some(Outcome::Failure),
    ensures
        ranks_before(now, a, b),
        !ranks_before(now, b, a),
{
}

/// Otherwise alike, the job updated more recently goes first.
pub proof fn lemma_recent_ranks_first(now: int, a: JobView, b: JobView, ta: i128, tb: i128)
    requires
        a.attention.level == b.attention.level,
        a.health == b.health,
        (a.outcome == Some(Outcome::Failure)) == (b.outcome == Some(Outcome::Failure)),
        a.updated_at == Some(ta),
        b.updated_at == Some(tb),
        ta > tb,
    ensures
        ranks_before(now, a, b),
        !ranks_before(now, b, a),
{
}

} // verus!
