//! Status icons: one glyph per filter bucket, and the glyph each derived
//! class paints.
use vstd::prelude::*;

use crate::filter::StatusFilter;
use crate::status::StatusClass;

verus! {

pub const ALL: &'static str = "≡";
pub const RUNNING: &'static str = "●";
pub const BACKGROUND: &'static str = "◎";
pub const WAITING: &'static str = "◐";
pub const IDLE: &'static str = "○";
pub const ERROR: &'static str = "✕";

/// The glyph of a filter bucket.
pub open spec fn filter_glyph(filter: StatusFilter) -> &'static str {
    match filter {
        StatusFilter::All => ALL,
        StatusFilter::Running => RUNNING,
        StatusFilter::Background => BACKGROUND,
        StatusFilter::Waiting => WAITING,
        StatusFilter::Idle => IDLE,
        StatusFilter::Error => ERROR,
    }
}

/// The glyph a job of `class` paints: a problem is a cross, anything waiting
/// on someone a half disc, running a full disc, done a ring, idle a circle.
pub open spec fn status_glyph(class: StatusClass) -> &'static str {
    match class {
        StatusClass::Problem => ERROR,
        StatusClass::Attention => WAITING,
        StatusClass::Waiting => WAITING,
        StatusClass::Running => RUNNING,
        StatusClass::Success => BACKGROUND,
        StatusClass::Inactive => IDLE,
    }
}

pub fn filter_icon(filter: StatusFilter) -> (r: &'static str)
    ensures
        r == filter_glyph(filter),
{
    match filter {
        StatusFilter::All => ALL,
        StatusFilter::Running => RUNNING,
        StatusFilter::Background => BACKGROUND,
        StatusFilter::Waiting => WAITING,
        StatusFilter::Idle => IDLE,
        StatusFilter::Error => ERROR,
    }
}

pub fn status_icon(class: StatusClass) -> (r: &'static str)
    ensures
        r == status_glyph(class),
{
    match class {
        StatusClass::Problem => ERROR,
        StatusClass::Attention => WAITING,
        StatusClass::Waiting => WAITING,
        StatusClass::Running => RUNNING,
        StatusClass::Success => BACKGROUND,
        StatusClass::Inactive => IDLE,
    }
}

} // verus!
