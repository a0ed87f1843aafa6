//! The status palette, as 256-colour indices.
//!
//! Shared job statuses: five hues a person can name (red problem, orange
//! attention, blue running, violet monitor, green success) plus gray idle.
//! Waiting shares attention, so "needs a look" is one colour. Chrome
//! (borders, text, git, selection) stays on a muted gray scale.
use vstd::prelude::*;

use crate::filter::StatusFilter;
use crate::status::StatusClass;

verus! {

/// Problem: red.
pub const PROBLEM: u8 = 196;
/// Attention (and waiting): orange.
pub const ATTENTION: u8 = 214;
/// Waiting shares attention.
pub const WAITING: u8 = 214;
/// Running: blue.
pub const RUNNING: u8 = 33;
/// Monitor: violet.
pub const MONITOR: u8 = 171;
/// Success: green.
pub const SUCCESS: u8 = 41;
/// Inactive, idle: chrome gray.
pub const IDLE: u8 = 245;
/// Filter and error paths.
pub const ERROR: u8 = 196;
/// The all-jobs filter chip.
pub const ALL: u8 = 255;

pub const FILTER_INACTIVE: u8 = 245;
pub const BORDER: u8 = 240;
pub const ACCENT: u8 = 153;
pub const SELECTION: u8 = 239;
pub const TEXT_ACTIVE: u8 = 255;
pub const TEXT_MUTED: u8 = 252;
pub const TEXT_INACTIVE: u8 = 244;
pub const ACTIVITY_TS: u8 = 109;
pub const BRANCH: u8 = 109;

/// The colour of a filter chip.
pub open spec fn filter_color(filter: StatusFilter) -> u8 {
    match filter {
        StatusFilter::All => ALL,
        StatusFilter::Running => RUNNING,
        StatusFilter::Background => MONITOR,
        StatusFilter::Waiting => WAITING,
        StatusFilter::Idle => IDLE,
        StatusFilter::Error => PROBLEM,
    }
}

/// The colour a job of `class` is painted in.
pub open spec fn class_color(class: StatusClass) -> u8 {
    match class {
        StatusClass::Problem => PROBLEM,
        StatusClass::Attention => ATTENTION,
        StatusClass::Waiting => WAITING,
        StatusClass::Running => RUNNING,
        StatusClass::Success => SUCCESS,
        StatusClass::Inactive => IDLE,
    }
}

pub fn status_filter_color(filter: StatusFilter) -> (c: u8)
    ensures
        c == filter_color(filter),
{
    match filter {
        StatusFilter::All => ALL,
        StatusFilter::Running => RUNNING,
        StatusFilter::Background => MONITOR,
        StatusFilter::Waiting => WAITING,
        StatusFilter::Idle => IDLE,
        StatusFilter::Error => PROBLEM,
    }
}

pub fn status_color(class: StatusClass) -> (c: u8)
    ensures
        c == class_color(class),
{
    match class {
        StatusClass::Problem => PROBLEM,
        StatusClass::Attention => ATTENTION,
        StatusClass::Waiting => WAITING,
        StatusClass::Running => RUNNING,
        StatusClass::Success => SUCCESS,
        StatusClass::Inactive => IDLE,
    }
}

} // verus!
