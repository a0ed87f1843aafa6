use time::format_description::well_known::Rfc3339;
use time::OffsetDateTime;

use nerve_tmux_surface::frame::{Attention, AttentionLevel, Current, JobView, Outcome};
use nerve_tmux_surface::popup::{PopupRenderer, EMPTY};

/// Unix nanoseconds of an RFC 3339 instant.
fn instant(text: &str) -> i128 {
    OffsetDateTime::parse(text, &Rfc3339)
        .expect("a valid RFC 3339 instant")
        .unix_timestamp_nanos()
}

/// Five minutes after the demo rows last updated.
fn now() -> i128 {
    instant("2026-07-19T08:15:00Z")
}

fn render(jobs: &[JobView]) -> String {
    PopupRenderer::at(now()).render(jobs)
}

fn named(id: &str, name: &str) -> JobView {
    let mut job = JobView::new(id);
    job.name = name.to_string();
    job
}

fn current(kind: &str, summary: Option<&str>) -> Option<Current> {
    Some(Current {
        kind: kind.to_string(),
        name: None,
        summary: summary.map(|s| s.to_string()),
        detail: None,
    })
}

/// A row with a fixed session name and no activity, so age assertions can be golden.
fn aged(updated_at: &str) -> String {
    let mut job = named("demo:j", "j");
    job.updated_at = Some(instant(updated_at));
    render(&[job])
}

/// The two rows of the demo snapshot: both running, both last heard from at
/// 08:10.
fn demo_jobs() -> Vec<JobView> {
    let mut nerve = named("agent:demo", "nerve");
    nerve.current = current("editing", Some("Writing continuous ribbon view"));
    nerve.updated_at = Some(instant("2026-07-19T08:10:00Z"));
    let mut build = named("xcode:demo", "xcodebuild Nerve");
    build.current = current("building", Some("Compiling 42 files"));
    build.updated_at = Some(instant("2026-07-19T08:10:00Z"));
    vec![nerve, build]
}

#[test]
fn test_the_demo_fixture_renders_the_golden_popup() {
    let rendered = render(&demo_jobs());

    assert_eq!(
        rendered,
        "● nerve             Writing continuous ribbon view 5m\n\
         ● xcodebuild Nerve  Compiling 42 files             5m\n"
    );
}

#[test]
fn test_columns_line_up_across_rows() {
    let rendered = render(&demo_jobs());

    let starts: Vec<usize> = rendered
        .lines()
        .map(|line| {
            line.find("Writing")
                .or_else(|| line.find("Compiling"))
                .expect("every row shows its activity")
        })
        .collect();
    assert_eq!(starts, vec![22, 22]);
}

#[test]
fn test_a_row_shows_icon_name_activity_and_age() {
    let mut job = named("agent:s1", "nerve");
    job.current = current("idle", None);
    job.attention = Attention {
        level: AttentionLevel::Required,
        reason: Some("input".to_string()),
        title: None,
    };
    job.updated_at = Some(instant("2026-07-19T08:14:30Z"));

    assert_eq!(render(&[job]), "◐ nerve  - 30s\n");
}

#[test]
fn test_a_row_shows_the_session_name() {
    let mut job = named("xcode:build", "Nerve");
    job.updated_at = Some(instant("2026-07-19T08:14:00Z"));

    assert_eq!(render(&[job]), "● Nerve  - 1m\n");
}

#[test]
fn test_an_anonymous_row_still_renders_every_column() {
    assert_eq!(render(&[JobView::new("orphan")]), "● -  - -\n");
}

#[test]
fn test_attention_without_a_title_leaves_activity_blank() {
    let mut job = named("demo:j", "j");
    job.attention = Attention { level: AttentionLevel::Urgent, reason: None, title: None };
    job.updated_at = Some(instant("2026-07-19T08:15:00Z"));

    assert_eq!(render(&[job]), "◐ j  - 0s\n");
}

#[test]
fn test_an_age_under_a_minute_is_seconds() {
    assert_eq!(aged("2026-07-19T08:15:00Z"), "● j  - 0s\n");
    assert_eq!(aged("2026-07-19T08:14:01Z"), "● j  - 59s\n");
}

#[test]
fn test_a_full_minute_becomes_minutes() {
    assert_eq!(aged("2026-07-19T08:14:00Z"), "● j  - 1m\n");
    assert_eq!(aged("2026-07-19T07:16:00Z"), "● j  - 59m\n");
}

#[test]
fn test_a_full_hour_becomes_hours() {
    assert_eq!(aged("2026-07-19T07:15:00Z"), "● j  - 1h\n");
    assert_eq!(aged("2026-07-18T09:15:00Z"), "● j  - 23h\n");
}

#[test]
fn test_a_full_day_becomes_days() {
    assert_eq!(aged("2026-07-18T08:15:00Z"), "● j  - 1d\n");
    assert_eq!(aged("2026-07-09T08:15:00Z"), "● j  - 10d\n");
}

#[test]
fn test_a_future_timestamp_reads_as_zero_seconds() {
    assert_eq!(aged("2026-07-19T08:20:00Z"), "● j  - 0s\n");
}

#[test]
fn test_a_job_without_an_updated_at_has_no_age() {
    assert_eq!(render(&[named("demo:j", "j")]), "● j  - -\n");
}

#[test]
fn test_an_empty_job_list_says_so() {
    assert_eq!(render(&[]), format!("{EMPTY}\n"));
}

#[test]
fn test_the_empty_text_is_the_literal_the_docs_publish() {
    assert_eq!(EMPTY, "nerve: no jobs");
}

#[test]
fn test_rows_keep_the_order_they_were_given() {
    let b = named("b", "b");
    let mut a = named("a", "a");
    a.outcome = Some(Outcome::Failure);

    let rendered = render(&[b, a]);

    let names: Vec<&str> = rendered
        .lines()
        .map(|line| line.split_whitespace().nth(1).expect("every row has a name"))
        .collect();
    assert_eq!(names, vec!["b", "a"]);
    assert!(rendered.starts_with("● b"));
    assert!(rendered.contains("✕ a"));
}

#[test]
fn test_a_hash_in_a_job_name_is_not_escaped() {
    let mut job = named("demo:j", "fix #42");
    job.updated_at = Some(instant("2026-07-19T08:10:00Z"));

    assert_eq!(render(&[job]), "● fix #42  - 5m\n");
}

#[test]
fn test_a_quiet_job_shows_its_current_summary_not_a_stray_title() {
    let mut job = named("agent:running", "hub");
    job.current = current("thinking", Some("build failed!!"));
    job.attention = Attention {
        level: AttentionLevel::Quiet,
        reason: None,
        title: Some("ignored".to_string()),
    };

    assert_eq!(render(&[job]), "● hub  build failed!! -\n");
}

#[test]
fn test_an_attention_title_replaces_the_summary() {
    let mut job = named("agent:ask", "index-page");
    job.current = current("idle", Some("Ready"));
    job.attention = Attention {
        level: AttentionLevel::Required,
        reason: Some("input".to_string()),
        title: Some("Your turn".to_string()),
    };

    assert_eq!(render(&[job]), "◐ index-page  Your turn -\n");
}

#[test]
fn test_an_age_far_in_the_past_is_counted_in_days() {
    let mut job = named("demo:j", "j");
    job.updated_at = Some(i128::MIN);
    let rendered = PopupRenderer::at(i128::MAX).render(&[job]);

    assert_eq!(rendered, "● j  - 3938453320844195178974243d\n");
}
