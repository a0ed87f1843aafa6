use time::format_description::well_known::Rfc3339;
use time::OffsetDateTime;

use nerve_tmux_surface::filter::StatusFilter;
use nerve_tmux_surface::frame::{Attention, AttentionLevel, Current, JobView};
use nerve_tmux_surface::preview::PanePreview;
use nerve_tmux_surface::state::{
    is_ide_deep_link, job_running_as, path_from_focus_hint, workspace_path_from_url,
    wrapped_lines, AppState, BottomTab, JobsSnapshot,
};
use nerve_tmux_surface::tmux::{Tmux, TmuxError, TmuxRunner};

/// A tmux that is never there: the detached preview never asks it anything.
struct NoTmux;

impl TmuxRunner for NoTmux {
    fn run(&mut self, _args: &[&str]) -> Result<String, TmuxError> {
        Err(TmuxError::Unavailable("no tmux in this test".to_string()))
    }
}

fn instant(text: &str) -> i128 {
    OffsetDateTime::parse(text, &Rfc3339).expect("a valid RFC 3339 instant").unix_timestamp_nanos()
}

fn now() -> i128 {
    instant("2026-08-23T12:00:00Z")
}

fn state_with(jobs: Vec<JobView>) -> AppState<NoTmux> {
    let mut state = AppState::new(PanePreview::detached(Tmux::new(NoTmux)), 8, now());
    state.set_viewport(30, 24);
    state.refresh_from_hub(Some(JobsSnapshot { jobs, offline: false }), now());
    state
}

/// Re-publish the hub's list, in the order the hub would send it.
fn arrive(state: &mut AppState<NoTmux>, jobs: Vec<JobView>) {
    state.refresh_from_hub(Some(JobsSnapshot { jobs, offline: false }), now());
}

fn selected(state: &AppState<NoTmux>) -> Option<&str> {
    state.selected_job().map(|job| job.id.as_str())
}

fn job(id: &str, updated: &str) -> JobView {
    let mut job = JobView::new(id);
    job.name = id.to_string();
    job.updated_at = Some(instant(updated));
    job
}

fn on(id: &str, alias: &str) -> JobView {
    let mut job = JobView::new(id);
    job.name = id.to_string();
    job.alias = alias.to_string();
    job
}

fn prompted(id: &str, prompt: Option<&str>) -> JobView {
    let mut job = JobView::new(id);
    job.extensions.last_prompt = prompt.map(|p| p.to_string());
    job
}

#[test]
fn parses_file_uri() {
    assert_eq!(
        workspace_path_from_url("file:///Users/me/proj"),
        Some("/Users/me/proj".to_string())
    );
}

#[test]
fn parses_cursor_deep_link() {
    assert_eq!(
        workspace_path_from_url("cursor://file/Users/me/proj"),
        Some("/Users/me/proj".to_string())
    );
}

#[test]
fn parses_vscode_deep_link() {
    assert_eq!(
        workspace_path_from_url("vscode://file/tmp/work"),
        Some("/tmp/work".to_string())
    );
}

#[test]
fn ide_deep_link_is_not_file_uri() {
    assert!(is_ide_deep_link("cursor://file/Users/me"));
    assert!(!is_ide_deep_link("file:///Users/me"));
}

#[test]
fn parses_percent_encoded_file_uri() {
    assert_eq!(
        workspace_path_from_url("file:///Users/me/proj%20foo"),
        Some("/Users/me/proj foo".to_string())
    );
}

#[test]
fn percent_escapes_spell_one_character_together() {
    assert_eq!(
        workspace_path_from_url("file:///Users/me/%E9%A1%B9%E7%9B%AE"),
        Some("/Users/me/项目".to_string())
    );
}

#[test]
fn a_literal_percent_survives_decoding() {
    assert_eq!(
        workspace_path_from_url("file:///tmp/100%/done"),
        Some("/tmp/100%/done".to_string())
    );
}

#[test]
fn path_from_focus_hint_breadcrumb() {
    assert_eq!(
        path_from_focus_hint(Some("Agent · nerve · iTerm · /Users/me/nerve")),
        Some("/Users/me/nerve".to_string())
    );
}

#[test]
fn wrapped_lines_counts_rows_not_characters() {
    assert_eq!(wrapped_lines("", 20), 1);
    assert_eq!(wrapped_lines("short", 20), 1);
    assert_eq!(wrapped_lines(&"x".repeat(41), 20), 3);
    assert_eq!(wrapped_lines("one\ntwo", 20), 2);
}

#[test]
fn sections_group_by_machine_and_order_within_each() {
    let mut b_old = on("b-old", "Beta");
    b_old.created_at = Some(instant("2026-07-19T08:00:00Z"));
    let mut a_stale = on("a-stale", "alpha");
    a_stale.updated_at = Some(instant("2020-01-01T00:00:00Z"));
    let mut a_new = on("a-new", "alpha");
    a_new.created_at = Some(instant("2026-07-19T09:00:00Z"));
    let mut a_old = on("a-old", "alpha");
    a_old.created_at = Some(instant("2026-07-19T08:00:00Z"));
    let mut b_loud = on("b-loud", "Beta");
    b_loud.attention = Attention { level: AttentionLevel::Required, reason: None, title: None };
    b_loud.created_at = Some(instant("2020-01-01T00:00:00Z"));
    let state = state_with(vec![b_old, a_stale, a_new, a_old, b_loud]);

    let shape: Vec<(&str, Vec<&str>)> = state
        .sections()
        .iter()
        .map(|section| {
            (
                section.title.as_str(),
                section
                    .jobs
                    .iter()
                    .map(|index| state.job_at(*index).expect("job in section").id.as_str())
                    .collect(),
            )
        })
        .collect();

    assert_eq!(
        shape,
        vec![("alpha", vec!["a-new", "a-old", "a-stale"]), ("Beta", vec!["b-loud", "b-old"])]
    );
}

#[test]
fn panel_shows_what_the_human_asked_for() {
    let mut job = prompted("agent-cli:s1", Some("fix the sidebar preview"));
    job.name = "nerve".to_string();
    job.current = Some(Current {
        kind: "tool".to_string(),
        name: None,
        summary: Some("Using Bash".to_string()),
        detail: None,
    });
    let state = state_with(vec![job]);
    assert_eq!(state.prompt_text(), Some("fix the sidebar preview"));
}

#[test]
fn a_job_without_a_prompt_shows_none_rather_than_its_activity() {
    let mut job = prompted("codex:s1", None);
    job.name = "index".to_string();
    job.current = Some(Current {
        kind: "tool".to_string(),
        name: None,
        summary: Some("Using Bash".to_string()),
        detail: None,
    });
    let state = state_with(vec![job]);
    assert_eq!(state.prompt_text(), None);
}

#[test]
fn blank_prompts_are_not_prompts() {
    let state = state_with(vec![prompted("agent-cli:s1", Some("   "))]);
    assert_eq!(state.prompt_text(), None);
}

#[test]
fn collapsing_leaves_the_title_line_and_gives_the_rest_to_the_list() {
    let mut state = state_with(vec![]);
    assert_eq!(state.bottom_rows(24), 8);
    state.toggle_bottom_collapsed();
    assert_eq!(state.bottom_rows(24), 1);
    state.toggle_bottom_collapsed();
    assert_eq!(state.bottom_rows(24), 8);
}

#[test]
fn a_short_pane_never_gives_the_panel_more_than_it_has() {
    let state = state_with(vec![]);
    assert_eq!(state.bottom_rows(10), 6);
}

#[test]
fn scrolling_stops_at_the_end_of_the_content() {
    let mut state = state_with(vec![prompted("agent-cli:s1", Some("short"))]);
    state.scroll_bottom(20);
    assert_eq!(state.bottom_scroll, 0);
    state.scroll_bottom(-20);
    assert_eq!(state.bottom_scroll, 0);
}

#[test]
fn a_long_prompt_scrolls_by_its_wrapped_height() {
    let prompt = "x".repeat(300);
    let mut state = state_with(vec![prompted("agent-cli:s1", Some(&prompt))]);
    // 300 columns of text in a 30-column pane is 10 rows; 7 of them show.
    state.scroll_bottom(20);
    assert_eq!(state.bottom_scroll, 3);
}

#[test]
fn the_cursor_finds_the_job_running_on_a_pane() {
    let mut first = JobView::new("agent-cli:s1");
    first.extensions.pid = Some(4242);
    let mut second = JobView::new("codex:s2");
    second.extensions.pid = Some(77);
    let jobs = vec![first, second, JobView::new("agent-cli:s3")];

    assert_eq!(job_running_as(&jobs, &[900, 77, 1201]), Some("codex:s2".to_string()));
    assert_eq!(job_running_as(&jobs, &[900, 1201]), None);
    assert_eq!(job_running_as(&jobs, &[]), None);
}

#[test]
fn a_job_arriving_does_not_slide_another_job_under_the_cursor() {
    let mut state = state_with(vec![
        job("older", "2026-08-23T09:00:00Z"),
        job("newer", "2026-08-23T10:00:00Z"),
    ]);
    state.move_selection(1);
    assert_eq!(selected(&state), Some("older"));

    arrive(
        &mut state,
        vec![
            job("older", "2026-08-23T10:30:00Z"),
            job("newer", "2026-08-23T10:00:00Z"),
            job("arrived", "2026-08-23T11:00:00Z"),
        ],
    );
    assert_eq!(selected(&state), Some("older"));
}

#[test]
fn a_job_that_leaves_hands_the_cursor_to_the_row_it_held() {
    let mut state = state_with(vec![
        job("first", "2026-08-23T11:00:00Z"),
        job("second", "2026-08-23T10:00:00Z"),
        job("third", "2026-08-23T09:00:00Z"),
    ]);
    state.move_selection(1);
    assert_eq!(selected(&state), Some("second"));

    arrive(
        &mut state,
        vec![job("first", "2026-08-23T11:00:00Z"), job("third", "2026-08-23T09:00:00Z")],
    );
    assert_eq!(selected(&state), Some("third"));
}

#[test]
fn the_cursor_survives_a_filter_that_still_shows_its_job() {
    let mut state = state_with(vec![
        job("first", "2026-08-23T11:00:00Z"),
        job("second", "2026-08-23T10:00:00Z"),
    ]);
    state.move_selection(1);
    assert_eq!(selected(&state), Some("second"));

    state.set_filter(StatusFilter::All);
    assert_eq!(selected(&state), Some("second"));
}

#[test]
fn a_filter_that_hides_the_cursor_job_drops_it_to_the_top() {
    let mut failed = job("failed", "2026-08-23T09:00:00Z");
    failed.outcome = Some(nerve_tmux_surface::frame::Outcome::Failure);
    let mut state = state_with(vec![job("running", "2026-08-23T11:00:00Z"), failed]);
    state.move_selection(-5);
    assert_eq!(selected(&state), Some("failed"));

    state.set_filter(StatusFilter::Running);
    assert_eq!(selected(&state), Some("running"));
    assert_eq!(state.visible_len(), 1);
}

#[test]
fn header_rows_hold_no_job() {
    let state = state_with(vec![on("a", "alpha"), on("b", "alpha"), on("c", "beta")]);
    assert_eq!(state.global_index_at_list_row(0), None);
    assert_eq!(state.global_index_at_list_row(1), Some(0));
    assert_eq!(state.global_index_at_list_row(2), Some(1));
    assert_eq!(state.global_index_at_list_row(3), None);
    assert_eq!(state.global_index_at_list_row(4), Some(2));
    assert_eq!(state.global_index_at_list_row(5), None);
}

#[test]
fn a_job_without_an_alias_is_listed_under_unknown() {
    let state = state_with(vec![on("a", "  ")]);
    assert_eq!(state.sections()[0].title, "unknown");
}

#[test]
fn the_git_panel_is_due_when_shown_and_stale() {
    let mut state = state_with(vec![]);
    assert_eq!(state.git_refresh_due(10_000), None);
    state.set_bottom_tab(BottomTab::Git);
    assert_eq!(state.git_refresh_due(10_000), Some(".".to_string()));
    state.refresh_git(Default::default(), 10_000);
    assert_eq!(state.git_refresh_due(11_000), None);
    assert_eq!(state.git_refresh_due(12_000), Some(".".to_string()));
}

#[test]
fn following_a_pane_moves_the_cursor_to_its_job() {
    let mut first = job("first", "2026-08-23T11:00:00Z");
    first.extensions.pid = Some(10);
    let mut second = job("second", "2026-08-23T10:00:00Z");
    second.extensions.pid = Some(20);
    let mut state = state_with(vec![first, second]);
    assert_eq!(selected(&state), Some("first"));

    assert!(state.follow_focused_pane(&[1, 20]));
    assert_eq!(selected(&state), Some("second"));
    assert!(!state.follow_focused_pane(&[20]));
    assert!(!state.follow_focused_pane(&[99]));
}
