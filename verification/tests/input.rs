use nerve_tmux_surface::filter::StatusFilter;
use nerve_tmux_surface::frame::JobView;
use nerve_tmux_surface::input::{
    command_for, handle_key, handle_mouse, Click, Command, Key, Mouse, Outcome,
};
use nerve_tmux_surface::preview::PanePreview;
use nerve_tmux_surface::state::{AppState, JobsSnapshot};
use nerve_tmux_surface::tmux::{Tmux, TmuxError, TmuxRunner};

struct NoTmux;

impl TmuxRunner for NoTmux {
    fn run(&mut self, _args: &[&str]) -> Result<String, TmuxError> {
        Err(TmuxError::Unavailable("no tmux in this test".to_string()))
    }
}

fn job(id: &str, updated: i128) -> JobView {
    let mut job = JobView::new(id);
    job.alias = "mac".to_string();
    job.updated_at = Some(updated);
    job
}

fn state() -> AppState<NoTmux> {
    let mut state = AppState::new(PanePreview::detached(Tmux::new(NoTmux)), 8, 100);
    let jobs = vec![job("newest", 90), job("middle", 50), job("oldest", 10)];
    state.refresh_from_hub(Some(JobsSnapshot { jobs, offline: false }), 100);
    state.set_viewport(30, 24);
    state
}

fn selected(state: &AppState<NoTmux>) -> Option<String> {
    state.selected_job().map(|job| job.id.clone())
}

#[test]
fn keys_map_to_commands() {
    assert_eq!(command_for(Key::Char('j'), false, 8), Command::Move(1));
    assert_eq!(command_for(Key::Up, false, 8), Command::Move(-1));
    assert_eq!(command_for(Key::Char('d'), true, 8), Command::Scroll(3));
    assert_eq!(command_for(Key::Char('u'), true, 8), Command::Scroll(-3));
    assert_eq!(command_for(Key::Char('d'), false, 8), Command::Nothing);
    assert_eq!(command_for(Key::PageDown, false, 8), Command::Scroll(7));
    assert_eq!(command_for(Key::PageUp, false, 0), Command::Scroll(-1));
    assert_eq!(command_for(Key::Tab, false, 8), Command::FilterNext);
    assert_eq!(command_for(Key::Char('h'), false, 8), Command::FilterPrev);
    assert_eq!(command_for(Key::BackTab, false, 8), Command::ToggleTab);
    assert_eq!(command_for(Key::Char(' '), false, 8), Command::ToggleCollapsed);
    assert_eq!(command_for(Key::Esc, false, 8), Command::Unfocus);
    assert_eq!(command_for(Key::Char('q'), false, 8), Command::Unfocus);
    assert_eq!(command_for(Key::Enter, false, 8), Command::Jump);
    assert_eq!(command_for(Key::Char('\r'), false, 8), Command::Jump);
}

#[test]
fn j_and_k_stop_at_the_ends_of_the_list() {
    let mut state = state();
    assert_eq!(selected(&state), Some("newest".to_string()));
    assert_eq!(handle_key(&mut state, Key::Char('k'), false), Outcome::Stay);
    assert_eq!(selected(&state), Some("newest".to_string()));
    for _ in 0..5 {
        handle_key(&mut state, Key::Char('j'), false);
    }
    assert_eq!(selected(&state), Some("oldest".to_string()));
}

#[test]
fn enter_jumps_only_with_a_selection() {
    let mut state = state();
    assert_eq!(handle_key(&mut state, Key::Enter, false), Outcome::Jump);
    let mut empty = AppState::new(PanePreview::detached(Tmux::new(NoTmux)), 8, 0);
    assert_eq!(handle_key(&mut empty, Key::Enter, false), Outcome::Stay);
    assert_eq!(handle_key(&mut empty, Key::Esc, false), Outcome::Unfocus);
}

#[test]
fn the_filter_cycles_both_ways() {
    let mut state = state();
    handle_key(&mut state, Key::Right, false);
    assert_eq!(state.status_filter(), StatusFilter::Running);
    handle_key(&mut state, Key::Left, false);
    handle_key(&mut state, Key::Left, false);
    assert_eq!(state.status_filter(), StatusFilter::Error);
}

#[test]
fn a_click_selects_a_row_and_a_second_one_opens_it() {
    let mut state = state();
    let mut last: Option<Click> = None;
    // Row 0 is the filter bar, row 1 the section title, rows 2.. the jobs.
    assert_eq!(handle_mouse(&mut state, Mouse::LeftDown, 3, 24, 1_000, &mut last), Outcome::Stay);
    assert_eq!(selected(&state), Some("middle".to_string()));
    assert_eq!(last, Some(Click { row: 1, at_ms: 1_000 }));
    assert_eq!(handle_mouse(&mut state, Mouse::LeftDown, 3, 24, 1_300, &mut last), Outcome::Jump);
    assert_eq!(handle_mouse(&mut state, Mouse::LeftDown, 3, 24, 2_000, &mut last), Outcome::Stay);
}

#[test]
fn clicks_on_the_bar_the_title_and_the_panel() {
    let mut state = state();
    let mut last: Option<Click> = None;
    handle_mouse(&mut state, Mouse::LeftDown, 0, 24, 0, &mut last);
    assert_eq!(state.status_filter(), StatusFilter::Running);
    // A 24-row pane with an 8-row panel: the panel's title is row 16.
    handle_mouse(&mut state, Mouse::LeftDown, 16, 24, 0, &mut last);
    assert!(state.bottom_collapsed);
    // A header row holds no job, and the panel body below its title is inert.
    state.set_filter(StatusFilter::All);
    let before = selected(&state);
    handle_mouse(&mut state, Mouse::LeftDown, 1, 24, 0, &mut last);
    assert_eq!(selected(&state), before);
    assert_eq!(last, None);
}

#[test]
fn the_wheel_walks_the_list_or_scrolls_the_panel() {
    let mut state = state();
    let mut last: Option<Click> = None;
    handle_mouse(&mut state, Mouse::ScrollDown, 3, 24, 0, &mut last);
    assert_eq!(selected(&state), Some("middle".to_string()));
    handle_mouse(&mut state, Mouse::ScrollDown, 20, 24, 0, &mut last);
    assert_eq!(selected(&state), Some("middle".to_string()));
    assert_eq!(state.bottom_scroll, 0);
}

#[test]
fn paging_the_panel_never_takes_the_selection_and_backtab_switches_the_tab() {
    let mut state = state();
    handle_key(&mut state, Key::Char('j'), false);
    let tab = state.bottom_tab;
    assert_eq!(handle_key(&mut state, Key::PageDown, false), Outcome::Stay);
    assert_eq!(selected(&state), Some("middle".to_string()));
    assert_eq!(handle_key(&mut state, Key::PageUp, false), Outcome::Stay);
    assert_eq!(state.bottom_scroll, 0);
    assert_eq!(selected(&state), Some("middle".to_string()));
    handle_key(&mut state, Key::BackTab, false);
    assert_ne!(state.bottom_tab, tab);
    handle_key(&mut state, Key::BackTab, false);
    assert_eq!(state.bottom_tab, tab);
}
