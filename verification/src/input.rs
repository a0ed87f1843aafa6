//! What a key or a click does to the sidebar.
//!
//! The cursor lives in the job list and nowhere else. The detail panel below
//! is a view of the selected job, not a second place to stand: it scrolls
//! (`Ctrl-d`/`Ctrl-u`, `PageDown`/`PageUp`, the wheel over it) and folds
//! (`Space`, a click on its title row), but never takes the selection.
use vstd::prelude::*;

use crate::filter::{filter_at, filter_index, StatusFilter};
use crate::state::{AppState, BottomTab};
use crate::tmux::TmuxRunner;

verus! {

/// The filter bar's row.
pub const FILTER_ROW: u16 = 0;

/// Two clicks on one row this close together, in milliseconds, open it.
pub const DOUBLE_CLICK_MS: u64 = 400;

/// Rows the detail panel scrolls per wheel notch.
pub const WHEEL_LINES: i32 = 2;

/// A key, as the sidebar tells keys apart.
#[derive(Clone, Copy, Debug, PartialEq, Eq, Structural)]
pub enum Key {
    Esc,
    Char(char),
    Down,
    Up,
    Left,
    Right,
    PageDown,
    PageUp,
    Tab,
    BackTab,
    Enter,
    Other,
}

/// What a key asks of the sidebar.
#[derive(Clone, Copy, Debug, PartialEq, Eq, Structural)]
pub enum Command {
    /// Hand the keyboard back to the pane the human came from.
    Unfocus,
    /// Scroll the detail panel by this many rows.
    Scroll(i32),
    /// Move the cursor by this many rows.
    Move(isize),
    /// The filter to the left.
    FilterPrev,
    /// The filter to the right.
    FilterNext,
    ToggleTab,
    ToggleCollapsed,
    /// Go to the selected job.
    Jump,
    Nothing,
}

/// What `key` asks for, `ctrl` held or not, with a panel `height` rows tall:
/// half a page is half of the rows under the panel's title, at least one.
pub open spec fn key_command(key: Key, ctrl: bool, height: u16) -> Command {
    let page: int = if height >= 2 { height - 1 } else { 1 };
    match key {
        Key::Esc => Command::Unfocus,
        Key::Char(c) => if c == 'q' {
            Command::Unfocus
        } else if c == 'd' && ctrl {
            Command::Scroll((page / 2) as i32)
        } else if c == 'u' && ctrl {
            Command::Scroll((-(page / 2)) as i32)
        } else if c == 'j' {
            Command::Move(1isize)
        } else if c == 'k' {
            Command::Move(-1isize)
        } else if c == 'h' {
            Command::FilterPrev
        } else if c == 'l' {
            Command::FilterNext
        } else if c == ' ' {
            Command::ToggleCollapsed
        } else if c == '\n' || c == '\r' {
            Command::Jump
        } else {
            Command::Nothing
        },
        Key::Down => Command::Move(1isize),
        Key::Up => Command::Move(-1isize),
        Key::Left => Command::FilterPrev,
        Key::Right => Command::FilterNext,
        Key::PageDown => Command::Scroll(page as i32),
        Key::PageUp => Command::Scroll((-page) as i32),
        Key::Tab => Command::FilterNext,
        Key::BackTab => Command::ToggleTab,
        Key::Enter => Command::Jump,
        Key::Other => Command::Nothing,
    }
}

pub fn command_for(key: Key, ctrl: bool, height: u16) -> (c: Command)
    ensures
        c == key_command(key, ctrl, height),
{
    let page: i32 = if height >= 2 {
        (height - 1) as i32
    } else {
        1
    };
    match key {
        Key::Esc => Command::Unfocus,
        Key::Char(c) => if c == 'q' {
            Command::Unfocus
        } else if c == 'd' && ctrl {
            Command::Scroll(page / 2)
        } else if c == 'u' && ctrl {
            Command::Scroll(-(page / 2))
        } else if c == 'j' {
            Command::Move(1)
        } else if c == 'k' {
            Command::Move(-1)
        } else if c == 'h' {
            Command::FilterPrev
        } else if c == 'l' {
            Command::FilterNext
        } else if c == ' ' {
            Command::ToggleCollapsed
        } else if c == '\n' || c == '\r' {
            Command::Jump
        } else {
            Command::Nothing
        },
        Key::Down => Command::Move(1),
        Key::Up => Command::Move(-1),
        Key::Left => Command::FilterPrev,
        Key::Right => Command::FilterNext,
        Key::PageDown => Command::Scroll(page),
        Key::PageUp => Command::Scroll(-page),
        Key::Tab => Command::FilterNext,
        Key::BackTab => Command::ToggleTab,
        Key::Enter => Command::Jump,
        Key::Other => Command::Nothing,
    }
}

/// What the caller does after a key or a click: nothing more, hand the
/// keyboard back, or go to the selected job.
#[derive(Clone, Copy, Debug, PartialEq, Eq, Structural)]
pub enum Outcome {
    Stay,
    Unfocus,
    Jump,
}

/// `row` kept within the rows `0..=last`.
pub open spec fn clamp_row(row: int, last: int) -> int {
    if row < 0 {
        0
    } else if row > last {
        last
    } else {
        row
    }
}

/// The cursor of `before` moved by `delta` rows, stopping at the ends of
/// the list, is where `after` rests; the list and the panel settings stay,
/// and a move in a non-empty list starts the panel at its top.
pub open spec fn moved<R: TmuxRunner>(before: AppState<R>, after: AppState<R>, delta: int) -> bool {
    &&& after.same_list(&before)
    &&& after.same_panel(&before)
    &&& if before.visible_view().len() == 0 {
        after.rests_at(0) && after.scroll() == before.scroll() && after.git_path() == before.git_path()
    } else {
        &&& after.rests_at(clamp_row(before.cursor() + delta, before.visible_view().len() - 1))
        &&& after.scroll() == 0
        &&& after.git_path().is_none()
    }
}

/// The panel of `before` scrolled by `delta` rows, kept between its top
/// and its last page, is that of `after`; nothing else moves, the selection
/// least of all.
pub open spec fn scrolled<R: TmuxRunner>(before: AppState<R>, after: AppState<R>, delta: int) -> bool {
    &&& after.same_list(&before)
    &&& after.same_panel(&before)
    &&& after.cursor() == before.cursor()
    &&& after.anchor() == before.anchor()
    &&& after.git_path() == before.git_path()
    &&& after.scroll() == clamp_row(before.scroll() + delta, before.max_scroll() as int)
}

/// `after` is `before` with its filter set to `filter`: the list is
/// re-derived at the instant of `before`, the cursor follows the job it was
/// on or goes to the top, and the panel keeps its settings and its scroll.
pub open spec fn refiltered<R: TmuxRunner>(before: AppState<R>, after: AppState<R>, filter: StatusFilter) -> bool {
    &&& after.filter() == filter
    &&& after.jobs_view() == before.jobs_view()
    &&& after.sorted_at() == before.instant()
    &&& after.same_panel(&before)
    &&& after.scroll() == before.scroll()
    &&& after.git_path().is_none()
    &&& after.visible_view().len() == 0 ==> after.rests_at(0)
    &&& after.visible_view().len() > 0 ==> after.rests_at(
        match before.anchor() {
            Some(id) => match crate::state::find_row(after.jobs_view(), after.visible_view(), id) {
                Some(t) => t,
                None => 0,
            },
            None => 0,
        },
    )
}

/// What `command` does to the sidebar's state, from `before` to `after`.
pub open spec fn applied<R: TmuxRunner>(before: AppState<R>, after: AppState<R>, command: Command) -> bool {
    match command {
        Command::Move(d) => moved(before, after, d as int),
        Command::Scroll(d) => scrolled(before, after, d as int),
        Command::FilterNext => refiltered(before, after, filter_at((filter_index(before.filter()) + 1) % 6)),
        Command::FilterPrev => refiltered(before, after, filter_at((filter_index(before.filter()) + 5) % 6)),
        Command::ToggleTab => {
            &&& after.same_list(&before)
            &&& after.tab() == (if before.tab() == BottomTab::Prompt {
                BottomTab::Git
            } else {
                BottomTab::Prompt
            })
            &&& after.scroll() == 0
        },
        Command::ToggleCollapsed => {
            &&& after.same_list(&before)
            &&& after.collapsed() == !before.collapsed()
            &&& after.scroll() == 0
            &&& after.tab() == before.tab()
            &&& after.panel_height() == before.panel_height()
            &&& after.cursor() == before.cursor()
            &&& after.anchor() == before.anchor()
        },
        Command::Unfocus => after == before,
        Command::Jump => after == before,
        Command::Nothing => after == before,
    }
}

/// What the caller is told to do after `command` on a state `before`.
pub open spec fn outcome_of<R: TmuxRunner>(before: AppState<R>, command: Command) -> Outcome {
    match command {
        Command::Unfocus => Outcome::Unfocus,
        Command::Jump => if before.selected_spec().is_some() {
            Outcome::Jump
        } else {
            Outcome::Stay
        },
        _ => Outcome::Stay,
    }
}

/// Carry out `command` on `state`: the state changes here, and what needs
/// the terminal or tmux is answered for the caller to do.
pub fn apply<R: TmuxRunner>(state: &mut AppState<R>, command: Command) -> (o: Outcome)
    requires
        old(state).wf(),
        command matches Command::Scroll(d) ==> old(state).scroll() + d <= i32::MAX,
    ensures
        final(state).wf(),
        o == outcome_of(*old(state), command),
        applied(*old(state), *final(state), command),
{
    match command {
        Command::Unfocus => Outcome::Unfocus,
        Command::Scroll(d) => {
            state.scroll_bottom(d);
            Outcome::Stay
        },
        Command::Move(d) => {
            state.move_selection(d);
            Outcome::Stay
        },
        Command::FilterPrev => {
            let f = state.status_filter().prev();
            state.set_filter(f);
            Outcome::Stay
        },
        Command::FilterNext => {
            let f = state.status_filter().next();
            state.set_filter(f);
            Outcome::Stay
        },
        Command::ToggleTab => {
            state.toggle_bottom_tab();
            Outcome::Stay
        },
        Command::ToggleCollapsed => {
            state.toggle_bottom_collapsed();
            Outcome::Stay
        },
        Command::Jump => if state.selected_job().is_some() {
            Outcome::Jump
        } else {
            Outcome::Stay
        },
        Command::Nothing => Outcome::Stay,
    }
}

/// A key pressed in the sidebar, `ctrl` held or not.
pub fn handle_key<R: TmuxRunner>(state: &mut AppState<R>, key: Key, ctrl: bool) -> (o: Outcome)
    requires
        old(state).wf(),
    ensures
        final(state).wf(),
        o == outcome_of(*old(state), key_command(key, ctrl, old(state).panel_height())),
        applied(*old(state), *final(state), key_command(key, ctrl, old(state).panel_height())),
{
    let height = state.panel_rows();
    let command = command_for(key, ctrl, height);
    apply(state, command)
}

/// A mouse event the sidebar acts on.
#[derive(Clone, Copy, Debug, PartialEq, Eq, Structural)]
pub enum Mouse {
    LeftDown,
    ScrollUp,
    ScrollDown,
    Other,
}

/// The last click on a job row: the flat row and when, in milliseconds.
#[derive(Clone, Copy, Debug, PartialEq, Eq, Structural)]
pub struct Click {
    pub row: usize,
    pub at_ms: u64,
}

/// Whether a click on flat row `row` at `now_ms` completes a double click.
pub open spec fn is_double(last: Option<Click>, row: usize, now_ms: u64) -> bool {
    match last {
        Some(c) => c.row == row && (now_ms < c.at_ms || now_ms - c.at_ms <= DOUBLE_CLICK_MS),
        None => false,
    }
}

/// The first row below the job list in a pane `height` rows tall: where the
/// panel's title sits.
pub open spec fn list_end<R: TmuxRunner>(state: &AppState<R>, height: u16) -> int {
    let panel = state.bottom_rows_spec(height);
    if height >= panel { height - panel } else { 0 }
}

/// A mouse event at pane row `row` in a pane `height` rows tall, at
/// `now_ms`. The wheel scrolls the panel it is over, and over the list walks
/// the selection. A click on the filter bar cycles the filter; on the panel's
/// title row it folds the panel; on a job row it selects it, and a second
/// click there soon after opens the job. The panel body is inert.
pub fn handle_mouse<R: TmuxRunner>(
    state: &mut AppState<R>,
    event: Mouse,
    row: u16,
    height: u16,
    now_ms: u64,
    last_click: &mut Option<Click>,
) -> (o: Outcome)
    requires
        old(state).wf(),
    ensures
        final(state).wf(),
        o is Stay || o is Jump,
        o is Jump ==> event is LeftDown && row != FILTER_ROW && row < list_end(old(state), height)
            && final(state).selected_spec().is_some(),
        event is Other ==> *final(state) == *old(state) && *final(last_click) == *old(last_click),
        event is ScrollDown && row >= list_end(old(state), height) ==> scrolled(*old(state), *final(state), WHEEL_LINES as int),
        event is ScrollUp && row >= list_end(old(state), height) ==> scrolled(*old(state), *final(state), -WHEEL_LINES),
        event is ScrollDown && row < list_end(old(state), height) ==> moved(*old(state), *final(state), 1),
        event is ScrollUp && row < list_end(old(state), height) ==> moved(*old(state), *final(state), -1),
        (event is ScrollDown || event is ScrollUp) ==> *final(last_click) == *old(last_click) && o is Stay,
        event is LeftDown && row == FILTER_ROW ==> final(state).filter() == filter_at(
            (filter_index(old(state).filter()) + 1) % 6,
        ),
        event is LeftDown && row != FILTER_ROW && row == list_end(old(state), height)
            ==> final(state).collapsed() == !old(state).collapsed(),
        event is LeftDown && row != FILTER_ROW && row < list_end(old(state), height) ==> {
            match crate::state::row_job(old(state).sections_view(), row - 1, 0) {
                Some(g) => {
                    &&& final(state).same_list(old(state))
                    &&& final(state).rests_at(g)
                    &&& *final(last_click) == Some(Click { row: g as usize, at_ms: now_ms })
                    &&& (o is Jump <==> is_double(*old(last_click), g as usize, now_ms))
                },
                None => *final(state) == *old(state) && o is Stay,
            }
        },
{
    if event == Mouse::Other {
        return Outcome::Stay;
    }
    let panel = state.bottom_rows(height);
    let end = height.saturating_sub(panel);
    let over_bottom = row >= end;
    match event {
        Mouse::ScrollDown => {
            if over_bottom {
                state.scroll_bottom(WHEEL_LINES);
            } else {
                state.move_selection(1);
            }
            Outcome::Stay
        },
        Mouse::ScrollUp => {
            if over_bottom {
                state.scroll_bottom(-WHEEL_LINES);
            } else {
                state.move_selection(-1);
            }
            Outcome::Stay
        },
        _ => click(state, row, end, now_ms, last_click),
    }
}

/// A click at pane row `row`, the panel's title being at row `end`.
fn click<R: TmuxRunner>(
    state: &mut AppState<R>,
    row: u16,
    end: u16,
    now_ms: u64,
    last_click: &mut Option<Click>,
) -> (o: Outcome)
    requires
        old(state).wf(),
    ensures
        final(state).wf(),
        o is Stay || o is Jump,
        o is Jump ==> row != FILTER_ROW && row < end && final(state).selected_spec().is_some(),
        row == FILTER_ROW ==> final(state).filter() == filter_at((filter_index(old(state).filter()) + 1) % 6),
        row != FILTER_ROW && row == end ==> final(state).collapsed() == !old(state).collapsed(),
        row != FILTER_ROW && row > end ==> *final(state) == *old(state) && o is Stay,
        row != FILTER_ROW && row < end ==> {
            match crate::state::row_job(old(state).sections_view(), row - 1, 0) {
                Some(g) => {
                    &&& final(state).same_list(old(state))
                    &&& final(state).rests_at(g)
                    &&& *final(last_click) == Some(Click { row: g as usize, at_ms: now_ms })
                    &&& (o is Jump <==> is_double(*old(last_click), g as usize, now_ms))
                },
                None => *final(state) == *old(state) && o is Stay,
            }
        },
{
    if row == FILTER_ROW {
        let f = state.status_filter().next();
        state.set_filter(f);
        return Outcome::Stay;
    }
    if row == end {
        state.toggle_bottom_collapsed();
        return Outcome::Stay;
    }
    if row > end {
        return Outcome::Stay;
    }
    let list_row = (row - 1) as usize;
    let global = match state.global_index_at_list_row(list_row) {
        Some(g) => g,
        None => return Outcome::Stay,
    };
    proof {
        state.lemma_rows_are_jobs();
        crate::state::lemma_row_job_range(state.sections_view(), list_row as int, 0);
    }
    state.select_global_index(global);
    proof {
        state.lemma_resting_selects(global as int);
    }
    let double = match *last_click {
        Some(c) => c.row == global && (now_ms < c.at_ms || now_ms - c.at_ms <= DOUBLE_CLICK_MS),
        None => false,
    };
    *last_click = Some(Click { row: global, at_ms: now_ms });
    if double && state.selected_job().is_some() {
        Outcome::Jump
    } else {
        Outcome::Stay
    }
}

} // verus!
