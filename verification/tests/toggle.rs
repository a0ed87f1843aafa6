use nerve_tmux_surface::cli::toggle::only_sidebar_remains;
use nerve_tmux_surface::cli::toggle::{cmd_close, cmd_toggle};
use nerve_tmux_surface::tmux::{Tmux, TmuxError, TmuxRunner};
use std::cell::RefCell;
use std::rc::Rc;

#[test]
fn a_lone_sidebar_closes_its_window() {
    assert!(only_sidebar_remains("%1|nerve-sidebar"));
}

#[test]
fn a_live_shell_keeps_the_window() {
    // Only the sidebar ever sets a role, so an empty role is a real pane.
    assert!(!only_sidebar_remains("%0|\n%1|nerve-sidebar"));
    assert!(!only_sidebar_remains("%1|nerve-sidebar\n%2|"));
}

#[test]
fn a_window_without_a_sidebar_is_not_ours_to_close() {
    assert!(!only_sidebar_remains("%0|"));
    assert!(!only_sidebar_remains(""));
}

#[test]
fn an_unreadable_row_never_closes_anything() {
    assert!(!only_sidebar_remains("%1|nerve-sidebar\ngarbage"));
}

/// A tmux that answers from a table and records what it was asked.
struct Scripted {
    seen: Rc<RefCell<Vec<Vec<String>>>>,
    answer: fn(&[&str]) -> String,
}

impl TmuxRunner for Scripted {
    fn run(&mut self, args: &[&str]) -> Result<String, TmuxError> {
        self.seen
            .borrow_mut()
            .push(args.iter().map(|a| a.to_string()).collect());
        Ok((self.answer)(args))
    }
}

fn run_toggle(args: &[&str], answer: fn(&[&str]) -> String) -> Vec<Vec<String>> {
    let seen = Rc::new(RefCell::new(Vec::new()));
    let mut tmux = Tmux::new(Scripted { seen: seen.clone(), answer });
    let args: Vec<String> = args.iter().map(|a| a.to_string()).collect();
    assert_eq!(cmd_toggle(&mut tmux, &args, "/bin/nts"), 0);
    let calls = seen.borrow().clone();
    calls
}

fn run_close(args: &[&str], answer: fn(&[&str]) -> String) -> Vec<Vec<String>> {
    let seen = Rc::new(RefCell::new(Vec::new()));
    let mut tmux = Tmux::new(Scripted { seen: seen.clone(), answer });
    let args: Vec<String> = args.iter().map(|a| a.to_string()).collect();
    assert_eq!(cmd_close(&mut tmux, &args), 0);
    let calls = seen.borrow().clone();
    calls
}

fn argv(words: &[&str]) -> Vec<String> {
    words.iter().map(|w| w.to_string()).collect()
}

const ROLES: &str = "#{pane_id}|#{@nerve_pane_role}";

/// A window with one shell `%0`, 200 cells wide, and no sidebar yet.
fn no_sidebar(args: &[&str]) -> String {
    match args {
        ["list-panes", "-t", "@1", "-F", "#{pane_left} #{pane_width} #{pane_id}"] => "0 200 %0",
        ["list-panes", ..] => "%0|",
        ["display-message", "-p", "-t", "@1", "#{pane_id}"] => "%0",
        ["display-message", "-p", "-t", "@1", "#{window_width}"] => "200",
        ["split-window", ..] => "%5\n",
        _ => "",
    }
    .to_string()
}

/// The same window with the sidebar `%5` open and the keyboard in it.
fn sidebar_focused(args: &[&str]) -> String {
    match args {
        ["list-panes", ..] => "%0|\n%5|nerve-sidebar",
        ["display-message", "-p", "-t", "@1", "#{pane_id}"] => "%5",
        ["display-message", "-p", "-t", "%5", "#{@nerve_pane_role}"] => "nerve-sidebar",
        ["display-message", "-p", "-t", "@1", "#{@nerve_sidebar_return}"] => "%0",
        ["display-message", "-p", "-t", "%0", "#{pane_id}"] => "%0",
        _ => "",
    }
    .to_string()
}

/// The same window with the sidebar open and the keyboard in the shell.
fn sidebar_unfocused(args: &[&str]) -> String {
    match args {
        ["list-panes", ..] => "%0|\n%5|nerve-sidebar",
        ["display-message", "-p", "-t", "@1", "#{pane_id}"] => "%0",
        _ => "",
    }
    .to_string()
}

#[test]
fn toggle_on_a_closed_window_opens_the_sidebar_and_focuses_it() {
    let calls = run_toggle(&["@1", "/work"], no_sidebar);
    assert_eq!(
        calls,
        vec![
            argv(&["list-panes", "-t", "@1", "-F", ROLES]),
            argv(&["display-message", "-p", "-t", "@1", "#{pane_id}"]),
            argv(&["display-message", "-p", "-t", "@1", "#{@nerve_sidebar_width}"]),
            argv(&["display-message", "-p", "-t", "@1", "#{window_width}"]),
            argv(&["display-message", "-p", "-t", "@1", "#{@nerve_sidebar_position}"]),
            argv(&["list-panes", "-t", "@1", "-F", "#{pane_left} #{pane_width} #{pane_id}"]),
            argv(&[
                "split-window", "-hfb", "-l", "30", "-t", "%0", "-c", "/work", "-P", "-F", "#{pane_id}",
                "/bin/nts",
            ]),
            argv(&["set", "-p", "-t", "%5", "@nerve_pane_role", "nerve-sidebar"]),
            argv(&["set", "-w", "-t", "@1", "@nerve_sidebar_return", "%0"]),
            argv(&["select-pane", "-t", "%5"]),
            argv(&["display-message", "-d", "2000", "Nerve sidebar — focused (prefix+q closes)"]),
        ]
    );
}

#[test]
fn auto_create_opens_the_sidebar_and_leaves_the_keyboard_where_it_was() {
    let calls = run_toggle(&["--create-only", "@1"], no_sidebar);
    assert_eq!(calls[6][7], "~", "no path: the sidebar starts in the home directory");
    assert_eq!(
        calls[8..].to_vec(),
        vec![
            argv(&["set", "-w", "-t", "@1", "@nerve_sidebar_return", "%0"]),
            argv(&["select-pane", "-t", "%0"]),
            argv(&["display-message", "-d", "2000", "Nerve sidebar open — prefix+e focus, prefix+q close"]),
        ]
    );
}

#[test]
fn toggle_with_the_sidebar_focused_gives_the_keyboard_back() {
    let calls = run_toggle(&["@1"], sidebar_focused);
    assert_eq!(
        calls,
        vec![
            argv(&["list-panes", "-t", "@1", "-F", ROLES]),
            argv(&["display-message", "-p", "-t", "@1", "#{pane_id}"]),
            argv(&["display-message", "-p", "-t", "%5", "#{@nerve_pane_role}"]),
            argv(&["display-message", "-p", "-t", "@1", "#{@nerve_sidebar_return}"]),
            argv(&["display-message", "-p", "-t", "%0", "#{pane_id}"]),
            argv(&["select-pane", "-t", "%0"]),
            argv(&["display-message", "-d", "2000", "Nerve sidebar — unfocused (prefix+e to focus)"]),
        ]
    );
}

#[test]
fn toggle_with_the_sidebar_unfocused_hands_it_the_keyboard() {
    let calls = run_toggle(&["@1"], sidebar_unfocused);
    assert_eq!(
        calls,
        vec![
            argv(&["list-panes", "-t", "@1", "-F", ROLES]),
            argv(&["display-message", "-p", "-t", "@1", "#{pane_id}"]),
            argv(&["display-message", "-p", "-t", "%0", "#{@nerve_pane_role}"]),
            argv(&["select-pane", "-t", "%5"]),
            argv(&["display-message", "-d", "2000", "Nerve sidebar — focused"]),
        ]
    );
}

#[test]
fn auto_create_leaves_an_open_sidebar_alone() {
    let calls = run_toggle(&["@1", "--create-only"], sidebar_focused);
    assert_eq!(calls, vec![argv(&["list-panes", "-t", "@1", "-F", ROLES])]);
}

#[test]
fn toggle_without_a_window_asks_nothing() {
    assert!(run_toggle(&["--create-only"], no_sidebar).is_empty());
}

#[test]
fn close_from_the_sidebar_kills_it_and_returns_the_keyboard() {
    let calls = run_close(&["@1"], sidebar_focused);
    assert_eq!(
        calls,
        vec![
            argv(&["list-panes", "-t", "@1", "-F", ROLES]),
            argv(&["display-message", "-p", "-t", "@1", "#{pane_id}"]),
            argv(&["display-message", "-p", "-t", "%5", "#{@nerve_pane_role}"]),
            argv(&["display-message", "-p", "-t", "@1", "#{@nerve_preview_swap}"]),
            argv(&["display-message", "-p", "-t", "@1", "#{@nerve_sidebar_return}"]),
            argv(&["kill-pane", "-t", "%5"]),
            argv(&["display-message", "-p", "-t", "%0", "#{pane_id}"]),
            argv(&["select-pane", "-t", "%0"]),
            argv(&["set", "-w", "-u", "-t", "@1", "@nerve_sidebar_return"]),
            argv(&["display-message", "-d", "2000", "Nerve sidebar closed"]),
        ]
    );
}

#[test]
fn close_from_another_pane_only_says_how() {
    let calls = run_close(&["@1"], sidebar_unfocused);
    assert_eq!(
        calls.last(),
        Some(&argv(&[
            "display-message",
            "-d",
            "2000",
            "Nerve: focus sidebar (prefix+e), then prefix+q to close",
        ]))
    );
    assert_eq!(calls.len(), 4);
}
