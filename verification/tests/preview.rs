use nerve_tmux_surface::frame::Context;
use nerve_tmux_surface::preview::nothing_to_show;
use nerve_tmux_surface::panes::{SidebarPane, SshRoute};
use nerve_tmux_surface::preview::parse_swap_record;
use nerve_tmux_surface::preview::JobPanes;
use std::cell::RefCell;
use std::rc::Rc;

#[test]
fn swap_records_round_trip() {
    assert_eq!(parse_swap_record("%33 %19"), Some(("%33", "%19")));
    assert_eq!(parse_swap_record("  %33   %19  "), Some(("%33", "%19")));
    assert_eq!(parse_swap_record("%33"), None);
    assert_eq!(parse_swap_record(""), None);
    // A record that swaps a pane with itself would be a no-op at best.
    assert_eq!(parse_swap_record("%33 %33"), None);
}

use nerve_tmux_surface::frame::JobView;
use nerve_tmux_surface::preview::PanePreview;
use nerve_tmux_surface::tmux::{Tmux, TmuxError, TmuxRunner};

/// A tmux that is never there: a detached preview never asks it anything.
struct NoTmux;

impl TmuxRunner for NoTmux {
    fn run(&mut self, _args: &[&str]) -> Result<String, TmuxError> {
        Err(TmuxError::Unavailable("no tmux in this test".to_string()))
    }
}

fn job(id: &str) -> JobView {
    let mut job = JobView::new(id);
    job.name = "work".to_string();
    job
}

#[test]
fn a_jump_leaves_the_preview_remembering_the_job_it_landed_on() {
    let mut preview = PanePreview::detached(Tmux::new(NoTmux));
    let landed = job("codex:s1");
    assert!(preview.is_idle());

    preview.settle(&landed);
    assert!(
        preview.is_showing(&landed),
        "coming back to the sidebar must not re-swap the job's own pane"
    );

    assert!(!preview.is_showing(&job("codex:s2")));
    preview.restore();
    assert!(preview.is_idle());
}

#[test]
fn nothing_to_show_names_the_machine_or_the_workspace() {
    let mut remote = job("codex:s1");
    remote.alias = "arrhenius1".to_string();
    assert_eq!(
        nothing_to_show(&remote, Some("mac")),
        "arrhenius1 is another machine — no ssh pane here"
    );
    let mut local = job("codex:s2");
    local.context = Context { workspace: Some("/tmp/work".to_string()) };
    assert_eq!(nothing_to_show(&local, Some("mac")), "no local pane for /tmp/work");
    assert_eq!(nothing_to_show(&job("codex:s3"), None), "no local pane for ?");
}

/// A tmux whose window is on screen, whose window holds the sidebar `%1` and
/// a content pane `%2`, and whose pane `%9` lives in another window.
struct Scripted {
    seen: Rc<RefCell<Vec<Vec<String>>>>,
}

impl TmuxRunner for Scripted {
    fn run(&mut self, args: &[&str]) -> Result<String, TmuxError> {
        self.seen
            .borrow_mut()
            .push(args.iter().map(|a| a.to_string()).collect());
        let reply = match args {
            ["display-message", "-p", "-t", _, "#{window_active}"] => "1",
            ["list-panes", ..] => "%1|nerve-sidebar\n%2|",
            ["display-message", "-p", "-t", "%9", "#{window_id}"] => "@5",
            _ => "",
        };
        Ok(reply.to_string())
    }
}

/// Every job runs in pane `%9`.
struct PaneNine;

impl JobPanes for PaneNine {
    fn local_pane(&mut self, _job: &JobView) -> Option<String> {
        Some("%9".to_string())
    }
    fn ssh_route(&mut self, _alias: &str) -> Option<SshRoute> {
        None
    }
    fn request_remote(&mut self, _destination: &str, _pid: u32) {}
    fn local_alias(&mut self) -> Option<String> {
        None
    }
}

fn argv(words: &[&str]) -> Vec<String> {
    words.iter().map(|w| w.to_string()).collect()
}

#[test]
fn restore_makes_the_swap_show_made() {
    let seen = Rc::new(RefCell::new(Vec::new()));
    let sidebar = SidebarPane {
        id: "%1".to_string(),
        session: "main".to_string(),
        window: "@1".to_string(),
    };
    let mut preview = PanePreview::new(Tmux::new(Scripted { seen: seen.clone() }), sidebar);
    preview.show(&job("codex:s1"), 0, &mut PaneNine);
    assert_eq!(preview.swapped_pane(), Some("%9".to_string()));
    let shown = seen.borrow().len();
    assert!(shown >= 3);
    let swap = seen.borrow()[shown - 3].clone();
    assert_eq!(swap, argv(&["swap-pane", "-d", "-s", "%9", "-t", "%2"]));
    assert_eq!(
        seen.borrow()[shown - 2],
        argv(&["set", "-w", "-t", "@1", "@nerve_preview_swap", "%9 %2"])
    );
    assert_eq!(
        parse_swap_record("%9 %2"),
        Some(("%9", "%2")),
        "the record names the panes the swap exchanged"
    );

    preview.restore();
    let calls = seen.borrow();
    assert_eq!(calls.len(), shown + 3);
    assert_eq!(calls[shown], swap);
    assert_eq!(calls[shown + 1], argv(&["set", "-p", "-u", "-t", "%9", "@nerve_preview_owner"]));
    assert_eq!(calls[shown + 2], argv(&["set", "-w", "-u", "-t", "@1", "@nerve_preview_swap"]));
    assert!(preview.is_idle());
    assert_eq!(preview.swapped_pane(), None);
}

#[test]
fn a_swap_record_reads_back_as_the_panes_it_names() {
    for (foreign, slot) in [("%9", "%2"), ("%120", "%7")] {
        let record = format!("{foreign} {slot}");
        assert_eq!(parse_swap_record(&record), Some((foreign, slot)));
    }
}

/// A tmux whose active pane in window `@1` is `%2`, until told otherwise.
struct Focus {
    active: Rc<RefCell<String>>,
    asked: Rc<RefCell<usize>>,
}

impl TmuxRunner for Focus {
    fn run(&mut self, args: &[&str]) -> Result<String, TmuxError> {
        match args {
            ["display-message", "-p", "-t", "@1", "#{pane_id}\t#{pane_tty}"] => {
                *self.asked.borrow_mut() += 1;
                Ok(self.active.borrow().clone())
            }
            _ => Ok(String::new()),
        }
    }
}

#[test]
fn the_focused_pane_is_news_once_and_never_for_the_sidebar() {
    let active = Rc::new(RefCell::new("%2\t/dev/ttys003".to_string()));
    let asked = Rc::new(RefCell::new(0));
    let sidebar = SidebarPane {
        id: "%1".to_string(),
        session: "main".to_string(),
        window: "@1".to_string(),
    };
    let runner = Focus { active: active.clone(), asked: asked.clone() };
    let mut preview = PanePreview::new(Tmux::new(runner), sidebar);

    assert_eq!(preview.newly_focused_tty(0), Some("/dev/ttys003".to_string()));
    assert_eq!(*asked.borrow(), 1);
    assert_eq!(preview.newly_focused_tty(100), None, "asked again too soon");
    assert_eq!(*asked.borrow(), 1);
    assert_eq!(preview.newly_focused_tty(1000), None, "the same pane is no news");
    assert_eq!(*asked.borrow(), 2);

    *active.borrow_mut() = "%1\t/dev/ttys001".to_string();
    assert_eq!(preview.newly_focused_tty(2000), None, "the sidebar itself is not a job pane");
    *active.borrow_mut() = "%2\t/dev/ttys003".to_string();
    assert_eq!(preview.newly_focused_tty(3000), Some("/dev/ttys003".to_string()));
    *active.borrow_mut() = "no tab here".to_string();
    assert_eq!(preview.newly_focused_tty(4000), None);
}

use nerve_tmux_surface::frame::Location;
use nerve_tmux_surface::preview::JumpResult;

/// A tmux that knows every pane, and refuses `select-pane` when told to.
struct Lands {
    refuse: bool,
}

impl TmuxRunner for Lands {
    fn run(&mut self, args: &[&str]) -> Result<String, TmuxError> {
        match args {
            ["display-message", "-p", "-t", pane, "#{pane_id}"] => Ok(pane.to_string()),
            ["select-pane", ..] if self.refuse => Err(TmuxError::Refused {
                status: 1,
                stderr: "can't find pane".to_string(),
            }),
            _ => Ok(String::new()),
        }
    }
}

#[test]
fn a_jump_lands_on_a_pane_tmux_knows_and_says_so_when_refused() {
    let mut landing = PanePreview::detached(Tmux::new(Lands { refuse: false }));
    assert_eq!(landing.jump_to_job(&job("codex:s1"), &mut PaneNine), JumpResult::TmuxPane);
    assert!(landing.is_showing(&job("codex:s1")));

    let mut refused = PanePreview::detached(Tmux::new(Lands { refuse: true }));
    assert_eq!(refused.jump_to_job(&job("codex:s1"), &mut PaneNine), JumpResult::Failed);
}

/// No pane for any job on this machine.
struct NoPane;

impl JobPanes for NoPane {
    fn local_pane(&mut self, _job: &JobView) -> Option<String> {
        None
    }
    fn ssh_route(&mut self, _alias: &str) -> Option<SshRoute> {
        None
    }
    fn request_remote(&mut self, _destination: &str, _pid: u32) {}
    fn local_alias(&mut self) -> Option<String> {
        None
    }
}

#[test]
fn without_a_pane_an_ide_link_goes_to_the_ide_and_anything_else_fails() {
    let mut in_editor = job("codex:s1");
    in_editor.location = Some(Location {
        open_url: Some("cursor://file/Users/me/proj".to_string()),
        focus_hint: None,
    });
    let mut preview = PanePreview::detached(Tmux::new(NoTmux));
    assert_eq!(preview.jump_to_job(&in_editor, &mut NoPane), JumpResult::NeedsIde);
    assert_eq!(preview.jump_to_job(&job("codex:s2"), &mut NoPane), JumpResult::Failed);
}

/// This machine is `mac`; the machine `arrhenius1` is reached through the
/// ssh pane `%9`, and every request to turn a far window is remembered.
struct OverSsh {
    requests: Rc<RefCell<Vec<(String, u32)>>>,
}

impl JobPanes for OverSsh {
    fn local_pane(&mut self, _job: &JobView) -> Option<String> {
        None
    }
    fn ssh_route(&mut self, alias: &str) -> Option<SshRoute> {
        (alias == "arrhenius1").then(|| SshRoute {
            pane: "%9".to_string(),
            destination: "arrhenius1".to_string(),
            window: "@5".to_string(),
        })
    }
    fn request_remote(&mut self, destination: &str, pid: u32) {
        self.requests.borrow_mut().push((destination.to_string(), pid));
    }
    fn local_alias(&mut self) -> Option<String> {
        Some("mac".to_string())
    }
}

#[test]
fn a_job_on_another_machine_shows_its_ssh_pane_turned_to_the_job() {
    let seen = Rc::new(RefCell::new(Vec::new()));
    let requests = Rc::new(RefCell::new(Vec::new()));
    let sidebar = SidebarPane {
        id: "%1".to_string(),
        session: "main".to_string(),
        window: "@1".to_string(),
    };
    let mut preview = PanePreview::new(Tmux::new(Scripted { seen: seen.clone() }), sidebar);
    let mut far = job("codex:s7");
    far.alias = "arrhenius1".to_string();
    far.extensions.pid = Some(4242);
    preview.show(&far, 0, &mut OverSsh { requests: requests.clone() });
    assert_eq!(*requests.borrow(), vec![("arrhenius1".to_string(), 4242)]);
    assert_eq!(preview.swapped_pane(), Some("%9".to_string()));
    assert!(seen
        .borrow()
        .contains(&argv(&["swap-pane", "-d", "-s", "%9", "-t", "%2"])));
}
