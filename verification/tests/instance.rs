use std::cell::RefCell;
use std::collections::VecDeque;
use std::rc::Rc;

use nerve_tmux_surface::instance::{Claim, InstanceGuard, PidProbe, PID_OPTION};
use nerve_tmux_surface::tmux::{TmuxError, TmuxRunner, TmuxWriter};

type Log = Rc<RefCell<Vec<Vec<String>>>>;

struct Scripted {
    calls: Log,
    replies: VecDeque<Result<String, TmuxError>>,
}

impl TmuxRunner for Scripted {
    fn run(&mut self, args: &[&str]) -> Result<String, TmuxError> {
        self.calls
            .borrow_mut()
            .push(args.iter().map(|a| a.to_string()).collect());
        self.replies.pop_front().unwrap_or_else(|| Ok(String::new()))
    }
}

/// Answers every liveness question with `alive`, and remembers who was asked about.
struct Probe {
    alive: bool,
    asked: Rc<RefCell<Vec<i32>>>,
}

impl PidProbe for Probe {
    fn is_alive(&self, pid: i32) -> bool {
        self.asked.borrow_mut().push(pid);
        self.alive
    }
}

fn guard(
    replies: Vec<Result<String, TmuxError>>,
    alive: bool,
    me: i32,
) -> (InstanceGuard<TmuxWriter<Scripted>, Probe>, Log, Rc<RefCell<Vec<i32>>>) {
    let calls: Log = Rc::new(RefCell::new(Vec::new()));
    let asked = Rc::new(RefCell::new(Vec::new()));
    let runner = Scripted { calls: Rc::clone(&calls), replies: replies.into() };
    let probe = Probe { alive, asked: Rc::clone(&asked) };
    (InstanceGuard::new(TmuxWriter::new(runner), probe, me), calls, asked)
}

#[test]
fn a_second_surface_stands_down_for_a_live_one() {
    let (mut g, calls, asked) = guard(vec![Ok("4242\n".to_string())], true, 100);
    assert!(matches!(g.claim(), Ok(Claim::Yield { pid: 4242 })));
    assert_eq!(*asked.borrow(), vec![4242]);
    let calls = calls.borrow();
    assert_eq!(calls.len(), 1);
    assert_eq!(calls[0][0], "show-options");
    assert_eq!(calls[0].last().unwrap(), PID_OPTION);
}

#[test]
fn a_dead_holder_loses_the_lock() {
    let (mut g, calls, asked) = guard(vec![Ok("4242".to_string())], false, 100);
    assert!(matches!(g.claim(), Ok(Claim::Owned)));
    assert_eq!(*asked.borrow(), vec![4242]);
    let calls = calls.borrow();
    assert_eq!(calls.len(), 2);
    assert_eq!(calls[1], vec!["set", "-g", PID_OPTION, "100"]);
}

#[test]
fn an_empty_lock_is_taken_without_asking_about_anyone() {
    let (mut g, calls, asked) = guard(vec![Ok(String::new())], true, 100);
    assert!(matches!(g.claim(), Ok(Claim::Owned)));
    assert!(asked.borrow().is_empty());
    assert_eq!(calls.borrow().len(), 2);
}

#[test]
fn our_own_pid_in_the_lock_is_no_rival() {
    let (mut g, _calls, asked) = guard(vec![Ok("100".to_string())], true, 100);
    assert!(matches!(g.claim(), Ok(Claim::Owned)));
    assert!(asked.borrow().is_empty());
}

#[test]
fn a_failed_read_is_handed_back_unchanged() {
    let (mut g, calls, asked) = guard(vec![Err(TmuxError::ServerGone)], true, 100);
    assert!(matches!(g.claim(), Err(TmuxError::ServerGone)));
    assert!(asked.borrow().is_empty());
    assert_eq!(calls.borrow().len(), 1);
}

#[test]
fn a_refused_write_of_the_lock_is_handed_back() {
    let refused = TmuxError::Refused { status: 7, stderr: "nope".to_string() };
    let (mut g, _calls, _asked) = guard(vec![Ok(String::new()), Err(refused)], true, 100);
    assert!(matches!(g.claim(), Err(TmuxError::Refused { status: 7, .. })));
}
