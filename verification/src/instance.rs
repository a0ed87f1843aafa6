//! One surface per tmux server.
//!
//! The lock lives in a tmux user option, not in a file: this surface keeps no
//! state on disk, and an option dies with the server it belongs to, exactly
//! the lock's intended lifetime.
//!
//! What the lock protects is the hub's refcount. A second surface that also
//! opened a stream would hold the hub alive after the first one left, so a
//! process that does not own the option must never open one.
use vstd::prelude::*;

use crate::machine::opt_view;
use crate::text::{chars_of, parse_i32_in, parse_i32_spec, signed_decimal, trim, trim_bounds};
use crate::tmux::{OptionStore, TmuxError};

verus! {

/// The tmux user option that names the surface process.
pub const PID_OPTION: &'static str = "@nerve_surface_pid";

/// `kill(pid, 0)`: is that process still there?
pub trait PidProbe {
    fn is_alive(&self, pid: i32) -> bool
        requires
            pid >= 0,
    ;
}

/// The answer to "may this process be the surface?".
#[derive(Clone, Copy, Debug, PartialEq, Eq, Structural)]
pub enum Claim {
    /// This process owns the surface; the option now names our pid.
    Owned,
    /// A live surface already holds it: exit 0 having opened nothing.
    Yield { pid: i32 },
}

impl Claim {
    /// Whether the caller may open the SSE connection.
    pub fn may_stream(self) -> (b: bool)
        ensures
            b == (self is Owned),
    {
        matches!(self, Claim::Owned)
    }
}

/// A stored value that could name a running surface: a number above 1, since
/// 0 is "no process" and 1 is init.
pub open spec fn stored_pid_spec(stored: Seq<char>) -> Option<i32> {
    match parse_i32_spec(trim(stored)) {
        Some(pid) => if pid > 1 {
            Some(pid)
        } else {
            None
        },
        None => None,
    }
}

/// What [`stored_pid`] answers.
pub fn stored_pid(stored: &str) -> (r: Option<i32>)
    ensures
        r == stored_pid_spec(stored@),
{
    let v = chars_of(stored);
    let (a, b) = trim_bounds(&v);
    match parse_i32_in(&v, a, b) {
        Some(pid) => if pid > 1 {
            Some(pid)
        } else {
            None
        },
        None => None,
    }
}

/// The pid whose liveness decides the claim: the stored owner, unless no
/// value names one or it names this very process.
pub open spec fn rival_spec(stored: Option<Seq<char>>, me: i32) -> Option<i32> {
    match stored {
        Some(text) => match stored_pid_spec(text) {
            Some(pid) => if pid != me {
                Some(pid)
            } else {
                None
            },
            None => None,
        },
        None => None,
    }
}

/// The rival surface a stored value names, if any.
pub fn rival(stored: Option<&str>, me: i32) -> (r: Option<i32>)
    ensures
        r == rival_spec(opt_view(stored), me),
{
    match stored {
        Some(text) => match stored_pid(text) {
            Some(pid) => if pid != me {
                Some(pid)
            } else {
                None
            },
            None => None,
        },
        None => None,
    }
}

/// Takes, or stands down from, the single-surface lock.
pub struct InstanceGuard<O: OptionStore, P: PidProbe> {
    options: O,
    probe: P,
    me: i32,
    asked: Ghost<Seq<(i32, bool)>>,
}

impl<O: OptionStore, P: PidProbe> InstanceGuard<O, P> {
    /// `me` is this process's pid, injected rather than read, so the guard is
    /// a unit test rather than a process.
    pub fn new(options: O, probe: P, me: i32) -> (g: Self)
        ensures
            g.me() == me,
            g.options() == options,
            g.probed() == Seq::<(i32, bool)>::empty(),
    {
        InstanceGuard { options, probe, me, asked: Ghost(Seq::empty()) }
    }

    /// The store the lock lives in.
    pub closed spec fn options(&self) -> O {
        self.options
    }

    /// The pid this guard claims for.
    pub closed spec fn me(&self) -> i32 {
        self.me
    }

    /// Every pid the probe was asked about, oldest first, with whether it
    /// answered alive.
    pub closed spec fn probed(&self) -> Seq<(i32, bool)> {
        self.asked@
    }

    /// Read the option and either take it or stand down.
    ///
    /// A yielding surface never rewrites the option: the pid recorded there
    /// belongs to the process that is doing the work. Only a live rival other
    /// than this process, above init, is yielded to: the probe is asked about
    /// the rival the option names, and only about it.
    pub fn claim(&mut self) -> (r: Result<Claim, TmuxError>)
        ensures
            final(self).me() == old(self).me(),
            r matches Ok(Claim::Yield { pid }) ==> pid > 1 && pid != old(self).me(),
            final(self).options().reads() == old(self).options().reads().push(
                (PID_OPTION@, final(self).options().reads().last().1),
            ),
            match final(self).options().reads().last().1 {
                Err(e) => {
                    &&& r == Err::<Claim, TmuxError>(e)
                    &&& final(self).options().writes() == old(self).options().writes()
                    &&& final(self).options().write_results() == old(self).options().write_results()
                    &&& final(self).probed() == old(self).probed()
                },
                Ok(stored) => {
                    let owner = rival_spec(stored, old(self).me());
                    let yields = owner is Some && final(self).probed().last().1;
                    &&& match owner {
                        None => final(self).probed() == old(self).probed(),
                        Some(p) => final(self).probed() == old(self).probed().push(
                            (p, final(self).probed().last().1),
                        ),
                    }
                    &&& if yields {
                        &&& r == Ok::<Claim, TmuxError>(Claim::Yield { pid: owner.unwrap() })
                        &&& final(self).options().writes() == old(self).options().writes()
                        &&& final(self).options().write_results() == old(self).options().write_results()
                    } else {
                        &&& final(self).options().writes() == old(self).options().writes().push(
                            (PID_OPTION@, signed_decimal(old(self).me() as int)),
                        )
                        &&& final(self).options().write_results() == old(self).options().write_results().push(
                            final(self).options().write_results().last(),
                        )
                        &&& r == match final(self).options().write_results().last() {
                            Ok(()) => Ok::<Claim, TmuxError>(Claim::Owned),
                            Err(e) => Err(e),
                        }
                    }
                },
            },
    {
        let stored = match self.options.get(PID_OPTION) {
            Ok(value) => value,
            Err(e) => return Err(e),
        };
        let owner = match &stored {
            Some(text) => rival(Some(text.as_str()), self.me),
            None => rival(None, self.me),
        };
        if let Some(pid) = owner {
            let alive = self.probe.is_alive(pid);
            proof {
                self.asked@ = self.asked@.push((pid, alive));
            }
            if alive {
                return Ok(Claim::Yield { pid });
            }
        }
        let me_text = crate::text::i32_text(self.me);
        match self.options.set(PID_OPTION, me_text.as_str()) {
            Ok(()) => Ok(Claim::Owned),
            Err(e) => Err(e),
        }
    }
}

// ───────────────────────────── the signal probe ─────────────────────────────

#[verifier::external_type_specification]
#[verifier::external_body]
pub struct ExPid(rustix::process::Pid);

/// What `kill(pid, 0)` answered.
#[derive(Clone, Copy, Debug, PartialEq, Eq, Structural)]
pub enum KillReply {
    /// The process exists and may be signalled.
    Delivered,
    /// `ESRCH`: there is no such process.
    NoSuchProcess,
    /// Any other refusal, such as a process this user may not signal.
    Refused,
}

/// `rustix::process::Pid::from_raw`: a pid for every positive number, none for
/// zero. A negative number trips the crate's debug assertion, so it is not
/// accepted.
#[verifier::external_body]
fn pid_from_raw(raw: i32) -> (r: Option<rustix::process::Pid>)
    requires
        raw >= 0,
    ensures
        r.is_some() == (raw != 0),
{
    rustix::process::Pid::from_raw(raw)
}

/// `rustix::process::test_kill_process`: `kill(pid, 0)`, which sends no
/// signal. What it answers depends on the processes running, so nothing is
/// promised of it.
#[verifier::external_body]
fn test_kill(pid: rustix::process::Pid) -> (r: KillReply) {
    match rustix::process::test_kill_process(pid) {
        Ok(()) => KillReply::Delivered,
        Err(rustix::io::Errno::SRCH) => KillReply::NoSuchProcess,
        Err(_) => KillReply::Refused,
    }
}

/// Whether a `kill(pid, 0)` reply means the process is there: anything other
/// than "no such process" counts as alive, since a pid we may not signal is
/// still running, and a second surface painting over the first would be
/// worse than a stale option nobody reads.
pub fn reply_means_alive(reply: KillReply) -> (b: bool)
    ensures
        b == !(reply is NoSuchProcess),
{
    !matches!(reply, KillReply::NoSuchProcess)
}

/// The probe the binary injects: `kill(pid, 0)`, the POSIX "does this
/// process exist" question.
pub struct SignalProbe;

impl PidProbe for SignalProbe {
    /// Pid 0 names no process; any other pid is asked of the kernel.
    fn is_alive(&self, pid: i32) -> (b: bool)
        ensures
            pid == 0 ==> !b,
    {
        match pid_from_raw(pid) {
            None => false,
            Some(p) => reply_means_alive(test_kill(p)),
        }
    }
}

} // verus!
