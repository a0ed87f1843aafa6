//! Steering the tmux on the other machine, over one ssh round trip.
//!
//! A job on another machine has no pane here, and the ssh pane that reaches
//! it shows whatever the remote client is attached to. What tmux can do is run
//! the same `pid → tty → pane` resolution over there and tell that tmux to
//! select the result: `Enter` focuses the ssh pane here, and one
//! `ssh <host> sh -s` makes the far side turn to the right window.
//!
//! Everything here is fail-open: the remote may have no tmux, the agent may
//! not be in a pane, ssh may need a password this process must never be
//! asked for. Each of those is an answer, none is an error. Running ssh is the
//! caller's business; this module writes the script, reads the answer, and
//! keeps the one-slot inbox the requests wait in.
use vstd::prelude::*;

use crate::machine::opt_string_view;
use crate::text::{chars_of, decimal, extend_str, lines, parse_usize_in, parse_usize_spec, push_decimal, string_of, string_of_range, trim, trim_range};

verus! {

/// How long ssh may spend getting a connection before giving up.
pub const CONNECT_TIMEOUT_SECS: u32 = 3;

/// Exit code of the script: the process has no terminal there.
pub const NO_TERMINAL: i32 = 3;

/// Exit code of the script: the process is on no tmux pane there.
pub const NOT_IN_TMUX: i32 = 4;

/// Exit code of the script: tmux refused the select.
pub const REFUSED: i32 = 5;

/// Exit code of the script: there is no tmux there.
pub const NO_TMUX: i32 = 6;

/// ssh's own "I could not get there".
pub const SSH_FAILED: i32 = 255;

/// What the far side did.
#[derive(Clone, Debug, PartialEq, Eq)]
pub enum RemoteJump {
    /// That tmux is now showing the job. `clients` is how many were attached:
    /// the view only followed when there was exactly one to follow.
    Selected { pane: String, clients: usize },
    /// The agent process is on no pane of that tmux.
    NotInTmux,
    /// The process is gone there, or has no controlling terminal.
    NoTerminal,
    /// No tmux on that machine, or none on `PATH` in a non-interactive shell.
    NoTmux,
    /// tmux was there and refused the select.
    Refused,
    /// ssh could not get there: no live master and no non-interactive auth.
    Unreachable,
}

/// What [`RemoteJump::message`] answers.
pub open spec fn message_spec(jump: RemoteJump, host: Seq<char>) -> Option<Seq<char>> {
    match jump {
        RemoteJump::Selected { clients, .. } => if clients <= 1 {
            None
        } else {
            Some(
                "Nerve: selected the window on "@ + host + " ("@ + decimal(clients as nat)
                    + " clients attached — none was moved)"@,
            )
        },
        RemoteJump::NotInTmux => Some("Nerve: that job is not in a tmux pane on "@ + host),
        RemoteJump::NoTerminal => Some("Nerve: no terminal for that job on "@ + host),
        RemoteJump::NoTmux => Some("Nerve: no tmux on "@ + host),
        RemoteJump::Refused => Some("Nerve: tmux on "@ + host + " refused the select"@),
        RemoteJump::Unreachable => Some("Nerve: could not reach "@ + host + " without a prompt"@),
    }
}

impl RemoteJump {
    /// What to flash in the status line, or nothing when the far side simply
    /// did what was asked (the window changing under you says it better).
    pub fn message(&self, host: &str) -> (r: Option<String>)
        ensures
            opt_string_view(r) == message_spec(*self, host@),
    {
        let mut v: Vec<char> = Vec::new();
        match self {
            RemoteJump::Selected { clients, .. } => {
                if *clients <= 1 {
                    return None;
                }
                extend_str(&mut v, "Nerve: selected the window on ");
                extend_str(&mut v, host);
                extend_str(&mut v, " (");
                push_decimal(&mut v, *clients as u128);
                extend_str(&mut v, " clients attached — none was moved)");
            },
            RemoteJump::NotInTmux => {
                extend_str(&mut v, "Nerve: that job is not in a tmux pane on ");
                extend_str(&mut v, host);
            },
            RemoteJump::NoTerminal => {
                extend_str(&mut v, "Nerve: no terminal for that job on ");
                extend_str(&mut v, host);
            },
            RemoteJump::NoTmux => {
                extend_str(&mut v, "Nerve: no tmux on ");
                extend_str(&mut v, host);
            },
            RemoteJump::Refused => {
                extend_str(&mut v, "Nerve: tmux on ");
                extend_str(&mut v, host);
                extend_str(&mut v, " refused the select");
            },
            RemoteJump::Unreachable => {
                extend_str(&mut v, "Nerve: could not reach ");
                extend_str(&mut v, host);
                extend_str(&mut v, " without a prompt");
            },
        }
        assert(v@ =~= message_spec(*self, host@)->0);
        Some(string_of(&v))
    }
}

// ───────────────────────────── the script ─────────────────────────────

/// What the script runs after naming the pid: the same resolution the
/// preview does locally (the pid's tty, then the pane on that tty), the same
/// selects `Enter` runs here, and a report of the pane and the number of
/// attached clients. The client is only moved when exactly one is attached.
pub const SCRIPT_BODY: &'static str = r#"
tty=$(ps -p $pid -o tty= 2>/dev/null | tr -d ' \t')
[ -n "$tty" ] && [ "$tty" != "?" ] || exit 3
command -v tmux >/dev/null 2>&1 || exit 6
pane=$(tmux list-panes -a -F '#{pane_tty} #{pane_id}' 2>/dev/null \
  | awk -v t="/dev/$tty" '$1==t{print $2; exit}')
[ -n "$pane" ] || exit 4
tmux select-window -t "$pane" >/dev/null 2>&1 || exit 5
tmux select-pane -t "$pane" >/dev/null 2>&1
clients=$(tmux list-clients -F '#{client_tty}' 2>/dev/null)
count=$(printf '%s\n' "$clients" | grep -c .)
if [ "$count" = 1 ]; then
  session=$(tmux display-message -p -t "$pane" '#{session_name}' 2>/dev/null)
  [ -n "$session" ] && tmux switch-client -c "$clients" -t "$session" >/dev/null 2>&1
fi
printf '%s %s\n' "$pane" "$count"
"#;

/// The script the far side runs: `pid=<pid>`, then [`SCRIPT_BODY`]. The pid
/// is the one value interpolated into it, and it is digits.
pub open spec fn script_spec(pid: u32) -> Seq<char> {
    "pid="@ + decimal(pid as nat) + SCRIPT_BODY@
}

pub fn script(pid: u32) -> (s: String)
    ensures
        s@ == script_spec(pid),
{
    let mut v: Vec<char> = Vec::new();
    extend_str(&mut v, "pid=");
    push_decimal(&mut v, pid as u128);
    extend_str(&mut v, SCRIPT_BODY);
    assert(v@ =~= script_spec(pid));
    string_of(&v)
}

// ───────────────────────────── the answer ─────────────────────────────

/// `"%25 1"`, the last line of the script's output: the pane that was
/// selected, and how many clients were attached.
pub open spec fn parse_selection_spec(stdout: Seq<char>) -> Option<(Seq<char>, usize)> {
    let ls = lines(stdout);
    if ls.len() == 0 {
        None
    } else {
        let line = trim(ls.last());
        match crate::procs::first_ws(line) {
            None => None,
            Some(i) => {
                let pane = trim(line.take(i as int));
                if pane.len() > 0 && pane[0] == '%' {
                    match parse_usize_spec(trim(line.skip(i as int + 1))) {
                        Some(n) => Some((pane, n)),
                        None => None,
                    }
                } else {
                    None
                }
            },
        }
    }
}

pub fn parse_selection(stdout: &str) -> (r: Option<(String, usize)>)
    ensures
        match r {
            Some((pane, n)) => parse_selection_spec(stdout@) == Some((pane@, n)),
            None => parse_selection_spec(stdout@).is_none(),
        },
{
    let v = chars_of(stdout);
    let ranges = crate::text::line_ranges(&v);
    if ranges.len() == 0 {
        return None;
    }
    let last = ranges.len() - 1;
    let ghost ls = crate::text::ranges_text(v@, ranges@);
    assert(ls.last() == v@.subrange(ranges[last as int].start as int, ranges[last as int].end as int));
    let (a, b) = trim_range(&v, ranges[last].start, ranges[last].end);
    let ghost line = v@.subrange(a as int, b as int);
    let i = crate::procs::find_ws(&v, a, b);
    if i == b {
        return None;
    }
    assert(line.take(i - a) =~= v@.subrange(a as int, i as int));
    assert(line.skip(i - a + 1) =~= v@.subrange(i + 1, b as int));
    let (ps, pe) = trim_range(&v, a, i);
    if ps == pe || v[ps] != '%' {
        return None;
    }
    let (cs, ce) = trim_range(&v, i + 1, b);
    match parse_usize_in(&v, cs, ce) {
        Some(n) => Some((string_of_range(&v, ps, pe), n)),
        None => None,
    }
}

/// Whether `r` is what [`outcome`] answers for an exit status and the
/// script's output.
pub open spec fn outcome_is(r: RemoteJump, status: Option<i32>, stdout: Seq<char>) -> bool {
    match status {
        Some(code) => if code == 0 {
            match parse_selection_spec(stdout) {
                Some((p, n)) => r matches RemoteJump::Selected { pane, clients } && pane@ == p
                    && clients == n,
                // Exit 0 with nothing to say is not a selection anyone can trust.
                None => r is Refused,
            }
        } else if code == NO_TERMINAL {
            r is NoTerminal
        } else if code == NOT_IN_TMUX {
            r is NotInTmux
        } else if code == REFUSED {
            r is Refused
        } else if code == NO_TMUX {
            r is NoTmux
        } else if code == SSH_FAILED {
            r is Unreachable
        } else {
            // The remote shell could not even start the script.
            r is NoTmux
        },
        None => r is Unreachable,
    }
}

/// Read the far side's answer: its exit status (`None` when killed by a
/// signal) and what it printed.
pub fn outcome(status: Option<i32>, stdout: &str) -> (r: RemoteJump)
    ensures
        outcome_is(r, status, stdout@),
{
    match status {
        Some(code) => {
            if code == 0 {
                match parse_selection(stdout) {
                    Some((pane, clients)) => RemoteJump::Selected { pane, clients },
                    None => RemoteJump::Refused,
                }
            } else if code == NO_TERMINAL {
                RemoteJump::NoTerminal
            } else if code == NOT_IN_TMUX {
                RemoteJump::NotInTmux
            } else if code == REFUSED {
                RemoteJump::Refused
            } else if code == NO_TMUX {
                RemoteJump::NoTmux
            } else if code == SSH_FAILED {
                RemoteJump::Unreachable
            } else {
                RemoteJump::NoTmux
            }
        },
        None => RemoteJump::Unreachable,
    }
}

// ───────────────────────────── the inbox ─────────────────────────────

/// One machine and one job: what the far side is asked to show.
#[derive(Clone, Debug, PartialEq, Eq)]
pub struct Request {
    pub host: String,
    pub pid: u32,
}

/// A one-slot inbox where a newer request replaces an older one.
///
/// Selection moves faster than a network: holding `j` across three remote
/// rows asks for three windows, and the only one that matters is the last.
pub struct Mailbox {
    pending: Option<Request>,
    closed: bool,
}

pub open spec fn request_view(r: Option<Request>) -> Option<(Seq<char>, u32)> {
    match r {
        Some(q) => Some((q.host@, q.pid)),
        None => None,
    }
}

impl Mailbox {
    /// What is waiting to be sent, as host and pid.
    pub closed spec fn pending(&self) -> Option<(Seq<char>, u32)> {
        request_view(self.pending)
    }

    /// Whether the selector that feeds this inbox has gone.
    pub closed spec fn is_closed(&self) -> bool {
        self.closed
    }

    /// An empty, open inbox.
    pub fn new() -> (m: Self)
        ensures
            m.pending().is_none(),
            !m.is_closed(),
    {
        Mailbox { pending: None, closed: false }
    }

    /// Leave a request, replacing whatever was still waiting.
    pub fn put(&mut self, host: &str, pid: u32)
        ensures
            final(self).pending() == Some((host@, pid)),
            final(self).is_closed() == old(self).is_closed(),
    {
        self.pending = Some(Request { host: host.to_owned(), pid });
    }

    /// Take the waiting request, leaving the inbox empty.
    pub fn take(&mut self) -> (r: Option<Request>)
        ensures
            request_view(r) == old(self).pending(),
            final(self).pending().is_none(),
            final(self).is_closed() == old(self).is_closed(),
    {
        let r = match &self.pending {
            Some(q) => Some(Request { host: q.host.clone(), pid: q.pid }),
            None => None,
        };
        self.pending = None;
        r
    }

    /// Mark the inbox closed: the worker stops once it is empty.
    pub fn close(&mut self)
        ensures
            final(self).is_closed(),
            final(self).pending() == old(self).pending(),
    {
        self.closed = true;
    }

    /// Whether a worker has something to do: a request, or the news that it
    /// is done.
    pub fn has_news(&self) -> (b: bool)
        ensures
            b == (self.pending().is_some() || self.is_closed()),
    {
        self.pending.is_some() || self.closed
    }

    /// Whether the inbox is closed.
    pub fn closed(&self) -> (b: bool)
        ensures
            b == self.is_closed(),
    {
        self.closed
    }
}

/// Flash what the far side could not do; a window that simply changed says
/// it better than any message could.
pub fn report<R: crate::tmux::TmuxRunner>(runner: &mut crate::tmux::Tmux<R>, host: &str, jump: &RemoteJump)
    ensures
        match message_spec(*jump, host@) {
            Some(m) => crate::tmux::one_more_call(
                old(runner).calls(),
                final(runner).calls(),
                seq!["display-message"@, "-d"@, "3000"@, m],
            ),
            None => final(runner).calls() == old(runner).calls(),
        },
{
    if let Some(message) = jump.message(host) {
        let args = ["display-message", "-d", "3000", message.as_str()];
        assert(crate::tmux::argv(args@) =~= seq!["display-message"@, "-d"@, "3000"@, message@]);
        let _ = crate::tmux::run_tmux(runner, &args);
    }
}

} // verus!
