//! The tmux protocol this surface speaks: which invocations it makes, and
//! what their answers mean.
//!
//! Every invocation is an argument array — there is no shell anywhere in this
//! crate. A segment holds spaces and `#[…]` markers and must arrive as one
//! argument, which a shell line could never guarantee.
//!
//! Writing the status option is not enough: tmux only repaints the status line
//! after `refresh-client -S`. Reading uses `show-options -gqv`, which prints the
//! bare value and stays quiet about options nobody set.
use vstd::prelude::*;

use crate::text::{chars_of, lower, string_of_range, trim, trim_bounds, starts_with_at, lower_vec};

verus! {

/// The user option `status-right` interpolates as `#{@nerve_status}`.
pub const STATUS_OPTION: &'static str = "@nerve_status";

/// Sidebar layout options.
pub const SIDEBAR_WIDTH: &'static str = "@nerve_sidebar_width";
pub const SIDEBAR_POSITION: &'static str = "@nerve_sidebar_position";
pub const SIDEBAR_BOTTOM_HEIGHT: &'static str = "@nerve_sidebar_bottom_height";
pub const PANE_ROLE: &'static str = "@nerve_pane_role";
pub const SIDEBAR_ROLE: &'static str = "nerve-sidebar";

/// Window option recording an outstanding preview swap, as `<foreign> <slot>`.
pub const PREVIEW_SWAP: &'static str = "@nerve_preview_swap";

/// Pane option naming the sidebar that pulled this pane into its slot.
pub const PREVIEW_OWNER: &'static str = "@nerve_preview_owner";

/// Why a tmux invocation produced no answer.
#[derive(Debug)]
pub enum TmuxError {
    /// The tmux this surface painted is gone. Not a failure: the surface's
    /// work is simply over.
    ServerGone,
    /// tmux could not be executed at all (missing binary, spawn refused).
    Unavailable(String),
    /// tmux ran and refused the command.
    Refused { status: i32, stderr: String },
}

/// What tmux(1) prints, lower-cased, once its socket is gone.
pub open spec fn server_gone_prefix() -> Seq<char> {
    "no server running"@
}

/// Whether a finished invocation's stderr says the server is gone.
pub open spec fn says_server_gone(stderr: Seq<char>) -> bool {
    let t = lower(trim(stderr));
    server_gone_prefix().len() <= t.len() && t.take(server_gone_prefix().len() as int)
        == server_gone_prefix()
}

impl TmuxError {
    /// Classify a finished invocation from its exit status and stderr.
    pub fn from_exit(status: i32, stderr: &str) -> (e: TmuxError)
        ensures
            says_server_gone(stderr@) ==> e is ServerGone,
            !says_server_gone(stderr@) ==> (e matches TmuxError::Refused { status: s, stderr: text }
                && s == status && text@ == trim(stderr@)),
    {
        let v = chars_of(stderr);
        let (a, b) = trim_bounds(&v);
        let mut t: Vec<char> = Vec::new();
        crate::text::extend_range(&mut t, &v, a, b);
        let low = lower_vec(&t);
        if starts_with_at(&low, 0, "no server running") {
            proof {
                reveal_strlit("no server running");
                assert(low@.subrange(0, 17) =~= low@.take(17));
            }
            return TmuxError::ServerGone;
        }
        proof {
            reveal_strlit("no server running");
            assert(low@.subrange(0, 17) =~= low@.take(17));
        }
        TmuxError::Refused { status, stderr: string_of_range(&v, a, b) }
    }

    /// Whether this is the cue to stop painting and exit 0.
    pub fn is_server_gone(&self) -> (b: bool)
        ensures
            b == (self is ServerGone),
    {
        matches!(self, TmuxError::ServerGone)
    }
}

/// One invocation a runner was asked to make, and what it answered: its
/// trimmed stdout, or `None` when it failed, and then the error it failed
/// with.
pub struct TmuxCall {
    pub args: Seq<Seq<char>>,
    pub reply: Option<Seq<char>>,
    pub failure: Option<TmuxError>,
}

/// The views of an argument array.
pub open spec fn argv(args: Seq<&str>) -> Seq<Seq<char>> {
    args.map_values(|a: &str| a@)
}

/// One `tmux` invocation. Implementations run tmux (or stand in for it).
pub trait TmuxRunner {
    /// Run `tmux <args>`, answering its trimmed stdout.
    fn run(&mut self, args: &[&str]) -> Result<String, TmuxError>;
}

/// The error a call failed with, if it failed.
pub open spec fn failure_of(r: &Result<String, TmuxError>) -> Option<TmuxError> {
    match r {
        Ok(_) => None,
        Err(e) => Some(*e),
    }
}

/// What a call answered: its output, or `None` when it failed.
pub open spec fn reply_of(r: &Result<String, TmuxError>) -> Option<Seq<char>> {
    match r {
        Ok(out) => Some(out@),
        Err(_) => None,
    }
}

/// A runner, with the record of every invocation made through it.
///
/// What tmux answers is the runner's business; which invocations are made,
/// in which order, is what the functions of this crate promise, and the
/// record is what they promise it of.
pub struct Tmux<R: TmuxRunner> {
    runner: R,
    log: Ghost<Seq<TmuxCall>>,
}

impl<R: TmuxRunner> Tmux<R> {
    pub fn new(runner: R) -> (t: Self)
        ensures
            t.inner() == runner,
            t.calls() == Seq::<TmuxCall>::empty(),
    {
        Tmux { runner, log: Ghost(Seq::empty()) }
    }

    /// Every invocation made so far, oldest first, with its answer.
    pub closed spec fn calls(&self) -> Seq<TmuxCall> {
        self.log@
    }

    /// The runner the invocations go to.
    pub closed spec fn inner(&self) -> R {
        self.runner
    }

    /// The runner the invocations go to.
    pub fn runner(&self) -> (r: &R)
        ensures
            *r == self.inner(),
    {
        &self.runner
    }

    /// Run `tmux <args>` through the runner, and record it.
    pub fn run(&mut self, args: &[&str]) -> (r: Result<String, TmuxError>)
        ensures
            final(self).calls() == old(self).calls().push(
                TmuxCall {
                    args: argv(args@),
                    reply: match r {
                        Ok(out) => Some(out@),
                        Err(_) => None,
                    },
                    failure: failure_of(&r),
                },
            ),
    {
        let r = self.runner.run(args);
        proof {
            self.log@ = self.log@.push(TmuxCall { args: argv(args@), reply: reply_of(&r), failure: failure_of(&r) });
        }
        r
    }
}

/// Where a rendered segment goes.
pub trait SegmentWriter {
    fn write_segment(&mut self, text: &str) -> Result<(), TmuxError>;
}

/// Global user options — this surface's only persistent state, and it lives
/// in tmux rather than on disk.
pub trait OptionStore {
    /// Every write asked of the store so far, oldest first, as name and value.
    spec fn writes(&self) -> Seq<(Seq<char>, Seq<char>)>;

    /// What each write asked so far answered, oldest first.
    spec fn write_results(&self) -> Seq<Result<(), TmuxError>>;

    /// Every read asked of the store so far, oldest first: the name, and what
    /// came back.
    spec fn reads(&self) -> Seq<(Seq<char>, Result<Option<Seq<char>>, TmuxError>)>;

    /// The option's value; an unset option and one set to blanks read the
    /// same, absent. Reading writes nothing.
    fn get(&mut self, name: &str) -> (r: Result<Option<String>, TmuxError>)
        ensures
            final(self).writes() == old(self).writes(),
            final(self).write_results() == old(self).write_results(),
            final(self).reads() == old(self).reads().push((name@, read_view(&r))),
    ;

    /// Set the option, recording the write whether or not it succeeds.
    fn set(&mut self, name: &str, value: &str) -> (r: Result<(), TmuxError>)
        ensures
            final(self).writes() == old(self).writes().push((name@, value@)),
            final(self).write_results() == old(self).write_results().push(r),
            final(self).reads() == old(self).reads(),
    ;
}

/// What a read answered, as values.
pub open spec fn read_view(r: &Result<Option<String>, TmuxError>) -> Result<Option<Seq<char>>, TmuxError> {
    match r {
        Ok(Some(v)) => Ok(Some(v@)),
        Ok(None) => Ok(None),
        Err(e) => Err(*e),
    }
}

/// `set -g @nerve_status <text>`.
pub open spec fn set_status_args(text: Seq<char>) -> Seq<Seq<char>> {
    seq!["set"@, "-g"@, STATUS_OPTION@, text]
}

/// `refresh-client -S`.
pub open spec fn refresh_args() -> Seq<Seq<char>> {
    seq!["refresh-client"@, "-S"@]
}

/// `show-options -gqv <name>`.
pub open spec fn show_option_args(name: Seq<char>) -> Seq<Seq<char>> {
    seq!["show-options"@, "-gqv"@, name]
}

/// `set -g <name> <value>`.
pub open spec fn set_option_args(name: Seq<char>, value: Seq<char>) -> Seq<Seq<char>> {
    seq!["set"@, "-g"@, name, value]
}

/// What a read of an option answers, given tmux's stdout: an unset option and
/// one set to blanks read the same, absent.
pub open spec fn option_value(out: Seq<char>) -> Option<Seq<char>> {
    if trim(out).len() == 0 {
        None
    } else {
        Some(trim(out))
    }
}

/// Paints the status option, and reads and writes the surface's user options.
pub struct TmuxWriter<R: TmuxRunner> {
    runner: Tmux<R>,
    written: Ghost<Seq<(Seq<char>, Seq<char>)>>,
    results: Ghost<Seq<Result<(), TmuxError>>>,
    read: Ghost<Seq<(Seq<char>, Result<Option<Seq<char>>, TmuxError>)>>,
}

impl<R: TmuxRunner> TmuxWriter<R> {
    pub fn new(runner: R) -> (w: Self)
        ensures
            w.runner().inner() == runner,
            w.runner().calls() == Seq::<TmuxCall>::empty(),
            w.written() == Seq::<(Seq<char>, Seq<char>)>::empty(),
    {
        TmuxWriter {
            runner: Tmux::new(runner),
            written: Ghost(Seq::empty()),
            results: Ghost(Seq::empty()),
            read: Ghost(Seq::empty()),
        }
    }

    /// Every option write asked of this writer, oldest first.
    pub closed spec fn written(&self) -> Seq<(Seq<char>, Seq<char>)> {
        self.written@
    }

    /// Whether each option write succeeded, oldest first.
    pub closed spec fn write_outcomes(&self) -> Seq<Result<(), TmuxError>> {
        self.results@
    }

    /// Every option read, oldest first, with what it answered.
    pub closed spec fn reads_made(&self) -> Seq<(Seq<char>, Result<Option<Seq<char>>, TmuxError>)> {
        self.read@
    }

    /// The runner every invocation goes through.
    pub closed spec fn runner(&self) -> Tmux<R> {
        self.runner
    }

    /// `set -g @nerve_status <text>`, then `refresh-client -S`.
    ///
    /// An empty segment is still written: the status line has to be told to
    /// drop what it was showing. If the option could not be set there is
    /// nothing to refresh.
    pub fn paint(&mut self, text: &str) -> (r: Result<(), TmuxError>)
        ensures
            match final(self).runner().calls().last().failure {
                Some(e) => r == Err::<(), TmuxError>(e),
                None => r == Ok::<(), TmuxError>(()),
            },
            final(self).written() == old(self).written(),
            final(self).write_outcomes() == old(self).write_outcomes(),
            final(self).reads_made() == old(self).reads_made(),
            ({
                let before = old(self).runner().calls();
                let after = final(self).runner().calls();
                &&& after.len() > before.len()
                &&& after.subrange(0, before.len() as int) == before
                &&& after[before.len() as int].args == set_status_args(text@)
                &&& if after[before.len() as int].reply.is_some() {
                    &&& after.len() == before.len() + 2
                    &&& after[before.len() + 1int].args == refresh_args()
                    &&& (r is Ok <==> after[before.len() + 1int].reply.is_some())
                } else {
                    after.len() == before.len() + 1 && r is Err
                }
            }),
    {
        let ghost before = self.runner.calls();
        let args = ["set", "-g", STATUS_OPTION, text];
        assert(argv(args@) =~= set_status_args(text@));
        let first = self.runner.run(&args);
        let ghost mid = self.runner.calls();
        if first.is_err() {
            assert(mid.subrange(0, before.len() as int) =~= before);
            return match first {
                Err(e) => Err(e),
                Ok(_) => Ok(()),
            };
        }
        let refresh = ["refresh-client", "-S"];
        assert(argv(refresh@) =~= refresh_args());
        let second = self.runner.run(&refresh);
        let ghost after = self.runner.calls();
        assert(after.subrange(0, before.len() as int) =~= before);
        assert(after[before.len() as int] == mid[before.len() as int]);
        match second {
            Ok(_) => Ok(()),
            Err(e) => Err(e),
        }
    }

    /// `show-options -gqv <name>`: the option's trimmed value, or `None` when
    /// it is unset or blank.
    pub fn read_option(&mut self, name: &str) -> (r: Result<Option<String>, TmuxError>)
        ensures
            match final(self).runner().calls().last().failure {
                Some(e) => r == Err::<Option<String>, TmuxError>(e),
                None => r is Ok,
            },
            final(self).written() == old(self).written(),
            final(self).write_outcomes() == old(self).write_outcomes(),
            final(self).reads_made() == old(self).reads_made().push((name@, read_view(&r))),
            final(self).runner().calls().len() == old(self).runner().calls().len() + 1,
            final(self).runner().calls().drop_last() == old(self).runner().calls(),
            final(self).runner().calls().last().args == show_option_args(name@),
            match final(self).runner().calls().last().reply {
                Some(out) => (r matches Ok(value) && match value {
                    Some(v) => option_value(out) == Some(v@),
                    None => option_value(out).is_none(),
                }),
                None => r is Err,
            },
    {
        let args = ["show-options", "-gqv", name];
        assert(argv(args@) =~= show_option_args(name@));
        let ghost before = self.runner.calls();
        let reply = self.runner.run(&args);
        assert(self.runner.calls().drop_last() =~= before);
        let r = match reply {
            Ok(out) => {
                let v = chars_of(out.as_str());
                let (a, b) = trim_bounds(&v);
                if a == b {
                    Ok(None)
                } else {
                    Ok(Some(string_of_range(&v, a, b)))
                }
            },
            Err(e) => Err(e),
        };
        proof {
            self.read@ = self.read@.push((name@, read_view(&r)));
        }
        r
    }

    /// `set -g <name> <value>`. Setting an option repaints nothing on its
    /// own, so it does not refresh.
    pub fn write_option(&mut self, name: &str, value: &str) -> (r: Result<(), TmuxError>)
        ensures
            match final(self).runner().calls().last().failure {
                Some(e) => r == Err::<(), TmuxError>(e),
                None => r == Ok::<(), TmuxError>(()),
            },
            final(self).written() == old(self).written().push((name@, value@)),
            final(self).write_outcomes() == old(self).write_outcomes().push(r),
            final(self).reads_made() == old(self).reads_made(),
            final(self).runner().calls().len() == old(self).runner().calls().len() + 1,
            final(self).runner().calls().drop_last() == old(self).runner().calls(),
            final(self).runner().calls().last().args == set_option_args(name@, value@),
            (r is Ok) == final(self).runner().calls().last().reply.is_some(),
    {
        let args = ["set", "-g", name, value];
        assert(argv(args@) =~= set_option_args(name@, value@));
        proof {
            self.written@ = self.written@.push((name@, value@));
        }
        let ghost before = self.runner.calls();
        let reply = self.runner.run(&args);
        assert(self.runner.calls().drop_last() =~= before);
        let r = match reply {
            Ok(_) => Ok(()),
            Err(e) => Err(e),
        };
        proof {
            self.results@ = self.results@.push(r);
        }
        r
    }
}

impl<R: TmuxRunner> SegmentWriter for TmuxWriter<R> {
    /// [`TmuxWriter::paint`].
    fn write_segment(&mut self, text: &str) -> (r: Result<(), TmuxError>)
        ensures
            match final(self).runner().calls().last().failure {
                Some(e) => r == Err::<(), TmuxError>(e),
                None => r == Ok::<(), TmuxError>(()),
            },
            final(self).written() == old(self).written(),
            final(self).write_outcomes() == old(self).write_outcomes(),
            final(self).reads_made() == old(self).reads_made(),
            ({
                let before = old(self).runner().calls();
                let after = final(self).runner().calls();
                &&& after.len() > before.len()
                &&& after.subrange(0, before.len() as int) == before
                &&& after[before.len() as int].args == set_status_args(text@)
                &&& if after[before.len() as int].reply.is_some() {
                    &&& after.len() == before.len() + 2
                    &&& after[before.len() + 1int].args == refresh_args()
                    &&& (r is Ok <==> after[before.len() + 1int].reply.is_some())
                } else {
                    after.len() == before.len() + 1 && r is Err
                }
            }),
    {
        self.paint(text)
    }
}

impl<R: TmuxRunner> OptionStore for TmuxWriter<R> {
    closed spec fn writes(&self) -> Seq<(Seq<char>, Seq<char>)> {
        self.written@
    }

    closed spec fn write_results(&self) -> Seq<Result<(), TmuxError>> {
        self.results@
    }

    closed spec fn reads(&self) -> Seq<(Seq<char>, Result<Option<Seq<char>>, TmuxError>)> {
        self.read@
    }

    /// [`TmuxWriter::read_option`].
    fn get(&mut self, name: &str) -> (r: Result<Option<String>, TmuxError>)
        ensures
            match final(self).runner().calls().last().failure {
                Some(e) => r == Err::<Option<String>, TmuxError>(e),
                None => r is Ok,
            },
            final(self).written() == old(self).written(),
            final(self).runner().calls().len() == old(self).runner().calls().len() + 1,
            final(self).runner().calls().drop_last() == old(self).runner().calls(),
            final(self).runner().calls().last().args == show_option_args(name@),
            match final(self).runner().calls().last().reply {
                Some(out) => (r matches Ok(value) && match value {
                    Some(v) => option_value(out) == Some(v@),
                    None => option_value(out).is_none(),
                }),
                None => r is Err,
            },
    {
        self.read_option(name)
    }

    /// [`TmuxWriter::write_option`].
    fn set(&mut self, name: &str, value: &str) -> Result<(), TmuxError> {
        self.write_option(name, value)
    }
}

/// `list-panes -F` format pairing a pane with its [`PANE_ROLE`].
pub fn pane_id_role_format() -> (r: String)
    ensures
        r@ == "#{pane_id}|#{"@ + PANE_ROLE@ + "}"@,
{
    let mut v: Vec<char> = Vec::new();
    crate::text::extend_str(&mut v, "#{pane_id}|#{");
    crate::text::extend_str(&mut v, PANE_ROLE);
    crate::text::extend_str(&mut v, "}");
    crate::text::string_of(&v)
}

// ───────────────────────────── one-shot invocations ─────────────────────────────

/// `after` is `before` with one more invocation, of `args`.
pub open spec fn one_more_call(before: Seq<TmuxCall>, after: Seq<TmuxCall>, args: Seq<Seq<char>>) -> bool {
    &&& after.len() == before.len() + 1
    &&& after.drop_last() == before
    &&& after.last().args == args
}

/// `after` keeps every invocation of `before`, in order, and may add more.
pub open spec fn extends(before: Seq<TmuxCall>, after: Seq<TmuxCall>) -> bool {
    after.len() >= before.len() && after.subrange(0, before.len() as int) == before
}

/// A record that grew twice grew.
pub proof fn lemma_extends_trans(x: Seq<TmuxCall>, y: Seq<TmuxCall>, z: Seq<TmuxCall>)
    requires
        extends(x, y),
        extends(y, z),
    ensures
        extends(x, z),
{
    assert(z.subrange(0, x.len() as int) =~= z.subrange(0, y.len() as int).subrange(0, x.len() as int));
}

/// A record extends itself.
pub proof fn lemma_extends_refl(x: Seq<TmuxCall>)
    ensures
        extends(x, x),
{
    assert(x.subrange(0, x.len() as int) =~= x);
}

/// One more invocation grows the record.
pub proof fn lemma_one_more_extends(before: Seq<TmuxCall>, after: Seq<TmuxCall>, args: Seq<Seq<char>>)
    requires
        one_more_call(before, after, args),
    ensures
        extends(before, after),
{
    assert(after.subrange(0, before.len() as int) =~= after.drop_last());
}

/// `after` holds the same first `n` invocations as `before`.
pub open spec fn agree(before: Seq<TmuxCall>, after: Seq<TmuxCall>, n: int) -> bool {
    &&& 0 <= n <= before.len()
    &&& n <= after.len()
    &&& forall|j: int| 0 <= j < n ==> #[trigger] after[j] == before[j]
}

/// A record that grew keeps what it held.
pub proof fn lemma_extends_agree(before: Seq<TmuxCall>, after: Seq<TmuxCall>)
    requires
        extends(before, after),
    ensures
        agree(before, after, before.len() as int),
{
    assert forall|j: int| 0 <= j < before.len() implies #[trigger] after[j] == before[j] by {
        assert(after.subrange(0, before.len() as int)[j] == after[j]);
    }
}

/// Agreement on a longer prefix is agreement on a shorter one.
pub proof fn lemma_agree_shorter(before: Seq<TmuxCall>, after: Seq<TmuxCall>, n: int, m: int)
    requires
        agree(before, after, n),
        0 <= m <= n,
    ensures
        agree(before, after, m),
{
}

/// What an invocation printed; empty when tmux failed.
pub open spec fn reply_text(call: TmuxCall) -> Seq<char> {
    match call.reply {
        Some(out) => out,
        None => Seq::<char>::empty(),
    }
}

/// Run `tmux <args>`: its answer, or `None` when it failed.
pub fn run_tmux<R: TmuxRunner>(runner: &mut Tmux<R>, args: &[&str]) -> (r: Option<String>)
    ensures
        one_more_call(old(runner).calls(), final(runner).calls(), argv(args@)),
        match final(runner).calls().last().reply {
            Some(out) => r matches Some(s) && s@ == out,
            None => r is None,
        },
{
    let ghost before = runner.calls();
    let reply = runner.run(args);
    assert(runner.calls().drop_last() =~= before);
    match reply {
        Ok(out) => Some(out),
        Err(_) => None,
    }
}

/// `display-message -p -t <target> <format>`.
pub open spec fn display_args(target: Seq<char>, format: Seq<char>) -> Seq<Seq<char>> {
    seq!["display-message"@, "-p"@, "-t"@, target, format]
}

/// Expand a tmux format string against a target; empty when tmux failed.
pub fn display_message<R: TmuxRunner>(runner: &mut Tmux<R>, target: &str, format: &str) -> (r: String)
    ensures
        one_more_call(old(runner).calls(), final(runner).calls(), display_args(target@, format@)),
        match final(runner).calls().last().reply {
            Some(out) => r@ == out,
            None => r@ == Seq::<char>::empty(),
        },
{
    let args = ["display-message", "-p", "-t", target, format];
    assert(argv(args@) =~= display_args(target@, format@));
    match run_tmux(runner, &args) {
        Some(out) => out,
        None => String::new(),
    }
}

/// `set -p -t <pane> <name> <value>`.
pub open spec fn set_pane_args(pane: Seq<char>, name: Seq<char>, value: Seq<char>) -> Seq<
    Seq<char>,
> {
    seq!["set"@, "-p"@, "-t"@, pane, name, value]
}

/// Set a pane-scoped user option; a failure is not reported.
pub fn set_pane_option<R: TmuxRunner>(runner: &mut Tmux<R>, pane: &str, name: &str, value: &str)
    ensures
        one_more_call(old(runner).calls(), final(runner).calls(), set_pane_args(pane@, name@, value@)),
{
    let args = ["set", "-p", "-t", pane, name, value];
    assert(argv(args@) =~= set_pane_args(pane@, name@, value@));
    let _ = run_tmux(runner, &args);
}

/// `set -p -u -t <pane> <name>`.
pub open spec fn unset_pane_args(pane: Seq<char>, name: Seq<char>) -> Seq<Seq<char>> {
    seq!["set"@, "-p"@, "-u"@, "-t"@, pane, name]
}

/// Forget a pane-scoped user option; a failure is not reported.
pub fn unset_pane_option<R: TmuxRunner>(runner: &mut Tmux<R>, pane: &str, name: &str)
    ensures
        one_more_call(old(runner).calls(), final(runner).calls(), unset_pane_args(pane@, name@)),
{
    let args = ["set", "-p", "-u", "-t", pane, name];
    assert(argv(args@) =~= unset_pane_args(pane@, name@));
    let _ = run_tmux(runner, &args);
}

/// `set -w -t <window> <name> <value>`.
pub open spec fn set_window_args(window: Seq<char>, name: Seq<char>, value: Seq<char>) -> Seq<
    Seq<char>,
> {
    seq!["set"@, "-w"@, "-t"@, window, name, value]
}

/// Set a window-scoped user option; a failure is not reported.
pub fn set_window_option<R: TmuxRunner>(runner: &mut Tmux<R>, window: &str, name: &str, value: &str)
    ensures
        one_more_call(
            old(runner).calls(),
            final(runner).calls(),
            set_window_args(window@, name@, value@),
        ),
{
    let args = ["set", "-w", "-t", window, name, value];
    assert(argv(args@) =~= set_window_args(window@, name@, value@));
    let _ = run_tmux(runner, &args);
}

/// `set -w -u -t <window> <name>`.
pub open spec fn unset_window_args(window: Seq<char>, name: Seq<char>) -> Seq<Seq<char>> {
    seq!["set"@, "-w"@, "-u"@, "-t"@, window, name]
}

/// Forget a window-scoped user option; a failure is not reported.
pub fn unset_window_option<R: TmuxRunner>(runner: &mut Tmux<R>, window: &str, name: &str)
    ensures
        one_more_call(old(runner).calls(), final(runner).calls(), unset_window_args(window@, name@)),
{
    let args = ["set", "-w", "-u", "-t", window, name];
    assert(argv(args@) =~= unset_window_args(window@, name@));
    let _ = run_tmux(runner, &args);
}

/// The format that expands to an option's value: `#{<name>}`.
pub open spec fn option_format(name: Seq<char>) -> Seq<char> {
    seq!['#', '{'] + name + seq!['}']
}

/// Read a window-scoped user option; `None` when unset, blank or when tmux
/// failed.
pub fn window_option<R: TmuxRunner>(runner: &mut Tmux<R>, window: &str, name: &str) -> (r: Option<String>)
    ensures
        one_more_call(
            old(runner).calls(),
            final(runner).calls(),
            display_args(window@, option_format(name@)),
        ),
        match final(runner).calls().last().reply {
            Some(out) => crate::machine::opt_string_view(r) == option_value(out),
            None => r is None,
        },
{
    let mut f: Vec<char> = Vec::new();
    f.push('#');
    f.push('{');
    crate::text::extend_str(&mut f, name);
    f.push('}');
    assert(f@ =~= option_format(name@));
    let format = crate::text::string_of(&f);
    let value = display_message(runner, window, format.as_str());
    let v = chars_of(value.as_str());
    let (a, b) = trim_bounds(&v);
    if a == b {
        None
    } else {
        Some(string_of_range(&v, a, b))
    }
}

/// `display-message -p -t <pane> #{pane_id}`.
pub open spec fn pane_id_args(pane: Seq<char>) -> Seq<Seq<char>> {
    display_args(pane, "#{pane_id}"@)
}

/// Whether tmux still knows `pane`: it answered with a non-empty id.
pub fn pane_exists<R: TmuxRunner>(runner: &mut Tmux<R>, pane: &str) -> (b: bool)
    ensures
        one_more_call(old(runner).calls(), final(runner).calls(), pane_id_args(pane@)),
        b == (final(runner).calls().last().reply matches Some(out) && out.len() > 0),
{
    let args = ["display-message", "-p", "-t", pane, "#{pane_id}"];
    assert(argv(args@) =~= pane_id_args(pane@));
    match run_tmux(runner, &args) {
        Some(id) => id.unicode_len() > 0,
        None => false,
    }
}

/// `list-panes -t <window> -F <pane_id_role_format>`.
pub open spec fn list_panes_args(window: Seq<char>) -> Seq<Seq<char>> {
    seq!["list-panes"@, "-t"@, window, "-F"@, "#{pane_id}|#{"@ + PANE_ROLE@ + "}"@]
}

/// The first `pane|role` line naming a pane that is neither `sidebar` nor
/// sidebar-roled; lines without a `|` are skipped.
pub open spec fn sibling_in(ls: Seq<Seq<char>>, sidebar: Seq<char>) -> Option<Seq<char>>
    decreases ls.len(),
{
    if ls.len() == 0 {
        None
    } else {
        let rest = sibling_in(ls.drop_first(), sidebar);
        match crate::text::find_char(ls[0], '|') {
            None => rest,
            Some(i) => {
                let pane = ls[0].take(i as int);
                let role = ls[0].skip(i as int + 1);
                if pane == sidebar || role == SIDEBAR_ROLE@ {
                    rest
                } else {
                    Some(pane)
                }
            },
        }
    }
}

/// First pane in `window_id` that is neither the sidebar pane nor
/// sidebar-roled; `None` when there is none or tmux failed.
pub fn sibling_content_pane<R: TmuxRunner>(runner: &mut Tmux<R>, window_id: &str, sidebar_pane: &str) -> (r: Option<String>)
    ensures
        one_more_call(old(runner).calls(), final(runner).calls(), list_panes_args(window_id@)),
        match final(runner).calls().last().reply {
            Some(out) => crate::machine::opt_string_view(r) == sibling_in(
                crate::text::lines(out),
                sidebar_pane@,
            ),
            None => r is None,
        },
{
    let format = pane_id_role_format();
    let args = ["list-panes", "-t", window_id, "-F", format.as_str()];
    assert(argv(args@) =~= list_panes_args(window_id@));
    let out = match run_tmux(runner, &args) {
        Some(out) => out,
        None => return None,
    };
    let v = chars_of(out.as_str());
    let ranges = crate::text::line_ranges(&v);
    let ghost ls = crate::text::ranges_text(v@, ranges@);
    let sb = chars_of(sidebar_pane);
    let mut i: usize = 0;
    assert(ls.skip(0) =~= ls);
    while i < ranges.len()
        invariant
            i <= ranges.len(),
            ls == crate::text::ranges_text(v@, ranges@),
            crate::text::ranges_valid(v@, ranges@),
            sb@ == sidebar_pane@,
            ls == crate::text::lines(v@),
            one_more_call(old(runner).calls(), runner.calls(), list_panes_args(window_id@)),
            runner.calls().last().reply == Some(v@),
            sibling_in(ls, sb@) == sibling_in(ls.skip(i as int), sb@),
        decreases ranges.len() - i,
    {
        let s = ranges[i].start;
        let e = ranges[i].end;
        let ghost l = v@.subrange(s as int, e as int);
        assert(ls.skip(i as int).drop_first() =~= ls.skip(i + 1));
        assert(ls.skip(i as int)[0] == l);
        let bar = crate::text::before_first_in(&v, s, e, '|');
        proof {
            assert forall|m: int| 0 <= m < bar - s implies #[trigger] l[m] != '|' by {
                assert(l[m] == v@[s + m]);
            }
            assert(l.skip(0) =~= l);
            if bar < e {
                assert(l[bar - s] == '|');
                crate::text::lemma_find_char_at(l, '|', 0, bar - s);
                assert(l.take(bar - s) =~= v@.subrange(s as int, bar as int));
                assert(l.skip(bar - s + 1) =~= v@.subrange(bar + 1, e as int));
            } else {
                crate::text::lemma_find_char_none(l, '|', 0);
            }
        }
        if bar < e {
            let pane_is_sidebar = crate::text::range_eq(&v, s, bar, sidebar_pane);
            let role_is_sidebar = crate::text::range_eq(&v, bar + 1, e, SIDEBAR_ROLE);
            if !pane_is_sidebar && !role_is_sidebar {
                return Some(string_of_range(&v, s, bar));
            }
        }
        i = i + 1;
    }
    assert(ls.skip(i as int) =~= Seq::<Seq<char>>::empty());
    None
}

/// The server socket named by `$TMUX` (`/path/to/socket,pid,session`): what
/// comes before the first comma, trimmed, when that is not empty.
pub open spec fn socket_spec(raw: Seq<char>) -> Option<Seq<char>> {
    let first = trim(crate::text::before_first(raw, ','));
    if first.len() > 0 {
        Some(first)
    } else {
        None
    }
}

pub fn socket_from_env(raw: &str) -> (r: Option<String>)
    ensures
        crate::machine::opt_string_view(r) == socket_spec(raw@),
{
    let v = chars_of(raw);
    let k = crate::text::before_first_in(&v, 0, v.len(), ',');
    assert(v@.subrange(0, v.len() as int) =~= v@);
    let (a, b) = crate::text::trim_range(&v, 0, k);
    if a == b {
        None
    } else {
        Some(string_of_range(&v, a, b))
    }
}

} // verus!
