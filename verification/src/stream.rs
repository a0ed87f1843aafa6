//! Painting one attach to the hub's stream into the tmux status line.
//!
//! The attach reads frames from a [`FrameSource`] and paints each into a
//! [`SegmentWriter`]; whoever owns the socket supplies the source. The
//! session never sleeps: [`Backoff`] computes the delay between attaches and
//! the caller waits. That is what lets a whole reconnect story be a test.
//!
//! When the offline placeholder is written: every attach that ends writes it —
//! a failed open, a clean close and a connection that died mid-flight alike.
//! In all three there is no hub behind the numbers any more, and a status line
//! that keeps painting stale counts lies. [`Attempt::ServerGone`] writes
//! nothing: there is no tmux left to write to.
use vstd::prelude::*;

use crate::frame::{Frame, JobView};
use crate::summary::{render_template, SummaryRenderer};
use crate::tally::{lemma_counts_is_tally_of, lemma_tally_counts_every_job_once, tally_of, Tally};
use crate::text::{chars_of, string_of};
use crate::tmux::{SegmentWriter, TmuxError};

verus! {

/// The one stream this surface opens.
pub const STREAM_PATH: &'static str = "/v1/stream?surface=tmux";

/// The hub's job list.
pub const JOBS_PATH: &'static str = "/v1/jobs";

/// How one attach ended.
#[derive(Clone, Copy, Debug, PartialEq, Eq, Structural)]
pub enum Attempt {
    /// The attach is over after delivering `frames` frames. Zero means the hub
    /// was never reachable.
    Ended { frames: usize },
    /// tmux itself is gone: the caller exits 0 and drops the connection, which
    /// is how the hub learns this surface left.
    ServerGone,
}

/// Why the stream could not be read.
#[derive(Debug)]
pub enum StreamError {
    /// Nothing answered on the hub's address.
    Unreachable,
    /// The connection died, or carried something that would not decode.
    Broken(String),
}

/// One long-lived stream from the hub. Blocking and pull-based.
pub trait FrameSource {
    /// Open the connection. Holding it open is this surface's presence: it
    /// is what keeps the hub alive.
    fn open(&mut self) -> Result<(), StreamError>;

    /// Block for the next frame. `Ok(None)`: the hub closed the stream.
    fn next_frame(&mut self) -> Result<Option<Frame>, StreamError>;
}

/// The status-line text of a frame of `jobs` under `template`.
pub open spec fn frame_text(template: Seq<char>, jobs: Seq<JobView>) -> Seq<char> {
    render_template(template, tally_of(jobs))
}

/// The texts of the frames `frames`, in order.
pub open spec fn frame_texts(template: Seq<char>, frames: Seq<Seq<JobView>>) -> Seq<Seq<char>> {
    Seq::new(frames.len(), |i: int| frame_text(template, frames[i]))
}

/// What the source answered, one call at a time.
pub enum SourceEvent {
    /// `open`, and whether it succeeded.
    Opened { ok: bool },
    /// `next_frame` delivered a frame of these jobs.
    Delivered { jobs: Seq<JobView> },
    /// `next_frame` answered that the hub closed the stream.
    Closed,
    /// `next_frame` failed.
    Failed,
}

/// Whether a write answered that the tmux server is gone.
pub open spec fn answered_gone(r: Result<(), TmuxError>) -> bool {
    r matches Err(TmuxError::ServerGone)
}

/// One attach, from open to close, painting every frame it is given.
pub struct StreamSession<S: FrameSource, W: SegmentWriter> {
    source: S,
    writer: W,
    summary: SummaryRenderer,
    offline: String,
    painted: Ghost<Seq<Seq<char>>>,
    received: Ghost<Seq<Seq<JobView>>>,
    heard: Ghost<Seq<SourceEvent>>,
    wrote: Ghost<Seq<Result<(), TmuxError>>>,
}

impl<S: FrameSource, W: SegmentWriter> StreamSession<S, W> {
    /// Every text handed to the writer so far, oldest first.
    pub closed spec fn painted(&self) -> Seq<Seq<char>> {
        self.painted@
    }

    /// The jobs of every frame the source delivered so far, oldest first.
    pub closed spec fn received(&self) -> Seq<Seq<JobView>> {
        self.received@
    }

    /// Every answer of the source so far, oldest first.
    pub closed spec fn events(&self) -> Seq<SourceEvent> {
        self.heard@
    }

    /// What every write answered so far, oldest first, one per painted text.
    pub closed spec fn write_results(&self) -> Seq<Result<(), TmuxError>> {
        self.wrote@
    }

    /// The placeholder painted when the hub goes away.
    pub closed spec fn offline(&self) -> Seq<char> {
        self.offline@
    }

    /// The template frames are rendered with.
    pub closed spec fn template(&self) -> Seq<char> {
        self.summary.template()
    }

    pub fn new(source: S, writer: W, summary: SummaryRenderer, offline: &str) -> (s: Self)
        ensures
            s.offline() == offline@,
            s.template() == summary.template(),
            s.painted() == Seq::<Seq<char>>::empty(),
            s.received() == Seq::<Seq<JobView>>::empty(),
            s.events() == Seq::<SourceEvent>::empty(),
            s.write_results() == Seq::<Result<(), TmuxError>>::empty(),
    {
        StreamSession {
            source,
            writer,
            summary,
            offline: string_of(&chars_of(offline)),
            painted: Ghost(Seq::empty()),
            received: Ghost(Seq::empty()),
            heard: Ghost(Seq::empty()),
            wrote: Ghost(Seq::empty()),
        }
    }

    /// One attach, start to finish. Never sleeps: [`Backoff`] computes the
    /// delay between attaches and the caller waits.
    ///
    /// The source is opened; every frame it then delivers is painted as its
    /// tally, in order, until it answers that the stream closed or failed.
    /// An attach that ends so, or whose open failed, then paints the offline
    /// placeholder. When a write answers that tmux's server is gone, the
    /// attach stops at once: nothing more is read or painted. (Past
    /// `usize::MAX` frames the count cannot grow, and the attach ends.)
    pub fn attach(&mut self) -> (a: Attempt)
        ensures
            final(self).offline() == old(self).offline(),
            final(self).template() == old(self).template(),
            ({
                let r0 = old(self).received().len() as int;
                let e0 = old(self).events().len() as int;
                let w0 = old(self).write_results().len() as int;
                let delivered = final(self).received().subrange(r0, final(self).received().len() as int);
                let ev = final(self).events().subrange(e0, final(self).events().len() as int);
                let wr = final(self).write_results().subrange(w0, final(self).write_results().len() as int);
                let n = delivered.len() as int;
                let texts = old(self).painted() + frame_texts(old(self).template(), delivered);
                let opened = ev[0] == (SourceEvent::Opened { ok: true });
                let ended = ev.len() == n + 2 && (ev.last() is Closed || ev.last() is Failed);
                &&& r0 <= final(self).received().len()
                &&& final(self).received().subrange(0, r0) == old(self).received()
                &&& e0 <= final(self).events().len()
                &&& final(self).events().subrange(0, e0) == old(self).events()
                &&& w0 <= final(self).write_results().len()
                &&& final(self).write_results().subrange(0, w0) == old(self).write_results()
                &&& final(self).painted().len() == old(self).painted().len() + wr.len()
                &&& ev.len() >= 1
                &&& (ev[0] is Opened)
                &&& !opened ==> n == 0 && ev.len() == 1
                &&& forall|k: int| 0 <= k < n ==> ev[k + 1] == (SourceEvent::Delivered { jobs: #[trigger] delivered[k] })
                &&& opened ==> ev.len() == n + 1 || ended
                &&& match a {
                    Attempt::Ended { frames } => {
                        &&& frames == n
                        &&& final(self).painted() == texts.push(old(self).offline())
                        &&& forall|k: int| 0 <= k < wr.len() ==> !answered_gone(#[trigger] wr[k])
                        &&& opened ==> ended || n == usize::MAX
                    },
                    Attempt::ServerGone => {
                        &&& wr.len() >= 1
                        &&& answered_gone(wr.last())
                        &&& forall|k: int| 0 <= k < wr.len() - 1 ==> !answered_gone(#[trigger] wr[k])
                        &&& {
                            ||| final(self).painted() == texts && n > 0 && ev.len() == n + 1
                            ||| final(self).painted() == texts.push(old(self).offline()) && (!opened || ended
                                || n == usize::MAX)
                        }
                    },
                }
            }),
    {
        let ghost r0 = self.received@;
        let ghost p0 = self.painted@;
        let ghost e0 = self.heard@;
        let ghost w0 = self.wrote@;
        let ghost template = self.summary.template();
        let opened = self.source.open().is_ok();
        proof {
            self.heard@ = self.heard@.push(SourceEvent::Opened { ok: opened });
        }
        if !opened {
            let a = self.go_offline(0);
            proof {
                assert(self.received@.subrange(0, r0.len() as int) =~= r0);
                assert(frame_texts(template, self.received@.subrange(r0.len() as int, r0.len() as int))
                    =~= Seq::<Seq<char>>::empty());
                assert(p0 + Seq::<Seq<char>>::empty() =~= p0);
                assert(self.heard@.subrange(0, e0.len() as int) =~= e0);
                assert(self.wrote@.subrange(0, w0.len() as int) =~= w0);
                let ev = self.heard@.subrange(e0.len() as int, self.heard@.len() as int);
                assert(ev[0] == self.heard@[e0.len() as int]);
                let wr = self.wrote@.subrange(w0.len() as int, self.wrote@.len() as int);
                assert(wr.len() == 1 && wr[0] == self.wrote@.last());
            }
            return a;
        }
        let mut frames: usize = 0;
        while frames < usize::MAX
            invariant
                self.offline@ == old(self).offline(),
                self.summary.template() == template,
                template == old(self).template(),
                r0 == old(self).received(),
                p0 == old(self).painted(),
                e0 == old(self).events(),
                w0 == old(self).write_results(),
                self.received@.len() == r0.len() + frames,
                self.received@.subrange(0, r0.len() as int) == r0,
                self.painted@ == p0 + frame_texts(
                    template,
                    self.received@.subrange(r0.len() as int, self.received@.len() as int),
                ),
                self.heard@.len() == e0.len() + 1 + frames,
                self.heard@.subrange(0, e0.len() as int) == e0,
                self.heard@[e0.len() as int] == (SourceEvent::Opened { ok: true }),
                forall|k: int| 0 <= k < frames ==> #[trigger] self.heard@[e0.len() + 1 + k] == (SourceEvent::Delivered {
                    jobs: self.received@[r0.len() + k],
                }),
                self.wrote@.len() == w0.len() + frames,
                self.wrote@.subrange(0, w0.len() as int) == w0,
                forall|k: int| 0 <= k < frames ==> !answered_gone(#[trigger] self.wrote@[w0.len() + k]),
            decreases usize::MAX - frames,
        {
            match self.source.next_frame() {
                Ok(Some(frame)) => {
                    let ghost before = self.received@;
                    let ghost heard_before = self.heard@;
                    let ghost wrote_before = self.wrote@;
                    frames = frames + 1;
                    proof {
                        self.received@ = self.received@.push(frame.jobs@);
                        self.heard@ = self.heard@.push(SourceEvent::Delivered { jobs: frame.jobs@ });
                        assert(self.received@.subrange(0, r0.len() as int) =~= r0);
                        assert(self.heard@.subrange(0, e0.len() as int) =~= e0);
                        assert(self.received@.subrange(r0.len() as int, self.received@.len() as int)
                            =~= before.subrange(r0.len() as int, before.len() as int).push(frame.jobs@));
                        assert forall|k: int| 0 <= k < frames implies #[trigger] self.heard@[e0.len() + 1 + k]
                            == (SourceEvent::Delivered { jobs: self.received@[r0.len() + k] }) by {
                            if k < frames - 1 {
                                assert(self.heard@[e0.len() + 1 + k] == heard_before[e0.len() + 1 + k]);
                                assert(self.received@[r0.len() + k] == before[r0.len() + k]);
                            }
                        }
                    }
                    let tally = Tally::of(frame.jobs.as_slice());
                    proof {
                        lemma_tally_counts_every_job_once(tally, frame.jobs@);
                        lemma_counts_is_tally_of(tally, frame.jobs@);
                        assert(tally.spec_total() == frame.jobs.len());
                    }
                    let text = self.summary.render(&tally);
                    let gone = self.paint(text.as_str());
                    proof {
                        let d = self.received@.subrange(r0.len() as int, self.received@.len() as int);
                        let d0 = before.subrange(r0.len() as int, before.len() as int);
                        assert(frame_texts(template, d) =~= frame_texts(template, d0).push(text@));
                        assert(self.painted@ =~= p0 + frame_texts(template, d));
                        assert(self.wrote@.subrange(0, w0.len() as int) =~= w0);
                        assert forall|k: int| 0 <= k < frames - 1 implies !answered_gone(
                            #[trigger] self.wrote@[w0.len() + k],
                        ) by {
                            assert(self.wrote@[w0.len() + k] == wrote_before[w0.len() + k]);
                        }
                    }
                    if gone {
                        proof {
                            self.lemma_attach_view(r0, e0, w0);
                            let ev = self.heard@.subrange(e0.len() as int, self.heard@.len() as int);
                            let wr = self.wrote@.subrange(w0.len() as int, self.wrote@.len() as int);
                            let delivered = self.received@.subrange(r0.len() as int, self.received@.len() as int);
                            assert(delivered.len() == frames);
                            assert(ev[0] == (SourceEvent::Opened { ok: true }));
                            assert(ev.len() == frames + 1);
                            assert forall|k: int| 0 <= k < frames implies ev[k + 1] == (SourceEvent::Delivered {
                                jobs: #[trigger] delivered[k],
                            }) by {
                                assert(ev[k + 1] == self.heard@[e0.len() + 1 + k]);
                                assert(delivered[k] == self.received@[r0.len() + k]);
                            }
                            assert forall|k: int| 0 <= k < frames - 1 implies !answered_gone(#[trigger] wr[k]) by {
                                assert(wr[k] == self.wrote@[w0.len() + k]);
                            }
                            assert(wr.last() == self.wrote@.last());
                        }
                        return Attempt::ServerGone;
                    }
                },
                Ok(None) => {
                    proof {
                        self.heard@ = self.heard@.push(SourceEvent::Closed);
                        assert(self.heard@.subrange(0, e0.len() as int) =~= e0);
                    }
                    let ghost wb = self.wrote@;
                    let a = self.go_offline(frames);
                    proof {
                        self.lemma_attach_view(r0, e0, w0);
                        let ev = self.heard@.subrange(e0.len() as int, self.heard@.len() as int);
                        let wr = self.wrote@.subrange(w0.len() as int, self.wrote@.len() as int);
                        let delivered = self.received@.subrange(r0.len() as int, self.received@.len() as int);
                        assert(delivered.len() == frames);
                        assert(ev[0] == (SourceEvent::Opened { ok: true }));
                        assert(ev.len() == frames + 2);
                        assert(ev.last() == ev[frames + 1]);
                        assert(ev[frames + 1] == self.heard@[e0.len() + frames + 1]);
                        assert(ev.last() is Closed);
                        assert forall|k: int| 0 <= k < frames implies ev[k + 1] == (SourceEvent::Delivered {
                            jobs: #[trigger] delivered[k],
                        }) by {
                            assert(ev[k + 1] == self.heard@[e0.len() + 1 + k]);
                            assert(delivered[k] == self.received@[r0.len() + k]);
                        }
                        assert forall|k: int| 0 <= k < frames - 1 implies !answered_gone(#[trigger] wr[k]) by {
                            assert(wr[k] == self.wrote@[w0.len() + k]);
                        }
                        assert(wr.last() == self.wrote@.last());
                    }
                    return a;
                },
                Err(_) => {
                    proof {
                        self.heard@ = self.heard@.push(SourceEvent::Failed);
                        assert(self.heard@.subrange(0, e0.len() as int) =~= e0);
                    }
                    let ghost wb = self.wrote@;
                    let a = self.go_offline(frames);
                    proof {
                        self.lemma_attach_view(r0, e0, w0);
                        let ev = self.heard@.subrange(e0.len() as int, self.heard@.len() as int);
                        let wr = self.wrote@.subrange(w0.len() as int, self.wrote@.len() as int);
                        let delivered = self.received@.subrange(r0.len() as int, self.received@.len() as int);
                        assert(delivered.len() == frames);
                        assert(ev[0] == (SourceEvent::Opened { ok: true }));
                        assert(ev.len() == frames + 2);
                        assert(ev.last() == ev[frames + 1]);
                        assert(ev[frames + 1] == self.heard@[e0.len() + frames + 1]);
                        assert(ev.last() is Failed);
                        assert forall|k: int| 0 <= k < frames implies ev[k + 1] == (SourceEvent::Delivered {
                            jobs: #[trigger] delivered[k],
                        }) by {
                            assert(ev[k + 1] == self.heard@[e0.len() + 1 + k]);
                            assert(delivered[k] == self.received@[r0.len() + k]);
                        }
                        assert forall|k: int| 0 <= k < frames - 1 implies !answered_gone(#[trigger] wr[k]) by {
                            assert(wr[k] == self.wrote@[w0.len() + k]);
                        }
                        assert(wr.last() == self.wrote@.last());
                    }
                    return a;
                },
            }
        }
        let ghost wb = self.wrote@;
        let a = self.go_offline(frames);
        proof {
            self.lemma_attach_view(r0, e0, w0);
            let ev = self.heard@.subrange(e0.len() as int, self.heard@.len() as int);
            let wr = self.wrote@.subrange(w0.len() as int, self.wrote@.len() as int);
            let delivered = self.received@.subrange(r0.len() as int, self.received@.len() as int);
            assert(delivered.len() == frames);
            assert(ev[0] == (SourceEvent::Opened { ok: true }));
            assert(ev.len() == frames + 1);
            assert(frames == usize::MAX);
            assert forall|k: int| 0 <= k < frames implies ev[k + 1] == (SourceEvent::Delivered {
                jobs: #[trigger] delivered[k],
            }) by {
                assert(ev[k + 1] == self.heard@[e0.len() + 1 + k]);
                assert(delivered[k] == self.received@[r0.len() + k]);
            }
            assert forall|k: int| 0 <= k < frames implies !answered_gone(#[trigger] wr[k]) by {
                assert(wr[k] == self.wrote@[w0.len() + k]);
                assert(self.wrote@[w0.len() + k] == wb[w0.len() + k]);
            }
            assert(wr.last() == self.wrote@.last());
        }
        a
    }

    /// Restates what the logs hold from positions `r0`, `e0` and `w0` on, as
    /// the slices `attach` speaks of.
    proof fn lemma_attach_view(&self, r0: Seq<Seq<JobView>>, e0: Seq<SourceEvent>, w0: Seq<Result<(), TmuxError>>)
        requires
            r0.len() <= self.received@.len(),
            e0.len() < self.heard@.len(),
            w0.len() <= self.wrote@.len(),
        ensures
            forall|k: int|
                0 <= k < self.heard@.len() - e0.len() ==> #[trigger] self.heard@.subrange(
                    e0.len() as int,
                    self.heard@.len() as int,
                )[k] == self.heard@[e0.len() + k],
            forall|k: int|
                0 <= k < self.received@.len() - r0.len() ==> #[trigger] self.received@.subrange(
                    r0.len() as int,
                    self.received@.len() as int,
                )[k] == self.received@[r0.len() + k],
            forall|k: int|
                0 <= k < self.wrote@.len() - w0.len() ==> #[trigger] self.wrote@.subrange(
                    w0.len() as int,
                    self.wrote@.len() as int,
                )[k] == self.wrote@[w0.len() + k],
    {
    }

    /// Write the placeholder and report the attach as over, or as stopped
    /// when the write answered that tmux's server is gone.
    fn go_offline(&mut self, frames: usize) -> (a: Attempt)
        ensures
            final(self).offline() == old(self).offline(),
            final(self).summary == old(self).summary,
            final(self).received() == old(self).received(),
            final(self).events() == old(self).events(),
            final(self).painted() == old(self).painted().push(old(self).offline()),
            final(self).write_results() == old(self).write_results().push(final(self).write_results().last()),
            a == if answered_gone(final(self).write_results().last()) {
                Attempt::ServerGone
            } else {
                Attempt::Ended { frames }
            },
    {
        let offline = string_of(&chars_of(self.offline.as_str()));
        if self.paint(offline.as_str()) {
            return Attempt::ServerGone;
        }
        Attempt::Ended { frames }
    }

    /// Paint one text; `true` exactly when the write answered that tmux's
    /// server is gone. Any other tmux failure costs this repaint and nothing
    /// more.
    fn paint(&mut self, text: &str) -> (gone: bool)
        ensures
            final(self).offline() == old(self).offline(),
            final(self).summary == old(self).summary,
            final(self).received() == old(self).received(),
            final(self).events() == old(self).events(),
            final(self).painted() == old(self).painted().push(text@),
            final(self).write_results() == old(self).write_results().push(final(self).write_results().last()),
            gone == answered_gone(final(self).write_results().last()),
    {
        proof {
            self.painted@ = self.painted@.push(text@);
        }
        let r = self.writer.write_segment(text);
        let gone = match &r {
            Err(e) => e.is_server_gone(),
            Ok(()) => false,
        };
        proof {
            self.wrote@ = self.wrote@.push(r);
        }
        gone
    }
}

// ───────────────────────────── reconnect delay ─────────────────────────────

/// The first reconnect delay, in milliseconds.
pub const FIRST_MS: u64 = 500;

/// The longest reconnect delay, in milliseconds.
pub const CAP_MS: u64 = 30000;

/// The delay after `n` consecutive failures, doubling from the first and
/// capped.
pub open spec fn delay_after(n: nat) -> nat
    decreases n,
{
    if n == 0 {
        FIRST_MS as nat
    } else {
        let d = 2 * delay_after((n - 1) as nat);
        if d > CAP_MS {
            CAP_MS as nat
        } else {
            d
        }
    }
}

/// Doubling reconnect delay: 0.5 s, capped at 30 s, reset by any attach that
/// delivered a frame. Delays are in milliseconds.
#[derive(Clone, Copy)]
pub struct Backoff {
    next_ms: u64,
    failures: Ghost<nat>,
}

impl Backoff {
    /// The first delay, in milliseconds.
    pub const FIRST: u64 = 500;

    /// The longest delay, in milliseconds.
    pub const CAP: u64 = 30000;

    /// Consecutive failures since the last reset.
    pub closed spec fn failures(&self) -> nat {
        self.failures@
    }

    pub closed spec fn wf(&self) -> bool {
        self.next_ms == delay_after(self.failures@)
    }

    pub fn new() -> (b: Backoff)
        ensures
            b.wf(),
            b.failures() == 0,
    {
        Backoff { next_ms: FIRST_MS, failures: Ghost(0) }
    }

    /// The delay to wait after this failure; the next one doubles, up to the
    /// cap.
    pub fn fail(&mut self) -> (delay_ms: u64)
        requires
            old(self).wf(),
        ensures
            final(self).wf(),
            final(self).failures() == old(self).failures() + 1,
            delay_ms == delay_after(old(self).failures()),
    {
        proof {
            lemma_delay_capped(self.failures@);
        }
        let delay = self.next_ms;
        self.next_ms = if delay > CAP_MS / 2 {
            CAP_MS
        } else {
            2 * delay
        };
        self.failures = Ghost(self.failures@ + 1);
        delay
    }

    /// What the next [`Self::fail`] will return, without consuming it.
    pub fn peek(&self) -> (delay_ms: u64)
        requires
            self.wf(),
        ensures
            delay_ms == delay_after(self.failures()),
    {
        self.next_ms
    }

    /// Back to the first delay.
    pub fn reset(&mut self)
        ensures
            final(self).wf(),
            final(self).failures() == 0,
    {
        self.next_ms = FIRST_MS;
        self.failures = Ghost(0);
    }
}

impl Default for Backoff {
    fn default() -> (b: Backoff)
        ensures
            b.wf(),
            b.failures() == 0,
    {
        Backoff::new()
    }
}

/// Every delay lies between the first and the cap.
pub proof fn lemma_delay_capped(n: nat)
    ensures
        FIRST_MS <= delay_after(n) <= CAP_MS,
    decreases n,
{
    if n > 0 {
        lemma_delay_capped((n - 1) as nat);
    }
}

/// Once the hub has stayed away for six failures in a row, every further
/// delay is the cap, however long it stays away.
pub proof fn lemma_cap_holds(n: nat)
    requires
        n >= 6,
    ensures
        delay_after(n) == CAP_MS,
    decreases n,
{
    if n > 6 {
        lemma_cap_holds((n - 1) as nat);
    } else {
        assert(delay_after(5) == 16000) by {
            reveal_with_fuel(delay_after, 6);
        }
    }
}

} // verus!
