use std::cell::{Cell, RefCell};
use std::collections::VecDeque;
use std::rc::Rc;
use std::time::Duration;

use nerve_tmux_surface::frame::{Frame, JobView, Outcome};
use nerve_tmux_surface::stream::{Attempt, Backoff, FrameSource, StreamError, StreamSession};
use nerve_tmux_surface::summary::SummaryRenderer;
use nerve_tmux_surface::tmux::{SegmentWriter, TmuxError};

fn ms(n: u64) -> Duration {
    Duration::from_millis(n)
}

#[test]
fn test_a_fresh_backoff_starts_at_half_a_second() {
    assert_eq!(ms(Backoff::new().peek()), Duration::from_millis(500));
}

#[test]
fn test_the_first_delay_and_the_cap_are_the_documented_constants() {
    assert_eq!(ms(Backoff::FIRST), Duration::from_millis(500));
    assert_eq!(ms(Backoff::CAP), Duration::from_secs(30));
}

#[test]
fn test_consecutive_failures_double_up_to_a_thirty_second_cap() {
    let mut backoff = Backoff::new();

    let delays: Vec<Duration> = (0..8).map(|_| ms(backoff.fail())).collect();

    assert_eq!(
        delays,
        vec![
            Duration::from_millis(500),
            Duration::from_secs(1),
            Duration::from_secs(2),
            Duration::from_secs(4),
            Duration::from_secs(8),
            Duration::from_secs(16),
            Duration::from_secs(30),
            Duration::from_secs(30),
        ]
    );
}

#[test]
fn test_the_cap_holds_however_long_the_hub_stays_away() {
    let mut backoff = Backoff::new();
    for _ in 0..100 {
        backoff.fail();
    }

    assert_eq!(ms(backoff.fail()), Duration::from_secs(30));
}

#[test]
fn test_a_success_resets_the_delay_to_the_first_step() {
    let mut backoff = Backoff::new();
    for _ in 0..5 {
        backoff.fail();
    }

    backoff.reset();

    assert_eq!(ms(backoff.fail()), Duration::from_millis(500));
}

#[test]
fn test_peek_reports_what_the_next_failure_will_cost() {
    let mut backoff = Backoff::new();
    backoff.fail();

    assert_eq!(ms(backoff.peek()), Duration::from_secs(1));
    assert_eq!(ms(backoff.fail()), Duration::from_secs(1));
}

#[test]
fn test_resetting_a_fresh_backoff_changes_nothing() {
    let mut backoff = Backoff::new();
    backoff.reset();

    assert_eq!(ms(backoff.fail()), Duration::from_millis(500));
}

/// One open job: one running under the default template.
fn one_running() -> Frame {
    Frame { jobs: vec![JobView::new("a")], departed: vec![] }
}
const ONE_RUNNING_SEGMENT: &str = "#[fg=blue]1>#[default]";

/// One open job and one failed one.
fn running_and_problem() -> Frame {
    let mut failed = JobView::new("b");
    failed.outcome = Some(Outcome::Failure);
    Frame { jobs: vec![JobView::new("a"), failed], departed: vec![] }
}
const RUNNING_AND_PROBLEM_SEGMENT: &str = "#[fg=red]1!#[default] #[fg=blue]1>#[default]";

/// What the fake connection does next.
enum Step {
    /// Deliver this frame.
    Frame(Frame),
    /// The hub closed the stream.
    Close,
    /// The connection died.
    Broken,
}

struct FakeSource {
    /// Whether each successive `open()` succeeds.
    opens: VecDeque<bool>,
    steps: VecDeque<Step>,
    reads: Rc<Cell<usize>>,
}

impl FrameSource for FakeSource {
    fn open(&mut self) -> Result<(), StreamError> {
        match self.opens.pop_front() {
            Some(true) | None => Ok(()),
            Some(false) => Err(StreamError::Unreachable),
        }
    }

    fn next_frame(&mut self) -> Result<Option<Frame>, StreamError> {
        self.reads.set(self.reads.get() + 1);
        match self.steps.pop_front() {
            Some(Step::Frame(frame)) => Ok(Some(frame)),
            Some(Step::Close) | None => Ok(None),
            Some(Step::Broken) => Err(StreamError::Broken("connection reset".to_string())),
        }
    }
}

struct FakeWriter {
    log: Rc<RefCell<Vec<String>>>,
    errors: VecDeque<TmuxError>,
}

impl SegmentWriter for FakeWriter {
    fn write_segment(&mut self, text: &str) -> Result<(), TmuxError> {
        self.log.borrow_mut().push(text.to_string());
        match self.errors.pop_front() {
            Some(err) => Err(err),
            None => Ok(()),
        }
    }
}

struct Wires {
    log: Rc<RefCell<Vec<String>>>,
    reads: Rc<Cell<usize>>,
}

impl Wires {
    fn written(&self) -> Vec<String> {
        self.log.borrow().clone()
    }
}

fn session(
    opens: Vec<bool>,
    steps: Vec<Step>,
    errors: Vec<TmuxError>,
) -> (StreamSession<FakeSource, FakeWriter>, Wires) {
    session_with(opens, steps, errors, SummaryRenderer::DEFAULT_OFFLINE)
}

fn session_with(
    opens: Vec<bool>,
    steps: Vec<Step>,
    errors: Vec<TmuxError>,
    offline: &str,
) -> (StreamSession<FakeSource, FakeWriter>, Wires) {
    let log = Rc::new(RefCell::new(Vec::new()));
    let reads = Rc::new(Cell::new(0));
    let source = FakeSource { opens: opens.into(), steps: steps.into(), reads: Rc::clone(&reads) };
    let writer = FakeWriter { log: Rc::clone(&log), errors: errors.into() };
    (
        StreamSession::new(source, writer, SummaryRenderer::default(), offline),
        Wires { log, reads },
    )
}

#[test]
fn test_an_unreachable_hub_writes_the_offline_placeholder() {
    let (mut session, wires) = session(vec![false], vec![], vec![]);

    let attempt = session.attach();

    assert_eq!(attempt, Attempt::Ended { frames: 0 });
    assert_eq!(wires.written(), vec![SummaryRenderer::DEFAULT_OFFLINE]);
}

#[test]
fn test_an_unreachable_hub_is_never_read_from() {
    let (mut session, wires) = session(vec![false], vec![], vec![]);

    session.attach();

    assert_eq!(wires.reads.get(), 0);
}

#[test]
fn test_the_offline_text_is_the_one_the_session_was_given() {
    let (mut session, wires) = session_with(vec![false], vec![], vec![], "nerve: offline");

    session.attach();

    assert_eq!(wires.written(), vec!["nerve: offline"]);
}

#[test]
fn test_every_frame_is_rendered_into_the_segment() {
    let (mut session, wires) = session(
        vec![true],
        vec![Step::Frame(one_running()), Step::Frame(running_and_problem()), Step::Close],
        vec![],
    );

    let attempt = session.attach();

    assert_eq!(attempt, Attempt::Ended { frames: 2 });
    assert_eq!(
        wires.written(),
        vec![ONE_RUNNING_SEGMENT, RUNNING_AND_PROBLEM_SEGMENT, SummaryRenderer::DEFAULT_OFFLINE]
    );
}

#[test]
fn test_a_closed_stream_ends_the_attach_and_goes_offline() {
    let (mut session, wires) =
        session(vec![true], vec![Step::Frame(one_running()), Step::Close], vec![]);

    let attempt = session.attach();

    assert_eq!(attempt, Attempt::Ended { frames: 1 });
    assert_eq!(wires.written(), vec![ONE_RUNNING_SEGMENT, SummaryRenderer::DEFAULT_OFFLINE]);
}

#[test]
fn test_a_connection_that_dies_mid_flight_ends_the_attach_and_goes_offline() {
    let (mut session, wires) =
        session(vec![true], vec![Step::Frame(one_running()), Step::Broken], vec![]);

    let attempt = session.attach();

    assert_eq!(attempt, Attempt::Ended { frames: 1 });
    assert_eq!(wires.written(), vec![ONE_RUNNING_SEGMENT, SummaryRenderer::DEFAULT_OFFLINE]);
}

#[test]
fn test_a_reconnect_overwrites_the_offline_placeholder() {
    let (mut session, wires) =
        session(vec![false, true], vec![Step::Frame(one_running()), Step::Close], vec![]);

    let first = session.attach();
    let second = session.attach();

    assert_eq!(first, Attempt::Ended { frames: 0 });
    assert_eq!(second, Attempt::Ended { frames: 1 });
    assert_eq!(
        wires.written(),
        vec![SummaryRenderer::DEFAULT_OFFLINE, ONE_RUNNING_SEGMENT, SummaryRenderer::DEFAULT_OFFLINE]
    );
}

#[test]
fn test_a_gone_tmux_server_stops_the_session_at_once() {
    let (mut session, wires) = session(
        vec![true],
        vec![Step::Frame(one_running()), Step::Frame(running_and_problem()), Step::Close],
        vec![TmuxError::ServerGone],
    );

    let attempt = session.attach();

    assert_eq!(attempt, Attempt::ServerGone);
    assert_eq!(wires.reads.get(), 1);
}

#[test]
fn test_a_gone_tmux_server_writes_no_offline_placeholder() {
    let (mut session, wires) = session(
        vec![true],
        vec![Step::Frame(one_running()), Step::Close],
        vec![TmuxError::ServerGone],
    );

    session.attach();

    assert_eq!(wires.written(), vec![ONE_RUNNING_SEGMENT]);
}

#[test]
fn test_a_transient_tmux_failure_does_not_end_the_session() {
    let (mut session, wires) = session(
        vec![true],
        vec![Step::Frame(one_running()), Step::Frame(running_and_problem()), Step::Close],
        vec![TmuxError::Unavailable("resource temporarily unavailable".to_string())],
    );

    let attempt = session.attach();

    assert_eq!(attempt, Attempt::Ended { frames: 2 });
    assert_eq!(
        wires.written(),
        vec![ONE_RUNNING_SEGMENT, RUNNING_AND_PROBLEM_SEGMENT, SummaryRenderer::DEFAULT_OFFLINE]
    );
}

#[test]
fn test_a_gone_server_on_the_placeholder_is_reported_too() {
    let (mut session, wires) = session(vec![false], vec![], vec![TmuxError::ServerGone]);

    assert_eq!(session.attach(), Attempt::ServerGone);
    assert_eq!(wires.written(), vec![SummaryRenderer::DEFAULT_OFFLINE]);
}
