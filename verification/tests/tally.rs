use nerve_tmux_surface::frame::{
    Attention, AttentionLevel, Current, Frame, Health, JobView, Lifecycle, Outcome,
};
use nerve_tmux_surface::status::StatusClass;
use nerve_tmux_surface::tally::Tally;

/// A job with only an id and a lifecycle.
fn job(id: &str, lifecycle: Lifecycle) -> JobView {
    let mut job = JobView::new(id);
    job.lifecycle = lifecycle;
    job
}

fn attention(level: AttentionLevel, reason: Option<&str>) -> Attention {
    Attention { level, reason: reason.map(|r| r.to_string()), title: None }
}

fn current(kind: &str) -> Option<Current> {
    Some(Current { kind: kind.to_string(), name: None, summary: None, detail: None })
}

/// One frame carrying exactly one job per derived status, plus a departed row.
fn six_state_frame() -> Frame {
    let mut problem = job("agent-cli:problem", Lifecycle::Active);
    problem.kind = "session".to_string();
    problem.name = "nerve".to_string();
    problem.alias = "local".to_string();
    problem.current = Some(Current {
        kind: "tool".to_string(),
        name: Some("Bash".to_string()),
        summary: Some("Running tests".to_string()),
        detail: None,
    });
    problem.outcome = Some(Outcome::Failure);
    problem.extensions.pid = Some(4242);

    let mut ask = job("agent-cli:attention", Lifecycle::Active);
    ask.kind = "session".to_string();
    ask.name = "index-page".to_string();
    ask.alias = "local".to_string();
    ask.current = current("idle");
    ask.attention = Attention {
        level: AttentionLevel::Required,
        reason: Some("input".to_string()),
        title: Some("Your turn".to_string()),
    };

    let mut waiting = job("agent-cli:waiting", Lifecycle::Active);
    waiting.kind = "build".to_string();
    waiting.name = "xcodebuild Nerve".to_string();
    waiting.alias = "local".to_string();
    waiting.attention = attention(AttentionLevel::Suggested, Some("resource"));

    let mut running = job("agent-cli:running", Lifecycle::Active);
    running.kind = "session".to_string();
    running.name = "hub".to_string();
    running.alias = "local".to_string();
    running.current = Some(Current {
        kind: "thinking".to_string(),
        name: Some("build failed!!".to_string()),
        summary: Some("build failed!!".to_string()),
        detail: Some("error: cannot continue".to_string()),
    });
    running.attention = Attention {
        level: AttentionLevel::Quiet,
        reason: None,
        title: Some("build failed!!".to_string()),
    };

    let mut success = job("agent-cli:success", Lifecycle::Active);
    success.kind = "session".to_string();
    success.name = "docs".to_string();
    success.alias = "local".to_string();
    success.current = Some(Current {
        kind: "monitor".to_string(),
        name: None,
        summary: Some("Waiting for stream feedback".to_string()),
        detail: None,
    });
    success.outcome = Some(Outcome::Partial);

    let mut inactive = job("agent-cli:inactive", Lifecycle::Active);
    inactive.kind = "session".to_string();
    inactive.name = "scratch".to_string();
    inactive.alias = "local".to_string();
    inactive.current = Some(Current {
        kind: "starting".to_string(),
        name: None,
        summary: Some("Ready".to_string()),
        detail: None,
    });

    let mut departed = job("agent-cli:departed", Lifecycle::Ended);
    departed.kind = "session".to_string();
    departed.name = "gone".to_string();
    departed.alias = "local".to_string();
    departed.outcome = Some(Outcome::Failure);
    departed.attention = attention(AttentionLevel::Urgent, Some("failure"));
    departed.health = Health::Unresponsive;

    Frame {
        jobs: vec![problem, ask, waiting, running, success, inactive],
        departed: vec![departed],
    }
}

#[test]
fn test_the_six_state_frame_counts_one_of_each_class() {
    let decoded = six_state_frame();
    let tally = Tally::of(&decoded.jobs);

    assert_eq!(
        tally,
        Tally {
            problem: 1,
            attention: 1,
            waiting: 1,
            running: 1,
            monitor: 1,
            success: 0,
            inactive: 1,
            ask: 1,
        }
    );
    for class in StatusClass::ALL {
        assert_eq!(tally.count(class), 1, "class {}", class.label());
    }
}

#[test]
fn test_total_is_the_sum_of_every_class() {
    assert_eq!(Tally::of(&six_state_frame().jobs).total(), 6);
}

#[test]
fn test_count_reads_the_same_numbers_as_the_fields() {
    let tally = Tally::of(&six_state_frame().jobs);

    for class in StatusClass::ALL {
        assert_eq!(tally.count(class), 1, "class {}", class.label());
    }
}

#[test]
fn test_jobs_of_the_same_class_accumulate() {
    let mut failed = job("c", Lifecycle::Active);
    failed.outcome = Some(Outcome::Failure);
    let jobs = vec![job("a", Lifecycle::Active), job("b", Lifecycle::Active), failed];

    assert_eq!(Tally::of(&jobs), Tally { running: 2, problem: 1, ..Tally::default() });
}

#[test]
fn test_departed_rows_do_not_enter_the_counts() {
    let decoded = six_state_frame();

    assert_eq!(Tally::of(&decoded.jobs).problem, 1);
    assert_eq!(Tally::of(&decoded.jobs).total(), 6);
}

#[test]
fn test_the_departed_row_is_itself_a_problem_when_tallied_alone() {
    let decoded = six_state_frame();

    assert_eq!(Tally::of(&decoded.departed), Tally { problem: 1, ..Tally::default() });
}

#[test]
fn test_an_empty_frame_tallies_to_zero() {
    let decoded = Frame { jobs: vec![], departed: vec![] };

    let tally = Tally::of(&decoded.jobs);
    assert_eq!(tally, Tally::default());
    assert_eq!(tally.total(), 0);
    assert!(tally.is_empty());
}

#[test]
fn test_a_tally_with_any_count_is_not_empty() {
    let jobs = vec![job("a", Lifecycle::Suspended)];

    let tally = Tally::of(&jobs);
    assert!(!tally.is_empty());
    assert_eq!(tally.inactive, 1);
}

#[test]
fn test_tallying_twice_gives_the_same_answer() {
    let decoded = six_state_frame();

    assert_eq!(Tally::of(&decoded.jobs), Tally::of(&decoded.jobs));
}

#[test]
fn test_ask_counts_the_attention_rows_and_monitor_the_monitor_phase() {
    let tally = Tally::of(&six_state_frame().jobs);

    assert_eq!(tally.ask, tally.attention);
    assert_eq!(tally.monitor + tally.success, tally.count(StatusClass::Success));
    let _ = (AttentionLevel::Quiet, Health::Healthy);
}
