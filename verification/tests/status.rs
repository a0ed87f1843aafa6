use nerve_tmux_surface::frame::{
    Attention, AttentionLevel, Current, Frame, Health, JobView, Lifecycle, Outcome,
};
use nerve_tmux_surface::status::StatusClass;

/// A job with only an id and a lifecycle.
fn job(id: &str, lifecycle: Lifecycle) -> JobView {
    let mut job = JobView::new(id);
    job.lifecycle = lifecycle;
    job
}

fn active() -> JobView {
    job("a", Lifecycle::Active)
}

fn attention(level: AttentionLevel, reason: Option<&str>) -> Attention {
    Attention { level, reason: reason.map(|r| r.to_string()), title: None }
}

fn current(kind: &str) -> Option<Current> {
    Some(Current { kind: kind.to_string(), name: None, summary: None, detail: None })
}

fn class(job: &JobView) -> StatusClass {
    StatusClass::of(job)
}

fn asking(level: AttentionLevel, reason: Option<&str>) -> StatusClass {
    let mut j = active();
    j.attention = attention(level, reason);
    class(&j)
}

fn doing(kind: &str) -> StatusClass {
    let mut j = active();
    j.current = current(kind);
    class(&j)
}

fn ended(outcome: Option<Outcome>) -> StatusClass {
    let mut j = job("a", Lifecycle::Ended);
    j.outcome = outcome;
    class(&j)
}

/// One frame carrying exactly one job per derived status, plus a departed row.
fn six_state_frame() -> Frame {
    let mut problem = job("agent-cli:problem", Lifecycle::Active);
    problem.kind = "session".to_string();
    problem.name = "nerve".to_string();
    problem.alias = "local".to_string();
    problem.current = Some(Current {
        kind: "tool".to_string(),
        name: Some("Bash".to_string()),
        summary: Some("Running tests".to_string()),
        detail: None,
    });
    problem.outcome = Some(Outcome::Failure);
    problem.extensions.pid = Some(4242);

    let mut ask = job("agent-cli:attention", Lifecycle::Active);
    ask.kind = "session".to_string();
    ask.name = "index-page".to_string();
    ask.alias = "local".to_string();
    ask.current = current("idle");
    ask.attention = Attention {
        level: AttentionLevel::Required,
        reason: Some("input".to_string()),
        title: Some("Your turn".to_string()),
    };

    let mut waiting = job("agent-cli:waiting", Lifecycle::Active);
    waiting.kind = "build".to_string();
    waiting.name = "xcodebuild Nerve".to_string();
    waiting.alias = "local".to_string();
    waiting.attention = attention(AttentionLevel::Suggested, Some("resource"));

    let mut running = job("agent-cli:running", Lifecycle::Active);
    running.kind = "session".to_string();
    running.name = "hub".to_string();
    running.alias = "local".to_string();
    running.current = Some(Current {
        kind: "thinking".to_string(),
        name: Some("build failed!!".to_string()),
        summary: Some("build failed!!".to_string()),
        detail: Some("error: cannot continue".to_string()),
    });
    running.attention = Attention {
        level: AttentionLevel::Quiet,
        reason: None,
        title: Some("build failed!!".to_string()),
    };

    let mut success = job("agent-cli:success", Lifecycle::Active);
    success.kind = "session".to_string();
    success.name = "docs".to_string();
    success.alias = "local".to_string();
    success.current = Some(Current {
        kind: "monitor".to_string(),
        name: None,
        summary: Some("Waiting for stream feedback".to_string()),
        detail: None,
    });
    success.outcome = Some(Outcome::Partial);

    let mut inactive = job("agent-cli:inactive", Lifecycle::Active);
    inactive.kind = "session".to_string();
    inactive.name = "scratch".to_string();
    inactive.alias = "local".to_string();
    inactive.current = Some(Current {
        kind: "starting".to_string(),
        name: None,
        summary: Some("Ready".to_string()),
        detail: None,
    });

    let mut departed = job("agent-cli:departed", Lifecycle::Ended);
    departed.kind = "session".to_string();
    departed.name = "gone".to_string();
    departed.alias = "local".to_string();
    departed.outcome = Some(Outcome::Failure);
    departed.attention = attention(AttentionLevel::Urgent, Some("failure"));
    departed.health = Health::Unresponsive;

    Frame {
        jobs: vec![problem, ask, waiting, running, success, inactive],
        departed: vec![departed],
    }
}

/// The two rows of the demo snapshot: open work of kinds this table does not
/// model.
fn demo_jobs() -> Vec<JobView> {
    let mut nerve = job("agent-cli:demo", Lifecycle::Active);
    nerve.name = "nerve".to_string();
    nerve.current = Some(Current {
        kind: "editing".to_string(),
        name: None,
        summary: Some("Writing continuous ribbon view".to_string()),
        detail: None,
    });
    let mut build = job("xcode:demo", Lifecycle::Active);
    build.name = "xcodebuild Nerve".to_string();
    build.current = Some(Current {
        kind: "building".to_string(),
        name: None,
        summary: Some("Compiling 42 files".to_string()),
        detail: None,
    });
    vec![nerve, build]
}

#[test]
fn test_classes_are_ordered_most_urgent_first() {
    assert_eq!(
        StatusClass::ALL,
        [
            StatusClass::Problem,
            StatusClass::Attention,
            StatusClass::Waiting,
            StatusClass::Running,
            StatusClass::Success,
            StatusClass::Inactive,
        ]
    );
    assert!(StatusClass::Problem < StatusClass::Attention);
    assert!(StatusClass::Running < StatusClass::Success);
    assert!(StatusClass::Success < StatusClass::Inactive);
}

#[test]
fn test_labels_match_the_swift_raw_values() {
    let labels: Vec<&str> = StatusClass::ALL.iter().map(|c| c.label()).collect();

    assert_eq!(
        labels,
        vec!["problem", "attention", "waiting", "running", "success", "inactive"]
    );
}

#[test]
fn test_line_39_a_failed_outcome_is_a_problem() {
    let mut j = active();
    j.outcome = Some(Outcome::Failure);
    assert_eq!(class(&j), StatusClass::Problem);
}

#[test]
fn test_line_39_beats_the_ended_lifecycle_branch() {
    assert_eq!(ended(Some(Outcome::Failure)), StatusClass::Problem);
}

#[test]
fn test_line_40_an_unresponsive_job_is_a_problem() {
    let mut j = active();
    j.health = Health::Unresponsive;
    assert_eq!(class(&j), StatusClass::Problem);
}

#[test]
fn test_line_40_beats_an_ended_success() {
    let mut j = job("a", Lifecycle::Ended);
    j.outcome = Some(Outcome::Success);
    j.health = Health::Unresponsive;
    assert_eq!(class(&j), StatusClass::Problem);
}

#[test]
fn test_line_49_required_attention_asking_for_input_is_attention() {
    assert_eq!(asking(AttentionLevel::Required, Some("input")), StatusClass::Attention);
}

#[test]
fn test_line_53_elevated_attention_without_a_reason_is_attention() {
    assert_eq!(asking(AttentionLevel::Suggested, None), StatusClass::Attention);
}

#[test]
fn test_line_49_an_unrecognised_reason_at_suggested_is_attention() {
    assert_eq!(asking(AttentionLevel::Urgent, Some("review")), StatusClass::Attention);
}

#[test]
fn test_line_46_every_wait_reason_at_required_is_waiting() {
    for reason in [
        "resource",
        "dependency",
        "queue",
        "system",
        "lock",
        "throttle",
        "rate",
        "capacity",
        "failure",
    ] {
        assert_eq!(
            asking(AttentionLevel::Required, Some(reason)),
            StatusClass::Waiting,
            "attention.reason `{reason}` at required must wait"
        );
    }
}

#[test]
fn test_line_44_reason_matching_ignores_case() {
    assert_eq!(asking(AttentionLevel::Required, Some("Dependency")), StatusClass::Waiting);
}

#[test]
fn test_line_47_an_attention_reason_of_failure_waits_rather_than_alarms() {
    assert_eq!(asking(AttentionLevel::Urgent, Some("failure")), StatusClass::Waiting);
}

#[test]
fn test_line_58_every_ask_reason_at_informational_is_attention() {
    for reason in ["input", "approval", "auth", "permission", "decision", "elicitation"] {
        assert_eq!(
            asking(AttentionLevel::Informational, Some(reason)),
            StatusClass::Attention,
            "attention.reason `{reason}` at informational must ask"
        );
    }
}

#[test]
fn test_line_60_a_wait_reason_at_informational_is_waiting() {
    assert_eq!(asking(AttentionLevel::Informational, Some("queue")), StatusClass::Waiting);
}

#[test]
fn test_line_64_an_unrecognised_informational_reason_falls_through_to_running() {
    assert_eq!(asking(AttentionLevel::Informational, Some("chatter")), StatusClass::Running);
}

#[test]
fn test_line_56_informational_without_a_reason_falls_through_to_running() {
    assert_eq!(asking(AttentionLevel::Informational, None), StatusClass::Running);
}

#[test]
fn test_line_69_an_ended_success_is_success() {
    assert_eq!(ended(Some(Outcome::Success)), StatusClass::Success);
}

#[test]
fn test_line_69_an_ended_partial_is_success() {
    assert_eq!(ended(Some(Outcome::Partial)), StatusClass::Success);
}

#[test]
fn test_line_70_an_ended_job_without_an_outcome_is_inactive() {
    assert_eq!(ended(None), StatusClass::Inactive);
}

#[test]
fn test_line_70_an_ended_cancellation_is_inactive() {
    assert_eq!(ended(Some(Outcome::Cancelled)), StatusClass::Inactive);
}

#[test]
fn test_line_72_a_suspended_job_is_inactive() {
    assert_eq!(class(&job("a", Lifecycle::Suspended)), StatusClass::Inactive);
}

#[test]
fn test_line_72_an_unknown_lifecycle_is_inactive() {
    assert_eq!(class(&job("a", Lifecycle::Unknown)), StatusClass::Inactive);
}

#[test]
fn test_line_73_a_pending_job_is_waiting() {
    assert_eq!(class(&job("a", Lifecycle::Pending)), StatusClass::Waiting);
}

#[test]
fn test_line_73_a_created_job_is_waiting() {
    assert_eq!(class(&job("a", Lifecycle::Created)), StatusClass::Waiting);
}

#[test]
fn test_line_74_a_degraded_job_is_waiting() {
    let mut j = active();
    j.health = Health::Degraded;
    assert_eq!(class(&j), StatusClass::Waiting);
}

#[test]
fn test_line_77_an_open_job_with_a_partial_outcome_is_success() {
    let mut j = active();
    j.outcome = Some(Outcome::Partial);
    assert_eq!(class(&j), StatusClass::Success);
}

#[test]
fn test_line_84_shell_and_agent_activity_is_running() {
    for kind in ["subagent", "tool", "thinking", "info"] {
        assert_eq!(doing(kind), StatusClass::Running, "current.type `{kind}` must run");
    }
}

#[test]
fn test_line_81_current_type_matching_ignores_case() {
    assert_eq!(doing("Thinking"), StatusClass::Running);
}

#[test]
fn test_line_86_an_open_monitor_is_success() {
    assert_eq!(doing("monitor"), StatusClass::Success);
}

#[test]
fn test_line_88_a_waiting_activity_is_waiting() {
    assert_eq!(doing("waiting"), StatusClass::Waiting);
}

#[test]
fn test_line_92_idle_starting_and_booting_are_inactive() {
    for kind in ["idle", "starting", "booting"] {
        assert_eq!(doing(kind), StatusClass::Inactive, "current.type `{kind}` must stay inactive");
    }
}

#[test]
fn test_line_94_an_unmodelled_current_type_leaves_an_open_job_running() {
    assert_eq!(doing("editing"), StatusClass::Running);
}

#[test]
fn test_line_98_an_open_job_with_no_current_activity_is_running() {
    assert_eq!(class(&active()), StatusClass::Running);
}

#[test]
fn test_a_current_summary_saying_build_failed_stays_running() {
    let mut j = active();
    j.health = Health::Healthy;
    j.current = Some(Current {
        kind: "thinking".to_string(),
        name: None,
        summary: Some("build failed!!".to_string()),
        detail: None,
    });
    assert_eq!(class(&j), StatusClass::Running);
}

#[test]
fn test_no_free_text_field_can_move_a_running_job() {
    let poison = "FAILED — needs approval — error — waiting on you!!";
    let mut j = active();
    j.name = poison.to_string();
    j.health = Health::Healthy;
    j.current = Some(Current {
        kind: "thinking".to_string(),
        name: Some(poison.to_string()),
        summary: Some(poison.to_string()),
        detail: Some(poison.to_string()),
    });
    j.attention = Attention {
        level: AttentionLevel::Quiet,
        reason: None,
        title: Some(poison.to_string()),
    };

    assert_eq!(class(&j), StatusClass::Running);
}

#[test]
fn test_calm_prose_does_not_hide_a_structured_problem() {
    let mut j = active();
    j.name = "all good".to_string();
    j.outcome = Some(Outcome::Failure);
    j.current = Some(Current {
        kind: "thinking".to_string(),
        name: None,
        summary: Some("everything is fine".to_string()),
        detail: None,
    });
    assert_eq!(class(&j), StatusClass::Problem);
}

#[test]
fn test_the_six_state_frame_lands_one_job_on_each_class() {
    let decoded = six_state_frame();

    let classes: Vec<(&str, StatusClass)> =
        decoded.jobs.iter().map(|job| (job.id.as_str(), StatusClass::of(job))).collect();

    assert_eq!(
        classes,
        vec![
            ("agent-cli:problem", StatusClass::Problem),
            ("agent-cli:attention", StatusClass::Attention),
            ("agent-cli:waiting", StatusClass::Waiting),
            ("agent-cli:running", StatusClass::Running),
            ("agent-cli:success", StatusClass::Success),
            ("agent-cli:inactive", StatusClass::Inactive),
        ]
    );
}

#[test]
fn test_the_demo_fixture_rows_are_both_running() {
    for job in demo_jobs() {
        assert_eq!(StatusClass::of(&job), StatusClass::Running, "job {}", job.id);
    }
}

#[test]
fn test_the_departed_row_of_the_six_state_frame_is_a_problem() {
    assert_eq!(class(&six_state_frame().departed[0]), StatusClass::Problem);
}
