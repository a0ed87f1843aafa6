use nerve_tmux_surface::tmux::socket_from_env;
use std::cell::RefCell;
use std::collections::VecDeque;
use std::rc::Rc;

use nerve_tmux_surface::tmux::{
    OptionStore, SegmentWriter, TmuxError, TmuxRunner, TmuxWriter, STATUS_OPTION,
};

const SEGMENT: &str = "#[fg=red]1!#[default] #[fg=blue]2>#[default]";

const ALLOWED_SUBCOMMANDS: [&str; 4] = ["set", "refresh-client", "show-options", "display-popup"];

type Calls = Rc<RefCell<Vec<Vec<String>>>>;

struct FakeRunner {
    calls: Calls,
    replies: VecDeque<Result<String, TmuxError>>,
}

impl TmuxRunner for FakeRunner {
    fn run(&mut self, args: &[&str]) -> Result<String, TmuxError> {
        self.calls
            .borrow_mut()
            .push(args.iter().map(|arg| (*arg).to_string()).collect());
        self.replies
            .pop_front()
            .unwrap_or_else(|| Ok(String::new()))
    }
}

fn writer(replies: Vec<Result<String, TmuxError>>) -> (TmuxWriter<FakeRunner>, Calls) {
    let calls: Calls = Rc::new(RefCell::new(Vec::new()));
    let runner = FakeRunner {
        calls: Rc::clone(&calls),
        replies: replies.into(),
    };
    (TmuxWriter::new(runner), calls)
}

fn argv(calls: &Calls) -> Vec<Vec<String>> {
    calls.borrow().clone()
}

fn assert_no_shell(calls: &Calls) {
    for call in argv(calls) {
        assert!(!call.is_empty(), "an empty invocation is not a command");
        assert!(
            ALLOWED_SUBCOMMANDS.contains(&call[0].as_str()),
            "unexpected tmux subcommand `{}`",
            call[0]
        );
        assert!(
            !call[0].contains(char::is_whitespace),
            "subcommand `{}` is a packed command line",
            call[0]
        );
        assert!(
            call.len() > 1 || !call[0].contains(' '),
            "single-argument invocation `{}` looks like a shell string",
            call[0]
        );
    }
}

#[test]
fn test_the_status_option_is_the_one_status_right_interpolates() {
    assert_eq!(STATUS_OPTION, "@nerve_status");
}

#[test]
fn test_writing_a_segment_sets_the_option_then_refreshes() {
    let (mut writer, calls) = writer(vec![]);

    writer.write_segment(SEGMENT).expect("write must succeed");

    assert_eq!(
        argv(&calls),
        vec![
            vec!["set", "-g", "@nerve_status", SEGMENT],
            vec!["refresh-client", "-S"],
        ]
    );
}

#[test]
fn test_no_invocation_is_ever_a_shell_line() {
    let (mut writer, calls) = writer(vec![]);
    writer.write_segment(SEGMENT).expect("write must succeed");

    assert_no_shell(&calls);
}

#[test]
fn test_the_segment_text_is_exactly_one_argument() {
    let (mut writer, calls) = writer(vec![]);
    writer.write_segment(SEGMENT).expect("write must succeed");

    let calls = argv(&calls);
    assert_eq!(calls[0].len(), 4);
    assert_eq!(calls[0][3], SEGMENT);
}

#[test]
fn test_an_empty_segment_still_sets_and_refreshes() {
    let (mut writer, calls) = writer(vec![]);

    writer.write_segment("").expect("write must succeed");

    assert_eq!(
        argv(&calls),
        vec![
            vec!["set", "-g", "@nerve_status", ""],
            vec!["refresh-client", "-S"],
        ]
    );
}

#[test]
fn test_a_refused_set_reports_and_skips_the_refresh() {
    let (mut writer, calls) = writer(vec![Err(TmuxError::Refused {
        status: 1,
        stderr: "unknown option".to_string(),
    })]);

    let result = writer.write_segment(SEGMENT);

    assert!(matches!(result, Err(TmuxError::Refused { status: 1, .. })));
    assert_eq!(argv(&calls).len(), 1);
}

#[test]
fn test_a_gone_server_propagates_out_of_a_segment_write() {
    let (mut writer, _calls) = writer(vec![Err(TmuxError::ServerGone)]);

    let result = writer.write_segment(SEGMENT);

    assert!(matches!(result, Err(TmuxError::ServerGone)));
}

#[test]
fn test_a_gone_server_during_the_refresh_propagates_too() {
    let (mut writer, calls) = writer(vec![Ok(String::new()), Err(TmuxError::ServerGone)]);

    let result = writer.write_segment(SEGMENT);

    assert!(matches!(result, Err(TmuxError::ServerGone)));
    assert_eq!(argv(&calls).len(), 2);
}

#[test]
fn test_no_server_running_is_recognised_as_server_gone() {
    let err = TmuxError::from_exit(1, "no server running on /private/tmp/tmux-501/default");

    assert!(matches!(err, TmuxError::ServerGone));
    assert!(err.is_server_gone());
}

#[test]
fn test_server_gone_is_recognised_whatever_the_case_and_padding() {
    let err = TmuxError::from_exit(1, "  No server running on /tmp/tmux-0/default\n");

    assert!(err.is_server_gone());
}

#[test]
fn test_any_other_failure_stays_a_refusal() {
    let err = TmuxError::from_exit(1, "unknown command: bogus");

    assert!(!err.is_server_gone());
    assert!(matches!(
        err,
        TmuxError::Refused { status: 1, ref stderr } if stderr == "unknown command: bogus"
    ));
}

#[test]
fn test_a_silent_failure_stays_a_refusal() {
    let err = TmuxError::from_exit(2, "");

    assert!(!err.is_server_gone());
    assert!(matches!(err, TmuxError::Refused { status: 2, .. }));
}

#[test]
fn test_an_unavailable_tmux_is_not_a_gone_server() {
    let err = TmuxError::Unavailable("No such file or directory (os error 2)".to_string());

    assert!(!err.is_server_gone());
}

#[test]
fn test_reading_an_option_uses_show_options_and_returns_the_value() {
    let (mut writer, calls) = writer(vec![Ok("{running}/{total}".to_string())]);

    let value = writer
        .get("@nerve_status_format")
        .expect("read must succeed");

    assert_eq!(value.as_deref(), Some("{running}/{total}"));
    assert_eq!(
        argv(&calls),
        vec![vec!["show-options", "-gqv", "@nerve_status_format"]]
    );
}

#[test]
fn test_an_unset_option_reads_as_absent() {
    let (mut writer, _calls) = writer(vec![Ok(String::new())]);

    assert_eq!(writer.get("@nerve_popup_key").expect("read"), None);
}

#[test]
fn test_a_blank_option_reads_as_absent() {
    let (mut writer, _calls) = writer(vec![Ok("   \n".to_string())]);

    assert_eq!(writer.get("@nerve_popup_key").expect("read"), None);
}

#[test]
fn test_writing_an_option_uses_set_g_and_does_not_refresh() {
    let (mut writer, calls) = writer(vec![]);

    writer.set("@nerve_surface_pid", "4242").expect("write");

    assert_eq!(
        argv(&calls),
        vec![vec!["set", "-g", "@nerve_surface_pid", "4242"]]
    );
}

#[test]
fn test_an_option_value_with_spaces_stays_one_argument() {
    let (mut writer, calls) = writer(vec![]);

    writer
        .set("@nerve_status_offline", "nerve: offline")
        .expect("write");

    let calls = argv(&calls);
    assert_eq!(calls[0].len(), 4);
    assert_eq!(calls[0][3], "nerve: offline");
    assert_no_shell(&Rc::new(RefCell::new(calls)));
}

#[test]
fn the_socket_is_what_tmux_names_before_the_first_comma() {
    assert_eq!(socket_from_env("/tmp/tmux-501/default,123,0"), Some("/tmp/tmux-501/default".to_string()));
    assert_eq!(socket_from_env(" /tmp/s "), Some("/tmp/s".to_string()));
    assert_eq!(socket_from_env(",1,2"), None);
    assert_eq!(socket_from_env(""), None);
}

#[test]
fn a_failed_option_read_hands_back_the_runner_error() {
    let (mut writer, calls) = writer(vec![Err(TmuxError::Refused { status: 3, stderr: "bad".to_string() })]);

    let result = writer.get("@nerve_status_format");

    assert!(matches!(result, Err(TmuxError::Refused { status: 3, .. })));
    assert_eq!(argv(&calls).len(), 1);
}
