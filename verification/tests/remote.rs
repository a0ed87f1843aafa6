use nerve_tmux_surface::remote::{
    outcome, script, Mailbox, RemoteJump, NOT_IN_TMUX, NO_TERMINAL, NO_TMUX, REFUSED, SSH_FAILED,
};

#[test]
fn a_selected_pane_is_read_back_with_its_client_count() {
    assert_eq!(
        outcome(Some(0), "%25 1\n"),
        RemoteJump::Selected {
            pane: "%25".to_string(),
            clients: 1
        }
    );
}

#[test]
fn every_refusal_the_far_side_can_report_has_its_own_answer() {
    assert_eq!(outcome(Some(NO_TERMINAL), ""), RemoteJump::NoTerminal);
    assert_eq!(outcome(Some(NOT_IN_TMUX), ""), RemoteJump::NotInTmux);
    assert_eq!(outcome(Some(REFUSED), ""), RemoteJump::Refused);
    assert_eq!(outcome(Some(NO_TMUX), ""), RemoteJump::NoTmux);
}

#[test]
fn ssh_failing_to_get_there_is_not_a_tmux_answer() {
    assert_eq!(outcome(Some(SSH_FAILED), ""), RemoteJump::Unreachable);
    // Killed by a signal: no code at all.
    assert_eq!(outcome(None, ""), RemoteJump::Unreachable);
}

#[test]
fn success_without_a_pane_id_is_not_believed() {
    assert_eq!(outcome(Some(0), ""), RemoteJump::Refused);
    assert_eq!(outcome(Some(0), "ok\n"), RemoteJump::Refused);
    assert_eq!(outcome(Some(0), "%25\n"), RemoteJump::Refused);
}

#[test]
fn only_a_view_that_did_not_follow_is_worth_saying_out_loud() {
    let followed = RemoteJump::Selected {
        pane: "%25".to_string(),
        clients: 1,
    };
    assert_eq!(followed.message("Arrhenius"), None);

    let shared = RemoteJump::Selected {
        pane: "%25".to_string(),
        clients: 3,
    };
    assert!(shared.message("Arrhenius").is_some_and(|m| m.contains("3")));
    assert!(RemoteJump::NotInTmux
        .message("Arrhenius")
        .is_some_and(|m| m.contains("Arrhenius")));
}

#[test]
fn a_newer_request_replaces_the_one_still_waiting() {
    let mut inbox = Mailbox::new();
    inbox.put("Arrhenius", 1);
    inbox.put("Arrhenius", 2);
    assert_eq!(
        inbox.take().map(|r| r.pid),
        Some(2),
        "the cursor's latest stop is the only one worth asking for"
    );
    assert!(inbox.take().is_none());
}

#[test]
fn the_script_carries_the_pid_and_nothing_else_from_here() {
    let script = script(668_866);
    assert!(script.contains("pid=668866"));
    // One interpolation, and it is digits.
    assert_eq!(script.matches("668866").count(), 1);
    assert!(script.contains("tmux select-window"));
    assert!(script.contains("switch-client"));
}
