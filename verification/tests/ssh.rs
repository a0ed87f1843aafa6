use nerve_tmux_surface::ssh::{host_score, is_remote_client, parse_destination, SshHosts};

#[test]
fn only_remote_shell_clients_hold_a_session_elsewhere() {
    assert!(is_remote_client("ssh"));
    assert!(is_remote_client("/usr/bin/ssh"));
    assert!(is_remote_client("mosh-client"));
    assert!(!is_remote_client("zsh"));
    assert!(!is_remote_client("sshfs"));
    assert!(!is_remote_client(""));
}

#[test]
fn the_destination_is_the_first_non_flag_argument() {
    assert_eq!(parse_destination("ssh Arrhenius"), Some("Arrhenius"));
    assert_eq!(
        parse_destination("ssh -p 2222 -o SendEnv=LANG jicli594@arrhenius1"),
        Some("arrhenius1")
    );
    assert_eq!(parse_destination("ssh -4v -p2222 dardel"), Some("dardel"));
    assert_eq!(
        parse_destination("ssh ssh://me@host.example:22"),
        Some("host.example")
    );
}

#[test]
fn a_remote_command_after_the_host_is_not_the_host() {
    assert_eq!(
        parse_destination("ssh arrhenius1 tmux ls"),
        Some("arrhenius1")
    );
}

#[test]
fn tunnels_are_not_sessions_anyone_can_return_to() {
    assert_eq!(
        parse_destination("ssh -n -N -R 17890:127.0.0.1:17890 Arrhenius"),
        None
    );
    assert_eq!(parse_destination("ssh -fN Arrhenius"), None);
}

#[test]
fn lines_that_are_not_a_client_are_skipped() {
    assert_eq!(parse_destination("-zsh"), None);
    assert_eq!(parse_destination(""), None);
    assert_eq!(parse_destination("ssh"), None);
}

#[test]
fn an_exact_name_outranks_a_label_which_outranks_a_prefix() {
    let hosts = SshHosts::default();
    assert_eq!(host_score("arrhenius1", "arrhenius1", &hosts), Some(3));
    assert_eq!(
        host_score("arrhenius1.uu.se", "arrhenius1", &hosts),
        Some(2)
    );
    assert_eq!(host_score("Arrhenius", "arrhenius1", &hosts), Some(1));
}

#[test]
fn a_name_that_is_not_ascii_is_compared_not_sliced() {
    let hosts = SshHosts::default();
    assert_eq!(host_score("研究室-mac", "研究室-mac", &hosts), Some(3));
    assert_eq!(host_score("研究室", "研究室-mac", &hosts), Some(1));
    assert_eq!(host_score("研", "研究室-mac", &hosts), None);
}

#[test]
fn unrelated_hosts_never_match() {
    let hosts = SshHosts::default();
    assert_eq!(host_score("dardel", "arrhenius1", &hosts), None);
    assert_eq!(host_score("a", "arrhenius1", &hosts), None);
    assert_eq!(host_score("", "arrhenius1", &hosts), None);
}

#[test]
fn a_config_that_renames_the_machine_still_matches() {
    let hosts = SshHosts::parse(
        "Host hpc\n  HostName arrhenius1.hpc.example\n  User me\n\nHost *\n  ServerAliveInterval 60\n",
    );
    assert_eq!(hosts.host_name("hpc"), Some("arrhenius1.hpc.example"));
    assert_eq!(hosts.host_name("HPC"), Some("arrhenius1.hpc.example"));
    assert_eq!(host_score("hpc", "arrhenius1", &hosts), Some(2));
}

#[test]
fn the_first_hostname_for_a_host_wins_and_wildcards_are_skipped() {
    let hosts = SshHosts::parse(
        "Host Arrhenius\n    HostName login.hpc.arrhenius.naiss.se\n\n\
         # BEGIN NERVE MANAGED\n\
         Host Arrhenius\n  RemoteForward 17890 127.0.0.1:17890\n\
         Host *.example\n  HostName ignored\n",
    );
    assert_eq!(
        hosts.host_name("Arrhenius"),
        Some("login.hpc.arrhenius.naiss.se")
    );
    assert_eq!(hosts.host_name("*.example"), None);
}

#[test]
fn directives_may_be_written_with_an_equals_sign() {
    let hosts = SshHosts::parse("Host=box\nHostName=box.example\n");
    assert_eq!(hosts.host_name("box"), Some("box.example"));
}
