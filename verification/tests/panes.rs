use nerve_tmux_surface::frame::JobView;
use nerve_tmux_surface::panes::{
    normalize_tty, path_match_score, route_among, select_local_pane, select_ssh_route, JobTarget,
    SidebarPane,
};
use nerve_tmux_surface::ssh::SshHosts;
use nerve_tmux_surface::tmux::SIDEBAR_ROLE;

/// A filesystem that resolves nothing: every path stays as it was spelled.
fn as_spelled(_path: &str) -> Option<String> {
    None
}

fn sidebar() -> SidebarPane {
    SidebarPane {
        id: "%9".to_string(),
        session: "nerve".to_string(),
        window: "@1".to_string(),
    }
}

/// `#{pane_id}\t#{path}\t#{role}\t#{tty}\t#{session}\t#{window}\t#{command}`
fn row(id: &str, path: &str, tty: &str, session: &str, window: &str) -> String {
    format!("{id}\t{path}\t\t/dev/{tty}\t{session}\t{window}\tzsh\t")
}

/// The same row, already claimed by the sidebar `owner`.
fn owned_row(id: &str, path: &str, tty: &str, owner: &str) -> String {
    format!("{id}\t{path}\t\t/dev/{tty}\tagents\t@8\tzsh\t{owner}")
}

fn job_named(name: &str) -> JobView {
    let mut job = JobView::new("codex:s1");
    job.name = name.to_string();
    job
}

fn local(panes: &str, job: &JobView, workspace: Option<&str>, tty: Option<&str>) -> Option<String> {
    let tty = tty.map(normalize_tty);
    select_local_pane(panes, job, &sidebar(), workspace, tty.as_deref(), &as_spelled)
}

/// The same row, for a pane whose foreground process is an ssh client.
fn ssh_row(id: &str, tty: &str, session: &str, window: &str) -> String {
    format!("{id}\t/Users/me\t\t/dev/{tty}\t{session}\t{window}\tssh\t")
}

/// The pane `arrhenius1` routes to in this scan, if any.
fn route_pane<F: Fn(&str) -> Option<String>>(panes: &str, seen: &F) -> Option<String> {
    select_ssh_route(panes, &sidebar(), "arrhenius1", &SshHosts::default(), seen)
        .map(|route| route.pane)
}

fn destinations(
    pairs: &'static [(&'static str, &'static str)],
) -> impl Fn(&str) -> Option<String> {
    move |tty: &str| {
        pairs
            .iter()
            .find(|(pane_tty, _)| *pane_tty == tty)
            .map(|(_, destination)| destination.to_string())
    }
}

#[test]
fn exact_path_scores_highest() {
    let target = "/tmp/work";
    assert_eq!(path_match_score("/tmp/work", target, &as_spelled), Some(usize::MAX));
}

#[test]
fn prefix_paths_score_by_overlap() {
    let target = "/tmp/work/nerve";
    assert_eq!(
        path_match_score("/tmp/work", target, &as_spelled),
        Some("/tmp/work".len())
    );
}

#[test]
fn unrelated_paths_do_not_match() {
    let target = "/tmp/work";
    assert_eq!(path_match_score("/elsewhere", target, &as_spelled), None);
}

#[test]
fn a_remote_job_lands_on_the_pane_ssh_d_into_its_machine() {
    let panes = [
        row("%1", "/Users/me/work", "ttys001", "nerve", "@1"),
        ssh_row("%4", "ttys006", "other", "@4"),
        ssh_row("%7", "ttys010", "other", "@5"),
    ]
    .join("\n");
    let seen = destinations(&[("/dev/ttys006", "Arrhenius"), ("/dev/ttys010", "dardel")]);
    assert_eq!(route_pane(&panes, &seen), Some("%4".to_string()));
}

#[test]
fn a_machine_nobody_is_ssh_d_into_matches_nothing() {
    let panes = ssh_row("%4", "ttys006", "other", "@4");
    let seen = destinations(&[("/dev/ttys006", "dardel")]);
    assert_eq!(route_pane(&panes, &seen), None);
}

#[test]
fn an_exact_host_outranks_a_prefix_of_it() {
    let panes = [
        ssh_row("%4", "ttys006", "other", "@4"),
        ssh_row("%7", "ttys010", "other", "@5"),
    ]
    .join("\n");
    let seen = destinations(&[
        ("/dev/ttys006", "Arrhenius"),
        ("/dev/ttys010", "arrhenius1"),
    ]);
    assert_eq!(route_pane(&panes, &seen), Some("%7".to_string()));
}

#[test]
fn the_route_carries_the_host_enter_has_to_talk_to() {
    let panes = ssh_row("%4", "ttys006", "other", "@4");
    let seen = destinations(&[("/dev/ttys006", "Arrhenius")]);
    let route = select_ssh_route(
        &panes,
        &sidebar(),
        "arrhenius1",
        &SshHosts::default(),
        &seen,
    )
    .expect("route");
    assert_eq!(route.pane, "%4");
    assert_eq!(route.destination, "Arrhenius");
}

#[test]
fn every_job_on_one_machine_resolves_to_the_same_ssh_pane() {
    let panes = [
        ssh_row("%4", "ttys006", "other", "@4"),
        row("%1", "/Users/me/work", "ttys001", "nerve", "@1"),
    ]
    .join("\n");
    let seen = destinations(&[("/dev/ttys006", "Arrhenius")]);
    let pane_for = |_job: &str| route_pane(&panes, &seen);
    assert_eq!(pane_for("molcrafts"), Some("%4".to_string()));
    assert_eq!(pane_for("salamander"), pane_for("molcrafts"));
}

#[test]
fn panes_tty_spellings_normalise_to_one() {
    assert_eq!(normalize_tty("/dev/ttys001"), "s001");
    assert_eq!(normalize_tty("ttys001"), "s001");
    assert_eq!(normalize_tty("s001"), "s001");
    assert_eq!(normalize_tty("/dev/pts/3"), "pts/3");
    assert_eq!(normalize_tty("pts/3"), "pts/3");
}

#[test]
fn unrelated_panes_do_not_end_the_scan() {
    let panes = [
        row("%1", "/elsewhere", "ttys001", "other", "@7"),
        row("%2", "", "ttys002", "other", "@7"),
        row("%3", "/tmp/work", "ttys003", "agents", "@8"),
    ]
    .join("\n");
    assert_eq!(local(&panes, &job_named("work"), Some("/tmp/work"), None), Some("%3".to_string()));
}

#[test]
fn agent_tty_beats_a_same_window_path_match() {
    let panes = [
        row("%2", "/tmp/work", "ttys002", "nerve", "@1"),
        row("%5", "/tmp/work", "ttys009", "agents", "@8"),
    ]
    .join("\n");
    assert_eq!(
        local(&panes, &job_named("work"), Some("/tmp/work"), Some("s009")),
        Some("%5".to_string())
    );
}

#[test]
fn agent_tty_matches_without_any_path() {
    let panes = ssh_row("%5", "ttys009", "agents", "@8").replace("ssh", "zsh");
    assert_eq!(local(&panes, &job_named("work"), None, Some("s009")), Some("%5".to_string()));
}

#[test]
fn sidebar_and_sidebar_roled_panes_are_never_targets() {
    let panes = [
        row("%9", "/tmp/work", "ttys009", "nerve", "@1"),
        format!("%8\t/tmp/work\t{SIDEBAR_ROLE}\t/dev/ttys008\tnerve\t@1\tzsh\t"),
    ]
    .join("\n");
    assert_eq!(local(&panes, &job_named("work"), Some("/tmp/work"), None), None);
}

#[test]
fn a_pane_another_sidebar_is_showing_is_left_alone() {
    let panes = [
        owned_row("%5", "/tmp/work", "ttys005", "%77"),
        row("%6", "/tmp/work", "ttys006", "agents", "@8"),
    ]
    .join("\n");
    assert_eq!(
        local(&panes, &job_named("work"), Some("/tmp/work"), None),
        Some("%6".to_string()),
        "two sidebars must not take turns yanking one pane"
    );

    let mine = owned_row("%5", "/tmp/work", "ttys005", "%9");
    assert_eq!(local(&mine, &job_named("work"), Some("/tmp/work"), None), Some("%5".to_string()));
}

#[test]
fn same_window_breaks_ties_between_equal_paths() {
    let panes = [
        row("%1", "/tmp/work", "ttys001", "other", "@7"),
        row("%2", "/tmp/work", "ttys002", "nerve", "@1"),
    ]
    .join("\n");
    assert_eq!(local(&panes, &job_named("work"), Some("/tmp/work"), None), Some("%2".to_string()));
}

#[test]
fn a_remote_job_never_scans_for_a_local_pane() {
    let mut job = JobView::new("agent-cli:s1");
    job.alias = "arrhenius1".to_string();
    job.name = "molcrafts".to_string();
    job.extensions.pid = Some(1);
    job.context.workspace = Some("/tmp".to_string());
    let target = JobTarget::of(
        &job,
        Some("RoydeMacBook-Air"),
        Some("/tmp".to_string()),
        Some("s001".to_string()),
    )
    .expect("target");
    let JobTarget::Remote { alias } = target else {
        panic!("a job on another machine must never be matched locally");
    };
    assert_eq!(alias, "arrhenius1");
}

#[test]
fn the_answers_given_decide_the_route() {
    let panes = [
        ssh_row("%4", "ttys006", "other", "@4"),
        ssh_row("%7", "ttys010", "other", "@5"),
    ]
    .join("\n");
    let answers = vec![Some("Arrhenius".to_string()), Some("arrhenius1".to_string())];
    let route = route_among(&panes, &sidebar(), "arrhenius1", &SshHosts::default(), &answers)
        .expect("route");
    assert_eq!(route.pane, "%7");
    assert_eq!(route.destination, "arrhenius1");
    assert_eq!(route.window, "@5");

    let only_prefix = vec![Some("Arrhenius".to_string()), None];
    let route = route_among(&panes, &sidebar(), "arrhenius1", &SshHosts::default(), &only_prefix)
        .expect("route");
    assert_eq!(route.pane, "%4");
    assert_eq!(route_among(&panes, &sidebar(), "arrhenius1", &SshHosts::default(), &vec![None, None]), None);
}
