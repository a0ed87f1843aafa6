use nerve_tmux_surface::procs::{normalize_tty, parse};

#[test]
fn a_listing_indexes_pid_and_tty() {
    let table = parse(
        "\
  1 ??         /sbin/launchd
  449 ttys000    -zsh
  512 ttys000    ssh Arrhenius
  880 pts/3      codex
",
    );
    assert_eq!(table.tty_of(449), Some("s000"));
    assert_eq!(table.tty_of(1), None);
    assert_eq!(table.pids_on_tty("ttys000"), vec![449, 512]);
    assert_eq!(table.pids_on_tty("/dev/pts/3"), vec![880]);
    assert_eq!(
        table.destination_on_tty("/dev/ttys000").as_deref(),
        Some("Arrhenius")
    );
    assert_eq!(table.destination_on_tty("pts/3"), None);
}

#[test]
fn procs_tty_spellings_normalise_to_one() {
    assert_eq!(normalize_tty("/dev/ttys001"), "s001");
    assert_eq!(normalize_tty("ttys001"), "s001");
    assert_eq!(normalize_tty("s001"), "s001");
    assert_eq!(normalize_tty("/dev/pts/3"), "pts/3");
    assert_eq!(normalize_tty("pts/3"), "pts/3");
    assert_eq!(normalize_tty("??"), "");
    assert_eq!(normalize_tty("-"), "");
}
