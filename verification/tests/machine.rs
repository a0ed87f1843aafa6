use nerve_tmux_surface::machine::local_alias_from;
use nerve_tmux_surface::machine::{foreign_alias, same_alias};

#[test]
fn the_same_machine_spelled_two_ways_is_one_machine() {
    assert!(same_alias("RoydeMacBook-Air", "roydemacbook-air"));
    assert!(same_alias(" arrhenius1 ", "arrhenius1"));
    // The hub strips what an alias may not contain; the hook does not.
    assert!(same_alias("Roy's-Air", "Roys-Air"));
}

#[test]
fn different_machines_stay_different() {
    assert!(!same_alias("arrhenius1", "arrhenius2"));
    assert!(!same_alias("RoydeMacBook-Air", "arrhenius1"));
}

#[test]
fn a_job_that_named_no_machine_is_never_foreign() {
    assert_eq!(foreign_alias("", Some("RoydeMacBook-Air")), None);
    assert_eq!(foreign_alias("   ", Some("RoydeMacBook-Air")), None);
}

#[test]
fn nothing_is_foreign_to_a_machine_that_cannot_name_itself() {
    assert_eq!(foreign_alias("arrhenius1", None), None);
}

#[test]
fn another_machine_is_reported_under_its_own_name() {
    assert_eq!(
        foreign_alias(" arrhenius1 ", Some("RoydeMacBook-Air")),
        Some("arrhenius1")
    );
    assert_eq!(
        foreign_alias("RoydeMacBook-Air", Some("roydemacbook-air")),
        None
    );
}

#[test]
fn the_bonjour_name_wins_and_the_host_name_is_cut_at_its_first_dot() {
    assert_eq!(local_alias_from(Some("Roys-Air\n"), Some("other.local\n")), Some("Roys-Air".to_string()));
    assert_eq!(local_alias_from(None, Some("build01.example.org\n")), Some("build01".to_string()));
    assert_eq!(local_alias_from(Some("  \n"), Some("box\n")), Some("box".to_string()));
    assert_eq!(local_alias_from(None, Some(".hidden\n")), None);
    assert_eq!(local_alias_from(Some("!!!\n"), Some("box\n")), None);
    assert_eq!(local_alias_from(None, None), None);
}
