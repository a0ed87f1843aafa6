use std::cell::RefCell;
use std::rc::Rc;

use nerve_tmux_surface::locate::{
    candidates, choose_hub, spawn_throttled, BinaryProbe, HubLocator, BINARY, SPAWN_INTERVAL_MS,
};

const HOME: &str = "/Users/tester";

const BREW: &str = "/opt/homebrew/bin/nerve-hub";
const LOCAL: &str = "/usr/local/bin/nerve-hub";
const CARGO: &str = "/Users/tester/.cargo/bin/nerve-hub";
const FROM_PATH: &str = "/Users/tester/bin/nerve-hub";

/// Every path the locator probed, in order.
type Asked = Rc<RefCell<Vec<String>>>;

/// A filesystem that exists only in this file.
struct FakeProbe {
    executable: Vec<String>,
    on_path: Option<String>,
    asked: Asked,
}

impl FakeProbe {
    fn new(executable: &[&str], on_path: Option<&str>) -> (Self, Asked) {
        let asked: Asked = Rc::new(RefCell::new(Vec::new()));
        let probe = Self {
            executable: executable.iter().map(|p| p.to_string()).collect(),
            on_path: on_path.map(|p| p.to_string()),
            asked: Rc::clone(&asked),
        };
        (probe, asked)
    }
}

impl BinaryProbe for FakeProbe {
    fn is_executable(&self, path: &str) -> bool {
        self.asked.borrow_mut().push(path.to_string());
        self.executable.iter().any(|known| known == path)
    }

    fn on_path(&self, name: &str) -> Option<String> {
        assert_eq!(name, BINARY, "PATH is searched for the hub binary only");
        self.on_path.clone()
    }
}

fn locate(executable: &[&str], on_path: Option<&str>) -> Option<String> {
    let (probe, _) = FakeProbe::new(executable, on_path);
    HubLocator::new(probe, HOME).locate()
}

fn probed(executable: &[&str], on_path: Option<&str>) -> Vec<String> {
    let (probe, asked) = FakeProbe::new(executable, on_path);
    let _ = HubLocator::new(probe, HOME).locate();
    let paths = asked.borrow().clone();
    paths
}

#[test]
fn test_the_binary_looked_for_is_nerve_hub() {
    assert_eq!(BINARY, "nerve-hub");
}

#[test]
fn test_homebrew_wins_when_every_candidate_exists() {
    assert_eq!(locate(&[BREW, LOCAL, CARGO], Some(FROM_PATH)), Some(BREW.to_string()));
}

#[test]
fn test_usr_local_is_second() {
    assert_eq!(locate(&[LOCAL, CARGO], Some(FROM_PATH)), Some(LOCAL.to_string()));
}

#[test]
fn test_cargo_bin_is_third_and_expands_the_injected_home() {
    assert_eq!(locate(&[CARGO], Some(FROM_PATH)), Some(CARGO.to_string()));
}

#[test]
fn test_path_is_the_last_resort() {
    assert_eq!(locate(&[], Some(FROM_PATH)), Some(FROM_PATH.to_string()));
}

#[test]
fn test_nothing_installed_locates_nothing() {
    assert_eq!(locate(&[], None), None);
}

#[test]
fn test_the_fixed_directories_are_probed_in_order() {
    assert_eq!(
        probed(&[], None),
        vec![BREW.to_string(), LOCAL.to_string(), CARGO.to_string()]
    );
}

#[test]
fn test_a_hit_stops_the_search() {
    assert_eq!(probed(&[BREW, LOCAL, CARGO], Some(FROM_PATH)), vec![BREW.to_string()]);
}

#[test]
fn test_no_probed_path_ever_contains_a_tilde() {
    for path in probed(&[], None) {
        assert!(!path.contains('~'), "unexpanded tilde in {path}");
    }
}

#[test]
fn test_the_cargo_candidate_follows_the_injected_home() {
    let (probe, _) = FakeProbe::new(&["/var/root/.cargo/bin/nerve-hub"], None);
    let mut locator = HubLocator::new(probe, "/var/root");

    assert_eq!(locator.locate(), Some("/var/root/.cargo/bin/nerve-hub".to_string()));
}

#[test]
fn test_a_home_with_a_trailing_slash_gets_no_double_slash() {
    assert_eq!(candidates("/root/")[2], "/root/.cargo/bin/nerve-hub");
}

#[test]
fn test_the_first_affirmed_answer_decides_whatever_path_says() {
    assert_eq!(
        choose_hub(HOME, &[false, true, true], Some(FROM_PATH.to_string())),
        Some(LOCAL.to_string())
    );
    assert_eq!(
        choose_hub(HOME, &[false, false, false], Some(FROM_PATH.to_string())),
        Some(FROM_PATH.to_string())
    );
    assert_eq!(choose_hub(HOME, &[false, false, false, true], None), None);
}

#[test]
fn the_hub_is_started_at_most_once_per_interval() {
    assert!(!spawn_throttled(None, 0));
    assert!(spawn_throttled(Some(1_000), 1_000));
    assert!(spawn_throttled(Some(1_000), 1_000 + SPAWN_INTERVAL_MS - 1));
    assert!(!spawn_throttled(Some(1_000), 1_000 + SPAWN_INTERVAL_MS));
    assert!(spawn_throttled(Some(5_000), 10));
}
