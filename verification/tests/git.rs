use nerve_tmux_surface::git::porcelain_cuts_exec;
use nerve_tmux_surface::git::{parse_porcelain, LIST_CAP};

#[test]
fn porcelain_fills_branch_ahead_behind_and_three_lists() {
    let snapshot = parse_porcelain(
        "\
## main...origin/main [ahead 2, behind 1]
M  staged.rs
 M unstaged.rs
MM both.rs
?? untracked.rs
",
    );
    assert_eq!(snapshot.branch, "main");
    assert_eq!(snapshot.ahead, 2);
    assert_eq!(snapshot.behind, 1);
    assert_eq!(snapshot.staged, vec!["M\tstaged.rs", "M\tboth.rs"]);
    assert_eq!(snapshot.unstaged, vec!["M\tunstaged.rs", "M\tboth.rs"]);
    assert_eq!(snapshot.untracked, vec!["? untracked.rs"]);
    assert_eq!(snapshot.error, None);
}

#[test]
fn a_branch_with_no_upstream_has_zero_ahead_behind() {
    let snapshot = parse_porcelain("## feature\n");
    assert_eq!(snapshot.branch, "feature");
    assert_eq!(snapshot.ahead, 0);
    assert_eq!(snapshot.behind, 0);
}

#[test]
fn lists_stop_at_the_panel_cap() {
    let mut body = String::from("## main\n");
    for i in 0..10 {
        body.push_str(&format!("?? f{i}.rs\n"));
    }
    let snapshot = parse_porcelain(&body);
    assert_eq!(snapshot.untracked.len(), LIST_CAP);
}

#[test]
fn a_listing_cut_inside_a_character_is_refused_before_parsing() {
    assert!(porcelain_cuts_exec("## main\n M src/lib.rs\n?? new\n"));
    assert!(porcelain_cuts_exec("## 项目...origin/项目\n"));
    assert!(porcelain_cuts_exec("é path\n"));
    assert!(!porcelain_cuts_exec("项 path\n"));
    assert!(!porcelain_cuts_exec(" 项path\n"));
}
