use nerve_tmux_surface::columns::{display_width, pad_cell, pad_columns, truncate};
use nerve_tmux_surface::filter::StatusFilter;
use nerve_tmux_surface::frame::{Current, JobView, Outcome};
use nerve_tmux_surface::git::GitSnapshot;
use nerve_tmux_surface::preview::PanePreview;
use nerve_tmux_surface::state::{AppState, BottomTab, JobsSnapshot};
use nerve_tmux_surface::tmux::{Tmux, TmuxError, TmuxRunner};
use nerve_tmux_surface::view::{
    caret, filter_chips, git_lines, job_list_lines, name_budget, prompt_lines, GitPanel, ListLine,
    PromptPanel,
};

struct NoTmux;

impl TmuxRunner for NoTmux {
    fn run(&mut self, _args: &[&str]) -> Result<String, TmuxError> {
        Err(TmuxError::Unavailable("no tmux in this test".to_string()))
    }
}

const NOW: i128 = 1_000_000 * 1_000_000_000;

fn state_with(jobs: Vec<JobView>) -> AppState<NoTmux> {
    let mut state = AppState::new(PanePreview::detached(Tmux::new(NoTmux)), 8, NOW);
    state.refresh_from_hub(Some(JobsSnapshot { jobs, offline: false }), NOW);
    state
}

fn job(id: &str, alias: &str, summary: &str, seconds_ago: i128) -> JobView {
    let mut job = JobView::new(id);
    job.name = id.to_string();
    job.alias = alias.to_string();
    job.current = Some(Current {
        kind: "tool".to_string(),
        name: None,
        summary: Some(summary.to_string()),
        detail: None,
    });
    job.updated_at = Some(NOW - seconds_ago * 1_000_000_000);
    job
}

#[test]
fn an_empty_list_says_no_jobs_or_offline() {
    let state = state_with(vec![]);
    let lines = job_list_lines(&state, 30);
    assert_eq!(lines.len(), 1);
    assert!(matches!(lines[0], ListLine::Placeholder("no jobs")));

    let mut offline = AppState::new(PanePreview::detached(Tmux::new(NoTmux)), 8, NOW);
    offline.refresh_from_hub(Some(JobsSnapshot { jobs: vec![], offline: true }), NOW);
    assert!(matches!(job_list_lines(&offline, 30)[0], ListLine::Placeholder("offline")));
}

#[test]
fn rows_follow_their_section_title_padded_with_the_age_right_aligned() {
    let state = state_with(vec![job("ab", "mac", "x", 5), job("abcd", "mac", "long", 120)]);
    let lines = job_list_lines(&state, 40);
    assert_eq!(lines.len(), 3);
    let ListLine::Header(title) = &lines[0] else { panic!("a section starts with its title") };
    assert_eq!(title, "mac");
    let ListLine::Row(first) = &lines[1] else { panic!("then its rows") };
    assert_eq!(first.icon, "●");
    assert!(first.selected);
    assert_eq!(first.name, "ab    ");
    assert_eq!(first.activity, "x   ");
    assert_eq!(first.age, "   5s");
    let ListLine::Row(second) = &lines[2] else { panic!("then its rows") };
    assert!(!second.selected);
    assert_eq!(second.name, "abcd  ");
    assert_eq!(second.activity, "long");
    assert_eq!(second.age, "   2m");
}

#[test]
fn a_name_wider_than_the_budget_is_cut_with_an_ellipsis() {
    assert_eq!(name_budget(40), 15);
    assert_eq!(name_budget(8), 4);
    let state = state_with(vec![job("abcdefghijklmnopqrstuvwxyz", "mac", "x", 0)]);
    let lines = job_list_lines(&state, 40);
    let ListLine::Row(row) = &lines[1] else { panic!("a row") };
    assert_eq!(row.name, "abcdefghijklmn…  ");
}

#[test]
fn the_filter_bar_counts_each_bucket_and_marks_the_active_one() {
    let mut failed = job("bad", "mac", "x", 0);
    failed.outcome = Some(Outcome::Failure);
    let state = state_with(vec![job("a", "mac", "x", 0), failed]);
    let chips = filter_chips(&state);
    let texts: Vec<&str> = chips.iter().map(|chip| chip.text.as_str()).collect();
    assert_eq!(texts, vec!["≡2", "●1", "◎0", "◐0", "○0", "✕1"]);
    assert!(chips[0].active);
    assert!(!chips[1].active);
    assert_eq!(chips[2].color, nerve_tmux_surface::colors::FILTER_INACTIVE);
    assert_eq!(chips[5].color, nerve_tmux_surface::colors::PROBLEM);
    let _ = StatusFilter::All;
}

#[test]
fn the_panel_caret_shows_whether_it_is_folded() {
    assert_eq!(caret(true), "▸");
    assert_eq!(caret(false), "▾");
}

#[test]
fn the_prompt_panel_shows_lines_or_a_hint() {
    let empty = state_with(vec![]);
    assert!(matches!(prompt_lines(&empty), PromptPanel::Hint("—")));

    let quiet = state_with(vec![job("a", "mac", "x", 0)]);
    assert!(matches!(prompt_lines(&quiet), PromptPanel::Hint("no prompt reported yet")));

    let mut asked = job("a", "mac", "x", 0);
    asked.extensions.last_prompt = Some("  fix it\\nand test it  ".replace("\\n", "\n"));
    let state = state_with(vec![asked]);
    let PromptPanel::Lines(lines) = prompt_lines(&state) else { panic!("a prompt") };
    assert_eq!(lines, vec!["fix it".to_string(), "and test it".to_string()]);
}

#[test]
fn the_git_panel_shows_the_branch_and_caps_each_list() {
    let mut state = state_with(vec![]);
    state.set_bottom_tab(BottomTab::Git);
    let snapshot = GitSnapshot {
        branch: "main".to_string(),
        ahead: 2,
        behind: 1,
        staged: (0..8).map(|i| format!("M\tfile{i}")).collect(),
        unstaged: vec![],
        untracked: vec!["? new".to_string()],
        error: None,
    };
    state.refresh_git(snapshot, 0);
    let GitPanel::Status { branch, counts, rows } = git_lines(&state) else { panic!("a status") };
    assert_eq!(branch, "main");
    assert_eq!(counts, " ↑2↓1");
    assert_eq!(rows.len(), 7);
    assert_eq!(rows[6], "? new");

    let mut broken = GitSnapshot::default();
    broken.error = Some("not a git repo".to_string());
    state.refresh_git(broken, 0);
    assert!(matches!(git_lines(&state), GitPanel::Error(err) if err == "not a git repo"));
}

#[test]
fn columns_pad_to_the_widest_cell_and_cells_cut_to_fit() {
    assert_eq!(display_width("abc"), 3);
    assert_eq!(display_width("项目"), 4);
    assert_eq!(pad_cell("ab", 4), "ab  ");
    assert_eq!(pad_cell("abcdef", 4), "abcdef");
    let rows = vec![
        vec!["a".to_string(), "bb".to_string(), "tail".to_string()],
        vec!["ccc".to_string(), "d".to_string(), "t".to_string()],
    ];
    assert_eq!(
        pad_columns(&rows, 2),
        vec![
            vec!["a  ".to_string(), "bb".to_string(), "tail".to_string()],
            vec!["ccc".to_string(), "d ".to_string(), "t".to_string()],
        ]
    );
    assert_eq!(truncate("short", 10), "short");
    assert_eq!(truncate("abcdefgh", 5), "abcd…");
    assert_eq!(truncate("项目项目", 5), "项目…");
}

fn highlighted(lines: &[ListLine]) -> Vec<String> {
    lines
        .iter()
        .filter_map(|line| match line {
            ListLine::Row(row) if row.selected => Some(row.name.trim_end().to_string()),
            _ => None,
        })
        .collect()
}

#[test]
fn exactly_the_row_under_the_cursor_is_highlighted_across_sections() {
    let mut state = state_with(vec![
        job("a1", "alpha", "x", 5),
        job("b1", "beta", "x", 6),
        job("b2", "beta", "x", 7),
    ]);
    for step in 0..3 {
        let lines = job_list_lines(&state, 40);
        let lit = highlighted(&lines);
        assert_eq!(lit.len(), 1, "step {step}");
        let selected = state.selected_job().map(|job| job.name.clone());
        assert_eq!(Some(lit[0].clone()), selected);
        state.move_selection(1);
    }
    let empty = state_with(vec![]);
    assert!(highlighted(&job_list_lines(&empty, 40)).is_empty());
}
