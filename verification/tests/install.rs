use nerve_tmux_surface::cli::install::{
    close_payload, is_legacy_prefix_binding, prefix_key, toggle_payload,
};

#[test]
fn toggle_payload_expands_window_and_path_at_keypress() {
    let payload = toggle_payload("/opt/homebrew/bin/nerve-tmux-surface");
    assert!(payload.contains("nerve-tmux-surface"));
    assert!(payload.contains("toggle "));
    assert!(payload.contains("#{window_id}"));
    assert!(payload.contains("#{pane_current_path}"));
    assert!(!payload.contains("##{"));
}

#[test]
fn close_payload_names_the_window() {
    let payload = close_payload("/usr/local/bin/nerve-tmux-surface");
    assert!(payload.contains("close "));
    assert!(payload.contains("#{window_id}"));
}

#[test]
fn legacy_popup_and_toggle_all_are_the_ones_unbound() {
    assert!(is_legacy_prefix_binding(
        r#"bind-key -T prefix j run-shell "nerve-tmux-surface popup""#
    ));
    assert!(is_legacy_prefix_binding(
        r#"bind-key -T prefix E run-shell "nerve-tmux-surface toggle-all""#
    ));
    assert!(!is_legacy_prefix_binding(
        r#"bind-key -T prefix e run-shell "nerve-tmux-surface toggle""#
    ));
    assert!(!is_legacy_prefix_binding(
        r#"bind-key -T prefix q run-shell "nerve-tmux-surface close""#
    ));
}

#[test]
fn prefix_key_reads_the_bound_key() {
    assert_eq!(
        prefix_key(r#"bind-key    -T prefix       e                 run-shell "x""#),
        Some("e")
    );
    assert_eq!(
        prefix_key(r#"bind-key -T prefix E run-shell "nerve-tmux-surface toggle-all""#),
        Some("E")
    );
}
