use nerve_tmux_surface::summary::{escape_dynamic, SummaryRenderer};
use nerve_tmux_surface::tally::Tally;

/// Two running, one ask, no problems.
fn a2_tally() -> Tally {
    Tally { running: 2, attention: 1, ask: 1, problem: 0, ..Tally::default() }
}

#[test]
fn test_default_template_is_the_literal_the_docs_publish() {
    assert_eq!(
        SummaryRenderer::DEFAULT_TEMPLATE,
        "#[fg=red]{problem}!#[default] #[fg=yellow]{ask}?#[default] \
         #[fg=magenta]{monitor}~#[default] #[fg=blue]{running}>#[default]"
    );
}

#[test]
fn test_default_offline_placeholder_is_the_literal_the_docs_publish() {
    assert_eq!(
        SummaryRenderer::DEFAULT_OFFLINE,
        "#[fg=brightblack]nerve: offline#[default]"
    );
}

#[test]
fn test_escape_dynamic_doubles_every_hash() {
    assert_eq!(escape_dynamic("fix #42 and #43"), "fix ##42 and ##43");
}

#[test]
fn test_escape_dynamic_neutralises_a_style_marker_in_producer_text() {
    assert_eq!(escape_dynamic("#[fg=red]gotcha"), "##[fg=red]gotcha");
}

#[test]
fn test_escape_dynamic_neutralises_a_format_expansion_in_producer_text() {
    assert_eq!(
        escape_dynamic("#{pane_current_command}"),
        "##{pane_current_command}"
    );
}

#[test]
fn test_escape_dynamic_doubles_each_hash_of_a_run() {
    assert_eq!(escape_dynamic("##"), "####");
}

#[test]
fn test_escape_dynamic_leaves_text_without_a_hash_alone() {
    assert_eq!(escape_dynamic("xcodebuild Nerve"), "xcodebuild Nerve");
}

#[test]
fn test_escape_dynamic_leaves_an_empty_string_empty() {
    assert_eq!(escape_dynamic(""), "");
}

#[test]
fn test_default_template_over_the_a2_tally_is_the_golden_segment() {
    let rendered = SummaryRenderer::default().render(&a2_tally());

    assert_eq!(rendered, "#[fg=yellow]1?#[default] #[fg=blue]2>#[default]");
}

#[test]
fn test_default_renderer_uses_the_default_template() {
    let tally = a2_tally();

    assert_eq!(
        SummaryRenderer::default().render(&tally),
        SummaryRenderer::new(SummaryRenderer::DEFAULT_TEMPLATE).render(&tally)
    );
}

#[test]
fn test_default_template_over_one_of_each_class() {
    let tally = Tally {
        problem: 1,
        attention: 1,
        waiting: 1,
        running: 1,
        monitor: 1,
        success: 1,
        inactive: 1,
        ask: 1,
    };

    assert_eq!(
        SummaryRenderer::default().render(&tally),
        "#[fg=red]1!#[default] #[fg=yellow]1?#[default] \
         #[fg=magenta]1~#[default] #[fg=blue]1>#[default]"
    );
}

#[test]
fn test_a_zero_count_drops_its_whole_segment_including_the_colour_marker() {
    let rendered = SummaryRenderer::default().render(&a2_tally());

    assert!(!rendered.contains("fg=red"), "the empty problem segment must leave nothing behind: {rendered}");
    assert!(!rendered.contains('0'), "no zero may be painted: {rendered}");
}

#[test]
fn test_an_empty_tally_renders_an_empty_segment() {
    assert_eq!(SummaryRenderer::default().render(&Tally::default()), "");
}

#[test]
fn test_a_segment_is_kept_when_any_of_its_count_tokens_is_non_zero() {
    let renderer = SummaryRenderer::new("[{problem}/{running}]");

    assert_eq!(renderer.render(&a2_tally()), "[0/2]");
}

#[test]
fn test_a_segment_is_dropped_only_when_every_count_token_is_zero() {
    let renderer = SummaryRenderer::new("[{problem}/{success}]");

    assert_eq!(renderer.render(&a2_tally()), "");
}

#[test]
fn test_a_custom_running_over_total_template_substitutes_in_place() {
    let renderer = SummaryRenderer::new("{running}/{total}");

    assert_eq!(renderer.render(&a2_tally()), "2/3");
}

#[test]
fn test_total_counts_every_class_not_just_the_painted_ones() {
    let renderer = SummaryRenderer::new("{total}");
    let tally = Tally {
        problem: 1,
        attention: 1,
        waiting: 1,
        running: 1,
        monitor: 1,
        success: 1,
        inactive: 1,
        ..Tally::default()
    };

    assert_eq!(renderer.render(&tally), "7");
}

#[test]
fn test_every_count_token_is_substitutable() {
    let renderer = SummaryRenderer::new(
        "{problem}-{ask}-{attention}-{waiting}-{running}-{monitor}-{success}-{inactive}-{total}",
    );
    let tally = Tally {
        problem: 1,
        ask: 8,
        attention: 2,
        waiting: 3,
        running: 4,
        monitor: 5,
        success: 6,
        inactive: 7,
    };

    assert_eq!(renderer.render(&tally), "1-8-2-3-4-5-6-7-28");
}

#[test]
fn test_a_segment_without_count_tokens_is_always_kept() {
    let renderer = SummaryRenderer::new("nerve {running}>");

    assert_eq!(renderer.render(&a2_tally()), "nerve 2>");
    assert_eq!(renderer.render(&Tally::default()), "nerve");
}

#[test]
fn test_an_unrecognised_token_is_left_verbatim() {
    let renderer = SummaryRenderer::new("{host} {running}>");

    assert_eq!(renderer.render(&a2_tally()), "{host} 2>");
}

#[test]
fn test_whitespace_between_segments_normalises_to_one_space() {
    let renderer = SummaryRenderer::new("{running}>\t\t {attention}?");

    assert_eq!(renderer.render(&a2_tally()), "2> 1?");
}

#[test]
fn test_an_empty_template_renders_nothing() {
    assert_eq!(SummaryRenderer::new("").render(&a2_tally()), "");
}

#[test]
fn test_render_never_escapes_the_templates_own_style_markers() {
    let renderer = SummaryRenderer::new("#[fg=red]{running}#[default]");

    assert_eq!(renderer.render(&a2_tally()), "#[fg=red]2#[default]");
}

#[test]
fn escaping_adds_one_character_per_hash() {
    let text = "a#b##c";
    let escaped = escape_dynamic(text);
    assert_eq!(escaped.len(), text.len() + 3);
    assert_eq!(escaped.matches('#').count(), 6);
}
