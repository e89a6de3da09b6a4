use starship_jj::config::bookmarks::Bookmarks;
use starship_jj::config::change::Change;
use starship_jj::config::commit::Commit;
use starship_jj::config::commit_desc::CommitDesc;
use starship_jj::config::commit_diff::CommitDiff as DiffModule;
use starship_jj::config::commit_warnings::CommitWarnings as WarningsModule;
use starship_jj::config::metrics::{Metric, Metrics};
use starship_jj::config::state::State;
use starship_jj::config::util::Style;
use starship_jj::config::{Config, ModuleConfig};
use starship_jj::data::{BookmarkMap, CommitData, CommitDiff, CommitWarnings, JJData};
use starship_jj::template::{template_is_safe, PromptError};

fn plain_output() {
    colored::control::set_override(false);
}

fn no_warnings() -> CommitWarnings {
    CommitWarnings { hidden: false, conflict: false, divergent: false, immutable: false, empty: false }
}

fn data_with(bookmarks: &[(&str, usize)], desc: Option<&str>) -> JJData {
    let mut map = BookmarkMap::new();
    for (name, depth) in bookmarks {
        map.insert_min(name.to_string(), *depth);
    }
    JJData {
        bookmarks: Some(map),
        commit: CommitData {
            id: None,
            desc: desc.map(|d| d.to_string()),
            warnings: no_warnings(),
            diff: None,
        },
    }
}

fn diff(files_added: usize, files_removed: usize, files_modified: usize, files_changed: usize, lines_added: usize, lines_removed: usize) -> CommitDiff {
    CommitDiff { files_added, files_removed, files_modified, files_changed, lines_added, lines_removed }
}

#[test]
fn bookmarks_nearest_first_then_by_name() {
    plain_output();
    let data = data_with(&[("feature", 2), ("main", 0), ("dev", 2)], None);
    let mut out = String::new();
    Bookmarks::default().print(&mut out, &data, " ");
    assert_eq!(out, "\"main\" \"dev\"\u{21e1}2 \"feature\"\u{21e1}2 ");
}

#[test]
fn bookmarks_are_limited_with_an_ellipsis() {
    plain_output();
    let data = data_with(&[("feature", 2), ("main", 0), ("dev", 2)], None);
    let mut module = Bookmarks::default();
    module.max_bookmarks = Some(2);
    let mut out = String::new();
    module.print(&mut out, &data, "|");
    assert_eq!(out, "\"main\" \"dev\"\u{21e1}2\u{2026}|");
}

#[test]
fn bookmarks_limit_of_zero_prints_only_the_ellipsis() {
    plain_output();
    let data = data_with(&[("main", 0)], None);
    let mut module = Bookmarks::default();
    module.max_bookmarks = Some(0);
    let mut out = String::new();
    module.print(&mut out, &data, "|");
    assert_eq!(out, "\u{2026}|");
}

#[test]
fn bookmarks_limit_not_reached_prints_all() {
    plain_output();
    let data = data_with(&[("b", 1), ("a", 1)], None);
    let mut module = Bookmarks::default();
    module.max_bookmarks = Some(2);
    module.behind_symbol = None;
    module.separator = ",".to_string();
    let mut out = String::new();
    module.print(&mut out, &data, "|");
    assert_eq!(out, "\"a\"1,\"b\"1|");
}

#[test]
fn bookmark_names_are_cut_by_bytes() {
    plain_output();
    let data = data_with(&[("feature", 0), ("ab", 0)], None);
    let mut module = Bookmarks::default();
    module.max_length = Some(3);
    let mut out = String::new();
    module.print(&mut out, &data, " ");
    assert_eq!(out, "\"ab\" \"fe\u{2026}\" ");
}

#[test]
fn no_bookmarks_print_nothing() {
    plain_output();
    let data = data_with(&[], None);
    let mut out = String::from("x");
    Bookmarks::default().print(&mut out, &data, " ");
    assert_eq!(out, "x");
}

#[test]
fn bookmark_distance_has_several_digits() {
    plain_output();
    let data = data_with(&[("old", 120)], None);
    let mut out = String::new();
    Bookmarks::default().print(&mut out, &data, "");
    assert_eq!(out, "\"old\"\u{21e1}120");
}

#[test]
fn bookmark_map_keeps_the_smallest_distance() {
    let mut map = BookmarkMap::new();
    map.insert_min("main".to_string(), 5);
    map.insert_min("dev".to_string(), 1);
    map.insert_min("main".to_string(), 3);
    map.insert_min("main".to_string(), 4);
    assert_eq!(map.len(), 2);
    assert_eq!(map.entries().clone(), vec![("main".to_string(), 3), ("dev".to_string(), 1)]);
    assert_eq!(map.sorted_entries(), vec![("dev".to_string(), 1), ("main".to_string(), 3)]);
}

#[test]
fn commit_prints_first_line_cut_to_length() {
    plain_output();
    let data = data_with(&[], Some("Fix the parser for long descriptions\nbody"));
    let mut out = String::new();
    Commit::default().print(&mut out, &data, " ");
    assert_eq!(out, "Fix the parser for long\u{2026} ");
}

#[test]
fn commit_first_line_ends_at_carriage_return() {
    plain_output();
    let data = data_with(&[], Some("short\r\nmore"));
    let mut out = String::new();
    Commit::default().print(&mut out, &data, "|");
    assert_eq!(out, "short|");
}

#[test]
fn commit_with_empty_first_line_prints_nothing() {
    plain_output();
    let data = data_with(&[], Some("\nbody"));
    let mut out = String::new();
    Commit::default().print(&mut out, &data, "|");
    assert_eq!(out, "");
    let data = data_with(&[], None);
    Commit::default().print(&mut out, &data, "|");
    assert_eq!(out, "");
}

#[test]
fn change_prints_separator_then_id() {
    plain_output();
    let mut data = data_with(&[], None);
    data.commit.id = Some("kpqxywon".to_string());
    let mut out = String::new();
    let mut module = Change::default();
    module.print(&mut out, &data, "|");
    assert_eq!(out, "|kpqxywon");
    module.max_length = Some(4);
    let mut out = String::new();
    module.print(&mut out, &data, "|");
    assert_eq!(out, "|kpq\u{2026}");
    data.commit.id = Some(String::new());
    let mut out = String::new();
    module.print(&mut out, &data, "|");
    assert_eq!(out, "");
}

#[test]
fn commit_desc_quotes_the_first_line() {
    plain_output();
    let data = data_with(&[], Some("Add tests\nand more"));
    let mut out = String::new();
    CommitDesc::default().print(&mut out, &data);
    assert_eq!(out, "\"Add tests\" ");
    let data = data_with(&[], Some("A description longer than the limit"));
    let mut out = String::new();
    CommitDesc::default().print(&mut out, &data);
    assert_eq!(out, "\"A description longer th\u{2026}\" ");
}

#[test]
fn commit_warnings_print_each_state() {
    plain_output();
    let mut data = data_with(&[], None);
    data.commit.warnings.conflict = true;
    data.commit.warnings.hidden = true;
    let mut out = String::new();
    WarningsModule::default().print(&mut out, &data);
    assert_eq!(out, "(CONFLICT) (HIDDEN) ");
}

#[test]
fn state_prints_warnings_with_separator() {
    plain_output();
    let mut data = data_with(&[], None);
    data.commit.warnings.conflict = true;
    data.commit.warnings.empty = true;
    data.commit.warnings.immutable = true;
    let mut out = String::new();
    State::default().print(&mut out, &data, "|");
    assert_eq!(out, "(CONFLICT) (IMMUTABLE) (EMPTY)|");
}

#[test]
fn state_without_warnings_prints_nothing() {
    plain_output();
    let data = data_with(&[], None);
    let mut out = String::new();
    State::default().print(&mut out, &data, "|");
    assert_eq!(out, "");
}

#[test]
fn metrics_render_the_default_template() {
    plain_output();
    let mut data = data_with(&[], None);
    data.commit.diff = Some(diff(1, 0, 2, 3, 10, 4));
    let mut out = String::new();
    let r = Metrics::default().print(&mut out, &data, " ");
    assert!(r.is_ok());
    assert_eq!(out, " [3 +10-4]");
}

#[test]
fn metrics_files_stat_skips_empty_counts() {
    plain_output();
    let mut data = data_with(&[], None);
    data.commit.diff = Some(diff(1, 0, 2, 3, 10, 4));
    let mut module = Metrics::default();
    module.template = "{files_stat}".to_string();
    module.removed_files.skip_empty = true;
    let mut out = String::new();
    assert!(module.print(&mut out, &data, "|").is_ok());
    assert_eq!(out, "|+1 ~2");
}

#[test]
fn metrics_without_diff_print_nothing() {
    plain_output();
    let data = data_with(&[], None);
    let mut out = String::new();
    assert!(Metrics::default().print(&mut out, &data, "|").is_ok());
    assert_eq!(out, "");
}

#[test]
fn metrics_rendering_to_nothing_prints_nothing() {
    plain_output();
    let mut data = data_with(&[], None);
    data.commit.diff = Some(diff(0, 0, 0, 0, 0, 0));
    let mut module = Metrics::default();
    module.template = "{files_stat}".to_string();
    module.added_files.skip_empty = true;
    module.removed_files.skip_empty = true;
    module.modified_files.skip_empty = true;
    let mut out = String::new();
    assert!(module.print(&mut out, &data, "|").is_ok());
    assert_eq!(out, "");
}

#[test]
fn metrics_bad_template_fails() {
    plain_output();
    let mut data = data_with(&[], None);
    data.commit.diff = Some(diff(1, 1, 1, 1, 1, 1));
    let mut module = Metrics::default();
    module.template = "{added".to_string();
    let mut out = String::new();
    assert!(matches!(module.print(&mut out, &data, "|"), Err(PromptError::Template)));
    assert_eq!(out, "");
}

#[test]
fn metric_skips_zero_when_asked() {
    plain_output();
    let metric = Metric { prefix: "+".to_string(), suffix: "!".to_string(), skip_empty: true, style: Style::default() };
    assert_eq!(metric.format(0, &Style::default(), Style::default()), "");
    assert_eq!(metric.format(7, &Style::default(), Style::default()), "+7!");
}

#[test]
fn diff_module_renders_and_adds_a_space() {
    plain_output();
    let mut data = data_with(&[], None);
    data.commit.diff = Some(diff(0, 0, 0, 5, 6, 7));
    let mut out = String::new();
    assert!(DiffModule::default().print(&mut out, &data).is_ok());
    assert_eq!(out, "[5 +6-7] ");
}

#[test]
fn default_config_prints_all_modules() {
    plain_output();
    let mut data = data_with(&[("main", 1)], Some("Describe it"));
    data.commit.warnings.divergent = true;
    data.commit.diff = Some(diff(0, 0, 1, 1, 2, 0));
    let mut out = String::new();
    assert!(Config::default().print(&mut out, &data).is_ok());
    assert_eq!(out, "\"main\"\u{21e1}1 Describe it (DIVERGENT)  [1 +2-0]");
}

#[test]
fn config_stops_at_a_failing_module() {
    plain_output();
    let mut data = data_with(&[], Some("Describe it"));
    data.commit.diff = Some(diff(0, 0, 1, 1, 2, 0));
    let mut metrics = Metrics::default();
    metrics.template = "{".to_string();
    let config = Config {
        module_separator: "|".to_string(),
        bookmarks: Default::default(),
        modules: vec![ModuleConfig::Metrics(metrics), ModuleConfig::Commit(Commit::default())],
    };
    let mut out = String::new();
    assert!(config.print(&mut out, &data).is_err());
    assert_eq!(out, "");
}

#[test]
fn bookmark_order_ignores_recording_order() {
    let mut a = BookmarkMap::new();
    for (n, d) in [("x", 1), ("b", 0), ("a", 1)] {
        a.insert_min(n.to_string(), d);
    }
    let mut b = BookmarkMap::new();
    for (n, d) in [("a", 1), ("x", 1), ("b", 0)] {
        b.insert_min(n.to_string(), d);
    }
    assert_eq!(a.sorted_entries(), b.sorted_entries());
    assert_eq!(
        a.sorted_entries(),
        vec![("b".to_string(), 0), ("a".to_string(), 1), ("x".to_string(), 1)]
    );
}

#[test]
fn bookmark_names_are_cut_at_a_character_boundary() {
    plain_output();
    let data = data_with(&[("h\u{e9}llo", 0)], None);
    let mut module = Bookmarks::default();
    module.max_length = Some(4);
    let mut out = String::new();
    module.print(&mut out, &data, "");
    assert_eq!(out, "\"h\u{e9}\u{2026}\"");
}

#[test]
fn metrics_templates_the_compiler_would_panic_on_fail() {
    plain_output();
    let mut data = data_with(&[], None);
    data.commit.diff = Some(diff(1, 1, 1, 1, 1, 1));
    for template in ["{#}", "{{ if not }}x{{ endif }}", "{{ if not}}x{{ endif }}", "{added}\\"] {
        let mut module = Metrics::default();
        module.template = template.to_string();
        let mut out = String::new();
        assert!(matches!(module.print(&mut out, &data, "|"), Err(PromptError::Template)));
        assert_eq!(out, "");
        let mut diff_module = DiffModule::default();
        diff_module.template = template.to_string();
        let mut out = String::new();
        assert!(matches!(diff_module.print(&mut out, &data), Err(PromptError::Template)));
        assert_eq!(out, "");
    }
}

#[test]
fn metrics_negated_condition_renders() {
    plain_output();
    let mut data = data_with(&[], None);
    data.commit.diff = Some(diff(0, 0, 0, 2, 10, 4));
    let mut module = Metrics::default();
    module.template = "{{ if not added }}none{{ else }}{added}{{ endif }} {# note #}".to_string();
    let mut out = String::new();
    assert!(module.print(&mut out, &data, "|").is_ok());
    assert_eq!(out, "|+10 ");
    module.template = "{changed} if not".to_string();
    let mut out = String::new();
    assert!(module.print(&mut out, &data, "|").is_ok());
    assert_eq!(out, "|2 if not");
    let mut diff_module = DiffModule::default();
    diff_module.template = "{changed} if not".to_string();
    let mut out = String::new();
    assert!(diff_module.print(&mut out, &data).is_ok());
    assert_eq!(out, "2 if not ");
}

#[test]
fn length_limit_of_zero_prints_no_text() {
    plain_output();
    let mut data = data_with(&[], Some("Fix the parser"));
    let mut commit = Commit::default();
    commit.max_length = Some(0);
    let mut out = String::new();
    commit.print(&mut out, &data, "|");
    assert_eq!(out, "|");
    data.commit.id = Some("kpqxywon".to_string());
    let mut change = Change::default();
    change.max_length = Some(0);
    let mut out = String::new();
    change.print(&mut out, &data, "|");
    assert_eq!(out, "|");
}

#[test]
fn template_safety_check() {
    assert!(template_is_safe("[{changed} {added}{removed}]"));
    assert!(template_is_safe("{{ if not added }}-{{ endif }}{# a comment #}"));
    assert!(template_is_safe("nothing to note"));
    assert!(template_is_safe("[{added}] cannot"));
    assert!(template_is_safe("{added} not"));
    assert!(template_is_safe("{changed} if not"));
    assert!(template_is_safe("\\{#}"));
    assert!(template_is_safe("{# {{ if not }} #}"));
    assert!(!template_is_safe("x {#}\n"));
    assert!(!template_is_safe("{{if\u{3000}not}}"));
    assert!(!template_is_safe("{{- if not -}}"));
    assert!(template_is_safe(""));
    assert!(!template_is_safe("{#}"));
    assert!(!template_is_safe("{{ if not }}"));
    assert!(!template_is_safe("{{ if not -}}"));
    assert!(!template_is_safe("{{ if not\u{e9} }}"));
    assert!(!template_is_safe("ends in \\"));
}
