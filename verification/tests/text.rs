use starship_jj::config::util::Glob;
use starship_jj::config::BookmarkConfig;
use starship_jj::data::BookmarkMap;
use starship_jj::search::{visit_commit, BookmarkSearch};
use starship_jj::text::{byte_slice_prefix, first_line, print_ansi_truncated, str_lt, truncate_bytes, usize_to_string};

#[test]
fn first_line_stops_at_the_first_break() {
    assert_eq!(first_line("abc\ndef"), "abc");
    assert_eq!(first_line("abc\rdef\n"), "abc");
    assert_eq!(first_line("\nabc"), "");
    assert_eq!(first_line("no break"), "no break");
    assert_eq!(first_line(""), "");
}

#[test]
fn truncation_counts_characters() {
    let mut out = String::new();
    print_ansi_truncated(Some(3), &mut out, "\u{e9}t\u{e9}s");
    assert_eq!(out, "\u{e9}t\u{2026}");
    let mut out = String::new();
    print_ansi_truncated(Some(4), &mut out, "four");
    assert_eq!(out, "four");
    let mut out = String::new();
    print_ansi_truncated(Some(0), &mut out, "x");
    assert_eq!(out, "");
    let mut out = String::new();
    print_ansi_truncated(None, &mut out, "whatever it is");
    assert_eq!(out, "whatever it is");
}

#[test]
fn byte_prefix_slices_at_a_boundary() {
    assert_eq!(byte_slice_prefix("h\u{e9}llo", 3), "h\u{e9}");
    assert_eq!(byte_slice_prefix("abc", 0), "");
}

#[test]
fn names_order_by_code_point() {
    assert!(str_lt("a", "b"));
    assert!(str_lt("a", "ab"));
    assert!(!str_lt("ab", "a"));
    assert!(!str_lt("a", "a"));
    assert!(str_lt("Z", "a"));
    assert!(str_lt("z", "\u{e9}"));
}

#[test]
fn globs_match_whole_names() {
    let g = |p: &str| Glob { pattern: p.to_string() };
    assert!(g("*").matches("anything"));
    assert!(g("*").matches(""));
    assert!(g("push-*").matches("push-abc"));
    assert!(!g("push-*").matches("main"));
    assert!(g("?ain").matches("main"));
    assert!(!g("?ain").matches("ain"));
    assert!(g("main").matches("main"));
    assert!(!g("main").matches("mainline"));
    assert!(g("a*b*c").matches("axxbyyc"));
    assert!(!g("a*b*c").matches("axxbyy"));
}

#[test]
fn search_records_bookmarks_and_stops() {
    let config = BookmarkConfig {
        search_depth: Some(3),
        exclude: vec![Glob { pattern: "push-*".to_string() }],
    };
    let mut map = BookmarkMap::new();
    let names = vec!["main".to_string(), "push-xyz".to_string()];
    assert!(!visit_commit(&config, &mut map, &names, 2));
    assert_eq!(map.entries().clone(), vec![("main".to_string(), 2)]);
    assert!(!visit_commit(&config, &mut map, &vec!["main".to_string()], 1));
    assert_eq!(map.entries().clone(), vec![("main".to_string(), 1)]);
    assert!(visit_commit(&config, &mut map, &vec![], 2));
    assert!(!visit_commit(&config, &mut map, &vec![], 3));
    let unlimited = BookmarkConfig { search_depth: None, exclude: vec![] };
    assert!(visit_commit(&unlimited, &mut map, &vec![], 1000));
}

#[test]
fn numbers_are_written_in_decimal() {
    assert_eq!(usize_to_string(0), "0");
    assert_eq!(usize_to_string(7), "7");
    assert_eq!(usize_to_string(10), "10");
    assert_eq!(usize_to_string(1203), "1203");
    assert_eq!(usize_to_string(usize::MAX), usize::MAX.to_string());
}

#[test]
fn search_walk_keeps_the_least_distance() {
    let config = BookmarkConfig { search_depth: None, exclude: vec![Glob { pattern: "tmp*".to_string() }] };
    let mut start = BookmarkMap::new();
    start.insert_min("old".to_string(), 1);
    let mut search = BookmarkSearch::new(&config, start);
    assert!(search.visit(&vec![], 0));
    assert!(!search.visit(&vec!["feature".to_string(), "tmp1".to_string()], 3));
    assert!(!search.visit(&vec!["old".to_string(), "feature".to_string()], 2));
    assert!(!search.visit(&vec!["feature".to_string()], 5));
    let found = search.finish();
    assert_eq!(found.entries().clone(), vec![("old".to_string(), 1), ("feature".to_string(), 2)]);
}

#[test]
fn change_ids_are_cut_by_bytes() {
    assert_eq!(truncate_bytes("kpqxywonksrl", 4), "kpqx");
    assert_eq!(truncate_bytes("kpqx", 8), "kpqx");
    assert_eq!(truncate_bytes("kpqx", 4), "kpqx");
    assert_eq!(truncate_bytes("h\u{e9}llo", 3), "h\u{e9}");
}
