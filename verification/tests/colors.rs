use starship_jj::config::bookmarks::Bookmarks;
use starship_jj::config::util::{Color, Style};
use starship_jj::data::{BookmarkMap, CommitData, CommitWarnings, JJData};

#[test]
fn styles_write_escape_sequences() {
    colored::control::set_override(true);
    let magenta = Style { color: Some(Color::Magenta), bg_color: None };
    let reset = "\u{1b}[0m".to_string();
    assert_eq!(magenta.format(None), ("\u{1b}[35m".to_string(), reset.clone()));
    let plain = Style::default();
    assert_eq!(plain.format(None), (String::new(), String::new()));
    assert_eq!(plain.format(Some(magenta)), ("\u{1b}[35m".to_string(), reset.clone()));
    let on_red = Style { color: None, bg_color: Some(Color::Red) };
    assert_eq!(on_red.format(None), ("\u{1b}[41m".to_string(), reset.clone()));
    let red_on_blue = Style { color: Some(Color::Red), bg_color: Some(Color::Blue) };
    assert_eq!(red_on_blue.format(None), ("\u{1b}[44;31m".to_string(), reset.clone()));
    assert_eq!(on_red.format(Some(magenta)), ("\u{1b}[41;35m".to_string(), reset.clone()));
    let mut out = String::from("x");
    assert_eq!(red_on_blue.print(&mut out, None), reset);
    assert_eq!(out, "x\u{1b}[44;31m");
    let mut map = BookmarkMap::new();
    map.insert_min("main".to_string(), 0);
    let data = JJData {
        bookmarks: Some(map),
        commit: CommitData {
            id: None,
            desc: None,
            warnings: CommitWarnings { hidden: false, conflict: false, divergent: false, immutable: false, empty: false },
            diff: None,
        },
    };
    let mut out = String::new();
    Bookmarks::default().print(&mut out, &data, " ");
    assert_eq!(out, "\u{1b}[35m\"main\"\u{1b}[0m ");
}

#[test]
fn styled_text_is_reset_after_it() {
    colored::control::set_override(true);
    let mut commit = starship_jj::config::commit::Commit::default();
    commit.style = Style { color: Some(Color::Red), bg_color: None };
    let data = JJData {
        bookmarks: None,
        commit: CommitData {
            id: None,
            desc: Some("Fix it\nbody".to_string()),
            warnings: CommitWarnings { hidden: false, conflict: true, divergent: true, immutable: false, empty: false },
            diff: None,
        },
    };
    let mut out = String::new();
    commit.print(&mut out, &data, "|");
    assert_eq!(out, "\u{1b}[31mFix it\u{1b}[0m|");
    let mut out = String::new();
    starship_jj::config::state::State::default().print(&mut out, &data, "|");
    assert_eq!(out, "\u{1b}[31m(CONFLICT)\u{1b}[0m \u{1b}[36m(DIVERGENT)\u{1b}[0m|");
}
