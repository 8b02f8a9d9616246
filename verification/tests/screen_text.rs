use herdr_git_graph::diff::{fetch_diff, format_commit_details, patch_text};
use herdr_git_graph::graph::model::{BranchFilter, GraphCell, GraphRow};
use herdr_git_graph::input::{help_text, is_control, map_key, KeyCode, KeyEvent, CONTROL, SHIFT};
use herdr_git_graph::intent::Intent;
use herdr_git_graph::presenter::{
    classify_ref, commit_meta, details_pane_text, details_title, header_line, mode_label, relative_date_format,
    search_item, truncate_author, RefKind,
};
use herdr_git_graph::presenter::{commit_line, lane_hue, ref_hue, search_list, side_pane_shown, Hue, Piece};

#[test]
fn refs_are_classified() {
    assert_eq!(classify_ref("HEAD -> main"), (RefKind::Head, "HEAD→main".to_string()));
    assert_eq!(classify_ref(" HEAD "), (RefKind::Head, "HEAD".to_string()));
    assert_eq!(classify_ref("tag: v1.0"), (RefKind::Tag, "tag: v1.0".to_string()));
    assert_eq!(classify_ref("origin/main"), (RefKind::Remote, "origin/main".to_string()));
    assert_eq!(classify_ref("main"), (RefKind::Local, "main".to_string()));
}

#[test]
fn commit_line_metadata() {
    assert_eq!(truncate_author("Bartholomew Smith", 10), "Bartholome");
    assert_eq!(truncate_author("Al", 10), "Al");
    assert_eq!(commit_meta("12:00", "Al", "abc1234"), "12:00  Al          abc1234");
    assert_eq!(commit_meta("Mon", "Bartholomew", "abc"), "Mon  Bartholome  abc");
    assert_eq!(relative_date_format(0), "%H:%M");
    assert_eq!(relative_date_format(3), "%a %H:%M");
    assert_eq!(relative_date_format(7), "%d %b %Y");
}

#[test]
fn header_and_details_pane() {
    assert_eq!(mode_label(false, true), "graph");
    assert_eq!(mode_label(true, true), "diff");
    assert_eq!(mode_label(true, false), "details");
    assert_eq!(header_line("repo", "3 commits", "graph"), " repo · 3 commits · graph");
    assert_eq!(details_pane_text(true, "", "d"), "Loading diff…");
    assert_eq!(details_pane_text(true, "patch", "d"), "patch");
    assert_eq!(details_pane_text(false, "patch", "d"), "d");
    assert_eq!(details_title(true), " Diff ");
    assert_eq!(details_title(false), " Commit ");
    let row = GraphRow {
        cells: vec![GraphCell::new('●', 0)],
        short_hash: "abc1234".into(),
        refs: vec![],
        subject: "Fix".into(),
        author: "A".into(),
        timestamp: 0,
        hash: "abc1234ffff".into(),
    };
    assert_eq!(search_item(&row), "abc1234 Fix");
    assert_eq!(row.graph_string(), "●");
    assert_eq!(GraphCell::empty(), GraphCell::new(' ', 0));
}

#[test]
fn details_and_diff_texts() {
    assert_eq!(format_commit_details("abc", None), "commit abc\n(no details)");
    assert_eq!(format_commit_details("abc", Some("shown".into())), "shown");
    assert_eq!(patch_text(None), "(no diff available — root commit or binary-only change)");
    assert_eq!(patch_text(Some("p".into())), "p");
    assert_eq!(fetch_diff("p".into(), Some("styled".into())), "styled");
    assert_eq!(fetch_diff("p".into(), None), "p");
}

#[test]
fn filter_labels() {
    assert_eq!(BranchFilter::All.label(), "all branches");
    assert_eq!(BranchFilter::LocalOnly.label(), "local branches");
    assert_eq!(BranchFilter::Branch("dev".into()).label(), "dev");
    assert_eq!(BranchFilter::default(), BranchFilter::All);
}

fn key(code: KeyCode, modifiers: u8) -> KeyEvent {
    KeyEvent { code, modifiers }
}

#[test]
fn keys_map_to_intents() {
    assert_eq!(map_key(key(KeyCode::Char('q'), 0)), Some(Intent::Cancel));
    assert_eq!(map_key(key(KeyCode::Esc, 0)), Some(Intent::Cancel));
    assert_eq!(map_key(key(KeyCode::Char('j'), 0)), Some(Intent::MoveDown));
    assert_eq!(map_key(key(KeyCode::Up, 0)), Some(Intent::MoveUp));
    assert_eq!(map_key(key(KeyCode::Char('u'), CONTROL)), Some(Intent::ScrollDetailsUp));
    assert_eq!(map_key(key(KeyCode::Char('d'), CONTROL)), Some(Intent::ScrollDetailsDown));
    assert_eq!(map_key(key(KeyCode::Char('d'), CONTROL | SHIFT)), Some(Intent::ToggleDiff));
    assert_eq!(map_key(key(KeyCode::Char('d'), 0)), Some(Intent::ToggleDiff));
    assert_eq!(map_key(key(KeyCode::Char('u'), 0)), None);
    assert_eq!(map_key(key(KeyCode::Enter, 0)), Some(Intent::ToggleDiff));
    assert_eq!(map_key(key(KeyCode::Char('b'), 0)), Some(Intent::BranchPicker));
    assert_eq!(map_key(key(KeyCode::Char('/'), 0)), Some(Intent::Search));
    assert_eq!(map_key(key(KeyCode::Char('?'), 0)), Some(Intent::Help));
    assert_eq!(map_key(key(KeyCode::PageDown, 0)), Some(Intent::PageDown));
    assert_eq!(map_key(key(KeyCode::PageUp, 0)), Some(Intent::PageUp));
    assert_eq!(map_key(key(KeyCode::Backspace, 0)), None);
    assert!(is_control('\n') && is_control('\u{7f}') && !is_control('a'));
    assert!(help_text().starts_with("j/k or arrows  move selection\nEnter"));
    assert!(help_text().ends_with("q              quit"));
}

fn style(p: &Piece) -> (&str, Option<Hue>, Option<Hue>, bool) {
    (p.text.as_str(), p.fg, p.bg, p.bold)
}

#[test]
fn commit_line_pieces_and_colours() {
    assert_eq!(lane_hue(0), Hue::Blue);
    assert_eq!(lane_hue(3), Hue::Yellow);
    assert_eq!(lane_hue(9), Hue::LightRed);
    assert_eq!(lane_hue(255), Hue::LightYellow);
    assert_eq!(ref_hue(RefKind::Head), Hue::Cyan);
    assert_eq!(ref_hue(RefKind::Tag), Hue::Magenta);
    assert_eq!(ref_hue(RefKind::Remote), Hue::Yellow);
    assert_eq!(ref_hue(RefKind::Local), Hue::Green);
    let row = GraphRow {
        cells: vec![GraphCell::new('●', 1), GraphCell::new('│', 2)],
        short_hash: "abc1234".into(),
        refs: vec!["HEAD -> main".into(), "origin/main".into()],
        subject: "Fix".into(),
        author: "Ann".into(),
        timestamp: 0,
        hash: "abc1234ffff".into(),
    };
    let plain = commit_line(&row, "today", false);
    let got: Vec<_> = plain.iter().map(style).collect();
    assert_eq!(
        got,
        vec![
            ("●", Some(Hue::LightRed), None, true),
            ("│", Some(Hue::Cyan), None, false),
            ("  ", None, None, false),
            ("[HEAD→main]", Some(Hue::Cyan), None, true),
            (" ", None, None, false),
            ("[origin/main]", Some(Hue::Yellow), None, true),
            (" ", None, None, false),
            ("Fix", None, None, false),
            ("  ", None, None, false),
            ("today  Ann         abc1234", Some(Hue::DarkGray), None, false),
        ]
    );
    let chosen = commit_line(&row, "today", true);
    assert_eq!(chosen.len(), 10);
    assert!(chosen.iter().all(|p| p.bg == Some(Hue::DarkGray)));
    assert!(chosen[7].bold);
}

#[test]
fn search_list_marks_the_cursor_and_skips_stale_matches() {
    let row = |h: &str, s: &str| GraphRow {
        cells: vec![],
        short_hash: h.into(),
        refs: vec![],
        subject: s.into(),
        author: "A".into(),
        timestamp: 0,
        hash: h.into(),
    };
    let rows = vec![row("a1", "one"), row("b2", "two")];
    assert_eq!(
        search_list(&rows, &[1, 5, 0], 2),
        vec![("b2 two".to_string(), false), ("a1 one".to_string(), true)]
    );
    assert!(search_list(&rows, &[], 0).is_empty());
    assert!(side_pane_shown(false, true));
    assert!(side_pane_shown(true, false));
    assert!(!side_pane_shown(false, false));
}
