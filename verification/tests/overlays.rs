use herdr_git_graph::finder::FinderState;
use herdr_git_graph::graph::layout_graph;
use herdr_git_graph::graph::model::CommitNode;
use herdr_git_graph::help::HelpState;
use herdr_git_graph::picker::PickerState;

#[test]
fn help_toggles_and_closes() {
    let mut h = HelpState::default();
    assert!(!h.open);
    h.toggle();
    assert!(h.open);
    h.toggle();
    assert!(!h.open);
    h.toggle();
    h.close();
    assert!(!h.open);
}

#[test]
fn picker_cursor_stays_on_items() {
    let mut p = PickerState::default();
    assert!(p.selected().is_none());
    p.open_with_items(vec!["a".into(), "b".into()]);
    assert!(p.open);
    assert_eq!(p.selected(), Some("a"));
    p.move_up();
    assert_eq!(p.cursor, 0);
    p.move_down();
    p.move_down();
    assert_eq!(p.cursor, 1);
    assert_eq!(p.selected(), Some("b"));
    p.close();
    assert!(!p.open);
}

fn node(hash: &str, subject: &str, author: &str, refs: &[&str]) -> CommitNode {
    CommitNode {
        hash: hash.to_string(),
        parents: vec![],
        refs: refs.iter().map(|s| s.to_string()).collect(),
        subject: subject.to_string(),
        author: author.to_string(),
        timestamp: 0,
    }
}

#[test]
fn search_matches_subject_author_and_hash() {
    let rows = layout_graph(&[
        node("aaa111", "Fix Parser", "Ann", &[]),
        node("bbb222", "Add tests", "Bob", &["origin/Feature"]),
        node("ccc333", "Docs", "Cid", &[]),
    ]);
    let mut f = FinderState::default();
    f.open();
    f.push_char('p', &rows);
    assert_eq!(f.matches, vec![0]);
    f.backspace(&rows);
    assert_eq!(f.query, "");
    assert_eq!(f.matches, vec![0, 1, 2]);
    for c in "feat".chars() {
        f.push_char(c, &rows);
    }
    assert!(f.matches.is_empty(), "a ref alone does not match");
    f.open();
    for c in "TESTS".chars() {
        f.push_char(c, &rows);
    }
    assert_eq!(f.matches, vec![1]);
    assert_eq!(f.selected_index(), Some(1));
    f.open();
    f.push_char('B', &rows);
    assert_eq!(f.matches, vec![1]);
    f.backspace(&rows);
    f.push_char('3', &rows);
    assert_eq!(f.matches, vec![2]);
    f.move_down();
    assert_eq!(f.cursor, 0);
    f.push_char('x', &rows);
    assert!(f.matches.is_empty());
    assert_eq!(f.selected_index(), None);
    f.close();
    assert!(!f.open);
}

#[test]
fn search_cursor_is_kept_within_matches() {
    let rows = layout_graph(&[node("a1", "x", "n", &[]), node("a2", "x", "n", &[]), node("b3", "y", "n", &[])]);
    let mut f = FinderState::default();
    f.open();
    f.push_char('x', &rows);
    f.move_down();
    assert_eq!(f.cursor, 1);
    f.move_up();
    f.move_up();
    assert_eq!(f.cursor, 0);
    f.move_down();
    f.backspace(&rows);
    f.push_char('y', &rows);
    assert_eq!(f.matches, vec![2]);
    assert_eq!(f.cursor, 0);
}
