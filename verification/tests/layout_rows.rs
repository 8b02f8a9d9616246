use herdr_git_graph::graph::layout::{layout_graph, COMMIT, CORNER_SE, CORNER_SW, HORIZ, PIPE};
use herdr_git_graph::graph::model::{CommitNode, GraphCell};

fn node(hash: &str, parents: &[&str], subject: &str) -> CommitNode {
    CommitNode {
        hash: hash.to_string(),
        parents: parents.iter().map(|s| s.to_string()).collect(),
        refs: Vec::new(),
        subject: subject.to_string(),
        author: "Test".to_string(),
        timestamp: 0,
    }
}

#[test]
fn linear_history_has_rows() {
    let commits = vec![
        node("c3", &["c2"], "third"),
        node("c2", &["c1"], "second"),
        node("c1", &[], "first"),
    ];
    let rows = layout_graph(&commits);
    assert_eq!(rows.len(), 3);
    assert!(rows[0].graph_string().contains('●'));
    assert_eq!(rows[0].subject, "third");
    assert_eq!(rows[0].author, "Test");
    assert!(rows[0].cells.iter().any(|c| c.ch == COMMIT));
}

#[test]
fn merge_commit_produces_row() {
    let commits = vec![
        node("m", &["b", "a"], "merge"),
        node("b", &["r"], "branch"),
        node("a", &["r"], "main"),
        node("r", &[], "root"),
    ];
    let rows = layout_graph(&commits);
    assert_eq!(rows.len(), 4);
    assert!(rows.iter().all(|r| !r.cells.is_empty()));
    // Merge row should connect into a second lane.
    assert!(
        rows[0].graph_string().contains('┐') || rows[0].graph_string().contains('─'),
        "merge row should show a horizontal arm: {}",
        rows[0].graph_string()
    );
    // Branch join at root should collapse lanes.
    assert!(
        rows[3].graph_string().contains('┘') || rows[3].cells.iter().filter(|c| c.ch == COMMIT).count() == 1,
        "root row should join or be a single commit: {}",
        rows[3].graph_string()
    );
}

#[test]
fn empty_commits_empty_rows() {
    assert!(layout_graph(&[]).is_empty());
}

#[test]
fn lanes_use_distinct_colors_on_merge() {
    let commits = vec![
        node("m", &["b", "a"], "merge"),
        node("b", &["r"], "branch"),
        node("a", &["r"], "main"),
        node("r", &[], "root"),
    ];
    let rows = layout_graph(&commits);
    let colors: Vec<u8> = rows[0]
        .cells
        .iter()
        .filter(|c| c.ch == COMMIT || c.ch == CORNER_SE)
        .map(|c| c.color_idx)
        .collect();
    assert!(colors.len() >= 2);
    // Commit lane and merge arm should not all share one color when two parents exist.
    assert_ne!(colors[0], colors[1]);
}

fn cells(s: &[(char, u8)]) -> Vec<GraphCell> {
    s.iter().map(|&(ch, color_idx)| GraphCell { ch, color_idx }).collect()
}

#[test]
fn merge_and_join_rows_are_drawn_exactly() {
    let commits = vec![
        node("m", &["b", "a"], "merge"),
        node("b", &["r"], "branch"),
        node("a", &["r"], "main"),
        node("r", &[], "root"),
    ];
    let rows = layout_graph(&commits);
    assert_eq!(rows[0].cells, cells(&[(COMMIT, 0), (HORIZ, 0), (CORNER_SE, 1)]));
    assert_eq!(rows[1].cells, cells(&[(COMMIT, 0), (' ', 0), (PIPE, 1)]));
    assert_eq!(rows[2].cells, cells(&[(PIPE, 0), (' ', 0), (COMMIT, 1)]));
    assert_eq!(rows[3].cells, cells(&[(COMMIT, 0), (HORIZ, 0), (CORNER_SW, 1)]));
    assert_eq!(rows[3].graph_string(), "●─┘");
}

#[test]
fn short_hash_is_seven_characters() {
    let commits = vec![node("0123456789abcdef", &[], "x"), node("abc", &[], "y")];
    let rows = layout_graph(&commits);
    assert_eq!(rows[0].short_hash, "0123456");
    assert_eq!(rows[0].hash, "0123456789abcdef");
    assert_eq!(rows[1].short_hash, "abc");
}

#[test]
fn parent_outside_the_list_is_ignored() {
    let commits = vec![node("c2", &["missing"], "tip"), node("c1", &[], "other")];
    let rows = layout_graph(&commits);
    assert_eq!(rows[0].graph_string(), "●");
    assert_eq!(rows[1].graph_string(), "●");
}

#[test]
fn every_row_has_one_commit_and_palette_colors() {
    let commits = vec![
        node("o", &["m", "x"], "octo"),
        node("x", &["r"], "x"),
        node("m", &["b", "a"], "merge"),
        node("b", &["r"], "branch"),
        node("a", &["r"], "main"),
        node("r", &[], "root"),
    ];
    let rows = layout_graph(&commits);
    for r in &rows {
        assert_eq!(r.cells.iter().filter(|c| c.ch == COMMIT).count(), 1);
        assert!(r.cells.iter().all(|c| c.color_idx < 8));
        assert_ne!(r.cells.last().unwrap().ch, ' ');
    }
}

#[test]
fn missing_first_parent_leaves_the_second_unlinked() {
    let commits = vec![node("m", &["zzz", "b"], "tip"), node("b", &[], "base")];
    let rows = layout_graph(&commits);
    assert_eq!(rows[0].cells, cells(&[(COMMIT, 0)]));
    assert_eq!(rows[1].cells, cells(&[(COMMIT, 2)]));
}
