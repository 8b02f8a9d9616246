use herdr_git_graph::launch::{launch_decision, launch_decision_tab, Pane, PaneList, PaneListResult};
use herdr_git_graph::PANE_LABEL;
use serde_json::Value;

fn opt_string(v: &Value, key: &str) -> Option<String> {
    v.get(key).and_then(|x| x.as_str()).map(|s| s.to_string())
}

/// Reads a pane listing as Herdr prints it; `None` when it is not one.
fn read_list(json: &str) -> Option<PaneList> {
    let v: Value = serde_json::from_str(json).ok()?;
    let result = v.get("result")?;
    let panes = match result.get("panes") {
        Some(Value::Array(items)) => items
            .iter()
            .map(|p| Pane {
                pane_id: opt_string(p, "pane_id"),
                label: opt_string(p, "label"),
                focused: p.get("focused").and_then(|f| f.as_bool()).unwrap_or(false),
                tab_id: opt_string(p, "tab_id"),
            })
            .collect(),
        _ => Vec::new(),
    };
    Some(PaneList { result: PaneListResult { panes } })
}

fn decide(json: &str, label: &str) -> String {
    launch_decision(read_list(json).as_ref(), label)
}

fn decide_tab(json: &str, label: &str) -> String {
    launch_decision_tab(read_list(json).as_ref(), label)
}

fn pane(id: &str, label: &str, focused: bool, tab: &str) -> String {
    format!(r#"{{"pane_id":"{id}","label":"{label}","focused":{focused},"tab_id":"{tab}"}}"#)
}

fn list(panes: &[String]) -> String {
    format!(r#"{{"result":{{"panes":[{}]}}}}"#, panes.join(","))
}

#[test]
fn launch_decision_opens_when_no_viewer() {
    let json = r#"{"result":{"panes":[{"pane_id":"w1:p1","label":"","focused":true,"tab_id":"w1:t1"}]}}"#;
    assert_eq!(decide(json, PANE_LABEL), "OPEN");
}

#[test]
fn launch_decision_closes_focused_viewer() {
    let json = r#"{"result":{"panes":[
        {"pane_id":"w1:p1","label":"","focused":false,"tab_id":"w1:t1"},
        {"pane_id":"w1:p2","label":"Git Graph","focused":true,"tab_id":"w1:t1"}
    ]}}"#;
    assert_eq!(decide(json, PANE_LABEL), "CLOSE w1:p2");
}

#[test]
fn no_viewer_pane_opens() {
    let j = list(&[pane("wE:p1", "", true, "wE:t1")]);
    assert_eq!(decide(&j, "Git Graph"), "OPEN");
}

#[test]
fn viewer_focused_closes() {
    let j = list(&[
        pane("wE:p1", "", false, "wE:t1"),
        pane("wE:pD", "Git Graph", true, "wE:t1"),
    ]);
    assert_eq!(decide(&j, "Git Graph"), "CLOSE wE:pD");
}

#[test]
fn tab_switches_to_other_tab() {
    let j = list(&[
        pane("wE:p1", "", true, "wE:t1"),
        pane("wE:pD", "Git Graph", false, "wE:t4"),
    ]);
    assert_eq!(decide_tab(&j, "Git Graph"), "SWITCHTAB wE:t4");
}

#[test]
fn viewer_elsewhere_in_tab_is_focused() {
    let j = list(&[
        pane("wE:p1", "", true, "wE:t1"),
        pane("wE:pD", "Git Graph", false, "wE:t1"),
    ]);
    assert_eq!(decide(&j, "Git Graph"), "FOCUS wE:pD");
    assert_eq!(decide_tab(&j, "Git Graph"), "FOCUS wE:pD");
}

#[test]
fn unreadable_or_unfocused_lists_open() {
    assert_eq!(decide("not json", "Git Graph"), "OPEN");
    assert_eq!(decide_tab("not json", "Git Graph"), "OPEN");
    let j = list(&[pane("wE:pD", "Git Graph", false, "wE:t1")]);
    assert_eq!(decide(&j, "Git Graph"), "OPEN");
}

#[test]
fn unsafe_ids_are_never_passed_on() {
    let j = list(&[pane("--all", "Git Graph", true, "wE:t1")]);
    assert_eq!(decide(&j, "Git Graph"), "OPEN");
    let j = list(&[
        pane("wE:p1", "", true, "wE:t1"),
        pane("wE:pD", "Git Graph", false, "-t4"),
    ]);
    assert_eq!(decide_tab(&j, "Git Graph"), "OPEN");
}

#[test]
fn other_workspace_tab_is_not_switched_to() {
    let j = list(&[
        pane("wE:p1", "", true, "wE:t1"),
        pane("wF:pD", "Git Graph", false, "wF:t4"),
    ]);
    assert_eq!(decide_tab(&j, "Git Graph"), "OPEN");
}
