use herdr_git_graph::context::LaunchContext;
use herdr_git_graph::host::{context_from_raw, is_safe_id, RawContext};
use serde_json::Value;
use std::path::PathBuf;

/// Reads Herdr's launch context JSON; `None` when it is not an object.
fn read_context(json: &str) -> Option<RawContext> {
    let v: Value = serde_json::from_str(json).ok()?;
    let field = |k: &str| v.get(k).and_then(|x| x.as_str()).map(|s| s.to_string());
    if !v.is_object() {
        return None;
    }
    Some(RawContext { focused_pane_cwd: field("focused_pane_cwd"), workspace_cwd: field("workspace_cwd"), cwd: field("cwd") })
}

fn parse_context(json: Option<&str>, fallback_cwd: PathBuf) -> LaunchContext {
    let raw = json.and_then(read_context);
    context_from_raw(raw, fallback_cwd.to_string_lossy().to_string())
}

#[test]
fn prefers_focused_pane_cwd() {
    let ctx = parse_context(
        Some(r#"{"focused_pane_cwd":"/a","workspace_cwd":"/b","cwd":"/c"}"#),
        PathBuf::from("/fallback"),
    );
    assert_eq!(PathBuf::from(ctx.cwd), PathBuf::from("/a"));
}

#[test]
fn malformed_json_falls_back() {
    let ctx = parse_context(Some("not json"), PathBuf::from("/fallback"));
    assert_eq!(PathBuf::from(ctx.cwd), PathBuf::from("/fallback"));
}

#[test]
fn rejects_unsafe_pane_ids() {
    assert!(!is_safe_id(""));
    assert!(!is_safe_id("--close-all"));
    assert!(!is_safe_id("w1:p1;rm"));
    assert!(is_safe_id("w3:pP"));
}

fn raw(f: Option<&str>, w: Option<&str>, c: Option<&str>) -> RawContext {
    RawContext {
        focused_pane_cwd: f.map(|s| s.to_string()),
        workspace_cwd: w.map(|s| s.to_string()),
        cwd: c.map(|s| s.to_string()),
    }
}

#[test]
fn focused_pane_cwd_comes_first() {
    let ctx = context_from_raw(Some(raw(Some("/a"), Some("/b"), Some("/c"))), "/fallback".to_string());
    assert_eq!(ctx.cwd, "/a");
}

#[test]
fn blank_cwds_are_skipped() {
    let ctx = context_from_raw(Some(raw(Some(""), None, Some("/c"))), "/fallback".to_string());
    assert_eq!(ctx.cwd, "/c");
    let ctx = context_from_raw(Some(raw(Some(""), Some(""), None)), "/fallback".to_string());
    assert_eq!(ctx.cwd, "/fallback");
}

#[test]
fn missing_context_falls_back() {
    let ctx = context_from_raw(None, "/fallback".to_string());
    assert_eq!(ctx.cwd, "/fallback");
}
