use herdr_git_graph::graph::{parse_log, CommitNode};

#[test]
fn reads_fields_of_several_records() {
    let raw = "aaa\0bbb ccc\0 (HEAD -> main, origin/main, tag: v1)\0 Subject one \0 Ann \01700000000\0\nbbb\0\0\0two\0Bob\0-5\0";
    let commits = parse_log(raw);
    assert_eq!(commits.len(), 2);
    assert_eq!(commits[0].parents, vec!["bbb", "ccc"]);
    assert_eq!(commits[0].refs, vec!["HEAD -> main", "origin/main", "tag: v1"]);
    assert_eq!(commits[0].subject, "Subject one");
    assert_eq!(commits[0].author, "Ann");
    assert_eq!(commits[0].timestamp, 1_700_000_000);
    assert_eq!(commits[1].hash, "bbb");
    assert!(commits[1].parents.is_empty());
    assert!(commits[1].refs.is_empty());
    assert_eq!(commits[1].timestamp, -5);
}

#[test]
fn bad_timestamp_reads_as_zero() {
    assert_eq!(parse_log("a\0\0\0s\0n\0x12\0")[0].timestamp, 0);
    assert_eq!(parse_log("a\0\0\0s\0n\099999999999999999999\0")[0].timestamp, 0);
    assert_eq!(parse_log("a\0\0\0s\0n\0+7\0")[0].timestamp, 7);
    assert_eq!(parse_log("a\0\0\0s\0n\0-9223372036854775808\0")[0].timestamp, i64::MIN);
}

#[test]
fn incomplete_and_blank_records_are_skipped() {
    assert!(parse_log("").is_empty());
    assert!(parse_log("a\0b\0c\0").is_empty());
    assert!(parse_log("  \0\0\0s\0n\01\0").is_empty());
    assert_eq!(parse_log("a\0\0\0s\0n\01\0b\0c").len(), 1);
}

#[test]
fn one_record_with_parent_and_decoration() {
    let commits = parse_log("abc123\0def456\0(HEAD -> dev)\0Fix bug\0Alice\01700000000\0");
    assert_eq!(commits.len(), 1);
    assert_eq!(commits[0].hash, "abc123");
    assert_eq!(commits[0].parents, vec!["def456"]);
    assert_eq!(commits[0].refs, vec!["HEAD -> dev"]);
    assert_eq!(commits[0].subject, "Fix bug");
    assert_eq!(commits[0].author, "Alice");
    assert_eq!(commits[0].timestamp, 1_700_000_000);
}

// The refs keep `HEAD -> ` as written in the decoration, as
// `parse_and_layout_integration` expects for this same decoration: the bare
// `main` would contradict it, and the presenter draws the `HEAD -> ` form as
// the HEAD pill.
#[test]
fn parses_null_delimited_records() {
    let raw = "abc123\0def456\0(HEAD -> main)\0Fix bug\0Alice\0".to_string() + "1700000000\0";
    let commits = parse_log(&raw);
    assert_eq!(commits.len(), 1);
    assert_eq!(commits[0].hash, "abc123");
    assert_eq!(commits[0].parents, vec!["def456"]);
    assert_eq!(commits[0].refs, vec!["HEAD -> main"]);
    assert_eq!(commits[0].subject, "Fix bug");
    assert_eq!(commits[0].author, "Alice");
    assert_eq!(commits[0].timestamp, 1_700_000_000);
}

fn commit(hash: &str, parents: &[&str], refs: &[&str], subject: &str, author: &str, timestamp: i64) -> CommitNode {
    CommitNode {
        hash: hash.to_string(),
        parents: parents.iter().map(|s| s.to_string()).collect(),
        refs: refs.iter().map(|s| s.to_string()).collect(),
        subject: subject.to_string(),
        author: author.to_string(),
        timestamp,
    }
}

fn record(c: &CommitNode) -> String {
    let decoration = if c.refs.is_empty() { String::new() } else { format!("({})", c.refs.join(", ")) };
    format!(
        "{}\0{}\0{}\0{}\0{}\0{}\0",
        c.hash,
        c.parents.join(" "),
        decoration,
        c.subject,
        c.author,
        c.timestamp
    )
}

#[test]
fn log_text_reads_back_as_its_commits() {
    let commits = vec![
        commit("c3", &["b2", "x9"], &["HEAD -> main", "tag: v2"], "Merge it", "Ann Lee", 1_700_000_002),
        commit("b2", &["a1"], &[], "Second", "Bob", -12),
        commit("a1", &[], &["origin/main"], "", "Cid", 0),
    ];
    let text: Vec<String> = commits.iter().map(record).collect();
    assert_eq!(parse_log(&text.join("\n")), commits);
    assert_eq!(parse_log(&text.concat()), commits);
    assert!(parse_log("").is_empty());
}
