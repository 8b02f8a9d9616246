use herdr_git_graph::git::{
    git_env_overrides, hardened_git_args,
    list_branches, list_branches_args, log_commits, log_commits_local, show_commit, show_diff, show_toplevel,
    LOG_FORMAT,
};

#[test]
fn log_arguments_name_the_limit_and_branch() {
    assert_eq!(
        log_commits(10, None),
        vec!["log", "--topo-order", "--date-order", "-n", "10", LOG_FORMAT, "--all"]
    );
    assert_eq!(
        log_commits(500, Some("feature/x")),
        vec!["log", "--topo-order", "--date-order", "-n", "500", LOG_FORMAT, "feature/x"]
    );
    assert_eq!(
        log_commits_local(0),
        vec!["log", "refs/heads", "--topo-order", "--date-order", "-n", "0", LOG_FORMAT]
    );
    assert_eq!(log_commits(18446744073709551615, None)[4], "18446744073709551615");
}

#[test]
fn show_arguments_end_with_the_hash() {
    assert_eq!(
        show_commit("abc"),
        vec!["show", "--format=fuller", "--no-ext-diff", "--no-color", "abc"]
    );
    assert_eq!(
        show_diff("abc"),
        vec!["show", "--format=", "--no-ext-diff", "--no-color", "--patch", "abc"]
    );
    assert_eq!(show_toplevel(), vec!["rev-parse", "--show-toplevel"]);
    assert_eq!(
        list_branches_args(),
        vec!["for-each-ref", "--format=%(refname:short)", "refs/heads", "refs/remotes"]
    );
}

#[test]
fn branch_listing_is_read_line_by_line() {
    let out = "main\r\n  origin/main \n\n feature\n".to_string();
    assert_eq!(list_branches(Some(out)), vec!["main", "origin/main", "feature"]);
    assert!(list_branches(None).is_empty());
    assert!(list_branches(Some(String::new())).is_empty());
}

#[test]
fn every_command_is_hardened() {
    let args = show_commit("abc");
    assert_eq!(
        hardened_git_args("/dev/null", &args),
        vec![
            "-c",
            "core.fsmonitor=false",
            "-c",
            "core.hooksPath=/dev/null",
            "-c",
            "diff.external=",
            "show",
            "--format=fuller",
            "--no-ext-diff",
            "--no-color",
            "abc"
        ]
    );
    assert_eq!(hardened_git_args("NUL", &Vec::new())[3], "core.hooksPath=NUL");
}

#[test]
fn git_environment_is_pinned() {
    let (removed, set) = git_env_overrides();
    assert_eq!(
        removed,
        vec![
            "GIT_DIR",
            "GIT_WORK_TREE",
            "GIT_INDEX_FILE",
            "GIT_OBJECT_DIRECTORY",
            "GIT_ALTERNATE_OBJECT_DIRECTORIES",
            "GIT_CEILING_DIRECTORIES",
            "GIT_DISCOVERY_ACROSS_FILESYSTEM"
        ]
    );
    assert_eq!(set, vec![("GIT_OPTIONAL_LOCKS".to_string(), "0".to_string())]);
}
