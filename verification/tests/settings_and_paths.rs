use herdr_git_graph::config::{config_from_file, needs_delta_lookup, with_delta_fallback, Config, FileConfig};
use herdr_git_graph::context::LaunchContext;
use herdr_git_graph::root::{file_name_of, repo_dir, resolve};

#[test]
fn config_defaults_and_clamps() {
    let c = config_from_file(None);
    assert_eq!(c.commit_limit, 500);
    assert!(c.delta_command.is_none());
    let c = config_from_file(Some(FileConfig { commit_limit: Some(10), delta_command: Some(String::new()) }));
    assert_eq!(c.commit_limit, 50);
    assert!(c.delta_command.is_none());
    let c = config_from_file(Some(FileConfig { commit_limit: Some(9000), delta_command: Some("less".into()) }));
    assert_eq!(c.commit_limit, 5000);
    assert_eq!(c.delta_command.as_deref(), Some("less"));
    let c = config_from_file(Some(FileConfig { commit_limit: None, delta_command: None }));
    assert_eq!(c.commit_limit, 500);
}

#[test]
fn delta_on_path_is_used_only_when_unset() {
    let c = Config::default();
    assert!(needs_delta_lookup(&c));
    let c = with_delta_fallback(c, true);
    assert_eq!(c.delta_command.as_deref(), Some("delta"));
    let c = with_delta_fallback(Config { commit_limit: 60, delta_command: Some("bat".into()) }, true);
    assert_eq!(c.delta_command.as_deref(), Some("bat"));
    assert_eq!(c.commit_limit, 60);
    assert!(with_delta_fallback(Config::default(), false).delta_command.is_none());
}

#[test]
fn file_names_of_paths() {
    assert_eq!(file_name_of("/home/me/repo").as_deref(), Some("repo"));
    assert_eq!(file_name_of("/home/me/repo/").as_deref(), Some("repo"));
    assert_eq!(file_name_of("/home/me/repo/.").as_deref(), Some("repo"));
    assert_eq!(file_name_of("/home/me/..").as_deref(), None);
    assert_eq!(file_name_of("/").as_deref(), None);
    assert_eq!(file_name_of("").as_deref(), None);
    assert_eq!(file_name_of("./x").as_deref(), Some("x"));
}

#[test]
fn resolve_prefers_the_repository_top() {
    let ctx = LaunchContext { cwd: "/work/sub".to_string() };
    let r = resolve(&ctx, Some("/work/proj\n".to_string()));
    assert!(r.is_git_repo);
    assert_eq!(r.root, "/work/proj");
    assert_eq!(r.repo_root.as_deref(), Some("/work/proj"));
    assert_eq!(r.repo_name, "proj");
    assert_eq!(repo_dir(&r), "/work/proj");
    let r = resolve(&ctx, None);
    assert!(!r.is_git_repo);
    assert_eq!(r.root, "/work/sub");
    assert_eq!(r.repo_name, "sub");
    assert_eq!(repo_dir(&r), "/work/sub");
    let r = resolve(&LaunchContext { cwd: "/".to_string() }, None);
    assert_eq!(r.repo_name, "directory");
    let r = resolve(&ctx, Some("\n".to_string()));
    assert_eq!(r.repo_name, "repo");
}
