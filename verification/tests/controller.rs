use herdr_git_graph::config::Config;
use herdr_git_graph::context::LaunchContext;
use herdr_git_graph::controller::{Controller, GitQuery, Modal};
use herdr_git_graph::diff::{DiffJob, DiffResult, DiffWorker};
use herdr_git_graph::git::LOG_FORMAT;
use herdr_git_graph::graph::model::BranchFilter;
use herdr_git_graph::input::{KeyCode, KeyEvent};
use herdr_git_graph::intent::Intent;
use herdr_git_graph::root::resolve;
use std::sync::mpsc::{channel, Receiver, Sender};

const LOG: &str = "ccc\0bbb\0(HEAD -> main)\0third\0Ann\01700000002\0\nbbb\0aaa\0\0second\0Bob\01700000001\0\naaa\0\0\0first\0Ann\01700000000\0";

struct Rig {
    ctrl: Controller,
    jobs: Receiver<DiffJob>,
    results: Sender<DiffResult>,
}

fn rig(git_repo: bool) -> Rig {
    let (job_tx, job_rx) = channel();
    let (res_tx, res_rx) = channel();
    let worker = DiffWorker::from_channels(job_tx, res_rx);
    let ctx = LaunchContext { cwd: "/work/proj".to_string() };
    let top = if git_repo { Some("/work/proj\n".to_string()) } else { None };
    let ctrl = Controller::new(resolve(&ctx, top), Config::default(), worker);
    Rig { ctrl, jobs: job_rx, results: res_tx }
}

/// Answers the pending git request the way git would for `LOG`.
fn answer(ctrl: &mut Controller) {
    while let Some(req) = ctrl.take_request() {
        match req.query {
            GitQuery::Log => ctrl.log_loaded(Some(LOG.to_string())),
            GitQuery::Commit => {
                let hash = req.args.last().unwrap().clone();
                ctrl.details_loaded(Some(format!("details of {hash}")))
            },
            GitQuery::Branches => ctrl.branches_listed(Some("main\nfeature\n".to_string())),
        }
    }
}

fn key(code: KeyCode) -> KeyEvent {
    KeyEvent { code, modifiers: 0 }
}

#[test]
fn outside_a_repository_nothing_is_requested() {
    let mut r = rig(false);
    assert_eq!(r.ctrl.status, "Not a git repository.");
    assert!(r.ctrl.take_request().is_none());
    assert!(r.ctrl.rows.is_empty());
}

#[test]
fn first_load_reads_the_log_and_selects_the_newest_commit() {
    let mut r = rig(true);
    let req = r.ctrl.take_request().unwrap();
    assert_eq!(req.query, GitQuery::Log);
    assert_eq!(req.args, vec!["log", "--topo-order", "--date-order", "-n", "500", LOG_FORMAT, "--all"]);
    r.ctrl.log_loaded(Some(LOG.to_string()));
    assert_eq!(r.ctrl.rows.len(), 3);
    assert_eq!(r.ctrl.status, "3 commits · filter: all branches");
    assert_eq!(r.ctrl.selected, 0);
    let req = r.ctrl.take_request().unwrap();
    assert_eq!(req.query, GitQuery::Commit);
    assert_eq!(req.args, vec!["show", "--format=fuller", "--no-ext-diff", "--no-color", "ccc"]);
    r.ctrl.details_loaded(None);
    assert_eq!(r.ctrl.details_text, "commit ccc\n(no details)");
}

#[test]
fn failed_log_keeps_the_graph() {
    let mut r = rig(true);
    r.ctrl.take_request();
    r.ctrl.log_loaded(None);
    assert_eq!(r.ctrl.status, "Failed to read git log.");
    assert!(r.ctrl.take_request().is_none());
}

#[test]
fn moving_the_selection_stays_within_rows() {
    let mut r = rig(true);
    answer(&mut r.ctrl);
    r.ctrl.handle(Intent::MoveUp);
    assert_eq!(r.ctrl.selected, 0);
    r.ctrl.handle(Intent::PageDown);
    assert_eq!(r.ctrl.selected, 2);
    answer(&mut r.ctrl);
    assert_eq!(r.ctrl.details_text, "details of aaa");
    r.ctrl.handle(Intent::ScrollDetailsDown);
    assert_eq!(r.ctrl.details_scroll, 1);
    r.ctrl.handle(Intent::MoveUp);
    assert_eq!(r.ctrl.selected, 1);
    assert_eq!(r.ctrl.details_scroll, 0);
    r.ctrl.handle(Intent::PageUp);
    assert_eq!(r.ctrl.selected, 0);
    r.ctrl.handle(Intent::ScrollDetailsUp);
    assert_eq!(r.ctrl.details_scroll, 0);
}

#[test]
fn diff_jobs_are_numbered_and_stale_results_ignored() {
    let mut r = rig(true);
    answer(&mut r.ctrl);
    r.ctrl.handle(Intent::ToggleDiff);
    assert!(r.ctrl.show_diff);
    let job = r.jobs.try_recv().unwrap();
    assert_eq!((job.seq, job.hash.as_str()), (1, "ccc"));
    r.ctrl.handle(Intent::MoveDown);
    answer(&mut r.ctrl);
    let job = r.jobs.try_recv().unwrap();
    assert_eq!((job.seq, job.hash.as_str()), (2, "bbb"));
    assert_eq!(r.ctrl.pending_diff_seq, 2);
    r.results.send(DiffResult { seq: 1, text: "old".into() }).unwrap();
    r.ctrl.poll_diff();
    assert_eq!(r.ctrl.diff_text, "");
    r.results.send(DiffResult { seq: 2, text: "new".into() }).unwrap();
    r.ctrl.poll_diff();
    assert_eq!(r.ctrl.diff_text, "new");
    assert_eq!(r.ctrl.diff_seq, 2);
    r.ctrl.poll_diff();
    assert_eq!(r.ctrl.diff_text, "new");
}

#[test]
fn branch_picker_filters_the_graph() {
    let mut r = rig(true);
    answer(&mut r.ctrl);
    r.ctrl.handle(Intent::BranchPicker);
    answer(&mut r.ctrl);
    assert!(matches!(r.ctrl.modal, Modal::BranchPicker));
    assert_eq!(r.ctrl.picker.items, vec!["all branches", "local branches", "main", "feature"]);
    r.ctrl.handle(Intent::MoveDown);
    r.ctrl.handle(Intent::MoveDown);
    r.ctrl.handle(Intent::MoveDown);
    r.ctrl.handle_key(key(KeyCode::Enter));
    assert_eq!(r.ctrl.filter, BranchFilter::Branch("feature".into()));
    assert!(matches!(r.ctrl.modal, Modal::Closed));
    assert!(!r.ctrl.picker.open);
    let req = r.ctrl.take_request().unwrap();
    assert_eq!(req.args[6], "feature");
    r.ctrl.log_loaded(Some(LOG.to_string()));
    assert_eq!(r.ctrl.status, "3 commits · filter: feature");
    r.ctrl.handle(Intent::BranchPicker);
    answer(&mut r.ctrl);
    r.ctrl.handle(Intent::MoveDown);
    r.ctrl.handle(Intent::Confirm);
    assert_eq!(r.ctrl.filter, BranchFilter::LocalOnly);
    let req = r.ctrl.take_request().unwrap();
    assert_eq!(req.args[1], "refs/heads");
}

#[test]
fn search_keys_edit_the_query_and_jump() {
    let mut r = rig(true);
    answer(&mut r.ctrl);
    r.ctrl.handle_key(key(KeyCode::Char('/')));
    assert!(matches!(r.ctrl.modal, Modal::Search));
    r.ctrl.handle_key(key(KeyCode::Char('q')));
    assert!(!r.ctrl.should_quit);
    r.ctrl.handle_key(key(KeyCode::Backspace));
    for c in "first".chars() {
        r.ctrl.handle_key(key(KeyCode::Char(c)));
    }
    assert_eq!(r.ctrl.finder.query, "first");
    assert_eq!(r.ctrl.finder.matches, vec![2]);
    r.ctrl.handle_key(key(KeyCode::Enter));
    assert_eq!(r.ctrl.selected, 2);
    assert!(matches!(r.ctrl.modal, Modal::Closed));
    answer(&mut r.ctrl);
    assert_eq!(r.ctrl.details_text, "details of aaa");
}

#[test]
fn help_overlay_and_quitting() {
    let mut r = rig(true);
    answer(&mut r.ctrl);
    r.ctrl.handle_key(key(KeyCode::Char('?')));
    assert!(matches!(r.ctrl.modal, Modal::Help));
    assert!(r.ctrl.help.open);
    r.ctrl.handle_key(key(KeyCode::Esc));
    assert!(matches!(r.ctrl.modal, Modal::Closed));
    assert!(!r.ctrl.should_quit);
    r.ctrl.handle_key(key(KeyCode::Enter));
    assert!(r.ctrl.show_diff);
    r.ctrl.handle_key(key(KeyCode::Char('q')));
    assert!(r.ctrl.should_quit);
}

#[test]
fn enter_toggles_the_diff_and_sends_one_job() {
    let mut r = rig(true);
    answer(&mut r.ctrl);
    assert!(r.ctrl.key_sends_diff_job(key(KeyCode::Enter)));
    r.ctrl.handle_key(key(KeyCode::Enter));
    assert!(r.ctrl.show_diff);
    assert_eq!(r.ctrl.pending_diff_seq, 1);
    let job = r.jobs.try_recv().unwrap();
    assert_eq!((job.seq, job.hash.as_str()), (1, "ccc"));
    assert!(r.jobs.try_recv().is_err());
    assert!(!r.ctrl.key_sends_diff_job(key(KeyCode::Enter)));
    r.ctrl.handle_key(key(KeyCode::Enter));
    assert!(!r.ctrl.show_diff);
    assert_eq!(r.ctrl.pending_diff_seq, 1);
    assert!(r.jobs.try_recv().is_err());
}

#[test]
fn cancel_closes_each_overlay_without_quitting() {
    let mut r = rig(true);
    answer(&mut r.ctrl);
    r.ctrl.handle(Intent::Help);
    r.ctrl.handle(Intent::Quit);
    assert!(matches!(r.ctrl.modal, Modal::Closed));
    assert!(!r.ctrl.help.open);
    r.ctrl.handle(Intent::BranchPicker);
    answer(&mut r.ctrl);
    r.ctrl.handle(Intent::Cancel);
    assert!(!r.ctrl.picker.open);
    r.ctrl.handle(Intent::Search);
    r.ctrl.handle_key(key(KeyCode::Esc));
    assert!(!r.ctrl.finder.open);
    assert!(matches!(r.ctrl.modal, Modal::Closed));
    assert!(!r.ctrl.should_quit);
    assert_eq!(r.ctrl.selected, 0);
    assert_eq!(r.ctrl.rows.len(), 3);
    r.ctrl.handle(Intent::Cancel);
    assert!(r.ctrl.should_quit);
}

#[test]
fn cancel_needs_no_room_in_the_job_counter() {
    let mut r = rig(true);
    answer(&mut r.ctrl);
    r.ctrl.pending_diff_seq = u64::MAX;
    assert!(!r.ctrl.details_send_diff_job());
    r.ctrl.handle(Intent::Help);
    r.ctrl.handle_key(key(KeyCode::Esc));
    assert!(!r.ctrl.help.open);
    assert_eq!(r.ctrl.pending_diff_seq, u64::MAX);
}
