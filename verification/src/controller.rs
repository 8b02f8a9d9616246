//! The viewer's state machine.
//!
//! Each key press becomes an `Intent`, handled according to the open overlay.
//! Where a step needs git (reading the log, showing a commit, listing
//! branches), the controller records a `GitRequest`; the host takes it with
//! `take_request`, runs the command, and hands the output back to
//! `branches_listed`, `log_loaded` or `details_loaded`, which carry the step on.
use crate::config::Config;
use crate::diff::{format_commit_details, DiffJob, DiffResult, DiffWorker};
use crate::finder::{clamp_cursor, matching_rows, FinderState};
use crate::git::{branch_names, list_branches, list_branches_args, log_commits, log_commits_local, show_commit};
use crate::git::{hardened_argv, hardening_options, LOG_FORMAT};
use crate::graph::layout::{layout_graph, rows_show};
use crate::graph::model::{commit_views, strs, BranchFilter, CommitNode, CommitView, GraphRow};
use crate::graph::parse::{parse_log, parse_log_spec};
use crate::help::HelpState;
use crate::input::{is_control, is_control_char, key_intent, map_key, KeyCode, KeyEvent};
use crate::intent::Intent;
use crate::picker::{cursor_down, cursor_up, PickerState};
use crate::root::{repo_dir, Resolved};
use crate::text::{decimal, lowercase, opt_view, str_eq, usize_to_decimal};
use std::sync::mpsc::{Receiver, Sender};
use vstd::prelude::*;

verus! {

/// The overlay that receives key presses.
#[derive(Debug, Clone, Copy, PartialEq, Eq, Structural)]
pub enum Modal {
    /// No overlay: keys go to the graph.
    Closed,
    Help,
    BranchPicker,
    Search,
}

/// Which git command a request runs.
#[derive(Debug, Clone, Copy, PartialEq, Eq, Structural)]
pub enum GitQuery {
    /// Its output goes to `Controller::branches_listed`.
    Branches,
    /// Its output goes to `Controller::log_loaded`.
    Log,
    /// Its output goes to `Controller::details_loaded`.
    Commit,
}

/// A git command the controller waits for: its arguments, in the repository.
pub struct GitRequest {
    pub query: GitQuery,
    pub args: Vec<String>,
}

pub struct Controller {
    pub repo: String,
    pub resolved: Resolved,
    pub config: Config,
    pub filter: BranchFilter,
    pub commits: Vec<CommitNode>,
    pub rows: Vec<GraphRow>,
    pub selected: usize,
    pub details_scroll: u16,
    pub show_details_pane: bool,
    pub show_diff: bool,
    pub details_text: String,
    pub diff_text: String,
    pub diff_seq: u64,
    pub pending_diff_seq: u64,
    pub modal: Modal,
    pub help: HelpState,
    pub picker: PickerState,
    pub finder: FinderState,
    pub status: String,
    pub should_quit: bool,
    pub request: Option<GitRequest>,
    pub diff_worker: DiffWorker,
}

/// A branch filter as plain values.
pub enum FilterView {
    All,
    LocalOnly,
    Branch(Seq<char>),
}

pub open spec fn filter_view(f: BranchFilter) -> FilterView {
    match f {
        BranchFilter::All => FilterView::All,
        BranchFilter::LocalOnly => FilterView::LocalOnly,
        BranchFilter::Branch(b) => FilterView::Branch(b@),
    }
}

pub open spec fn filter_view_label(f: FilterView) -> Seq<char> {
    match f {
        FilterView::All => "all branches"@,
        FilterView::LocalOnly => "local branches"@,
        FilterView::Branch(b) => b,
    }
}

/// The controller's state as plain values.
#[verifier::ext_equal]
pub struct ControllerView {
    pub repo: Seq<char>,
    pub resolved: Resolved,
    pub config: Config,
    pub filter: FilterView,
    pub commits: Seq<CommitView>,
    pub rows: Seq<GraphRow>,
    pub selected: usize,
    pub details_scroll: u16,
    pub show_details_pane: bool,
    pub show_diff: bool,
    pub details_text: Seq<char>,
    pub diff_text: Seq<char>,
    pub diff_seq: u64,
    pub pending_diff_seq: u64,
    pub modal: Modal,
    pub help_open: bool,
    pub picker_open: bool,
    pub picker_items: Seq<Seq<char>>,
    pub picker_cursor: usize,
    pub finder_open: bool,
    pub query: Seq<char>,
    pub matches: Seq<usize>,
    pub finder_cursor: usize,
    pub status: Seq<char>,
    pub should_quit: bool,
    pub request: Option<(GitQuery, Seq<Seq<char>>)>,
    /// The diff jobs sent to the worker, in order, as (number, hash).
    pub dispatched: Seq<(u64, Seq<char>)>,
    /// The finished diffs taken from the worker, in order, as (number, text).
    pub received: Seq<(u64, Seq<char>)>,
    pub job_sender: Sender<DiffJob>,
    pub result_receiver: Receiver<DiffResult>,
}

pub open spec fn request_view(r: Option<GitRequest>) -> Option<(GitQuery, Seq<Seq<char>>)> {
    match r {
        Some(q) => Some((q.query, strs(q.args@))),
        None => None,
    }
}

impl View for Controller {
    type V = ControllerView;

    open spec fn view(&self) -> ControllerView {
        ControllerView {
            repo: self.repo@,
            resolved: self.resolved,
            config: self.config,
            filter: filter_view(self.filter),
            commits: commit_views(self.commits@),
            rows: self.rows@,
            selected: self.selected,
            details_scroll: self.details_scroll,
            show_details_pane: self.show_details_pane,
            show_diff: self.show_diff,
            details_text: self.details_text@,
            diff_text: self.diff_text@,
            diff_seq: self.diff_seq,
            pending_diff_seq: self.pending_diff_seq,
            modal: self.modal,
            help_open: self.help.open,
            picker_open: self.picker.open,
            picker_items: strs(self.picker.items@),
            picker_cursor: self.picker.cursor,
            finder_open: self.finder.open,
            query: self.finder.query@,
            matches: self.finder.matches@,
            finder_cursor: self.finder.cursor,
            status: self.status@,
            should_quit: self.should_quit,
            request: request_view(self.request),
            dispatched: self.diff_worker.sent(),
            received: self.diff_worker.received(),
            job_sender: self.diff_worker.job_sender(),
            result_receiver: self.diff_worker.result_receiver(),
        }
    }
}

// ---------------------------------------------------------------------------
// Specification of the steps
// ---------------------------------------------------------------------------

/// The log command for the current filter.
pub open spec fn log_args(v: ControllerView) -> Seq<Seq<char>> {
    match v.filter {
        FilterView::LocalOnly => seq![
            "log"@,
            "refs/heads"@,
            "--topo-order"@,
            "--date-order"@,
            "-n"@,
            decimal(v.config.commit_limit as nat),
            LOG_FORMAT@,
        ],
        FilterView::All => seq![
            "log"@,
            "--topo-order"@,
            "--date-order"@,
            "-n"@,
            decimal(v.config.commit_limit as nat),
            LOG_FORMAT@,
            "--all"@,
        ],
        FilterView::Branch(b) => seq![
            "log"@,
            "--topo-order"@,
            "--date-order"@,
            "-n"@,
            decimal(v.config.commit_limit as nat),
            LOG_FORMAT@,
            b,
        ],
    }
}

/// Reloading the graph: outside a repository the graph is emptied; inside
/// one the log is requested.
pub open spec fn reload_view(v: ControllerView) -> ControllerView {
    if !v.resolved.is_git_repo {
        ControllerView { status: "Not a git repository."@, commits: seq![], rows: seq![], ..v }
    } else {
        ControllerView { request: Some((GitQuery::Log, log_args(v))), ..v }
    }
}

/// Refreshing the details: the selected commit is requested, or, with no
/// row selected, the details and the diff are cleared.
pub open spec fn refresh_view(v: ControllerView) -> ControllerView {
    if v.selected < v.rows.len() {
        ControllerView {
            request: Some(
                (
                    GitQuery::Commit,
                    seq!["show"@, "--format=fuller"@, "--no-ext-diff"@, "--no-color"@, v.rows[v.selected as int].hash@],
                ),
            ),
            ..v
        }
    } else {
        ControllerView { details_text: seq![], diff_text: seq![], ..v }
    }
}

/// Loading the diff of the selected commit: a new job number goes to the worker.
pub open spec fn load_diff_view(v: ControllerView) -> ControllerView {
    if v.selected < v.rows.len() {
        ControllerView {
            pending_diff_seq: (v.pending_diff_seq + 1) as u64,
            dispatched: v.dispatched.push(((v.pending_diff_seq + 1) as u64, v.rows[v.selected as int].hash@)),
            ..v
        }
    } else {
        v
    }
}

/// `n` held within `lo..=hi`.
pub open spec fn clamp_int(n: int, lo: int, hi: int) -> int {
    if n < lo {
        lo
    } else if n > hi {
        hi
    } else {
        n
    }
}

/// Moving the selection by `delta` rows, kept within the rows.
pub open spec fn move_view(v: ControllerView, delta: int) -> ControllerView {
    if v.rows.len() == 0 {
        v
    } else {
        refresh_view(
            ControllerView {
                selected: clamp_int(v.selected + delta, 0, v.rows.len() - 1) as usize,
                details_scroll: 0,
                ..v
            },
        )
    }
}

pub open spec fn toggle_diff_view(v: ControllerView) -> ControllerView {
    let w = ControllerView { show_diff: !v.show_diff, ..v };
    if w.show_diff {
        load_diff_view(w)
    } else {
        w
    }
}

/// The finder's matches recomputed for the rows.
pub open spec fn refresh_finder_view(v: ControllerView) -> ControllerView {
    let m = matching_rows(v.rows, lowercase(v.query), v.rows.len() as int);
    ControllerView { matches: m, finder_cursor: clamp_cursor(v.finder_cursor, m.len()), ..v }
}

pub open spec fn main_view(v: ControllerView, intent: Intent) -> ControllerView {
    match intent {
        Intent::MoveUp => move_view(v, -1),
        Intent::MoveDown => move_view(v, 1),
        Intent::PageUp => move_view(v, -10),
        Intent::PageDown => move_view(v, 10),
        Intent::ToggleDiff => toggle_diff_view(v),
        Intent::BranchPicker => ControllerView {
            request: Some((GitQuery::Branches, seq!["for-each-ref"@, "--format=%(refname:short)"@, "refs/heads"@, "refs/remotes"@])),
            ..v
        },
        Intent::Search => ControllerView {
            finder_open: true,
            query: seq![],
            matches: seq![],
            finder_cursor: 0,
            modal: Modal::Search,
            ..v
        },
        Intent::Help => ControllerView {
            help_open: !v.help_open,
            modal: if !v.help_open { Modal::Help } else { Modal::Closed },
            ..v
        },
        Intent::ScrollDetailsUp => ControllerView {
            details_scroll: if v.details_scroll > 0 { (v.details_scroll - 1) as u16 } else { 0 },
            ..v
        },
        Intent::ScrollDetailsDown => ControllerView {
            details_scroll: if v.details_scroll < u16::MAX { (v.details_scroll + 1) as u16 } else { u16::MAX },
            ..v
        },
        Intent::Quit | Intent::Cancel => ControllerView { should_quit: true, ..v },
        Intent::ToggleDetailsPane => ControllerView { show_details_pane: true, ..v },
        _ => v,
    }
}

pub open spec fn help_view(v: ControllerView, intent: Intent) -> ControllerView {
    match intent {
        Intent::Help | Intent::Cancel | Intent::Quit => ControllerView { help_open: false, modal: Modal::Closed, ..v },
        _ => v,
    }
}

/// The filter an item of the branch picker stands for.
pub open spec fn filter_for_item(item: Seq<char>) -> FilterView {
    if item == "all branches"@ {
        FilterView::All
    } else if item == "local branches"@ {
        FilterView::LocalOnly
    } else {
        FilterView::Branch(item)
    }
}

pub open spec fn picker_view(v: ControllerView, intent: Intent) -> ControllerView {
    match intent {
        Intent::MoveUp => ControllerView { picker_cursor: cursor_up(v.picker_cursor), ..v },
        Intent::MoveDown => ControllerView {
            picker_cursor: cursor_down(v.picker_cursor, v.picker_items.len()),
            ..v
        },
        Intent::Confirm => {
            let w = if v.picker_cursor < v.picker_items.len() {
                reload_view(ControllerView { filter: filter_for_item(v.picker_items[v.picker_cursor as int]), ..v })
            } else {
                v
            };
            ControllerView { picker_open: false, modal: Modal::Closed, ..w }
        },
        Intent::Cancel | Intent::Quit => ControllerView { picker_open: false, modal: Modal::Closed, ..v },
        _ => v,
    }
}

pub open spec fn search_view(v: ControllerView, intent: Intent) -> ControllerView {
    match intent {
        Intent::MoveUp => ControllerView { finder_cursor: cursor_up(v.finder_cursor), ..v },
        Intent::MoveDown => ControllerView { finder_cursor: cursor_down(v.finder_cursor, v.matches.len()), ..v },
        Intent::Confirm => {
            let w = if v.finder_cursor < v.matches.len() {
                refresh_view(ControllerView { selected: v.matches[v.finder_cursor as int], ..v })
            } else {
                v
            };
            ControllerView { finder_open: false, modal: Modal::Closed, ..w }
        },
        Intent::Cancel | Intent::Quit => ControllerView { finder_open: false, modal: Modal::Closed, ..v },
        _ => v,
    }
}

/// Handling an intent in the overlay that is open.
pub open spec fn handle_view(v: ControllerView, intent: Intent) -> ControllerView {
    match v.modal {
        Modal::Help => help_view(v, intent),
        Modal::BranchPicker => picker_view(v, intent),
        Modal::Search => search_view(v, intent),
        Modal::Closed => main_view(v, intent),
    }
}

/// Typing a character: it extends the query while the search is open.
pub open spec fn key_char_view(v: ControllerView, c: char) -> ControllerView {
    if v.modal == Modal::Search {
        refresh_finder_view(ControllerView { query: v.query.push(c), ..v })
    } else {
        v
    }
}

/// Handling a key press: while searching, Backspace edits the query and
/// printable characters extend it; Enter confirms the picker or the search;
/// Esc and `q` with no overlay open quit; other bound keys go to `handle_view`.
pub open spec fn key_view(v: ControllerView, key: KeyEvent) -> ControllerView {
    if key.code == KeyCode::Backspace && v.modal == Modal::Search {
        refresh_finder_view(
            ControllerView { query: if v.query.len() == 0 { v.query } else { v.query.drop_last() }, ..v },
        )
    } else {
        match key.code {
            KeyCode::Char(c) => if v.modal == Modal::Search && !is_control_char(c) {
                key_char_view(v, c)
            } else {
                bound_key_view(v, key)
            },
            _ => bound_key_view(v, key),
        }
    }
}

/// Handling a key press through its bound intent.
pub open spec fn bound_key_view(v: ControllerView, key: KeyEvent) -> ControllerView {
    match key_intent(key) {
        None => v,
        Some(intent) => if (v.modal == Modal::BranchPicker || v.modal == Modal::Search) && key.code
            == KeyCode::Enter {
            handle_view(v, Intent::Confirm)
        } else if intent == Intent::Confirm {
            handle_view(v, Intent::Confirm)
        } else if intent == Intent::Cancel && v.modal == Modal::Closed {
            ControllerView { should_quit: true, ..v }
        } else {
            handle_view(v, intent)
        },
    }
}

/// The status line after a log was read.
pub open spec fn log_status(n: nat, f: FilterView) -> Seq<char> {
    decimal(n) + " commits · filter: "@ + filter_view_label(f)
}

/// After the log command answered: the graph is laid out anew from the
/// commits read, the first row is selected and its details requested; when
/// the command failed, only the status says so.
pub open spec fn log_loaded_post(v: ControllerView, w: ControllerView, output: Option<Seq<char>>) -> bool {
    match output {
        None => w == ControllerView { status: "Failed to read git log."@, ..v },
        Some(raw) => {
            &&& rows_show(w.rows, parse_log_spec(raw))
            &&& w == refresh_view(
                ControllerView {
                    commits: parse_log_spec(raw),
                    rows: w.rows,
                    selected: 0,
                    status: log_status(w.rows.len(), v.filter),
                    ..v
                },
            )
        },
    }
}

/// After the commit command answered: its output (or a placeholder) becomes
/// the details, and the diff is requested when it is shown.
pub open spec fn details_loaded_view(v: ControllerView, output: Option<Seq<char>>) -> ControllerView {
    if v.selected < v.rows.len() {
        let hash = v.rows[v.selected as int].hash@;
        let w = ControllerView {
            details_text: match output {
                Some(s) => s,
                None => "commit "@ + hash + "\n(no details)"@,
            },
            ..v
        };
        if w.show_diff {
            load_diff_view(w)
        } else {
            w
        }
    } else {
        ControllerView { details_text: seq![], diff_text: seq![], ..v }
    }
}

/// After the branch listing answered: the picker opens on the two fixed
/// filters followed by the branches listed.
pub open spec fn branches_listed_view(v: ControllerView, names: Seq<Seq<char>>) -> ControllerView {
    ControllerView {
        picker_open: true,
        picker_items: seq!["all branches"@, "local branches"@] + names,
        picker_cursor: 0,
        modal: Modal::BranchPicker,
        ..v
    }
}

/// A finished diff is shown unless a newer one was asked for since.
pub open spec fn diff_result_view(v: ControllerView, seq: u64, text: Seq<char>) -> ControllerView {
    if seq >= v.pending_diff_seq {
        ControllerView { diff_text: text, diff_seq: seq, ..v }
    } else {
        v
    }
}

/// A step of the graph view that sends a diff job: the diff is switched on
/// with a row selected.
pub open spec fn main_sends_job(v: ControllerView, intent: Intent) -> bool {
    intent == Intent::ToggleDiff && !v.show_diff && v.selected < v.rows.len()
}

/// Handling `intent` sends a diff job.
pub open spec fn handle_sends_job(v: ControllerView, intent: Intent) -> bool {
    v.modal == Modal::Closed && main_sends_job(v, intent)
}

/// Handling `key` sends a diff job.
pub open spec fn key_sends_job(v: ControllerView, key: KeyEvent) -> bool {
    key_intent(key) == Some(Intent::ToggleDiff) && handle_sends_job(v, Intent::ToggleDiff)
}

/// Showing a commit's details sends a diff job: a row is selected and the
/// diff is shown.
pub open spec fn details_sends_job(v: ControllerView) -> bool {
    v.selected < v.rows.len() && v.show_diff
}

/// After polling the worker: when nothing was taken, nothing changed; when a
/// result was taken, it is recorded as received and applied as
/// `diff_result_view` says.
pub open spec fn polled_view(v: ControllerView, w: ControllerView) -> bool {
    if w.received.len() == v.received.len() {
        w == v
    } else {
        let r = w.received.last();
        &&& w.received == v.received.push(r)
        &&& w == diff_result_view(ControllerView { received: w.received, ..v }, r.0, r.1)
    }
}

/// The controller before its first load, talking to `worker`.
pub open spec fn initial_view(resolved: Resolved, config: Config, worker: DiffWorker) -> ControllerView {
    ControllerView {
        repo: match resolved.repo_root {
            Some(r) => r@,
            None => resolved.root@,
        },
        resolved,
        config,
        filter: FilterView::All,
        commits: seq![],
        rows: seq![],
        selected: 0,
        details_scroll: 0,
        show_details_pane: false,
        show_diff: false,
        details_text: seq![],
        diff_text: seq![],
        diff_seq: 0,
        pending_diff_seq: 0,
        modal: Modal::Closed,
        help_open: false,
        picker_open: false,
        picker_items: seq![],
        picker_cursor: 0,
        finder_open: false,
        query: seq![],
        matches: seq![],
        finder_cursor: 0,
        status: seq![],
        should_quit: false,
        request: None,
        dispatched: worker.sent(),
        received: worker.received(),
        job_sender: worker.job_sender(),
        result_receiver: worker.result_receiver(),
    }
}

// ---------------------------------------------------------------------------
// The steps
// ---------------------------------------------------------------------------

impl Controller {
    /// A controller for `resolved` that starts loading its graph and sends
    /// its diff jobs to `diff_worker`.
    pub fn new(resolved: Resolved, config: Config, diff_worker: DiffWorker) -> (res: Self)
        ensures
            res@ == reload_view(initial_view(resolved, config, diff_worker)),
    {
        let ghost worker = diff_worker;
        let repo = repo_dir(&resolved);
        let mut ctrl = Controller {
            repo,
            resolved,
            config,
            filter: BranchFilter::All,
            commits: Vec::new(),
            rows: Vec::new(),
            selected: 0,
            details_scroll: 0,
            show_details_pane: false,
            show_diff: false,
            details_text: String::new(),
            diff_text: String::new(),
            diff_seq: 0,
            pending_diff_seq: 0,
            modal: Modal::Closed,
            help: HelpState::default(),
            picker: PickerState::default(),
            finder: FinderState::default(),
            status: String::new(),
            should_quit: false,
            request: None,
            diff_worker,
        };
        assert(ctrl@ =~= initial_view(resolved, config, worker));
        ctrl.reload_graph();
        ctrl
    }

    fn reload_graph(&mut self)
        ensures
            final(self)@ == reload_view(old(self)@),
    {
        if !self.resolved.is_git_repo {
            self.status = String::from_str("Not a git repository.");
            self.commits = Vec::new();
            self.rows = Vec::new();
            assert(self@ =~= reload_view(old(self)@));
            return;
        }
        let limit = self.config.commit_limit;
        let args = match &self.filter {
            BranchFilter::LocalOnly => log_commits_local(limit),
            BranchFilter::All => log_commits(limit, None),
            BranchFilter::Branch(b) => log_commits(limit, Some(b.as_str())),
        };
        self.request = Some(GitRequest { query: GitQuery::Log, args });
        assert(self@ =~= reload_view(old(self)@));
    }

    fn refresh_details(&mut self)
        ensures
            final(self)@ == refresh_view(old(self)@),
    {
        if self.selected < self.rows.len() {
            let args = show_commit(self.rows[self.selected].hash.as_str());
            self.request = Some(GitRequest { query: GitQuery::Commit, args });
            assert(self@ =~= refresh_view(old(self)@));
        } else {
            self.details_text = String::new();
            self.diff_text = String::new();
            assert(self@ =~= refresh_view(old(self)@));
        }
    }

    fn load_diff(&mut self)
        requires
            old(self).selected < old(self).rows.len() ==> old(self).pending_diff_seq < u64::MAX,
        ensures
            final(self)@ == load_diff_view(old(self)@),
    {
        if self.selected < self.rows.len() {
            self.pending_diff_seq = self.pending_diff_seq + 1;
            let seq = self.pending_diff_seq;
            self.diff_worker.dispatch(seq, self.rows[self.selected].hash.as_str());
            assert(self@ =~= load_diff_view(old(self)@));
        }
    }
}

impl Controller {
    fn move_selection(&mut self, delta: i32)
        ensures
            final(self)@ == move_view(old(self)@, delta as int),
    {
        if self.rows.len() == 0 {
            return;
        }
        let last = self.rows.len() - 1;
        let next: usize = if delta >= 0 {
            let d = delta as usize;
            if self.selected >= last || last - self.selected <= d {
                last
            } else {
                self.selected + d
            }
        } else {
            let d = (0 - (delta as i64)) as usize;
            if self.selected <= d {
                0
            } else if self.selected - d > last {
                last
            } else {
                self.selected - d
            }
        };
        let ghost mid = ControllerView {
            selected: clamp_int(old(self)@.selected + delta, 0, old(self)@.rows.len() - 1) as usize,
            details_scroll: 0,
            ..old(self)@
        };
        self.selected = next;
        self.details_scroll = 0;
        assert(self@ =~= mid);
        self.refresh_details();
    }

    fn toggle_diff(&mut self)
        requires
            main_sends_job(old(self)@, Intent::ToggleDiff) ==> old(self).pending_diff_seq < u64::MAX,
        ensures
            final(self)@ == toggle_diff_view(old(self)@),
    {
        self.show_diff = !self.show_diff;
        if self.show_diff {
            self.load_diff();
        }
    }

    fn handle_main(&mut self, intent: Intent)
        requires
            main_sends_job(old(self)@, intent) ==> old(self).pending_diff_seq < u64::MAX,
        ensures
            final(self)@ == main_view(old(self)@, intent),
    {
        match intent {
            Intent::MoveUp => self.move_selection(-1),
            Intent::MoveDown => self.move_selection(1),
            Intent::PageUp => self.move_selection(-10),
            Intent::PageDown => self.move_selection(10),
            Intent::ToggleDiff => self.toggle_diff(),
            Intent::BranchPicker => {
                self.request = Some(GitRequest { query: GitQuery::Branches, args: list_branches_args() });
                assert(self@ =~= main_view(old(self)@, intent));
            },
            Intent::Search => {
                self.finder.open();
                self.modal = Modal::Search;
                assert(self@ =~= main_view(old(self)@, intent));
            },
            Intent::Help => {
                self.help.toggle();
                self.modal = if self.help.open { Modal::Help } else { Modal::Closed };
                assert(self@ =~= main_view(old(self)@, intent));
            },
            Intent::ScrollDetailsUp => {
                self.details_scroll = if self.details_scroll > 0 { self.details_scroll - 1 } else { 0 };
                assert(self@ =~= main_view(old(self)@, intent));
            },
            Intent::ScrollDetailsDown => {
                self.details_scroll = if self.details_scroll < u16::MAX { self.details_scroll + 1 } else { u16::MAX };
                assert(self@ =~= main_view(old(self)@, intent));
            },
            Intent::Quit | Intent::Cancel => {
                self.should_quit = true;
                assert(self@ =~= main_view(old(self)@, intent));
            },
            Intent::ToggleDetailsPane => {
                self.show_details_pane = true;
                assert(self@ =~= main_view(old(self)@, intent));
            },
            _ => {},
        }
    }

    fn handle_help(&mut self, intent: Intent)
        ensures
            final(self)@ == help_view(old(self)@, intent),
    {
        match intent {
            Intent::Help | Intent::Cancel | Intent::Quit => {
                self.help.close();
                self.modal = Modal::Closed;
                assert(self@ =~= help_view(old(self)@, intent));
            },
            _ => {},
        }
    }

    fn handle_branch_picker(&mut self, intent: Intent)
        ensures
            final(self)@ == picker_view(old(self)@, intent),
    {
        match intent {
            Intent::MoveUp => {
                self.picker.move_up();
                assert(self@ =~= picker_view(old(self)@, intent));
            },
            Intent::MoveDown => {
                self.picker.move_down();
                assert(self@ =~= picker_view(old(self)@, intent));
            },
            Intent::Confirm => {
                let chosen = match self.picker.selected() {
                    Some(sel) => Some(
                        if str_eq(sel, "all branches") {
                            BranchFilter::All
                        } else if str_eq(sel, "local branches") {
                            BranchFilter::LocalOnly
                        } else {
                            BranchFilter::Branch(String::from_str(sel))
                        },
                    ),
                    None => None,
                };
                if let Some(f) = chosen {
                    self.filter = f;
                    assert(self@ =~= ControllerView {
                        filter: filter_for_item(old(self)@.picker_items[old(self)@.picker_cursor as int]),
                        ..old(self)@
                    });
                    self.reload_graph();
                }
                let ghost w = self@;
                self.picker.close();
                self.modal = Modal::Closed;
                assert(self@ =~= ControllerView { picker_open: false, modal: Modal::Closed, ..w });
            },
            Intent::Cancel | Intent::Quit => {
                self.picker.close();
                self.modal = Modal::Closed;
                assert(self@ =~= picker_view(old(self)@, intent));
            },
            _ => {},
        }
    }

    fn handle_search(&mut self, intent: Intent)
        ensures
            final(self)@ == search_view(old(self)@, intent),
    {
        match intent {
            Intent::MoveUp => {
                self.finder.move_up();
                assert(self@ =~= search_view(old(self)@, intent));
            },
            Intent::MoveDown => {
                self.finder.move_down();
                assert(self@ =~= search_view(old(self)@, intent));
            },
            Intent::Confirm => {
                if let Some(idx) = self.finder.selected_index() {
                    self.selected = idx;
                    assert(self@ =~= ControllerView {
                        selected: old(self)@.matches[old(self)@.finder_cursor as int],
                        ..old(self)@
                    });
                    self.refresh_details();
                }
                let ghost w = self@;
                self.finder.close();
                self.modal = Modal::Closed;
                assert(self@ =~= ControllerView { finder_open: false, modal: Modal::Closed, ..w });
            },
            Intent::Cancel | Intent::Quit => {
                self.finder.close();
                self.modal = Modal::Closed;
                assert(self@ =~= search_view(old(self)@, intent));
            },
            _ => {},
        }
    }

    /// Handles an intent in the overlay that is open (see `handle_view`).
    pub fn handle(&mut self, intent: Intent)
        requires
            handle_sends_job(old(self)@, intent) ==> old(self)@.pending_diff_seq < u64::MAX,
        ensures
            final(self)@ == handle_view(old(self)@, intent),
    {
        match self.modal {
            Modal::Help => self.handle_help(intent),
            Modal::BranchPicker => self.handle_branch_picker(intent),
            Modal::Search => self.handle_search(intent),
            Modal::Closed => self.handle_main(intent),
        }
    }

    /// Extends the search query while the search is open.
    pub fn handle_key_char(&mut self, c: char)
        ensures
            final(self)@ == key_char_view(old(self)@, c),
    {
        if self.modal == Modal::Search {
            self.finder.push_char(c, self.rows.as_slice());
            assert(self@ =~= key_char_view(old(self)@, c));
        }
    }

    /// Whether handling `key` would send a diff job (see `key_sends_job`).
    pub fn key_sends_diff_job(&self, key: KeyEvent) -> (res: bool)
        ensures
            res == key_sends_job(self@, key),
    {
        map_key(key) == Some(Intent::ToggleDiff) && self.modal == Modal::Closed && !self.show_diff
            && self.selected < self.rows.len()
    }

    /// Whether showing the details would send a diff job (see `details_sends_job`).
    pub fn details_send_diff_job(&self) -> (res: bool)
        ensures
            res == details_sends_job(self@),
    {
        self.selected < self.rows.len() && self.show_diff
    }

    /// Handles a key press (see `key_view`).
    pub fn handle_key(&mut self, key: KeyEvent)
        requires
            key_sends_job(old(self)@, key) ==> old(self)@.pending_diff_seq < u64::MAX,
        ensures
            final(self)@ == key_view(old(self)@, key),
    {
        if key.code == KeyCode::Backspace && self.modal == Modal::Search {
            self.finder.backspace(self.rows.as_slice());
            assert(self@ =~= key_view(old(self)@, key));
            return;
        }
        if let KeyCode::Char(c) = key.code {
            if self.modal == Modal::Search && !is_control(c) {
                self.handle_key_char(c);
                return;
            }
        }
        if let Some(intent) = map_key(key) {
            if (self.modal == Modal::BranchPicker || self.modal == Modal::Search) && key.code == KeyCode::Enter {
                self.handle(Intent::Confirm);
            } else if intent == Intent::Confirm {
                self.handle(Intent::Confirm);
            } else if intent == Intent::Cancel && self.modal == Modal::Closed {
                self.should_quit = true;
                assert(self@ =~= key_view(old(self)@, key));
            } else {
                self.handle(intent);
            }
        }
    }
}

impl Controller {
    /// The git command the controller waits for, if any; it is no longer pending.
    pub fn take_request(&mut self) -> (res: Option<GitRequest>)
        ensures
            request_view(res) == old(self)@.request,
            final(self)@ == (ControllerView { request: None, ..old(self)@ }),
    {
        let r = match &self.request {
            Some(_) => self.request.take(),
            None => None,
        };
        assert(self@ =~= ControllerView { request: None, ..old(self)@ });
        r
    }

    /// Opens the branch picker on what the branch listing printed (`None` when it failed).
    pub fn branches_listed(&mut self, output: Option<String>)
        ensures
            final(self)@ == branches_listed_view(old(self)@, branch_names(output)),
    {
        let mut items: Vec<String> = Vec::new();
        items.push(String::from_str("all branches"));
        items.push(String::from_str("local branches"));
        let mut branches = list_branches(output);
        let ghost fixed = items@;
        let ghost listed = branches@;
        items.append(&mut branches);
        assert(strs(items@) =~= seq!["all branches"@, "local branches"@] + branch_names(output)) by {
            assert(items@ =~= fixed + listed);
        }
        self.picker.open_with_items(items);
        self.modal = Modal::BranchPicker;
        assert(self@ =~= branches_listed_view(old(self)@, branch_names(output)));
    }

    /// Lays out the graph from what the log command printed (`None` when it failed).
    pub fn log_loaded(&mut self, output: Option<String>)
        ensures
            log_loaded_post(old(self)@, final(self)@, opt_view(output)),
    {
        match output {
            None => {
                self.status = String::from_str("Failed to read git log.");
                assert(self@ =~= ControllerView { status: "Failed to read git log."@, ..old(self)@ });
            },
            Some(raw) => {
                let commits = parse_log(raw.as_str());
                let rows = layout_graph(commits.as_slice());
                let mut status = usize_to_decimal(rows.len());
                status.append(" commits · filter: ");
                let label = self.filter.label();
                status.append(label.as_str());
                self.commits = commits;
                self.rows = rows;
                self.selected = 0;
                self.status = status;
                assert(self@ =~= ControllerView {
                    commits: parse_log_spec(raw@),
                    rows: self@.rows,
                    selected: 0,
                    status: log_status(self@.rows.len(), old(self)@.filter),
                    ..old(self)@
                });
                self.refresh_details();
            },
        }
    }

    /// Shows what the commit command printed for the selected commit (`None` when it failed).
    pub fn details_loaded(&mut self, output: Option<String>)
        requires
            details_sends_job(old(self)@) ==> old(self)@.pending_diff_seq < u64::MAX,
        ensures
            final(self)@ == details_loaded_view(old(self)@, opt_view(output)),
    {
        if self.selected < self.rows.len() {
            let text = format_commit_details(self.rows[self.selected].hash.as_str(), output);
            self.details_text = text;
            if self.show_diff {
                self.load_diff();
            }
            assert(self@ =~= details_loaded_view(old(self)@, opt_view(output)));
        } else {
            self.details_text = String::new();
            self.diff_text = String::new();
            assert(self@ =~= details_loaded_view(old(self)@, opt_view(output)));
        }
    }

    /// Shows a finished diff unless a newer one was asked for since.
    pub fn apply_diff_result(&mut self, result: DiffResult)
        ensures
            final(self)@ == diff_result_view(old(self)@, result.seq, result.text@),
    {
        if result.seq >= self.pending_diff_seq {
            self.diff_text = result.text;
            self.diff_seq = result.seq;
        }
        assert(self@ =~= diff_result_view(old(self)@, result.seq, result.text@));
    }

    /// Takes a finished diff from the worker, if one is ready, and applies it
    /// (see `polled_view`).
    pub fn poll_diff(&mut self)
        ensures
            polled_view(old(self)@, final(self)@),
    {
        if let Some(result) = self.diff_worker.poll() {
            let ghost r = (result.seq, result.text@);
            assert(self@ =~= ControllerView { received: old(self)@.received.push(r), ..old(self)@ });
            self.apply_diff_result(result);
            assert(self@.received.last() == r);
        } else {
            assert(self@ =~= old(self)@);
        }
    }
}

// ---------------------------------------------------------------------------
// Laws
// ---------------------------------------------------------------------------

/// A git command that only reads: `log`, `show` or `for-each-ref`.
pub open spec fn reads_only(args: Seq<Seq<char>>) -> bool {
    args.len() > 0 && (args[0] == "log"@ || args[0] == "show"@ || args[0] == "for-each-ref"@)
}

/// A full git command line that only reads: the hardening options (no
/// monitor, no hooks, no external diff), then a `log`, `show` or
/// `for-each-ref` command.
pub open spec fn hardened_read_only(argv: Seq<Seq<char>>, null_device: Seq<char>) -> bool {
    &&& argv.take(6) == hardening_options(null_device)
    &&& reads_only(argv.skip(6))
}

/// The pending request, run as `hardened_argv` runs it, only reads.
pub open spec fn request_reads_only(v: ControllerView) -> bool {
    match v.request {
        Some((_, args)) => forall|nd: Seq<char>| hardened_read_only(#[trigger] hardened_argv(nd, args), nd),
        None => true,
    }
}

/// The pending request, taken as given to git, only reads.
spec fn request_args_read(v: ControllerView) -> bool {
    match v.request {
        Some((_, args)) => reads_only(args),
        None => true,
    }
}

proof fn lemma_request_hardened(v: ControllerView)
    requires
        request_args_read(v),
    ensures
        request_reads_only(v),
{
    match v.request {
        Some((_, args)) => {
            assert forall|nd: Seq<char>| hardened_read_only(#[trigger] hardened_argv(nd, args), nd) by {
                let a = hardened_argv(nd, args);
                assert(a.take(6) =~= hardening_options(nd));
                assert(a.skip(6) =~= args);
            }
        },
        None => {},
    }
}

proof fn lemma_request_unhardened(v: ControllerView)
    requires
        request_reads_only(v),
    ensures
        request_args_read(v),
{
    match v.request {
        Some((_, args)) => {
            let nd = Seq::<char>::empty();
            assert(hardened_read_only(hardened_argv(nd, args), nd));
            assert(hardened_argv(nd, args).skip(6) =~= args);
        },
        None => {},
    }
}

proof fn lemma_steps_read_only(
    v: ControllerView,
    worker: DiffWorker,
    intent: Intent,
    key: KeyEvent,
    out: Option<Seq<char>>,
    names: Seq<Seq<char>>,
    w: ControllerView,
)
    requires
        request_args_read(v),
    ensures
        request_args_read(reload_view(initial_view(v.resolved, v.config, worker))),
        request_args_read(handle_view(v, intent)),
        request_args_read(key_view(v, key)),
        request_args_read(details_loaded_view(v, out)),
        request_args_read(branches_listed_view(v, names)),
        log_loaded_post(v, w, out) ==> request_args_read(w),
{
}

/// The viewer never asks git to change the repository: from the first load
/// on, every command it requests, whatever keys are pressed and whatever git
/// answers, runs with hooks, the file system monitor and external diff
/// programs switched off, and is `log`, `show` or `for-each-ref`.
pub proof fn law_git_requests_only_read(
    v: ControllerView,
    worker: DiffWorker,
    intent: Intent,
    key: KeyEvent,
    out: Option<Seq<char>>,
    names: Seq<Seq<char>>,
    w: ControllerView,
)
    requires
        request_reads_only(v),
    ensures
        request_reads_only(reload_view(initial_view(v.resolved, v.config, worker))),
        request_reads_only(handle_view(v, intent)),
        request_reads_only(key_view(v, key)),
        request_reads_only(details_loaded_view(v, out)),
        request_reads_only(branches_listed_view(v, names)),
        log_loaded_post(v, w, out) ==> request_reads_only(w),
{
    lemma_request_unhardened(v);
    lemma_steps_read_only(v, worker, intent, key, out, names, w);
    lemma_request_hardened(reload_view(initial_view(v.resolved, v.config, worker)));
    lemma_request_hardened(handle_view(v, intent));
    lemma_request_hardened(key_view(v, key));
    lemma_request_hardened(details_loaded_view(v, out));
    lemma_request_hardened(branches_listed_view(v, names));
    if log_loaded_post(v, w, out) {
        lemma_request_hardened(w);
    }
}

/// The diff jobs went out with strictly increasing numbers, none above the
/// number of the last one asked for.
pub open spec fn jobs_in_order(v: ControllerView) -> bool {
    &&& forall|i: int, j: int|
        0 <= i < j < v.dispatched.len() ==> (#[trigger] v.dispatched[i]).0 < (#[trigger] v.dispatched[j]).0
    &&& forall|i: int| 0 <= i < v.dispatched.len() ==> (#[trigger] v.dispatched[i]).0 <= v.pending_diff_seq
}

proof fn lemma_load_diff_in_order(v: ControllerView)
    requires
        jobs_in_order(v),
        v.selected < v.rows.len() ==> v.pending_diff_seq < u64::MAX,
    ensures
        jobs_in_order(load_diff_view(v)),
{
    let w = load_diff_view(v);
    if v.selected < v.rows.len() {
        assert forall|i: int, j: int| 0 <= i < j < w.dispatched.len() implies (#[trigger] w.dispatched[i]).0 < (
        #[trigger] w.dispatched[j]).0 by {
            if j < v.dispatched.len() {
                assert(w.dispatched[i] == v.dispatched[i]);
                assert(w.dispatched[j] == v.dispatched[j]);
            } else {
                assert(w.dispatched[i] == v.dispatched[i]);
            }
        }
        assert forall|i: int| 0 <= i < w.dispatched.len() implies (#[trigger] w.dispatched[i]).0
            <= w.pending_diff_seq by {
            if i < v.dispatched.len() {
                assert(w.dispatched[i] == v.dispatched[i]);
            }
        }
    }
}

/// Diff jobs are numbered in the order they are sent, so the newest request
/// can always be told apart from stale results: starting from a worker that
/// has sent nothing, every step that the library allows keeps the order.
pub proof fn law_diff_jobs_in_order(
    v: ControllerView,
    worker: DiffWorker,
    intent: Intent,
    key: KeyEvent,
    out: Option<Seq<char>>,
    w: ControllerView,
)
    requires
        jobs_in_order(v),
    ensures
        worker.sent().len() == 0 ==> jobs_in_order(reload_view(initial_view(v.resolved, v.config, worker))),
        (handle_sends_job(v, intent) ==> v.pending_diff_seq < u64::MAX) ==> jobs_in_order(handle_view(v, intent)),
        (key_sends_job(v, key) ==> v.pending_diff_seq < u64::MAX) ==> jobs_in_order(key_view(v, key)),
        (details_sends_job(v) ==> v.pending_diff_seq < u64::MAX) ==> jobs_in_order(details_loaded_view(v, out)),
        polled_view(v, w) ==> jobs_in_order(w),
{
    if v.selected < v.rows.len() ==> v.pending_diff_seq < u64::MAX {
        lemma_load_diff_in_order(ControllerView { show_diff: !v.show_diff, ..v });
    }
    if v.selected < v.rows.len() && v.pending_diff_seq < u64::MAX {
        let hash = v.rows[v.selected as int].hash@;
        lemma_load_diff_in_order(
            ControllerView {
                details_text: match out {
                    Some(s) => s,
                    None => "commit "@ + hash + "\n(no details)"@,
                },
                ..v
            },
        );
    }
}

/// A result for an older diff job than the last one asked for never
/// replaces the diff on screen.
pub proof fn law_stale_diff_ignored(v: ControllerView, seq: u64, text: Seq<char>)
    requires
        seq < v.pending_diff_seq,
    ensures
        diff_result_view(v, seq, text) == v,
{
}

/// The open overlay and the open flags agree: the help, the picker and the
/// search are each open exactly when they are the overlay.
pub open spec fn overlay_consistent(v: ControllerView) -> bool {
    &&& (v.modal == Modal::Help) == v.help_open
    &&& (v.modal == Modal::BranchPicker) == v.picker_open
    &&& (v.modal == Modal::Search) == v.finder_open
}

/// Key presses keep the overlay and the open flags in agreement.
pub proof fn law_overlay_consistent(v: ControllerView, worker: DiffWorker, intent: Intent, key: KeyEvent)
    requires
        overlay_consistent(v),
    ensures
        overlay_consistent(reload_view(initial_view(v.resolved, v.config, worker))),
        overlay_consistent(handle_view(v, intent)),
        overlay_consistent(key_view(v, key)),
{
}

/// Cancel and Quit (and the Esc key) close whatever overlay is open, and
/// with none open they make the viewer quit; the graph, the filter and the
/// selection stay as they were.
pub proof fn law_cancel_closes_overlays(v: ControllerView, intent: Intent, key: KeyEvent)
    requires
        overlay_consistent(v),
    ensures
        (intent == Intent::Cancel || intent == Intent::Quit) ==> overlays_closed_by(v, handle_view(v, intent)),
        key.code == KeyCode::Esc ==> overlays_closed_by(v, key_view(v, key)),
{
}

/// `w` has every overlay closed, quits exactly when `v` quit or had none
/// open, and shows the same graph, filter and selection as `v`.
pub open spec fn overlays_closed_by(v: ControllerView, w: ControllerView) -> bool {
    &&& w.modal == Modal::Closed
    &&& !w.help_open
    &&& !w.picker_open
    &&& !w.finder_open
    &&& w.should_quit == (v.should_quit || v.modal == Modal::Closed)
    &&& w.filter == v.filter
    &&& w.rows == v.rows
    &&& w.selected == v.selected
}

proof fn lemma_matching_rows_bounds(rows: Seq<GraphRow>, q: Seq<char>, n: int)
    requires
        0 <= n <= rows.len(),
        rows.len() <= usize::MAX,
    ensures
        forall|k: int|
            0 <= k < matching_rows(rows, q, n).len() ==> #[trigger] matching_rows(rows, q, n)[k] < n,
    decreases n,
{
    if n > 0 {
        lemma_matching_rows_bounds(rows, q, n - 1);
        let r = matching_rows(rows, q, n - 1);
        let s = matching_rows(rows, q, n);
        assert forall|k: int| 0 <= k < s.len() implies #[trigger] s[k] < n by {
            if k < r.len() {
                assert(s[k] == r[k]);
            }
        }
    }
}

/// The selection points at a row whenever there are rows, and the search
/// results, while the search is open, point at rows.
pub open spec fn selection_in_rows(v: ControllerView) -> bool {
    &&& v.rows.len() > 0 ==> v.selected < v.rows.len()
    &&& v.modal == Modal::Search ==> forall|k: int| 0 <= k < v.matches.len() ==> #[trigger] v.matches[k] < v.rows.len()
}

/// Moving, searching and confirming keep the selection on a row.
pub proof fn law_selection_in_rows(v: ControllerView, intent: Intent, key: KeyEvent)
    requires
        selection_in_rows(v),
        overlay_consistent(v),
        v.rows.len() <= usize::MAX,
    ensures
        selection_in_rows(handle_view(v, intent)),
        selection_in_rows(key_view(v, key)),
{
    let n = v.rows.len() as int;
    let back = if v.query.len() == 0 { v.query } else { v.query.drop_last() };
    lemma_matching_rows_bounds(v.rows, lowercase(back), n);
    match key.code {
        KeyCode::Char(c) => lemma_matching_rows_bounds(v.rows, lowercase(v.query.push(c)), n),
        _ => {},
    }
}

/// Confirming an item of the branch picker sets the filter it names: "all
/// branches" the filter on all refs, "local branches" the filter on local
/// branches, and any other item the filter on that branch; in a repository
/// the log is then requested for that filter. The picker closes either way.
/// The same holds for Enter while the picker is open.
pub proof fn law_picker_sets_filter(v: ControllerView, key: KeyEvent)
    requires
        v.modal == Modal::BranchPicker,
        v.picker_cursor < v.picker_items.len(),
        key.code == KeyCode::Enter,
    ensures
        key_view(v, key) == handle_view(v, Intent::Confirm),
        ({
            let item = v.picker_items[v.picker_cursor as int];
            let n = decimal(v.config.commit_limit as nat);
            let w = handle_view(v, Intent::Confirm);
            &&& w.modal == Modal::Closed
            &&& !w.picker_open
            &&& item == "all branches"@ ==> w.filter == FilterView::All && (v.resolved.is_git_repo ==> w.request
                == Some((GitQuery::Log, seq!["log"@, "--topo-order"@, "--date-order"@, "-n"@, n, LOG_FORMAT@, "--all"@])))
            &&& item == "local branches"@ ==> w.filter == FilterView::LocalOnly && (v.resolved.is_git_repo
                ==> w.request == Some(
                (GitQuery::Log, seq!["log"@, "refs/heads"@, "--topo-order"@, "--date-order"@, "-n"@, n, LOG_FORMAT@]),
            ))
            &&& item != "all branches"@ && item != "local branches"@ ==> w.filter == FilterView::Branch(item) && (
            v.resolved.is_git_repo ==> w.request == Some(
                (GitQuery::Log, seq!["log"@, "--topo-order"@, "--date-order"@, "-n"@, n, LOG_FORMAT@, item]),
            ))
        }),
{
    reveal_strlit("all branches");
    reveal_strlit("local branches");
    assert("all branches"@[0] != "local branches"@[0]);
}

} // verus!
