//! The commit records read from git and the rows drawn for them.
use crate::text::string_from_chars;
use vstd::prelude::*;

verus! {

/// The views of a list of strings.
pub open spec fn strs(v: Seq<String>) -> Seq<Seq<char>> {
    v.map_values(|s: String| s@)
}

/// One commit as read from `git log`.
#[derive(Debug, Clone, PartialEq, Eq)]
pub struct CommitNode {
    pub hash: String,
    pub parents: Vec<String>,
    pub refs: Vec<String>,
    pub subject: String,
    pub author: String,
    pub timestamp: i64,
}

/// What a commit record says, as plain values.
pub struct CommitView {
    pub hash: Seq<char>,
    pub parents: Seq<Seq<char>>,
    pub refs: Seq<Seq<char>>,
    pub subject: Seq<char>,
    pub author: Seq<char>,
    pub timestamp: i64,
}

impl View for CommitNode {
    type V = CommitView;

    open spec fn view(&self) -> CommitView {
        CommitView {
            hash: self.hash@,
            parents: strs(self.parents@),
            refs: strs(self.refs@),
            subject: self.subject@,
            author: self.author@,
            timestamp: self.timestamp,
        }
    }
}

/// The views of a list of commits.
pub open spec fn commit_views(v: Seq<CommitNode>) -> Seq<CommitView> {
    v.map_values(|c: CommitNode| c@)
}

/// Which branches the graph shows.
#[derive(Debug, Clone, PartialEq, Eq)]
pub enum BranchFilter {
    All,
    LocalOnly,
    Branch(String),
}

impl Default for BranchFilter {
    fn default() -> (res: Self)
        ensures
            res is All,
    {
        BranchFilter::All
    }
}

/// The text that names a filter in the status line and the picker.
pub open spec fn filter_label(f: BranchFilter) -> Seq<char> {
    match f {
        BranchFilter::All => "all branches"@,
        BranchFilter::LocalOnly => "local branches"@,
        BranchFilter::Branch(b) => b@,
    }
}

impl BranchFilter {
    pub fn label(&self) -> (res: String)
        ensures
            res@ == filter_label(*self),
    {
        match self {
            BranchFilter::All => String::from_str("all branches"),
            BranchFilter::LocalOnly => String::from_str("local branches"),
            BranchFilter::Branch(b) => b.clone(),
        }
    }
}

/// The commits and the rows laid out for them.
#[derive(Debug, Clone)]
pub struct CommitGraph {
    pub commits: Vec<CommitNode>,
    pub rows: Vec<GraphRow>,
}

/// One glyph in the left-hand ASCII graph, with a palette index for coloring.
#[derive(Debug, Clone, Copy, PartialEq, Eq, Structural)]
pub struct GraphCell {
    pub ch: char,
    /// Index into the lane color palette (`0` = default / empty).
    pub color_idx: u8,
}

impl GraphCell {
    pub fn empty() -> (res: Self)
        ensures
            res == (GraphCell { ch: ' ', color_idx: 0 }),
    {
        GraphCell { ch: ' ', color_idx: 0 }
    }

    pub fn new(ch: char, color_idx: u8) -> (res: Self)
        ensures
            res == (GraphCell { ch, color_idx }),
    {
        GraphCell { ch, color_idx }
    }
}

/// The glyphs of a row of cells, in order.
pub open spec fn cell_chars(cells: Seq<GraphCell>) -> Seq<char> {
    cells.map_values(|c: GraphCell| c.ch)
}

/// One drawn row: the graph cells and the commit's metadata.
#[derive(Debug, Clone, PartialEq, Eq)]
pub struct GraphRow {
    pub cells: Vec<GraphCell>,
    pub short_hash: String,
    pub refs: Vec<String>,
    pub subject: String,
    pub author: String,
    pub timestamp: i64,
    pub hash: String,
}

impl GraphRow {
    /// Flat graph string for tests and debugging.
    pub fn graph_string(&self) -> (res: String)
        ensures
            res@ == cell_chars(self.cells@),
    {
        let mut cs: Vec<char> = Vec::new();
        let mut i: usize = 0;
        while i < self.cells.len()
            invariant
                i <= self.cells@.len(),
                cs@ == cell_chars(self.cells@).take(i as int),
            decreases self.cells@.len() - i,
        {
            cs.push(self.cells[i].ch);
            assert(cell_chars(self.cells@).take(i + 1) == cell_chars(self.cells@).take(i as int).push(self.cells@[i as int].ch));
            i += 1;
        }
        assert(cell_chars(self.cells@).take(i as int) == cell_chars(self.cells@));
        string_from_chars(&cs)
    }
}

} // verus!
