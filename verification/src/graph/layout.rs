//! Lane layout: turns a topologically ordered commit list into drawn rows.
//!
//! The layout walks the commits in order, keeping a list of active lanes.
//! Each lane waits for one commit (an index into the list) and carries a
//! palette color. The spec functions below describe one row of that walk
//! stage by stage; `layout_graph` is proved to produce exactly those rows.
use super::model::{commit_views, strs, CommitNode, CommitView, GraphCell, GraphRow};
use crate::search::{
    first_in, lemma_first_in_bounds, lemma_first_in_hit, lemma_first_in_miss, lemma_first_in_rest,
};
use crate::text::{prefix_of, take_chars};
use vstd::prelude::*;

verus! {

pub const EMPTY: char = ' ';
pub const PIPE: char = '│';
pub const COMMIT: char = '●';
pub const HORIZ: char = '─';
/// Merge arm going down on the right.
pub const CORNER_SE: char = '┐';
/// Side lane joining into the commit from the right.
pub const CORNER_SW: char = '┘';
/// Commit continuing down and connecting right.
pub const TEE_E: char = '├';
/// Side join into a continuing lane.
pub const TEE_W: char = '┤';

/// Number of distinct lane colors cycled by the layout.
pub const LANE_PALETTE_SIZE: u8 = 8;

/// One slot of the lane list: the index of the commit the lane waits for, and its color.
pub type LaneSlot = Option<(usize, u8)>;

// ---------------------------------------------------------------------------
// Specification of one row
// ---------------------------------------------------------------------------

pub open spec fn hashes(commits: Seq<CommitView>) -> Seq<Seq<char>> {
    commits.map_values(|c: CommitView| c.hash)
}

/// Index of the last element of `hs` equal to `h`.
pub open spec fn last_index_of(hs: Seq<Seq<char>>, h: Seq<char>) -> Option<int>
    decreases hs.len(),
{
    if hs.len() == 0 {
        None
    } else if hs.last() == h {
        Some(hs.len() - 1)
    } else {
        last_index_of(hs.drop_last(), h)
    }
}

pub open spec fn to_usize_opt(o: Option<int>) -> Option<usize> {
    match o {
        Some(i) => Some(i as usize),
        None => None,
    }
}

/// For each parent of `c`, the index of the commit in `commits` that carries
/// that hash (the last one, when several do), if any.
pub open spec fn parent_targets(commits: Seq<CommitView>, c: CommitView) -> Seq<Option<usize>> {
    c.parents.map_values(|p: Seq<char>| to_usize_opt(last_index_of(hashes(commits), p)))
}

pub open spec fn waits_for(slot: LaneSlot, idx: int) -> bool {
    match slot {
        Some((t, _)) => t == idx,
        None => false,
    }
}

pub open spec fn slot_color(slot: LaneSlot, dflt: u8) -> u8 {
    match slot {
        Some((_, c)) => c,
        None => dflt,
    }
}

/// The lanes among the first `n` that wait for commit `idx`, in order.
pub open spec fn incoming_prefix(lanes: Seq<LaneSlot>, idx: int, n: int) -> Seq<usize>
    decreases n,
{
    if n <= 0 {
        seq![]
    } else {
        let r = incoming_prefix(lanes, idx, n - 1);
        if waits_for(lanes[n - 1], idx) {
            r.push((n - 1) as usize)
        } else {
            r
        }
    }
}

pub open spec fn free_at(lanes: Seq<LaneSlot>) -> spec_fn(int) -> bool {
    |i: int| lanes[i] is None
}

/// Where commit `idx` is drawn: its lane, the lanes that end in it, and the
/// lane list after making room for it.
pub open spec fn place(lanes: Seq<LaneSlot>, idx: int) -> (usize, Seq<usize>, Seq<LaneSlot>) {
    let inc = incoming_prefix(lanes, idx, lanes.len() as int);
    if inc.len() > 0 {
        (inc[0], inc, lanes)
    } else {
        match first_in(lanes.len() as int, free_at(lanes)) {
            Some(f) => (f as usize, seq![f as usize], lanes),
            None => (lanes.len() as usize, seq![lanes.len() as usize], lanes.push(None)),
        }
    }
}

/// The color counter after handing out one color.
pub open spec fn bump(next: u8) -> u8 {
    if next == 255 {
        0
    } else {
        (next + 1) as u8
    }
}

/// The commit's color and the color counter after choosing it.
pub open spec fn commit_color_of(lanes1: Seq<LaneSlot>, lane: usize, next: u8) -> (u8, u8) {
    match lanes1[lane as int] {
        Some((_, c)) => (c, next),
        None => (next % LANE_PALETTE_SIZE, bump(next)),
    }
}

/// Some parent arm already uses lane `i`.
pub open spec fn claimed(pls: Seq<(usize, u8)>, i: int) -> bool {
    exists|k: int| 0 <= k < pls.len() && pls[k].0 == i
}

pub open spec fn other_than(inc: Seq<usize>, lane: usize) -> spec_fn(int) -> bool {
    |j: int| inc[j] != lane
}

pub open spec fn open_lane(lanes: Seq<LaneSlot>, lane: usize, pls: Seq<(usize, u8)>) -> spec_fn(int) -> bool {
    |i: int| lanes[i] is None && i != lane && !claimed(pls, i)
}

/// Lane for a parent after the first: an incoming side lane, else a free lane
/// that no parent claimed yet, else a new lane at the end.
pub open spec fn side_lane_for(
    inc: Seq<usize>,
    lane: usize,
    pls: Seq<(usize, u8)>,
    lanes: Seq<LaneSlot>,
) -> (usize, Seq<LaneSlot>) {
    match first_in(inc.len() as int, other_than(inc, lane)) {
        Some(j) => (inc[j], lanes),
        None => match first_in(lanes.len() as int, open_lane(lanes, lane, pls)) {
            Some(i) => (i as usize, lanes),
            None => (lanes.len() as usize, lanes.push(None)),
        },
    }
}

/// The parent lanes chosen for the first `k` parents, with the lane list and
/// the color counter after them.
pub open spec fn parent_alloc(
    found: Seq<Option<usize>>,
    lane: usize,
    cc: u8,
    inc: Seq<usize>,
    lanes1: Seq<LaneSlot>,
    next: u8,
    k: int,
) -> (Seq<(usize, u8)>, Seq<LaneSlot>, u8)
    decreases k,
{
    if k <= 0 {
        (seq![], lanes1, next)
    } else {
        let (pls, lanes, nc) = parent_alloc(found, lane, cc, inc, lanes1, next, k - 1);
        if found[k - 1] is None {
            (pls, lanes, nc)
        } else if k - 1 == 0 {
            (pls.push((lane, cc)), lanes, nc)
        } else {
            let (pl, lanes2) = side_lane_for(inc, lane, pls, lanes);
            (pls.push((pl, nc % LANE_PALETTE_SIZE)), lanes2, bump(nc))
        }
    }
}

pub open spec fn seq_min(s: Seq<usize>) -> usize
    decreases s.len(),
{
    if s.len() == 0 {
        0
    } else if s.len() == 1 {
        s[0]
    } else {
        let m = seq_min(s.drop_last());
        if s.last() < m {
            s.last()
        } else {
            m
        }
    }
}

pub open spec fn seq_max(s: Seq<usize>) -> usize
    decreases s.len(),
{
    if s.len() == 0 {
        0
    } else if s.len() == 1 {
        s[0]
    } else {
        let m = seq_max(s.drop_last());
        if s.last() > m {
            s.last()
        } else {
            m
        }
    }
}

pub open spec fn positions(pls: Seq<(usize, u8)>) -> Seq<usize> {
    pls.map_values(|e: (usize, u8)| e.0)
}

/// Continuing pipes for active lanes that do not take part in this row.
pub open spec fn base_glyph(lanes1: Seq<LaneSlot>, lane: usize, inc: Seq<usize>, i: int) -> (char, u8) {
    if 0 <= i < lanes1.len() && lanes1[i] is Some && i != lane && !inc.contains(i as usize) {
        (PIPE, slot_color(lanes1[i], 0))
    } else {
        (EMPTY, 0)
    }
}

/// Side lanes that end in this commit join it with corners and tees.
pub open spec fn joined_glyph(lanes1: Seq<LaneSlot>, lane: usize, inc: Seq<usize>, cc: u8, i: int) -> (char, u8) {
    let g = base_glyph(lanes1, lane, inc, i);
    let lo = seq_min(inc);
    let hi = seq_max(inc);
    if inc.len() > 1 && lo <= i <= hi && i != lane {
        if inc.contains(i as usize) {
            (if i == hi || i == lo { CORNER_SW } else { TEE_W }, slot_color(lanes1[i], cc))
        } else if g.0 == EMPTY {
            (HORIZ, cc)
        } else {
            g
        }
    } else {
        g
    }
}

pub open spec fn on_lane(pls: Seq<(usize, u8)>, i: int) -> spec_fn(int) -> bool {
    |k: int| pls[k].0 == i
}

/// The color of the first parent arm on lane `i`.
pub open spec fn claim_color(pls: Seq<(usize, u8)>, i: int, cc: u8) -> u8 {
    match first_in(pls.len() as int, on_lane(pls, i)) {
        Some(k) => pls[k].1,
        None => cc,
    }
}

/// Merge arms from the commit out to the lanes of its further parents.
pub open spec fn arm_glyph(
    lanes1: Seq<LaneSlot>,
    lane: usize,
    inc: Seq<usize>,
    cc: u8,
    pls: Seq<(usize, u8)>,
    i: int,
) -> (char, u8) {
    let g = joined_glyph(lanes1, lane, inc, cc, i);
    let lo = seq_min(positions(pls));
    let hi = seq_max(positions(pls));
    if pls.len() > 1 && lo <= i <= hi && i != lane {
        if claimed(pls, i) {
            (CORNER_SE, claim_color(pls, i, cc))
        } else if g.0 == EMPTY || g.0 == PIPE {
            (HORIZ, cc)
        } else {
            g
        }
    } else {
        g
    }
}

pub open spec fn final_glyph(
    lanes1: Seq<LaneSlot>,
    lane: usize,
    inc: Seq<usize>,
    cc: u8,
    pls: Seq<(usize, u8)>,
    i: int,
) -> (char, u8) {
    if i == lane {
        (COMMIT, cc)
    } else {
        arm_glyph(lanes1, lane, inc, cc, pls, i)
    }
}

/// Glyphs that link to a horizontal neighbour.
pub open spec fn connects(ch: char) -> bool {
    ch == HORIZ || ch == CORNER_SE || ch == CORNER_SW || ch == TEE_E || ch == TEE_W || ch == COMMIT
}

pub open spec fn cell_of(g: (char, u8)) -> GraphCell {
    GraphCell { ch: g.0, color_idx: g.1 }
}

/// The cell between two lanes: a horizontal line when both sides link.
pub open spec fn spacer(a: char, b: char, cc: u8) -> GraphCell {
    if connects(a) && connects(b) {
        GraphCell { ch: HORIZ, color_idx: cc }
    } else {
        GraphCell { ch: EMPTY, color_idx: 0 }
    }
}

/// Glyph cells with a spacer cell between each two of them.
pub open spec fn raw_cells(gs: Seq<(char, u8)>, cc: u8) -> Seq<GraphCell> {
    Seq::new(
        if gs.len() == 0 { 0 } else { (2 * gs.len() - 1) as nat },
        |j: int|
            if j % 2 == 0 {
                cell_of(gs[j / 2])
            } else {
                spacer(gs[j / 2].0, gs[j / 2 + 1].0, cc)
            },
    )
}

/// Drops trailing blank cells.
pub open spec fn trim_blank(cs: Seq<GraphCell>) -> Seq<GraphCell>
    decreases cs.len(),
{
    if cs.len() > 0 && cs.last().ch == EMPTY {
        trim_blank(cs.drop_last())
    } else {
        cs
    }
}

/// The incoming lanes end here.
pub open spec fn cleared(lanes: Seq<LaneSlot>, inc: Seq<usize>) -> Seq<LaneSlot> {
    Seq::new(lanes.len(), |i: int| if inc.contains(i as usize) { None } else { lanes[i] })
}

/// The lanes of the first `k` parents start waiting for their commits.
///
/// Parent `k` takes the `k`-th chosen parent lane. Lanes are chosen only for
/// parents in the list, so after a missing parent the later parents take the
/// lane chosen for the parent after them, or none.
pub open spec fn activated(
    found: Seq<Option<usize>>,
    pls: Seq<(usize, u8)>,
    lanes: Seq<LaneSlot>,
    k: int,
) -> Seq<LaneSlot>
    decreases k,
{
    if k <= 0 {
        lanes
    } else {
        let l = activated(found, pls, lanes, k - 1);
        match found[k - 1] {
            Some(t) => if k - 1 < pls.len() && pls[k - 1].0 < l.len() {
                l.update(pls[k - 1].0 as int, Some((t, pls[k - 1].1)))
            } else {
                l
            },
            None => l,
        }
    }
}

/// Drops trailing free lanes.
pub open spec fn drop_free_tail(lanes: Seq<LaneSlot>) -> Seq<LaneSlot>
    decreases lanes.len(),
{
    if lanes.len() > 0 && lanes.last() is None {
        drop_free_tail(lanes.drop_last())
    } else {
        lanes
    }
}

/// The row's glyphs, one per lane.
pub open spec fn row_glyphs(
    lanes1: Seq<LaneSlot>,
    lanes2: Seq<LaneSlot>,
    lane: usize,
    inc: Seq<usize>,
    cc: u8,
    pls: Seq<(usize, u8)>,
) -> Seq<(char, u8)> {
    Seq::new(lanes2.len(), |i: int| final_glyph(lanes1, lane, inc, cc, pls, i))
}

/// One row of the walk: the cells drawn for commit `idx`, and the lanes and
/// color counter after it.
pub open spec fn layout_row(commits: Seq<CommitView>, idx: int, lanes: Seq<LaneSlot>, next: u8) -> (
    Seq<GraphCell>,
    Seq<LaneSlot>,
    u8,
) {
    let found = parent_targets(commits, commits[idx]);
    let (lane, inc, lanes1) = place(lanes, idx);
    let (cc, next1) = commit_color_of(lanes1, lane, next);
    let (pls, lanes2, next2) = parent_alloc(found, lane, cc, inc, lanes1, next1, found.len() as int);
    let gs = row_glyphs(lanes1, lanes2, lane, inc, cc, pls);
    let cells = trim_blank(raw_cells(gs, cc));
    let lanes3 = drop_free_tail(activated(found, pls, cleared(lanes2, inc), found.len() as int));
    (cells, lanes3, next2)
}

/// The rows of the first `k` commits, with the lanes and color counter after them.
pub open spec fn layout_upto(commits: Seq<CommitView>, k: int) -> (Seq<Seq<GraphCell>>, Seq<LaneSlot>, u8)
    decreases k,
{
    if k <= 0 {
        (seq![], seq![], 0)
    } else {
        let (rs, lanes, next) = layout_upto(commits, k - 1);
        let (cells, lanes2, next2) = layout_row(commits, k - 1, lanes, next);
        (rs.push(cells), lanes2, next2)
    }
}

/// The cells of every row.
pub open spec fn layout_cells(commits: Seq<CommitView>) -> Seq<Seq<GraphCell>> {
    layout_upto(commits, commits.len() as int).0
}

/// Row `r` shows commit `c` with graph cells `cells`.
pub open spec fn row_shows(r: GraphRow, c: CommitView, cells: Seq<GraphCell>) -> bool {
    &&& r.cells@ == cells
    &&& r.hash@ == c.hash
    &&& r.short_hash@ == prefix_of(c.hash, 7)
    &&& strs(r.refs@) == c.refs
    &&& r.subject@ == c.subject
    &&& r.author@ == c.author
    &&& r.timestamp == c.timestamp
}

/// `rows` show `commits`, one row each, with the cells of the lane walk.
pub open spec fn rows_show(rows: Seq<GraphRow>, commits: Seq<CommitView>) -> bool {
    &&& rows.len() == commits.len()
    &&& forall|i: int| 0 <= i < rows.len() ==> row_shows(#[trigger] rows[i], commits[i], layout_cells(commits)[i])
}

// ---------------------------------------------------------------------------
// Searches
// ---------------------------------------------------------------------------

/// Index of the last commit whose hash is `h`.
fn find_commit(commits: &[CommitNode], h: &String) -> (res: Option<usize>)
    ensures
        res == to_usize_opt(last_index_of(hashes(commit_views(commits@)), h@)),
{
    let ghost hs = hashes(commit_views(commits@));
    let mut i = commits.len();
    assert(hs.take(i as int) =~= hs);
    while i > 0
        invariant
            i <= commits@.len(),
            hs == hashes(commit_views(commits@)),
            last_index_of(hs, h@) == last_index_of(hs.take(i as int), h@),
        decreases i,
    {
        assert(hs.take(i as int).drop_last() =~= hs.take(i - 1));
        if commits[i - 1].hash == *h {
            return Some(i - 1);
        }
        i -= 1;
    }
    None
}

/// The commit index of each parent of `c`, if it is in the list.
fn find_parents(commits: &[CommitNode], c: &CommitNode) -> (res: Vec<Option<usize>>)
    ensures
        res@ == parent_targets(commit_views(commits@), c@),
{
    let mut out: Vec<Option<usize>> = Vec::new();
    let mut k: usize = 0;
    while k < c.parents.len()
        invariant
            k <= c.parents@.len(),
            out@.len() == k,
            forall|j: int| 0 <= j < k ==> out@[j] == #[trigger] parent_targets(commit_views(commits@), c@)[j],
        decreases c.parents@.len() - k,
    {
        let t = find_commit(commits, &c.parents[k]);
        out.push(t);
        k += 1;
    }
    assert(out@ =~= parent_targets(commit_views(commits@), c@));
    out
}

/// The lanes that wait for commit `idx`, in order.
fn incoming_lanes(lanes: &Vec<LaneSlot>, idx: usize) -> (res: Vec<usize>)
    ensures
        res@ == incoming_prefix(lanes@, idx as int, lanes@.len() as int),
{
    let mut out: Vec<usize> = Vec::new();
    let mut i: usize = 0;
    while i < lanes.len()
        invariant
            i <= lanes@.len(),
            out@ == incoming_prefix(lanes@, idx as int, i as int),
        decreases lanes@.len() - i,
    {
        match lanes[i] {
            Some((t, _)) => {
                if t == idx {
                    out.push(i);
                }
            },
            None => {},
        }
        i += 1;
    }
    out
}

/// The first free lane.
fn first_free(lanes: &Vec<LaneSlot>) -> (res: Option<usize>)
    ensures
        res == to_usize_opt(first_in(lanes@.len() as int, free_at(lanes@))),
{
    let mut i: usize = 0;
    while i < lanes.len()
        invariant
            i <= lanes@.len(),
            first_in(i as int, free_at(lanes@)) is None,
        decreases lanes@.len() - i,
    {
        if lanes[i].is_none() {
            proof {
                lemma_first_in_hit(i as int, free_at(lanes@));
                lemma_first_in_rest(i + 1, lanes@.len() as int, free_at(lanes@));
            }
            return Some(i);
        }
        proof { lemma_first_in_miss(i as int, free_at(lanes@)); }
        i += 1;
    }
    None
}


/// Whether a parent arm already uses lane `i`.
fn is_claimed(pls: &Vec<(usize, u8)>, i: usize) -> (res: bool)
    ensures
        res == claimed(pls@, i as int),
{
    let mut k: usize = 0;
    while k < pls.len()
        invariant
            k <= pls@.len(),
            forall|j: int| 0 <= j < k ==> pls@[j].0 != i,
        decreases pls@.len() - k,
    {
        if pls[k].0 == i {
            return true;
        }
        k += 1;
    }
    false
}

/// Lane for a parent after the first (see `side_lane_for`).
fn side_lane(inc: &Vec<usize>, lane: usize, pls: &Vec<(usize, u8)>, lanes: &mut Vec<LaneSlot>) -> (res: usize)
    ensures
        (res, final(lanes)@) == side_lane_for(inc@, lane, pls@, old(lanes)@),
{
    let mut j: usize = 0;
    while j < inc.len()
        invariant
            j <= inc@.len(),
            first_in(j as int, other_than(inc@, lane)) is None,
        decreases inc@.len() - j,
    {
        if inc[j] != lane {
            proof {
                lemma_first_in_hit(j as int, other_than(inc@, lane));
                lemma_first_in_rest(j + 1, inc@.len() as int, other_than(inc@, lane));
            }
            return inc[j];
        }
        proof { lemma_first_in_miss(j as int, other_than(inc@, lane)); }
        j += 1;
    }
    let ghost l0 = lanes@;
    let mut i: usize = 0;
    while i < lanes.len()
        invariant
            lanes@ == l0,
            i <= lanes@.len(),
            first_in(inc@.len() as int, other_than(inc@, lane)) is None,
            first_in(i as int, open_lane(l0, lane, pls@)) is None,
        decreases lanes@.len() - i,
    {
        if lanes[i].is_none() && i != lane && !is_claimed(pls, i) {
            proof {
                lemma_first_in_hit(i as int, open_lane(l0, lane, pls@));
                lemma_first_in_rest(i + 1, l0.len() as int, open_lane(l0, lane, pls@));
            }
            return i;
        }
        proof { lemma_first_in_miss(i as int, open_lane(l0, lane, pls@)); }
        i += 1;
    }
    lanes.push(None);
    lanes.len() - 1
}

/// The next palette color, advancing the counter.
fn alloc_color(next: &mut u8) -> (c: u8)
    ensures
        c == old(next) % LANE_PALETTE_SIZE,
        *final(next) == bump(*old(next)),
{
    let c = *next % LANE_PALETTE_SIZE;
    *next = if *next == 255 { 0 } else { *next + 1 };
    c
}

/// Chooses a lane for each parent that is in the list (see `parent_alloc`).
fn allocate_parents(
    found: &Vec<Option<usize>>,
    lane: usize,
    cc: u8,
    inc: &Vec<usize>,
    lanes: &mut Vec<LaneSlot>,
    next: &mut u8,
) -> (pls: Vec<(usize, u8)>)
    ensures
        (pls@, final(lanes)@, *final(next)) == parent_alloc(
            found@, lane, cc, inc@, old(lanes)@, *old(next), found@.len() as int),
{
    let mut pls: Vec<(usize, u8)> = Vec::new();
    let mut k: usize = 0;
    while k < found.len()
        invariant
            k <= found@.len(),
            (pls@, lanes@, *next) == parent_alloc(found@, lane, cc, inc@, old(lanes)@, *old(next), k as int),
        decreases found@.len() - k,
    {
        if found[k].is_some() {
            if k == 0 {
                pls.push((lane, cc));
            } else {
                let pl = side_lane(inc, lane, &pls, lanes);
                let color = alloc_color(next);
                pls.push((pl, color));
            }
        }
        k += 1;
    }
    pls
}

// ---------------------------------------------------------------------------
// Facts about the stages
// ---------------------------------------------------------------------------

/// A position below `n`, taken as a `usize`, stays below `n`.
pub(crate) proof fn lemma_cast_below(x: int, n: int)
    requires
        0 <= x < n,
    ensures
        (x as usize) < n,
{
    if x > usize::MAX {
        assert((x as usize) <= usize::MAX);
    }
}

pub(crate) proof fn lemma_incoming_bounds(lanes: Seq<LaneSlot>, idx: int, n: int)
    requires
        0 <= n <= lanes.len(),
    ensures
        forall|k: int|
            0 <= k < incoming_prefix(lanes, idx, n).len() ==> #[trigger] incoming_prefix(lanes, idx, n)[k] < n,
    decreases n,
{
    if n > 0 {
        lemma_incoming_bounds(lanes, idx, n - 1);
        let r = incoming_prefix(lanes, idx, n - 1);
        let s = incoming_prefix(lanes, idx, n);
        lemma_cast_below(n - 1, n);
        assert forall|k: int| 0 <= k < s.len() implies s[k] < n by {
            if k < r.len() {
                assert(s[k] == r[k]);
            }
        }
    }
}

/// The commit's lane and its incoming lanes lie within the lane list, which
/// keeps every lane it had.
pub(crate) proof fn lemma_place(lanes: Seq<LaneSlot>, idx: int)
    ensures
        ({
            let (lane, inc, lanes1) = place(lanes, idx);
            &&& lane < lanes1.len()
            &&& inc.len() >= 1
            &&& inc[0] == lane
            &&& forall|k: int| 0 <= k < inc.len() ==> #[trigger] inc[k] < lanes1.len()
            &&& lanes1.len() >= lanes.len()
            &&& forall|i: int| 0 <= i < lanes.len() ==> #[trigger] lanes1[i] == lanes[i]
        }),
{
    lemma_incoming_bounds(lanes, idx, lanes.len() as int);
    lemma_first_in_bounds(lanes.len() as int, free_at(lanes));
    lemma_cast_below(lanes.len() as int, lanes.len() + 1int);
    match first_in(lanes.len() as int, free_at(lanes)) {
        Some(f) => lemma_cast_below(f, lanes.len() as int),
        None => {},
    }
}

/// The parent lanes lie within the lane list, which keeps every lane it had.
pub(crate) proof fn lemma_parent_alloc(
    found: Seq<Option<usize>>,
    lane: usize,
    cc: u8,
    inc: Seq<usize>,
    lanes1: Seq<LaneSlot>,
    next: u8,
    k: int,
)
    requires
        0 <= k,
        lane < lanes1.len(),
        forall|j: int| 0 <= j < inc.len() ==> #[trigger] inc[j] < lanes1.len(),
    ensures
        ({
            let (pls, lanes2, nc) = parent_alloc(found, lane, cc, inc, lanes1, next, k);
            &&& lanes2.len() >= lanes1.len()
            &&& forall|i: int| 0 <= i < lanes1.len() ==> #[trigger] lanes2[i] == lanes1[i]
            &&& forall|j: int| 0 <= j < pls.len() ==> #[trigger] pls[j].0 < lanes2.len()
            &&& pls.len() <= k
        }),
    decreases k,
{
    if k > 0 {
        lemma_parent_alloc(found, lane, cc, inc, lanes1, next, k - 1);
        let (pls, lanes, nc) = parent_alloc(found, lane, cc, inc, lanes1, next, k - 1);
        lemma_first_in_bounds(inc.len() as int, other_than(inc, lane));
        lemma_first_in_bounds(lanes.len() as int, open_lane(lanes, lane, pls));
        if found[k - 1] is None {
        } else if k - 1 == 0 {
            let np = pls.push((lane, cc));
            assert forall|j: int| 0 <= j < np.len() implies #[trigger] np[j].0 < lanes.len() by {
                if j < pls.len() {
                    assert(np[j] == pls[j]);
                }
            }
        } else {
            let (pl, lanes2) = side_lane_for(inc, lane, pls, lanes);
            lemma_cast_below(lanes.len() as int, lanes.len() + 1int);
            match first_in(lanes.len() as int, open_lane(lanes, lane, pls)) {
                Some(i) => lemma_cast_below(i, lanes.len() as int),
                None => {},
            }
            assert(pl < lanes2.len());
            assert(lanes2.len() >= lanes.len());
            assert forall|i: int| 0 <= i < lanes.len() implies #[trigger] lanes2[i] == lanes[i] by {}
            let np = pls.push((pl, nc % LANE_PALETTE_SIZE));
            assert forall|j: int| 0 <= j < np.len() implies #[trigger] np[j].0 < lanes2.len() by {
                if j < pls.len() {
                    assert(np[j] == pls[j]);
                }
            }
        }
    }
}

proof fn lemma_min_max_bounds(s: Seq<usize>, n: int)
    requires
        s.len() > 0,
        forall|k: int| 0 <= k < s.len() ==> #[trigger] s[k] < n,
    ensures
        seq_min(s) < n,
        seq_max(s) < n,
        seq_min(s) <= seq_max(s),
    decreases s.len(),
{
    if s.len() > 1 {
        lemma_min_max_bounds(s.drop_last(), n);
    }
}

/// Past the incoming lanes, the joined glyphs are blank.
proof fn lemma_joined_past_end(lanes1: Seq<LaneSlot>, lane: usize, inc: Seq<usize>, cc: u8, i: int)
    requires
        i >= lanes1.len(),
        forall|k: int| 0 <= k < inc.len() ==> #[trigger] inc[k] < lanes1.len(),
    ensures
        joined_glyph(lanes1, lane, inc, cc, i) == (EMPTY, 0u8),
{
    if inc.len() > 1 {
        lemma_min_max_bounds(inc, lanes1.len() as int);
    }
}

// ---------------------------------------------------------------------------
// Glyph stages
// ---------------------------------------------------------------------------

fn contains_lane(v: &Vec<usize>, x: usize) -> (res: bool)
    ensures
        res == v@.contains(x),
{
    let mut k: usize = 0;
    while k < v.len()
        invariant
            k <= v@.len(),
            forall|j: int| 0 <= j < k ==> v@[j] != x,
        decreases v@.len() - k,
    {
        if v[k] == x {
            return true;
        }
        k += 1;
    }
    false
}

/// Smallest and largest element of a non-empty list.
fn min_max(s: &Vec<usize>) -> (res: (usize, usize))
    requires
        s@.len() > 0,
    ensures
        res.0 == seq_min(s@),
        res.1 == seq_max(s@),
{
    let mut lo = s[0];
    let mut hi = s[0];
    let mut k: usize = 1;
    assert(s@.take(1).drop_last() =~= Seq::<usize>::empty());
    while k < s.len()
        invariant
            1 <= k <= s@.len(),
            lo == seq_min(s@.take(k as int)),
            hi == seq_max(s@.take(k as int)),
        decreases s@.len() - k,
    {
        assert(s@.take(k + 1).drop_last() =~= s@.take(k as int));
        if s[k] < lo {
            lo = s[k];
        }
        if s[k] > hi {
            hi = s[k];
        }
        k += 1;
    }
    assert(s@.take(k as int) =~= s@);
    (lo, hi)
}

/// Continuing pipes (see `base_glyph`).
fn base_glyphs(lanes: &Vec<LaneSlot>, lane: usize, inc: &Vec<usize>) -> (gs: Vec<(char, u8)>)
    ensures
        gs@.len() == lanes@.len(),
        forall|i: int| 0 <= i < gs@.len() ==> gs@[i] == base_glyph(lanes@, lane, inc@, i),
{
    let mut gs: Vec<(char, u8)> = Vec::new();
    let mut i: usize = 0;
    while i < lanes.len()
        invariant
            i <= lanes@.len(),
            gs@.len() == i,
            forall|j: int| 0 <= j < i ==> gs@[j] == base_glyph(lanes@, lane, inc@, j),
        decreases lanes@.len() - i,
    {
        let g = match lanes[i] {
            Some((_, color)) => if i != lane && !contains_lane(inc, i) {
                (PIPE, color)
            } else {
                (EMPTY, 0u8)
            },
            None => (EMPTY, 0u8),
        };
        gs.push(g);
        i += 1;
    }
    gs
}

/// Joins side lanes that also end in this commit into its lane (see `joined_glyph`).
fn apply_join(gs: &mut Vec<(char, u8)>, lanes: &Vec<LaneSlot>, lane: usize, inc: &Vec<usize>, cc: u8)
    requires
        old(gs)@.len() == lanes@.len(),
        forall|i: int| 0 <= i < old(gs)@.len() ==> old(gs)@[i] == base_glyph(lanes@, lane, inc@, i),
    ensures
        final(gs)@.len() == lanes@.len(),
        forall|i: int| 0 <= i < final(gs)@.len() ==> final(gs)@[i] == joined_glyph(lanes@, lane, inc@, cc, i),
{
    if inc.len() > 1 {
        let (lo, hi) = min_max(inc);
        let mut i = lo;
        while i <= hi && i < gs.len()
            invariant
                lo <= i,
                lo == seq_min(inc@),
                hi == seq_max(inc@),
                inc@.len() > 1,
                gs@.len() == lanes@.len(),
                forall|j: int|
                    0 <= j < gs@.len() ==> gs@[j] == if lo <= j < i {
                        joined_glyph(lanes@, lane, inc@, cc, j)
                    } else {
                        base_glyph(lanes@, lane, inc@, j)
                    },
            decreases gs@.len() - i,
        {
            if i != lane {
                if contains_lane(inc, i) {
                    let side = match lanes[i] {
                        Some((_, c)) => c,
                        None => cc,
                    };
                    let ch = if i == hi || i == lo { CORNER_SW } else { TEE_W };
                    gs.set(i, (ch, side));
                } else if gs[i].0 == EMPTY {
                    gs.set(i, (HORIZ, cc));
                }
            }
            i += 1;
        }
    }
}

/// The color of the first parent arm on lane `i` (see `claim_color`).
fn arm_color(pls: &Vec<(usize, u8)>, i: usize, cc: u8) -> (res: u8)
    ensures
        res == claim_color(pls@, i as int, cc),
{
    let mut k: usize = 0;
    while k < pls.len()
        invariant
            k <= pls@.len(),
            first_in(k as int, on_lane(pls@, i as int)) is None,
        decreases pls@.len() - k,
    {
        if pls[k].0 == i {
            proof {
                lemma_first_in_hit(k as int, on_lane(pls@, i as int));
                lemma_first_in_rest(k + 1, pls@.len() as int, on_lane(pls@, i as int));
            }
            return pls[k].1;
        }
        proof { lemma_first_in_miss(k as int, on_lane(pls@, i as int)); }
        k += 1;
    }
    cc
}

/// Draws the merge arms out to the further parents (see `arm_glyph`).
fn apply_arms(
    gs: &mut Vec<(char, u8)>,
    lanes1: Ghost<Seq<LaneSlot>>,
    lane: usize,
    inc: Ghost<Seq<usize>>,
    cc: u8,
    pls: &Vec<(usize, u8)>,
)
    requires
        forall|i: int| 0 <= i < old(gs)@.len() ==> old(gs)@[i] == joined_glyph(lanes1@, lane, inc@, cc, i),
    ensures
        final(gs)@.len() == old(gs)@.len(),
        forall|i: int|
            0 <= i < final(gs)@.len() ==> final(gs)@[i] == arm_glyph(lanes1@, lane, inc@, cc, pls@, i),
{
    if pls.len() > 1 {
        let mut ps: Vec<usize> = Vec::new();
        let mut k: usize = 0;
        while k < pls.len()
            invariant
                k <= pls@.len(),
                ps@ == positions(pls@).take(k as int),
            decreases pls@.len() - k,
        {
            ps.push(pls[k].0);
            assert(positions(pls@).take(k + 1) =~= positions(pls@).take(k as int).push(pls@[k as int].0));
            k += 1;
        }
        assert(positions(pls@).take(k as int) =~= positions(pls@));
        let (lo, hi) = min_max(&ps);
        let ghost g0 = gs@;
        let mut i = lo;
        while i <= hi && i < gs.len()
            invariant
                lo <= i,
                lo == seq_min(positions(pls@)),
                hi == seq_max(positions(pls@)),
                pls@.len() > 1,
                gs@.len() == g0.len(),
                forall|j: int| 0 <= j < g0.len() ==> g0[j] == joined_glyph(lanes1@, lane, inc@, cc, j),
                forall|j: int|
                    0 <= j < gs@.len() ==> gs@[j] == if lo <= j < i {
                        arm_glyph(lanes1@, lane, inc@, cc, pls@, j)
                    } else {
                        joined_glyph(lanes1@, lane, inc@, cc, j)
                    },
            decreases gs@.len() - i,
        {
            if i != lane {
                if is_claimed(pls, i) {
                    let color = arm_color(pls, i, cc);
                    gs.set(i, (CORNER_SE, color));
                } else if gs[i].0 == EMPTY || gs[i].0 == PIPE {
                    gs.set(i, (HORIZ, cc));
                }
            }
            i += 1;
        }
    }
}

fn connects_horiz(ch: char) -> (res: bool)
    ensures
        res == connects(ch),
{
    ch == HORIZ || ch == CORNER_SE || ch == CORNER_SW || ch == TEE_E || ch == TEE_W || ch == COMMIT
}

/// Lays the glyphs out as cells, spacers between lanes, without trailing blanks.
fn build_cells(gs: &Vec<(char, u8)>, cc: u8) -> (cells: Vec<GraphCell>)
    ensures
        cells@ == trim_blank(raw_cells(gs@, cc)),
{
    let ghost raw = raw_cells(gs@, cc);
    let mut cells: Vec<GraphCell> = Vec::new();
    let mut i: usize = 0;
    while i < gs.len()
        invariant
            raw == raw_cells(gs@, cc),
            i <= gs@.len(),
            cells@.len() == if i == 0 { 0 } else { 2 * i - 1 },
            forall|j: int| 0 <= j < cells@.len() ==> cells@[j] == raw[j],
        decreases gs@.len() - i,
    {
        if i > 0 {
            let a = gs[i - 1].0;
            let b = gs[i].0;
            let sp = if connects_horiz(a) && connects_horiz(b) {
                GraphCell::new(HORIZ, cc)
            } else {
                GraphCell::empty()
            };
            assert((2 * i - 1) % 2 == 1 && (2 * i - 1) / 2 == i - 1) by (nonlinear_arith)
                requires i > 0;
            cells.push(sp);
        }
        assert((2 * i) % 2 == 0 && (2 * i) / 2 == i) by (nonlinear_arith);
        cells.push(GraphCell::new(gs[i].0, gs[i].1));
        i += 1;
    }
    assert(cells@ =~= raw);
    while cells.len() > 0 && cells[cells.len() - 1].ch == EMPTY
        invariant
            trim_blank(cells@) == trim_blank(raw),
        decreases cells@.len(),
    {
        cells.pop();
    }
    cells
}

/// The incoming lanes end, the parent lanes start, and trailing free lanes go.
fn advance_lanes(
    lanes: &mut Vec<LaneSlot>,
    inc: &Vec<usize>,
    found: &Vec<Option<usize>>,
    pls: &Vec<(usize, u8)>,
)
    ensures
        final(lanes)@ == drop_free_tail(
            activated(found@, pls@, cleared(old(lanes)@, inc@), found@.len() as int),
        ),
{
    let ghost l0 = lanes@;
    let mut k: usize = 0;
    while k < inc.len()
        invariant
            k <= inc@.len(),
            lanes@.len() == l0.len(),
            forall|j: int|
                0 <= j < l0.len() ==> lanes@[j] == if (exists|m: int| 0 <= m < k && inc@[m] == j) {
                    None
                } else {
                    l0[j]
                },
        decreases inc@.len() - k,
    {
        let i = inc[k];
        if i < lanes.len() {
            lanes.set(i, None);
        }
        proof {
            assert forall|j: int| 0 <= j < l0.len() implies lanes@[j] == if (exists|m: int|
                0 <= m < k + 1 && inc@[m] == j) {
                None
            } else {
                l0[j]
            } by {
                if j == i {
                    assert(inc@[k as int] == j);
                } else if (exists|m: int| 0 <= m < k + 1 && inc@[m] == j) {
                    let m = choose|m: int| 0 <= m < k + 1 && inc@[m] == j;
                    assert(m < k);
                }
            }
        }
        k += 1;
    }
    let ghost c0 = cleared(l0, inc@);
    let len = lanes.len();
    assert forall|j: int| 0 <= j < l0.len() implies lanes@[j] == c0[j] by {
        assert(j < len);
        if inc@.contains(j as usize) {
            let m = choose|m: int| 0 <= m < inc@.len() && inc@[m] == j as usize;
            assert(inc@[m] == j);
        }
        if (exists|m: int| 0 <= m < inc@.len() && inc@[m] == j) {
            let m = choose|m: int| 0 <= m < inc@.len() && inc@[m] == j;
            assert(inc@[m] == j as usize);
        }
    }
    assert(lanes@ =~= c0);
    let mut p: usize = 0;
    while p < found.len()
        invariant
            p <= found@.len(),
            lanes@ == activated(found@, pls@, c0, p as int),
        decreases found@.len() - p,
    {
        match found[p] {
            Some(t) => {
                if p < pls.len() {
                    let (pl, color) = pls[p];
                    if pl < lanes.len() {
                        lanes.set(pl, Some((t, color)));
                    }
                }
            },
            None => {},
        }
        p += 1;
    }
    let ghost a0 = lanes@;
    while lanes.len() > 0 && lanes[lanes.len() - 1].is_none()
        invariant
            drop_free_tail(lanes@) == drop_free_tail(a0),
        decreases lanes@.len(),
    {
        lanes.pop();
    }
}

/// Draws commit `idx` and advances the lanes and the color counter (see `layout_row`).
fn layout_row_exec(commits: &[CommitNode], idx: usize, lanes: &mut Vec<LaneSlot>, next: &mut u8) -> (cells: Vec<
    GraphCell,
>)
    requires
        idx < commits@.len(),
    ensures
        (cells@, final(lanes)@, *final(next)) == layout_row(
            commit_views(commits@),
            idx as int,
            old(lanes)@,
            *old(next),
        ),
{
    let commit = &commits[idx];
    let found = find_parents(commits, commit);
    proof { lemma_place(old(lanes)@, idx as int); }
    let mut incoming = incoming_lanes(lanes, idx);
    let lane: usize;
    if incoming.len() > 0 {
        lane = incoming[0];
    } else {
        let free = match first_free(lanes) {
            Some(f) => f,
            None => {
                lanes.push(None);
                lanes.len() - 1
            },
        };
        incoming.push(free);
        lane = free;
    }
    assert(incoming@.len() == 1 ==> incoming@ =~= seq![incoming@[0]]);
    let ghost lanes1 = lanes@;
    assert((lane, incoming@, lanes1) == place(old(lanes)@, idx as int));
    let cc = match lanes[lane] {
        Some((_, c)) => c,
        None => alloc_color(next),
    };
    let ghost next1 = *next;
    let mut glyphs = base_glyphs(lanes, lane, &incoming);
    apply_join(&mut glyphs, lanes, lane, &incoming, cc);
    let pls = allocate_parents(&found, lane, cc, &incoming, lanes, next);
    proof {
        lemma_parent_alloc(found@, lane, cc, incoming@, lanes1, next1, found@.len() as int);
    }
    while glyphs.len() < lanes.len()
        invariant
            lanes1.len() <= glyphs@.len() <= lanes@.len(),
            forall|k: int| 0 <= k < incoming@.len() ==> #[trigger] incoming@[k] < lanes1.len(),
            forall|j: int| 0 <= j < glyphs@.len() ==> glyphs@[j] == joined_glyph(lanes1, lane, incoming@, cc, j),
        decreases lanes@.len() - glyphs@.len(),
    {
        proof { lemma_joined_past_end(lanes1, lane, incoming@, cc, glyphs@.len() as int); }
        glyphs.push((EMPTY, 0u8));
    }
    apply_arms(&mut glyphs, Ghost(lanes1), lane, Ghost(incoming@), cc, &pls);
    glyphs.set(lane, (COMMIT, cc));
    assert(glyphs@ =~= row_glyphs(lanes1, lanes@, lane, incoming@, cc, pls@));
    let cells = build_cells(&glyphs, cc);
    advance_lanes(lanes, &incoming, &found, &pls);
    cells
}

/// Lays out `commits` (newest first, parents after children) as graph rows.
///
/// Row `i` shows commit `i`: its graph cells are the ones of the lane walk
/// (`layout_cells`), and it carries the commit's hash, its first seven
/// characters, refs, subject, author and timestamp.
pub fn layout_graph(commits: &[CommitNode]) -> (rows: Vec<GraphRow>)
    ensures
        rows_show(rows@, commit_views(commits@)),
{
    let ghost cv = commit_views(commits@);
    let mut rows: Vec<GraphRow> = Vec::new();
    let mut lanes: Vec<LaneSlot> = Vec::new();
    let mut next: u8 = 0;
    let mut idx: usize = 0;
    while idx < commits.len()
        invariant
            idx <= commits@.len(),
            rows@.len() == idx,
            cv == commit_views(commits@),
            layout_upto(cv, idx as int).0.len() == idx,
            layout_upto(cv, idx as int).1 == lanes@,
            layout_upto(cv, idx as int).2 == next,
            forall|i: int|
                0 <= i < idx ==> row_shows(#[trigger] rows@[i], cv[i], layout_upto(cv, idx as int).0[i]),
        decreases commits@.len() - idx,
    {
        let ghost before = layout_upto(cv, idx as int);
        let cells = layout_row_exec(commits, idx, &mut lanes, &mut next);
        let commit = &commits[idx];
        let row = GraphRow {
            cells,
            short_hash: take_chars(commit.hash.as_str(), 7),
            refs: commit.refs.clone(),
            subject: commit.subject.clone(),
            author: commit.author.clone(),
            timestamp: commit.timestamp,
            hash: commit.hash.clone(),
        };
        assert(strs(row.refs@) =~= strs(commit.refs@));
        rows.push(row);
        proof {
            let after = layout_upto(cv, idx + 1);
            assert(after.0 == before.0.push(cells@));
            assert forall|i: int| 0 <= i < idx + 1 implies row_shows(#[trigger] rows@[i], cv[i], after.0[i]) by {
                if i < idx {
                    assert(after.0[i] == before.0[i]);
                }
            }
        }
        idx += 1;
    }
    rows
}

} // verus!
