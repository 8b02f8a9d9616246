//! Properties of the lane layout, proved over its specification.
use super::layout::{
    commit_color_of, layout_cells, layout_row, layout_upto, lemma_parent_alloc, lemma_place, parent_alloc,
    parent_targets, place, raw_cells, row_glyphs, trim_blank, final_glyph, LaneSlot, COMMIT, EMPTY,
    activated, cleared, drop_free_tail, claim_color, on_lane, side_lane_for,
    LANE_PALETTE_SIZE, hashes, last_index_of, incoming_prefix, waits_for, other_than, open_lane,
    claimed, connects, positions, seq_max, seq_min, CORNER_SE, HORIZ,
};
use crate::search::{first_in, lemma_first_in_bounds};
use super::model::{CommitView, GraphCell};
use vstd::prelude::*;

verus! {

/// A row holds exactly one commit glyph.
pub open spec fn one_commit_glyph(cells: Seq<GraphCell>) -> bool {
    exists|j: int|
        0 <= j < cells.len() && cells[j].ch == COMMIT && (forall|k: int|
            0 <= k < cells.len() && k != j ==> cells[k].ch != COMMIT)
}

/// Trimming blanks keeps a prefix that reaches past every non-blank cell.
proof fn lemma_trim_blank(s: Seq<GraphCell>)
    ensures
        trim_blank(s).len() <= s.len(),
        trim_blank(s) == s.take(trim_blank(s).len() as int),
        forall|j: int| 0 <= j < s.len() && s[j].ch != EMPTY ==> j < trim_blank(s).len(),
    decreases s.len(),
{
    if s.len() > 0 && s.last().ch == EMPTY {
        lemma_trim_blank(s.drop_last());
        let t = trim_blank(s.drop_last());
        assert(s.drop_last().take(t.len() as int) =~= s.take(t.len() as int));
        assert forall|j: int| 0 <= j < s.len() && s[j].ch != EMPTY implies j < t.len() by {
            assert(s.drop_last()[j] == s[j]);
        }
    } else {
        assert(s.take(s.len() as int) =~= s);
    }
}

/// Off the commit's lane, no stage draws a commit glyph.
proof fn lemma_no_commit_off_lane(
    lanes1: Seq<LaneSlot>,
    lane: usize,
    inc: Seq<usize>,
    cc: u8,
    pls: Seq<(usize, u8)>,
    i: int,
)
    requires
        i != lane,
    ensures
        final_glyph(lanes1, lane, inc, cc, pls, i).0 != COMMIT,
{
}

proof fn lemma_row_one_commit(commits: Seq<CommitView>, idx: int, lanes: Seq<LaneSlot>, next: u8)
    requires
        0 <= idx < commits.len(),
    ensures
        one_commit_glyph(layout_row(commits, idx, lanes, next).0),
{
    let found = parent_targets(commits, commits[idx]);
    let (lane, inc, lanes1) = place(lanes, idx);
    lemma_place(lanes, idx);
    let (cc, next1) = commit_color_of(lanes1, lane, next);
    let (pls, lanes2, next2) = parent_alloc(found, lane, cc, inc, lanes1, next1, found.len() as int);
    lemma_parent_alloc(found, lane, cc, inc, lanes1, next1, found.len() as int);
    let gs = row_glyphs(lanes1, lanes2, lane, inc, cc, pls);
    let raw = raw_cells(gs, cc);
    let j = 2 * lane;
    assert(j % 2 == 0 && j / 2 == lane) by (nonlinear_arith)
        requires
            j == 2 * lane,
    ;
    assert(raw[j].ch == COMMIT);
    assert forall|k: int| 0 <= k < raw.len() && k != j implies raw[k].ch != COMMIT by {
        if k % 2 == 0 {
            assert(k / 2 != lane) by (nonlinear_arith)
                requires
                    k % 2 == 0,
                    k != j,
                    j == 2 * lane,
            ;
            lemma_no_commit_off_lane(lanes1, lane, inc, cc, pls, k / 2);
        }
    }
    lemma_trim_blank(raw);
    let t = trim_blank(raw);
    assert(j < t.len());
    assert forall|k: int| 0 <= k < t.len() && k != j implies t[k].ch != COMMIT by {
        assert(t[k] == raw[k]);
    }
    assert(t[j] == raw[j]);
}

proof fn lemma_upto_rows(commits: Seq<CommitView>, k: int)
    requires
        0 <= k <= commits.len(),
    ensures
        layout_upto(commits, k).0.len() == k,
        forall|i: int| 0 <= i < k ==> #[trigger] one_commit_glyph(layout_upto(commits, k).0[i]),
    decreases k,
{
    if k > 0 {
        lemma_upto_rows(commits, k - 1);
        let (rs, lanes, next) = layout_upto(commits, k - 1);
        lemma_row_one_commit(commits, k - 1, lanes, next);
        let rs2 = layout_upto(commits, k).0;
        assert forall|i: int| 0 <= i < k implies #[trigger] one_commit_glyph(rs2[i]) by {
            if i < k - 1 {
                assert(rs2[i] == rs[i]);
            }
        }
    }
}

/// Every drawn row carries exactly one commit glyph.
pub proof fn law_one_commit_glyph_per_row(commits: Seq<CommitView>, i: int)
    requires
        0 <= i < commits.len(),
    ensures
        layout_cells(commits).len() == commits.len(),
        one_commit_glyph(layout_cells(commits)[i]),
{
    lemma_upto_rows(commits, commits.len() as int);
}

/// Every active lane carries a palette color.
pub open spec fn lanes_in_palette(lanes: Seq<LaneSlot>) -> bool {
    forall|i: int|
        0 <= i < lanes.len() ==> match #[trigger] lanes[i] {
            Some((_, c)) => c < LANE_PALETTE_SIZE,
            None => true,
        }
}

proof fn lemma_alloc_palette(
    found: Seq<Option<usize>>,
    lane: usize,
    cc: u8,
    inc: Seq<usize>,
    lanes1: Seq<LaneSlot>,
    next: u8,
    k: int,
)
    requires
        cc < LANE_PALETTE_SIZE,
        lanes_in_palette(lanes1),
    ensures
        ({
            let (pls, lanes2, nc) = parent_alloc(found, lane, cc, inc, lanes1, next, k);
            &&& lanes_in_palette(lanes2)
            &&& forall|j: int| 0 <= j < pls.len() ==> #[trigger] pls[j].1 < LANE_PALETTE_SIZE
        }),
    decreases k,
{
    if k > 0 {
        lemma_alloc_palette(found, lane, cc, inc, lanes1, next, k - 1);
        let (pls, lanes, nc) = parent_alloc(found, lane, cc, inc, lanes1, next, k - 1);
        if found[k - 1] is None {
        } else if k - 1 == 0 {
            let np = pls.push((lane, cc));
            assert forall|j: int| 0 <= j < np.len() implies #[trigger] np[j].1 < LANE_PALETTE_SIZE by {
                if j < pls.len() {
                    assert(np[j] == pls[j]);
                }
            }
        } else {
            let (pl, lanes2) = side_lane_for(inc, lane, pls, lanes);
            assert(lanes_in_palette(lanes2)) by {
                assert forall|i: int| 0 <= i < lanes2.len() implies match #[trigger] lanes2[i] {
                    Some((_, c)) => c < LANE_PALETTE_SIZE,
                    None => true,
                } by {
                    if i < lanes.len() {
                        assert(lanes2[i] == lanes[i]);
                    }
                }
            }
            let np = pls.push((pl, nc % LANE_PALETTE_SIZE));
            assert forall|j: int| 0 <= j < np.len() implies #[trigger] np[j].1 < LANE_PALETTE_SIZE by {
                if j < pls.len() {
                    assert(np[j] == pls[j]);
                }
            }
        }
    }
}

proof fn lemma_activated_palette(
    found: Seq<Option<usize>>,
    pls: Seq<(usize, u8)>,
    lanes: Seq<LaneSlot>,
    k: int,
)
    requires
        lanes_in_palette(lanes),
        forall|j: int| 0 <= j < pls.len() ==> #[trigger] pls[j].1 < LANE_PALETTE_SIZE,
    ensures
        lanes_in_palette(activated(found, pls, lanes, k)),
        activated(found, pls, lanes, k).len() == lanes.len(),
    decreases k,
{
    if k > 0 {
        lemma_activated_palette(found, pls, lanes, k - 1);
        let l = activated(found, pls, lanes, k - 1);
        let l2 = activated(found, pls, lanes, k);
        assert forall|i: int| 0 <= i < l2.len() implies match #[trigger] l2[i] {
            Some((_, c)) => c < LANE_PALETTE_SIZE,
            None => true,
        } by {
            assert(l.len() == lanes.len());
            if l2[i] != l[i] {
                assert(pls[k - 1].1 < LANE_PALETTE_SIZE);
            }
        }
    }
}

proof fn lemma_drop_free_tail_palette(lanes: Seq<LaneSlot>)
    requires
        lanes_in_palette(lanes),
    ensures
        lanes_in_palette(drop_free_tail(lanes)),
    decreases lanes.len(),
{
    if lanes.len() > 0 && lanes.last() is None {
        assert(lanes_in_palette(lanes.drop_last())) by {
            assert forall|i: int| 0 <= i < lanes.drop_last().len() implies match #[trigger] lanes.drop_last()[i] {
                Some((_, c)) => c < LANE_PALETTE_SIZE,
                None => true,
            } by {
                assert(lanes.drop_last()[i] == lanes[i]);
            }
        }
        lemma_drop_free_tail_palette(lanes.drop_last());
    }
}

proof fn lemma_row_palette(commits: Seq<CommitView>, idx: int, lanes: Seq<LaneSlot>, next: u8)
    requires
        0 <= idx < commits.len(),
        lanes_in_palette(lanes),
    ensures
        lanes_in_palette(layout_row(commits, idx, lanes, next).1),
        forall|j: int|
            0 <= j < layout_row(commits, idx, lanes, next).0.len() ==> (#[trigger] layout_row(
                commits,
                idx,
                lanes,
                next,
            ).0[j]).color_idx < LANE_PALETTE_SIZE,
{
    let found = parent_targets(commits, commits[idx]);
    let (lane, inc, lanes1) = place(lanes, idx);
    lemma_place(lanes, idx);
    assert(lanes_in_palette(lanes1)) by {
        assert forall|i: int| 0 <= i < lanes1.len() implies match #[trigger] lanes1[i] {
            Some((_, c)) => c < LANE_PALETTE_SIZE,
            None => true,
        } by {
            if i < lanes.len() {
                assert(lanes1[i] == lanes[i]);
            }
        }
    }
    let (cc, next1) = commit_color_of(lanes1, lane, next);
    assert(cc < LANE_PALETTE_SIZE) by {
        let s = lanes1[lane as int];
        assert(match s {
            Some((_, c)) => c < LANE_PALETTE_SIZE,
            None => true,
        });
    }
    let (pls, lanes2, next2) = parent_alloc(found, lane, cc, inc, lanes1, next1, found.len() as int);
    lemma_parent_alloc(found, lane, cc, inc, lanes1, next1, found.len() as int);
    lemma_alloc_palette(found, lane, cc, inc, lanes1, next1, found.len() as int);
    let gs = row_glyphs(lanes1, lanes2, lane, inc, cc, pls);
    assert forall|i: int| 0 <= i < gs.len() implies #[trigger] gs[i].1 < LANE_PALETTE_SIZE by {
        lemma_first_in_bounds(pls.len() as int, on_lane(pls, i));
        assert(claim_color(pls, i, cc) < LANE_PALETTE_SIZE);
        if 0 <= i < lanes1.len() {
            let s = lanes1[i];
            assert(match s {
                Some((_, c)) => c < LANE_PALETTE_SIZE,
                None => true,
            });
        }
    }
    let raw = raw_cells(gs, cc);
    assert forall|j: int| 0 <= j < raw.len() implies #[trigger] raw[j].color_idx < LANE_PALETTE_SIZE by {
        if j % 2 == 0 {
            assert(gs[j / 2].1 < LANE_PALETTE_SIZE);
        }
    }
    lemma_trim_blank(raw);
    let t = trim_blank(raw);
    assert forall|j: int| 0 <= j < t.len() implies #[trigger] t[j].color_idx < LANE_PALETTE_SIZE by {
        assert(t[j] == raw[j]);
    }
    let c0 = cleared(lanes2, inc);
    assert(lanes_in_palette(c0)) by {
        assert forall|i: int| 0 <= i < c0.len() implies match #[trigger] c0[i] {
            Some((_, c)) => c < LANE_PALETTE_SIZE,
            None => true,
        } by {
            let s = lanes2[i];
            assert(match s {
                Some((_, c)) => c < LANE_PALETTE_SIZE,
                None => true,
            });
        }
    }
    lemma_activated_palette(found, pls, c0, found.len() as int);
    lemma_drop_free_tail_palette(activated(found, pls, c0, found.len() as int));
}

proof fn lemma_upto_palette(commits: Seq<CommitView>, k: int)
    requires
        0 <= k <= commits.len(),
    ensures
        layout_upto(commits, k).0.len() == k,
        lanes_in_palette(layout_upto(commits, k).1),
        forall|i: int, j: int|
            0 <= i < k && 0 <= j < layout_upto(commits, k).0[i].len() ==> (#[trigger] layout_upto(
                commits,
                k,
            ).0[i][j]).color_idx < LANE_PALETTE_SIZE,
    decreases k,
{
    if k > 0 {
        lemma_upto_palette(commits, k - 1);
        let (rs, lanes, next) = layout_upto(commits, k - 1);
        lemma_row_palette(commits, k - 1, lanes, next);
        let rs2 = layout_upto(commits, k).0;
        assert forall|i: int, j: int| 0 <= i < k && 0 <= j < rs2[i].len() implies (
        #[trigger] rs2[i][j]).color_idx < LANE_PALETTE_SIZE by {
            if i < k - 1 {
                assert(rs2[i] == rs[i]);
            }
        }
    }
}

/// Every cell is drawn with a color of the lane palette.
pub proof fn law_colors_in_palette(commits: Seq<CommitView>, i: int, j: int)
    requires
        0 <= i < commits.len(),
        0 <= j < layout_cells(commits)[i].len(),
    ensures
        layout_cells(commits)[i][j].color_idx < LANE_PALETTE_SIZE,
{
    lemma_upto_palette(commits, commits.len() as int);
}

/// Each commit's only parent is the commit after it, the last commit has no
/// parent, and no two commits share a hash.
pub open spec fn linear_history(commits: Seq<CommitView>) -> bool {
    &&& commits.len() > 0 ==> commits.last().parents.len() == 0
    &&& forall|i: int| 0 <= i < commits.len() - 1 ==> (#[trigger] commits[i].parents) == seq![commits[i + 1].hash]
    &&& forall|i: int, j: int| 0 <= i < j < commits.len() ==> #[trigger] commits[i].hash != #[trigger] commits[j].hash
}

proof fn lemma_last_index_unique(hs: Seq<Seq<char>>, i: int)
    requires
        0 <= i < hs.len(),
        forall|j: int| 0 <= j < hs.len() && j != i ==> hs[j] != hs[i],
    ensures
        last_index_of(hs, hs[i]) == Some(i),
    decreases hs.len(),
{
    if i < hs.len() - 1 {
        let d = hs.drop_last();
        assert(d[i] == hs[i]);
        assert forall|j: int| 0 <= j < d.len() && j != i implies d[j] != d[i] by {
            assert(d[j] == hs[j]);
        }
        lemma_last_index_unique(d, i);
    }
}

/// The lanes of a linear history after `k` of its `n` rows.
pub open spec fn linear_lanes(k: int, n: int) -> (Seq<LaneSlot>, u8) {
    if k == 0 {
        (seq![], 0)
    } else if k < n {
        (seq![Some((k as usize, 0u8))], 1)
    } else {
        (seq![], 1)
    }
}

proof fn lemma_linear_row(commits: Seq<CommitView>, k: int)
    requires
        linear_history(commits),
        0 <= k < commits.len(),
        commits.len() <= usize::MAX,
    ensures
        ({
            let (lanes, next) = linear_lanes(k, commits.len() as int);
            let (cells, lanes2, next2) = layout_row(commits, k, lanes, next);
            &&& cells == seq![GraphCell { ch: COMMIT, color_idx: 0 }]
            &&& (lanes2, next2) == linear_lanes(k + 1, commits.len() as int)
        }),
{
    let n = commits.len() as int;
    let (lanes, next) = linear_lanes(k, n);
    let found = parent_targets(commits, commits[k]);
    if k < n - 1 {
        let hs = hashes(commits);
        assert forall|j: int| 0 <= j < hs.len() && j != k + 1 implies #[trigger] hs[j] != hs[k + 1] by {
            if j < k + 1 {
                assert(commits[j].hash != commits[k + 1].hash);
            } else {
                assert(commits[k + 1].hash != commits[j].hash);
            }
        }
        lemma_last_index_unique(hs, k + 1);
        assert(commits[k].parents[0] == commits[k + 1].hash);
        assert(found =~= seq![Some((k + 1) as usize)]);
    } else {
        assert(found =~= Seq::<Option<usize>>::empty());
    }
    if k == 0 {
        assert(incoming_prefix(lanes, k, 0) =~= Seq::<usize>::empty());
        assert(place(lanes, k) == (0usize, seq![0usize], seq![None::<(usize, u8)>]));
    } else {
        assert(lanes[0] == Some((k as usize, 0u8)));
        assert(waits_for(lanes[0], k));
        assert(incoming_prefix(lanes, k, 0) =~= Seq::<usize>::empty());
        assert(incoming_prefix(lanes, k, 1) =~= seq![0usize]);
        assert(place(lanes, k) == (0usize, seq![0usize], lanes));
    }
    let (lane, inc, lanes1) = place(lanes, k);
    assert(lanes1.len() == 1);
    let (cc, next1) = commit_color_of(lanes1, lane, next);
    assert(cc == 0 && next1 == 1);
    let (pls, lanes2, next2) = parent_alloc(found, lane, cc, inc, lanes1, next1, found.len() as int);
    if found.len() == 1 {
        assert(parent_alloc(found, lane, cc, inc, lanes1, next1, 0) == (Seq::<(usize, u8)>::empty(), lanes1, next1));
        assert(pls =~= seq![(0usize, 0u8)]);
    }
    assert(lanes2 == lanes1 && next2 == 1);
    let gs = row_glyphs(lanes1, lanes2, lane, inc, cc, pls);
    assert(gs =~= seq![(COMMIT, 0u8)]);
    let raw = raw_cells(gs, cc);
    assert(raw =~= seq![GraphCell { ch: COMMIT, color_idx: 0 }]);
    assert(trim_blank(raw) == raw);
    let c0 = cleared(lanes2, inc);
    assert(c0 =~= seq![None::<(usize, u8)>]);
    let a = activated(found, pls, c0, found.len() as int);
    if found.len() == 1 {
        assert(activated(found, pls, c0, 0) == c0);
        assert(a =~= seq![Some(((k + 1) as usize, 0u8))]);
        assert(drop_free_tail(a) == a);
    } else {
        assert(a == c0);
        assert(drop_free_tail(c0.drop_last()) == c0.drop_last());
        assert(c0.drop_last() =~= Seq::<LaneSlot>::empty());
    }
}

proof fn lemma_linear_upto(commits: Seq<CommitView>, k: int)
    requires
        linear_history(commits),
        0 <= k <= commits.len(),
        commits.len() <= usize::MAX,
    ensures
        layout_upto(commits, k).0.len() == k,
        (layout_upto(commits, k).1, layout_upto(commits, k).2) == linear_lanes(k, commits.len() as int),
        forall|i: int|
            0 <= i < k ==> #[trigger] layout_upto(commits, k).0[i] == seq![
                GraphCell { ch: COMMIT, color_idx: 0 },
            ],
    decreases k,
{
    if k > 0 {
        lemma_linear_upto(commits, k - 1);
        lemma_linear_row(commits, k - 1);
        let rs = layout_upto(commits, k - 1).0;
        let rs2 = layout_upto(commits, k).0;
        assert forall|i: int| 0 <= i < k implies #[trigger] rs2[i] == seq![GraphCell { ch: COMMIT, color_idx: 0 }] by {
            if i < k - 1 {
                assert(rs2[i] == rs[i]);
            }
        }
    }
}

/// A linear history is drawn as one lane: every row is a single commit glyph
/// in the first palette color.
pub proof fn law_linear_history_one_lane(commits: Seq<CommitView>, i: int)
    requires
        linear_history(commits),
        0 <= i < commits.len(),
        commits.len() <= usize::MAX,
    ensures
        layout_cells(commits)[i] == seq![GraphCell { ch: COMMIT, color_idx: 0 }],
{
    lemma_linear_upto(commits, commits.len() as int);
}

/// Parent arms after the first never take the commit's own lane, and the
/// first parent, when present, takes it.
proof fn lemma_alloc_lane(
    found: Seq<Option<usize>>,
    lane: usize,
    cc: u8,
    inc: Seq<usize>,
    lanes1: Seq<LaneSlot>,
    next: u8,
    k: int,
)
    requires
        0 <= k <= found.len(),
        lane < lanes1.len(),
        lanes1.len() + k <= usize::MAX,
    ensures
        ({
            let (pls, lanes2, nc) = parent_alloc(found, lane, cc, inc, lanes1, next, k);
            &&& lanes1.len() <= lanes2.len() <= lanes1.len() + k
            &&& k > 0 && found[0] is Some ==> pls.len() > 0 && pls[0] == (lane, cc)
            &&& forall|j: int| 1 <= j < pls.len() ==> #[trigger] pls[j].0 != lane
            &&& k > 0 && found[0] is None ==> forall|j: int| 0 <= j < pls.len() ==> #[trigger] pls[j].0 != lane
        }),
    decreases k,
{
    if k > 0 {
        lemma_alloc_lane(found, lane, cc, inc, lanes1, next, k - 1);
        let (pls, lanes, nc) = parent_alloc(found, lane, cc, inc, lanes1, next, k - 1);
        if k - 1 == 0 {
            assert(pls.len() == 0);
        }
        if found[k - 1] is Some && k - 1 > 0 {
            let (pl, lanes2) = side_lane_for(inc, lane, pls, lanes);
            lemma_first_in_bounds(inc.len() as int, other_than(inc, lane));
            lemma_first_in_bounds(lanes.len() as int, open_lane(lanes, lane, pls));
            match first_in(inc.len() as int, other_than(inc, lane)) {
                Some(j) => {},
                None => match first_in(lanes.len() as int, open_lane(lanes, lane, pls)) {
                    Some(i) => assert(i as usize == i),
                    None => assert(lanes.len() as usize == lanes.len()),
                },
            }
            assert(pl != lane);
            let np = pls.push((pl, nc % LANE_PALETTE_SIZE));
            assert forall|j: int| 1 <= j < np.len() implies #[trigger] np[j].0 != lane by {
                if j < pls.len() {
                    assert(np[j] == pls[j]);
                }
            }
            assert forall|j: int| 0 <= j < np.len() && found[0] is None implies #[trigger] np[j].0 != lane by {
                if j < pls.len() {
                    assert(np[j] == pls[j]);
                }
            }
        }
    }
}

proof fn lemma_activated_keeps(
    found: Seq<Option<usize>>,
    pls: Seq<(usize, u8)>,
    lanes: Seq<LaneSlot>,
    lane: usize,
    k: int,
)
    requires
        1 <= k,
        lane < lanes.len(),
        found.len() > 0,
        found[0] is Some,
        pls.len() > 0,
        pls[0].0 == lane,
        forall|j: int| 1 <= j < pls.len() ==> #[trigger] pls[j].0 != lane,
    ensures
        activated(found, pls, lanes, k).len() == lanes.len(),
        activated(found, pls, lanes, k)[lane as int] == Some((found[0]->0, pls[0].1)),
    decreases k,
{
    if k > 1 {
        lemma_activated_keeps(found, pls, lanes, lane, k - 1);
    } else {
        assert(activated(found, pls, lanes, 0) == lanes);
    }
}

proof fn lemma_drop_free_tail_keeps(lanes: Seq<LaneSlot>, i: int)
    requires
        0 <= i < lanes.len(),
        lanes[i] is Some,
    ensures
        i < drop_free_tail(lanes).len(),
        drop_free_tail(lanes)[i] == lanes[i],
    decreases lanes.len(),
{
    if lanes.len() > 0 && lanes.last() is None {
        assert(lanes.drop_last()[i] == lanes[i]);
        lemma_drop_free_tail_keeps(lanes.drop_last(), i);
    }
}

/// When a commit's first parent is in the list, the commit's lane goes on to
/// wait for that parent, in the commit's color.
pub proof fn law_first_parent_keeps_lane(commits: Seq<CommitView>, idx: int, lanes: Seq<LaneSlot>, next: u8)
    requires
        0 <= idx < commits.len(),
        parent_targets(commits, commits[idx]).len() > 0,
        parent_targets(commits, commits[idx])[0] is Some,
        lanes.len() + commits[idx].parents.len() + 1 <= usize::MAX,
    ensures
        ({
            let (lane, inc, lanes1) = place(lanes, idx);
            let (cc, next1) = commit_color_of(lanes1, lane, next);
            let after = layout_row(commits, idx, lanes, next).1;
            &&& lane < after.len()
            &&& after[lane as int] == Some((parent_targets(commits, commits[idx])[0]->0, cc))
        }),
{
    let found = parent_targets(commits, commits[idx]);
    let (lane, inc, lanes1) = place(lanes, idx);
    lemma_place(lanes, idx);
    assert(lanes1.len() <= lanes.len() + 1);
    let (cc, next1) = commit_color_of(lanes1, lane, next);
    let (pls, lanes2, next2) = parent_alloc(found, lane, cc, inc, lanes1, next1, found.len() as int);
    lemma_parent_alloc(found, lane, cc, inc, lanes1, next1, found.len() as int);
    lemma_alloc_lane(found, lane, cc, inc, lanes1, next1, found.len() as int);
    let c0 = cleared(lanes2, inc);
    lemma_activated_keeps(found, pls, c0, lane, found.len() as int);
    let a = activated(found, pls, c0, found.len() as int);
    lemma_drop_free_tail_keeps(a, lane as int);
}

/// The first parent, when it is in the list, takes the commit's own lane.
proof fn lemma_first_arm_on_lane(
    found: Seq<Option<usize>>,
    lane: usize,
    cc: u8,
    inc: Seq<usize>,
    lanes1: Seq<LaneSlot>,
    next: u8,
    k: int,
)
    requires
        1 <= k <= found.len(),
        found[0] is Some,
    ensures
        ({
            let pls = parent_alloc(found, lane, cc, inc, lanes1, next, k).0;
            pls.len() > 0 && pls[0] == (lane, cc)
        }),
    decreases k,
{
    if k > 1 {
        lemma_first_arm_on_lane(found, lane, cc, inc, lanes1, next, k - 1);
        let (pls, lanes, nc) = parent_alloc(found, lane, cc, inc, lanes1, next, k - 1);
        if found[k - 1] is Some {
            let (pl, lanes2) = side_lane_for(inc, lane, pls, lanes);
            assert(pls.push((pl, nc % LANE_PALETTE_SIZE))[0] == pls[0]);
        }
    } else {
        let (pls, lanes, nc) = parent_alloc(found, lane, cc, inc, lanes1, next, 0);
        assert(pls.len() == 0);
        assert(pls.push((lane, cc))[0] == (lane, cc));
    }
}

proof fn lemma_min_max_contain(s: Seq<usize>, k: int)
    requires
        0 <= k < s.len(),
    ensures
        seq_min(s) <= s[k] <= seq_max(s),
    decreases s.len(),
{
    if s.len() > 1 && k < s.len() - 1 {
        lemma_min_max_contain(s.drop_last(), k);
    }
}

/// The lane of the commit drawn for `idx` from `lanes`, the lanes that end in
/// it, and the lanes its parents go on in (with their colors).
pub open spec fn row_lanes(commits: Seq<CommitView>, idx: int, lanes: Seq<LaneSlot>, next: u8) -> (
    usize,
    Seq<usize>,
    Seq<(usize, u8)>,
) {
    let found = parent_targets(commits, commits[idx]);
    let (lane, inc, lanes1) = place(lanes, idx);
    let (cc, next1) = commit_color_of(lanes1, lane, next);
    (lane, inc, parent_alloc(found, lane, cc, inc, lanes1, next1, found.len() as int).0)
}

/// Merge arms are unbroken: in the row of a commit whose first parent is in
/// the list, the cells from the commit glyph out to the corner of any further
/// parent's lane all link horizontally. Every lane in between that is neither
/// a parent lane nor a lane ending in this commit, and every gap between
/// lanes, is drawn as a horizontal line, whatever it held before (a passing
/// lane's pipe included).
pub proof fn law_merge_arms_unbroken(
    commits: Seq<CommitView>,
    idx: int,
    lanes: Seq<LaneSlot>,
    next: u8,
    j: int,
    m: int,
)
    requires
        0 <= idx < commits.len(),
        commits[idx].parents.len() > 0,
        parent_targets(commits, commits[idx])[0] is Some,
        claimed(row_lanes(commits, idx, lanes, next).2, j),
        j != row_lanes(commits, idx, lanes, next).0,
        ({
            let lane = row_lanes(commits, idx, lanes, next).0 as int;
            (lane < j && 2 * lane < m < 2 * j) || (j < lane && 2 * j < m < 2 * lane)
        }),
    ensures
        ({
            let (lane, inc, pls) = row_lanes(commits, idx, lanes, next);
            let cells = layout_row(commits, idx, lanes, next).0;
            &&& 2 * lane < cells.len()
            &&& 2 * j < cells.len()
            &&& cells[2 * lane].ch == COMMIT
            &&& cells[2 * j].ch == CORNER_SE
            &&& connects(cells[m].ch)
            &&& !(m % 2 == 0 && (claimed(pls, m / 2) || inc.contains((m / 2) as usize))) ==> cells[m].ch == HORIZ
        }),
{
    let found = parent_targets(commits, commits[idx]);
    let (lane, inc, lanes1) = place(lanes, idx);
    lemma_place(lanes, idx);
    let (cc, next1) = commit_color_of(lanes1, lane, next);
    let (pls, lanes2, next2) = parent_alloc(found, lane, cc, inc, lanes1, next1, found.len() as int);
    lemma_parent_alloc(found, lane, cc, inc, lanes1, next1, found.len() as int);
    lemma_first_arm_on_lane(found, lane, cc, inc, lanes1, next1, found.len() as int);
    let kj = choose|k: int| 0 <= k < pls.len() && pls[k].0 == j;
    let ps = positions(pls);
    assert(ps[0] == lane);
    assert(ps[kj] == j);
    lemma_min_max_contain(ps, 0);
    lemma_min_max_contain(ps, kj);
    assert(pls.len() > 1) by {
        if pls.len() <= 1 {
            assert(kj == 0);
        }
    }
    let gs = row_glyphs(lanes1, lanes2, lane, inc, cc, pls);
    assert(j < lanes2.len());
    let lo = if (lane as int) < j { lane as int } else { j };
    let hi = if (lane as int) < j { j } else { lane as int };
    // Every lane from the commit's to the parent's links horizontally.
    assert forall|i: int| lo <= i <= hi implies connects(#[trigger] gs[i].0) && (i != lane && !claimed(pls, i)
        && !inc.contains(i as usize) ==> gs[i].0 == HORIZ) by {
        if i != lane {
            assert(seq_min(ps) <= i <= seq_max(ps));
        }
    }
    let raw = raw_cells(gs, cc);
    assert(raw.len() == 2 * gs.len() - 1);
    assert forall|n: int| 2 * lo <= n <= 2 * hi implies connects(#[trigger] raw[n].ch) && (!(n % 2 == 0 && (
    claimed(pls, n / 2) || inc.contains((n / 2) as usize))) && n != 2 * lane ==> raw[n].ch == HORIZ) by {
        if n % 2 == 0 {
            assert(lo <= n / 2 <= hi);
        } else {
            assert(lo <= n / 2 && n / 2 + 1 <= hi);
            assert(connects(gs[n / 2].0));
            assert(connects(gs[n / 2 + 1].0));
        }
    }
    assert(raw[2 * lane].ch == COMMIT) by {
        assert((2 * lane) % 2 == 0 && (2 * lane) / 2 == lane);
    }
    assert(raw[2 * j].ch == CORNER_SE) by {
        assert((2 * j) % 2 == 0 && (2 * j) / 2 == j);
        assert(claimed(pls, j));
    }
    lemma_trim_blank(raw);
    let t = trim_blank(raw);
    assert(2 * lane < t.len());
    assert(2 * j < t.len());
    assert(t[m] == raw[m]);
    assert(t[2 * lane] == raw[2 * lane]);
    assert(t[2 * j] == raw[2 * j]);
    assert(m != 2 * lane);
}

} // verus!
