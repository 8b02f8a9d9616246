//! Reads the NUL-separated records that `git log` prints (see
//! `crate::git::log_commits`): hash, parents, decorations, subject, author,
//! timestamp, each followed by a NUL.
use super::model::{commit_views, CommitNode, CommitView};
use crate::text::{
    chars_of, parse_i64, parse_i64_range, split_ranges, split_when, string_from_range, trim, trim_range, trim_when,
    CharClass,
};
use vstd::prelude::*;

verus! {

/// The pieces of a list that are not empty, in order.
pub open spec fn nonempty_pieces(ps: Seq<Seq<char>>) -> Seq<Seq<char>>
    decreases ps.len(),
{
    if ps.len() == 0 {
        seq![]
    } else {
        let r = nonempty_pieces(ps.drop_last());
        if ps.last().len() == 0 {
            r
        } else {
            r.push(ps.last())
        }
    }
}

/// `str::split_whitespace`.
pub open spec fn words(s: Seq<char>) -> Seq<Seq<char>> {
    nonempty_pieces(split_when(s, CharClass::Whitespace))
}

/// Each piece trimmed, empty ones dropped.
pub open spec fn refs_from_pieces(ps: Seq<Seq<char>>) -> Seq<Seq<char>>
    decreases ps.len(),
{
    if ps.len() == 0 {
        seq![]
    } else {
        let r = refs_from_pieces(ps.drop_last());
        let t = trim(ps.last());
        if t.len() == 0 {
            r
        } else {
            r.push(t)
        }
    }
}

/// The refs in a `%d` decoration such as ` (HEAD -> main, origin/main)`,
/// as written there: `HEAD -> main`, `origin/main`.
pub open spec fn refs_of(raw: Seq<char>) -> Seq<Seq<char>> {
    refs_from_pieces(split_when(trim_when(trim(raw), CharClass::Paren), CharClass::Comma))
}

/// The commit described by six fields, unless its hash is blank.
pub open spec fn commit_from(f: Seq<Seq<char>>) -> Option<CommitView> {
    let hash = trim(f[0]);
    if hash.len() == 0 {
        None
    } else {
        Some(
            CommitView {
                hash,
                parents: words(f[1]),
                refs: refs_of(f[2]),
                subject: trim(f[3]),
                author: trim(f[4]),
                timestamp: match parse_i64(trim(f[5])) {
                    Some(v) => v,
                    None => 0,
                },
            },
        )
    }
}

/// Drops trailing empty fields (the record terminator leaves one).
pub open spec fn drop_empty_tail(fs: Seq<Seq<char>>) -> Seq<Seq<char>>
    decreases fs.len(),
{
    if fs.len() > 0 && fs.last().len() == 0 {
        drop_empty_tail(fs.drop_last())
    } else {
        fs
    }
}

/// The commits of the first `m` complete records of six fields.
pub open spec fn records_upto(fs: Seq<Seq<char>>, m: int) -> Seq<CommitView>
    decreases m,
{
    if m <= 0 {
        seq![]
    } else {
        let r = records_upto(fs, m - 1);
        match commit_from(fs.subrange(6 * (m - 1), 6 * m)) {
            Some(c) => r.push(c),
            None => r,
        }
    }
}

/// The commits of a `git log` output: its NUL-separated fields, without the
/// trailing empty ones, read six at a time; an incomplete last record and
/// records with a blank hash are skipped.
pub open spec fn parse_log_spec(raw: Seq<char>) -> Seq<CommitView> {
    let fs = drop_empty_tail(split_when(raw, CharClass::Nul));
    records_upto(fs, (fs.len() / 6) as int)
}

/// The ranges of `cs`, read as strings.
pub open spec fn range_views(cs: Seq<char>, rs: Seq<(usize, usize)>) -> Seq<Seq<char>> {
    rs.map_values(|r: (usize, usize)| cs.subrange(r.0 as int, r.1 as int))
}

/// The words of `cs[from..to]`.
fn words_in(cs: &Vec<char>, from: usize, to: usize) -> (res: Vec<String>)
    requires
        from <= to <= cs@.len(),
    ensures
        res@.map_values(|s: String| s@) == words(cs@.subrange(from as int, to as int)),
{
    let pieces = split_ranges(cs, from, to, CharClass::Whitespace);
    let ghost ps = range_views(cs@, pieces@);
    let mut out: Vec<String> = Vec::new();
    let mut k: usize = 0;
    while k < pieces.len()
        invariant
            k <= pieces@.len(),
            ps == range_views(cs@, pieces@),
            forall|j: int| 0 <= j < pieces@.len() ==> from <= (#[trigger] pieces@[j]).0 <= pieces@[j].1 <= to,
            to <= cs@.len(),
            out@.map_values(|s: String| s@) == nonempty_pieces(ps.take(k as int)),
        decreases pieces@.len() - k,
    {
        let (a, b) = pieces[k];
        assert(ps.take(k + 1).drop_last() =~= ps.take(k as int));
        assert(ps.take(k + 1).last() == cs@.subrange(a as int, b as int));
        if a < b {
            let w = string_from_range(cs, a, b);
            let ghost before = out@.map_values(|s: String| s@);
            out.push(w);
            assert(out@.map_values(|s: String| s@) =~= before.push(w@));
        }
        k += 1;
    }
    assert(ps.take(k as int) =~= ps);
    out
}

/// The refs of the decoration `cs[from..to]`.
fn refs_in(cs: &Vec<char>, from: usize, to: usize) -> (res: Vec<String>)
    requires
        from <= to <= cs@.len(),
    ensures
        res@.map_values(|s: String| s@) == refs_of(cs@.subrange(from as int, to as int)),
{
    let (a0, b0) = trim_range(cs, from, to, CharClass::Whitespace);
    let (a1, b1) = trim_range(cs, a0, b0, CharClass::Paren);
    let pieces = split_ranges(cs, a1, b1, CharClass::Comma);
    let ghost ps = range_views(cs@, pieces@);
    let mut out: Vec<String> = Vec::new();
    let mut k: usize = 0;
    while k < pieces.len()
        invariant
            k <= pieces@.len(),
            ps == range_views(cs@, pieces@),
            forall|j: int| 0 <= j < pieces@.len() ==> a1 <= (#[trigger] pieces@[j]).0 <= pieces@[j].1 <= b1,
            b1 <= cs@.len(),
            out@.map_values(|s: String| s@) == refs_from_pieces(ps.take(k as int)),
        decreases pieces@.len() - k,
    {
        let (a, b) = pieces[k];
        assert(ps.take(k + 1).drop_last() =~= ps.take(k as int));
        assert(ps.take(k + 1).last() == cs@.subrange(a as int, b as int));
        let (ta, tb) = trim_range(cs, a, b, CharClass::Whitespace);
        if ta < tb {
            let r = string_from_range(cs, ta, tb);
            let ghost before = out@.map_values(|s: String| s@);
            out.push(r);
            assert(out@.map_values(|s: String| s@) =~= before.push(r@));
        }
        k += 1;
    }
    assert(ps.take(k as int) =~= ps);
    out
}

/// The commit of the six fields starting at `fields[base]`, unless its hash is blank.
fn commit_at(cs: &Vec<char>, fields: &Vec<(usize, usize)>, base: usize) -> (res: Option<
    CommitNode,
>)
    requires
        base + 6 <= fields@.len(),
        forall|j: int| 0 <= j < fields@.len() ==> (#[trigger] fields@[j]).0 <= fields@[j].1 <= cs@.len(),
    ensures
        match res {
            Some(c) => commit_from(range_views(cs@, fields@).subrange(base as int, base + 6)) == Some(c@),
            None => commit_from(range_views(cs@, fields@).subrange(base as int, base + 6)) is None,
        },
{
    let len = fields.len();
    assert(base + 6 <= len);
    let ghost f = range_views(cs@, fields@).subrange(base as int, base + 6);
    assert(forall|j: int| 0 <= j < 6 ==> f[j] == cs@.subrange(fields@[base + j].0 as int, fields@[base + j].1 as int));
    let (h0, h1) = fields[base];
    let (ha, hb) = trim_range(cs, h0, h1, CharClass::Whitespace);
    if ha == hb {
        return None;
    }
    let hash = string_from_range(cs, ha, hb);
    let (p0, p1) = fields[base + 1];
    let parents = words_in(cs, p0, p1);
    let (r0, r1) = fields[base + 2];
    let refs = refs_in(cs, r0, r1);
    let (s0, s1) = fields[base + 3];
    let (sa, sb) = trim_range(cs, s0, s1, CharClass::Whitespace);
    let subject = string_from_range(cs, sa, sb);
    let (u0, u1) = fields[base + 4];
    let (ua, ub) = trim_range(cs, u0, u1, CharClass::Whitespace);
    let author = string_from_range(cs, ua, ub);
    let (t0, t1) = fields[base + 5];
    let (ta, tb) = trim_range(cs, t0, t1, CharClass::Whitespace);
    let timestamp = match parse_i64_range(cs, ta, tb) {
        Some(v) => v,
        None => 0,
    };
    Some(CommitNode { hash, parents, refs, subject, author, timestamp })
}

/// Reads the commits of a `git log` output (see `parse_log_spec`).
pub fn parse_log(raw: &str) -> (res: Vec<CommitNode>)
    ensures
        commit_views(res@) == parse_log_spec(raw@),
{
    let cs = chars_of(raw);
    let mut fields = split_ranges(&cs, 0, cs.len(), CharClass::Nul);
    assert(cs@.subrange(0, cs@.len() as int) =~= raw@);
    let ghost all = range_views(cs@, fields@);
    while fields.len() > 0 && fields[fields.len() - 1].0 == fields[fields.len() - 1].1
        invariant
            forall|j: int| 0 <= j < fields@.len() ==> (#[trigger] fields@[j]).0 <= fields@[j].1 <= cs@.len(),
            drop_empty_tail(all) == drop_empty_tail(range_views(cs@, fields@)),
        decreases fields@.len(),
    {
        let ghost before = range_views(cs@, fields@);
        fields.pop();
        assert(range_views(cs@, fields@) =~= before.drop_last());
    }
    let ghost fs = range_views(cs@, fields@);
    assert(drop_empty_tail(fs) == fs);
    let mut commits: Vec<CommitNode> = Vec::new();
    let n = fields.len() / 6;
    let mut m: usize = 0;
    while m < n
        invariant
            n == fields@.len() / 6,
            m <= n,
            fs == range_views(cs@, fields@),
            forall|j: int| 0 <= j < fields@.len() ==> (#[trigger] fields@[j]).0 <= fields@[j].1 <= cs@.len(),
            commit_views(commits@) == records_upto(fs, m as int),
        decreases n - m,
    {
        let len = fields.len();
        assert(6 * m + 6 <= len) by (nonlinear_arith)
            requires
                m < n,
                n == len / 6,
        ;
        let c = commit_at(&cs, &fields, 6 * m);
        assert(6 * (m + 1) == 6 * m + 6);
        match c {
            Some(node) => {
                let ghost before = commit_views(commits@);
                commits.push(node);
                assert(commit_views(commits@) =~= before.push(node@));
            },
            None => {},
        }
        m += 1;
    }
    commits
}

proof fn lemma_records_have_hashes(fs: Seq<Seq<char>>, m: int)
    ensures
        forall|i: int| 0 <= i < records_upto(fs, m).len() ==> (#[trigger] records_upto(fs, m)[i]).hash.len() > 0,
    decreases m,
{
    if m > 0 {
        lemma_records_have_hashes(fs, m - 1);
        let r = records_upto(fs, m - 1);
        let s = records_upto(fs, m);
        assert forall|i: int| 0 <= i < s.len() implies (#[trigger] s[i]).hash.len() > 0 by {
            if i < r.len() {
                assert(s[i] == r[i]);
            }
        }
    }
}

/// Every commit read from a log has a hash: records whose hash is blank are
/// skipped.
pub proof fn law_parsed_commits_have_hashes(raw: Seq<char>, i: int)
    requires
        0 <= i < parse_log_spec(raw).len(),
    ensures
        parse_log_spec(raw)[i].hash.len() > 0,
{
    let fs = drop_empty_tail(split_when(raw, CharClass::Nul));
    lemma_records_have_hashes(fs, (fs.len() / 6) as int);
}

} // verus!
