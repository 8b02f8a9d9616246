//! Commit search: a query and the rows that match it.
use crate::graph::model::GraphRow;
use crate::picker::{cursor_down, cursor_up};
use crate::text::{chars_of, contains_chars, contains_seq, lowercase, push_char, string_from_range, to_lower};
use vstd::prelude::*;

verus! {

pub struct FinderState {
    pub open: bool,
    pub query: String,
    pub matches: Vec<usize>,
    pub cursor: usize,
}

impl Default for FinderState {
    fn default() -> (res: Self)
        ensures
            !res.open,
            res.query@.len() == 0,
            res.matches@.len() == 0,
            res.cursor == 0,
    {
        FinderState { open: false, query: String::new(), matches: Vec::new(), cursor: 0 }
    }
}

/// Row `r` matches the lowercased query `q`: it occurs, ignoring case, in the
/// subject, the author or the hash.
pub open spec fn row_matches(r: GraphRow, q: Seq<char>) -> bool {
    ||| contains_seq(lowercase(r.subject@), q)
    ||| contains_seq(lowercase(r.author@), q)
    ||| contains_seq(lowercase(r.hash@), q)
}

/// The indices of the first `n` rows that match `q`, in order.
pub open spec fn matching_rows(rows: Seq<GraphRow>, q: Seq<char>, n: int) -> Seq<usize>
    decreases n,
{
    if n <= 0 {
        seq![]
    } else {
        let r = matching_rows(rows, q, n - 1);
        if row_matches(rows[n - 1], q) {
            r.push((n - 1) as usize)
        } else {
            r
        }
    }
}

/// The cursor kept within `len` matches.
pub open spec fn clamp_cursor(cursor: usize, len: nat) -> usize {
    if cursor >= len {
        if len == 0 {
            0
        } else {
            (len - 1) as usize
        }
    } else {
        cursor
    }
}

/// The finder after its matches are recomputed for `rows`.
pub open spec fn refreshed(old: FinderState, new: FinderState, rows: Seq<GraphRow>) -> bool {
    &&& new.open == old.open
    &&& new.query@ == old.query@
    &&& new.matches@ == matching_rows(rows, lowercase(old.query@), rows.len() as int)
    &&& new.cursor == clamp_cursor(old.cursor, new.matches@.len())
}

fn lower_chars(s: &String) -> (res: Vec<char>)
    ensures
        res@ == lowercase(s@),
        !s@.contains('\u{3a3}') ==> forall|i: int|
            0 <= i <= s@.len() ==> (#[trigger] lowercase(s@.take(i))).is_prefix_of(res@),
{
    let l = to_lower(s.as_str());
    chars_of(l.as_str())
}

fn row_matches_exec(r: &GraphRow, q: &Vec<char>) -> (res: bool)
    ensures
        res == row_matches(*r, q@),
{
    if contains_chars(&lower_chars(&r.subject), q) {
        return true;
    }
    if contains_chars(&lower_chars(&r.author), q) {
        return true;
    }
    contains_chars(&lower_chars(&r.hash), q)
}

proof fn lemma_contains_prefix(hay: Seq<char>, short: Seq<char>, long: Seq<char>)
    requires
        short.is_prefix_of(long),
        contains_seq(hay, long),
    ensures
        contains_seq(hay, short),
{
    let i = choose|i: int|
        0 <= i && i + long.len() <= hay.len() && #[trigger] hay.subrange(i, i + long.len()) == long;
    assert(hay.subrange(i, i + short.len()) =~= long.subrange(0, short.len() as int));
    assert(long.subrange(0, short.len() as int) =~= short);
}

/// A query that extends another matches no row that the other does not.
proof fn lemma_longer_query_fewer_matches(rows: Seq<GraphRow>, short: Seq<char>, long: Seq<char>, n: int)
    requires
        short.is_prefix_of(long),
        0 <= n <= rows.len(),
    ensures
        forall|k: int|
            0 <= k < matching_rows(rows, long, n).len() ==> matching_rows(rows, short, n).contains(
                #[trigger] matching_rows(rows, long, n)[k],
            ),
    decreases n,
{
    if n > 0 {
        lemma_longer_query_fewer_matches(rows, short, long, n - 1);
        let r = rows[n - 1];
        if row_matches(r, long) {
            if contains_seq(lowercase(r.subject@), long) {
                lemma_contains_prefix(lowercase(r.subject@), short, long);
            } else if contains_seq(lowercase(r.author@), long) {
                lemma_contains_prefix(lowercase(r.author@), short, long);
            } else {
                lemma_contains_prefix(lowercase(r.hash@), short, long);
            }
        }
        let ls = matching_rows(rows, long, n);
        let ss = matching_rows(rows, short, n);
        let ls0 = matching_rows(rows, long, n - 1);
        let ss0 = matching_rows(rows, short, n - 1);
        assert forall|k: int| 0 <= k < ls.len() implies ss.contains(#[trigger] ls[k]) by {
            if k < ls0.len() {
                assert(ls[k] == ls0[k]);
                let j = choose|j: int| 0 <= j < ss0.len() && ss0[j] == ls0[k];
                assert(ss[j] == ss0[j]);
            } else {
                assert(ss[ss.len() - 1] == ls[k]);
            }
        }
    }
}

impl FinderState {
    pub fn open(&mut self)
        ensures
            final(self).open,
            final(self).query@.len() == 0,
            final(self).matches@.len() == 0,
            final(self).cursor == 0,
    {
        self.open = true;
        self.query = String::new();
        self.matches = Vec::new();
        self.cursor = 0;
    }

    pub fn close(&mut self)
        ensures
            !final(self).open,
            final(self).query@ == old(self).query@,
            final(self).matches@ == old(self).matches@,
            final(self).cursor == old(self).cursor,
    {
        self.open = false;
    }

    /// Adds a character to the query and recomputes the matches. A longer
    /// query never adds a match: when the matches were those of the old query
    /// and the query holds no capital sigma, each new match was an old one.
    pub fn push_char(&mut self, c: char, rows: &[GraphRow])
        ensures
            final(self).query@ == old(self).query@.push(c),
            refreshed(
                FinderState { query: final(self).query, ..*old(self) },
                *final(self),
                rows@,
            ),
            (!final(self).query@.contains('\u{3a3}') && old(self).matches@ == matching_rows(
                rows@,
                lowercase(old(self).query@),
                rows@.len() as int,
            )) ==> forall|k: int|
                0 <= k < final(self).matches@.len() ==> old(self).matches@.contains(
                    #[trigger] final(self).matches@[k],
                ),
    {
        push_char(&mut self.query, c);
        self.refresh(rows);
        proof {
            let q = self.query@;
            if !q.contains('\u{3a3}') {
                assert(q.take(old(self).query@.len() as int) =~= old(self).query@);
                let short = lowercase(q.take(old(self).query@.len() as int));
                assert(short.is_prefix_of(lowercase(q)));
                lemma_longer_query_fewer_matches(rows@, short, lowercase(q), rows@.len() as int);
            }
        }
    }

    /// Drops the last character of the query and recomputes the matches.
    pub fn backspace(&mut self, rows: &[GraphRow])
        ensures
            final(self).query@ == if old(self).query@.len() == 0 {
                old(self).query@
            } else {
                old(self).query@.drop_last()
            },
            refreshed(
                FinderState { query: final(self).query, ..*old(self) },
                *final(self),
                rows@,
            ),
    {
        let cs = chars_of(self.query.as_str());
        let end = if cs.len() == 0 { 0 } else { cs.len() - 1 };
        self.query = string_from_range(&cs, 0, end);
        assert(cs@.subrange(0, end as int) =~= if cs@.len() == 0 { cs@ } else { cs@.drop_last() });
        self.refresh(rows);
    }

    pub fn move_up(&mut self)
        ensures
            final(self).open == old(self).open,
            final(self).query@ == old(self).query@,
            final(self).matches@ == old(self).matches@,
            final(self).cursor == cursor_up(old(self).cursor),
    {
        if self.cursor > 0 {
            self.cursor -= 1;
        }
    }

    pub fn move_down(&mut self)
        ensures
            final(self).open == old(self).open,
            final(self).query@ == old(self).query@,
            final(self).matches@ == old(self).matches@,
            final(self).cursor == cursor_down(old(self).cursor, old(self).matches@.len()),
    {
        if self.cursor < self.matches.len() && self.cursor + 1 < self.matches.len() {
            self.cursor += 1;
        }
    }

    /// The row index under the cursor.
    pub fn selected_index(&self) -> (res: Option<usize>)
        ensures
            res == if self.cursor < self.matches@.len() {
                Some(self.matches@[self.cursor as int])
            } else {
                None::<usize>
            },
    {
        if self.cursor < self.matches.len() {
            Some(self.matches[self.cursor])
        } else {
            None
        }
    }

    fn refresh(&mut self, rows: &[GraphRow])
        ensures
            refreshed(*old(self), *final(self), rows@),
            !old(self).query@.contains('\u{3a3}') ==> forall|i: int|
                0 <= i <= old(self).query@.len() ==> (#[trigger] lowercase(old(self).query@.take(i))).is_prefix_of(
                    lowercase(old(self).query@),
                ),
    {
        let q = lower_chars(&self.query);
        let mut matches: Vec<usize> = Vec::new();
        let mut i: usize = 0;
        while i < rows.len()
            invariant
                i <= rows@.len(),
                q@ == lowercase(self.query@),
                matches@ == matching_rows(rows@, q@, i as int),
            decreases rows@.len() - i,
        {
            if row_matches_exec(&rows[i], &q) {
                matches.push(i);
            }
            i += 1;
        }
        self.matches = matches;
        if self.cursor >= self.matches.len() {
            self.cursor = if self.matches.len() == 0 { 0 } else { self.matches.len() - 1 };
        }
    }
}

proof fn lemma_matching_rows_member(rows: Seq<GraphRow>, q: Seq<char>, n: int, i: int)
    requires
        0 <= n <= rows.len(),
        0 <= i < rows.len(),
        rows.len() <= usize::MAX,
    ensures
        matching_rows(rows, q, n).contains(i as usize) <==> (i < n && row_matches(rows[i], q)),
    decreases n,
{
    let s = matching_rows(rows, q, n);
    if n == 0 {
        assert(s.len() == 0);
        assert(!s.contains(i as usize));
    } else {
        lemma_matching_rows_member(rows, q, n - 1, i);
        let r = matching_rows(rows, q, n - 1);
        if row_matches(rows[n - 1], q) {
            assert(s == r.push((n - 1) as usize));
            if s.contains(i as usize) {
                let k = choose|k: int| 0 <= k < s.len() && s[k] == i as usize;
                if k < r.len() {
                    assert(r[k] == s[k]);
                    assert(r.contains(i as usize));
                } else {
                    assert(s[k] == (n - 1) as usize);
                    assert(i == n - 1);
                }
            }
            if i < n && row_matches(rows[i], q) {
                if i < n - 1 {
                    assert(r.contains(i as usize));
                    let k = choose|k: int| 0 <= k < r.len() && r[k] == i as usize;
                    assert(s[k] == r[k]);
                    assert(s.contains(i as usize));
                } else {
                    assert(s[s.len() - 1] == i as usize);
                    assert(s.contains(i as usize));
                }
            }
        } else {
            assert(s == r);
        }
    }
}

/// Searching covers the subject, the author and the hash: once the matches
/// are recomputed, a row is among them exactly when one of those three,
/// lowercased, contains the lowercased query.
pub proof fn law_search_covers_subject_author_hash(
    old: FinderState,
    new: FinderState,
    rows: Seq<GraphRow>,
    i: int,
)
    requires
        refreshed(old, new, rows),
        0 <= i < rows.len(),
        rows.len() <= usize::MAX,
    ensures
        new.matches@.contains(i as usize) <==> ({
            let q = lowercase(old.query@);
            ||| contains_seq(lowercase(rows[i].subject@), q)
            ||| contains_seq(lowercase(rows[i].author@), q)
            ||| contains_seq(lowercase(rows[i].hash@), q)
        }),
{
    lemma_matching_rows_member(rows, lowercase(old.query@), rows.len() as int, i);
}

} // verus!
